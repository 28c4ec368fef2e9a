use maws_menu::history::{History, HistoryConfig};
use maws_menu::key::Key;
use maws_menu::select::{Account, AccountSelect, Role};
use maws_menu::term::State;

fn role(name: &str, id: &str) -> Role {
    Role {
        arn: format!("arn:aws:iam::{}:role/{}", id, name),
        id: id.to_string(),
        role: name.to_string(),
    }
}

fn account(name: &str, id: &str, roles: &[&str]) -> Account {
    Account { name: name.to_string(), roles: roles.iter().map(|r| role(r, id)).collect() }
}

fn remembered(recent: &[&str], roles: &[(&str, &str)]) -> History {
    History::new(
        HistoryConfig {
            account: None,
            last_accounts: recent.iter().map(|s| s.to_string()).collect(),
            roles: roles.iter().map(|(a, r)| (a.to_string(), r.to_string())).collect(),
        },
        5,
    )
}

fn three_accounts(history: History) -> AccountSelect {
    AccountSelect::new(
        vec![
            account("dev", "111", &["admin", "reader"]),
            account("prod", "222", &["reader", "writer", "admin"]),
            account("test", "333", &[]),
        ],
        history,
    )
}

fn frame_of(select: &AccountSelect, selected: usize) -> String {
    let mut out = String::new();
    select.account_menu().draw(&mut out, selected);
    out
}

#[test]
fn account_labels_are_padded_names_and_first_role_ids() {
    let select = three_accounts(remembered(&[], &[]));
    let blanks = " ".repeat(32);
    let expected = format!(
        "      dev{} 111\r\n      prod{} 222\r\n      test{} \r\n",
        &blanks[3..],
        &blanks[4..],
        &blanks[4..]
    );
    assert_eq!(frame_of(&select, 9), expected);
    assert_eq!(
        frame_of(&select, 9),
        format!(
            "      {:32} {}\r\n      {:32} {}\r\n      {:32} {}\r\n",
            "dev", "111", "prod", "222", "test", ""
        )
    );
}

#[test]
fn account_label_counts_characters_not_bytes() {
    let select = AccountSelect::new(
        vec![account("\u{e9}t\u{e9}", "1", &["r"])],
        remembered(&[], &[]),
    );
    assert_eq!(frame_of(&select, 9), format!("      {:32} {}\r\n", "\u{e9}t\u{e9}", "1"));
}

#[test]
fn long_account_names_are_not_cut() {
    let long = "a".repeat(40);
    let select = AccountSelect::new(vec![account(&long, "7", &["r"])], remembered(&[], &[]));
    assert_eq!(frame_of(&select, 9), format!("      {} 7\r\n", long));
    let exact = "b".repeat(32);
    let select = AccountSelect::new(vec![account(&exact, "7", &["r"])], remembered(&[], &[]));
    assert_eq!(frame_of(&select, 9), format!("      {} 7\r\n", exact));
}

#[test]
fn recent_accounts_have_their_rank_as_shortcut() {
    let select = three_accounts(remembered(&["test", "gone", "dev"], &[]));
    assert_eq!(
        frame_of(&select, 9),
        format!(
            "  [2] {:32} 111\r\n      {:32} 222\r\n  [0] {:32} \r\n",
            "dev", "prod", "test"
        )
    );
    let menu = select.account_menu();
    assert_eq!(menu.step(State::Active(1), Key::Char('0')), State::Committed(2));
    assert_eq!(menu.step(State::Active(1), Key::Char('2')), State::Committed(0));
    assert_eq!(menu.step(State::Active(1), Key::Char('1')), State::Active(1));
}

#[test]
fn ranks_beyond_nine_have_no_shortcut() {
    let recent: Vec<String> = (0..12).map(|i| format!("acct{}", i)).collect();
    let history = History::new(
        HistoryConfig { account: None, last_accounts: recent.clone(), roles: Vec::new() },
        20,
    );
    let accounts = recent.iter().map(|name| account(name, "1", &["r"])).collect();
    let select = AccountSelect::new(accounts, history);
    let mut expected = String::new();
    for (i, name) in recent.iter().enumerate() {
        if i < 10 {
            expected.push_str(&format!("  [{}] {:32} 1\r\n", i, name));
        } else {
            expected.push_str(&format!("      {:32} 1\r\n", name));
        }
    }
    assert_eq!(frame_of(&select, 99), expected);
}

#[test]
fn most_recent_account_is_the_default() {
    let select = three_accounts(remembered(&["prod", "dev"], &[]));
    assert_eq!(select.account_menu().start(), State::Active(1));
    let select = three_accounts(remembered(&["gone", "prod"], &[]));
    assert_eq!(select.account_menu().start(), State::Active(0));
    let select = three_accounts(remembered(&[], &[]));
    assert_eq!(select.account_menu().start(), State::Active(0));
}

#[test]
fn account_at_maps_the_index_back() {
    let select = three_accounts(remembered(&[], &[]));
    assert_eq!(select.account_at(0), Some(&"dev".to_string()));
    assert_eq!(select.account_at(2), Some(&"test".to_string()));
    assert_eq!(select.account_at(3), None);
}

#[test]
fn select_account_runs_the_account_menu() {
    let select = three_accounts(remembered(&["prod"], &[]));
    let mut out = String::new();
    assert_eq!(
        select.select_account(&[Key::Down, Key::Char('\n')], &mut out),
        Some(&"test".to_string())
    );
    let mut expected = String::new();
    select.account_menu().interact(&[Key::Down, Key::Char('\n')], &mut expected);
    assert_eq!(out, expected);
    let mut out = String::new();
    assert_eq!(select.select_account(&[Key::Char('0')], &mut out), Some(&"prod".to_string()));
    assert_eq!(select.select_account(&[Key::Esc], &mut out), None);
    assert_eq!(select.select_account(&[], &mut out), None);
}

#[test]
fn role_menu_lists_the_roles_without_shortcuts() {
    let select = three_accounts(remembered(&[], &[("prod", "writer")]));
    let menu = select.role_menu("prod").unwrap();
    let mut out = String::new();
    menu.draw(&mut out, 9);
    assert_eq!(out, "      reader\r\n      writer\r\n      admin\r\n");
    assert_eq!(menu.start(), State::Active(1));
    assert_eq!(select.role_menu("dev").unwrap().start(), State::Active(0));
    assert_eq!(select.role_menu("test").unwrap().start(), State::Cancelled);
    assert!(select.role_menu("gone").is_none());
}

#[test]
fn role_menu_falls_back_to_the_first_role() {
    let select = three_accounts(remembered(&[], &[("prod", "retired")]));
    assert_eq!(select.role_menu("prod").unwrap().start(), State::Active(0));
}

#[test]
fn commit_role_records_the_choice() {
    let mut select = three_accounts(remembered(&["dev"], &[("dev", "admin")]));
    let made = select.commit_role("prod", 2).unwrap();
    assert_eq!(made.role.role, "admin");
    assert_eq!(made.role.id, "222");
    assert_eq!(made.role.arn, "arn:aws:iam::222:role/admin");
    assert_eq!(made.config.account, None);
    assert_eq!(made.config.last_accounts, vec!["prod".to_string(), "dev".to_string()]);
    let mut roles = made.config.roles.clone();
    roles.sort();
    assert_eq!(
        roles,
        vec![
            ("dev".to_string(), "admin".to_string()),
            ("prod".to_string(), "admin".to_string())
        ]
    );
    assert_eq!(select.account_menu().start(), State::Active(1));
    assert_eq!(select.role_menu("prod").unwrap().start(), State::Active(2));
}

#[test]
fn commit_role_refuses_what_does_not_exist() {
    let mut select = three_accounts(remembered(&["dev"], &[]));
    assert!(select.commit_role("gone", 0).is_none());
    assert!(select.commit_role("prod", 3).is_none());
    assert!(select.commit_role("test", 0).is_none());
    assert_eq!(select.account_menu().start(), State::Active(0));
    assert!(select.role_menu("prod").unwrap().start() == State::Active(0));
}

#[test]
fn reuse_role_takes_the_remembered_role() {
    let mut select = three_accounts(remembered(&["dev"], &[("prod", "writer")]));
    let made = select.reuse_role("prod").unwrap();
    assert_eq!(made.role.role, "writer");
    assert_eq!(made.config.last_accounts, vec!["prod".to_string(), "dev".to_string()]);
    assert_eq!(made.config.roles, vec![("prod".to_string(), "writer".to_string())]);
}

#[test]
fn reuse_role_needs_a_remembered_role_and_a_role_to_take() {
    let mut select = three_accounts(remembered(&["dev"], &[("test", "admin"), ("gone", "admin")]));
    assert!(select.reuse_role("dev").is_none());
    assert!(select.reuse_role("test").is_none());
    assert!(select.reuse_role("gone").is_none());
    assert_eq!(select.account_menu().start(), State::Active(0));
}

#[test]
fn reuse_role_of_a_vanished_role_takes_the_first_and_records_it() {
    let mut select = three_accounts(remembered(&[], &[("prod", "retired")]));
    let made = select.reuse_role("prod").unwrap();
    assert_eq!(made.role.role, "reader");
    assert_eq!(made.config.roles, vec![("prod".to_string(), "reader".to_string())]);
    assert_eq!(made.config.last_accounts, vec!["prod".to_string()]);
    assert_eq!(select.role_menu("prod").unwrap().start(), State::Active(0));
}

#[test]
fn history_names_the_role_that_was_taken() {
    for (stored, reuse) in [("writer", true), ("retired", true), ("writer", false)] {
        let mut select = three_accounts(remembered(&[], &[("prod", stored)]));
        let mut out = String::new();
        let made = select
            .select_role("prod", reuse, &[Key::Down, Key::Char('\n')], &mut out)
            .unwrap();
        let recorded: Vec<&(String, String)> =
            made.config.roles.iter().filter(|(account, _)| account == "prod").collect();
        assert_eq!(recorded.len(), 1);
        assert_eq!(recorded[0].1, made.role.role);
    }
}

#[test]
fn only_the_first_account_of_a_name_is_kept() {
    let select = AccountSelect::new(
        vec![
            account("dev", "111", &["admin"]),
            account("prod", "222", &["reader"]),
            account("dev", "333", &["other"]),
            account("test", "444", &[]),
            account("prod", "555", &[]),
        ],
        remembered(&[], &[]),
    );
    assert_eq!(select.account_menu().len(), 3);
    assert_eq!(select.account_at(0), Some(&"dev".to_string()));
    assert_eq!(select.account_at(1), Some(&"prod".to_string()));
    assert_eq!(select.account_at(2), Some(&"test".to_string()));
    assert_eq!(select.account_at(3), None);
    assert_eq!(
        frame_of(&select, 9),
        format!(
            "      {:32} 111\r\n      {:32} 222\r\n      {:32} \r\n",
            "dev", "prod", "test"
        )
    );
}

#[test]
fn account_chosen_is_the_account_whose_roles_are_offered() {
    let mut select = three_accounts(remembered(&[], &[]));
    for (index, first_role) in [(0usize, Some("admin")), (1, Some("reader")), (2, None)] {
        let name = select.account_at(index).unwrap().clone();
        match select.commit_role(&name, 0) {
            Some(made) => assert_eq!(Some(made.role.role.as_str()), first_role),
            None => assert_eq!(first_role, None),
        }
    }
}

#[test]
fn select_role_reuses_without_showing_a_menu() {
    let mut select = three_accounts(remembered(&[], &[("prod", "writer")]));
    let mut out = String::new();
    let made = select.select_role("prod", true, &[Key::Esc], &mut out).unwrap();
    assert_eq!(made.role.role, "writer");
    assert_eq!(out, "");
}

#[test]
fn select_role_asks_where_nothing_is_remembered() {
    let mut select = three_accounts(remembered(&[], &[]));
    let mut out = String::new();
    let keys = [Key::Down, Key::Down, Key::Char('\n')];
    let mut expected = String::new();
    select.role_menu("prod").unwrap().interact(&keys, &mut expected);
    let made = select.select_role("prod", true, &keys, &mut out).unwrap();
    assert_eq!(made.role.role, "admin");
    assert_eq!(out, expected);
    assert_eq!(made.config.roles, vec![("prod".to_string(), "admin".to_string())]);
    assert_eq!(made.config.last_accounts, vec!["prod".to_string()]);
}

#[test]
fn select_role_asks_where_reuse_is_not_wanted() {
    let mut select = three_accounts(remembered(&[], &[("prod", "writer")]));
    let mut out = String::new();
    let made = select.select_role("prod", false, &[Key::Char('\n')], &mut out).unwrap();
    assert_eq!(made.role.role, "writer");
    assert!(!out.is_empty());
    let mut out = String::new();
    let made = select.select_role("prod", false, &[Key::Up, Key::Char('\n')], &mut out).unwrap();
    assert_eq!(made.role.role, "reader");
    assert_eq!(made.config.roles, vec![("prod".to_string(), "reader".to_string())]);
}

#[test]
fn select_role_without_a_choice_leaves_the_history() {
    let mut select = three_accounts(remembered(&["dev"], &[("dev", "admin")]));
    let mut out = String::new();
    assert!(select.select_role("prod", false, &[Key::Esc], &mut out).is_none());
    assert!(select.select_role("prod", true, &[], &mut out).is_none());
    assert!(select.select_role("gone", true, &[Key::Char('\n')], &mut out).is_none());
    assert!(select.select_role("test", true, &[Key::Char('\n')], &mut out).is_none());
    assert_eq!(select.account_menu().start(), State::Active(0));
    assert!(select.role_menu("prod").unwrap().start() == State::Active(0));
    assert_eq!(select.role_menu("dev").unwrap().start(), State::Active(0));
}

#[test]
fn role_can_be_copied() {
    let first = role("admin", "1");
    let copy = first.clone();
    assert_eq!(copy.arn, first.arn);
    assert_eq!(copy.id, first.id);
    assert_eq!(copy.role, first.role);
}
