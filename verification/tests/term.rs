use maws_menu::key::Key;
use maws_menu::term::{Menu, MenuItem, State};

const ENTER: Key = Key::Char('\n');

fn item(label: &str, shortcut: Option<char>) -> MenuItem {
    MenuItem::new(label.to_string(), shortcut)
}

fn greek() -> Menu {
    Menu::new(vec![
        item("alpha", None),
        item("beta", None),
        item("gamma", Some('g')),
    ])
}

fn run(menu: &Menu, keys: &[Key]) -> Option<usize> {
    let mut out = String::new();
    menu.interact(keys, &mut out)
}

fn plain(count: usize) -> Menu {
    Menu::new((0..count).map(|i| item(&format!("item {}", i), None)).collect())
}

#[test]
fn arrow_up_then_enter_commits_the_item_above_the_default() {
    let mut menu = greek();
    menu.default(1);
    assert_eq!(run(&menu, &[Key::Up, ENTER]), Some(0));
}

#[test]
fn shortcut_commits_from_any_starting_selection() {
    for start in 0..3 {
        let mut menu = greek();
        menu.default(start);
        assert_eq!(run(&menu, &[Key::Char('g')]), Some(2));
    }
}

#[test]
fn shortcut_commits_in_the_middle_of_navigation() {
    let menu = greek();
    assert_eq!(run(&menu, &[Key::Down, Key::Up, Key::Down, Key::Char('g'), Key::Up, ENTER]), Some(2));
}

#[test]
fn down_arrows_stop_at_the_last_item() {
    for n in 1..6usize {
        for k in 0..9usize {
            let menu = plain(n);
            let mut keys = vec![Key::Down; k];
            keys.push(ENTER);
            assert_eq!(run(&menu, &keys), Some(k.min(n - 1)));
        }
    }
}

#[test]
fn up_arrows_stop_at_the_first_item() {
    for n in 1..6usize {
        for k in 0..9usize {
            let mut menu = plain(n);
            menu.default(n - 1);
            let mut keys = vec![Key::Up; k];
            keys.push(ENTER);
            assert_eq!(run(&menu, &keys), Some((n - 1).saturating_sub(k)));
        }
    }
}

#[test]
fn up_arrow_at_the_top_stays_at_the_top() {
    let menu = plain(4);
    assert_eq!(run(&menu, &[Key::Up, Key::Up, ENTER]), Some(0));
}

#[test]
fn home_and_end_jump_to_the_ends() {
    let menu = plain(5);
    assert_eq!(run(&menu, &[Key::Down, Key::Down, Key::Home, ENTER]), Some(0));
    assert_eq!(run(&menu, &[Key::Down, Key::End, ENTER]), Some(4));
    assert_eq!(run(&menu, &[Key::End, Key::Home, Key::End, ENTER]), Some(4));
    assert_eq!(menu.step(State::Active(3), Key::Home), State::Active(0));
    assert_eq!(menu.step(State::Active(1), Key::End), State::Active(4));
}

#[test]
fn cancel_keys_yield_no_selection() {
    let menu = greek();
    assert_eq!(run(&menu, &[Key::Esc]), None);
    assert_eq!(run(&menu, &[Key::Char('q')]), None);
    assert_eq!(run(&menu, &[Key::Ctrl('c')]), None);
    assert_eq!(run(&menu, &[Key::Down, Key::Esc, ENTER]), None);
    assert_eq!(run(&menu, &[Key::Down, Key::Char('q'), Key::Char('g')]), None);
    assert_eq!(menu.step(State::Active(1), Key::Esc), State::Cancelled);
    assert_eq!(menu.step(State::Active(1), Key::Char('q')), State::Cancelled);
    assert_eq!(menu.step(State::Active(1), Key::Ctrl('c')), State::Cancelled);
}

#[test]
fn exhausted_input_yields_no_selection() {
    let menu = greek();
    assert_eq!(run(&menu, &[]), None);
    assert_eq!(run(&menu, &[Key::Down, Key::Down]), None);
}

#[test]
fn keys_without_meaning_change_nothing() {
    let menu = greek();
    assert_eq!(menu.step(State::Active(1), Key::Other), State::Active(1));
    assert_eq!(menu.step(State::Active(1), Key::Char('x')), State::Active(1));
    assert_eq!(menu.step(State::Active(1), Key::Ctrl('d')), State::Active(1));
    assert_eq!(run(&menu, &[Key::Other, Key::Char('x'), Key::Ctrl('a'), ENTER]), Some(0));
}

#[test]
fn ended_interaction_ignores_further_keys() {
    let menu = greek();
    assert_eq!(menu.step(State::Committed(1), Key::Down), State::Committed(1));
    assert_eq!(menu.step(State::Cancelled, ENTER), State::Cancelled);
    assert_eq!(run(&menu, &[ENTER, Key::Down, ENTER]), Some(0));
}

#[test]
fn selection_is_the_index_committed_to() {
    assert_eq!(State::Committed(4).selection(), Some(4));
    assert_eq!(State::Committed(0).selection(), Some(0));
    assert_eq!(State::Active(4).selection(), None);
    assert_eq!(State::Cancelled.selection(), None);
    let menu = greek();
    assert_eq!(menu.step(State::Active(1), ENTER).selection(), Some(1));
    assert_eq!(menu.step(State::Active(1), Key::Esc).selection(), None);
    assert_eq!(menu.step(State::Active(1), Key::Down).selection(), None);
}

#[test]
fn start_is_the_default_item() {
    let mut menu = greek();
    assert_eq!(menu.start(), State::Active(0));
    menu.default(2);
    assert_eq!(menu.start(), State::Active(2));
}

#[test]
fn default_beyond_the_list_starts_at_the_last_item() {
    let mut menu = greek();
    menu.default(3);
    assert_eq!(menu.start(), State::Active(2));
    menu.default(usize::MAX);
    assert_eq!(menu.start(), State::Active(2));
    assert_eq!(run(&menu, &[ENTER]), Some(2));
}

#[test]
fn default_can_be_chained() {
    let mut menu = greek();
    assert_eq!(menu.default(1).start(), State::Active(1));
    assert_eq!(menu.default(1).default(2).len(), 3);
    assert_eq!(menu.start(), State::Active(2));
}

#[test]
fn empty_menu_is_cancelled_at_once() {
    let menu = Menu::new(Vec::new());
    assert_eq!(menu.len(), 0);
    assert_eq!(menu.start(), State::Cancelled);
    assert_eq!(menu.step(State::Active(0), ENTER), State::Cancelled);
    let mut out = String::from("kept");
    assert_eq!(menu.interact(&[ENTER, Key::Down], &mut out), None);
    assert_eq!(out, "kept");
}

#[test]
fn step_brings_a_stray_index_into_range() {
    let menu = greek();
    assert_eq!(menu.step(State::Active(7), ENTER), State::Committed(2));
    assert_eq!(menu.step(State::Active(7), Key::Up), State::Active(1));
    assert_eq!(menu.step(State::Active(usize::MAX), Key::Down), State::Active(2));
}

#[test]
fn q_and_enter_are_never_shortcuts() {
    let menu = Menu::new(vec![item("quit", Some('q')), item("line", Some('\n')), item("x", None)]);
    assert_eq!(menu.step(State::Active(2), Key::Char('q')), State::Cancelled);
    assert_eq!(menu.step(State::Active(2), ENTER), State::Committed(2));
}

#[test]
fn first_of_equal_shortcuts_wins() {
    let menu = Menu::new(vec![item("a", None), item("b", Some('1')), item("c", Some('1'))]);
    assert_eq!(menu.step(State::Active(2), Key::Char('1')), State::Committed(1));
    assert_eq!(run(&menu, &[Key::End, Key::Char('1')]), Some(1));
}

#[test]
fn item_line_plain() {
    let mut out = String::new();
    item("alpha", None).draw(&mut out, false);
    assert_eq!(out, "      alpha\r\n");
}

#[test]
fn item_line_with_shortcut() {
    let mut out = String::new();
    item("beta", Some('3')).draw(&mut out, false);
    assert_eq!(out, "  [3] beta\r\n");
}

#[test]
fn item_line_highlighted() {
    let mut out = String::new();
    item("alpha", None).draw(&mut out, true);
    assert_eq!(out, "\x1b[38;5;14m\x1b[1m\u{276f}     alpha\r\n\x1b[m");
    let mut out = String::new();
    item("beta", Some('b')).draw(&mut out, true);
    assert_eq!(out, "\x1b[38;5;14m\x1b[1m\u{276f} [b] beta\r\n\x1b[m");
}

#[test]
fn item_line_is_appended() {
    let mut out = String::from("before");
    item("x", None).draw(&mut out, false);
    assert_eq!(out, "before      x\r\n");
}

#[test]
fn frame_has_one_line_for_each_item() {
    let menu = greek();
    let mut out = String::new();
    menu.draw(&mut out, 1);
    assert_eq!(
        out,
        "      alpha\r\n\x1b[38;5;14m\x1b[1m\u{276f}     beta\r\n\x1b[m  [g] gamma\r\n"
    );
}

#[test]
fn frame_without_highlight_when_index_is_out_of_range() {
    let menu = greek();
    let mut out = String::new();
    menu.draw(&mut out, 3);
    assert_eq!(out, "      alpha\r\n      beta\r\n  [g] gamma\r\n");
}

#[test]
fn clear_moves_up_by_the_number_of_items() {
    let mut out = String::new();
    greek().clear(&mut out);
    assert_eq!(out, "\x1b[3A\x1b[J");
    let mut out = String::new();
    plain(12).clear(&mut out);
    assert_eq!(out, "\x1b[12A\x1b[J");
}

#[test]
fn clear_of_an_empty_menu_does_not_move() {
    let mut out = String::new();
    Menu::new(Vec::new()).clear(&mut out);
    assert_eq!(out, "\x1b[J");
}

#[test]
fn clear_of_a_long_menu_moves_in_several_steps() {
    let mut out = String::new();
    plain(65535).clear(&mut out);
    assert_eq!(out, "\x1b[65535A\x1b[J");
    let mut out = String::new();
    plain(65536).clear(&mut out);
    assert_eq!(out, "\x1b[65535A\x1b[1A\x1b[J");
    let mut out = String::new();
    plain(140000).clear(&mut out);
    assert_eq!(out, "\x1b[65535A\x1b[65535A\x1b[8930A\x1b[J");
}

#[test]
fn clear_agrees_with_termion() {
    let mut out = String::new();
    plain(7).clear(&mut out);
    assert_eq!(out, format!("{}{}", termion::cursor::Up(7), termion::clear::AfterCursor));
}

#[test]
fn transcript_of_a_committed_interaction() {
    let menu = Menu::new(vec![item("a", None), item("b", None)]);
    let mut out = String::new();
    assert_eq!(menu.interact(&[Key::Down, ENTER, Key::Up], &mut out), Some(1));
    let first = "\x1b[38;5;14m\x1b[1m\u{276f}     a\r\n\x1b[m      b\r\n";
    let second = "      a\r\n\x1b[38;5;14m\x1b[1m\u{276f}     b\r\n\x1b[m";
    let clear = "\x1b[2A\x1b[J";
    assert_eq!(
        out,
        format!("\x1b[?25l{}{}{}{}\x1b[?25h", first, clear, second, clear)
    );
}

#[test]
fn transcript_of_exhausted_input_leaves_the_last_frame() {
    let menu = Menu::new(vec![item("a", None), item("b", None)]);
    let mut out = String::new();
    assert_eq!(menu.interact(&[Key::Other], &mut out), None);
    let frame = "\x1b[38;5;14m\x1b[1m\u{276f}     a\r\n\x1b[m      b\r\n";
    assert_eq!(out, format!("\x1b[?25l{}\x1b[2A\x1b[J{}\x1b[?25h", frame, frame));
}

#[test]
fn transcript_of_a_cancelled_interaction() {
    let menu = Menu::new(vec![item("a", None)]);
    let mut out = String::from(">");
    assert_eq!(menu.interact(&[Key::Esc], &mut out), None);
    assert_eq!(
        out,
        ">\x1b[?25l\x1b[38;5;14m\x1b[1m\u{276f}     a\r\n\x1b[m\x1b[1A\x1b[J\x1b[?25h"
    );
}

#[test]
fn transcript_agrees_with_the_pieces() {
    let mut menu = greek();
    menu.default(2);
    let keys = [Key::Up, Key::Home, Key::Char('z'), Key::End, ENTER];
    let mut whole = String::new();
    let chosen = menu.interact(&keys, &mut whole);
    let mut pieces = format!("{}", termion::cursor::Hide);
    let mut state = menu.start();
    let mut next = keys.iter();
    while let State::Active(at) = state {
        menu.draw(&mut pieces, at);
        match next.next() {
            Some(key) => {
                menu.clear(&mut pieces);
                state = menu.step(state, *key);
            }
            None => break,
        }
    }
    pieces.push_str(&format!("{}", termion::cursor::Show));
    assert_eq!(whole, pieces);
    assert_eq!(chosen, Some(2));
    assert_eq!(state, State::Committed(2));
}

#[test]
fn item_from_a_pair() {
    let made: MenuItem = ("alpha".to_string(), Some('a')).into();
    let mut out = String::new();
    made.draw(&mut out, false);
    assert_eq!(out, "  [a] alpha\r\n");
}

#[test]
fn labels_may_hold_any_characters() {
    let mut out = String::new();
    item("caf\u{e9} \u{1f600}", Some('\u{e9}')).draw(&mut out, false);
    assert_eq!(out, "  [\u{e9}] caf\u{e9} \u{1f600}\r\n");
}
