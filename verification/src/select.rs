//! Choosing an account and one of its roles.
//!
//! An [`AccountSelect`] knows the accounts with their roles, no two accounts
//! of the same name, and the history of earlier choices. From these it builds
//! the menu of accounts, in which the recently used ones carry a digit as
//! shortcut and the most recent one is the default, and the menu of an
//! account's roles, in which the role chosen last is the default. Every
//! choice of a role is recorded in the history under the name of the role
//! that was taken.

use crate::history::{History, HistoryConfig, HistoryView, persist_of, update_of};
use crate::key::Key;
use crate::term::{ItemView, Menu, MenuItem, MenuView, outcome_of, transcript_of};
use crate::text::{digit, lemma_first_occurrence, lemma_no_occurrence};
use vstd::prelude::*;
use vstd::string::*;

verus! {

/// What a role is.
pub struct RoleView {
    /// The name by which the role is taken.
    pub arn: Seq<char>,
    /// The number of the account that the role belongs to.
    pub id: Seq<char>,
    /// The name by which the role is shown and remembered.
    pub role: Seq<char>,
}

/// A role that can be taken in an account.
#[derive(Debug)]
pub struct Role {
    /// The name by which the role is taken.
    pub arn: String,
    /// The number of the account that the role belongs to.
    pub id: String,
    /// The name by which the role is shown and remembered.
    pub role: String,
}

impl View for Role {
    type V = RoleView;

    open spec fn view(&self) -> RoleView {
        RoleView { arn: self.arn@, id: self.id@, role: self.role@ }
    }
}

impl Clone for Role {
    /// A role with the same three texts.
    fn clone(&self) -> (copy: Role)
        ensures
            copy@ == self@,
    {
        Role { arn: self.arn.clone(), id: self.id.clone(), role: self.role.clone() }
    }
}

/// What an account is.
pub struct AccountView {
    /// The name of the account.
    pub name: Seq<char>,
    /// The roles that can be taken in it, in the order in which they are shown.
    pub roles: Seq<RoleView>,
}

/// An account and the roles that can be taken in it.
#[derive(Debug)]
pub struct Account {
    /// The name of the account.
    pub name: String,
    /// The roles that can be taken in it, in the order in which they are shown.
    pub roles: Vec<Role>,
}

impl View for Account {
    type V = AccountView;

    open spec fn view(&self) -> AccountView {
        AccountView {
            name: self.name@,
            roles: Seq::new(self.roles@.len(), |i: int| self.roles@[i]@),
        }
    }
}

/// What an `AccountSelect` is.
pub struct SelectView {
    /// The accounts, in the order in which they are shown.
    pub accounts: Seq<AccountView>,
    /// The history of earlier choices.
    pub history: HistoryView,
}

/// What a list of accounts is, account by account.
pub open spec fn accounts_of(accounts: Seq<Account>) -> Seq<AccountView> {
    Seq::new(accounts.len(), |i: int| accounts[i]@)
}

/// Accounts in the order in which they are shown. No two of them have the
/// same name.
#[derive(Debug)]
struct AccountList {
    entries: Vec<Account>,
}

impl AccountList {
    /// No two accounts have the same name.
    #[verifier::type_invariant]
    spec fn distinct_names(self) -> bool {
        names_in(accounts_of(self.entries@)).no_duplicates()
    }
}

/// The accounts to choose from, no two of the same name, and the history of
/// earlier choices.
#[derive(Debug)]
pub struct AccountSelect {
    accounts: AccountList,
    history: History,
}

impl View for AccountSelect {
    type V = SelectView;

    closed spec fn view(&self) -> SelectView {
        SelectView { accounts: accounts_of(self.accounts.entries@), history: self.history@ }
    }
}

/// The width to which account names are padded in the menu.
pub const NAME_WIDTH: usize = 32;

/// `text`, followed by as many blanks as it takes to fill `width` characters.
pub open spec fn padded(text: Seq<char>, width: nat) -> Seq<char> {
    if text.len() < width {
        text + Seq::new((width - text.len()) as nat, |i: int| ' ')
    } else {
        text
    }
}

/// The number of the account's first role, and nothing where it has no role.
pub open spec fn first_id(account: AccountView) -> Seq<char> {
    if account.roles.len() > 0 {
        account.roles[0].id
    } else {
        Seq::empty()
    }
}

/// The label of an account in the menu: its padded name, a blank, and the
/// number of its first role.
pub open spec fn account_label_of(account: AccountView) -> Seq<char> {
    padded(account.name, NAME_WIDTH as nat).push(' ') + first_id(account)
}

/// The shortcut of an account in the menu: the digit of its position among
/// the recent accounts, where it has one below ten.
pub open spec fn rank_shortcut(recent: Seq<Seq<char>>, name: Seq<char>) -> Option<char> {
    match recent.index_of_first(name) {
        Some(rank) => if rank < 10 {
            Some(digit(rank as nat))
        } else {
            None
        },
        None => None,
    }
}

/// The position of `wanted` among `names`, and the first position where it is
/// missing or nothing is wanted.
pub open spec fn default_index_of(names: Seq<Seq<char>>, wanted: Option<Seq<char>>) -> nat {
    match wanted {
        Some(name) => match names.index_of_first(name) {
            Some(i) => i as nat,
            None => 0,
        },
        None => 0,
    }
}

/// The names of the accounts, in order.
pub open spec fn names_in(accounts: Seq<AccountView>) -> Seq<Seq<char>> {
    Seq::new(accounts.len(), |i: int| accounts[i].name)
}

/// `accounts` without the later accounts of a name that an earlier account
/// has: the first account of each name stays where it is among the others.
pub open spec fn first_of_each_name(accounts: Seq<AccountView>) -> Seq<AccountView>
    decreases accounts.len(),
{
    if accounts.len() == 0 {
        Seq::empty()
    } else {
        let before = first_of_each_name(accounts.drop_last());
        if names_in(before).contains(accounts.last().name) {
            before
        } else {
            before.push(accounts.last())
        }
    }
}

/// The names of the roles, in order.
pub open spec fn role_names(roles: Seq<RoleView>) -> Seq<Seq<char>> {
    Seq::new(roles.len(), |i: int| roles[i].role)
}

/// The most recent account of a history.
pub open spec fn most_recent(history: HistoryView) -> Option<Seq<char>> {
    if history.recent.len() > 0 {
        Some(history.recent[0])
    } else {
        None
    }
}

/// The role that a history remembers for an account.
pub open spec fn remembered_role(history: HistoryView, account: Seq<char>) -> Option<Seq<char>> {
    if history.roles.dom().contains(account) {
        Some(history.roles[account])
    } else {
        None
    }
}

/// The menu of accounts: one item for each account, in order; the default is
/// the most recent account.
pub open spec fn account_menu_of(select: SelectView) -> MenuView {
    MenuView {
        items: Seq::new(
            select.accounts.len(),
            |i: int|
                ItemView {
                    label: account_label_of(select.accounts[i]),
                    shortcut: rank_shortcut(select.history.recent, select.accounts[i].name),
                },
        ),
        default: default_index_of(names_in(select.accounts), most_recent(select.history)),
    }
}

/// The menu of an account's roles: one item for each role, in order and
/// without shortcuts; the default is the role that is remembered.
pub open spec fn role_menu_of(roles: Seq<RoleView>, remembered: Option<Seq<char>>) -> MenuView {
    MenuView {
        items: Seq::new(roles.len(), |i: int| ItemView { label: roles[i].role, shortcut: None }),
        default: default_index_of(role_names(roles), remembered),
    }
}

/// The first account of the given name.
pub open spec fn account_named(accounts: Seq<AccountView>, name: Seq<char>) -> Option<AccountView> {
    match names_in(accounts).index_of_first(name) {
        Some(i) => Some(accounts[i]),
        None => None,
    }
}

/// A role that was chosen, and the document that records the choice.
#[derive(Debug)]
pub struct RoleChoice {
    /// The role to take.
    pub role: Role,
    /// The history to store, in which the choice is recorded.
    pub config: HistoryConfig,
}

/// How the role of an account is to be settled.
#[derive(Debug)]
pub enum RolePrompt {
    /// The remembered role was taken again, and that was recorded.
    Settled(RoleChoice),
    /// The role is to be chosen from this menu.
    Ask(Menu),
    /// No account has the name.
    Unknown,
}

/// The position, among the account's roles, of the role that is taken again
/// without asking: that of the remembered role of a known account that has
/// roles. Where the remembered name is none of the account's roles any more,
/// it is the first role.
pub open spec fn reused_of(select: SelectView, account: Seq<char>) -> Option<nat> {
    match (account_named(select.accounts, account), remembered_role(select.history, account)) {
        (Some(known), Some(name)) => if known.roles.len() > 0 {
            Some(default_index_of(role_names(known.roles), Some(name)))
        } else {
            None
        },
        _ => None,
    }
}

/// The position, among the account's roles, of the role that the menu of a
/// known account's roles yields on `keys`.
pub open spec fn asked_of(select: SelectView, account: Seq<char>, keys: Seq<Key>) -> Option<nat> {
    match account_named(select.accounts, account) {
        Some(known) => outcome_of(
            role_menu_of(known.roles, remembered_role(select.history, account)),
            keys,
        ),
        None => None,
    }
}

/// Whether the role of `account` is settled without a menu.
pub open spec fn settled_without_menu(select: SelectView, account: Seq<char>, reuse: bool) -> bool {
    reuse && reused_of(select, account) is Some
}

/// The position, among the account's roles, of the role that is chosen for
/// `account`.
pub open spec fn role_choice_of(
    select: SelectView,
    account: Seq<char>,
    reuse: bool,
    keys: Seq<Key>,
) -> Option<nat> {
    if settled_without_menu(select, account, reuse) {
        reused_of(select, account)
    } else {
        asked_of(select, account, keys)
    }
}

/// Text that the choice of a role for `account` emits: that of the menu of
/// its roles, where one is shown.
pub open spec fn role_text_of(
    select: SelectView,
    account: Seq<char>,
    reuse: bool,
    keys: Seq<Key>,
) -> Seq<char> {
    if settled_without_menu(select, account, reuse) {
        Seq::empty()
    } else {
        match account_named(select.accounts, account) {
            Some(known) => transcript_of(
                role_menu_of(known.roles, remembered_role(select.history, account)),
                keys,
            ),
            None => Seq::empty(),
        }
    }
}

/// What becomes of an `AccountSelect` when the role `role` is taken for
/// `account`: the history records the account as the most recent one, and
/// the name of that role as the role last chosen for it.
pub open spec fn recorded_of(select: SelectView, account: Seq<char>, role: RoleView) -> SelectView {
    SelectView {
        accounts: select.accounts,
        history: update_of(select.history, account, role.role),
    }
}

/// The role at position `i` of the roles of `known` was taken for `account`:
/// `made` holds that role and the document to store, and the history records
/// the choice.
pub open spec fn role_taken(
    before: SelectView,
    after: SelectView,
    account: Seq<char>,
    known: AccountView,
    i: nat,
    made: RoleChoice,
) -> bool {
    &&& i < known.roles.len()
    &&& made.role@ == known.roles[i as int]
    &&& after == recorded_of(before, account, known.roles[i as int])
    &&& made.config@ == persist_of(after.history)
    &&& remembered_role(after.history, account) == Some(made.role@.role)
    &&& after.history.is_settled()
}

/// Where no two accounts have the same name, nothing is left out of them.
pub proof fn lemma_distinct_names_kept(accounts: Seq<AccountView>)
    requires
        names_in(accounts).no_duplicates(),
    ensures
        first_of_each_name(accounts) == accounts,
    decreases accounts.len(),
{
    if accounts.len() > 0 {
        let front = accounts.drop_last();
        assert forall|i: int, j: int| 0 <= i < j < front.len() implies names_in(front)[i]
            != names_in(front)[j] by {
            assert(names_in(accounts)[i] != names_in(accounts)[j]);
        }
        lemma_distinct_names_kept(front);
        if names_in(front).contains(accounts.last().name) {
            let i = choose|i: int| 0 <= i < front.len() && names_in(front)[i] == accounts.last().name;
            assert(names_in(accounts)[i] == names_in(accounts)[accounts.len() - 1]);
        }
        assert(front.push(accounts.last()) =~= accounts);
    }
}

/// `first_of_each_name` leaves no two accounts of the same name.
pub proof fn lemma_first_of_each_name(accounts: Seq<AccountView>)
    ensures
        names_in(first_of_each_name(accounts)).no_duplicates(),
    decreases accounts.len(),
{
    if accounts.len() > 0 {
        let before = first_of_each_name(accounts.drop_last());
        lemma_first_of_each_name(accounts.drop_last());
        if !names_in(before).contains(accounts.last().name) {
            assert(names_in(before.push(accounts.last())) =~= names_in(before).push(
                accounts.last().name,
            ));
        }
    }
}

/// Where no two accounts have the same name, each account is the one of its
/// name.
pub proof fn lemma_account_named(accounts: Seq<AccountView>, i: int)
    requires
        names_in(accounts).no_duplicates(),
        0 <= i < accounts.len(),
    ensures
        account_named(accounts, accounts[i].name) == Some(accounts[i]),
{
    let names = names_in(accounts);
    assert forall|j: int| 0 <= j < i implies names[j] != accounts[i].name by {
        assert(names[i] == accounts[i].name);
    }
    lemma_first_occurrence(names, accounts[i].name, i);
}

/// The character of the decimal digit `d`.
fn digit_char(d: usize) -> (c: char)
    requires
        d < 10,
    ensures
        c == digit(d as nat),
{
    if d == 0 {
        '0'
    } else if d == 1 {
        '1'
    } else if d == 2 {
        '2'
    } else if d == 3 {
        '3'
    } else if d == 4 {
        '4'
    } else if d == 5 {
        '5'
    } else if d == 6 {
        '6'
    } else if d == 7 {
        '7'
    } else if d == 8 {
        '8'
    } else {
        '9'
    }
}

/// The label of `account` in the menu.
fn account_label(account: &Account) -> (label: String)
    ensures
        label@ == account_label_of(account@),
{
    let mut label = account.name.clone();
    let mut width = account.name.as_str().unicode_len();
    let ghost name = account.name@;
    while width < NAME_WIDTH
        invariant
            name.len() <= width,
            name.len() < NAME_WIDTH ==> width <= NAME_WIDTH,
            name.len() >= NAME_WIDTH ==> width == name.len(),
            label@ == name + Seq::new((width - name.len()) as nat, |i: int| ' '),
        decreases NAME_WIDTH - width,
    {
        label.push(' ');
        width += 1;
    }
    label.push(' ');
    if account.roles.len() > 0 {
        label.append(account.roles[0].id.as_str());
    }
    label
}

/// The position of the first of `accounts` whose name reads `name`.
fn name_position(accounts: &Vec<Account>, name: &String) -> (found: Option<usize>)
    ensures
        match found {
            Some(i) => i < accounts@.len() && names_in(accounts_of(accounts@)).index_of_first(name@)
                == Some(i as int),
            None => names_in(accounts_of(accounts@)).index_of_first(name@) is None,
        },
{
    let ghost names = names_in(accounts_of(accounts@));
    let mut i: usize = 0;
    while i < accounts.len()
        invariant
            i <= accounts@.len(),
            names == names_in(accounts_of(accounts@)),
            forall|j: int| 0 <= j < i ==> names[j] != name@,
        decreases accounts.len() - i,
    {
        if accounts[i].name == *name {
            proof {
                lemma_first_occurrence(names, name@, i as int);
            }
            return Some(i);
        }
        i += 1;
    }
    proof {
        lemma_no_occurrence(names, name@);
    }
    None
}

/// The position of the first of `roles` whose name reads `name`.
fn role_position(roles: &Vec<Role>, name: &String) -> (found: Option<usize>)
    ensures
        match found {
            Some(i) => i < roles@.len() && role_names(
                Seq::new(roles@.len(), |i: int| roles@[i]@),
            ).index_of_first(name@) == Some(i as int),
            None => role_names(Seq::new(roles@.len(), |i: int| roles@[i]@)).index_of_first(name@)
                is None,
        },
{
    let ghost names = role_names(Seq::new(roles@.len(), |i: int| roles@[i]@));
    let mut i: usize = 0;
    while i < roles.len()
        invariant
            i <= roles@.len(),
            names == role_names(Seq::new(roles@.len(), |i: int| roles@[i]@)),
            forall|j: int| 0 <= j < i ==> names[j] != name@,
        decreases roles.len() - i,
    {
        if roles[i].role == *name {
            proof {
                lemma_first_occurrence(names, name@, i as int);
            }
            return Some(i);
        }
        i += 1;
    }
    proof {
        lemma_no_occurrence(names, name@);
    }
    None
}

/// The menu of `roles` whose default is the role named `remembered`.
fn menu_of_roles(roles: &Vec<Role>, remembered: &Option<String>) -> (menu: Menu)
    ensures
        menu@ == role_menu_of(
            Seq::new(roles@.len(), |i: int| roles@[i]@),
            match *remembered {
                Some(name) => Some(name@),
                None => None,
            },
        ),
{
    let ghost views = Seq::new(roles@.len(), |i: int| roles@[i]@);
    let mut items: Vec<MenuItem> = Vec::new();
    let mut i: usize = 0;
    while i < roles.len()
        invariant
            i <= roles@.len(),
            items@.len() == i,
            forall|j: int|
                0 <= j < i ==> (#[trigger] items@[j])@ == (ItemView {
                    label: roles@[j].role@,
                    shortcut: None,
                }),
        decreases roles.len() - i,
    {
        items.push(MenuItem::new(roles[i].role.clone(), None));
        i += 1;
    }
    let default = match remembered {
        Some(name) => match role_position(roles, name) {
            Some(at) => at,
            None => 0,
        },
        None => 0,
    };
    let mut menu = Menu::new(items);
    menu.default(default);
    assert(menu@.items =~= role_menu_of(views, None).items);
    menu
}

impl AccountSelect {
    /// The given accounts, in the order in which they are to be shown, and
    /// the history of earlier choices. Of several accounts of one name only
    /// the first is kept.
    pub fn new(accounts: Vec<Account>, history: History) -> (select: AccountSelect)
        ensures
            select@.accounts == first_of_each_name(accounts_of(accounts@)),
            names_in(select@.accounts).no_duplicates(),
            select@.history == history@,
    {
        let ghost given = accounts_of(accounts@);
        let mut rest = accounts;
        let mut kept: Vec<Account> = Vec::new();
        let ghost mut done: int = 0;
        assert(given.take(0) =~= Seq::<AccountView>::empty());
        assert(accounts_of(rest@) =~= given.skip(0));
        while rest.len() > 0
            invariant
                0 <= done <= given.len(),
                accounts_of(rest@) == given.skip(done),
                accounts_of(kept@) == first_of_each_name(given.take(done)),
            decreases rest.len(),
        {
            let ghost before = accounts_of(kept@);
            let ghost waiting = accounts_of(rest@);
            assert(waiting.len() == rest@.len());
            assert(given.skip(done).len() == given.len() - done);
            let account = rest.remove(0);
            proof {
                assert(account@ == waiting[0]);
                assert(waiting[0] == given[done]);
                assert(accounts_of(rest@) =~= waiting.skip(1));
                assert(waiting.skip(1) =~= given.skip(done + 1));
                let next = given.take(done + 1);
                assert(next.drop_last() =~= given.take(done));
                assert(next.last() == account@);
            }
            let earlier = name_position(&kept, &account.name);
            proof {
                names_in(before).index_of_first_ensures(account.name@);
            }
            if earlier.is_none() {
                kept.push(account);
                assert(accounts_of(kept@) =~= before.push(given[done]));
            }
            proof {
                done = done + 1;
            }
        }
        proof {
            assert(given.take(given.len() as int) =~= given);
            lemma_first_of_each_name(given);
        }
        AccountSelect { accounts: AccountList { entries: kept }, history }
    }

    /// The menu from which an account is chosen.
    pub fn account_menu(&self) -> (menu: Menu)
        ensures
            menu@ == account_menu_of(self@),
    {
        let ghost wanted = account_menu_of(self@);
        let accounts = &self.accounts.entries;
        let mut items: Vec<MenuItem> = Vec::new();
        let mut i: usize = 0;
        while i < accounts.len()
            invariant
                i <= accounts@.len(),
                items@.len() == i,
                accounts == &self.accounts.entries,
                wanted == account_menu_of(self@),
                forall|j: int| 0 <= j < i ==> (#[trigger] items@[j])@ == wanted.items[j],
            decreases accounts.len() - i,
        {
            let account = &accounts[i];
            let label = account_label(account);
            let shortcut = match self.history.account_index(account.name.as_str()) {
                Some(rank) => {
                    proof {
                        lemma_first_occurrence(self@.history.recent, account.name@, rank as int);
                    }
                    if rank < 10 {
                        Some(digit_char(rank))
                    } else {
                        None
                    }
                },
                None => {
                    proof {
                        lemma_no_occurrence(self@.history.recent, account.name@);
                    }
                    None
                },
            };
            items.push(MenuItem::new(label, shortcut));
            i += 1;
        }
        let default = match self.history.default_account() {
            Some(name) => match name_position(accounts, &name) {
                Some(at) => at,
                None => 0,
            },
            None => 0,
        };
        let mut menu = Menu::new(items);
        menu.default(default);
        assert(menu@.items =~= wanted.items);
        menu
    }

    /// The name of the account at position `selected` of the menu. It is the
    /// name of that account alone.
    pub fn account_at(&self, selected: usize) -> (account: Option<&String>)
        ensures
            match account {
                Some(name) => {
                    &&& selected < self@.accounts.len()
                    &&& name@ == self@.accounts[selected as int].name
                    &&& account_named(self@.accounts, name@) == Some(
                        self@.accounts[selected as int],
                    )
                },
                None => selected >= self@.accounts.len(),
            },
    {
        if selected < self.accounts.entries.len() {
            proof {
                use_type_invariant(&self.accounts);
                lemma_account_named(self@.accounts, selected as int);
            }
            Some(&self.accounts.entries[selected].name)
        } else {
            None
        }
    }

    /// Lets an account be chosen from the menu of accounts: `keys` stands for
    /// the input and `out` for the terminal. Returns the name of the account
    /// chosen, or `None` where none was.
    pub fn select_account(&self, keys: &[Key], out: &mut String) -> (account: Option<&String>)
        ensures
            final(out)@ == old(out)@ + transcript_of(account_menu_of(self@), keys@),
            match outcome_of(account_menu_of(self@), keys@) {
                Some(i) => {
                    &&& i < self@.accounts.len()
                    &&& account matches Some(name)
                    &&& name@ == self@.accounts[i as int].name
                    &&& account_named(self@.accounts, name@) == Some(self@.accounts[i as int])
                },
                None => account is None,
            },
    {
        let menu = self.account_menu();
        match menu.interact(keys, out) {
            Some(selected) => self.account_at(selected),
            None => None,
        }
    }

    /// The menu from which a role of `account` is chosen, or `None` where no
    /// account has that name.
    pub fn role_menu(&self, account: &str) -> (menu: Option<Menu>)
        ensures
            match account_named(self@.accounts, account@) {
                Some(known) => {
                    &&& menu matches Some(shown)
                    &&& shown@ == role_menu_of(
                        known.roles,
                        remembered_role(self@.history, account@),
                    )
                },
                None => menu is None,
            },
    {
        let name = account.to_owned();
        match name_position(&self.accounts.entries, &name) {
            Some(at) => {
                let remembered = self.history.default_role(account);
                Some(menu_of_roles(&self.accounts.entries[at].roles, &remembered))
            },
            None => None,
        }
    }

    /// Takes the role at position `i` of the account at position `at`, and
    /// records that under the name `account` of that account.
    fn take_role(&mut self, account: &str, at: usize, i: usize) -> (made: RoleChoice)
        requires
            at < old(self)@.accounts.len(),
            i < old(self)@.accounts[at as int].roles.len(),
        ensures
            role_taken(
                old(self)@,
                final(self)@,
                account@,
                old(self)@.accounts[at as int],
                i as nat,
                made,
            ),
    {
        let role = self.accounts.entries[at].roles[i].clone();
        let config = self.history.update(account, role.role.as_str());
        RoleChoice { role, config }
    }

    /// Takes the remembered role of `account` again, and records that. Where
    /// the remembered name is none of the account's roles any more, the
    /// first role is taken. Does nothing and returns `None` where no account
    /// has that name, no role is remembered for it, or it has no roles.
    pub fn reuse_role(&mut self, account: &str) -> (choice: Option<RoleChoice>)
        ensures
            match reused_of(old(self)@, account@) {
                Some(i) => {
                    &&& account_named(old(self)@.accounts, account@) matches Some(known)
                    &&& choice matches Some(made)
                    &&& role_taken(old(self)@, final(self)@, account@, known, i, made)
                },
                None => choice is None && final(self)@ == old(self)@,
            },
    {
        let name = account.to_owned();
        let at = match name_position(&self.accounts.entries, &name) {
            Some(at) => at,
            None => {
                return None;
            },
        };
        let remembered = match self.history.default_role(account) {
            Some(role) => role,
            None => {
                return None;
            },
        };
        if self.accounts.entries[at].roles.len() == 0 {
            return None;
        }
        let i = match role_position(&self.accounts.entries[at].roles, &remembered) {
            Some(i) => i,
            None => 0,
        };
        Some(self.take_role(account, at, i))
    }

    /// Begins the choice of a role for `account`. With `reuse_last_role` the
    /// remembered role is taken again and recorded, where there is one to
    /// take; otherwise the menu of the account's roles is handed out and
    /// nothing changes.
    pub fn prepare_role(&mut self, account: &str, reuse_last_role: bool) -> (prompt: RolePrompt)
        ensures
            match prompt {
                RolePrompt::Settled(made) => {
                    &&& settled_without_menu(old(self)@, account@, reuse_last_role)
                    &&& reused_of(old(self)@, account@) matches Some(i)
                    &&& account_named(old(self)@.accounts, account@) matches Some(known)
                    &&& role_taken(old(self)@, final(self)@, account@, known, i, made)
                },
                RolePrompt::Ask(menu) => {
                    &&& !settled_without_menu(old(self)@, account@, reuse_last_role)
                    &&& account_named(old(self)@.accounts, account@) matches Some(known)
                    &&& menu@ == role_menu_of(
                        known.roles,
                        remembered_role(old(self)@.history, account@),
                    )
                    &&& final(self)@ == old(self)@
                },
                RolePrompt::Unknown => {
                    &&& !settled_without_menu(old(self)@, account@, reuse_last_role)
                    &&& account_named(old(self)@.accounts, account@) is None
                    &&& final(self)@ == old(self)@
                },
            },
    {
        if reuse_last_role {
            match self.reuse_role(account) {
                Some(made) => {
                    return RolePrompt::Settled(made);
                },
                None => {},
            }
        }
        match self.role_menu(account) {
            Some(menu) => RolePrompt::Ask(menu),
            None => RolePrompt::Unknown,
        }
    }

    /// Takes the role at position `selected` of the roles of `account`, and
    /// records that. Does nothing and returns `None` where no account has that
    /// name or it has no role at that position.
    pub fn commit_role(&mut self, account: &str, selected: usize) -> (choice: Option<RoleChoice>)
        ensures
            match account_named(old(self)@.accounts, account@) {
                Some(known) => if selected < known.roles.len() {
                    &&& choice matches Some(made)
                    &&& role_taken(old(self)@, final(self)@, account@, known, selected as nat, made)
                } else {
                    choice is None && final(self)@ == old(self)@
                },
                None => choice is None && final(self)@ == old(self)@,
            },
    {
        let name = account.to_owned();
        let at = match name_position(&self.accounts.entries, &name) {
            Some(at) => at,
            None => {
                return None;
            },
        };
        if selected >= self.accounts.entries[at].roles.len() {
            return None;
        }
        Some(self.take_role(account, at, selected))
    }

    /// Lets a role of `account` be chosen: `keys` stands for the input and
    /// `out` for the terminal. With `reuse_last_role` the remembered role is
    /// taken again without a menu, where there is one. Returns the role and
    /// the document that records the choice, or `None` where no role was
    /// chosen; the history is then as it was.
    pub fn select_role(
        &mut self,
        account: &str,
        reuse_last_role: bool,
        keys: &[Key],
        out: &mut String,
    ) -> (choice: Option<RoleChoice>)
        ensures
            final(out)@ == old(out)@ + role_text_of(old(self)@, account@, reuse_last_role, keys@),
            match role_choice_of(old(self)@, account@, reuse_last_role, keys@) {
                Some(i) => {
                    &&& account_named(old(self)@.accounts, account@) matches Some(known)
                    &&& choice matches Some(made)
                    &&& role_taken(old(self)@, final(self)@, account@, known, i, made)
                },
                None => choice is None && final(self)@ == old(self)@,
            },
    {
        match self.prepare_role(account, reuse_last_role) {
            RolePrompt::Settled(made) => Some(made),
            RolePrompt::Ask(menu) => match menu.interact(keys, out) {
                Some(selected) => self.commit_role(account, selected),
                None => None,
            },
            RolePrompt::Unknown => None,
        }
    }
}

} // verus!
