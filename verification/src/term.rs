//! Menu items, the selection state machine and its rendering.
//!
//! A [`Menu`] owns an ordered list of [`MenuItem`]s and a default index. An
//! interaction starts in [`State::Active`] on the default item and is moved by
//! key events until it commits to an index or is cancelled. Everything a menu
//! would show on a terminal is produced here as text; writing it to a device
//! and reading keys from one is left to the caller.

use crate::escape::{
    bold, bold_text, clear_after_cursor, clear_after_cursor_text, cursor_up, cursor_up_text,
    hide_cursor, hide_cursor_text, highlight_color, highlight_color_text, reset_style,
    reset_style_text, show_cursor, show_cursor_text,
};
use crate::key::Key;
use vstd::prelude::*;
use vstd::string::*;

verus! {

/// What a menu item is: its label and its optional shortcut character.
pub struct ItemView {
    /// The text that is shown for the item.
    pub label: Seq<char>,
    /// The character that commits to the item at once.
    pub shortcut: Option<char>,
}

/// One labelled choice of a menu.
#[derive(Clone, Debug)]
pub struct MenuItem {
    label: String,
    shortcut: Option<char>,
}

impl View for MenuItem {
    type V = ItemView;

    closed spec fn view(&self) -> ItemView {
        ItemView { label: self.label@, shortcut: self.shortcut }
    }
}

/// What a menu is: its items in order and its default index.
pub struct MenuView {
    /// The items, in the order in which they are shown.
    pub items: Seq<ItemView>,
    /// The index of the item that is highlighted first.
    pub default: nat,
}

/// An ordered list of items, one of which is to be chosen.
#[derive(Clone, Debug)]
pub struct Menu {
    items: Vec<MenuItem>,
    default: usize,
}

impl View for Menu {
    type V = MenuView;

    closed spec fn view(&self) -> MenuView {
        MenuView {
            items: Seq::new(self.items@.len(), |i: int| self.items@[i]@),
            default: self.default as nat,
        }
    }
}

/// Where an interaction stands, over the natural numbers.
pub enum Progress {
    /// The item at this index is highlighted and keys are awaited.
    Active(nat),
    /// The interaction ended with the choice of this index.
    Committed(nat),
    /// The interaction ended without a choice.
    Cancelled,
}

/// Where an interaction stands.
#[derive(Clone, Copy, Debug, PartialEq, Eq)]
pub enum State {
    /// The item at this index is highlighted and keys are awaited.
    Active(usize),
    /// The interaction ended with the choice of this index.
    Committed(usize),
    /// The interaction ended without a choice.
    Cancelled,
}

impl View for State {
    type V = Progress;

    open spec fn view(&self) -> Progress {
        match *self {
            State::Active(i) => Progress::Active(i as nat),
            State::Committed(i) => Progress::Committed(i as nat),
            State::Cancelled => Progress::Cancelled,
        }
    }
}

impl State {
    /// What the interaction yields where it ends in this state, or where the
    /// keys run out in it: the index committed to, and no selection
    /// otherwise.
    pub fn selection(self) -> (chosen: Option<usize>)
        ensures
            match chosen {
                Some(i) => selection_of(self@) == Some(i as nat),
                None => selection_of(self@) is None,
            },
    {
        match self {
            State::Committed(index) => Some(index),
            _ => None,
        }
    }
}

/// `i` brought into the range of a list of `n > 0` items.
pub open spec fn clamp_index(n: nat, i: nat) -> nat {
    if i < n {
        i
    } else {
        (n - 1) as nat
    }
}

/// `i` is the position of the first item whose shortcut is `c`.
pub open spec fn is_first_with_shortcut(items: Seq<ItemView>, c: char, i: int) -> bool {
    &&& 0 <= i < items.len()
    &&& items[i].shortcut == Some(c)
    &&& forall|j: int| 0 <= j < i ==> (#[trigger] items[j]).shortcut != Some(c)
}

/// The position of the first item whose shortcut is `c`, if any item has it.
pub open spec fn shortcut_index(items: Seq<ItemView>, c: char) -> Option<nat> {
    if exists|i: int| is_first_with_shortcut(items, c, i) {
        Some((choose|i: int| is_first_with_shortcut(items, c, i)) as nat)
    } else {
        None
    }
}

/// A progress that a menu of `n` items can be in: an index it names is in range.
pub open spec fn valid_progress(n: nat, p: Progress) -> bool {
    match p {
        Progress::Active(i) => i < n,
        Progress::Committed(i) => i < n,
        Progress::Cancelled => true,
    }
}

/// The progress in which an interaction with `menu` begins: the default item
/// is highlighted, or the last one where the default lies beyond the list. A
/// menu without items is cancelled at once.
pub open spec fn start_of(menu: MenuView) -> Progress {
    if menu.items.len() == 0 {
        Progress::Cancelled
    } else {
        Progress::Active(clamp_index(menu.items.len(), menu.default))
    }
}

/// The progress that follows `p` when `key` arrives.
///
/// A committed or cancelled interaction stays as it is. In an active one the
/// arrows move the highlight by one within the list, Home and End move it to
/// the first and the last item, Enter commits to the highlighted item, Escape,
/// `q` and Ctrl-C cancel, any other character commits to the first item that
/// has it as its shortcut, and every other key changes nothing.
pub open spec fn step_of(items: Seq<ItemView>, p: Progress, key: Key) -> Progress {
    match p {
        Progress::Active(at) => {
            let n = items.len();
            if n == 0 {
                Progress::Cancelled
            } else {
                let sel = clamp_index(n, at);
                if key.is_cancel() {
                    Progress::Cancelled
                } else if key.is_enter() {
                    Progress::Committed(sel)
                } else {
                    match key {
                        Key::Up => Progress::Active(
                            if sel > 0 {
                                (sel - 1) as nat
                            } else {
                                0
                            },
                        ),
                        Key::Down => Progress::Active(clamp_index(n, sel + 1)),
                        Key::Home => Progress::Active(0),
                        Key::End => Progress::Active((n - 1) as nat),
                        Key::Char(c) => match shortcut_index(items, c) {
                            Some(i) => Progress::Committed(i),
                            None => Progress::Active(sel),
                        },
                        _ => Progress::Active(sel),
                    }
                }
            }
        },
        _ => p,
    }
}

/// The progress reached from `p` once `keys` have arrived in order.
pub open spec fn run_of(items: Seq<ItemView>, p: Progress, keys: Seq<Key>) -> Progress
    decreases keys.len(),
{
    if keys.len() == 0 {
        p
    } else {
        run_of(items, step_of(items, p, keys[0]), keys.drop_first())
    }
}

/// What an interaction yields when it ends in `p`, or when the keys run out
/// there: the committed index, and no selection otherwise.
pub open spec fn selection_of(p: Progress) -> Option<nat> {
    match p {
        Progress::Committed(i) => Some(i),
        _ => None,
    }
}

/// What an interaction with `menu` yields on `keys`.
pub open spec fn outcome_of(menu: MenuView, keys: Seq<Key>) -> Option<nat> {
    selection_of(run_of(menu.items, start_of(menu), keys))
}

/// Text of the marker that leads the highlighted line.
pub open spec fn marker_text() -> Seq<char> {
    "\u{276f} "@
}

/// Text of the shortcut column: the character in brackets, or blanks of the
/// same width.
pub open spec fn hint_text(shortcut: Option<char>) -> Seq<char> {
    match shortcut {
        Some(c) => "["@.push(c) + "] "@,
        None => "    "@,
    }
}

/// Text of one line of a frame. The highlighted line is coloured and bold,
/// led by the marker, and followed by a reset of colour and emphasis. Every
/// line ends with carriage return and line feed.
pub open spec fn item_text(item: ItemView, selected: bool) -> Seq<char> {
    if selected {
        highlight_color_text() + bold_text() + marker_text() + hint_text(item.shortcut)
            + item.label + "\r\n"@ + reset_style_text()
    } else {
        "  "@ + hint_text(item.shortcut) + item.label + "\r\n"@
    }
}

/// Text of the first `upto` lines of a frame in which `selected` is highlighted.
pub open spec fn lines_text(items: Seq<ItemView>, selected: nat, upto: nat) -> Seq<char>
    decreases upto,
{
    if upto == 0 {
        Seq::empty()
    } else {
        lines_text(items, selected, (upto - 1) as nat) + item_text(
            items[upto - 1],
            upto - 1 == selected,
        )
    }
}

/// Text of a whole frame: one line for each item, in order.
pub open spec fn frame_text(items: Seq<ItemView>, selected: nat) -> Seq<char> {
    lines_text(items, selected, items.len())
}

/// Text that moves the cursor up by exactly `lines` lines. One sequence can
/// carry a count of at most 65535, so a larger distance takes several.
pub open spec fn move_up_text(lines: nat) -> Seq<char>
    decreases lines,
{
    if lines == 0 {
        Seq::empty()
    } else if lines <= 0xffff {
        cursor_up_text(lines as u16)
    } else {
        cursor_up_text(0xffff) + move_up_text((lines - 0xffff) as nat)
    }
}

/// Text that takes a frame of `lines` lines off the screen: the cursor moves
/// up to the first line and everything from there on is cleared.
pub open spec fn clear_text(lines: nat) -> Seq<char> {
    move_up_text(lines) + clear_after_cursor_text()
}

/// Text that an interaction emits from progress `p` on, while `keys` arrive:
/// a frame whenever it is active, and a clearing after every key read.
pub open spec fn session_text(items: Seq<ItemView>, p: Progress, keys: Seq<Key>) -> Seq<char>
    decreases keys.len(),
{
    match p {
        Progress::Active(at) => frame_text(items, at) + (if keys.len() == 0 {
            Seq::empty()
        } else {
            clear_text(items.len()) + session_text(
                items,
                step_of(items, p, keys[0]),
                keys.drop_first(),
            )
        }),
        _ => Seq::empty(),
    }
}

/// Text of a whole interaction with `menu` on `keys`: the cursor is hidden,
/// the session runs, and the cursor is shown again. A menu without items
/// emits nothing.
pub open spec fn transcript_of(menu: MenuView, keys: Seq<Key>) -> Seq<char> {
    if menu.items.len() == 0 {
        Seq::empty()
    } else {
        hide_cursor_text() + session_text(menu.items, start_of(menu), keys) + show_cursor_text()
    }
}

/// The first item with a given shortcut is the one `shortcut_index` names.
pub proof fn lemma_shortcut_index_first(items: Seq<ItemView>, c: char, i: int)
    requires
        is_first_with_shortcut(items, c, i),
    ensures
        shortcut_index(items, c) == Some(i as nat),
{
    let j = choose|j: int| is_first_with_shortcut(items, c, j);
    if j < i {
        assert(items[j].shortcut != Some(c));
    }
    if i < j {
        assert(items[i].shortcut != Some(c));
    }
}

/// Where no item has the shortcut, `shortcut_index` names none.
pub proof fn lemma_shortcut_index_none(items: Seq<ItemView>, c: char)
    requires
        forall|j: int| 0 <= j < items.len() ==> (#[trigger] items[j]).shortcut != Some(c),
    ensures
        shortcut_index(items, c) is None,
{
    if exists|i: int| is_first_with_shortcut(items, c, i) {
        let i = choose|i: int| is_first_with_shortcut(items, c, i);
        assert(items[i].shortcut == Some(c));
    }
}

/// What `shortcut_index` names is in range and carries the shortcut.
pub proof fn lemma_shortcut_index_valid(items: Seq<ItemView>, c: char)
    ensures
        match shortcut_index(items, c) {
            Some(i) => is_first_with_shortcut(items, c, i as int),
            None => forall|j: int|
                0 <= j < items.len() ==> (#[trigger] items[j]).shortcut != Some(c),
        },
{
    if exists|i: int| is_first_with_shortcut(items, c, i) {
    } else {
        assert forall|j: int| 0 <= j < items.len() implies (#[trigger] items[j]).shortcut
            != Some(c) by {
            if items[j].shortcut == Some(c) {
                lemma_first_exists(items, c, j);
            }
        }
    }
}

/// Where some item up to `k` has the shortcut, a first one exists.
proof fn lemma_first_exists(items: Seq<ItemView>, c: char, k: int)
    requires
        0 <= k < items.len(),
        items[k].shortcut == Some(c),
    ensures
        exists|i: int| is_first_with_shortcut(items, c, i),
    decreases k,
{
    if forall|j: int| 0 <= j < k ==> (#[trigger] items[j]).shortcut != Some(c) {
        assert(is_first_with_shortcut(items, c, k));
    } else {
        let j = choose|j: int| 0 <= j < k && (#[trigger] items[j]).shortcut == Some(c);
        lemma_first_exists(items, c, j);
    }
}

/// Every step leads to a progress whose index is in range.
pub proof fn lemma_step_valid(items: Seq<ItemView>, p: Progress, key: Key)
    requires
        valid_progress(items.len(), p),
    ensures
        valid_progress(items.len(), step_of(items, p, key)),
{
    if let Key::Char(c) = key {
        lemma_shortcut_index_valid(items, c);
    }
}

/// Every run leads to a progress whose index is in range.
pub proof fn lemma_run_valid(items: Seq<ItemView>, p: Progress, keys: Seq<Key>)
    requires
        valid_progress(items.len(), p),
    ensures
        valid_progress(items.len(), run_of(items, p, keys)),
    decreases keys.len(),
{
    if keys.len() > 0 {
        lemma_step_valid(items, p, keys[0]);
        lemma_run_valid(items, step_of(items, p, keys[0]), keys.drop_first());
    }
}

/// An interaction that has ended is not moved by further keys.
pub proof fn lemma_run_ended(items: Seq<ItemView>, p: Progress, keys: Seq<Key>)
    requires
        !(p is Active),
    ensures
        run_of(items, p, keys) == p,
    decreases keys.len(),
{
    if keys.len() > 0 {
        lemma_run_ended(items, p, keys.drop_first());
    }
}

/// A run over `keys` followed by `key` is the run over `keys`, then one step.
pub proof fn lemma_run_push(items: Seq<ItemView>, p: Progress, keys: Seq<Key>, key: Key)
    ensures
        run_of(items, p, keys.push(key)) == step_of(items, run_of(items, p, keys), key),
    decreases keys.len(),
{
    let all = keys.push(key);
    if keys.len() == 0 {
        assert(all.drop_first() =~= Seq::<Key>::empty());
        assert(run_of(items, step_of(items, p, key), all.drop_first()) == step_of(
            items,
            p,
            key,
        ));
    } else {
        assert(all.drop_first() =~= keys.drop_first().push(key));
        lemma_run_push(items, step_of(items, p, keys[0]), keys.drop_first(), key);
    }
}

/// A run over `first` followed by `then` is the run over `then` from where
/// the run over `first` ends.
pub proof fn lemma_run_concat(items: Seq<ItemView>, p: Progress, first: Seq<Key>, then: Seq<Key>)
    ensures
        run_of(items, p, first + then) == run_of(items, run_of(items, p, first), then),
    decreases first.len(),
{
    if first.len() == 0 {
        assert(first + then =~= then);
    } else {
        assert((first + then).drop_first() =~= first.drop_first() + then);
        lemma_run_concat(items, step_of(items, p, first[0]), first.drop_first(), then);
    }
}

/// The key `key`, pressed `count` times.
pub open spec fn repeated(key: Key, count: nat) -> Seq<Key> {
    Seq::new(count, |i: int| key)
}

/// Pressing the down arrow `count` times moves the highlight from item `at`
/// to item `at + count`, and to the last item where the list ends before
/// that.
pub proof fn lemma_down_arrows(items: Seq<ItemView>, at: nat, count: nat)
    requires
        at < items.len(),
    ensures
        run_of(items, Progress::Active(at), repeated(Key::Down, count)) == Progress::Active(
            if at + count < items.len() {
                at + count
            } else {
                (items.len() - 1) as nat
            },
        ),
    decreases count,
{
    if count > 0 {
        let keys = repeated(Key::Down, count);
        assert(keys.drop_first() =~= repeated(Key::Down, (count - 1) as nat));
        let next = clamp_index(items.len(), at + 1);
        lemma_down_arrows(items, next, (count - 1) as nat);
    }
}

/// Pressing the up arrow `count` times moves the highlight from item `at` to
/// item `at - count`, and to the first item where the list begins after
/// that.
pub proof fn lemma_up_arrows(items: Seq<ItemView>, at: nat, count: nat)
    requires
        at < items.len(),
    ensures
        run_of(items, Progress::Active(at), repeated(Key::Up, count)) == Progress::Active(
            if count <= at {
                (at - count) as nat
            } else {
                0
            },
        ),
    decreases count,
{
    if count > 0 {
        let keys = repeated(Key::Up, count);
        assert(keys.drop_first() =~= repeated(Key::Up, (count - 1) as nat));
        let next: nat = if at > 0 {
            (at - 1) as nat
        } else {
            0
        };
        lemma_up_arrows(items, next, (count - 1) as nat);
    }
}

/// Whatever keys came before, as long as the interaction is still active,
/// Home highlights the first item and End the last.
pub proof fn lemma_home_and_end(items: Seq<ItemView>, p: Progress, keys: Seq<Key>)
    requires
        items.len() > 0,
        run_of(items, p, keys) is Active,
    ensures
        run_of(items, p, keys.push(Key::Home)) == Progress::Active(0),
        run_of(items, p, keys.push(Key::End)) == Progress::Active((items.len() - 1) as nat),
{
    lemma_run_push(items, p, keys, Key::Home);
    lemma_run_push(items, p, keys, Key::End);
}

/// Whatever keys came before, as long as the interaction is still active, the
/// shortcut character of an item commits to that item at once. Where several
/// items share the character it is the first of them; `q` and the line feed
/// keep their own meaning and are never shortcuts.
pub proof fn lemma_shortcut_commits(
    items: Seq<ItemView>,
    p: Progress,
    keys: Seq<Key>,
    c: char,
    i: int,
)
    requires
        run_of(items, p, keys) is Active,
        is_first_with_shortcut(items, c, i),
        c != 'q',
        c != '\n',
    ensures
        run_of(items, p, keys.push(Key::Char(c))) == Progress::Committed(i as nat),
        selection_of(run_of(items, p, keys.push(Key::Char(c)))) == Some(i as nat),
{
    lemma_run_push(items, p, keys, Key::Char(c));
    lemma_shortcut_index_first(items, c, i);
}

/// Whatever keys came before, as long as the interaction is still active,
/// Escape, `q` and Ctrl-C cancel it, and no key after them brings a
/// selection back.
pub proof fn lemma_cancel_keys(
    items: Seq<ItemView>,
    p: Progress,
    keys: Seq<Key>,
    key: Key,
    later: Seq<Key>,
)
    requires
        run_of(items, p, keys) is Active,
        key.is_cancel(),
    ensures
        run_of(items, p, keys.push(key) + later) == Progress::Cancelled,
        selection_of(run_of(items, p, keys.push(key) + later)) is None,
{
    lemma_run_push(items, p, keys, key);
    lemma_run_concat(items, p, keys.push(key), later);
    lemma_run_ended(items, Progress::Cancelled, later);
}

/// Keys that run out while the interaction is still active yield no
/// selection.
pub proof fn lemma_exhaustion(menu: MenuView, keys: Seq<Key>)
    requires
        run_of(menu.items, start_of(menu), keys) is Active,
    ensures
        outcome_of(menu, keys) is None,
{
}

/// An interaction never yields an index outside the list.
pub proof fn lemma_outcome_in_range(menu: MenuView, keys: Seq<Key>)
    ensures
        match outcome_of(menu, keys) {
            Some(i) => i < menu.items.len(),
            None => true,
        },
{
    lemma_run_valid(menu.items, start_of(menu), keys);
}

impl MenuItem {
    /// The item with the given label and shortcut.
    pub closed spec fn of(label: String, shortcut: Option<char>) -> MenuItem {
        MenuItem { label, shortcut }
    }

    /// What the item with the given label and shortcut is.
    pub proof fn lemma_of(label: String, shortcut: Option<char>)
        ensures
            MenuItem::of(label, shortcut)@ == (ItemView { label: label@, shortcut }),
    {
    }

    /// An item with the given label and shortcut.
    pub fn new(label: String, shortcut: Option<char>) -> (item: MenuItem)
        ensures
            item == MenuItem::of(label, shortcut),
            item@ == (ItemView { label: label@, shortcut }),
    {
        MenuItem { label, shortcut }
    }

    /// Appends the line of this item to `out`.
    pub fn draw(&self, out: &mut String, selected: bool)
        ensures
            final(out)@ == old(out)@ + item_text(self@, selected),
    {
        if selected {
            out.append(highlight_color().as_str());
            out.append(bold().as_str());
            out.append("\u{276f} ");
        } else {
            out.append("  ");
        }
        match self.shortcut {
            Some(c) => {
                out.append("[");
                out.push(c);
                out.append("] ");
            },
            None => {
                out.append("    ");
            },
        }
        out.append(self.label.as_str());
        out.append("\r\n");
        if selected {
            out.append(reset_style().as_str());
        }
    }
}

impl From<(String, Option<char>)> for MenuItem {
    /// The item with the label and the shortcut of the pair.
    fn from(pair: (String, Option<char>)) -> (item: MenuItem) {
        MenuItem::new(pair.0, pair.1)
    }
}

impl vstd::std_specs::convert::FromSpecImpl<(String, Option<char>)> for MenuItem {
    open spec fn obeys_from_spec() -> bool {
        true
    }

    open spec fn from_spec(pair: (String, Option<char>)) -> MenuItem {
        MenuItem::of(pair.0, pair.1)
    }
}

impl Menu {
    /// A menu of the given items whose default is the first of them.
    pub fn new(items: Vec<MenuItem>) -> (menu: Menu)
        ensures
            menu@.items == Seq::new(items@.len(), |i: int| items@[i]@),
            menu@.default == 0,
    {
        Menu { items, default: 0 }
    }

    /// Sets the default index and hands the menu back, so that calls can be
    /// chained.
    pub fn default(&mut self, default: usize) -> (menu: &mut Menu)
        ensures
            menu@ == (MenuView { items: old(self)@.items, default: default as nat }),
            *final(self) == *final(menu),
    {
        self.default = default;
        self
    }

    /// The number of items.
    pub fn len(&self) -> (n: usize)
        ensures
            n == self@.items.len(),
    {
        self.items.len()
    }

    /// The position of the first item whose shortcut is `c`.
    fn find_shortcut(&self, c: char) -> (found: Option<usize>)
        ensures
            match found {
                Some(i) => shortcut_index(self@.items, c) == Some(i as nat),
                None => shortcut_index(self@.items, c) is None,
            },
    {
        let mut i: usize = 0;
        while i < self.items.len()
            invariant
                i <= self.items.len(),
                forall|j: int| 0 <= j < i ==> (#[trigger] self@.items[j]).shortcut != Some(c),
            decreases self.items.len() - i,
        {
            let hit = match self.items[i].shortcut {
                Some(s) => s == c,
                None => false,
            };
            if hit {
                proof {
                    lemma_shortcut_index_first(self@.items, c, i as int);
                }
                return Some(i);
            }
            i += 1;
        }
        proof {
            lemma_shortcut_index_none(self@.items, c);
        }
        None
    }

    /// The state in which an interaction begins.
    pub fn start(&self) -> (state: State)
        ensures
            state@ == start_of(self@),
    {
        let n = self.items.len();
        if n == 0 {
            State::Cancelled
        } else if self.default < n {
            State::Active(self.default)
        } else {
            State::Active(n - 1)
        }
    }

    /// The state that follows `state` when `key` arrives.
    pub fn step(&self, state: State, key: Key) -> (next: State)
        ensures
            next@ == step_of(self@.items, state@, key),
    {
        let n = self.items.len();
        match state {
            State::Active(at) => {
                if n == 0 {
                    return State::Cancelled;
                }
                let sel = if at < n {
                    at
                } else {
                    n - 1
                };
                match key {
                    Key::Up => State::Active(
                        if sel > 0 {
                            sel - 1
                        } else {
                            0
                        },
                    ),
                    Key::Down => State::Active(
                        if sel + 1 < n {
                            sel + 1
                        } else {
                            n - 1
                        },
                    ),
                    Key::Home => State::Active(0),
                    Key::End => State::Active(n - 1),
                    Key::Esc => State::Cancelled,
                    Key::Ctrl(c) => if c == 'c' {
                        State::Cancelled
                    } else {
                        State::Active(sel)
                    },
                    Key::Char(c) => if c == 'q' {
                        State::Cancelled
                    } else if c == '\n' {
                        State::Committed(sel)
                    } else {
                        match self.find_shortcut(c) {
                            Some(i) => State::Committed(i),
                            None => State::Active(sel),
                        }
                    },
                    Key::Other => State::Active(sel),
                }
            },
            _ => state,
        }
    }

    /// Appends one frame to `out`: every item on a line of its own, the one at
    /// `selected` highlighted.
    pub fn draw(&self, out: &mut String, selected: usize)
        ensures
            final(out)@ == old(out)@ + frame_text(self@.items, selected as nat),
    {
        let ghost before = out@;
        let mut i: usize = 0;
        while i < self.items.len()
            invariant
                i <= self.items.len(),
                out@ == before + lines_text(self@.items, selected as nat, i as nat),
            decreases self.items.len() - i,
        {
            self.items[i].draw(out, i == selected);
            i += 1;
        }
    }

    /// Appends to `out` what takes the last frame off the screen.
    pub fn clear(&self, out: &mut String)
        ensures
            final(out)@ == old(out)@ + clear_text(self@.items.len()),
    {
        let ghost before = out@;
        let mut rest: usize = self.items.len();
        while rest > 0xffff
            invariant
                before + move_up_text(self@.items.len()) == out@ + move_up_text(rest as nat),
            decreases rest,
        {
            out.append(cursor_up(0xffff).as_str());
            rest -= 0xffff;
        }
        if rest > 0 {
            out.append(cursor_up(rest as u16).as_str());
        }
        out.append(clear_after_cursor().as_str());
    }

    /// Runs a whole interaction on the keys given: `keys` stands for the input
    /// and `out` for the terminal. Returns the index committed to, or `None`
    /// when the interaction is cancelled or the keys run out first. Keys after
    /// the one that ends the interaction are not looked at.
    pub fn interact(&self, keys: &[Key], out: &mut String) -> (chosen: Option<usize>)
        ensures
            match chosen {
                Some(i) => i < self@.items.len() && outcome_of(self@, keys@) == Some(i as nat),
                None => outcome_of(self@, keys@) is None,
            },
            final(out)@ == old(out)@ + transcript_of(self@, keys@),
    {
        let ghost items = self@.items;
        let mut state = self.start();
        if self.items.len() == 0 {
            proof {
                lemma_run_ended(items, state@, keys@);
            }
            return None;
        }
        out.append(hide_cursor().as_str());
        let ghost opened = out@;
        let ghost whole = session_text(items, start_of(self@), keys@);
        let mut i: usize = 0;
        assert(keys@.skip(0) =~= keys@);
        loop
            invariant_except_break
                run_of(items, start_of(self@), keys@) == run_of(items, state@, keys@.skip(i as int)),
                out@ + session_text(items, state@, keys@.skip(i as int)) == opened + whole,
            invariant
                i <= keys@.len(),
                items == self@.items,
                items.len() > 0,
                valid_progress(items.len(), state@),
            ensures
                valid_progress(items.len(), state@),
                selection_of(state@) == outcome_of(self@, keys@),
                out@ == opened + whole,
            decreases keys@.len() - i,
        {
            let ghost rest = keys@.skip(i as int);
            let ghost sofar = out@;
            match state {
                State::Active(at) => {
                    self.draw(out, at);
                    if i == keys.len() {
                        break ;
                    }
                    self.clear(out);
                    let key = keys[i];
                    let ghost prev = state@;
                    state = self.step(state, key);
                    proof {
                        assert(rest.drop_first() =~= keys@.skip(i + 1));
                        lemma_step_valid(items, prev, key);
                        let tail = session_text(items, state@, keys@.skip(i + 1));
                        assert(out@ + tail =~= sofar + (frame_text(items, at as nat) + (clear_text(
                            items.len(),
                        ) + tail)));
                    }
                    i += 1;
                },
                _ => {
                    proof {
                        lemma_run_ended(items, state@, rest);
                    }
                    break ;
                },
            }
        }
        out.append(show_cursor().as_str());
        state.selection()
    }
}

} // verus!
