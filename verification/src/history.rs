//! The history of recently used accounts and of the last role of each.
//!
//! A [`History`] holds the accounts in order of their last use, most recent
//! first, together with the role last chosen for each account. No account is
//! listed twice, and no more accounts are listed than the bound that the
//! history was made with. It is made from a [`HistoryConfig`], the document
//! that is kept between runs, and turned back into one after each update.
//! Reading and writing that document is left to the caller.

use vstd::prelude::*;
use vstd::string::*;

verus! {

/// What a persisted document is.
#[verifier::ext_equal]
pub struct ConfigView {
    /// The single account of the older format, if the document still has it.
    pub account: Option<Seq<char>>,
    /// The accounts, most recently used first.
    pub last_accounts: Seq<Seq<char>>,
    /// The role last chosen for each account.
    pub roles: Map<Seq<char>, Seq<char>>,
}

/// The document that is kept between runs. Fields that a stored document
/// lacks are left empty.
#[derive(Clone, Debug)]
pub struct HistoryConfig {
    /// The single account of the older format. It is only ever read.
    pub account: Option<String>,
    /// The accounts, most recently used first.
    pub last_accounts: Vec<String>,
    /// The role last chosen for each account, as pairs of account and role.
    /// Where an account occurs more than once, its last pair counts.
    pub roles: Vec<(String, String)>,
}

/// The texts of a list of strings.
pub open spec fn names_of(names: Seq<String>) -> Seq<Seq<char>> {
    Seq::new(names.len(), |i: int| names[i]@)
}

/// The texts of a list of pairs of strings.
pub open spec fn pairs_of(pairs: Seq<(String, String)>) -> Seq<(Seq<char>, Seq<char>)> {
    Seq::new(pairs.len(), |i: int| (pairs[i].0@, pairs[i].1@))
}

/// The map that a list of pairs stands for: each key is mapped to the value
/// of the last pair that has it.
pub open spec fn map_of(pairs: Seq<(Seq<char>, Seq<char>)>) -> Map<Seq<char>, Seq<char>>
    decreases pairs.len(),
{
    if pairs.len() == 0 {
        Map::empty()
    } else {
        map_of(pairs.drop_last()).insert(pairs.last().0, pairs.last().1)
    }
}

/// No two pairs have the same key.
pub open spec fn distinct_keys(pairs: Seq<(Seq<char>, Seq<char>)>) -> bool {
    forall|i: int, j: int| 0 <= i < j < pairs.len() ==> (#[trigger] pairs[i]).0 != (
    #[trigger] pairs[j]).0
}

impl View for HistoryConfig {
    type V = ConfigView;

    open spec fn view(&self) -> ConfigView {
        ConfigView {
            account: match self.account {
                Some(name) => Some(name@),
                None => None,
            },
            last_accounts: names_of(self.last_accounts@),
            roles: map_of(pairs_of(self.roles@)),
        }
    }
}

/// What a history is.
#[verifier::ext_equal]
pub struct HistoryView {
    /// The accounts, most recently used first.
    pub recent: Seq<Seq<char>>,
    /// The role last chosen for each account.
    pub roles: Map<Seq<char>, Seq<char>>,
    /// The number of accounts that are kept.
    pub bound: nat,
}

impl HistoryView {
    /// No account is listed twice, and no more accounts than the bound allows.
    pub open spec fn is_settled(self) -> bool {
        self.recent.no_duplicates() && self.recent.len() <= self.bound
    }
}

/// The recently used accounts and the last role of each. No account is
/// listed twice, the list is never longer than its bound, and no account has
/// more than one role.
#[derive(Debug)]
pub struct History {
    last_accounts: Vec<String>,
    roles: Vec<(String, String)>,
    max_last_accounts: usize,
}

impl View for History {
    type V = HistoryView;

    closed spec fn view(&self) -> HistoryView {
        HistoryView {
            recent: names_of(self.last_accounts@),
            roles: map_of(pairs_of(self.roles@)),
            bound: self.max_last_accounts as nat,
        }
    }
}

/// `names` without the later occurrences of anything that occurs in it more
/// than once: the first occurrence of each element stays where it is among
/// the others.
pub open spec fn keep_first(names: Seq<Seq<char>>) -> Seq<Seq<char>>
    decreases names.len(),
{
    if names.len() == 0 {
        Seq::empty()
    } else {
        let before = keep_first(names.drop_last());
        if before.contains(names.last()) {
            before
        } else {
            before.push(names.last())
        }
    }
}

/// `names` as a list of recent accounts can hold them: nothing occurs twice,
/// and only the first `bound` entries are kept.
pub open spec fn settle(names: Seq<Seq<char>>, bound: nat) -> Seq<Seq<char>> {
    let all = keep_first(names);
    if bound < all.len() {
        all.take(bound as int)
    } else {
        all
    }
}

/// The list of recent accounts after `name` was used: `name` comes first,
/// nothing occurs twice, and only the first `bound` entries are kept.
pub open spec fn record_of(recent: Seq<Seq<char>>, name: Seq<char>, bound: nat) -> Seq<Seq<char>> {
    settle(seq![name] + recent, bound)
}

/// The accounts that a stored document lists. The single account of the older
/// format, where the document has it, comes last, as the least recent one.
pub open spec fn listed_in(config: ConfigView) -> Seq<Seq<char>> {
    match config.account {
        Some(name) => config.last_accounts.push(name),
        None => config.last_accounts,
    }
}

/// The history that a stored document stands for: the accounts it lists, as
/// far as a history of the given bound can hold them, and its roles.
pub open spec fn load_of(config: ConfigView, bound: nat) -> HistoryView {
    HistoryView { recent: settle(listed_in(config), bound), roles: config.roles, bound }
}

/// The document in which a history is stored. It never has the single account
/// of the older format.
pub open spec fn persist_of(history: HistoryView) -> ConfigView {
    ConfigView { account: None, last_accounts: history.recent, roles: history.roles }
}

/// The history after `role` was chosen for `account`.
pub open spec fn update_of(history: HistoryView, account: Seq<char>, role: Seq<char>) -> HistoryView {
    HistoryView {
        recent: record_of(history.recent, account, history.bound),
        roles: history.roles.insert(account, role),
        bound: history.bound,
    }
}

/// The keys of the map that a list of pairs stands for are the keys of the
/// pairs.
pub proof fn lemma_map_of_keys(pairs: Seq<(Seq<char>, Seq<char>)>, key: Seq<char>)
    ensures
        map_of(pairs).dom().contains(key) <==> exists|i: int|
            0 <= i < pairs.len() && (#[trigger] pairs[i]).0 == key,
    decreases pairs.len(),
{
    if pairs.len() > 0 {
        let front = pairs.drop_last();
        lemma_map_of_keys(front, key);
        if map_of(pairs).dom().contains(key) {
            if pairs.last().0 == key {
                assert(pairs[pairs.len() - 1].0 == key);
            } else {
                let i = choose|i: int| 0 <= i < front.len() && (#[trigger] front[i]).0 == key;
                assert(pairs[i].0 == key);
            }
        }
        if exists|i: int| 0 <= i < pairs.len() && (#[trigger] pairs[i]).0 == key {
            let i = choose|i: int| 0 <= i < pairs.len() && (#[trigger] pairs[i]).0 == key;
            if i < pairs.len() - 1 {
                assert(front[i].0 == key);
            }
        }
    }
}

/// Where no two pairs have the same key, the map has for each key the value
/// of its one pair.
pub proof fn lemma_map_of_value(pairs: Seq<(Seq<char>, Seq<char>)>, i: int)
    requires
        distinct_keys(pairs),
        0 <= i < pairs.len(),
    ensures
        map_of(pairs).dom().contains(pairs[i].0),
        map_of(pairs)[pairs[i].0] == pairs[i].1,
    decreases pairs.len(),
{
    if i < pairs.len() - 1 {
        let front = pairs.drop_last();
        assert(front[i] == pairs[i]);
        assert(pairs[i].0 != pairs[pairs.len() - 1].0);
        assert forall|a: int, b: int| 0 <= a < b < front.len() implies (#[trigger] front[a]).0 != (
        #[trigger] front[b]).0 by {
            assert(front[a] == pairs[a] && front[b] == pairs[b]);
        }
        lemma_map_of_value(front, i);
    }
}

/// Where no two pairs have the same key, giving the pair of a key a new value
/// gives the key that value in the map, and changes nothing else.
proof fn lemma_map_of_update(pairs: Seq<(Seq<char>, Seq<char>)>, i: int, value: Seq<char>)
    requires
        distinct_keys(pairs),
        0 <= i < pairs.len(),
    ensures
        distinct_keys(pairs.update(i, (pairs[i].0, value))),
        map_of(pairs.update(i, (pairs[i].0, value))) == map_of(pairs).insert(pairs[i].0, value),
    decreases pairs.len(),
{
    let key = pairs[i].0;
    let changed = pairs.update(i, (key, value));
    let front = pairs.drop_last();
    assert forall|a: int, b: int| 0 <= a < b < changed.len() implies (#[trigger] changed[a]).0 != (
    #[trigger] changed[b]).0 by {
        assert(changed[a].0 == pairs[a].0 && changed[b].0 == pairs[b].0);
    }
    if i == pairs.len() - 1 {
        assert(changed.drop_last() =~= front);
        assert(map_of(changed) =~= map_of(pairs).insert(key, value));
    } else {
        assert(changed.drop_last() =~= front.update(i, (front[i].0, value)));
        assert(pairs[i].0 != pairs[pairs.len() - 1].0);
        assert forall|a: int, b: int| 0 <= a < b < front.len() implies (#[trigger] front[a]).0 != (
        #[trigger] front[b]).0 by {
            assert(front[a] == pairs[a] && front[b] == pairs[b]);
        }
        lemma_map_of_update(front, i, value);
        assert(map_of(changed) =~= map_of(pairs).insert(key, value));
    }
}

/// `keep_first` leaves every element of the list once, adds none, and leaves
/// the first element first.
pub proof fn lemma_keep_first(names: Seq<Seq<char>>)
    ensures
        keep_first(names).no_duplicates(),
        keep_first(names).len() <= names.len(),
        forall|name: Seq<char>| keep_first(names).contains(name) <==> names.contains(name),
        names.len() > 0 ==> keep_first(names).len() > 0 && keep_first(names)[0] == names[0],
    decreases names.len(),
{
    if names.len() > 0 {
        let front = names.drop_last();
        let before = keep_first(front);
        lemma_keep_first(front);
        assert forall|name: Seq<char>| keep_first(names).contains(name) <==> names.contains(
            name,
        ) by {
            if names.contains(name) {
                let i = choose|i: int| 0 <= i < names.len() && names[i] == name;
                if i < names.len() - 1 {
                    assert(front[i] == name);
                    assert(front.contains(name));
                    assert(before.contains(name));
                    let k = choose|k: int| 0 <= k < before.len() && before[k] == name;
                    assert(keep_first(names)[k] == name);
                } else {
                    if !before.contains(name) {
                        assert(keep_first(names)[before.len() as int] == name);
                    }
                }
            }
            if keep_first(names).contains(name) {
                let k = choose|k: int| 0 <= k < keep_first(names).len() && keep_first(names)[k]
                    == name;
                if k < before.len() {
                    assert(before[k] == name);
                    assert(before.contains(name));
                    assert(front.contains(name));
                    let i = choose|i: int| 0 <= i < front.len() && front[i] == name;
                    assert(names[i] == name);
                } else {
                    assert(names[names.len() - 1] == name);
                }
            }
        }
        if front.len() > 0 {
            assert(front[0] == names[0]);
        }
    }
}

/// A list in which nothing occurs twice has no later occurrences to lose.
pub proof fn lemma_keep_first_of_distinct(names: Seq<Seq<char>>)
    requires
        names.no_duplicates(),
    ensures
        keep_first(names) == names,
    decreases names.len(),
{
    if names.len() > 0 {
        let front = names.drop_last();
        lemma_keep_first_of_distinct(front);
        if front.contains(names.last()) {
            let i = choose|i: int| 0 <= i < front.len() && front[i] == names.last();
            assert(names[i] == names[names.len() - 1]);
        }
        assert(front.push(names.last()) =~= names);
    }
}

/// Putting in front of a duplicate-free list the element it already begins
/// with, and dropping later occurrences, gives the list back.
proof fn lemma_keep_first_front_again(names: Seq<Seq<char>>)
    requires
        names.no_duplicates(),
        names.len() > 0,
    ensures
        keep_first(seq![names[0]] + names) == names,
    decreases names.len(),
{
    let all = seq![names[0]] + names;
    if names.len() == 1 {
        assert(all.drop_last() =~= seq![names[0]]);
        lemma_keep_first_of_distinct(seq![names[0]]);
        assert(seq![names[0]][0] == names[0]);
        assert(keep_first(all) =~= names);
    } else {
        let front = names.drop_last();
        assert(all.drop_last() =~= seq![front[0]] + front);
        lemma_keep_first_front_again(front);
        if front.contains(names.last()) {
            let i = choose|i: int| 0 <= i < front.len() && front[i] == names.last();
            assert(names[i] == names[names.len() - 1]);
        }
        assert(front.push(names.last()) =~= names);
    }
}

/// Settling a list leaves no more than `bound` entries and none twice, adds
/// nothing, and leaves the first entry first wherever anything is kept.
pub proof fn lemma_settle(names: Seq<Seq<char>>, bound: nat)
    ensures
        settle(names, bound).len() <= bound,
        settle(names, bound).len() <= names.len(),
        settle(names, bound).no_duplicates(),
        bound > 0 && names.len() > 0 ==> settle(names, bound).len() > 0 && settle(names, bound)[0]
            == names[0],
        forall|name: Seq<char>| settle(names, bound).contains(name) ==> names.contains(name),
{
    let all = keep_first(names);
    lemma_keep_first(names);
    let kept = settle(names, bound);
    assert forall|name: Seq<char>| kept.contains(name) implies names.contains(name) by {
        let k = choose|k: int| 0 <= k < kept.len() && kept[k] == name;
        assert(all[k] == name);
        assert(all.contains(name));
    }
}

/// A list that has nothing twice and is no longer than `bound` is settled
/// as it is.
pub proof fn lemma_settle_of_settled(names: Seq<Seq<char>>, bound: nat)
    requires
        names.no_duplicates(),
        names.len() <= bound,
    ensures
        settle(names, bound) == names,
{
    lemma_keep_first_of_distinct(names);
}

/// Recording the use of an account never leaves more than `bound` accounts,
/// never leaves an account twice, and leaves the account used in front
/// wherever anything is kept at all.
pub proof fn lemma_record_bounded_and_distinct(
    recent: Seq<Seq<char>>,
    name: Seq<char>,
    bound: nat,
)
    ensures
        record_of(recent, name, bound).len() <= bound,
        record_of(recent, name, bound).len() <= recent.len() + 1,
        record_of(recent, name, bound).no_duplicates(),
        bound > 0 ==> record_of(recent, name, bound).len() > 0 && record_of(
            recent,
            name,
            bound,
        )[0] == name,
        forall|other: Seq<char>|
            record_of(recent, name, bound).contains(other) ==> other == name || recent.contains(
                other,
            ),
{
    let given = seq![name] + recent;
    lemma_settle(given, bound);
    assert(given[0] == name);
    let kept = record_of(recent, name, bound);
    assert forall|other: Seq<char>| kept.contains(other) implies other == name || recent.contains(
        other,
    ) by {
        assert(given.contains(other));
        let i = choose|i: int| 0 <= i < given.len() && given[i] == other;
        if i > 0 {
            assert(recent[i - 1] == other);
        }
    }
}

/// Recording the use of the same account again changes nothing.
pub proof fn lemma_record_idempotent(recent: Seq<Seq<char>>, name: Seq<char>, bound: nat)
    ensures
        record_of(record_of(recent, name, bound), name, bound) == record_of(recent, name, bound),
{
    let once = record_of(recent, name, bound);
    lemma_record_bounded_and_distinct(recent, name, bound);
    if bound == 0 {
        assert(once =~= Seq::<Seq<char>>::empty());
        assert(seq![name] + once =~= seq![name]);
        lemma_keep_first_of_distinct(seq![name]);
        assert(record_of(once, name, bound) =~= once);
    } else {
        lemma_keep_first_front_again(once);
    }
}

/// Recording the use of an account that is not listed, in a list without
/// duplicates, puts it in front of the others; the last of them goes where
/// the list was full.
pub proof fn lemma_record_new_account(recent: Seq<Seq<char>>, name: Seq<char>, bound: nat)
    requires
        recent.no_duplicates(),
        !recent.contains(name),
    ensures
        record_of(recent, name, bound) == if bound <= recent.len() {
            (seq![name] + recent).take(bound as int)
        } else {
            seq![name] + recent
        },
{
    lemma_keep_first_new(recent, name);
}

/// A duplicate-free list with a new element put in front has no later
/// occurrences to lose.
proof fn lemma_keep_first_new(recent: Seq<Seq<char>>, name: Seq<char>)
    requires
        recent.no_duplicates(),
        !recent.contains(name),
    ensures
        keep_first(seq![name] + recent) == seq![name] + recent,
{
    let given = seq![name] + recent;
    assert forall|i: int, j: int| 0 <= i < j < given.len() implies given[i] != given[j] by {
        if i == 0 {
            assert(recent[j - 1] == given[j]);
        } else {
            assert(recent[i - 1] == given[i] && recent[j - 1] == given[j]);
        }
    }
    lemma_keep_first_of_distinct(given);
}

/// Recording the use of an account that is listed, in a list without
/// duplicates, moves it to the front and leaves the others in their order.
pub proof fn lemma_record_known_account(
    recent: Seq<Seq<char>>,
    name: Seq<char>,
    bound: nat,
    at: int,
)
    requires
        recent.no_duplicates(),
        0 <= at < recent.len(),
        recent[at] == name,
    ensures
        record_of(recent, name, bound) == if bound < recent.len() {
            (seq![name] + recent.remove(at)).take(bound as int)
        } else {
            seq![name] + recent.remove(at)
        },
{
    lemma_keep_first_known(recent, name, at);
}

/// Dropping the later occurrences from a duplicate-free list with one of its
/// elements put in front takes that element out of its old place.
proof fn lemma_keep_first_known(recent: Seq<Seq<char>>, name: Seq<char>, at: int)
    requires
        recent.no_duplicates(),
        0 <= at < recent.len(),
        recent[at] == name,
    ensures
        keep_first(seq![name] + recent) == seq![name] + recent.remove(at),
    decreases recent.len(),
{
    let given = seq![name] + recent;
    let front = recent.drop_last();
    let last = recent.last();
    assert(given.drop_last() =~= seq![name] + front);
    assert(given.last() == last);
    if at == recent.len() - 1 {
        assert(!front.contains(name)) by {
            if front.contains(name) {
                let i = choose|i: int| 0 <= i < front.len() && front[i] == name;
                assert(recent[i] == recent[at]);
            }
        }
        lemma_keep_first_new(front, name);
        assert((seq![name] + front)[0] == name);
        assert(recent.remove(at) =~= front);
    } else {
        lemma_keep_first_known(front, name, at);
        let before = seq![name] + front.remove(at);
        assert(!before.contains(last)) by {
            if before.contains(last) {
                let k = choose|k: int| 0 <= k < before.len() && before[k] == last;
                if k == 0 {
                    assert(recent[at] == recent[recent.len() - 1]);
                } else if k - 1 < at {
                    assert(recent[k - 1] == recent[recent.len() - 1]);
                } else {
                    assert(recent[k] == recent[recent.len() - 1]);
                }
            }
        }
        assert(before.push(last) =~= seq![name] + recent.remove(at));
    }
}

/// Whatever a document lists, the history it is loaded as has no account
/// twice and no more accounts than its bound allows.
pub proof fn lemma_load_settled(config: ConfigView, bound: nat)
    ensures
        load_of(config, bound).is_settled(),
{
    lemma_settle(listed_in(config), bound);
}

/// An update leaves no account twice and no more accounts than the bound
/// allows, whatever the history was.
pub proof fn lemma_update_settled(history: HistoryView, account: Seq<char>, role: Seq<char>)
    ensures
        update_of(history, account, role).is_settled(),
{
    lemma_record_bounded_and_distinct(history.recent, account, history.bound);
}

/// Storing a history and loading the document again gives the history back,
/// and storing that gives the same document.
pub proof fn lemma_round_trip(history: HistoryView)
    requires
        history.is_settled(),
    ensures
        load_of(persist_of(history), history.bound) == history,
        persist_of(load_of(persist_of(history), history.bound)) == persist_of(history),
{
    lemma_settle_of_settled(history.recent, history.bound);
}

/// Loading a document and storing the history again gives the document back,
/// where the document has no single account of the older format, lists no
/// account twice and no more accounts than the bound allows.
pub proof fn lemma_document_round_trip(config: ConfigView, bound: nat)
    requires
        config.account is None,
        config.last_accounts.no_duplicates(),
        config.last_accounts.len() <= bound,
    ensures
        persist_of(load_of(config, bound)) == config,
{
    lemma_settle_of_settled(config.last_accounts, bound);
}

/// A document that has only the single account of the older format is loaded
/// as a history whose only recent account is that one, where the history
/// keeps any account at all.
pub proof fn lemma_migration(config: ConfigView, bound: nat)
    requires
        config.account is Some,
        config.last_accounts.len() == 0,
        bound > 0,
    ensures
        load_of(config, bound).recent == seq![config.account->0],
{
    let only = seq![config.account->0];
    assert(listed_in(config) =~= only);
    lemma_settle_of_settled(only, bound);
}

/// The position of the first string of `names` that reads `name`.
fn position(names: &Vec<String>, name: &String) -> (found: Option<usize>)
    ensures
        match found {
            Some(i) => {
                &&& i < names@.len()
                &&& names_of(names@)[i as int] == name@
                &&& forall|j: int| 0 <= j < i ==> names_of(names@)[j] != name@
            },
            None => !names_of(names@).contains(name@),
        },
{
    let mut i: usize = 0;
    while i < names.len()
        invariant
            i <= names@.len(),
            forall|j: int| 0 <= j < i ==> names_of(names@)[j] != name@,
        decreases names.len() - i,
    {
        if names[i] == *name {
            return Some(i);
        }
        i += 1;
    }
    None
}

/// The position of the first pair of `pairs` whose key reads `key`.
fn key_position(pairs: &Vec<(String, String)>, key: &String) -> (found: Option<usize>)
    ensures
        match found {
            Some(i) => i < pairs@.len() && pairs_of(pairs@)[i as int].0 == key@,
            None => forall|j: int|
                0 <= j < pairs@.len() ==> (#[trigger] pairs_of(pairs@)[j]).0 != key@,
        },
{
    let mut i: usize = 0;
    while i < pairs.len()
        invariant
            i <= pairs@.len(),
            forall|j: int| 0 <= j < i ==> (#[trigger] pairs_of(pairs@)[j]).0 != key@,
        decreases pairs.len() - i,
    {
        if pairs[i].0 == *key {
            return Some(i);
        }
        i += 1;
    }
    None
}

/// Gives `key` the value `value` in a list of pairs with distinct keys.
fn upsert(pairs: &mut Vec<(String, String)>, key: String, value: String)
    requires
        distinct_keys(pairs_of(old(pairs)@)),
    ensures
        distinct_keys(pairs_of(final(pairs)@)),
        map_of(pairs_of(final(pairs)@)) == map_of(pairs_of(old(pairs)@)).insert(key@, value@),
{
    let ghost before = pairs_of(pairs@);
    match key_position(pairs, &key) {
        Some(i) => {
            pairs.set(i, (key, value));
            proof {
                lemma_map_of_update(before, i as int, value@);
                assert(pairs_of(pairs@) =~= before.update(i as int, (before[i as int].0, value@)));
            }
        },
        None => {
            pairs.push((key, value));
            proof {
                let after = pairs_of(pairs@);
                assert(after.drop_last() =~= before);
                assert forall|a: int, b: int| 0 <= a < b < after.len() implies (
                #[trigger] after[a]).0 != (#[trigger] after[b]).0 by {
                    if b < before.len() {
                        assert(after[a] == before[a] && after[b] == before[b]);
                    } else {
                        assert(after[a] == before[a]);
                    }
                }
            }
        },
    }
}

/// The first `max` of `names`, later occurrences left out.
fn settled(names: Vec<String>, max: usize) -> (kept: Vec<String>)
    ensures
        names_of(kept@) == settle(names_of(names@), max as nat),
{
    let ghost given = names_of(names@);
    let mut kept: Vec<String> = Vec::new();
    let mut i: usize = 0;
    assert(given.take(0) =~= Seq::<Seq<char>>::empty());
    while i < names.len()
        invariant
            i <= names@.len(),
            given == names_of(names@),
            names_of(kept@) == keep_first(given.take(i as int)),
        decreases names.len() - i,
    {
        let ghost before = names_of(kept@);
        proof {
            let next = given.take(i + 1);
            assert(next.drop_last() =~= given.take(i as int));
            assert(next.last() == given[i as int]);
        }
        if position(&kept, &names[i]).is_none() {
            kept.push(names[i].clone());
            assert(names_of(kept@) =~= before.push(given[i as int]));
        }
        i += 1;
    }
    assert(given.take(given.len() as int) =~= given);
    let ghost all = names_of(kept@);
    kept.truncate(max);
    proof {
        if max < all.len() {
            assert(names_of(kept@) =~= all.take(max as int));
        }
    }
    kept
}

impl History {
    /// No account is listed twice or beyond the bound, and none has more than
    /// one role.
    #[verifier::type_invariant]
    spec fn well_formed(self) -> bool {
        &&& names_of(self.last_accounts@).no_duplicates()
        &&& self.last_accounts@.len() <= self.max_last_accounts
        &&& distinct_keys(pairs_of(self.roles@))
    }

    /// The history that the stored document `config` stands for, which keeps
    /// at most `max_last_accounts` accounts.
    pub fn new(config: HistoryConfig, max_last_accounts: usize) -> (history: History)
        ensures
            history@ == load_of(config@, max_last_accounts as nat),
            history@.is_settled(),
    {
        let HistoryConfig { account, last_accounts, roles: stored } = config;
        let mut listed = last_accounts;
        let ghost stored_names = names_of(listed@);
        match account {
            Some(name) => {
                listed.push(name);
                assert(names_of(listed@) =~= stored_names.push(name@));
            },
            None => {},
        }
        proof {
            lemma_settle(names_of(listed@), max_last_accounts as nat);
        }
        let last_accounts = settled(listed, max_last_accounts);
        let mut roles: Vec<(String, String)> = Vec::new();
        let mut i: usize = 0;
        assert(pairs_of(stored@).take(0) =~= Seq::empty());
        while i < stored.len()
            invariant
                i <= stored@.len(),
                distinct_keys(pairs_of(roles@)),
                map_of(pairs_of(roles@)) == map_of(pairs_of(stored@).take(i as int)),
            decreases stored.len() - i,
        {
            let key = stored[i].0.clone();
            let value = stored[i].1.clone();
            proof {
                let next = pairs_of(stored@).take(i + 1);
                assert(next.drop_last() =~= pairs_of(stored@).take(i as int));
                assert(next.last() == (key@, value@));
            }
            upsert(&mut roles, key, value);
            i += 1;
        }
        assert(pairs_of(stored@).take(stored@.len() as int) =~= pairs_of(stored@));
        History { last_accounts, roles, max_last_accounts }
    }

    /// The position of `account` among the recent accounts, counted from the
    /// most recent one.
    pub fn account_index(&self, account: &str) -> (rank: Option<usize>)
        ensures
            match rank {
                Some(i) => {
                    &&& i < self@.recent.len()
                    &&& self@.recent[i as int] == account@
                    &&& forall|j: int| 0 <= j < i ==> self@.recent[j] != account@
                },
                None => !self@.recent.contains(account@),
            },
    {
        let name = account.to_owned();
        position(&self.last_accounts, &name)
    }

    /// The most recently used account.
    pub fn default_account(&self) -> (account: Option<String>)
        ensures
            match account {
                Some(name) => self@.recent.len() > 0 && name@ == self@.recent[0],
                None => self@.recent.len() == 0,
            },
    {
        if self.last_accounts.len() > 0 {
            Some(self.last_accounts[0].clone())
        } else {
            None
        }
    }

    /// The role last chosen for `account`.
    pub fn default_role(&self, account: &str) -> (role: Option<String>)
        ensures
            match role {
                Some(name) => self@.roles.dom().contains(account@) && name@ == self@.roles[account@],
                None => !self@.roles.dom().contains(account@),
            },
    {
        proof {
            use_type_invariant(self);
            lemma_map_of_keys(pairs_of(self.roles@), account@);
        }
        let key = account.to_owned();
        match key_position(&self.roles, &key) {
            Some(i) => {
                proof {
                    lemma_map_of_value(pairs_of(self.roles@), i as int);
                }
                Some(self.roles[i].1.clone())
            },
            None => None,
        }
    }

    /// Records that `account` was used: it becomes the most recent account,
    /// its earlier entry goes, and the accounts beyond the bound are dropped.
    pub fn record_account_use(&mut self, account: &str)
        ensures
            final(self)@ == (HistoryView {
                recent: record_of(old(self)@.recent, account@, old(self)@.bound),
                ..old(self)@
            }),
            final(self)@.is_settled(),
    {
        let ghost recent = names_of(self.last_accounts@);
        proof {
            use_type_invariant(&*self);
            lemma_settle(seq![account@] + recent, self.max_last_accounts as nat);
        }
        let mut given: Vec<String> = Vec::new();
        given.push(account.to_owned());
        let mut i: usize = 0;
        assert(names_of(given@) =~= seq![account@] + recent.take(0));
        while i < self.last_accounts.len()
            invariant
                i <= self.last_accounts@.len(),
                recent == names_of(self.last_accounts@),
                given@.len() == i + 1,
                names_of(given@) == seq![account@] + recent.take(i as int),
            decreases self.last_accounts.len() - i,
        {
            let ghost before = names_of(given@);
            given.push(self.last_accounts[i].clone());
            assert(names_of(given@) =~= before.push(recent[i as int]));
            assert(before.push(recent[i as int]) =~= seq![account@] + recent.take(i + 1));
            i += 1;
        }
        assert(recent.take(recent.len() as int) =~= recent);
        self.last_accounts = settled(given, self.max_last_accounts);
    }

    /// Records that `role` was chosen for `account`.
    pub fn record_role_use(&mut self, account: &str, role: &str)
        ensures
            final(self)@ == (HistoryView {
                roles: old(self)@.roles.insert(account@, role@),
                ..old(self)@
            }),
            final(self)@.is_settled(),
    {
        proof {
            use_type_invariant(&*self);
        }
        let mut roles: Vec<(String, String)> = Vec::new();
        std::mem::swap(&mut self.roles, &mut roles);
        upsert(&mut roles, account.to_owned(), role.to_owned());
        self.roles = roles;
    }

    /// The document in which this history is stored.
    pub fn to_config(&self) -> (config: HistoryConfig)
        ensures
            config@ == persist_of(self@),
            self@.is_settled(),
    {
        proof {
            use_type_invariant(self);
        }
        let mut roles: Vec<(String, String)> = Vec::new();
        let mut i: usize = 0;
        while i < self.roles.len()
            invariant
                i <= self.roles@.len(),
                roles@.len() == i,
                pairs_of(roles@) == pairs_of(self.roles@).take(i as int),
            decreases self.roles.len() - i,
        {
            let ghost before = pairs_of(roles@);
            let key = self.roles[i].0.clone();
            let value = self.roles[i].1.clone();
            roles.push((key, value));
            assert(pairs_of(roles@) =~= before.push((key@, value@)));
            i += 1;
        }
        assert(pairs_of(self.roles@).take(self.roles@.len() as int) =~= pairs_of(self.roles@));
        let last_accounts = self.last_accounts.clone();
        assert(names_of(last_accounts@) =~= names_of(self.last_accounts@));
        HistoryConfig { account: None, last_accounts, roles }
    }

    /// Records that `role` was chosen for `account`, and returns the document
    /// to store: the whole history as it then stands.
    pub fn update(&mut self, account: &str, role: &str) -> (config: HistoryConfig)
        ensures
            final(self)@ == update_of(old(self)@, account@, role@),
            final(self)@.is_settled(),
            config@ == persist_of(final(self)@),
    {
        self.record_account_use(account);
        self.record_role_use(account, role);
        self.to_config()
    }
}

} // verus!
