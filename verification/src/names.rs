//! Sets and ordered maps keyed by names.
use vstd::prelude::*;

use crate::text;

verus! {

/// The views of `items`, in order.
pub open spec fn views<T: View>(items: Seq<T>) -> Seq<T::V> {
    items.map_values(|item: T| item@)
}

/// Pushing an item pushes its view.
pub broadcast proof fn views_of_push<T: View>(items: Seq<T>, item: T)
    ensures
        #[trigger] views(items.push(item)) == views(items).push(item@),
{
    assert(views(items.push(item)) =~= views(items).push(item@));
}

/// The views of no items.
pub broadcast proof fn views_of_none<T: View>(items: Seq<T>)
    requires
        items.len() == 0,
    ensures
        #[trigger] views(items) == Seq::<T::V>::empty(),
{
    assert(views(items) =~= Seq::<T::V>::empty());
}

/// A set of names.
#[derive(Debug)]
pub struct NameSet {
    pub names: Vec<String>,
}

impl View for NameSet {
    type V = Set<Seq<char>>;

    open spec fn view(&self) -> Set<Seq<char>> {
        Set::new(|name: Seq<char>| views(self.names@).contains(name))
    }
}

impl NameSet {
    /// The set without names.
    pub fn new() -> (set: Self)
        ensures
            set@ == Set::<Seq<char>>::empty(),
    {
        let set = NameSet { names: Vec::new() };
        assert(set@ =~= Set::<Seq<char>>::empty());
        set
    }

    /// Whether `name` is in the set.
    pub fn contains(&self, name: &str) -> (result: bool)
        ensures
            result == self@.contains(name@),
    {
        let mut i: usize = 0;
        while i < self.names.len()
            invariant
                i <= self.names.len(),
                forall|j: int| 0 <= j < i ==> #[trigger] self.names@[j]@ != name@,
            decreases self.names.len() - i,
        {
            if text::same_text(self.names[i].as_str(), name) {
                assert(views(self.names@)[i as int] == name@);
                return true;
            }
            i = i + 1;
        }
        assert forall|j: int| 0 <= j < views(self.names@).len() implies views(self.names@)[j]
            != name@ by {
            assert(self.names@[j]@ != name@);
        }
        false
    }

    /// Adds `name` to the set.
    pub fn insert(&mut self, name: &str)
        ensures
            final(self)@ == old(self)@.insert(name@),
    {
        if !self.contains(name) {
            self.names.push(name.to_owned());
            proof {
                broadcast use views_of_push;

                let earlier = views(old(self).names@);
                let later = views(self.names@);
                assert(later == earlier.push(name@));
                assert forall|other: Seq<char>|
                    later.contains(other) == (earlier.contains(other) || other == name@) by {
                    if earlier.contains(other) {
                        let j = choose|j: int| 0 <= j < earlier.len() && earlier[j] == other;
                        assert(later[j] == other);
                    }
                    if other == name@ {
                        assert(later[earlier.len() as int] == other);
                    }
                }
                assert(self@ =~= old(self)@.insert(name@));
            }
        } else {
            assert(self@ =~= old(self)@.insert(name@));
        }
    }
}

/// One name of a map, and what it stands for.
#[derive(Debug)]
pub struct NameEntry<T> {
    pub key: String,
    pub value: T,
}

impl<T: View> View for NameEntry<T> {
    type V = (Seq<char>, T::V);

    open spec fn view(&self) -> (Seq<char>, T::V) {
        (self.key@, self.value@)
    }
}

/// A map from names, kept in the order of its names.
#[derive(Debug)]
pub struct NameMap<T> {
    pub entries: Vec<NameEntry<T>>,
}

impl<T: View> View for NameMap<T> {
    type V = Seq<(Seq<char>, T::V)>;

    open spec fn view(&self) -> Seq<(Seq<char>, T::V)> {
        views(self.entries@)
    }
}

/// What `key` stands for among `entries`.
pub open spec fn lookup<T>(entries: Seq<(Seq<char>, T)>, key: Seq<char>) -> Option<T>
    decreases entries.len(),
{
    if entries.len() == 0 {
        None
    } else if entries[0].0 == key {
        Some(entries[0].1)
    } else {
        lookup(entries.drop_first(), key)
    }
}

/// Whether `key` stands for something among `entries`.
pub open spec fn has<T>(entries: Seq<(Seq<char>, T)>, key: Seq<char>) -> bool {
    lookup(entries, key) is Some
}

/// `entries` with `key` standing for `value`, in its place in the order of the names.
pub open spec fn put<T>(entries: Seq<(Seq<char>, T)>, key: Seq<char>, value: T) -> Seq<
    (Seq<char>, T),
>
    decreases entries.len(),
{
    if entries.len() == 0 {
        seq![(key, value)]
    } else if entries[0].0 == key {
        seq![(key, value)] + entries.drop_first()
    } else if text::before(key, entries[0].0) {
        seq![(key, value)] + entries
    } else {
        seq![entries[0]] + put(entries.drop_first(), key, value)
    }
}

/// Whether the names of `entries` come in strictly ascending order.
pub open spec fn sorted<T>(entries: Seq<(Seq<char>, T)>) -> bool {
    forall|i: int, j: int|
        0 <= i < j < entries.len() ==> text::before(#[trigger] entries[i].0, #[trigger] entries[j].0)
}

/// What was put under a name is found under it, and nothing else changes.
pub proof fn lookup_after_put<T>(
    entries: Seq<(Seq<char>, T)>,
    key: Seq<char>,
    value: T,
    other: Seq<char>,
)
    ensures
        lookup(put(entries, key, value), key) == Some(value),
        other != key ==> lookup(put(entries, key, value), other) == lookup(entries, other),
    decreases entries.len(),
{
    let changed = put(entries, key, value);
    if entries.len() == 0 {
        assert(changed.drop_first() =~= entries);
    } else if entries[0].0 == key {
        assert(changed.drop_first() =~= entries.drop_first());
    } else if text::before(key, entries[0].0) {
        assert(changed.drop_first() =~= entries);
    } else {
        lookup_after_put(entries.drop_first(), key, value, other);
        assert(changed.drop_first() =~= put(entries.drop_first(), key, value));
    }
}

/// Putting a name keeps the names in strictly ascending order.
pub proof fn put_keeps_order<T>(entries: Seq<(Seq<char>, T)>, key: Seq<char>, value: T)
    requires
        sorted(entries),
    ensures
        sorted(put(entries, key, value)),
        forall|i: int|
            0 <= i < put(entries, key, value).len() ==> (#[trigger] put(entries, key, value)[i]).0
                == key || exists|j: int|
                0 <= j < entries.len() && entries[j].0 == put(entries, key, value)[i].0,
    decreases entries.len(),
{
    let changed = put(entries, key, value);
    if entries.len() == 0 {
    } else if entries[0].0 == key {
        assert forall|i: int| 0 <= i < changed.len() implies (#[trigger] changed[i]).0 == key
            || exists|j: int| 0 <= j < entries.len() && entries[j].0 == changed[i].0 by {
            assert(changed[i].0 == entries[i].0);
        }
        assert forall|i: int, j: int| 0 <= i < j < changed.len() implies text::before(
            #[trigger] changed[i].0,
            #[trigger] changed[j].0,
        ) by {
            assert(text::before(entries[i].0, entries[j].0));
        }
    } else if text::before(key, entries[0].0) {
        assert forall|i: int| 0 <= i < changed.len() implies (#[trigger] changed[i]).0 == key
            || exists|j: int| 0 <= j < entries.len() && entries[j].0 == changed[i].0 by {
            if i > 0 {
                assert(changed[i].0 == entries[i - 1].0);
            }
        }
        assert forall|i: int, j: int| 0 <= i < j < changed.len() implies text::before(
            #[trigger] changed[i].0,
            #[trigger] changed[j].0,
        ) by {
            if i > 0 {
                assert(text::before(entries[i - 1].0, entries[j - 1].0));
            } else if j > 1 {
                assert(text::before(entries[0].0, entries[j - 1].0));
                text::before_is_transitive(key, entries[0].0, entries[j - 1].0);
            }
        }
    } else {
        let rest = entries.drop_first();
        assert forall|i: int, j: int| 0 <= i < j < rest.len() implies text::before(
            #[trigger] rest[i].0,
            #[trigger] rest[j].0,
        ) by {
            assert(text::before(entries[i + 1].0, entries[j + 1].0));
        }
        put_keeps_order(rest, key, value);
        let tail = put(rest, key, value);
        text::before_is_total(entries[0].0, key);
        assert forall|i: int| 0 <= i < tail.len() implies text::before(
            entries[0].0,
            (#[trigger] tail[i]).0,
        ) && (tail[i].0 == key || exists|j: int|
            0 <= j < entries.len() && entries[j].0 == tail[i].0) by {
            if tail[i].0 != key {
                let j = choose|j: int| 0 <= j < rest.len() && rest[j].0 == tail[i].0;
                assert(entries[j + 1].0 == tail[i].0);
                assert(text::before(entries[0].0, entries[j + 1].0));
            }
        }
        assert forall|i: int| 0 <= i < changed.len() implies (#[trigger] changed[i]).0 == key
            || exists|j: int| 0 <= j < entries.len() && entries[j].0 == changed[i].0 by {
            if i > 0 {
                assert(changed[i] == tail[i - 1]);
            } else {
                assert(changed[i].0 == entries[0].0);
            }
        }
        assert forall|i: int, j: int| 0 <= i < j < changed.len() implies text::before(
            #[trigger] changed[i].0,
            #[trigger] changed[j].0,
        ) by {
            assert(changed[j] == tail[j - 1]);
            if i > 0 {
                assert(changed[i] == tail[i - 1]);
            }
        }
    }
}

/// What holds of all entries and of a new one holds of all of them after the new one is put.
pub proof fn put_keeps_all<T>(
    entries: Seq<(Seq<char>, T)>,
    key: Seq<char>,
    value: T,
    holds: spec_fn((Seq<char>, T)) -> bool,
)
    requires
        forall|i: int| 0 <= i < entries.len() ==> holds(#[trigger] entries[i]),
        holds((key, value)),
    ensures
        forall|i: int|
            0 <= i < put(entries, key, value).len() ==> holds(
                #[trigger] put(entries, key, value)[i],
            ),
    decreases entries.len(),
{
    let changed = put(entries, key, value);
    if entries.len() == 0 {
    } else if entries[0].0 == key {
        assert forall|i: int| 0 <= i < changed.len() implies holds(#[trigger] changed[i]) by {
            if i > 0 {
                assert(changed[i] == entries[i]);
            }
        }
    } else if text::before(key, entries[0].0) {
        assert forall|i: int| 0 <= i < changed.len() implies holds(#[trigger] changed[i]) by {
            if i > 0 {
                assert(changed[i] == entries[i - 1]);
            }
        }
    } else {
        let rest = entries.drop_first();
        assert forall|i: int| 0 <= i < rest.len() implies holds(#[trigger] rest[i]) by {
            assert(rest[i] == entries[i + 1]);
        }
        put_keeps_all(rest, key, value, holds);
        assert forall|i: int| 0 <= i < changed.len() implies holds(#[trigger] changed[i]) by {
            if i > 0 {
                assert(changed[i] == put(rest, key, value)[i - 1]);
            } else {
                assert(changed[i] == entries[0]);
            }
        }
    }
}

/// A name that differs from the first `count` names is looked up behind them.
pub proof fn lookup_skips<T>(entries: Seq<(Seq<char>, T)>, key: Seq<char>, count: int)
    requires
        0 <= count <= entries.len(),
        forall|j: int| 0 <= j < count ==> (#[trigger] entries[j]).0 != key,
    ensures
        lookup(entries, key) == lookup(entries.skip(count), key),
    decreases count,
{
    if count == 0 {
        assert(entries.skip(0) =~= entries);
    } else {
        let rest = entries.drop_first();
        assert forall|j: int| 0 <= j < count - 1 implies (#[trigger] rest[j]).0 != key by {
            assert(rest[j] == entries[j + 1]);
        }
        lookup_skips(rest, key, count - 1);
        assert(rest.skip(count - 1) =~= entries.skip(count));
        assert(entries[0].0 != key);
    }
}

/// What is looked up stands among the entries under its name.
pub proof fn lookup_finds_an_entry<T>(entries: Seq<(Seq<char>, T)>, key: Seq<char>) -> (index: int)
    requires
        has(entries, key),
    ensures
        0 <= index < entries.len(),
        entries[index].0 == key,
        lookup(entries, key) == Some(entries[index].1),
    decreases entries.len(),
{
    if entries[0].0 == key {
        0
    } else {
        lookup_finds_an_entry(entries.drop_first(), key) + 1
    }
}

/// A name that comes behind the first `count` names is put behind them.
proof fn put_skips<T>(entries: Seq<(Seq<char>, T)>, key: Seq<char>, value: T, count: int)
    requires
        0 <= count <= entries.len(),
        forall|j: int|
            0 <= j < count ==> text::before((#[trigger] entries[j]).0, key),
    ensures
        put(entries, key, value) == entries.take(count) + put(entries.skip(count), key, value),
    decreases count,
{
    if count == 0 {
        assert(entries.skip(0) =~= entries);
        assert(entries.take(0) + put(entries, key, value) =~= put(entries, key, value));
    } else {
        let rest = entries.drop_first();
        assert forall|j: int| 0 <= j < count - 1 implies text::before(
            (#[trigger] rest[j]).0,
            key,
        ) by {
            assert(rest[j] == entries[j + 1]);
        }
        put_skips(rest, key, value, count - 1);
        assert(rest.skip(count - 1) =~= entries.skip(count));
        assert(text::before(entries[0].0, key));
        text::before_is_irreflexive(key);
        if text::before(key, entries[0].0) {
            text::before_is_transitive(key, entries[0].0, key);
        }
        assert(seq![entries[0]] + rest.take(count - 1) =~= entries.take(count));
        let tail = put(entries.skip(count), key, value);
        assert(seq![entries[0]] + (rest.take(count - 1) + tail) =~= entries.take(count) + tail);
    }
}

impl<T: View> NameMap<T> {
    /// The map without names.
    pub fn new() -> (map: Self)
        ensures
            map@ == Seq::<(Seq<char>, T::V)>::empty(),
    {
        broadcast use views_of_none;

        NameMap { entries: Vec::new() }
    }

    /// Where `key` stands.
    pub fn find(&self, key: &str) -> (found: Option<usize>)
        ensures
            match found {
                Some(i) => {
                    &&& i < self.entries@.len()
                    &&& self.entries@[i as int].key@ == key@
                    &&& lookup(self@, key@) == Some(self.entries@[i as int].value@)
                },
                None => lookup(self@, key@) is None,
            },
    {
        let mut i: usize = 0;
        while i < self.entries.len()
            invariant
                i <= self.entries.len(),
                forall|j: int| 0 <= j < i ==> (#[trigger] self@[j]).0 != key@,
            decreases self.entries.len() - i,
        {
            if text::same_text(self.entries[i].key.as_str(), key) {
                proof {
                    lookup_skips(self@, key@, i as int);
                    assert(self@.skip(i as int)[0] == self@[i as int]);
                }
                return Some(i);
            }
            assert(self@[i as int].0 != key@);
            i = i + 1;
        }
        proof {
            lookup_skips(self@, key@, i as int);
            assert(self@.skip(i as int).len() == 0);
        }
        None
    }

    /// What `key` stands for.
    pub fn get(&self, key: &str) -> (found: Option<&T>)
        ensures
            match found {
                Some(value) => lookup(self@, key@) == Some(value@),
                None => lookup(self@, key@) is None,
            },
    {
        match self.find(key) {
            Some(i) => Some(&self.entries[i].value),
            None => None,
        }
    }

    /// Whether `key` stands for something.
    pub fn contains_key(&self, key: &str) -> (result: bool)
        ensures
            result == has(self@, key@),
    {
        match self.find(key) {
            Some(_) => true,
            None => false,
        }
    }

    /// Lets `key` stand for `value`.
    pub fn insert(&mut self, key: &str, value: T)
        ensures
            final(self)@ == put(old(self)@, key@, value@),
    {
        let mut i: usize = 0;
        while i < self.entries.len() && text::comes_before(self.entries[i].key.as_str(), key)
            invariant
                i <= self.entries.len(),
                self.entries@ == old(self).entries@,
                forall|j: int| 0 <= j < i ==> text::before((#[trigger] self@[j]).0, key@),
            decreases self.entries.len() - i,
        {
            assert(self@[i as int].0 == self.entries@[i as int].key@);
            i = i + 1;
        }
        let entry = NameEntry { key: key.to_owned(), value };
        let ghost earlier = self@;
        proof {
            put_skips(earlier, key@, entry.value@, i as int);
            if i < self.entries.len() {
                assert(earlier.skip(i as int)[0] == earlier[i as int]);
                text::before_is_total(earlier[i as int].0, key@);
            }
        }
        if i < self.entries.len() && text::same_text(self.entries[i].key.as_str(), key) {
            self.entries.set(i, entry);
            proof {
                assert(earlier.skip(i as int).drop_first() =~= earlier.skip(i + 1));
                assert(self@ =~= earlier.take(i as int) + (seq![entry@] + earlier.skip(i + 1)));
            }
        } else {
            self.entries.insert(i, entry);
            proof {
                assert(self@ =~= earlier.take(i as int) + (seq![entry@] + earlier.skip(i as int)));
                if i == earlier.len() {
                    assert(self@ =~= earlier.take(i as int) + seq![entry@]);
                }
            }
        }
    }
}

} // verus!
