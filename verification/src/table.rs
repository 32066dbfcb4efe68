//! A table from names to values that keeps the order in which names were
//! added.

use crate::data::Duplicate;
use indexmap::IndexMap;
use vstd::prelude::*;
use vstd::string::*;

verus! {

/// `indexmap::IndexMap`, a hash map that keeps insertion order.
#[verifier::external_type_specification]
#[verifier::external_body]
#[verifier::reject_recursive_types(K)]
#[verifier::reject_recursive_types(V)]
#[verifier::reject_recursive_types(S)]
pub struct ExIndexMap<K, V, S>(IndexMap<K, V, S>);

/// The entries of an index map, in insertion order.
pub uninterp spec fn index_entries(m: IndexMap<String, usize>) -> Seq<(Seq<char>, usize)>;

/// Whether a key stands among the entries.
pub open spec fn has_key(entries: Seq<(Seq<char>, usize)>, key: Seq<char>) -> bool {
    exists|i: int| 0 <= i < entries.len() && (#[trigger] entries[i]).0 == key
}

/// `IndexMap::new`: an empty map.
#[verifier::external_body]
fn index_new() -> (r: IndexMap<String, usize>)
    ensures
        index_entries(r) == Seq::<(Seq<char>, usize)>::empty(),
{
    IndexMap::new()
}

/// `IndexMap::get`: the value under a key, if the key is there.
#[verifier::external_body]
fn index_get(m: &IndexMap<String, usize>, key: &str) -> (r: Option<usize>)
    ensures
        match r {
            Some(value) => exists|i: int|
                0 <= i < index_entries(*m).len() && #[trigger] index_entries(*m)[i] == (key@, value),
            None => !has_key(index_entries(*m), key@),
        },
{
    m.get(key).copied()
}

/// `IndexMap::insert`: a key that is not there yet is added at the end with
/// its value; what was there stays as it was.
#[verifier::external_body]
fn index_insert(m: &mut IndexMap<String, usize>, key: String, value: usize)
    requires
        !has_key(index_entries(*old(m)), key@),
    ensures
        index_entries(*final(m)) == index_entries(*old(m)).push((key@, value)),
{
    m.insert(key, value);
}

/// `IndexMap::get_index`: the key at a position in insertion order.
#[verifier::external_body]
fn index_key(m: &IndexMap<String, usize>, i: usize) -> (r: &str)
    requires
        i < index_entries(*m).len(),
    ensures
        r@ == index_entries(*m)[i as int].0,
{
    m.get_index(i).map(|(key, _)| key.as_str()).unwrap_or("")
}

/// A table from names to values; each name stands in it once.
#[derive(Debug)]
pub struct Table<V> {
    index: IndexMap<String, usize>,
    values: Vec<V>,
}

/// A table as mathematical values.
pub struct TableView<V> {
    pub keys: Seq<Seq<char>>,
    pub items: Seq<V>,
}

impl<V> TableView<V> {
    /// Each name stands in the table once and has a value.
    pub open spec fn wf(self) -> bool {
        self.keys.len() == self.items.len() && self.keys.no_duplicates()
    }

    /// Whether a name is in the table.
    pub open spec fn has(self, key: Seq<char>) -> bool {
        self.keys.contains(key)
    }

    /// The value of a name.
    pub open spec fn at(self, key: Seq<char>) -> V {
        self.items[self.keys.index_of(key)]
    }

    /// The table with one more name at the end.
    pub open spec fn with(self, key: Seq<char>, value: V) -> TableView<V> {
        TableView { keys: self.keys.push(key), items: self.items.push(value) }
    }

    /// The table with a value for a name, in its place or at the end.
    pub open spec fn put(self, key: Seq<char>, value: V) -> TableView<V> {
        if self.has(key) {
            TableView { items: self.items.update(self.keys.index_of(key), value), ..self }
        } else {
            self.with(key, value)
        }
    }

    /// The table without any names.
    pub open spec fn empty() -> TableView<V> {
        TableView { keys: Seq::empty(), items: Seq::empty() }
    }

    /// Whether this table starts with all entries of another.
    pub open spec fn extends(self, before: TableView<V>) -> bool {
        before.keys.is_prefix_of(self.keys) && before.items.is_prefix_of(self.items)
    }
}

/// A table that extends another keeps its values.
pub proof fn extension_keeps<V>(before: TableView<V>, after: TableView<V>, key: Seq<char>)
    requires
        before.wf(),
        after.wf(),
        after.extends(before),
        before.has(key),
    ensures
        after.has(key),
        after.at(key) == before.at(key),
{
    let i = before.keys.index_of(key);
    assert(after.keys[i] == before.keys[i]);
    assert(after.items[i] == before.items[i]);
    let j = after.keys.index_of(key);
    assert(after.keys[j] == key);
    assert(i == j);
}

impl<V: DeepView> DeepView for Table<V> {
    type V = TableView<V::V>;

    open spec fn deep_view(&self) -> TableView<V::V> {
        TableView { keys: self.keys(), items: Seq::new(self.items().len(), |i: int| self.items()[i].deep_view()) }
    }
}

impl<V> Table<V> {
    /// The index holds each name once, with its position.
    #[verifier::type_invariant]
    pub closed spec fn wf(&self) -> bool {
        let entries = index_entries(self.index);
        &&& entries.len() == self.values@.len()
        &&& forall|i: int| 0 <= i < entries.len() ==> (#[trigger] entries[i]).1 == i
        &&& forall|i: int, j: int|
            #![trigger entries[i], entries[j]]
            0 <= i < j < entries.len() ==> entries[i].0 != entries[j].0
    }

    /// The names, in the order in which they were added.
    pub closed spec fn keys(&self) -> Seq<Seq<char>> {
        index_entries(self.index).map_values(|e: (Seq<char>, usize)| e.0)
    }

    /// The values, each at the position of its name.
    pub closed spec fn items(&self) -> Seq<V> {
        self.values@
    }

    /// An empty table.
    pub fn new() -> (r: Self)
        ensures
            r.keys() == Seq::<Seq<char>>::empty(),
            r.items() == Seq::<V>::empty(),
    {
        let r = Table { index: index_new(), values: Vec::new() };
        assert(r.keys() =~= Seq::<Seq<char>>::empty());
        r
    }

    /// How many names the table holds; none of them occurs twice.
    fn size(&self) -> (r: usize)
        ensures
            r == self.keys().len(),
            r == self.items().len(),
            self.keys().no_duplicates(),
    {
        proof {
            use_type_invariant(self);
        }
        self.values.len()
    }

    /// The name at a position.
    pub fn key(&self, i: usize) -> (r: &str)
        requires
            i < self.keys().len(),
        ensures
            r@ == self.keys()[i as int],
    {
        index_key(&self.index, i)
    }

    /// The value at a position.
    fn value_at(&self, i: usize) -> (r: &V)
        requires
            i < self.items().len(),
        ensures
            *r == self.items()[i as int],
    {
        &self.values[i]
    }

    /// The position of a name, if it is in the table.
    fn position(&self, key: &str) -> (r: Option<usize>)
        ensures
            match r {
                Some(i) => i < self.keys().len() && self.keys()[i as int] == key@,
                None => !self.keys().contains(key@),
            },
    {
        proof {
            use_type_invariant(self);
        }
        let r = index_get(&self.index, key);
        proof {
            let entries = index_entries(self.index);
            match r {
                Some(p) => {
                    let i = choose|i: int|
                        0 <= i < entries.len() && #[trigger] entries[i] == (key@, p);
                    assert(entries[i].1 == i);
                    assert(self.keys()[i] == entries[i].0);
                },
                None => {
                    if self.keys().contains(key@) {
                        let i = self.keys().index_of(key@);
                        assert(entries[i].0 == key@);
                        assert(has_key(entries, key@));
                    }
                },
            }
        }
        r
    }

    /// The value of a name, if it is in the table.
    fn found(&self, key: &str) -> (r: Option<&V>)
        ensures
            match r {
                Some(v) => self.keys().contains(key@) && *v == self.items()[self.keys().index_of(
                    key@,
                )],
                None => !self.keys().contains(key@),
            },
    {
        proof {
            use_type_invariant(self);
            assert(self.keys().no_duplicates());
        }
        match self.position(key) {
            Some(i) => {
                proof {
                    assert(self.keys().contains(key@));
                    assert(self.keys().index_of(key@) == i);
                }
                Some(&self.values[i])
            },
            None => None,
        }
    }

    /// Adds a new name at the end.
    fn append_new(&mut self, key: String, value: V)
        requires
            !old(self).keys().contains(key@),
        ensures
            final(self).keys() == old(self).keys().push(key@),
            final(self).items() == old(self).items().push(value),
    {
        proof {
            use_type_invariant(&*self);
        }
        let ghost before = index_entries(self.index);
        let ghost k = key@;
        let n: usize = self.values.len();
        proof {
            if has_key(before, k) {
                let i = choose|i: int| 0 <= i < before.len() && (#[trigger] before[i]).0 == k;
                assert(self.keys()[i] == k);
                assert(self.keys().contains(k));
            }
            assert forall|i: int| 0 <= i < before.len() implies (#[trigger] before[i]).0 != k by {
                assert(self.keys()[i] == before[i].0);
                assert(self.keys().contains(before[i].0));
            }
        }
        let ghost old_keys = self.keys();
        let mut taken = Table::new();
        core::mem::swap(self, &mut taken);
        let Table { mut index, mut values } = taken;
        index_insert(&mut index, key, n);
        values.push(value);
        *self = Table { index, values };
        assert(self.keys() =~= old_keys.push(k));
    }
}

impl<V: DeepView> Table<V> {
    /// How many names the table holds; each stands in it once.
    pub fn len(&self) -> (r: usize)
        ensures
            r == self.deep_view().keys.len(),
            self.deep_view().wf(),
    {
        self.size()
    }

    /// The value of a name, if it is in the table.
    pub fn get(&self, key: &str) -> (r: Option<&V>)
        ensures
            self.deep_view().wf(),
            match r {
                Some(v) => self.deep_view().has(key@) && v.deep_view() == self.deep_view().at(key@),
                None => !self.deep_view().has(key@),
            },
    {
        let n: usize = self.size();
        let r = self.found(key);
        proof {
            if let Some(v) = r {
                let i = self.keys().index_of(key@);
                assert(self.keys()[i] == key@);
                assert(self.deep_view().items[i] == v.deep_view());
            }
        }
        r
    }

    /// Adds a new name at the end.
    pub fn insert(&mut self, key: String, value: V)
        requires
            !old(self).deep_view().has(key@),
        ensures
            final(self).deep_view() == old(self).deep_view().with(key@, value.deep_view()),
            final(self).deep_view().wf(),
    {
        let ghost before = self.deep_view();
        let ghost k = key@;
        let ghost v = value.deep_view();
        self.append_new(key, value);
        let n: usize = self.size();
        assert(self.deep_view().items =~= before.with(k, v).items);
    }

    /// Adds a name at the end, or gives a name that is there another value.
    pub fn put(&mut self, key: String, value: V)
        ensures
            final(self).deep_view() == old(self).deep_view().put(key@, value.deep_view()),
            final(self).deep_view().wf(),
    {
        let ghost before = self.deep_view();
        let ghost k = key@;
        let ghost v = value.deep_view();
        match self.position(key.as_str()) {
            Some(i) => {
                proof {
                    use_type_invariant(&*self);
                    let entries = index_entries(self.index);
                    assert(self.keys()[i as int] == k);
                    assert(self.keys().contains(k));
                    let j = self.keys().index_of(k);
                    assert(entries[j].0 == entries[i as int].0);
                    assert(i == j);
                }
                let mut taken = Table::new();
                core::mem::swap(self, &mut taken);
                let Table { index, mut values } = taken;
                values.set(i, value);
                *self = Table { index, values };
                let n: usize = self.size();
                assert(self.deep_view().items =~= before.items.update(i as int, v));
            },
            None => {
                self.insert(key, value);
            },
        }
    }

    /// The value at a position.
    pub fn value(&self, i: usize) -> (r: &V)
        requires
            i < self.deep_view().keys.len(),
        ensures
            r.deep_view() == self.deep_view().items[i as int],
            self.deep_view().wf(),
    {
        let n: usize = self.size();
        self.value_at(i)
    }
}

impl<V: Duplicate> Duplicate for Table<V> {
    fn duplicate(&self) -> (r: Self) {
        let mut out: Table<V> = Table::new();
        let n: usize = self.len();
        let ghost v = self.deep_view();
        let mut i: usize = 0;
        assert(out.deep_view().items =~= v.items.take(0));
        assert(out.deep_view().keys =~= v.keys.take(0));
        while i < n
            invariant
                i <= n,
                v == self.deep_view(),
                v.wf(),
                n == v.keys.len(),
                out.deep_view().keys == v.keys.take(i as int),
                out.deep_view().items == v.items.take(i as int),
            decreases n - i,
        {
            let key = self.key(i);
            let value = self.value(i).duplicate();
            proof {
                if out.deep_view().has(key@) {
                    let k = v.keys.take(i as int).index_of(key@);
                    assert(v.keys[k] == key@);
                }
            }
            out.insert(key.to_owned(), value);
            i += 1;
            assert(out.deep_view().keys =~= v.keys.take(i as int));
            assert(out.deep_view().items =~= v.items.take(i as int));
        }
        assert(v.keys.take(i as int) =~= v.keys);
        assert(v.items.take(i as int) =~= v.items);
        out
    }
}

/// A table in which a name was given a value has that value under it, and
/// every other name as before; a name that was not there stands at the end,
/// and one that was stays in its place.
pub proof fn put_is_found<V>(t: TableView<V>, key: Seq<char>, value: V, other: Seq<char>)
    requires
        t.keys.len() == t.items.len(),
        t.keys.no_duplicates(),
    ensures
        ({
            let after = t.put(key, value);
            &&& after.keys.len() == after.items.len()
            &&& after.keys.no_duplicates()
            &&& t.keys.contains(key) ==> after.keys == t.keys
            &&& !t.keys.contains(key) ==> after.keys == t.keys.push(key)
            &&& after.keys.contains(key)
            &&& after.at(key) == value
            &&& other != key ==> after.keys.contains(other) == t.keys.contains(other)
            &&& other != key && t.keys.contains(other) ==> after.at(other) == t.at(other)
        }),
{
    let after = t.put(key, value);
    if t.has(key) {
        let k = t.keys.index_of(key);
        if t.has(other) && other != key {
            let j = t.keys.index_of(other);
            assert(t.keys[j] == other && j != k);
        }
    } else {
        let n = t.keys.len() as int;
        assert(after.keys[n] == key);
        assert forall|i: int, j: int|
            0 <= i < after.keys.len() && 0 <= j < after.keys.len() && i != j implies after.keys[i]
            != after.keys[j] by {
            if i == n {
                assert(t.keys.contains(t.keys[j]));
            } else if j == n {
                assert(t.keys.contains(t.keys[i]));
            }
        }
        assert(after.keys.index_of(key) == n);
        if t.has(other) {
            let j = t.keys.index_of(other);
            assert(after.keys[j] == other);
            assert(after.keys.index_of(other) == j);
        }
        if after.has(other) && other != key {
            let m = after.keys.index_of(other);
            assert(t.keys[m] == other);
        }
    }
}

/// The value of a name stands at the position of the name.
pub proof fn values_stand_by_their_names<V>(t: TableView<V>, i: int)
    requires
        t.keys.no_duplicates(),
        0 <= i < t.keys.len(),
    ensures
        t.has(t.keys[i]),
        t.at(t.keys[i]) == t.items[i],
{
    assert(t.keys.contains(t.keys[i]));
    let j = t.keys.index_of(t.keys[i]);
    assert(t.keys[j] == t.keys[i]);
}

} // verus!
