//! Reads a fetched table of names and keeps the entries that say something:
//! those whose normalized names differ.

use crate::conda_map::error::{FetchError, FetchErrorView};
use crate::conda_map::http::GetResponse;
use crate::conda_map::load::mapped_name;
use crate::names::{is_name, name_outcome, normalized_is_name, package_name};
use crate::pep440::outcome;
use crate::table::{Table, TableView};
use crate::text::same;
use std::collections::BTreeMap;
use vstd::prelude::*;
use vstd::string::*;

verus! {

/// A freshly fetched mapping, and what to ask for newer ones by.
#[derive(Debug)]
pub struct FetchedMapping {
    pub mapping: Table<String>,
    pub etag: Option<String>,
    pub last_modified: Option<String>,
}

/// A fetched mapping as mathematical values.
pub struct FetchedView {
    pub mapping: TableView<Seq<char>>,
    pub etag: Option<Seq<char>>,
    pub last_modified: Option<Seq<char>>,
}

impl DeepView for FetchedMapping {
    type V = FetchedView;

    open spec fn deep_view(&self) -> FetchedView {
        FetchedView {
            mapping: self.mapping.deep_view(),
            etag: self.etag.deep_view(),
            last_modified: self.last_modified.deep_view(),
        }
    }
}

/// The entries of the JSON object that a text spells, ordered by key, or why
/// it spells no object of strings.
pub uninterp spec fn json_strings(body: Seq<u8>) -> Result<
    Seq<(Seq<char>, Seq<char>)>,
    Seq<char>,
>;

/// `serde_json::from_slice` into a map of strings: its entries ordered by
/// key, or the rendered error.
#[verifier::external_body]
fn read_json(body: &Vec<u8>) -> (r: Result<Vec<(String, String)>, String>)
    ensures
        outcome(r) == json_strings(body@),
{
    serde_json::from_slice::<BTreeMap<String, String>>(body)
        .map(|map| map.into_iter().collect())
        .map_err(|e| e.to_string())
}

/// A mapping with one more entry: under its normalized name, where both
/// names are names and differ once normalized.
pub open spec fn with_entry(before: TableView<Seq<char>>, entry: (Seq<char>, Seq<char>)) -> TableView<
    Seq<char>,
> {
    match (name_outcome(entry.0), name_outcome(entry.1)) {
        (Ok(pypi), Ok(conda)) => if pypi != conda {
            before.put(pypi, conda)
        } else {
            before
        },
        _ => before,
    }
}

/// The mapping that the entries say; of two entries with the same
/// normalized name the later counts.
pub open spec fn filtered(entries: Seq<(Seq<char>, Seq<char>)>) -> TableView<Seq<char>>
    decreases entries.len(),
{
    if entries.len() == 0 {
        TableView::empty()
    } else {
        with_entry(filtered(entries.drop_last()), entries.last())
    }
}

/// The mapping that the entries say.
pub fn normalize_and_filter(raw: &Vec<(String, String)>) -> (r: Table<String>)
    ensures
        r.deep_view() == filtered(raw.deep_view()),
{
    let ghost all = raw.deep_view();
    let mut out: Table<String> = Table::new();
    let mut i: usize = 0;
    assert(out.deep_view().items =~= filtered(all.take(0)).items);
    while i < raw.len()
        invariant
            i <= raw.len(),
            all == raw.deep_view(),
            out.deep_view() == filtered(all.take(i as int)),
        decreases raw.len() - i,
    {
        assert(all.take(i + 1).drop_last() =~= all.take(i as int));
        assert(all.take(i + 1).last() == raw@[i as int].deep_view());
        if let Ok(pypi) = package_name(raw[i].0.as_str()) {
            if let Ok(conda) = package_name(raw[i].1.as_str()) {
                if !same(pypi.as_str(), conda.as_str()) {
                    out.put(pypi, conda);
                }
            }
        }
        i += 1;
    }
    assert(all.take(i as int) =~= all);
    out
}

/// What a GET response gives: nothing where the cached mapping is current,
/// else the mapping that its body says, or why it says none.
pub open spec fn fetch_outcome(response: GetResponse) -> Result<
    Option<FetchedView>,
    FetchErrorView,
> {
    match response {
        GetResponse::NotModified => Ok(None),
        GetResponse::Full { body, etag, last_modified } => match json_strings(body@) {
            Ok(entries) => Ok(
                Some(
                    FetchedView {
                        mapping: filtered(entries),
                        etag: etag.deep_view(),
                        last_modified: last_modified.deep_view(),
                    },
                ),
            ),
            Err(message) => Err(FetchErrorView::Json(message)),
        },
    }
}

/// The view of what a response gives.
pub open spec fn fetched_view(r: Result<Option<FetchedMapping>, FetchError>) -> Result<
    Option<FetchedView>,
    FetchErrorView,
> {
    match r {
        Ok(fetched) => Ok(fetched.deep_view()),
        Err(error) => Err(error.deep_view()),
    }
}

/// Reads a GET response.
pub fn read_response(response: GetResponse) -> (r: Result<Option<FetchedMapping>, FetchError>)
    ensures
        fetched_view(r) == fetch_outcome(response),
{
    match response {
        GetResponse::NotModified => Ok(None),
        GetResponse::Full { body, etag, last_modified } => match read_json(&body) {
            Ok(entries) => Ok(
                Some(
                    FetchedMapping { mapping: normalize_and_filter(&entries), etag, last_modified },
                ),
            ),
            Err(message) => Err(FetchError::Json(message)),
        },
    }
}

/// Whether each name stands in a mapping once and none is mapped to itself.
pub open spec fn is_mapping(m: TableView<Seq<char>>) -> bool {
    &&& m.wf()
    &&& forall|i: int| 0 <= i < m.keys.len() ==> m.keys[i] != #[trigger] m.items[i]
}

/// A filtered mapping holds each name once and maps none to itself.
pub proof fn filtered_is_mapping(entries: Seq<(Seq<char>, Seq<char>)>)
    ensures
        is_mapping(filtered(entries)),
    decreases entries.len(),
{
    if entries.len() > 0 {
        filtered_is_mapping(entries.drop_last());
        let before = filtered(entries.drop_last());
        let after = filtered(entries);
        if let (Ok(pypi), Ok(conda)) = (
            name_outcome(entries.last().0),
            name_outcome(entries.last().1),
        ) {
            if pypi != conda {
                if before.has(pypi) {
                    let k = before.keys.index_of(pypi);
                    assert(before.keys[k] == pypi);
                    assert(after.keys == before.keys);
                    assert forall|i: int| 0 <= i < after.keys.len() implies after.keys[i]
                        != #[trigger] after.items[i] by {
                        if i != k {
                            assert(after.items[i] == before.items[i]);
                        }
                    }
                } else {
                    assert forall|i: int, j: int|
                        0 <= i < after.keys.len() && 0 <= j < after.keys.len() && i
                            != j implies after.keys[i] != after.keys[j] by {
                        if i == before.keys.len() {
                            assert(before.keys.contains(before.keys[j]));
                        } else if j == before.keys.len() {
                            assert(before.keys.contains(before.keys[i]));
                        }
                    }
                    assert forall|i: int| 0 <= i < after.keys.len() implies after.keys[i]
                        != #[trigger] after.items[i] by {
                        if i < before.keys.len() {
                            assert(after.items[i] == before.items[i]);
                        }
                    }
                }
            }
        }
    }
}

proof fn filtered_values_are_names(entries: Seq<(Seq<char>, Seq<char>)>)
    ensures
        forall|i: int|
            0 <= i < filtered(entries).items.len() ==> is_name(
                #[trigger] filtered(entries).items[i],
            ),
    decreases entries.len(),
{
    if entries.len() > 0 {
        filtered_values_are_names(entries.drop_last());
        filtered_is_mapping(entries.drop_last());
        let before = filtered(entries.drop_last());
        let after = filtered(entries);
        if let (Ok(pypi), Ok(conda)) = (
            name_outcome(entries.last().0),
            name_outcome(entries.last().1),
        ) {
            normalized_is_name(entries.last().1);
            assert forall|i: int| 0 <= i < after.items.len() implies is_name(
                #[trigger] after.items[i],
            ) by {
                if pypi != conda {
                    if before.has(pypi) {
                        if i != before.keys.index_of(pypi) {
                            assert(after.items[i] == before.items[i]);
                        }
                    } else if i < before.items.len() {
                        assert(after.items[i] == before.items[i]);
                    }
                }
            }
        }
    }
}

/// Looking up any name in a freshly filtered mapping succeeds.
pub proof fn filtered_lookups_succeed(entries: Seq<(Seq<char>, Seq<char>)>, name: Seq<char>)
    ensures
        mapped_name(filtered(entries), name) is Ok,
{
    filtered_values_are_names(entries);
    filtered_is_mapping(entries);
    let m = filtered(entries);
    if m.has(name) {
        let i = m.keys.index_of(name);
        assert(is_name(m.items[i]));
    }
}

/// Whether an entry says that a name is mapped to another: both are what its
/// two names are once normalized, and they differ.
spec fn says(entry: (Seq<char>, Seq<char>), name: Seq<char>, target: Seq<char>) -> bool {
    name_outcome(entry.0) == Ok::<Seq<char>, Seq<char>>(name) && name_outcome(entry.1) == Ok::<
        Seq<char>,
        Seq<char>,
    >(target) && name != target
}

proof fn put_at(t: TableView<Seq<char>>, key: Seq<char>, value: Seq<char>, other: Seq<char>)
    requires
        t.wf(),
        t.put(key, value).wf(),
    ensures
        t.put(key, value).has(key),
        t.put(key, value).at(key) == value,
        other != key ==> t.put(key, value).has(other) == t.has(other),
        other != key && t.has(other) ==> t.put(key, value).at(other) == t.at(other),
{
    let after = t.put(key, value);
    if t.has(key) {
        let k = t.keys.index_of(key);
        if t.has(other) && other != key {
            let j = t.keys.index_of(other);
            assert(t.keys[j] == other && j != k);
        }
    } else {
        let n = t.keys.len() as int;
        assert(after.keys[n] == key);
        let k = after.keys.index_of(key);
        if k < n {
            assert(t.keys[k] == key);
        }
        if t.has(other) {
            let j = t.keys.index_of(other);
            assert(after.keys[j] == other);
            assert(after.keys.index_of(other) == j);
        }
        if after.has(other) && other != key {
            let m = after.keys.index_of(other);
            assert(t.keys[m] == other);
        }
    }
}

proof fn filtered_holds(
    entries: Seq<(Seq<char>, Seq<char>)>,
    name: Seq<char>,
    target: Seq<char>,
)
    ensures
        filtered(entries).has(name) && filtered(entries).at(name) == target <==> exists|i: int|
            0 <= i < entries.len() && #[trigger] says(entries[i], name, target) && forall|
                k: int,
                other: Seq<char>,
            |
                i < k < entries.len() ==> !#[trigger] says(entries[k], name, other),
        filtered(entries).has(name) <==> exists|i: int, other: Seq<char>|
            0 <= i < entries.len() && #[trigger] says(entries[i], name, other),
    decreases entries.len(),
{
    if entries.len() > 0 {
        let front = entries.drop_last();
        let last = entries.last();
        let before = filtered(front);
        let after = filtered(entries);
        filtered_holds(front, name, target);
        filtered_is_mapping(front);
        filtered_is_mapping(entries);
        let said = exists|other: Seq<char>| says(last, name, other);
        if said {
            let other = choose|other: Seq<char>| says(last, name, other);
            put_at(before, name, other, name);
            assert(says(entries[entries.len() - 1], name, other));
            if after.at(name) == target {
                assert(says(entries[entries.len() - 1], name, target));
            }
            if exists|i: int|
                0 <= i < entries.len() && #[trigger] says(entries[i], name, target) && forall|
                    k: int,
                    o: Seq<char>,
                |
                    i < k < entries.len() ==> !#[trigger] says(entries[k], name, o) {
                let i = choose|i: int|
                    0 <= i < entries.len() && #[trigger] says(entries[i], name, target) && forall|
                        k: int,
                        o: Seq<char>,
                    |
                        i < k < entries.len() ==> !#[trigger] says(entries[k], name, o);
                assert(!(i < entries.len() - 1 && !says(
                    entries[entries.len() - 1],
                    name,
                    other,
                )));
                assert(i == entries.len() - 1);
            }
        } else {
            if let (Ok(pypi), Ok(conda)) = (name_outcome(last.0), name_outcome(last.1)) {
                if pypi != conda {
                    assert(says(last, pypi, conda));
                    assert(pypi != name);
                    put_at(before, pypi, conda, name);
                }
            }
            assert(after.has(name) == before.has(name));
            assert(before.has(name) ==> after.at(name) == before.at(name));
            assert forall|i: int, other: Seq<char>|
                0 <= i < front.len() implies says(front[i], name, other) == #[trigger] says(
                entries[i],
                name,
                other,
            ) by {}
            if before.has(name) && before.at(name) == target {
                let i = choose|i: int|
                    0 <= i < front.len() && #[trigger] says(front[i], name, target) && forall|
                        k: int,
                        o: Seq<char>,
                    |
                        i < k < front.len() ==> !#[trigger] says(front[k], name, o);
                assert(says(entries[i], name, target));
                assert forall|k: int, o: Seq<char>| i < k < entries.len() implies !#[trigger] says(
                    entries[k],
                    name,
                    o,
                ) by {
                    if k < front.len() {
                        assert(!says(front[k], name, o));
                    }
                }
            }
            if exists|i: int|
                0 <= i < entries.len() && #[trigger] says(entries[i], name, target) && forall|
                    k: int,
                    o: Seq<char>,
                |
                    i < k < entries.len() ==> !#[trigger] says(entries[k], name, o) {
                let i = choose|i: int|
                    0 <= i < entries.len() && #[trigger] says(entries[i], name, target) && forall|
                        k: int,
                        o: Seq<char>,
                    |
                        i < k < entries.len() ==> !#[trigger] says(entries[k], name, o);
                assert(i < front.len());
                assert(says(front[i], name, target));
                assert forall|k: int, o: Seq<char>| i < k < front.len() implies !#[trigger] says(
                    front[k],
                    name,
                    o,
                ) by {
                    assert(!says(entries[k], name, o));
                }
            }
            if before.has(name) {
                let (i, other) = choose|i: int, other: Seq<char>|
                    0 <= i < front.len() && #[trigger] says(front[i], name, other);
                assert(says(entries[i], name, other));
            }
            if exists|i: int, other: Seq<char>|
                0 <= i < entries.len() && #[trigger] says(entries[i], name, other) {
                let (i, other) = choose|i: int, other: Seq<char>|
                    0 <= i < entries.len() && #[trigger] says(entries[i], name, other);
                assert(i < front.len());
                assert(says(front[i], name, other));
            }
        }
    }
}

/// The mapping is complete: an entry whose two names are valid and differ
/// once normalized is looked up by the one and gives the other, unless a
/// later entry has the same normalized name.
pub proof fn no_entry_is_lost(entries: Seq<(Seq<char>, Seq<char>)>, i: int)
    requires
        0 <= i < entries.len(),
        name_outcome(entries[i].0) is Ok,
        name_outcome(entries[i].1) is Ok,
        name_outcome(entries[i].0)->Ok_0 != name_outcome(entries[i].1)->Ok_0,
        forall|k: int|
            i < k < entries.len() ==> name_outcome((#[trigger] entries[k]).0) != name_outcome(
                entries[i].0,
            ),
    ensures
        filtered(entries).has(name_outcome(entries[i].0)->Ok_0),
        filtered(entries).at(name_outcome(entries[i].0)->Ok_0) == name_outcome(
            entries[i].1,
        )->Ok_0,
        mapped_name(filtered(entries), name_outcome(entries[i].0)->Ok_0) == Ok::<
            Seq<char>,
            crate::conda_map::error::InvalidMappedNameView,
        >(name_outcome(entries[i].1)->Ok_0),
{
    let name = name_outcome(entries[i].0)->Ok_0;
    let target = name_outcome(entries[i].1)->Ok_0;
    filtered_holds(entries, name, target);
    assert(says(entries[i], name, target));
    assert forall|k: int, o: Seq<char>| i < k < entries.len() implies !#[trigger] says(
        entries[k],
        name,
        o,
    ) by {}
    filtered_lookups_succeed(entries, name);
}

/// The mapping says nothing of its own: what a name is mapped to is what the
/// last entry says whose names are valid, differ once normalized, and of
/// which the first is that name then.
pub proof fn no_entry_is_made_up(entries: Seq<(Seq<char>, Seq<char>)>, name: Seq<char>)
    requires
        filtered(entries).has(name),
    ensures
        exists|i: int|
            #![trigger entries[i]]
            0 <= i < entries.len() && name_outcome(entries[i].0) == Ok::<Seq<char>, Seq<char>>(
                name,
            ) && name_outcome(entries[i].1) == Ok::<Seq<char>, Seq<char>>(
                filtered(entries).at(name),
            ) && filtered(entries).at(name) != name && forall|k: int|
                i < k < entries.len() && name_outcome((#[trigger] entries[k]).0) == Ok::<
                    Seq<char>,
                    Seq<char>,
                >(name) ==> name_outcome(entries[k].1) is Err || name_outcome(entries[k].1)
                    == Ok::<Seq<char>, Seq<char>>(name),
{
    let target = filtered(entries).at(name);
    filtered_holds(entries, name, target);
    let i = choose|i: int|
        0 <= i < entries.len() && #[trigger] says(entries[i], name, target) && forall|
            k: int,
            o: Seq<char>,
        |
            i < k < entries.len() ==> !#[trigger] says(entries[k], name, o);
    assert forall|k: int|
        i < k < entries.len() && name_outcome((#[trigger] entries[k]).0) == Ok::<
            Seq<char>,
            Seq<char>,
        >(name) implies name_outcome(entries[k].1) is Err || name_outcome(entries[k].1) == Ok::<
        Seq<char>,
        Seq<char>,
    >(name) by {
        if name_outcome(entries[k].1) is Ok {
            assert(!says(entries[k], name, name_outcome(entries[k].1)->Ok_0));
        }
    }
    assert(name_outcome(entries[i].0) == Ok::<Seq<char>, Seq<char>>(name));
}

/// A response without a body gives no mapping; one with a body gives the
/// mapping that its entries make, with what came along to ask for newer ones
/// by, unless it is no JSON object of strings, and then the reason.
pub proof fn responses_are_taken_in(
    body: Vec<u8>,
    etag: Option<String>,
    last_modified: Option<String>,
)
    ensures
        fetch_outcome(GetResponse::NotModified) == Ok::<Option<FetchedView>, FetchErrorView>(None),
        ({
            let outcome = fetch_outcome(GetResponse::Full { body, etag, last_modified });
            match json_strings(body@) {
                Err(message) => outcome == Err::<Option<FetchedView>, FetchErrorView>(
                    FetchErrorView::Json(message),
                ),
                Ok(entries) => outcome is Ok && outcome->Ok_0 is Some
                    && outcome->Ok_0->0.mapping == filtered(entries)
                    && outcome->Ok_0->0.etag == etag.deep_view()
                    && outcome->Ok_0->0.last_modified == last_modified.deep_view(),
            }
        }),
{
}

} // verus!
