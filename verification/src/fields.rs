//! Invalid fields of a document, and lists of strings in it.

use crate::text::{concat, concat3, decimal, decimal_of};
use vstd::prelude::*;
use vstd::string::*;

verus! {

/// An invalid field: where it is, and why it was rejected where more is
/// known than that it is not valid.
#[derive(Debug, Clone, PartialEq, Eq)]
pub struct InvalidField {
    /// The place of the field, such as `project.dependencies[2]`. The empty
    /// path means the document itself.
    pub path: String,
    /// Why the field was rejected.
    pub description: Option<String>,
}

/// An invalid field as mathematical values.
pub struct FieldView {
    pub path: Seq<char>,
    pub description: Option<Seq<char>>,
}

impl DeepView for InvalidField {
    type V = FieldView;

    open spec fn deep_view(&self) -> FieldView {
        FieldView { path: self.path@, description: self.description.deep_view() }
    }
}

/// A field that is not valid.
pub open spec fn bad(path: Seq<char>) -> FieldView {
    FieldView { path, description: None }
}

/// A field that is not valid, and why.
pub open spec fn explained(path: Seq<char>, description: Seq<char>) -> FieldView {
    FieldView { path, description: Some(description) }
}

/// How an invalid field is shown.
pub open spec fn field_text(f: FieldView) -> Seq<char> {
    let place = if f.path.len() == 0 {
        "document"@
    } else {
        f.path
    };
    match f.description {
        Some(description) => place + " not valid: "@ + description,
        None => place + " not valid"@,
    }
}

impl InvalidField {
    pub(crate) fn bad(path: String) -> (r: InvalidField)
        ensures
            r.deep_view() == bad(path@),
    {
        InvalidField { path, description: None }
    }

    pub(crate) fn explained(path: String, description: String) -> (r: InvalidField)
        ensures
            r.deep_view() == explained(path@, description@),
    {
        InvalidField { path, description: Some(description) }
    }

    /// How the field is shown.
    pub fn to_string(&self) -> (r: String)
        ensures
            r@ == field_text(self.deep_view()),
    {
        let place = if self.path.as_str().is_empty() {
            "document"
        } else {
            self.path.as_str()
        };
        match &self.description {
            Some(description) => concat3(place, " not valid: ", description.as_str()),
            None => concat(place, " not valid"),
        }
    }
}

/// The place of an element of an array.
pub open spec fn element(path: Seq<char>, i: int) -> Seq<char> {
    path + "["@ + decimal(i as nat) + "]"@
}

pub(crate) fn element_path(path: &str, i: usize) -> (r: String)
    ensures
        r@ == element(path@, i as int),
{
    let number = decimal_of(i as u128);
    let head = concat3(path, "[", number.as_str());
    concat(head.as_str(), "]")
}

/// The elements of an array if each is a string, or the place of the first
/// that is none.
pub open spec fn strings_of(items: Seq<Option<Seq<char>>>, path: Seq<char>) -> Result<
    Seq<Seq<char>>,
    FieldView,
>
    decreases items.len(),
{
    if items.len() == 0 {
        Ok(Seq::empty())
    } else {
        match (strings_of(items.drop_last(), path), items.last()) {
            (Ok(before), Some(s)) => Ok(before.push(s)),
            (Ok(_), None) => Err(bad(element(path, items.len() - 1))),
            (Err(field), _) => Err(field),
        }
    }
}

proof fn strings_error_first(items: Seq<Option<Seq<char>>>, path: Seq<char>, n: int)
    requires
        0 <= n <= items.len(),
        strings_of(items.take(n), path) is Err,
    ensures
        strings_of(items, path) == strings_of(items.take(n), path),
    decreases items.len() - n,
{
    if n < items.len() {
        assert(items.take(n + 1).drop_last() =~= items.take(n));
        strings_error_first(items, path, n + 1);
    } else {
        assert(items.take(n) =~= items);
    }
}

pub(crate) fn extract_strings(items: &Vec<Option<String>>, path: &str) -> (r: Result<
    Vec<String>,
    InvalidField,
>)
    ensures
        match r {
            Ok(list) => strings_of(items.deep_view(), path@) == Ok::<Seq<Seq<char>>, FieldView>(
                list.deep_view(),
            ),
            Err(field) => strings_of(items.deep_view(), path@) == Err::<Seq<Seq<char>>, FieldView>(
                field.deep_view(),
            ),
        },
{
    let ghost all = items.deep_view();
    let mut out: Vec<String> = Vec::new();
    let mut i: usize = 0;
    assert(out.deep_view() =~= Seq::empty());
    while i < items.len()
        invariant
            i <= items.len(),
            all == items.deep_view(),
            strings_of(all.take(i as int), path@) == Ok::<Seq<Seq<char>>, FieldView>(
                out.deep_view(),
            ),
        decreases items.len() - i,
    {
        assert(all.take(i + 1).drop_last() =~= all.take(i as int));
        assert(all.take(i + 1).last() == items@[i as int].deep_view());
        match &items[i] {
            Some(s) => {
                let ghost done = out.deep_view();
                out.push(s.clone());
                assert(out.deep_view() =~= done.push(s@));
            },
            None => {
                proof {
                    strings_error_first(all, path@, i + 1);
                }
                return Err(InvalidField::bad(element_path(path, i)));
            },
        }
        i += 1;
    }
    assert(all.take(i as int) =~= all);
    Ok(out)
}

/// How many of some outcomes are errors.
pub open spec fn failures<T>(outcomes: Seq<Result<T, Seq<char>>>) -> nat
    decreases outcomes.len(),
{
    if outcomes.len() == 0 {
        0
    } else {
        failures(outcomes.drop_last()) + if outcomes.last() is Err {
            1nat
        } else {
            0
        }
    }
}

/// The errors of two lists of outcomes are those of the lists together.
pub proof fn failures_add<T>(a: Seq<Result<T, Seq<char>>>, b: Seq<Result<T, Seq<char>>>)
    ensures
        failures(a + b) == failures(a) + failures(b),
    decreases b.len(),
{
    if b.len() == 0 {
        assert(a + b =~= a);
    } else {
        failures_add(a, b.drop_last());
        assert((a + b).drop_last() =~= a + b.drop_last());
    }
}

/// A list of strings is read exactly where every element is one, each in its
/// place; otherwise the first that is none is named by its position in
/// brackets behind the place of the list.
pub proof fn strings_are_read_in_place(items: Seq<Option<Seq<char>>>, path: Seq<char>)
    ensures
        match strings_of(items, path) {
            Ok(list) => list.len() == items.len() && forall|i: int|
                0 <= i < items.len() ==> #[trigger] items[i] == Some(list[i]),
            Err(field) => field.description is None && exists|i: int|
                0 <= i < items.len() && (#[trigger] items[i]) is None && field.path == path + "["@
                    + decimal(i as nat) + "]"@ && forall|k: int|
                    0 <= k < i ==> (#[trigger] items[k]) is Some,
        },
    decreases items.len(),
{
    if items.len() > 0 {
        let front = items.drop_last();
        strings_are_read_in_place(front, path);
        assert(items[items.len() - 1] == items.last());
        match strings_of(front, path) {
            Ok(before) => {
                assert forall|k: int| 0 <= k < front.len() implies (#[trigger] items[k])
                    == Some(before[k]) by {
                    assert(front[k] == items[k]);
                }
            },
            Err(field) => {
                let i = choose|i: int|
                    0 <= i < front.len() && (#[trigger] front[i]) is None && field.path == path
                        + "["@ + decimal(i as nat) + "]"@ && forall|k: int|
                        0 <= k < i ==> (#[trigger] front[k]) is Some;
                assert(items[i] is None);
                assert forall|k: int| 0 <= k < i implies (#[trigger] items[k]) is Some by {
                    assert(front[k] == items[k]);
                }
            },
        }
    }
}

} // verus!
