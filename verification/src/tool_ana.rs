//! The `[tool.ana]` table: channels and match specs that a declaration asks
//! for beside its dependency specifiers.

use crate::fields::{
    bad, explained, extract_strings, strings_are_read_in_place, strings_of, FieldView, InvalidField,
};
use crate::toml::{keys3, toml_at, Document, Node, NodeView, PathStepView};
use vstd::prelude::*;
use vstd::string::*;

verus! {

/// The channels that a document asks for. Nothing asks for none; an empty
/// list is an error.
pub open spec fn channels_field(t: Seq<char>) -> Result<Option<Seq<Seq<char>>>, FieldView> {
    match toml_at(t, keys3("tool"@, "ana"@, "conda-channels"@)) {
        NodeView::Absent => Ok(None),
        NodeView::Array(items) => match strings_of(items, "tool.ana.conda-channels"@) {
            Ok(list) => if list.len() == 0 {
                Err(explained("tool.ana.conda-channels"@, "must not be empty"@))
            } else {
                Ok(Some(list))
            },
            Err(field) => Err(field),
        },
        _ => Err(bad("tool.ana.conda-channels"@)),
    }
}

/// The match specs that a document asks for, unread.
pub open spec fn matchspecs_field(t: Seq<char>) -> Result<Seq<Seq<char>>, FieldView> {
    match toml_at(t, keys3("tool"@, "ana"@, "matchspec-dependencies"@)) {
        NodeView::Absent => Ok(Seq::empty()),
        NodeView::Array(items) => strings_of(items, "tool.ana.matchspec-dependencies"@),
        _ => Err(bad("tool.ana.matchspec-dependencies"@)),
    }
}

/// The channels that a document asks for.
pub fn conda_channels(doc: &Document) -> (r: Result<Option<Vec<String>>, InvalidField>)
    ensures
        match r {
            Ok(channels) => channels_field(doc.source()) == Ok::<
                Option<Seq<Seq<char>>>,
                FieldView,
            >(channels.deep_view()),
            Err(field) => channels_field(doc.source()) == Err::<Option<Seq<Seq<char>>>, FieldView>(
                field.deep_view(),
            ),
        },
{
    match doc.get3("tool", "ana", "conda-channels") {
        Node::Absent => Ok(None),
        Node::Array(items) => match extract_strings(&items, "tool.ana.conda-channels") {
            Ok(list) => {
                if list.len() == 0 {
                    Err(
                        InvalidField {
                            path: "tool.ana.conda-channels".to_owned(),
                            description: Some("must not be empty".to_owned()),
                        },
                    )
                } else {
                    Ok(Some(list))
                }
            },
            Err(field) => Err(field),
        },
        _ => Err(InvalidField { path: "tool.ana.conda-channels".to_owned(), description: None }),
    }
}

/// The match specs that a document asks for, unread.
pub fn matchspec_dependencies(doc: &Document) -> (r: Result<Vec<String>, InvalidField>)
    ensures
        match r {
            Ok(list) => matchspecs_field(doc.source()) == Ok::<Seq<Seq<char>>, FieldView>(
                list.deep_view(),
            ),
            Err(field) => matchspecs_field(doc.source()) == Err::<Seq<Seq<char>>, FieldView>(
                field.deep_view(),
            ),
        },
{
    match doc.get3("tool", "ana", "matchspec-dependencies") {
        Node::Absent => {
            let none: Vec<String> = Vec::new();
            assert(none.deep_view() =~= Seq::empty());
            Ok(none)
        },
        Node::Array(items) => extract_strings(&items, "tool.ana.matchspec-dependencies"),
        _ => Err(
            InvalidField {
                path: "tool.ana.matchspec-dependencies".to_owned(),
                description: None,
            },
        ),
    }
}

/// The channels are the strings under `conda-channels` of `[tool.ana]`, in
/// order; there are none where nothing stands there, and anything but a list
/// of at least one string is an error that names the place.
pub proof fn channels_are_read_from_the_table(t: Seq<char>)
    ensures
        ({
            let node = toml_at(
                t,
                seq![
                    PathStepView::Key("tool"@),
                    PathStepView::Key("ana"@),
                    PathStepView::Key("conda-channels"@),
                ],
            );
            match channels_field(t) {
                Ok(None) => node is Absent,
                Ok(Some(list)) => node is Array && list.len() > 0 && list.len()
                    == node->Array_0.len() && forall|i: int|
                    0 <= i < list.len() ==> #[trigger] node->Array_0[i] == Some(list[i]),
                Err(field) => !(node is Absent) && (node is Array && node->Array_0.len() > 0
                    ==> exists|i: int|
                    0 <= i < node->Array_0.len() && (#[trigger] node->Array_0[i]) is None)
                    && "tool.ana.conda-channels"@.is_prefix_of(field.path),
            }
        }),
{
    let node = toml_at(t, keys3("tool"@, "ana"@, "conda-channels"@));
    if node is Array {
        strings_are_read_in_place(node->Array_0, "tool.ana.conda-channels"@);
        if strings_of(node->Array_0, "tool.ana.conda-channels"@) is Err {
            let field = strings_of(node->Array_0, "tool.ana.conda-channels"@)->Err_0;
            let i = choose|i: int|
                0 <= i < node->Array_0.len() && (#[trigger] node->Array_0[i]) is None && field.path
                    == "tool.ana.conda-channels"@ + "["@ + crate::text::decimal(i as nat) + "]"@
                    && forall|k: int| 0 <= k < i ==> (#[trigger] node->Array_0[k]) is Some;
            assert(node->Array_0[i] is None);
        }
    }
}

/// The match specs are the strings under `matchspec-dependencies` of
/// `[tool.ana]`, in order; none where nothing stands there, and anything but
/// a list of strings is an error that names the place.
pub proof fn matchspecs_are_read_from_the_table(t: Seq<char>)
    ensures
        ({
            let node = toml_at(
                t,
                seq![
                    PathStepView::Key("tool"@),
                    PathStepView::Key("ana"@),
                    PathStepView::Key("matchspec-dependencies"@),
                ],
            );
            match matchspecs_field(t) {
                Ok(list) => (node is Absent && list.len() == 0) || (node is Array && list.len()
                    == node->Array_0.len() && forall|i: int|
                    0 <= i < list.len() ==> #[trigger] node->Array_0[i] == Some(list[i])),
                Err(field) => !(node is Absent) && (node is Array ==> exists|i: int|
                    0 <= i < node->Array_0.len() && (#[trigger] node->Array_0[i]) is None)
                    && "tool.ana.matchspec-dependencies"@.is_prefix_of(field.path),
            }
        }),
{
    let node = toml_at(t, keys3("tool"@, "ana"@, "matchspec-dependencies"@));
    if node is Array {
        strings_are_read_in_place(node->Array_0, "tool.ana.matchspec-dependencies"@);
        if strings_of(node->Array_0, "tool.ana.matchspec-dependencies"@) is Err {
            let field = strings_of(node->Array_0, "tool.ana.matchspec-dependencies"@)->Err_0;
            let i = choose|i: int|
                0 <= i < node->Array_0.len() && (#[trigger] node->Array_0[i]) is None && field.path
                    == "tool.ana.matchspec-dependencies"@ + "["@ + crate::text::decimal(i as nat)
                    + "]"@ && forall|k: int|
                    0 <= k < i ==> (#[trigger] node->Array_0[k]) is Some;
            assert(node->Array_0[i] is None);
        }
    }
}

/// A list of channels or match specs that is wrong is reported under its
/// own path: what is no list, a list of channels without any, and the first
/// entry that is no string.
pub proof fn wrong_lists_say_where_and_why(t: Seq<char>)
    ensures
        ({
            let channels = toml_at(
                t,
                seq![
                    PathStepView::Key("tool"@),
                    PathStepView::Key("ana"@),
                    PathStepView::Key("conda-channels"@),
                ],
            );
            let specs = toml_at(
                t,
                seq![
                    PathStepView::Key("tool"@),
                    PathStepView::Key("ana"@),
                    PathStepView::Key("matchspec-dependencies"@),
                ],
            );
            &&& channels is Array && channels->Array_0.len() == 0 ==> channels_field(t) == Err::<
                Option<Seq<Seq<char>>>,
                FieldView,
            >(
                FieldView {
                    path: "tool.ana.conda-channels"@,
                    description: Some("must not be empty"@),
                },
            )
            &&& channels is Array && strings_of(channels->Array_0, "tool.ana.conda-channels"@) is Err
                ==> channels_field(t) == Err::<Option<Seq<Seq<char>>>, FieldView>(
                strings_of(channels->Array_0, "tool.ana.conda-channels"@)->Err_0,
            )
            &&& !(channels is Array) && !(channels is Absent) ==> channels_field(t) == Err::<
                Option<Seq<Seq<char>>>,
                FieldView,
            >(FieldView { path: "tool.ana.conda-channels"@, description: None })
            &&& specs is Array ==> matchspecs_field(t) == strings_of(
                specs->Array_0,
                "tool.ana.matchspec-dependencies"@,
            )
            &&& !(specs is Array) && !(specs is Absent) ==> matchspecs_field(t) == Err::<
                Seq<Seq<char>>,
                FieldView,
            >(FieldView { path: "tool.ana.matchspec-dependencies"@, description: None })
        }),
{
}

} // verus!
