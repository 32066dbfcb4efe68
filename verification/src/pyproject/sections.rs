//! Checks the structure of a `pyproject.toml` and takes its sections apart,
//! without reading the requirements in them. The first check that fails is
//! the error.

use crate::data::{append_all, views, Duplicate};
use crate::fields::{
    bad, element, element_path, explained, extract_strings, strings_are_read_in_place,
    strings_of, FieldView, InvalidField,
};
use crate::names::{extra_name, group_name, is_name, name_outcome, normalized, package_name};
use crate::pep440::{parse_specifiers, specifiers_outcome, Specifier, SpecifierView};
use crate::table::{Table, TableView};
use crate::text::{concat, concat3, same};
use crate::toml::{
    keys1, keys2, keys3, toml_at, toml_error, Document, Node, NodeView, PathStep, PathStepView,
};
use crate::tool_ana::{
    channels_field, conda_channels, matchspec_dependencies, matchspecs_field,
};
use vstd::prelude::*;
use vstd::string::*;

verus! {

/// The name of the project.
pub open spec fn name_field(t: Seq<char>) -> Result<Seq<char>, FieldView> {
    match toml_at(t, keys2("project"@, "name"@)) {
        NodeView::Text(raw) => if raw.len() == 0 {
            Err(explained("project.name"@, "project name must not be empty"@))
        } else {
            match name_outcome(raw) {
                Ok(name) => Ok(name),
                Err(message) => Err(explained("project.name"@, message)),
            }
        },
        _ => Err(bad("project.name"@)),
    }
}

fn extract_name(doc: &Document) -> (r: Result<String, InvalidField>)
    ensures
        match r {
            Ok(name) => name_field(doc.source()) == Ok::<Seq<char>, FieldView>(name@),
            Err(field) => name_field(doc.source()) == Err::<Seq<char>, FieldView>(
                field.deep_view(),
            ),
        },
{
    match doc.get2("project", "name") {
        Node::Text(raw) => {
            if raw.as_str().is_empty() {
                return Err(
                    InvalidField::explained(
                        "project.name".to_owned(),
                        "project name must not be empty".to_owned(),
                    ),
                );
            }
            match package_name(raw.as_str()) {
                Ok(name) => Ok(name),
                Err(message) => Err(InvalidField::explained("project.name".to_owned(), message)),
            }
        },
        _ => Err(InvalidField::bad("project.name".to_owned())),
    }
}

/// Whether an entry of `dynamic` is no string or claims a field that has to
/// be static.
pub open spec fn claims_static(entry: Option<Seq<char>>) -> bool {
    match entry {
        Some(s) => s == "dependencies"@ || s == "optional-dependencies"@ || s == "requires-python"@,
        None => true,
    }
}

/// Whether some entry of `dynamic` is no string or claims a field that has
/// to be static.
pub open spec fn any_claims_static(entries: Seq<Option<Seq<char>>>) -> bool {
    exists|i: int| 0 <= i < entries.len() && claims_static(#[trigger] entries[i])
}

/// Whether what stands under `dynamic` is rejected.
pub open spec fn dynamic_rejected(t: Seq<char>) -> bool {
    match toml_at(t, keys2("project"@, "dynamic"@)) {
        NodeView::Absent => false,
        NodeView::Array(entries) => any_claims_static(entries),
        _ => true,
    }
}

fn has_static_claim(items: &Vec<Option<String>>) -> (r: bool)
    ensures
        r == any_claims_static(items.deep_view()),
{
    let ghost all = items.deep_view();
    let mut i: usize = 0;
    while i < items.len()
        invariant
            i <= items.len(),
            all == items.deep_view(),
            forall|k: int| 0 <= k < i ==> !claims_static(#[trigger] all[k]),
        decreases items.len() - i,
    {
        assert(all[i as int] == items@[i as int].deep_view());
        let claims = match &items[i] {
            Some(s) => same(s.as_str(), "dependencies") || same(
                s.as_str(),
                "optional-dependencies",
            ) || same(s.as_str(), "requires-python"),
            None => true,
        };
        if claims {
            assert(claims_static(all[i as int]));
            return true;
        }
        i += 1;
    }
    false
}

fn check_dynamic(doc: &Document) -> (r: Result<(), InvalidField>)
    ensures
        match r {
            Ok(_) => !dynamic_rejected(doc.source()),
            Err(field) => dynamic_rejected(doc.source()) && field.deep_view() == bad(
                "project.dynamic"@,
            ),
        },
{
    let rejected = match doc.get2("project", "dynamic") {
        Node::Absent => false,
        Node::Array(items) => has_static_claim(&items),
        _ => true,
    };
    if rejected {
        Err(InvalidField::bad("project.dynamic".to_owned()))
    } else {
        Ok(())
    }
}

/// Whether the document declares dependencies in the way of old Poetry
/// projects and nowhere else.
pub open spec fn is_legacy_poetry(t: Seq<char>) -> bool {
    !(toml_at(t, keys3("tool"@, "poetry"@, "dependencies"@)) is Absent) && toml_at(
        t,
        keys2("project"@, "dependencies"@),
    ) is Absent
}

fn check_legacy_poetry(doc: &Document) -> (r: Result<(), InvalidField>)
    ensures
        match r {
            Ok(_) => !is_legacy_poetry(doc.source()),
            Err(field) => is_legacy_poetry(doc.source()) && field.deep_view() == bad(
                "tool.poetry.dependencies"@,
            ),
        },
{
    let poetry = doc.get3("tool", "poetry", "dependencies");
    let own = doc.get2("project", "dependencies");
    match (poetry, own) {
        (Node::Absent, _) => Ok(()),
        (_, Node::Absent) => Err(InvalidField::bad("tool.poetry.dependencies".to_owned())),
        _ => Ok(()),
    }
}

/// The Python versions the project supports.
pub open spec fn requires_python_field(t: Seq<char>) -> Result<
    Option<Seq<SpecifierView>>,
    FieldView,
> {
    match toml_at(t, keys2("project"@, "requires-python"@)) {
        NodeView::Absent => Ok(None),
        NodeView::Text(raw) => match specifiers_outcome(raw) {
            Ok(specifiers) => Ok(Some(specifiers)),
            Err(message) => Err(explained("project.requires-python"@, message)),
        },
        _ => Err(bad("project.requires-python"@)),
    }
}

fn extract_requires_python(doc: &Document) -> (r: Result<Option<Vec<Specifier>>, InvalidField>)
    ensures
        match r {
            Ok(specifiers) => requires_python_field(doc.source()) == Ok::<
                Option<Seq<SpecifierView>>,
                FieldView,
            >(specifiers.deep_view()),
            Err(field) => requires_python_field(doc.source()) == Err::<
                Option<Seq<SpecifierView>>,
                FieldView,
            >(field.deep_view()),
        },
{
    match doc.get2("project", "requires-python") {
        Node::Absent => Ok(None),
        Node::Text(raw) => match parse_specifiers(raw.as_str()) {
            Ok(specifiers) => Ok(Some(specifiers)),
            Err(message) => Err(
                InvalidField::explained("project.requires-python".to_owned(), message),
            ),
        },
        _ => Err(InvalidField::bad("project.requires-python".to_owned())),
    }
}

/// The runtime dependencies, unread.
pub open spec fn dependencies_field(t: Seq<char>) -> Result<Seq<Seq<char>>, FieldView> {
    match toml_at(t, keys2("project"@, "dependencies"@)) {
        NodeView::Absent => Ok(Seq::empty()),
        NodeView::Array(items) => strings_of(items, "project.dependencies"@),
        _ => Err(bad("project.dependencies"@)),
    }
}

fn extract_dependencies(doc: &Document) -> (r: Result<Vec<String>, InvalidField>)
    ensures
        match r {
            Ok(list) => dependencies_field(doc.source()) == Ok::<Seq<Seq<char>>, FieldView>(
                list.deep_view(),
            ),
            Err(field) => dependencies_field(doc.source()) == Err::<Seq<Seq<char>>, FieldView>(
                field.deep_view(),
            ),
        },
{
    match doc.get2("project", "dependencies") {
        Node::Absent => {
            let none: Vec<String> = Vec::new();
            assert(none.deep_view() =~= Seq::empty());
            Ok(none)
        },
        Node::Array(items) => extract_strings(&items, "project.dependencies"),
        _ => Err(InvalidField::bad("project.dependencies".to_owned())),
    }
}

/// The table of extras with one more key read.
pub open spec fn with_extra(
    t: Seq<char>,
    before: TableView<Seq<Seq<char>>>,
    key: Seq<char>,
) -> Result<TableView<Seq<Seq<char>>>, FieldView> {
    let path = "project.optional-dependencies."@ + key;
    match name_outcome(key) {
        Err(message) => Err(explained(path, message)),
        Ok(name) => if before.has(name) {
            Err(
                explained(
                    "project.optional-dependencies"@,
                    "duplicate extra name `"@ + name + "`"@,
                ),
            )
        } else {
            match toml_at(t, keys3("project"@, "optional-dependencies"@, key)) {
                NodeView::Array(items) => match strings_of(items, path) {
                    Ok(list) => Ok(before.with(name, list)),
                    Err(field) => Err(field),
                },
                _ => Err(bad(path)),
            }
        },
    }
}

/// The extras under the given keys, unread.
pub open spec fn extras_of(t: Seq<char>, keys: Seq<Seq<char>>) -> Result<
    TableView<Seq<Seq<char>>>,
    FieldView,
>
    decreases keys.len(),
{
    if keys.len() == 0 {
        Ok(TableView::empty())
    } else {
        match extras_of(t, keys.drop_last()) {
            Ok(before) => with_extra(t, before, keys.last()),
            Err(field) => Err(field),
        }
    }
}

/// The optional dependencies, unread.
pub open spec fn extras_field(t: Seq<char>) -> Result<TableView<Seq<Seq<char>>>, FieldView> {
    match toml_at(t, keys2("project"@, "optional-dependencies"@)) {
        NodeView::Absent => Ok(TableView::empty()),
        NodeView::Table(keys) => extras_of(t, keys),
        _ => Err(bad("project.optional-dependencies"@)),
    }
}

proof fn extras_error_first(t: Seq<char>, keys: Seq<Seq<char>>, n: int)
    requires
        0 <= n <= keys.len(),
        extras_of(t, keys.take(n)) is Err,
    ensures
        extras_of(t, keys) == extras_of(t, keys.take(n)),
    decreases keys.len() - n,
{
    if n < keys.len() {
        assert(keys.take(n + 1).drop_last() =~= keys.take(n));
        extras_error_first(t, keys, n + 1);
    } else {
        assert(keys.take(n) =~= keys);
    }
}

/// Reads one key of the optional dependencies.
fn extract_extra(doc: &Document, extras: &mut Table<Vec<String>>, key: &str) -> (r: Result<
    (),
    InvalidField,
>)
    ensures
        match r {
            Ok(_) => with_extra(doc.source(), old(extras).deep_view(), key@) == Ok::<
                TableView<Seq<Seq<char>>>,
                FieldView,
            >(final(extras).deep_view()),
            Err(field) => with_extra(doc.source(), old(extras).deep_view(), key@) == Err::<
                TableView<Seq<Seq<char>>>,
                FieldView,
            >(field.deep_view()),
        },
{
    let path = concat("project.optional-dependencies.", key);
    let name = match extra_name(key) {
        Ok(name) => name,
        Err(message) => return Err(InvalidField::explained(path, message)),
    };
    if let Some(_) = extras.get(name.as_str()) {
        return Err(
            InvalidField::explained(
                "project.optional-dependencies".to_owned(),
                concat3("duplicate extra name `", name.as_str(), "`"),
            ),
        );
    }
    match doc.get3("project", "optional-dependencies", key) {
        Node::Array(items) => match extract_strings(&items, path.as_str()) {
            Ok(list) => {
                extras.insert(name, list);
                Ok(())
            },
            Err(field) => Err(field),
        },
        _ => Err(InvalidField::bad(path)),
    }
}

fn extract_extras(doc: &Document) -> (r: Result<Table<Vec<String>>, InvalidField>)
    ensures
        match r {
            Ok(extras) => extras_field(doc.source()) == Ok::<
                TableView<Seq<Seq<char>>>,
                FieldView,
            >(extras.deep_view()),
            Err(field) => extras_field(doc.source()) == Err::<
                TableView<Seq<Seq<char>>>,
                FieldView,
            >(field.deep_view()),
        },
{
    let mut extras: Table<Vec<String>> = Table::new();
    assert(extras.deep_view().items =~= TableView::<Seq<Seq<char>>>::empty().items);
    match doc.get2("project", "optional-dependencies") {
        Node::Absent => Ok(extras),
        Node::Table(keys) => {
            let ghost all = keys.deep_view();
            let mut i: usize = 0;
            while i < keys.len()
                invariant
                    i <= keys.len(),
                    all == keys.deep_view(),
                    extras_field(doc.source()) == extras_of(doc.source(), all),
                    extras_of(doc.source(), all.take(i as int)) == Ok::<
                        TableView<Seq<Seq<char>>>,
                        FieldView,
                    >(extras.deep_view()),
                decreases keys.len() - i,
            {
                assert(all.take(i + 1).drop_last() =~= all.take(i as int));
                assert(all.take(i + 1).last() == keys@[i as int]@);
                match extract_extra(doc, &mut extras, keys[i].as_str()) {
                    Ok(_) => {},
                    Err(field) => {
                        proof {
                            extras_error_first(doc.source(), all, i + 1);
                        }
                        return Err(field);
                    },
                }
                i += 1;
            }
            assert(all.take(i as int) =~= all);
            Ok(extras)
        },
        _ => Err(InvalidField::bad("project.optional-dependencies".to_owned())),
    }
}

/// One entry of a dependency group, unread: a requirement or match spec, or
/// a reference to another group.
#[derive(Debug)]
pub enum GroupSlot {
    Requirement(String),
    Include(String),
}

/// An unread group entry as mathematical values.
pub enum SlotView {
    Requirement(Seq<char>),
    Include(Seq<char>),
}

impl DeepView for GroupSlot {
    type V = SlotView;

    open spec fn deep_view(&self) -> SlotView {
        match self {
            GroupSlot::Requirement(text) => SlotView::Requirement(text@),
            GroupSlot::Include(name) => SlotView::Include(name@),
        }
    }
}

/// The tables that declare dependency groups.
#[derive(Debug, Clone, Copy, PartialEq, Eq, Structural)]
pub enum GroupTable {
    /// `[dependency-groups]`, whose strings are dependency specifiers.
    Requirements,
    /// `[tool.ana.matchspec-dependency-groups]`, whose strings are match
    /// specs.
    Matchspecs,
}

/// The path of a table of groups, as it is shown.
pub open spec fn table_path(table: GroupTable) -> Seq<char> {
    match table {
        GroupTable::Requirements => "dependency-groups"@,
        GroupTable::Matchspecs => "tool.ana.matchspec-dependency-groups"@,
    }
}

/// The place of a table of groups.
pub open spec fn table_place(table: GroupTable) -> Seq<PathStepView> {
    match table {
        GroupTable::Requirements => keys1("dependency-groups"@),
        GroupTable::Matchspecs => keys3("tool"@, "ana"@, "matchspec-dependency-groups"@),
    }
}

/// The place of a group.
pub open spec fn group_place(table: GroupTable, key: Seq<char>) -> Seq<PathStepView> {
    table_place(table).push(PathStepView::Key(key))
}

/// The path of a group, as it is shown.
pub open spec fn group_path(table: GroupTable, key: Seq<char>) -> Seq<char> {
    table_path(table) + "."@ + key
}

/// The place of an entry of a group.
pub open spec fn slot_place(table: GroupTable, key: Seq<char>, i: int) -> Seq<PathStepView> {
    group_place(table, key).push(PathStepView::Index(i))
}

/// The place of the name of the group that an entry refers to.
pub open spec fn include_place(table: GroupTable, key: Seq<char>, i: int) -> Seq<PathStepView> {
    slot_place(table, key, i).push(PathStepView::Key("include-group"@))
}

impl GroupTable {
    /// The path of the table, as it is shown.
    pub fn path(self) -> (r: &'static str)
        ensures
            r@ == table_path(self),
    {
        match self {
            GroupTable::Requirements => "dependency-groups",
            GroupTable::Matchspecs => "tool.ana.matchspec-dependency-groups",
        }
    }

    /// The path of a group, as it is shown.
    pub fn group_path(self, key: &str) -> (r: String)
        ensures
            r@ == group_path(self, key@),
    {
        concat3(self.path(), ".", key)
    }

    /// The place of the table.
    fn place(self) -> (r: Vec<PathStep>)
        ensures
            r.deep_view() == table_place(self),
    {
        let mut out: Vec<PathStep> = Vec::new();
        match self {
            GroupTable::Requirements => {
                out.push(PathStep::Key("dependency-groups".to_owned()));
                assert(out.deep_view() =~= table_place(self));
            },
            GroupTable::Matchspecs => {
                out.push(PathStep::Key("tool".to_owned()));
                out.push(PathStep::Key("ana".to_owned()));
                out.push(PathStep::Key("matchspec-dependency-groups".to_owned()));
                assert(out.deep_view() =~= table_place(self));
            },
        }
        out
    }

    /// The place of a group.
    fn group_place(self, key: &str) -> (r: Vec<PathStep>)
        ensures
            r.deep_view() == group_place(self, key@),
    {
        let mut out = self.place();
        let ghost before = out.deep_view();
        out.push(PathStep::Key(key.to_owned()));
        assert(out.deep_view() =~= before.push(PathStepView::Key(key@)));
        out
    }
}

/// One entry of a group: a string is a requirement or match spec, and a
/// table with the single key `include-group` a reference.
pub open spec fn slot_of(
    t: Seq<char>,
    table: GroupTable,
    key: Seq<char>,
    i: int,
    item: Option<Seq<char>>,
) -> Result<
    SlotView,
    FieldView,
> {
    let path = element(group_path(table, key), i);
    match item {
        Some(s) => Ok(SlotView::Requirement(s)),
        None => match toml_at(t, slot_place(table, key, i)) {
            NodeView::Table(keys) => if keys == seq!["include-group"@] {
                match toml_at(t, include_place(table, key, i)) {
                    NodeView::Text(raw) => match name_outcome(raw) {
                        Ok(name) => Ok(SlotView::Include(name)),
                        Err(message) => Err(explained(path, message)),
                    },
                    _ => Err(bad(path)),
                }
            } else {
                Err(bad(path))
            },
            _ => Err(bad(path)),
        },
    }
}

fn extract_slot(
    doc: &Document,
    table: GroupTable,
    key: &str,
    i: usize,
    item: &Option<String>,
) -> (r: Result<
    GroupSlot,
    InvalidField,
>)
    ensures
        match r {
            Ok(slot) => slot_of(doc.source(), table, key@, i as int, item.deep_view()) == Ok::<
                SlotView,
                FieldView,
            >(slot.deep_view()),
            Err(field) => slot_of(doc.source(), table, key@, i as int, item.deep_view()) == Err::<
                SlotView,
                FieldView,
            >(field.deep_view()),
        },
{
    if let Some(s) = item {
        return Ok(GroupSlot::Requirement(s.clone()));
    }
    let group = table.group_path(key);
    let path = element_path(group.as_str(), i);
    let mut place = table.group_place(key);
    let ghost outer = place.deep_view();
    place.push(PathStep::Index(i));
    assert(place.deep_view() =~= outer.push(PathStepView::Index(i as int)));
    match doc.node(&place) {
        Node::Table(keys) => {
            let ghost held = keys.deep_view();
            if keys.len() != 1 {
                assert(seq!["include-group"@].len() == 1);
                return Err(InvalidField::bad(path));
            }
            assert(held[0] == keys@[0]@);
            if !same(keys[0].as_str(), "include-group") {
                assert(seq!["include-group"@][0] == "include-group"@);
                return Err(InvalidField::bad(path));
            }
            assert(held =~= seq!["include-group"@]);
            let ghost before = place.deep_view();
            place.push(PathStep::Key("include-group".to_owned()));
            assert(place.deep_view() =~= before.push(PathStepView::Key("include-group"@)));
            match doc.node(&place) {
                Node::Text(raw) => match group_name(raw.as_str()) {
                    Ok(name) => Ok(GroupSlot::Include(name)),
                    Err(message) => Err(InvalidField::explained(path, message)),
                },
                _ => Err(InvalidField::bad(path)),
            }
        },
        _ => Err(InvalidField::bad(path)),
    }
}

/// The entries of a group, or the first that is invalid.
pub open spec fn slots_of(
    t: Seq<char>,
    table: GroupTable,
    key: Seq<char>,
    items: Seq<Option<Seq<char>>>,
) -> Result<
    Seq<SlotView>,
    FieldView,
>
    decreases items.len(),
{
    if items.len() == 0 {
        Ok(Seq::empty())
    } else {
        match slots_of(t, table, key, items.drop_last()) {
            Ok(before) => match slot_of(t, table, key, items.len() - 1, items.last()) {
                Ok(slot) => Ok(before.push(slot)),
                Err(field) => Err(field),
            },
            Err(field) => Err(field),
        }
    }
}

proof fn slots_error_first(
    t: Seq<char>,
    table: GroupTable,
    key: Seq<char>,
    items: Seq<Option<Seq<char>>>,
    n: int,
)
    requires
        0 <= n <= items.len(),
        slots_of(t, table, key, items.take(n)) is Err,
    ensures
        slots_of(t, table, key, items) == slots_of(t, table, key, items.take(n)),
    decreases items.len() - n,
{
    if n < items.len() {
        assert(items.take(n + 1).drop_last() =~= items.take(n));
        slots_error_first(t, table, key, items, n + 1);
    } else {
        assert(items.take(n) =~= items);
    }
}

fn extract_slots(
    doc: &Document,
    table: GroupTable,
    key: &str,
    items: &Vec<Option<String>>,
) -> (r: Result<
    Vec<GroupSlot>,
    InvalidField,
>)
    ensures
        match r {
            Ok(slots) => slots_of(doc.source(), table, key@, items.deep_view()) == Ok::<
                Seq<SlotView>,
                FieldView,
            >(slots.deep_view()),
            Err(field) => slots_of(doc.source(), table, key@, items.deep_view()) == Err::<
                Seq<SlotView>,
                FieldView,
            >(field.deep_view()),
        },
{
    let ghost all = items.deep_view();
    let mut out: Vec<GroupSlot> = Vec::new();
    let mut i: usize = 0;
    assert(out.deep_view() =~= Seq::empty());
    while i < items.len()
        invariant
            i <= items.len(),
            all == items.deep_view(),
            slots_of(doc.source(), table, key@, all.take(i as int)) == Ok::<Seq<SlotView>, FieldView>(
                out.deep_view(),
            ),
        decreases items.len() - i,
    {
        assert(all.take(i + 1).drop_last() =~= all.take(i as int));
        assert(all.take(i + 1).last() == items@[i as int].deep_view());
        match extract_slot(doc, table, key, i, &items[i]) {
            Ok(slot) => {
                let ghost done = out.deep_view();
                out.push(slot);
                assert(out.deep_view() =~= done.push(slot.deep_view()));
            },
            Err(field) => {
                proof {
                    slots_error_first(doc.source(), table, key@, all, i + 1);
                }
                return Err(field);
            },
        }
        i += 1;
    }
    assert(all.take(i as int) =~= all);
    Ok(out)
}

/// The table of groups with one more key read.
pub open spec fn with_group(
    t: Seq<char>,
    table: GroupTable,
    before: TableView<Seq<SlotView>>,
    key: Seq<char>,
) -> Result<TableView<Seq<SlotView>>, FieldView> {
    let path = group_path(table, key);
    match name_outcome(key) {
        Err(message) => Err(explained(path, message)),
        Ok(name) => if before.has(name) {
            Err(explained(table_path(table), "duplicate group name `"@ + name + "`"@))
        } else {
            match toml_at(t, group_place(table, key)) {
                NodeView::Array(items) => match slots_of(t, table, key, items) {
                    Ok(slots) => Ok(before.with(name, slots)),
                    Err(field) => Err(field),
                },
                _ => Err(bad(path)),
            }
        },
    }
}

/// The groups under the given keys, unread.
pub open spec fn groups_of(t: Seq<char>, table: GroupTable, keys: Seq<Seq<char>>) -> Result<
    TableView<Seq<SlotView>>,
    FieldView,
>
    decreases keys.len(),
{
    if keys.len() == 0 {
        Ok(TableView::empty())
    } else {
        match groups_of(t, table, keys.drop_last()) {
            Ok(before) => with_group(t, table, before, keys.last()),
            Err(field) => Err(field),
        }
    }
}

/// The groups of a table, unread.
pub open spec fn groups_field(t: Seq<char>, table: GroupTable) -> Result<TableView<Seq<SlotView>>, FieldView> {
    match toml_at(t, table_place(table)) {
        NodeView::Absent => Ok(TableView::empty()),
        NodeView::Table(keys) => groups_of(t, table, keys),
        _ => Err(bad(table_path(table))),
    }
}

proof fn groups_error_first(t: Seq<char>, table: GroupTable, keys: Seq<Seq<char>>, n: int)
    requires
        0 <= n <= keys.len(),
        groups_of(t, table, keys.take(n)) is Err,
    ensures
        groups_of(t, table, keys) == groups_of(t, table, keys.take(n)),
    decreases keys.len() - n,
{
    if n < keys.len() {
        assert(keys.take(n + 1).drop_last() =~= keys.take(n));
        groups_error_first(t, table, keys, n + 1);
    } else {
        assert(keys.take(n) =~= keys);
    }
}

/// Reads one key of a table of groups.
fn extract_group(
    doc: &Document,
    table: GroupTable,
    groups: &mut Table<Vec<GroupSlot>>,
    key: &str,
) -> (r: Result<
    (),
    InvalidField,
>)
    ensures
        match r {
            Ok(_) => with_group(doc.source(), table, old(groups).deep_view(), key@) == Ok::<
                TableView<Seq<SlotView>>,
                FieldView,
            >(final(groups).deep_view()),
            Err(field) => with_group(doc.source(), table, old(groups).deep_view(), key@) == Err::<
                TableView<Seq<SlotView>>,
                FieldView,
            >(field.deep_view()),
        },
{
    let path = table.group_path(key);
    let name = match group_name(key) {
        Ok(name) => name,
        Err(message) => return Err(InvalidField::explained(path, message)),
    };
    if let Some(_) = groups.get(name.as_str()) {
        return Err(
            InvalidField::explained(
                table.path().to_owned(),
                concat3("duplicate group name `", name.as_str(), "`"),
            ),
        );
    }
    match doc.node(&table.group_place(key)) {
        Node::Array(items) => match extract_slots(doc, table, key, &items) {
            Ok(slots) => {
                groups.insert(name, slots);
                Ok(())
            },
            Err(field) => Err(field),
        },
        _ => Err(InvalidField::bad(path)),
    }
}

fn extract_groups(doc: &Document, table: GroupTable) -> (r: Result<Table<Vec<GroupSlot>>, InvalidField>)
    ensures
        match r {
            Ok(groups) => groups_field(doc.source(), table) == Ok::<TableView<Seq<SlotView>>, FieldView>(
                groups.deep_view(),
            ),
            Err(field) => groups_field(doc.source(), table) == Err::<
                TableView<Seq<SlotView>>,
                FieldView,
            >(field.deep_view()),
        },
{
    let mut groups: Table<Vec<GroupSlot>> = Table::new();
    assert(groups.deep_view().items =~= TableView::<Seq<SlotView>>::empty().items);
    match doc.node(&table.place()) {
        Node::Absent => Ok(groups),
        Node::Table(keys) => {
            let ghost all = keys.deep_view();
            let mut i: usize = 0;
            while i < keys.len()
                invariant
                    i <= keys.len(),
                    all == keys.deep_view(),
                    groups_field(doc.source(), table) == groups_of(doc.source(), table, all),
                    groups_of(doc.source(), table, all.take(i as int)) == Ok::<
                        TableView<Seq<SlotView>>,
                        FieldView,
                    >(groups.deep_view()),
                decreases keys.len() - i,
            {
                assert(all.take(i + 1).drop_last() =~= all.take(i as int));
                assert(all.take(i + 1).last() == keys@[i as int]@);
                match extract_group(doc, table, &mut groups, keys[i].as_str()) {
                    Ok(_) => {},
                    Err(field) => {
                        proof {
                            groups_error_first(doc.source(), table, all, i + 1);
                        }
                        return Err(field);
                    },
                }
                i += 1;
            }
            assert(all.take(i as int) =~= all);
            Ok(groups)
        },
        _ => Err(InvalidField::bad(table.path().to_owned())),
    }
}

/// The sections of a `pyproject.toml` that passed every structural check,
/// with their requirements unread.
#[derive(Debug)]
pub struct Sections {
    pub name: String,
    pub requires_python: Option<Vec<Specifier>>,
    pub channels: Option<Vec<String>>,
    pub runtime: Vec<String>,
    pub extras: Table<Vec<String>>,
    pub groups: Table<Vec<GroupSlot>>,
    pub matchspecs: Vec<String>,
    pub matchspec_groups: Table<Vec<GroupSlot>>,
}

/// The sections of a `pyproject.toml` as mathematical values.
pub struct SectionsView {
    pub name: Seq<char>,
    pub requires_python: Option<Seq<SpecifierView>>,
    pub channels: Option<Seq<Seq<char>>>,
    pub runtime: Seq<Seq<char>>,
    pub extras: TableView<Seq<Seq<char>>>,
    pub groups: TableView<Seq<SlotView>>,
    pub matchspecs: Seq<Seq<char>>,
    pub matchspec_groups: TableView<Seq<SlotView>>,
}

impl DeepView for Sections {
    type V = SectionsView;

    open spec fn deep_view(&self) -> SectionsView {
        SectionsView {
            name: self.name@,
            requires_python: self.requires_python.deep_view(),
            channels: self.channels.deep_view(),
            runtime: self.runtime.deep_view(),
            extras: self.extras.deep_view(),
            groups: self.groups.deep_view(),
            matchspecs: self.matchspecs.deep_view(),
            matchspec_groups: self.matchspec_groups.deep_view(),
        }
    }
}

/// The sections of a text whose name, Python versions and channels are
/// known, or the first structural problem in its lists.
pub open spec fn with_lists(
    t: Seq<char>,
    name: Seq<char>,
    requires_python: Option<Seq<SpecifierView>>,
    channels: Option<Seq<Seq<char>>>,
) -> Result<SectionsView, FieldView> {
    match dependencies_field(t) {
        Err(field) => Err(field),
        Ok(runtime) => match extras_field(t) {
            Err(field) => Err(field),
            Ok(extras) => match groups_field(t, GroupTable::Requirements) {
                Err(field) => Err(field),
                Ok(groups) => match matchspecs_field(t) {
                    Err(field) => Err(field),
                    Ok(matchspecs) => match groups_field(t, GroupTable::Matchspecs) {
                        Err(field) => Err(field),
                        Ok(matchspec_groups) => Ok(
                            SectionsView {
                                name,
                                requires_python,
                                channels,
                                runtime,
                                extras,
                                groups,
                                matchspecs,
                                matchspec_groups,
                            },
                        ),
                    },
                },
            },
        },
    }
}

/// The sections of a text, or the first structural problem.
pub open spec fn sections_of(t: Seq<char>) -> Result<SectionsView, FieldView> {
    if let Some(message) = toml_error(t) {
        Err(explained(""@, message))
    } else if !(toml_at(t, keys1("project"@)) is Table) {
        Err(bad("project"@))
    } else {
        match name_field(t) {
            Err(field) => Err(field),
            Ok(name) => if dynamic_rejected(t) {
                Err(bad("project.dynamic"@))
            } else if is_legacy_poetry(t) {
                Err(bad("tool.poetry.dependencies"@))
            } else {
                match requires_python_field(t) {
                    Err(field) => Err(field),
                    Ok(requires_python) => match channels_field(t) {
                        Err(field) => Err(field),
                        Ok(channels) => with_lists(t, name, requires_python, channels),
                    },
                }
            },
        }
    }
}

/// Checks the structure of a `pyproject.toml` and takes its sections apart.
pub fn read_sections(toml: &str) -> (r: Result<Sections, InvalidField>)
    ensures
        match r {
            Ok(sections) => sections_of(toml@) == Ok::<SectionsView, FieldView>(
                sections.deep_view(),
            ),
            Err(field) => sections_of(toml@) == Err::<SectionsView, FieldView>(field.deep_view()),
        },
{
    let doc = match Document::parse(toml) {
        Ok(doc) => doc,
        Err(message) => return Err(InvalidField::explained("".to_owned(), message)),
    };
    match doc.get("project") {
        Node::Table(_) => {},
        _ => return Err(InvalidField::bad("project".to_owned())),
    }
    let name = match extract_name(&doc) {
        Ok(name) => name,
        Err(field) => return Err(field),
    };
    match check_dynamic(&doc) {
        Ok(_) => {},
        Err(field) => return Err(field),
    }
    match check_legacy_poetry(&doc) {
        Ok(_) => {},
        Err(field) => return Err(field),
    }
    let requires_python = match extract_requires_python(&doc) {
        Ok(requires_python) => requires_python,
        Err(field) => return Err(field),
    };
    let channels = match conda_channels(&doc) {
        Ok(channels) => channels,
        Err(field) => return Err(field),
    };
    let runtime = match extract_dependencies(&doc) {
        Ok(runtime) => runtime,
        Err(field) => return Err(field),
    };
    let extras = match extract_extras(&doc) {
        Ok(extras) => extras,
        Err(field) => return Err(field),
    };
    let groups = match extract_groups(&doc, GroupTable::Requirements) {
        Ok(groups) => groups,
        Err(field) => return Err(field),
    };
    let matchspecs = match matchspec_dependencies(&doc) {
        Ok(matchspecs) => matchspecs,
        Err(field) => return Err(field),
    };
    let matchspec_groups = match extract_groups(&doc, GroupTable::Matchspecs) {
        Ok(groups) => groups,
        Err(field) => return Err(field),
    };
    Ok(
        Sections {
            name,
            requires_python,
            channels,
            runtime,
            extras,
            groups,
            matchspecs,
            matchspec_groups,
        },
    )
}

/// The texts of lists, one list after the other.
pub open spec fn all_texts(lists: Seq<Seq<Seq<char>>>) -> Seq<Seq<char>>
    decreases lists.len(),
{
    if lists.len() == 0 {
        Seq::empty()
    } else {
        all_texts(lists.drop_last()) + lists.last()
    }
}

/// The strings among the entries of a group.
pub open spec fn slot_texts(slots: Seq<SlotView>) -> Seq<Seq<char>>
    decreases slots.len(),
{
    if slots.len() == 0 {
        Seq::empty()
    } else {
        match slots.last() {
            SlotView::Requirement(text) => slot_texts(slots.drop_last()).push(text),
            SlotView::Include(_) => slot_texts(slots.drop_last()),
        }
    }
}

/// The strings among the entries of groups.
pub open spec fn all_slot_texts(groups: Seq<Seq<SlotView>>) -> Seq<Seq<char>>
    decreases groups.len(),
{
    if groups.len() == 0 {
        Seq::empty()
    } else {
        all_slot_texts(groups.drop_last()) + slot_texts(groups.last())
    }
}

/// Every requirement of a document: the runtime dependencies, then each
/// extra's, then each group's.
pub open spec fn requirement_texts(s: SectionsView) -> Seq<Seq<char>> {
    s.runtime + all_texts(s.extras.items) + all_slot_texts(s.groups.items)
}

/// Every match spec of a document: the runtime ones, then each group's.
pub open spec fn spec_texts(s: SectionsView) -> Seq<Seq<char>> {
    s.matchspecs + all_slot_texts(s.matchspec_groups.items)
}

fn push_all_slot_texts(out: &mut Vec<String>, groups: &Table<Vec<GroupSlot>>)
    ensures
        final(out).deep_view() == old(out).deep_view() + all_slot_texts(groups.deep_view().items),
{
    let ghost head = out.deep_view();
    let ghost v = groups.deep_view();
    let m: usize = groups.len();
    let mut j: usize = 0;
    assert(out.deep_view() =~= head + all_slot_texts(v.items.take(0)));
    while j < m
        invariant
            j <= m,
            v == groups.deep_view(),
            m == v.items.len(),
            m == v.keys.len(),
            out.deep_view() == head + all_slot_texts(v.items.take(j as int)),
        decreases m - j,
    {
        assert(v.items.take(j + 1).drop_last() =~= v.items.take(j as int));
        push_slot_texts(out, groups.value(j));
        j += 1;
        assert(out.deep_view() =~= head + all_slot_texts(v.items.take(j as int)));
    }
    assert(v.items.take(j as int) =~= v.items);
}

impl Sections {
    /// Every match spec of the document, in order.
    pub fn spec_texts(&self) -> (r: Vec<String>)
        ensures
            r.deep_view() == spec_texts(self.deep_view()),
    {
        let mut out = self.matchspecs.duplicate();
        push_all_slot_texts(&mut out, &self.matchspec_groups);
        out
    }

    /// Every requirement of the document, in order.
    pub fn requirement_texts(&self) -> (r: Vec<String>)
        ensures
            r.deep_view() == requirement_texts(self.deep_view()),
    {
        let ghost v = self.deep_view();
        let mut out = self.runtime.duplicate();
        let n: usize = self.extras.len();
        let mut i: usize = 0;
        assert(out.deep_view() =~= v.runtime + all_texts(v.extras.items.take(0)));
        while i < n
            invariant
                i <= n,
                v == self.deep_view(),
                n == v.extras.items.len(),
                n == v.extras.keys.len(),
                out.deep_view() == v.runtime + all_texts(v.extras.items.take(i as int)),
            decreases n - i,
        {
            assert(v.extras.items.take(i + 1).drop_last() =~= v.extras.items.take(i as int));
            let list = self.extras.value(i);
            append_all(&mut out, list);
            i += 1;
            assert(views(list@) =~= v.extras.items[i - 1]);
            assert(out.deep_view() =~= v.runtime + all_texts(v.extras.items.take(i as int)));
        }
        assert(v.extras.items.take(i as int) =~= v.extras.items);
        push_all_slot_texts(&mut out, &self.groups);
        out
    }
}

fn push_slot_texts(out: &mut Vec<String>, slots: &Vec<GroupSlot>)
    ensures
        final(out).deep_view() == old(out).deep_view() + slot_texts(slots.deep_view()),
{
    let ghost before = out.deep_view();
    let ghost all = slots.deep_view();
    let mut i: usize = 0;
    assert(out.deep_view() =~= before + slot_texts(all.take(0)));
    while i < slots.len()
        invariant
            i <= slots.len(),
            all == slots.deep_view(),
            out.deep_view() == before + slot_texts(all.take(i as int)),
        decreases slots.len() - i,
    {
        assert(all.take(i + 1).drop_last() =~= all.take(i as int));
        assert(all.take(i + 1).last() == slots@[i as int].deep_view());
        if let GroupSlot::Requirement(text) = &slots[i] {
            let ghost done = out.deep_view();
            out.push(text.clone());
            assert(out.deep_view() =~= done.push(text@));
        }
        i += 1;
        assert(out.deep_view() =~= before + slot_texts(all.take(i as int)));
    }
    assert(all.take(i as int) =~= all);
}

/// The name of a project is the text under `name` of `[project]`, normalized;
/// a text that is empty or no name, and anything else, is an error at
/// `project.name`.
pub proof fn project_name_is_read(t: Seq<char>)
    ensures
        ({
            let node = toml_at(t, seq![PathStepView::Key("project"@), PathStepView::Key("name"@)]);
            match name_field(t) {
                Ok(name) => node is Text && is_name(node->Text_0) && name == normalized(
                    node->Text_0,
                ),
                Err(field) => field.path == "project.name"@ && !(node is Text && is_name(
                    node->Text_0,
                )),
            }
        }),
{
}

/// `dynamic` may be left out or be a list of strings none of which is
/// `dependencies`, `optional-dependencies` or `requires-python`.
pub proof fn static_fields_are_not_dynamic(t: Seq<char>)
    ensures
        ({
            let node = toml_at(
                t,
                seq![PathStepView::Key("project"@), PathStepView::Key("dynamic"@)],
            );
            !dynamic_rejected(t) <==> node is Absent || (node is Array && forall|i: int|
                0 <= i < node->Array_0.len() ==> (#[trigger] node->Array_0[i]) is Some
                    && node->Array_0[i]->0 != "dependencies"@ && node->Array_0[i]->0
                    != "optional-dependencies"@ && node->Array_0[i]->0 != "requires-python"@)
        }),
{
    let node = toml_at(t, keys2("project"@, "dynamic"@));
    if node is Array {
        let entries = node->Array_0;
        if any_claims_static(entries) {
            let i = choose|i: int| 0 <= i < entries.len() && claims_static(#[trigger] entries[i]);
            assert(claims_static(node->Array_0[i]));
        } else {
            assert forall|i: int| 0 <= i < entries.len() implies !claims_static(
                #[trigger] entries[i],
            ) by {}
        }
    }
}

/// A document that only has dependencies of Poetry is refused.
pub proof fn poetry_dependencies_alone_are_refused(t: Seq<char>)
    ensures
        is_legacy_poetry(t) <==> !(toml_at(
            t,
            seq![
                PathStepView::Key("tool"@),
                PathStepView::Key("poetry"@),
                PathStepView::Key("dependencies"@),
            ],
        ) is Absent) && toml_at(
            t,
            seq![PathStepView::Key("project"@), PathStepView::Key("dependencies"@)],
        ) is Absent,
{
}

/// The supported Python versions are the specifiers that the text under
/// `requires-python` of `[project]` spells; none where nothing stands there.
pub proof fn python_versions_are_read(t: Seq<char>)
    ensures
        ({
            let node = toml_at(
                t,
                seq![PathStepView::Key("project"@), PathStepView::Key("requires-python"@)],
            );
            match requires_python_field(t) {
                Ok(None) => node is Absent,
                Ok(Some(specifiers)) => node is Text && specifiers_outcome(node->Text_0) == Ok::<
                    Seq<SpecifierView>,
                    Seq<char>,
                >(specifiers),
                Err(field) => field.path == "project.requires-python"@ && !(node is Absent) && !(
                node is Text && specifiers_outcome(node->Text_0) is Ok),
            }
        }),
{
}

/// The runtime dependencies are the strings under `dependencies` of
/// `[project]`, in order; none where nothing stands there.
pub proof fn runtime_dependencies_are_read(t: Seq<char>)
    ensures
        ({
            let node = toml_at(
                t,
                seq![PathStepView::Key("project"@), PathStepView::Key("dependencies"@)],
            );
            match dependencies_field(t) {
                Ok(list) => (node is Absent && list.len() == 0) || (node is Array && list.len()
                    == node->Array_0.len() && forall|i: int|
                    0 <= i < list.len() ==> #[trigger] node->Array_0[i] == Some(list[i])),
                Err(field) => !(node is Absent) && (node is Array ==> exists|i: int|
                    0 <= i < node->Array_0.len() && (#[trigger] node->Array_0[i]) is None),
            }
        }),
{
    let node = toml_at(t, keys2("project"@, "dependencies"@));
    if node is Array {
        strings_are_read_in_place(node->Array_0, "project.dependencies"@);
    }
}

/// Whether the extras are those under the keys: each under its normalized
/// name, in order, with the strings of its list, in order.
pub open spec fn are_extras(
    t: Seq<char>,
    keys: Seq<Seq<char>>,
    found: TableView<Seq<Seq<char>>>,
) -> bool {
    &&& found.keys.len() == keys.len()
    &&& found.items.len() == keys.len()
    &&& forall|i: int|
        #![trigger keys[i]]
        0 <= i < keys.len() ==> {
            let node = toml_at(
                t,
                seq![
                    PathStepView::Key("project"@),
                    PathStepView::Key("optional-dependencies"@),
                    PathStepView::Key(keys[i]),
                ],
            );
            &&& is_name(keys[i])
            &&& found.keys[i] == normalized(keys[i])
            &&& node is Array
            &&& node->Array_0.len() == found.items[i].len()
            &&& forall|j: int|
                0 <= j < found.items[i].len() ==> #[trigger] node->Array_0[j] == Some(
                    found.items[i][j],
                )
        }
    &&& forall|i: int, j: int|
        0 <= i < j < keys.len() ==> normalized(#[trigger] keys[i]) != normalized(#[trigger] keys[j])
}

/// Extras are read exactly as they stand under their keys; keys that are no
/// names, that are the same once normalized, or that hold anything but a
/// list of strings are errors.
pub proof fn extras_are_read_as_they_stand(t: Seq<char>, keys: Seq<Seq<char>>)
    ensures
        extras_of(t, keys) is Ok ==> are_extras(t, keys, extras_of(t, keys)->Ok_0),
        (exists|found: TableView<Seq<Seq<char>>>| are_extras(t, keys, found)) ==> extras_of(t, keys)
            is Ok,
    decreases keys.len(),
{
    if keys.len() > 0 {
        let front = keys.drop_last();
        let key = keys.last();
        extras_are_read_as_they_stand(t, front);
        assert(keys[keys.len() - 1] == key);
        let path = "project.optional-dependencies."@ + key;
        let node = toml_at(t, keys3("project"@, "optional-dependencies"@, key));
        if node is Array {
            strings_are_read_in_place(node->Array_0, path);
        }
        if extras_of(t, keys) is Ok {
            let before = extras_of(t, front)->Ok_0;
            let found = extras_of(t, keys)->Ok_0;
            assert forall|i: int| #![trigger keys[i]] 0 <= i < keys.len() implies ({
                let node = toml_at(
                    t,
                    seq![
                        PathStepView::Key("project"@),
                        PathStepView::Key("optional-dependencies"@),
                        PathStepView::Key(keys[i]),
                    ],
                );
                &&& is_name(keys[i])
                &&& found.keys[i] == normalized(keys[i])
                &&& node is Array
                &&& node->Array_0.len() == found.items[i].len()
                &&& forall|j: int|
                    0 <= j < found.items[i].len() ==> #[trigger] node->Array_0[j] == Some(
                        found.items[i][j],
                    )
            }) by {
                if i < front.len() {
                    assert(front[i] == keys[i]);
                    assert(found.items[i] == before.items[i]);
                }
            }
            assert forall|i: int, j: int| 0 <= i < j < keys.len() implies normalized(
                #[trigger] keys[i],
            ) != normalized(#[trigger] keys[j]) by {
                assert(front[i] == keys[i]);
                if j < front.len() {
                    assert(front[j] == keys[j]);
                } else {
                    assert(before.keys[i] == normalized(keys[i]));
                    assert(!before.has(normalized(key)));
                }
            }
        }
        if exists|found: TableView<Seq<Seq<char>>>| are_extras(t, keys, found) {
            let found = choose|found: TableView<Seq<Seq<char>>>| are_extras(t, keys, found);
            let less = TableView { keys: found.keys.drop_last(), items: found.items.drop_last() };
            assert forall|i: int| #![trigger front[i]] 0 <= i < front.len() implies ({
                let node = toml_at(
                    t,
                    seq![
                        PathStepView::Key("project"@),
                        PathStepView::Key("optional-dependencies"@),
                        PathStepView::Key(front[i]),
                    ],
                );
                &&& is_name(front[i])
                &&& less.keys[i] == normalized(front[i])
                &&& node is Array
                &&& node->Array_0.len() == less.items[i].len()
                &&& forall|j: int|
                    0 <= j < less.items[i].len() ==> #[trigger] node->Array_0[j] == Some(
                        less.items[i][j],
                    )
            }) by {
                assert(keys[i] == front[i]);
                assert(less.items[i] == found.items[i]);
            }
            assert forall|i: int, j: int| 0 <= i < j < front.len() implies normalized(
                #[trigger] front[i],
            ) != normalized(#[trigger] front[j]) by {
                assert(keys[i] == front[i] && keys[j] == front[j]);
            }
            assert(are_extras(t, front, less));
            let before = extras_of(t, front)->Ok_0;
            assert(!before.has(normalized(key))) by {
                if before.has(normalized(key)) {
                    let i = before.keys.index_of(normalized(key));
                    assert(front[i] == keys[i]);
                    assert(before.keys[i] == normalized(front[i]));
                    assert(normalized(keys[i]) != normalized(keys[keys.len() - 1]));
                }
            }
            assert(is_name(keys[keys.len() - 1]));
        }
    } else {
        assert(are_extras(t, keys, TableView::empty()));
    }
}

/// Every requirement of a document is read, in order: the runtime ones, then
/// those of each extra, then the strings of each group; references are not.
/// The same holds of its match specs.
pub proof fn texts_stand_in_order(
    lists: Seq<Seq<Seq<char>>>,
    list: Seq<Seq<char>>,
    slots: Seq<SlotView>,
    slot: SlotView,
    groups: Seq<Seq<SlotView>>,
    s: SectionsView,
)
    ensures
        all_texts(Seq::empty()).len() == 0,
        all_texts(lists.push(list)) == all_texts(lists) + list,
        slot_texts(Seq::empty()).len() == 0,
        slot_texts(slots.push(slot)) == if slot is Requirement {
            slot_texts(slots).push(slot->Requirement_0)
        } else {
            slot_texts(slots)
        },
        all_slot_texts(Seq::empty()).len() == 0,
        all_slot_texts(groups.push(slots)) == all_slot_texts(groups) + slot_texts(slots),
        s.runtime.is_prefix_of(requirement_texts(s)),
        requirement_texts(s).len() == s.runtime.len() + all_texts(s.extras.items).len()
            + all_slot_texts(s.groups.items).len(),
        requirement_texts(s).skip(s.runtime.len() as int) == all_texts(s.extras.items)
            + all_slot_texts(s.groups.items),
        s.matchspecs.is_prefix_of(spec_texts(s)),
        spec_texts(s).skip(s.matchspecs.len() as int) == all_slot_texts(s.matchspec_groups.items),
{
    assert(lists.push(list).drop_last() =~= lists);
    assert(slots.push(slot).drop_last() =~= slots);
    assert(groups.push(slots).drop_last() =~= groups);
    assert(requirement_texts(s).skip(s.runtime.len() as int) =~= all_texts(s.extras.items)
        + all_slot_texts(s.groups.items));
    assert(spec_texts(s).skip(s.matchspecs.len() as int) =~= all_slot_texts(
        s.matchspec_groups.items,
    ));
}

/// An entry of a group is a string, which is a requirement, or a table with
/// `include-group` alone, which refers to the group of that name, normalized;
/// anything else is an error at the place of the entry.
pub proof fn group_entries_are_read(
    t: Seq<char>,
    table: GroupTable,
    key: Seq<char>,
    i: int,
    item: Option<Seq<char>>,
)
    ensures
        ({
            let place = (if table is Requirements {
                seq![PathStepView::Key("dependency-groups"@)]
            } else {
                seq![
                    PathStepView::Key("tool"@),
                    PathStepView::Key("ana"@),
                    PathStepView::Key("matchspec-dependency-groups"@),
                ]
            }).push(PathStepView::Key(key)).push(PathStepView::Index(i));
            let node = toml_at(t, place);
            let inner = toml_at(t, place.push(PathStepView::Key("include-group"@)));
            let refers = item is None && node is Table && node->Table_0 == seq!["include-group"@]
                && inner is Text && is_name(inner->Text_0);
            match slot_of(t, table, key, i, item) {
                Ok(SlotView::Requirement(text)) => item == Some(text),
                Ok(SlotView::Include(name)) => refers && name == normalized(inner->Text_0),
                Err(field) => item is None && !refers,
            }
        }),
{
}

/// The entries of a group are read one by one, each in its place.
pub proof fn groups_are_read_entry_by_entry(
    t: Seq<char>,
    table: GroupTable,
    key: Seq<char>,
    items: Seq<Option<Seq<char>>>,
)
    ensures
        match slots_of(t, table, key, items) {
            Ok(slots) => slots.len() == items.len() && forall|i: int|
                0 <= i < items.len() ==> slot_of(t, table, key, i, #[trigger] items[i]) == Ok::<
                    SlotView,
                    FieldView,
                >(slots[i]),
            Err(field) => exists|i: int|
                0 <= i < items.len() && slot_of(t, table, key, i, #[trigger] items[i]) == Err::<
                    SlotView,
                    FieldView,
                >(field),
        },
    decreases items.len(),
{
    if items.len() > 0 {
        let front = items.drop_last();
        groups_are_read_entry_by_entry(t, table, key, front);
        assert(items[items.len() - 1] == items.last());
        match slots_of(t, table, key, front) {
            Ok(before) => {
                assert forall|i: int| 0 <= i < front.len() implies slot_of(
                    t,
                    table,
                    key,
                    i,
                    #[trigger] items[i],
                ) == Ok::<SlotView, FieldView>(before[i]) by {
                    assert(front[i] == items[i]);
                }
            },
            Err(field) => {
                let i = choose|i: int|
                    0 <= i < front.len() && slot_of(t, table, key, i, #[trigger] front[i]) == Err::<
                        SlotView,
                        FieldView,
                    >(field);
                assert(items[i] == front[i]);
            },
        }
    }
}

/// A group is read under its normalized name, behind those before it; a key
/// that is no name, that is one of those before it once normalized, or that
/// holds anything but a list of entries is an error.
pub proof fn group_is_read_under_its_name(
    t: Seq<char>,
    table: GroupTable,
    before: TableView<Seq<SlotView>>,
    key: Seq<char>,
)
    ensures
        ({
            let place = (if table is Requirements {
                seq![PathStepView::Key("dependency-groups"@)]
            } else {
                seq![
                    PathStepView::Key("tool"@),
                    PathStepView::Key("ana"@),
                    PathStepView::Key("matchspec-dependency-groups"@),
                ]
            }).push(PathStepView::Key(key));
            let node = toml_at(t, place);
            let sound = is_name(key) && !before.keys.contains(normalized(key)) && node is Array
                && slots_of(t, table, key, node->Array_0) is Ok;
            match with_group(t, table, before, key) {
                Ok(after) => sound && after.keys == before.keys.push(normalized(key))
                    && after.items == before.items.push(
                    slots_of(t, table, key, node->Array_0)->Ok_0,
                ),
                Err(_) => !sound,
            }
        }),
{
}

/// The groups of a table are read key by key, in order.
pub proof fn groups_are_read_key_by_key(
    t: Seq<char>,
    table: GroupTable,
    keys: Seq<Seq<char>>,
    key: Seq<char>,
)
    ensures
        groups_of(t, table, Seq::empty()) == Ok::<TableView<Seq<SlotView>>, FieldView>(
            TableView { keys: Seq::empty(), items: Seq::empty() },
        ),
        groups_of(t, table, keys.push(key)) == match groups_of(t, table, keys) {
            Ok(before) => with_group(t, table, before, key),
            Err(field) => Err(field),
        },
        ({
            let node = toml_at(
                t,
                if table is Requirements {
                    seq![PathStepView::Key("dependency-groups"@)]
                } else {
                    seq![
                        PathStepView::Key("tool"@),
                        PathStepView::Key("ana"@),
                        PathStepView::Key("matchspec-dependency-groups"@),
                    ]
                },
            );
            &&& node is Absent ==> groups_field(t, table) is Ok && groups_field(
                t,
                table,
            )->Ok_0.keys.len() == 0
            &&& node is Table ==> groups_field(t, table) == groups_of(t, table, node->Table_0)
            &&& !(node is Absent) && !(node is Table) ==> groups_field(t, table) is Err
        }),
{
    assert(keys.push(key).drop_last() =~= keys);
}

/// A document has sections exactly where it is TOML with a `[project]` table
/// and every field in it is in order; they are what the fields say.
pub proof fn sections_are_the_fields(t: Seq<char>)
    ensures
        ({
            let sound = toml_error(t) is None && toml_at(t, seq![PathStepView::Key("project"@)])
                is Table && name_field(t) is Ok && !dynamic_rejected(t) && !is_legacy_poetry(t)
                && requires_python_field(t) is Ok && channels_field(t) is Ok && dependencies_field(
                t,
            ) is Ok && extras_field(t) is Ok && groups_field(t, GroupTable::Requirements) is Ok
                && matchspecs_field(t) is Ok && groups_field(t, GroupTable::Matchspecs) is Ok;
            match sections_of(t) {
                Ok(s) => {
                    &&& sound
                    &&& name_field(t)->Ok_0 == s.name
                    &&& requires_python_field(t)->Ok_0 == s.requires_python
                    &&& channels_field(t)->Ok_0 == s.channels
                    &&& dependencies_field(t)->Ok_0 == s.runtime
                    &&& extras_field(t)->Ok_0 == s.extras
                    &&& groups_field(t, GroupTable::Requirements)->Ok_0 == s.groups
                    &&& matchspecs_field(t)->Ok_0 == s.matchspecs
                    &&& groups_field(t, GroupTable::Matchspecs)->Ok_0 == s.matchspec_groups
                },
                Err(_) => !sound,
            }
        }),
        ({
            let node = toml_at(
                t,
                seq![PathStepView::Key("project"@), PathStepView::Key("optional-dependencies"@)],
            );
            &&& node is Absent ==> extras_field(t) is Ok && extras_field(t)->Ok_0.keys.len() == 0
            &&& node is Table ==> extras_field(t) == extras_of(t, node->Table_0)
            &&& !(node is Absent) && !(node is Table) ==> extras_field(t) is Err
        }),
{
}

/// A field that is wrong is reported under its own path, with the reason
/// where there is one to give.
pub proof fn wrong_fields_say_where_and_why(t: Seq<char>)
    ensures
        ({
            let name = toml_at(t, seq![PathStepView::Key("project"@), PathStepView::Key("name"@)]);
            let python = toml_at(
                t,
                seq![PathStepView::Key("project"@), PathStepView::Key("requires-python"@)],
            );
            let listed = toml_at(
                t,
                seq![PathStepView::Key("project"@), PathStepView::Key("dependencies"@)],
            );
            let extras = toml_at(
                t,
                seq![PathStepView::Key("project"@), PathStepView::Key("optional-dependencies"@)],
            );
            &&& name is Text && name->Text_0.len() == 0 ==> name_field(t) == Err::<
                Seq<char>,
                FieldView,
            >(
                FieldView {
                    path: "project.name"@,
                    description: Some("project name must not be empty"@),
                },
            )
            &&& name is Text && name->Text_0.len() > 0 && !is_name(name->Text_0) ==> name_field(t)
                == Err::<Seq<char>, FieldView>(
                FieldView {
                    path: "project.name"@,
                    description: Some(name_outcome(name->Text_0)->Err_0),
                },
            )
            &&& !(name is Text) ==> name_field(t) == Err::<Seq<char>, FieldView>(
                FieldView { path: "project.name"@, description: None },
            )
            &&& python is Text && specifiers_outcome(python->Text_0) is Err
                ==> requires_python_field(t) == Err::<Option<Seq<SpecifierView>>, FieldView>(
                FieldView {
                    path: "project.requires-python"@,
                    description: Some(specifiers_outcome(python->Text_0)->Err_0),
                },
            )
            &&& !(python is Text) && !(python is Absent) ==> requires_python_field(t) == Err::<
                Option<Seq<SpecifierView>>,
                FieldView,
            >(FieldView { path: "project.requires-python"@, description: None })
            &&& !(listed is Array) && !(listed is Absent) ==> dependencies_field(t) == Err::<
                Seq<Seq<char>>,
                FieldView,
            >(FieldView { path: "project.dependencies"@, description: None })
            &&& listed is Array ==> dependencies_field(t) == strings_of(
                listed->Array_0,
                "project.dependencies"@,
            )
            &&& extras is Absent ==> extras_field(t) is Ok && extras_field(t)->Ok_0.keys.len() == 0
            &&& extras is Table ==> extras_field(t) == extras_of(t, extras->Table_0)
            &&& !(extras is Table) && !(extras is Absent) ==> extras_field(t) == Err::<
                TableView<Seq<Seq<char>>>,
                FieldView,
            >(FieldView { path: "project.optional-dependencies"@, description: None })
        }),
{
}

/// An extra that is wrong is reported under its own path: with the reason
/// where its key is no name, as a duplicate of the table where its name is
/// there already, and with the place of the first entry that is no string.
pub proof fn wrong_extras_say_where_and_why(
    t: Seq<char>,
    before: TableView<Seq<Seq<char>>>,
    key: Seq<char>,
)
    ensures
        ({
            let path = "project.optional-dependencies."@ + key;
            let node = toml_at(
                t,
                seq![
                    PathStepView::Key("project"@),
                    PathStepView::Key("optional-dependencies"@),
                    PathStepView::Key(key),
                ],
            );
            let found = with_extra(t, before, key);
            &&& !is_name(key) ==> found == Err::<TableView<Seq<Seq<char>>>, FieldView>(
                FieldView { path, description: Some(name_outcome(key)->Err_0) },
            )
            &&& is_name(key) && before.keys.contains(normalized(key)) ==> found == Err::<
                TableView<Seq<Seq<char>>>,
                FieldView,
            >(
                FieldView {
                    path: "project.optional-dependencies"@,
                    description: Some("duplicate extra name `"@ + normalized(key) + "`"@),
                },
            )
            &&& is_name(key) && !before.keys.contains(normalized(key)) && !(node is Array)
                ==> found == Err::<TableView<Seq<Seq<char>>>, FieldView>(
                FieldView { path, description: None },
            )
            &&& is_name(key) && !before.keys.contains(normalized(key)) && node is Array
                && strings_of(node->Array_0, path) is Err ==> found == Err::<
                TableView<Seq<Seq<char>>>,
                FieldView,
            >(strings_of(node->Array_0, path)->Err_0)
        }),
{
}

/// A group that is wrong is reported under its own path: with the reason
/// where its key is no name, as a duplicate of the table where its name is
/// there already, and with the place of an entry that is wrong, and the
/// reason where that refers to what is no name.
pub proof fn wrong_groups_say_where_and_why(
    t: Seq<char>,
    table: GroupTable,
    before: TableView<Seq<SlotView>>,
    key: Seq<char>,
    i: nat,
)
    ensures
        ({
            let place = if table is Requirements {
                "dependency-groups"@
            } else {
                "tool.ana.matchspec-dependency-groups"@
            };
            let path = place + "."@ + key;
            let steps = (if table is Requirements {
                seq![PathStepView::Key("dependency-groups"@)]
            } else {
                seq![
                    PathStepView::Key("tool"@),
                    PathStepView::Key("ana"@),
                    PathStepView::Key("matchspec-dependency-groups"@),
                ]
            }).push(PathStepView::Key(key));
            let node = toml_at(t, steps);
            let entry = toml_at(t, steps.push(PathStepView::Index(i as int)));
            let inner = toml_at(
                t,
                steps.push(PathStepView::Index(i as int)).push(PathStepView::Key("include-group"@)),
            );
            let found = with_group(t, table, before, key);
            let slot = slot_of(t, table, key, i as int, None);
            let reference = entry is Table && entry->Table_0 == seq!["include-group"@] && inner
                is Text;
            &&& !is_name(key) ==> found == Err::<TableView<Seq<SlotView>>, FieldView>(
                FieldView { path, description: Some(name_outcome(key)->Err_0) },
            )
            &&& is_name(key) && before.keys.contains(normalized(key)) ==> found == Err::<
                TableView<Seq<SlotView>>,
                FieldView,
            >(
                FieldView {
                    path: place,
                    description: Some("duplicate group name `"@ + normalized(key) + "`"@),
                },
            )
            &&& is_name(key) && !before.keys.contains(normalized(key)) && !(node is Array)
                ==> found == Err::<TableView<Seq<SlotView>>, FieldView>(
                FieldView { path, description: None },
            )
            &&& is_name(key) && !before.keys.contains(normalized(key)) && node is Array && slots_of(
                t,
                table,
                key,
                node->Array_0,
            ) is Err ==> found == Err::<TableView<Seq<SlotView>>, FieldView>(
                slots_of(t, table, key, node->Array_0)->Err_0,
            )
            &&& slot is Err ==> slot->Err_0.path == path + "["@ + crate::text::decimal(i) + "]"@
            &&& !reference ==> slot is Err && slot->Err_0.description is None
            &&& reference && !is_name(inner->Text_0) ==> slot is Err && slot->Err_0.description
                == Some(name_outcome(inner->Text_0)->Err_0)
        }),
{
}

/// Of the fields of a document the first that is wrong is reported: the
/// document itself, the table `project`, its name, what is dynamic, the
/// dependencies of another tool, the Python versions, the channels, the
/// dependencies, the extras, the groups, the match specs and their groups, in
/// that order.
pub proof fn first_wrong_field_is_reported(t: Seq<char>)
    ensures
        ({
            let whole = toml_error(t) is None;
            let table = whole && toml_at(t, seq![PathStepView::Key("project"@)]) is Table;
            let named = table && name_field(t) is Ok;
            let fixed = named && !dynamic_rejected(t);
            let own = fixed && !is_legacy_poetry(t);
            let python = own && requires_python_field(t) is Ok;
            let channels = python && channels_field(t) is Ok;
            let listed = channels && dependencies_field(t) is Ok;
            let extras = listed && extras_field(t) is Ok;
            let groups = extras && groups_field(t, GroupTable::Requirements) is Ok;
            let specs = groups && matchspecs_field(t) is Ok;
            let found = sections_of(t);
            &&& !whole ==> found is Err && found->Err_0.path.len() == 0
                && found->Err_0.description == toml_error(t)
            &&& whole && !table ==> found == Err::<SectionsView, FieldView>(
                FieldView { path: "project"@, description: None },
            )
            &&& table && !named ==> found == Err::<SectionsView, FieldView>(name_field(t)->Err_0)
            &&& named && !fixed ==> found == Err::<SectionsView, FieldView>(
                FieldView { path: "project.dynamic"@, description: None },
            )
            &&& fixed && !own ==> found == Err::<SectionsView, FieldView>(
                FieldView { path: "tool.poetry.dependencies"@, description: None },
            )
            &&& own && !python ==> found == Err::<SectionsView, FieldView>(
                requires_python_field(t)->Err_0,
            )
            &&& python && !channels ==> found == Err::<SectionsView, FieldView>(
                channels_field(t)->Err_0,
            )
            &&& channels && !listed ==> found == Err::<SectionsView, FieldView>(
                dependencies_field(t)->Err_0,
            )
            &&& listed && !extras ==> found == Err::<SectionsView, FieldView>(
                extras_field(t)->Err_0,
            )
            &&& extras && !groups ==> found == Err::<SectionsView, FieldView>(
                groups_field(t, GroupTable::Requirements)->Err_0,
            )
            &&& groups && !specs ==> found == Err::<SectionsView, FieldView>(
                matchspecs_field(t)->Err_0,
            )
            &&& specs && groups_field(t, GroupTable::Matchspecs) is Err ==> found == Err::<
                SectionsView,
                FieldView,
            >(groups_field(t, GroupTable::Matchspecs)->Err_0)
        }),
{
    reveal_strlit("");
}

} // verus!
