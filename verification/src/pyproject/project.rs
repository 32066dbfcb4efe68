//! Reads a `pyproject.toml`: the project's name, the Python versions it
//! supports, the channels it asks for and its requirements.
//!
//! Structural checks come first, and the first that fails is the error.
//! Once all of them have passed, every requirement is read, and every one
//! that is invalid is reported.

use crate::conda::{read_specs, specs_are_read, DeclaredSpec, SpecReadView};
use crate::data::{append_all, views, Duplicate};
use crate::dependency::{Dependency, DependencyView};
use crate::fields::{
    element, element_path, explained, failures, failures_add, field_text, FieldView, InvalidField,
};
use crate::pep440::{outcome, read_views, Specifier};
use crate::pep508::{are_read, read_all, ReadView, Requirement, RequirementView};
use crate::pyproject::resolution::{
    as_dependencies, declared_by, failure_text, is_expansion, push_requirements, resolution, resolve,
    Declared, DependencyGroupSpecifier, Done, FailureView, GroupEntryView, ResolvedView, Section,
};
use crate::pyproject::sections::{
    all_slot_texts, all_texts, group_path, read_sections, requirement_texts, sections_of, slot_texts, spec_texts, GroupSlot, GroupTable,
    Sections, SectionsView, SlotView,
};
use crate::table::{Table, TableView};
use crate::text::concat;
use vstd::prelude::*;
use vstd::string::*;

verus! {

/// Every invalid field found in one `pyproject.toml`; at least one. There
/// is exactly one where a structural check or the resolution failed;
/// otherwise each is a requirement that could not be read.
#[derive(Debug)]
pub struct PyprojectError {
    fields: Vec<InvalidField>,
}

/// The fields of an error as they are shown, each on its own line.
pub open spec fn fields_text(fields: Seq<FieldView>) -> Seq<char>
    decreases fields.len(),
{
    if fields.len() == 0 {
        "invalid pyproject.toml:\n"@
    } else {
        fields_text(fields.drop_last()) + "  "@ + field_text(fields.last()) + "\n"@
    }
}

impl PyprojectError {
    /// The invalid fields.
    pub closed spec fn view_fields(&self) -> Seq<FieldView> {
        self.fields.deep_view()
    }

    fn new(fields: Vec<InvalidField>) -> (r: PyprojectError)
        ensures
            r.view_fields() == fields.deep_view(),
    {
        PyprojectError { fields }
    }

    fn one(field: InvalidField) -> (r: PyprojectError)
        ensures
            r.view_fields() == seq![field.deep_view()],
    {
        let mut fields: Vec<InvalidField> = Vec::new();
        fields.push(field);
        assert(fields.deep_view() =~= seq![field.deep_view()]);
        PyprojectError { fields }
    }

    /// The invalid fields, in document order.
    pub fn fields(&self) -> (r: &Vec<InvalidField>)
        ensures
            r.deep_view() == self.view_fields(),
    {
        &self.fields
    }

    /// How the error is shown.
    pub fn to_string(&self) -> (r: String)
        ensures
            r@ == fields_text(self.view_fields()),
    {
        let ghost all = self.fields.deep_view();
        let mut out = "invalid pyproject.toml:\n".to_owned();
        let mut i: usize = 0;
        while i < self.fields.len()
            invariant
                i <= self.fields.len(),
                all == self.fields.deep_view(),
                out@ == fields_text(all.take(i as int)),
            decreases self.fields.len() - i,
        {
            assert(all.take(i + 1).drop_last() =~= all.take(i as int));
            assert(all.take(i + 1).last() == self.fields@[i as int].deep_view());
            let one = self.fields[i].to_string();
            out.append("  ");
            out.append(one.as_str());
            out.append("\n");
            i += 1;
        }
        assert(all.take(i as int) =~= all);
        out
    }
}

/// The outcome at a position; past the end, an error.
pub open spec fn pick<T>(outcomes: Seq<Result<T, Seq<char>>>, i: int) -> Result<T, Seq<char>> {
    if 0 <= i < outcomes.len() {
        outcomes[i]
    } else {
        Err("internal error: ran out of parsed requirements"@)
    }
}

/// Whether an index stands for a position; positions past the largest index
/// are all taken for that one.
spec fn stands_for(i: usize, p: int) -> bool {
    i == p || (i == usize::MAX && p >= usize::MAX)
}

fn next_parsed<T: Duplicate>(
    outcomes: &Vec<Result<T, String>>,
    i: usize,
    Ghost(p): Ghost<int>,
) -> (r: Result<T, String>)
    requires
        stands_for(i, p),
    ensures
        outcome(r) == pick(read_views(outcomes@), p),
{
    if i < outcomes.len() {
        match &outcomes[i] {
            Ok(requirement) => Ok(requirement.duplicate()),
            Err(message) => Err(message.clone()),
        }
    } else {
        Err("internal error: ran out of parsed requirements".to_owned())
    }
}

/// What was read from position `base` on, and the fields of what could not
/// be read; `path` is the place of their list.
pub open spec fn gather<T>(
    outcomes: Seq<Result<T, Seq<char>>>,
    base: int,
    path: Seq<char>,
    n: nat,
) -> (Seq<T>, Seq<FieldView>)
    decreases n,
{
    if n == 0 {
        (Seq::empty(), Seq::empty())
    } else {
        let (list, errors) = gather(outcomes, base, path, (n - 1) as nat);
        match pick(outcomes, base + n - 1) {
            Ok(requirement) => (list.push(requirement), errors),
            Err(message) => (list, errors.push(explained(element(path, n - 1), message))),
        }
    }
}

/// Takes `n` outcomes from a position on.
fn gather_list<T: Duplicate>(
    outcomes: &Vec<Result<T, String>>,
    base: usize,
    path: &str,
    n: usize,
    errors: &mut Vec<InvalidField>,
    Ghost(p): Ghost<int>,
) -> (r: Vec<T>)
    requires
        stands_for(base, p),
    ensures
        r.deep_view() == gather(read_views(outcomes@), p, path@, n as nat).0,
        final(errors).deep_view() == old(errors).deep_view() + gather(
            read_views(outcomes@),
            p,
            path@,
            n as nat,
        ).1,
{
    let ghost before = errors.deep_view();
    let mut out: Vec<T> = Vec::new();
    let mut i: usize = 0;
    assert(out.deep_view() =~= Seq::empty());
    assert(errors.deep_view() =~= before + Seq::empty());
    while i < n
        invariant
            i <= n,
            stands_for(base, p),
            out.deep_view() == gather(read_views(outcomes@), p, path@, i as nat).0,
            errors.deep_view() == before + gather(read_views(outcomes@), p, path@, i as nat).1,
        decreases n - i,
    {
        let ghost seen = gather(read_views(outcomes@), p, path@, i as nat);
        match next_parsed(outcomes, base.saturating_add(i), Ghost(p + i)) {
            Ok(requirement) => {
                out.push(requirement);
                assert(out.deep_view() =~= seen.0.push(requirement.deep_view()));
            },
            Err(message) => {
                let field = InvalidField::explained(element_path(path, i), message);
                let ghost known = errors.deep_view();
                errors.push(field);
                assert(errors.deep_view() =~= known.push(field.deep_view()));
                assert(errors.deep_view() =~= before + seen.1.push(field.deep_view()));
            },
        }
        i += 1;
    }
    out
}

/// The extras read from position `base` on, the fields of the requirements
/// that could not be read, and the position after them.
pub open spec fn gather_extras(
    outcomes: Seq<ReadView>,
    base: int,
    extras: TableView<Seq<Seq<char>>>,
    n: nat,
) -> (TableView<Seq<RequirementView>>, Seq<FieldView>, int)
    decreases n,
{
    if n == 0 {
        (TableView::empty(), Seq::empty(), base)
    } else {
        let (table, errors, at) = gather_extras(outcomes, base, extras, (n - 1) as nat);
        let name = extras.keys[n - 1];
        let size = extras.items[n - 1].len();
        let (list, more) = gather(
            outcomes,
            at,
            "project.optional-dependencies."@ + name,
            size,
        );
        (table.with(name, list), errors + more, at + size)
    }
}

/// The entries of a group read from position `base` on, the fields of the
/// requirements that could not be read, and the position after them.
pub open spec fn gather_slots(
    outcomes: Seq<Result<DependencyView, Seq<char>>>,
    base: int,
    path: Seq<char>,
    slots: Seq<SlotView>,
) -> (Seq<GroupEntryView>, Seq<FieldView>, int)
    decreases slots.len(),
{
    if slots.len() == 0 {
        (Seq::empty(), Seq::empty(), base)
    } else {
        let (list, errors, at) = gather_slots(outcomes, base, path, slots.drop_last());
        match slots.last() {
            SlotView::Include(name) => (
                list.push(GroupEntryView::IncludeGroup(name)),
                errors,
                at,
            ),
            SlotView::Requirement(_) => match pick(outcomes, at) {
                Ok(dependency) => (
                    list.push(GroupEntryView::Dependency(dependency)),
                    errors,
                    at + 1,
                ),
                Err(message) => (
                    list,
                    errors.push(explained(element(path, slots.len() - 1), message)),
                    at + 1,
                ),
            },
        }
    }
}

/// The groups read from position `base` on, the fields of the requirements
/// that could not be read, and the position after them.
pub open spec fn gather_groups(
    outcomes: Seq<Result<DependencyView, Seq<char>>>,
    base: int,
    table: GroupTable,
    groups: TableView<Seq<SlotView>>,
    n: nat,
) -> (TableView<Seq<GroupEntryView>>, Seq<FieldView>, int)
    decreases n,
{
    if n == 0 {
        (TableView::empty(), Seq::empty(), base)
    } else {
        let (found, errors, at) = gather_groups(outcomes, base, table, groups, (n - 1) as nat);
        let name = groups.keys[n - 1];
        let (list, more, next) = gather_slots(
            outcomes,
            at,
            group_path(table, name),
            groups.items[n - 1],
        );
        (found.with(name, list), errors + more, next)
    }
}

/// Takes the outcomes of the entries of a group from a position on; gives
/// the entries and the index after them.
fn gather_entries(
    outcomes: &Vec<Result<Dependency, String>>,
    base: usize,
    path: &str,
    slots: &Vec<GroupSlot>,
    errors: &mut Vec<InvalidField>,
    Ghost(p): Ghost<int>,
) -> (r: (Vec<DependencyGroupSpecifier>, usize))
    requires
        stands_for(base, p),
    ensures
        r.0.deep_view() == gather_slots(read_views(outcomes@), p, path@, slots.deep_view()).0,
        final(errors).deep_view() == old(errors).deep_view() + gather_slots(
            read_views(outcomes@),
            p,
            path@,
            slots.deep_view(),
        ).1,
        stands_for(r.1, gather_slots(read_views(outcomes@), p, path@, slots.deep_view()).2),
{
    let ghost before = errors.deep_view();
    let ghost all = slots.deep_view();
    let ghost views = read_views(outcomes@);
    let mut out: Vec<DependencyGroupSpecifier> = Vec::new();
    let mut at: usize = base;
    let mut i: usize = 0;
    assert(out.deep_view() =~= Seq::empty());
    assert(errors.deep_view() =~= before + Seq::empty());
    while i < slots.len()
        invariant
            i <= slots.len(),
            all == slots.deep_view(),
            views == read_views(outcomes@),
            out.deep_view() == gather_slots(views, p, path@, all.take(i as int)).0,
            errors.deep_view() == before + gather_slots(views, p, path@, all.take(i as int)).1,
            stands_for(at, gather_slots(views, p, path@, all.take(i as int)).2),
        decreases slots.len() - i,
    {
        let ghost seen = gather_slots(views, p, path@, all.take(i as int));
        assert(all.take(i + 1).drop_last() =~= all.take(i as int));
        assert(all.take(i + 1).last() == slots@[i as int].deep_view());
        match &slots[i] {
            GroupSlot::Include(name) => {
                let entry = DependencyGroupSpecifier::IncludeGroup(name.clone());
                out.push(entry);
                assert(out.deep_view() =~= seen.0.push(entry.deep_view()));
            },
            GroupSlot::Requirement(_) => {
                match next_parsed(outcomes, at, Ghost(seen.2)) {
                    Ok(dependency) => {
                        let entry = DependencyGroupSpecifier::Dependency(dependency);
                        out.push(entry);
                        assert(out.deep_view() =~= seen.0.push(entry.deep_view()));
                    },
                    Err(message) => {
                        let field = InvalidField::explained(element_path(path, i), message);
                        let ghost known = errors.deep_view();
                        errors.push(field);
                        assert(errors.deep_view() =~= known.push(field.deep_view()));
                        assert(errors.deep_view() =~= before + seen.1.push(field.deep_view()));
                    },
                }
                at = at.saturating_add(1);
            },
        }
        i += 1;
    }
    assert(all.take(i as int) =~= all);
    (out, at)
}

/// Takes the outcomes of all extras from a position on; gives the extras
/// and the index after them.
fn gather_all_extras(
    outcomes: &Vec<Result<Requirement, String>>,
    base: usize,
    extras: &Table<Vec<String>>,
    errors: &mut Vec<InvalidField>,
) -> (r: (Table<Vec<Requirement>>, usize))
    ensures
        ({
            let (table, more, next) = gather_extras(
                read_views(outcomes@),
                base as int,
                extras.deep_view(),
                extras.deep_view().keys.len(),
            );
            &&& r.0.deep_view() == table
            &&& final(errors).deep_view() == old(errors).deep_view() + more
            &&& stands_for(r.1, next)
        }),
{
    let ghost before = errors.deep_view();
    let ghost v = extras.deep_view();
    let ghost views = read_views(outcomes@);
    let mut out: Table<Vec<Requirement>> = Table::new();
    let mut at: usize = base;
    let n: usize = extras.len();
    let mut i: usize = 0;
    assert(out.deep_view().items =~= Seq::empty());
    assert(errors.deep_view() =~= before + Seq::empty());
    while i < n
        invariant
            i <= n,
            v == extras.deep_view(),
            v.wf(),
            n == v.keys.len(),
            views == read_views(outcomes@),
            out.deep_view() == gather_extras(views, base as int, v, i as nat).0,
            out.deep_view().keys == v.keys.take(i as int),
            errors.deep_view() == before + gather_extras(views, base as int, v, i as nat).1,
            stands_for(at, gather_extras(views, base as int, v, i as nat).2),
        decreases n - i,
    {
        let ghost seen = gather_extras(views, base as int, v, i as nat);
        let name = extras.key(i);
        let list = extras.value(i);
        let path = concat("project.optional-dependencies.", name);
        let read = gather_list(outcomes, at, path.as_str(), list.len(), errors, Ghost(seen.2));
        proof {
            assert(v.items[i as int] == list.deep_view());
            if out.deep_view().has(name@) {
                let k = v.keys.take(i as int).index_of(name@);
                assert(v.keys[k] == name@);
            }
            let more = gather(views, seen.2, path@, list@.len()).1;
            assert(errors.deep_view() =~= before + (seen.1 + more));
        }
        out.insert(name.to_owned(), read);
        at = at.saturating_add(list.len());
        i += 1;
        assert(out.deep_view().keys =~= v.keys.take(i as int));
    }
    (out, at)
}

/// Takes the outcomes of all groups from a position on.
fn gather_all_groups(
    outcomes: &Vec<Result<Dependency, String>>,
    base: usize,
    table: GroupTable,
    groups: &Table<Vec<GroupSlot>>,
    errors: &mut Vec<InvalidField>,
    Ghost(p): Ghost<int>,
) -> (r: Table<Vec<DependencyGroupSpecifier>>)
    requires
        stands_for(base, p),
    ensures
        ({
            let (found, more, _) = gather_groups(
                read_views(outcomes@),
                p,
                table,
                groups.deep_view(),
                groups.deep_view().keys.len(),
            );
            &&& r.deep_view() == found
            &&& final(errors).deep_view() == old(errors).deep_view() + more
        }),
{
    let ghost before = errors.deep_view();
    let ghost v = groups.deep_view();
    let ghost views = read_views(outcomes@);
    let mut out: Table<Vec<DependencyGroupSpecifier>> = Table::new();
    let mut at: usize = base;
    let n: usize = groups.len();
    let mut i: usize = 0;
    assert(out.deep_view().items =~= Seq::empty());
    assert(errors.deep_view() =~= before + Seq::empty());
    while i < n
        invariant
            i <= n,
            v == groups.deep_view(),
            v.wf(),
            n == v.keys.len(),
            views == read_views(outcomes@),
            out.deep_view() == gather_groups(views, p, table, v, i as nat).0,
            out.deep_view().keys == v.keys.take(i as int),
            errors.deep_view() == before + gather_groups(views, p, table, v, i as nat).1,
            stands_for(at, gather_groups(views, p, table, v, i as nat).2),
        decreases n - i,
    {
        let ghost seen = gather_groups(views, p, table, v, i as nat);
        let name = groups.key(i);
        let slots = groups.value(i);
        let path = table.group_path(name);
        let (read, next) = gather_entries(
            outcomes,
            at,
            path.as_str(),
            slots,
            errors,
            Ghost(seen.2),
        );
        proof {
            assert(v.items[i as int] == slots.deep_view());
            if out.deep_view().has(name@) {
                let k = v.keys.take(i as int).index_of(name@);
                assert(v.keys[k] == name@);
            }
            let more = gather_slots(views, seen.2, path@, slots.deep_view()).1;
            assert(errors.deep_view() =~= before + (seen.1 + more));
        }
        out.insert(name.to_owned(), read);
        at = next;
        i += 1;
        assert(out.deep_view().keys =~= v.keys.take(i as int));
    }
    out
}

/// A project's requirements.
#[derive(Debug)]
pub struct ProjectRequirements {
    /// The mandatory dependencies: the dependency specifiers, then the match
    /// specs.
    pub runtime: Vec<Dependency>,
    /// The optional dependencies by extra, free of self-references.
    pub extras: Table<Vec<Requirement>>,
    /// The dependencies by group, free of references to other groups.
    pub groups: Table<Vec<Dependency>>,
}

/// The parts of a `pyproject.toml` that an environment is made from.
#[derive(Debug)]
pub struct Pyproject {
    /// The normalized name.
    pub name: String,
    /// The Python versions the project supports, if it says so.
    pub requires_python: Option<Vec<Specifier>>,
    /// The channels to solve with in place of the usual ones, if it names
    /// any.
    pub channels: Option<Vec<String>>,
    /// Runtime dependencies, extras and groups.
    pub requirements: ProjectRequirements,
}

/// What a project declares, as read.
pub struct ReadProject {
    pub runtime: Seq<DependencyView>,
    pub declared: Declared,
    pub errors: Seq<FieldView>,
}

/// What reading dependency specifiers gave, as dependencies.
pub open spec fn pep508_reads(reads: Seq<ReadView>) -> Seq<Result<DependencyView, Seq<char>>> {
    Seq::new(
        reads.len(),
        |i: int|
            match reads[i] {
                Ok(requirement) => Ok(DependencyView::Pep508(requirement)),
                Err(message) => Err(message),
            },
    )
}

/// What reading match specs gave, as dependencies.
pub open spec fn matchspec_reads(reads: Seq<SpecReadView>) -> Seq<
    Result<DependencyView, Seq<char>>,
> {
    Seq::new(
        reads.len(),
        |i: int|
            match reads[i] {
                Ok(spec) => Ok(DependencyView::Matchspec(spec)),
                Err(message) => Err(message),
            },
    )
}

fn as_pep508(reads: &Vec<Result<Requirement, String>>) -> (r: Vec<Result<Dependency, String>>)
    ensures
        read_views(r@) == pep508_reads(read_views(reads@)),
{
    let ghost all = pep508_reads(read_views(reads@));
    let mut out: Vec<Result<Dependency, String>> = Vec::new();
    let mut i: usize = 0;
    while i < reads.len()
        invariant
            i <= reads.len(),
            all == pep508_reads(read_views(reads@)),
            read_views(out@) =~= all.take(i as int),
        decreases reads.len() - i,
    {
        let one = match &reads[i] {
            Ok(requirement) => Ok(Dependency::Pep508(requirement.duplicate())),
            Err(message) => Err(message.clone()),
        };
        let ghost done = read_views(out@);
        assert(all[i as int] == outcome(one)) by {
            assert(read_views(reads@)[i as int] == outcome(reads@[i as int]));
        }
        out.push(one);
        i += 1;
        assert(read_views(out@) =~= done.push(outcome(one)));
        assert(read_views(out@) =~= all.take(i as int));
    }
    assert(all.take(i as int) =~= all);
    out
}

fn as_matchspecs(reads: &Vec<Result<DeclaredSpec, String>>) -> (r: Vec<Result<Dependency, String>>)
    ensures
        read_views(r@) == matchspec_reads(read_views(reads@)),
{
    let ghost all = matchspec_reads(read_views(reads@));
    let mut out: Vec<Result<Dependency, String>> = Vec::new();
    let mut i: usize = 0;
    while i < reads.len()
        invariant
            i <= reads.len(),
            all == matchspec_reads(read_views(reads@)),
            read_views(out@) =~= all.take(i as int),
        decreases reads.len() - i,
    {
        let one = match &reads[i] {
            Ok(spec) => Ok(Dependency::Matchspec(Box::new(spec.duplicate()))),
            Err(message) => Err(message.clone()),
        };
        let ghost done = read_views(out@);
        assert(all[i as int] == outcome(one)) by {
            assert(read_views(reads@)[i as int] == outcome(reads@[i as int]));
        }
        out.push(one);
        i += 1;
        assert(read_views(out@) =~= done.push(outcome(one)));
        assert(read_views(out@) =~= all.take(i as int));
    }
    assert(all.take(i as int) =~= all);
    out
}

/// A table of groups with the first `n` groups of another put behind: the
/// entries of a group that is there already follow those it has.
pub open spec fn merged(
    groups: TableView<Seq<GroupEntryView>>,
    more: TableView<Seq<GroupEntryView>>,
    n: nat,
) -> TableView<Seq<GroupEntryView>>
    decreases n,
{
    if n == 0 {
        groups
    } else {
        let before = merged(groups, more, (n - 1) as nat);
        let name = more.keys[n - 1];
        let list = more.items[n - 1];
        before.put(
            name,
            if before.has(name) {
                before.at(name) + list
            } else {
                list
            },
        )
    }
}

fn merge_groups(
    groups: Table<Vec<DependencyGroupSpecifier>>,
    more: &Table<Vec<DependencyGroupSpecifier>>,
) -> (r: Table<Vec<DependencyGroupSpecifier>>)
    ensures
        r.deep_view() == merged(
            groups.deep_view(),
            more.deep_view(),
            more.deep_view().keys.len(),
        ),
{
    let ghost first = groups.deep_view();
    let ghost v = more.deep_view();
    let mut out = groups;
    let n: usize = more.len();
    let mut i: usize = 0;
    while i < n
        invariant
            i <= n,
            v == more.deep_view(),
            v.wf(),
            n == v.keys.len(),
            out.deep_view() == merged(first, v, i as nat),
        decreases n - i,
    {
        let name = more.key(i);
        let list = more.value(i);
        let joined = match out.get(name) {
            Some(before) => {
                let mut joined = before.duplicate();
                append_all(&mut joined, list);
                assert(views(list@) =~= list.deep_view());
                joined
            },
            None => list.duplicate(),
        };
        out.put(name.to_owned(), joined);
        i += 1;
    }
    out
}

/// What the sections declare, given what reading their requirements and
/// match specs gave.
pub open spec fn read_project(
    s: SectionsView,
    outcomes: Seq<ReadView>,
    specs: Seq<SpecReadView>,
) -> ReadProject {
    let (runtime, first) = gather(outcomes, 0, "project.dependencies"@, s.runtime.len());
    let (extras, second, after) = gather_extras(
        outcomes,
        s.runtime.len() as int,
        s.extras,
        s.extras.keys.len(),
    );
    let (groups, third, _) = gather_groups(
        pep508_reads(outcomes),
        after,
        GroupTable::Requirements,
        s.groups,
        s.groups.keys.len(),
    );
    let (more, fourth) = gather(
        matchspec_reads(specs),
        0,
        "tool.ana.matchspec-dependencies"@,
        s.matchspecs.len(),
    );
    let (more_groups, fifth, _) = gather_groups(
        matchspec_reads(specs),
        s.matchspecs.len() as int,
        GroupTable::Matchspecs,
        s.matchspec_groups,
        s.matchspec_groups.keys.len(),
    );
    ReadProject {
        runtime: as_dependencies(runtime) + more,
        declared: Declared {
            name: Some(s.name),
            extras,
            groups: merged(groups, more_groups, more_groups.keys.len()),
        },
        errors: first + second + third + fourth + fifth,
    }
}

/// The place of a section.
pub open spec fn section_path(section: Section) -> Seq<char> {
    match section {
        Section::OptionalDependencies => "project.optional-dependencies"@,
        Section::DependencyGroups => "dependency-groups"@,
    }
}

/// Whether `r` is what the sections, and the outcomes of reading their
/// requirements and match specs, make: every one that could not be read,
/// else the failed resolution, else the project.
pub open spec fn is_assembled(
    s: SectionsView,
    outcomes: Seq<ReadView>,
    specs: Seq<SpecReadView>,
    r: Result<Pyproject, PyprojectError>,
) -> bool {
    let read = read_project(s, outcomes, specs);
    match r {
        Ok(project) => {
            let resolved = ResolvedView {
                extras: project.requirements.extras.deep_view(),
                groups: project.requirements.groups.deep_view(),
            };
            &&& read.errors.len() == 0
            &&& project.name@ == s.name
            &&& project.requires_python.deep_view() == s.requires_python
            &&& project.channels.deep_view() == s.channels
            &&& project.requirements.runtime.deep_view() == read.runtime
            &&& resolution(read.declared) == Ok::<Done, (FailureView, Section)>(resolved.done())
            &&& is_expansion(read.declared, resolved)
        },
        Err(error) => if read.errors.len() > 0 {
            error.view_fields() == read.errors
        } else {
            match resolution(read.declared) {
                Err((failure, section)) => error.view_fields() == seq![
                    explained(section_path(section), failure_text(failure)),
                ],
                Ok(_) => false,
            }
        },
    }
}

/// Puts a project together from its sections and what reading their
/// requirements and match specs gave, in the order of
/// [`Sections::requirement_texts`] and [`Sections::spec_texts`].
pub fn assemble(
    sections: Sections,
    outcomes: &Vec<Result<Requirement, String>>,
    specs: &Vec<Result<DeclaredSpec, String>>,
) -> (r: Result<Pyproject, PyprojectError>)
    ensures
        is_assembled(sections.deep_view(), read_views(outcomes@), read_views(specs@), r),
{
    let ghost s = sections.deep_view();
    let ghost seen = read_views(outcomes@);
    let ghost seen_specs = read_views(specs@);
    let ghost read = read_project(s, seen, seen_specs);
    let mut errors: Vec<InvalidField> = Vec::new();
    assert(errors.deep_view() =~= Seq::empty());
    let listed = gather_list(
        outcomes,
        0,
        "project.dependencies",
        sections.runtime.len(),
        &mut errors,
        Ghost(0),
    );
    let ghost first = errors.deep_view();
    assert(first =~= gather(seen, 0, "project.dependencies"@, s.runtime.len()).1);
    let (extras, at) = gather_all_extras(
        outcomes,
        sections.runtime.len(),
        &sections.extras,
        &mut errors,
    );
    let ghost after = gather_extras(
        seen,
        s.runtime.len() as int,
        s.extras,
        s.extras.keys.len(),
    ).2;
    let own_groups = gather_all_groups(
        &as_pep508(outcomes),
        at,
        GroupTable::Requirements,
        &sections.groups,
        &mut errors,
        Ghost(after),
    );
    let matchspecs = as_matchspecs(specs);
    let mut more = gather_list(
        &matchspecs,
        0,
        "tool.ana.matchspec-dependencies",
        sections.matchspecs.len(),
        &mut errors,
        Ghost(0),
    );
    let more_groups = gather_all_groups(
        &matchspecs,
        sections.matchspecs.len(),
        GroupTable::Matchspecs,
        &sections.matchspec_groups,
        &mut errors,
        Ghost(s.matchspecs.len() as int),
    );
    assert(errors.deep_view() =~= read.errors);
    if errors.len() > 0 {
        return Err(PyprojectError::new(errors));
    }
    let mut runtime: Vec<Dependency> = Vec::new();
    push_requirements(&mut runtime, listed);
    let ghost head = runtime.deep_view();
    let ghost tail = more.deep_view();
    runtime.append(&mut more);
    assert(runtime.deep_view() =~= head + tail);
    assert(runtime.deep_view() =~= read.runtime);
    let groups = merge_groups(own_groups, &more_groups);
    let name = sections.name;
    let own_name = name.as_str();
    assert(declared_by(Some(own_name), Some(&extras), Some(&groups)) == read.declared);
    match resolve(Some(own_name), Some(&extras), Some(&groups)) {
        Ok(resolved) => Ok(
            Pyproject {
                name,
                requires_python: sections.requires_python,
                channels: sections.channels,
                requirements: ProjectRequirements {
                    runtime,
                    extras: resolved.optional_dependencies,
                    groups: resolved.dependency_groups,
                },
            },
        ),
        Err(error) => {
            let path = match error.section() {
                Section::OptionalDependencies => "project.optional-dependencies",
                Section::DependencyGroups => "dependency-groups",
            };
            Err(
                PyprojectError::one(
                    InvalidField::explained(path.to_owned(), error.to_string()),
                ),
            )
        },
    }
}

impl Pyproject {
    /// Reads the text of a `pyproject.toml`.
    ///
    /// The first structural problem is the error; without one, every
    /// requirement and match spec that could not be read is; without any, a
    /// resolution that fails.
    pub fn parse(toml: &str) -> (r: Result<Pyproject, PyprojectError>)
        ensures
            match sections_of(toml@) {
                Err(field) => match r {
                    Ok(_) => false,
                    Err(error) => error.view_fields() == seq![field],
                },
                Ok(sections) => exists|outcomes: Seq<ReadView>, specs: Seq<SpecReadView>|
                    #![trigger read_project(sections, outcomes, specs)]
                    are_read(requirement_texts(sections), outcomes) && specs_are_read(
                        spec_texts(sections),
                        specs,
                    ) && is_assembled(sections, outcomes, specs, r),
            },
            r is Err ==> r->Err_0.view_fields().len() > 0,
    {
        match read_sections(toml) {
            Ok(sections) => {
                let texts = sections.requirement_texts();
                let outcomes = read_all(&texts);
                let more = sections.spec_texts();
                let specs = read_specs(&more);
                let ghost s = sections.deep_view();
                let r = assemble(sections, &outcomes, &specs);
                proof {
                    let seen = read_project(s, read_views(outcomes@), read_views(specs@));
                    assert(are_read(requirement_texts(s), read_views(outcomes@)));
                }
                r
            },
            Err(field) => Err(PyprojectError::one(field)),
        }
    }
}

proof fn gather_failures<T>(
    outcomes: Seq<Result<T, Seq<char>>>,
    base: int,
    path: Seq<char>,
    n: nat,
)
    requires
        0 <= base,
        base + n <= outcomes.len(),
    ensures
        gather(outcomes, base, path, n).1.len() == failures(outcomes.subrange(base, base + n)),
    decreases n,
{
    if n > 0 {
        gather_failures(outcomes, base, path, (n - 1) as nat);
        let part = outcomes.subrange(base, base + n);
        assert(part.drop_last() =~= outcomes.subrange(base, base + n - 1));
        assert(part.last() == pick(outcomes, base + n - 1));
    }
}

proof fn gather_extras_failures(
    outcomes: Seq<ReadView>,
    base: int,
    extras: TableView<Seq<Seq<char>>>,
    n: nat,
)
    requires
        0 <= base,
        n <= extras.items.len(),
        base + all_texts(extras.items.take(n as int)).len() <= outcomes.len(),
    ensures
        ({
            let (_, errors, at) = gather_extras(outcomes, base, extras, n);
            &&& at == base + all_texts(extras.items.take(n as int)).len()
            &&& errors.len() == failures(outcomes.subrange(base, at))
        }),
    decreases n,
{
    if n == 0 {
        assert(outcomes.subrange(base, base) =~= Seq::empty());
    } else {
        let front = extras.items.take(n as int);
        assert(front.drop_last() =~= extras.items.take(n - 1));
        gather_extras_failures(outcomes, base, extras, (n - 1) as nat);
        let at = gather_extras(outcomes, base, extras, (n - 1) as nat).2;
        let size = extras.items[n - 1].len();
        gather_failures(
            outcomes,
            at,
            "project.optional-dependencies."@ + extras.keys[n - 1],
            size,
        );
        failures_add(outcomes.subrange(base, at), outcomes.subrange(at, at + size));
        assert(outcomes.subrange(base, at) + outcomes.subrange(at, at + size)
            =~= outcomes.subrange(base, at + size));
    }
}

proof fn gather_slots_failures(
    outcomes: Seq<Result<DependencyView, Seq<char>>>,
    base: int,
    path: Seq<char>,
    slots: Seq<SlotView>,
)
    requires
        0 <= base,
        base + slot_texts(slots).len() <= outcomes.len(),
    ensures
        ({
            let (_, errors, at) = gather_slots(outcomes, base, path, slots);
            &&& at == base + slot_texts(slots).len()
            &&& errors.len() == failures(outcomes.subrange(base, at))
        }),
    decreases slots.len(),
{
    if slots.len() == 0 {
        assert(outcomes.subrange(base, base) =~= Seq::empty());
    } else {
        gather_slots_failures(outcomes, base, path, slots.drop_last());
        let at = gather_slots(outcomes, base, path, slots.drop_last()).2;
        if slots.last() is Requirement {
            let part = outcomes.subrange(base, at + 1);
            assert(part.drop_last() =~= outcomes.subrange(base, at));
            assert(part.last() == pick(outcomes, at));
        }
    }
}

proof fn gather_groups_failures(
    outcomes: Seq<Result<DependencyView, Seq<char>>>,
    base: int,
    table: GroupTable,
    groups: TableView<Seq<SlotView>>,
    n: nat,
)
    requires
        0 <= base,
        n <= groups.items.len(),
        base + all_slot_texts(groups.items.take(n as int)).len() <= outcomes.len(),
    ensures
        ({
            let (_, errors, at) = gather_groups(outcomes, base, table, groups, n);
            &&& at == base + all_slot_texts(groups.items.take(n as int)).len()
            &&& errors.len() == failures(outcomes.subrange(base, at))
        }),
    decreases n,
{
    if n == 0 {
        assert(outcomes.subrange(base, base) =~= Seq::empty());
    } else {
        let front = groups.items.take(n as int);
        assert(front.drop_last() =~= groups.items.take(n - 1));
        gather_groups_failures(outcomes, base, table, groups, (n - 1) as nat);
        let at = gather_groups(outcomes, base, table, groups, (n - 1) as nat).2;
        let slots = groups.items[n - 1];
        gather_slots_failures(outcomes, at, group_path(table, groups.keys[n - 1]), slots);
        let next = at + slot_texts(slots).len();
        failures_add(outcomes.subrange(base, at), outcomes.subrange(at, next));
        assert(outcomes.subrange(base, at) + outcomes.subrange(at, next) =~= outcomes.subrange(
            base,
            next,
        ));
    }
}

proof fn same_failures<A, B>(a: Seq<Result<A, Seq<char>>>, b: Seq<Result<B, Seq<char>>>)
    requires
        a.len() == b.len(),
        forall|i: int| 0 <= i < a.len() ==> (#[trigger] a[i] is Err <==> b[i] is Err),
    ensures
        failures(a) == failures(b),
    decreases a.len(),
{
    if a.len() > 0 {
        assert forall|i: int| 0 <= i < a.drop_last().len() implies (#[trigger] a.drop_last()[i]
            is Err <==> b.drop_last()[i] is Err) by {
            assert(a.drop_last()[i] == a[i]);
        }
        same_failures(a.drop_last(), b.drop_last());
        assert(a[a.len() - 1] is Err <==> b[b.len() - 1] is Err);
    }
}

/// Once the structure of a document has been found in order, every
/// requirement and match spec in it that could not be read is reported, each
/// once.
pub proof fn every_failure_is_reported(
    s: SectionsView,
    outcomes: Seq<ReadView>,
    specs: Seq<SpecReadView>,
)
    requires
        s.extras.wf(),
        s.groups.wf(),
        s.matchspec_groups.wf(),
        outcomes.len() == requirement_texts(s).len(),
        specs.len() == spec_texts(s).len(),
    ensures
        read_project(s, outcomes, specs).errors.len() == failures(outcomes) + failures(specs),
{
    let reads = pep508_reads(outcomes);
    let more = matchspec_reads(specs);
    let a = s.runtime.len() as int;
    let b = a + all_texts(s.extras.items).len();
    let c = outcomes.len() as int;
    let d = s.matchspecs.len() as int;
    assert(s.extras.items.take(s.extras.keys.len() as int) =~= s.extras.items);
    assert(s.groups.items.take(s.groups.keys.len() as int) =~= s.groups.items);
    assert(s.matchspec_groups.items.take(s.matchspec_groups.keys.len() as int)
        =~= s.matchspec_groups.items);
    gather_failures(outcomes, 0, "project.dependencies"@, s.runtime.len());
    gather_extras_failures(outcomes, a, s.extras, s.extras.keys.len());
    gather_groups_failures(
        reads,
        b,
        GroupTable::Requirements,
        s.groups,
        s.groups.keys.len(),
    );
    gather_failures(more, 0, "tool.ana.matchspec-dependencies"@, s.matchspecs.len());
    gather_groups_failures(
        more,
        d,
        GroupTable::Matchspecs,
        s.matchspec_groups,
        s.matchspec_groups.keys.len(),
    );
    same_failures(reads.subrange(b, c), outcomes.subrange(b, c));
    same_failures(more, specs);
    failures_add(outcomes.subrange(0, a), outcomes.subrange(a, b));
    failures_add(outcomes.subrange(0, a) + outcomes.subrange(a, b), outcomes.subrange(b, c));
    assert(outcomes.subrange(0, a) + outcomes.subrange(a, b) + outcomes.subrange(b, c)
        =~= outcomes);
    failures_add(more.subrange(0, d), more.subrange(d, more.len() as int));
    assert(more.subrange(0, d) + more.subrange(d, more.len() as int) =~= more);
}

/// What was read of a list is taken one by one: what could be read joins the
/// list, in order, and what could not is reported with its position in the
/// list and the reason.
pub proof fn lists_are_gathered_one_by_one<T>(
    outcomes: Seq<Result<T, Seq<char>>>,
    base: int,
    path: Seq<char>,
    n: nat,
)
    requires
        0 <= base,
        base + n < outcomes.len(),
    ensures
        gather(outcomes, base, path, 0).0.len() == 0,
        gather(outcomes, base, path, 0).1.len() == 0,
        ({
            let (list, errors) = gather(outcomes, base, path, n);
            let (after, more) = gather(outcomes, base, path, n + 1);
            match outcomes[base + n] {
                Ok(value) => after == list.push(value) && more == errors,
                Err(message) => after == list && more == errors.push(
                    FieldView {
                        path: path + "["@ + crate::text::decimal(n) + "]"@,
                        description: Some(message),
                    },
                ),
            }
        }),
{
}

/// The extras are gathered one after the other, each under its own name and
/// from where the one before it ended.
pub proof fn extras_are_gathered_in_turn(
    outcomes: Seq<ReadView>,
    base: int,
    extras: TableView<Seq<Seq<char>>>,
    n: nat,
)
    requires
        n < extras.keys.len(),
    ensures
        ({
            let (table, errors, at) = gather_extras(outcomes, base, extras, n);
            let (after, more, next) = gather_extras(outcomes, base, extras, n + 1);
            let (list, failed) = gather(
                outcomes,
                at,
                "project.optional-dependencies."@ + extras.keys[n as int],
                extras.items[n as int].len(),
            );
            &&& gather_extras(outcomes, base, extras, 0).2 == base
            &&& gather_extras(outcomes, base, extras, 0).0.keys.len() == 0
            &&& next == at + extras.items[n as int].len()
            &&& after.keys == table.keys.push(extras.keys[n as int])
            &&& after.items == table.items.push(list)
            &&& more == errors + failed
        }),
{
}

/// The entries of a group are gathered one by one: a reference stays, and a
/// string is what reading it gave, or is reported with its position.
pub proof fn slots_are_gathered_one_by_one(
    outcomes: Seq<Result<DependencyView, Seq<char>>>,
    base: int,
    path: Seq<char>,
    slots: Seq<SlotView>,
    slot: SlotView,
)
    ensures
        ({
            let (list, errors, at) = gather_slots(outcomes, base, path, slots);
            let (after, more, next) = gather_slots(outcomes, base, path, slots.push(slot));
            &&& gather_slots(outcomes, base, path, Seq::empty()).2 == base
            &&& match slot {
                SlotView::Include(name) => after == list.push(GroupEntryView::IncludeGroup(name))
                    && more == errors && next == at,
                SlotView::Requirement(_) => next == at + 1 && (0 <= at < outcomes.len()
                    ==> match outcomes[at] {
                    Ok(dependency) => after == list.push(GroupEntryView::Dependency(dependency))
                        && more == errors,
                    Err(message) => after == list && more == errors.push(
                        FieldView {
                            path: path + "["@ + crate::text::decimal(slots.len()) + "]"@,
                            description: Some(message),
                        },
                    ),
                }),
            }
        }),
{
    assert(slots.push(slot).drop_last() =~= slots);
}

/// The groups of a table are gathered one after the other, each under its
/// own name and from where the one before it ended.
pub proof fn groups_are_gathered_in_turn(
    outcomes: Seq<Result<DependencyView, Seq<char>>>,
    base: int,
    table: GroupTable,
    groups: TableView<Seq<SlotView>>,
    n: nat,
)
    requires
        n < groups.keys.len(),
    ensures
        ({
            let (found, errors, at) = gather_groups(outcomes, base, table, groups, n);
            let (after, more, next) = gather_groups(outcomes, base, table, groups, n + 1);
            let place = if table is Requirements {
                "dependency-groups"@
            } else {
                "tool.ana.matchspec-dependency-groups"@
            };
            let (list, failed, end) = gather_slots(
                outcomes,
                at,
                place + "."@ + groups.keys[n as int],
                groups.items[n as int],
            );
            &&& gather_groups(outcomes, base, table, groups, 0).2 == base
            &&& gather_groups(outcomes, base, table, groups, 0).0.keys.len() == 0
            &&& next == end
            &&& after.keys == found.keys.push(groups.keys[n as int])
            &&& after.items == found.items.push(list)
            &&& more == errors + failed
        }),
{
}

/// Merged groups hold what both tables do: the entries of the first, and
/// behind them those of the second under the same name.
pub proof fn merged_groups_hold_both(
    groups: TableView<Seq<GroupEntryView>>,
    more: TableView<Seq<GroupEntryView>>,
    n: nat,
    name: Seq<char>,
)
    requires
        groups.wf(),
        more.wf(),
        n <= more.keys.len(),
    ensures
        merged(groups, more, n).wf(),
        groups.keys.is_prefix_of(merged(groups, more, n).keys),
        merged(groups, more, n).keys.contains(name) <==> groups.keys.contains(name)
            || more.keys.take(n as int).contains(name),
        groups.keys.contains(name) && !more.keys.take(n as int).contains(name) ==> merged(
            groups,
            more,
            n,
        ).at(name) == groups.at(name),
        !groups.keys.contains(name) && more.keys.take(n as int).contains(name) ==> merged(
            groups,
            more,
            n,
        ).at(name) == more.at(name),
        groups.keys.contains(name) && more.keys.take(n as int).contains(name) ==> merged(
            groups,
            more,
            n,
        ).at(name) == groups.at(name) + more.at(name),
    decreases n,
{
    if n > 0 {
        let m = (n - 1) as nat;
        let key = more.keys[m as int];
        merged_groups_hold_both(groups, more, m, name);
        merged_groups_hold_both(groups, more, m, key);
        let before = merged(groups, more, m);
        let value = if before.has(key) {
            before.at(key) + more.items[m as int]
        } else {
            more.items[m as int]
        };
        crate::table::put_is_found(before, key, value, name);
        let front = more.keys.take(m as int);
        let longer = more.keys.take(n as int);
        assert(longer =~= front.push(key));
        assert(!front.contains(key)) by {
            if front.contains(key) {
                let i = front.index_of(key);
                assert(more.keys[i] == key && i != m);
            }
        }
        assert(more.keys.contains(key));
        assert(more.keys.index_of(key) == m);
        if name != key {
            if longer.contains(name) {
                let i = longer.index_of(name);
                assert(front[i] == name);
            }
            if front.contains(name) {
                let i = front.index_of(name);
                assert(longer[i] == name);
            }
        } else {
            assert(longer[m as int] == key);
        }
    } else {
        assert(more.keys.take(0) =~= Seq::empty());
    }
}

/// What a project declares: its runtime dependencies are the specifiers that
/// were read first and then the match specs that were; its extras and groups
/// are what was read behind them, match specs joining the groups; and every
/// failure is reported, those of specifiers before those of match specs.
pub proof fn project_is_put_together(
    s: SectionsView,
    outcomes: Seq<ReadView>,
    specs: Seq<SpecReadView>,
    i: int,
)
    ensures
        ({
            let read = read_project(s, outcomes, specs);
            let own = gather(outcomes, 0, "project.dependencies"@, s.runtime.len());
            let more = gather(
                matchspec_reads(specs),
                0,
                "tool.ana.matchspec-dependencies"@,
                s.matchspecs.len(),
            );
            let extras = gather_extras(
                outcomes,
                s.runtime.len() as int,
                s.extras,
                s.extras.keys.len(),
            );
            let groups = gather_groups(
                pep508_reads(outcomes),
                extras.2,
                GroupTable::Requirements,
                s.groups,
                s.groups.keys.len(),
            );
            let spec_groups = gather_groups(
                matchspec_reads(specs),
                s.matchspecs.len() as int,
                GroupTable::Matchspecs,
                s.matchspec_groups,
                s.matchspec_groups.keys.len(),
            );
            &&& read.runtime.len() == own.0.len() + more.0.len()
            &&& 0 <= i < own.0.len() ==> read.runtime[i] == DependencyView::Pep508(own.0[i])
            &&& 0 <= i < more.0.len() ==> read.runtime[own.0.len() + i] == more.0[i]
            &&& read.declared.name == Some(s.name)
            &&& read.declared.extras == extras.0
            &&& read.declared.groups == merged(
                groups.0,
                spec_groups.0,
                spec_groups.0.keys.len(),
            )
            &&& read.errors == own.1 + extras.1 + groups.1 + more.1 + spec_groups.1
        }),
        pep508_reads(outcomes).len() == outcomes.len(),
        matchspec_reads(specs).len() == specs.len(),
        0 <= i < outcomes.len() ==> pep508_reads(outcomes)[i] == match outcomes[i] {
            Ok(requirement) => Ok::<DependencyView, Seq<char>>(
                DependencyView::Pep508(requirement),
            ),
            Err(message) => Err(message),
        },
        0 <= i < specs.len() ==> matchspec_reads(specs)[i] == match specs[i] {
            Ok(spec) => Ok::<DependencyView, Seq<char>>(DependencyView::Matchspec(spec)),
            Err(message) => Err(message),
        },
{
}

/// A project that was put together says what its sections do, holds what was
/// read, and its extras and groups are resolved; it is refused exactly where
/// something could not be read or the resolution fails.
pub proof fn assembled_project_says_what_was_read(
    s: SectionsView,
    outcomes: Seq<ReadView>,
    specs: Seq<SpecReadView>,
    r: Result<Pyproject, PyprojectError>,
)
    requires
        is_assembled(s, outcomes, specs, r),
    ensures
        r is Ok <==> read_project(s, outcomes, specs).errors.len() == 0 && resolution(
            read_project(s, outcomes, specs).declared,
        ) is Ok,
        r is Ok ==> {
            let project = r->Ok_0;
            let read = read_project(s, outcomes, specs);
            &&& project.name@ == s.name
            &&& project.requires_python.deep_view() == s.requires_python
            &&& project.channels.deep_view() == s.channels
            &&& project.requirements.runtime.deep_view() == read.runtime
            &&& is_expansion(
                read.declared,
                ResolvedView {
                    extras: project.requirements.extras.deep_view(),
                    groups: project.requirements.groups.deep_view(),
                },
            )
            &&& resolution(read.declared)->Ok_0.extras
                == project.requirements.extras.deep_view().keys
            &&& resolution(read.declared)->Ok_0.groups
                == project.requirements.groups.deep_view().keys
        },
        r is Err && read_project(s, outcomes, specs).errors.len() > 0 ==> r->Err_0.view_fields()
            == read_project(s, outcomes, specs).errors,
        r is Err && read_project(s, outcomes, specs).errors.len() == 0 ==> {
            let (failure, section) = resolution(read_project(s, outcomes, specs).declared)->Err_0;
            r->Err_0.view_fields() == seq![
                FieldView {
                    path: if section is OptionalDependencies {
                        "project.optional-dependencies"@
                    } else {
                        "dependency-groups"@
                    },
                    description: Some(failure_text(failure)),
                },
            ]
        },
{
}

/// Invalid fields are shown one per line, indented, each with its place and
/// the reason if there is one; a problem of the whole document is shown as
/// one of the document.
pub proof fn fields_are_shown_line_by_line(fields: Seq<FieldView>, field: FieldView)
    ensures
        fields_text(Seq::empty()) == "invalid pyproject.toml:\n"@,
        fields_text(fields.push(field)) == fields_text(fields) + "  "@ + field_text(field) + "\n"@,
        field_text(field) == (if field.path.len() == 0 {
            "document"@
        } else {
            field.path
        }) + (if field.description is Some {
            " not valid: "@ + field.description->0
        } else {
            " not valid"@
        }),
{
    assert(fields.push(field).drop_last() =~= fields);
    let place = if field.path.len() == 0 {
        "document"@
    } else {
        field.path
    };
    if field.description is Some {
        assert(place + " not valid: "@ + field.description->0 =~= place + (" not valid: "@
            + field.description->0));
    }
}

} // verus!
