//! The requirements of an environment, wherever they were declared, and the
//! selection of groups among them.

use crate::dependency::{Dependency, DependencyView, SelectedRequirement, SelectedView};
use crate::pep440::{Specifier, SpecifierView};
use crate::table::{Table, TableView};
use crate::text::{concat, concat3};
use vstd::prelude::*;
use vstd::string::*;

verus! {

/// The source of a requirement that belongs to no group.
pub const RUNTIME_SOURCE: &'static str = "runtime";

/// Why no requirements could be selected.
#[derive(Debug, Clone, PartialEq, Eq)]
pub enum Error {
    /// A group that is not defined.
    UnknownGroup(String),
}

impl Error {
    /// The message of the error.
    pub fn to_string(&self) -> (r: String)
        ensures
            match *self {
                Error::UnknownGroup(name) => r@ == "dependency group `"@ + name@
                    + "` is not defined"@,
            },
    {
        match self {
            Error::UnknownGroup(name) => concat3(
                "dependency group `",
                name.as_str(),
                "` is not defined",
            ),
        }
    }
}

/// Runtime dependencies, dependency groups by normalized name, the supported
/// Python versions and the channels asked for.
#[derive(Debug)]
pub struct RequirementSet {
    dependencies: Vec<Dependency>,
    groups: Table<Vec<Dependency>>,
    requires_python: Option<Vec<Specifier>>,
    channels: Option<Vec<String>>,
}

/// A requirement set as mathematical values.
pub struct RequirementSetView {
    pub dependencies: Seq<DependencyView>,
    pub groups: TableView<Seq<DependencyView>>,
    pub requires_python: Option<Seq<SpecifierView>>,
    pub channels: Option<Seq<Seq<char>>>,
}

impl DeepView for RequirementSet {
    type V = RequirementSetView;

    closed spec fn deep_view(&self) -> RequirementSetView {
        RequirementSetView {
            dependencies: self.dependencies.deep_view(),
            groups: self.groups.deep_view(),
            requires_python: self.requires_python.deep_view(),
            channels: self.channels.deep_view(),
        }
    }
}

/// Dependencies that were all declared in the same place.
pub open spec fn tagged(dependencies: Seq<DependencyView>, source: Seq<char>) -> Seq<SelectedView> {
    Seq::new(
        dependencies.len(),
        |i: int| SelectedView { dependency: dependencies[i], source },
    )
}

/// The source of the requirements of a group.
pub open spec fn group_source(name: Seq<char>) -> Seq<char> {
    "group:"@ + name
}

/// The first name that is no group, if there is one.
pub open spec fn unknown_group(
    groups: TableView<Seq<DependencyView>>,
    names: Seq<Seq<char>>,
) -> Option<Seq<char>>
    decreases names.len(),
{
    if names.len() == 0 {
        None
    } else if let Some(name) = unknown_group(groups, names.drop_last()) {
        Some(name)
    } else if groups.has(names.last()) {
        None
    } else {
        Some(names.last())
    }
}

/// The runtime dependencies, then those of each named group.
pub open spec fn selection(set: RequirementSetView, names: Seq<Seq<char>>) -> Seq<SelectedView>
    decreases names.len(),
{
    if names.len() == 0 {
        tagged(set.dependencies, RUNTIME_SOURCE@)
    } else {
        selection(set, names.drop_last()) + tagged(
            set.groups.at(names.last()),
            group_source(names.last()),
        )
    }
}

proof fn unknown_group_first(
    groups: TableView<Seq<DependencyView>>,
    names: Seq<Seq<char>>,
    n: int,
)
    requires
        0 <= n <= names.len(),
        unknown_group(groups, names.take(n)) is Some,
    ensures
        unknown_group(groups, names) == unknown_group(groups, names.take(n)),
    decreases names.len() - n,
{
    if n < names.len() {
        assert(names.take(n + 1).drop_last() =~= names.take(n));
        unknown_group_first(groups, names, n + 1);
    } else {
        assert(names.take(n) =~= names);
    }
}

/// Appends dependencies that were all declared in the same place.
fn push_tagged<'p>(
    out: &mut Vec<SelectedRequirement<'p>>,
    dependencies: &'p Vec<Dependency>,
    source: &str,
)
    ensures
        final(out).deep_view() == old(out).deep_view() + tagged(
            dependencies.deep_view(),
            source@,
        ),
{
    let ghost before = out.deep_view();
    let ghost more = tagged(dependencies.deep_view(), source@);
    let mut i: usize = 0;
    assert(out.deep_view() =~= before + more.take(0));
    while i < dependencies.len()
        invariant
            i <= dependencies.len(),
            more == tagged(dependencies.deep_view(), source@),
            out.deep_view() == before + more.take(i as int),
        decreases dependencies.len() - i,
    {
        let ghost done = out.deep_view();
        let one = SelectedRequirement { dependency: &dependencies[i], source: source.to_owned() };
        assert(more[i as int] == one.deep_view());
        out.push(one);
        i += 1;
        assert(out.deep_view() =~= done.push(one.deep_view()));
        assert(out.deep_view() =~= before + more.take(i as int));
    }
    assert(more.take(i as int) =~= more);
}

impl RequirementSet {
    /// A requirement set with the given parts.
    pub fn new(
        dependencies: Vec<Dependency>,
        groups: Table<Vec<Dependency>>,
        requires_python: Option<Vec<Specifier>>,
        channels: Option<Vec<String>>,
    ) -> (r: RequirementSet)
        ensures
            r.deep_view() == (RequirementSetView {
                dependencies: dependencies.deep_view(),
                groups: groups.deep_view(),
                requires_python: requires_python.deep_view(),
                channels: channels.deep_view(),
            }),
    {
        RequirementSet { dependencies, groups, requires_python, channels }
    }

    /// A requirement set of runtime dependencies alone.
    pub fn from_dependencies(dependencies: Vec<Dependency>) -> (r: RequirementSet)
        ensures
            r.deep_view() == (RequirementSetView {
                dependencies: dependencies.deep_view(),
                groups: TableView::empty(),
                requires_python: None,
                channels: None,
            }),
    {
        let groups: Table<Vec<Dependency>> = Table::new();
        assert(groups.deep_view().items =~= Seq::empty());
        RequirementSet { dependencies, groups, requires_python: None, channels: None }
    }

    /// The supported Python versions, if they are given.
    pub fn requires_python(&self) -> (r: Option<&Vec<Specifier>>)
        ensures
            match r {
                Some(specifiers) => self.deep_view().requires_python == Some(
                    specifiers.deep_view(),
                ),
                None => self.deep_view().requires_python is None,
            },
    {
        match &self.requires_python {
            Some(specifiers) => Some(specifiers),
            None => None,
        }
    }

    /// The channels asked for, if any are.
    pub fn channels(&self) -> (r: Option<&Vec<String>>)
        ensures
            match r {
                Some(channels) => self.deep_view().channels == Some(channels.deep_view()),
                None => self.deep_view().channels is None,
            },
    {
        match &self.channels {
            Some(channels) => Some(channels),
            None => None,
        }
    }

    /// Whether every named group is defined; if not, the first that is not.
    pub fn validate_groups(&self, groups: &Vec<String>) -> (r: Result<(), Error>)
        ensures
            match r {
                Ok(_) => unknown_group(self.deep_view().groups, groups.deep_view()) is None,
                Err(Error::UnknownGroup(name)) => unknown_group(
                    self.deep_view().groups,
                    groups.deep_view(),
                ) == Some(name@),
            },
    {
        let ghost names = groups.deep_view();
        let ghost defined = self.groups.deep_view();
        let mut i: usize = 0;
        while i < groups.len()
            invariant
                i <= groups.len(),
                names == groups.deep_view(),
                defined == self.groups.deep_view(),
                unknown_group(defined, names.take(i as int)) is None,
            decreases groups.len() - i,
        {
            assert(names.take(i + 1).drop_last() =~= names.take(i as int));
            assert(names.take(i + 1).last() == groups@[i as int]@);
            if let None = self.groups.get(groups[i].as_str()) {
                proof {
                    unknown_group_first(defined, names, i + 1);
                }
                return Err(Error::UnknownGroup(groups[i].clone()));
            }
            i += 1;
        }
        assert(names.take(i as int) =~= names);
        Ok(())
    }

    /// The runtime dependencies, then those of each named group, each with
    /// where it was declared. A group that is not defined is an error.
    pub fn select<'p>(&'p self, groups: &Vec<String>) -> (r: Result<
        Vec<SelectedRequirement<'p>>,
        Error,
    >)
        ensures
            match r {
                Ok(selected) => unknown_group(self.deep_view().groups, groups.deep_view()) is None
                    && selected.deep_view() == selection(self.deep_view(), groups.deep_view()),
                Err(Error::UnknownGroup(name)) => unknown_group(
                    self.deep_view().groups,
                    groups.deep_view(),
                ) == Some(name@),
            },
    {
        let ghost set = self.deep_view();
        let ghost names = groups.deep_view();
        let mut selected = self.runtime_selected();
        let mut i: usize = 0;
        assert(names.take(0) =~= Seq::empty());
        while i < groups.len()
            invariant
                i <= groups.len(),
                set == self.deep_view(),
                names == groups.deep_view(),
                unknown_group(set.groups, names.take(i as int)) is None,
                selected.deep_view() == selection(set, names.take(i as int)),
            decreases groups.len() - i,
        {
            assert(names.take(i + 1).drop_last() =~= names.take(i as int));
            assert(names.take(i + 1).last() == groups@[i as int]@);
            match self.groups.get(groups[i].as_str()) {
                Some(dependencies) => {
                    let source = concat("group:", groups[i].as_str());
                    push_tagged(&mut selected, dependencies, source.as_str());
                },
                None => {
                    proof {
                        unknown_group_first(set.groups, names, i + 1);
                    }
                    return Err(Error::UnknownGroup(groups[i].clone()));
                },
            }
            i += 1;
        }
        assert(names.take(i as int) =~= names);
        Ok(selected)
    }

    fn runtime_selected(&self) -> (r: Vec<SelectedRequirement<'_>>)
        ensures
            r.deep_view() == tagged(self.deep_view().dependencies, RUNTIME_SOURCE@),
    {
        let mut out: Vec<SelectedRequirement<'_>> = Vec::new();
        assert(out.deep_view() =~= Seq::empty());
        push_tagged(&mut out, &self.dependencies, RUNTIME_SOURCE);
        assert(out.deep_view() =~= tagged(self.deep_view().dependencies, RUNTIME_SOURCE@));
        out
    }
}

/// What one group selects does not depend on which others are selected
/// before it: selecting more groups only appends.
pub proof fn selection_appends(
    set: RequirementSetView,
    names: Seq<Seq<char>>,
    more: Seq<Seq<char>>,
)
    ensures
        selection(set, names).is_prefix_of(selection(set, names + more)),
    decreases more.len(),
{
    if more.len() == 0 {
        assert(names + more =~= names);
    } else {
        selection_appends(set, names, more.drop_last());
        assert((names + more).drop_last() =~= names + more.drop_last());
    }
}

/// Without groups the runtime dependencies are selected, in order, each with
/// the source `runtime`; each further group adds its own dependencies behind
/// them, in order, each with the source `group:` and its name.
pub proof fn selection_group_by_group(
    set: RequirementSetView,
    names: Seq<Seq<char>>,
    name: Seq<char>,
)
    ensures
        selection(set, Seq::empty()).len() == set.dependencies.len(),
        forall|i: int|
            0 <= i < set.dependencies.len() ==> #[trigger] selection(set, Seq::empty())[i] == (
            SelectedView { dependency: set.dependencies[i], source: "runtime"@ }),
        selection(set, names.push(name)).len() == selection(set, names).len() + set.groups.at(
            name,
        ).len(),
        selection(set, names).is_prefix_of(selection(set, names.push(name))),
        forall|i: int|
            0 <= i < set.groups.at(name).len() ==> #[trigger] selection(set, names.push(name))[
                selection(set, names).len() + i] == (SelectedView {
                dependency: set.groups.at(name)[i],
                source: "group:"@ + name,
            }),
{
    assert(names.push(name).drop_last() =~= names);
}

/// A selection is refused exactly where a named group is not defined; the
/// first such is named.
pub proof fn first_unknown_group_is_named(
    groups: TableView<Seq<DependencyView>>,
    names: Seq<Seq<char>>,
)
    ensures
        unknown_group(groups, names) is None <==> forall|i: int|
            0 <= i < names.len() ==> groups.keys.contains(#[trigger] names[i]),
        unknown_group(groups, names) is Some ==> exists|i: int|
            0 <= i < names.len() && unknown_group(groups, names) == Some(#[trigger] names[i])
                && !groups.keys.contains(names[i]) && forall|k: int|
                0 <= k < i ==> groups.keys.contains(#[trigger] names[k]),
    decreases names.len(),
{
    if names.len() > 0 {
        let front = names.drop_last();
        first_unknown_group_is_named(groups, front);
        if unknown_group(groups, front) is Some {
            let i = choose|i: int|
                0 <= i < front.len() && unknown_group(groups, front) == Some(#[trigger] front[i])
                    && !groups.keys.contains(front[i]) && forall|k: int|
                    0 <= k < i ==> groups.keys.contains(#[trigger] front[k]);
            assert(names[i] == front[i]);
            assert forall|k: int| 0 <= k < i implies groups.keys.contains(#[trigger] names[k]) by {
                assert(front[k] == names[k]);
            }
        } else {
            assert forall|k: int| 0 <= k < names.len() - 1 implies groups.keys.contains(
                #[trigger] names[k],
            ) by {
                assert(front[k] == names[k]);
            }
            assert(names[names.len() - 1] == names.last());
        }
    }
}

} // verus!
