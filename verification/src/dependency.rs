//! Declared dependencies: dependency specifiers and match specs.

use crate::conda::{
    conda_matchspec, is_fixed_spec, read_matchspec, DeclaredSpec, DeclaredSpecView,
};
use crate::data::Duplicate;
use crate::pep440::outcome;
use crate::pep508::{Requirement, RequirementView};
use vstd::prelude::*;
use vstd::string::*;

verus! {

/// A declared dependency: a PEP 508 dependency specifier or a conda match
/// spec.
#[derive(Debug, Clone, PartialEq, Eq)]
pub enum Dependency {
    Pep508(Requirement),
    Matchspec(Box<DeclaredSpec>),
}

/// A declared dependency as mathematical values.
pub enum DependencyView {
    Pep508(RequirementView),
    Matchspec(DeclaredSpecView),
}

impl DeepView for Dependency {
    type V = DependencyView;

    open spec fn deep_view(&self) -> DependencyView {
        match self {
            Dependency::Pep508(requirement) => DependencyView::Pep508(requirement.deep_view()),
            Dependency::Matchspec(spec) => DependencyView::Matchspec((**spec).deep_view()),
        }
    }
}

impl Duplicate for Dependency {
    fn duplicate(&self) -> (r: Self) {
        match self {
            Dependency::Pep508(requirement) => Dependency::Pep508(requirement.duplicate()),
            Dependency::Matchspec(spec) => Dependency::Matchspec(Box::new((**spec).duplicate())),
        }
    }
}

/// The match spec that a text spells, or why it spells none. What a text
/// whose channel may be a path spells depends on the current directory, and
/// is left open.
pub fn parse_matchspec(text: &str) -> (r: Result<DeclaredSpec, String>)
    ensures
        is_fixed_spec(text@) ==> outcome(r) == conda_matchspec(text@),
{
    read_matchspec(text)
}

/// The package name of a dependency; a match spec whose name is a pattern
/// has none.
pub open spec fn bare_name_of(d: DependencyView) -> Option<Seq<char>> {
    match d {
        DependencyView::Pep508(requirement) => Some(requirement.name),
        DependencyView::Matchspec(spec) => spec.name,
    }
}

/// The package name of a dependency; a match spec whose name is a pattern
/// has none.
pub fn bare_name(dependency: &Dependency) -> (r: Option<String>)
    ensures
        r.deep_view() == bare_name_of(dependency.deep_view()),
{
    match dependency {
        Dependency::Pep508(requirement) => Some(requirement.name.clone()),
        Dependency::Matchspec(spec) => spec.name.duplicate(),
    }
}

/// One requirement selected for an environment, and where it was declared.
#[derive(Debug, Clone, PartialEq, Eq)]
pub struct SelectedRequirement<'p> {
    pub dependency: &'p Dependency,
    pub source: String,
}

/// A selected requirement as mathematical values.
pub struct SelectedView {
    pub dependency: DependencyView,
    pub source: Seq<char>,
}

impl<'p> DeepView for SelectedRequirement<'p> {
    type V = SelectedView;

    open spec fn deep_view(&self) -> SelectedView {
        SelectedView { dependency: self.dependency.deep_view(), source: self.source@ }
    }
}

/// The package name of a dependency is that of its specifier, or that of its
/// match spec if it has one.
pub proof fn dependencies_are_named(
    requirement: RequirementView,
    spec: DeclaredSpecView,
    dependency: Dependency,
)
    ensures
        bare_name_of(DependencyView::Pep508(requirement)) == Some(requirement.name),
        bare_name_of(DependencyView::Matchspec(spec)) == spec.name,
        dependency matches Dependency::Pep508(r) ==> dependency.deep_view()
            == DependencyView::Pep508(r.deep_view()),
        dependency matches Dependency::Matchspec(s) ==> dependency.deep_view()
            == DependencyView::Matchspec((*s).deep_view()),
{
}

} // verus!
