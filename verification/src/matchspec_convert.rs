//! The requirements selected for an environment as match specs for one
//! target platform.

use crate::conda::{
    canonical_text, matchspec_error, DeclaredSpec, DeclaredSpecView, MatchSpec, MatchSpecView,
};
use crate::conda_map::load::MappingHandle;
use crate::convert::requirement::{
    convert, convert_error_text, convert_outcome, converted_specs_are_read, ConvertError,
    ConvertErrorView,
};
use crate::convert::version::{
    converted, converted_versions_are_read, version_spec, version_spec_outcome,
};
use crate::data::Duplicate;
use crate::dependency::{Dependency, DependencyView, SelectedRequirement, SelectedView};
use crate::marker::assumption::{
    host_facts, known_values_assumption, unsupported_platform_text, UnsupportedPlatform,
};
use crate::pep440::{Specifier, SpecifierView};
use crate::platform::Platform;
use crate::sort::{is_sorted, sort, sorted, sorted_is_sorted, Ranked};
use crate::table::TableView;
use crate::text::{
    concat, concat3, le_str, same, text_le, text_le_antisymmetric, text_le_total,
    text_le_transitive,
};
use vstd::prelude::*;
use vstd::string::*;

verus! {

/// The source of the match spec that the supported Python versions give.
pub const REQUIRES_PYTHON_SOURCE: &'static str = "requires-python";

/// The source of every match spec that only a content key is made from.
pub const CONTENT_KEY_SOURCE: &'static str = "content-key";

/// A match spec to solve for: declared as such, or made from a dependency
/// specifier.
#[derive(Debug, Clone, PartialEq, Eq)]
pub enum Spec {
    Declared(DeclaredSpec),
    Converted(MatchSpec),
}

/// A match spec to solve for, as mathematical values.
pub enum SpecView {
    Declared(DeclaredSpecView),
    Converted(MatchSpecView),
}

impl DeepView for Spec {
    type V = SpecView;

    open spec fn deep_view(&self) -> SpecView {
        match self {
            Spec::Declared(spec) => SpecView::Declared(spec.deep_view()),
            Spec::Converted(spec) => SpecView::Converted(spec.deep_view()),
        }
    }
}

impl Duplicate for Spec {
    fn duplicate(&self) -> (r: Self) {
        match self {
            Spec::Declared(spec) => Spec::Declared(spec.duplicate()),
            Spec::Converted(spec) => Spec::Converted(spec.duplicate()),
        }
    }
}

/// A requirement as a match spec: the package name, the canonical spelling,
/// the match spec, and where the requirement was declared.
#[derive(Debug, Clone, PartialEq, Eq)]
pub struct MatchspecEntry {
    pub name: String,
    pub canonical: String,
    pub spec: Spec,
    pub source: String,
}

/// A requirement as a match spec, as mathematical values.
pub struct MatchspecEntryView {
    pub name: Seq<char>,
    pub canonical: Seq<char>,
    pub spec: SpecView,
    pub source: Seq<char>,
}

impl DeepView for MatchspecEntry {
    type V = MatchspecEntryView;

    open spec fn deep_view(&self) -> MatchspecEntryView {
        MatchspecEntryView {
            name: self.name@,
            canonical: self.canonical@,
            spec: self.spec.deep_view(),
            source: self.source@,
        }
    }
}

impl Duplicate for MatchspecEntry {
    fn duplicate(&self) -> (r: Self) {
        MatchspecEntry {
            name: self.name.clone(),
            canonical: self.canonical.clone(),
            spec: self.spec.duplicate(),
            source: self.source.clone(),
        }
    }
}

impl Ranked for MatchspecEntry {
    /// By package name, then canonical spelling, then source.
    open spec fn ranks_le(a: MatchspecEntryView, b: MatchspecEntryView) -> bool {
        if a.name != b.name {
            text_le(a.name, b.name)
        } else if a.canonical != b.canonical {
            text_le(a.canonical, b.canonical)
        } else {
            text_le(a.source, b.source)
        }
    }

    fn is_le(&self, other: &Self) -> (r: bool) {
        if !same(self.name.as_str(), other.name.as_str()) {
            le_str(self.name.as_str(), other.name.as_str())
        } else if !same(self.canonical.as_str(), other.canonical.as_str()) {
            le_str(self.canonical.as_str(), other.canonical.as_str())
        } else {
            le_str(self.source.as_str(), other.source.as_str())
        }
    }

    proof fn le_total(a: MatchspecEntryView, b: MatchspecEntryView) {
        text_le_total(a.name, b.name);
        text_le_total(a.canonical, b.canonical);
        text_le_total(a.source, b.source);
    }

    proof fn le_transitive(a: MatchspecEntryView, b: MatchspecEntryView, c: MatchspecEntryView) {
        if a.name != b.name || b.name != c.name {
            if text_le(a.name, b.name) && text_le(b.name, c.name) {
                text_le_transitive(a.name, b.name, c.name);
            }
            if a.name == c.name {
                text_le_antisymmetric(a.name, b.name);
            }
        } else if a.canonical != b.canonical || b.canonical != c.canonical {
            if text_le(a.canonical, b.canonical) && text_le(b.canonical, c.canonical) {
                text_le_transitive(a.canonical, b.canonical, c.canonical);
            }
            if a.canonical == c.canonical {
                text_le_antisymmetric(a.canonical, b.canonical);
            }
        } else {
            text_le_transitive(a.source, b.source, c.source);
        }
    }
}

/// A requirement of a lock: the canonical spelling of its match spec, and
/// where it was declared.
#[derive(Debug, Clone, PartialEq, Eq)]
pub struct LockedRequirement {
    pub matchspec: String,
    pub source: String,
}

/// A requirement of a lock as mathematical values.
pub struct LockedView {
    pub matchspec: Seq<char>,
    pub source: Seq<char>,
}

impl DeepView for LockedRequirement {
    type V = LockedView;

    open spec fn deep_view(&self) -> LockedView {
        LockedView { matchspec: self.matchspec@, source: self.source@ }
    }
}

/// The match specs to solve for, and the requirements to lock, at the same
/// positions.
#[derive(Debug)]
pub struct ConvertedRequirements {
    pub specs: Vec<Spec>,
    pub locked: Vec<LockedRequirement>,
}

/// Why requirements have no match specs.
#[derive(Debug, Clone, PartialEq, Eq)]
pub enum Error {
    /// Packages are not installed onto the platform.
    UnsupportedPlatform(UnsupportedPlatform),
    /// Some requirements have none; one line for each.
    Conversion(String),
}

/// Why requirements have no match specs, as mathematical values.
pub enum ErrorView {
    UnsupportedPlatform(Platform),
    Conversion(Seq<char>),
}

impl DeepView for Error {
    type V = ErrorView;

    open spec fn deep_view(&self) -> ErrorView {
        match self {
            Error::UnsupportedPlatform(error) => ErrorView::UnsupportedPlatform(error.0),
            Error::Conversion(lines) => ErrorView::Conversion(lines@),
        }
    }
}

impl Error {
    /// The message of the error.
    pub fn to_string(&self) -> (r: String)
        ensures
            r@ == match self.deep_view() {
                ErrorView::UnsupportedPlatform(platform) => unsupported_platform_text(platform),
                ErrorView::Conversion(lines) =>
                    "failed to convert requirements to matchspecs:\n"@ + lines,
            },
    {
        match self {
            Error::UnsupportedPlatform(error) => error.to_string(),
            Error::Conversion(lines) => concat(
                "failed to convert requirements to matchspecs:\n",
                lines.as_str(),
            ),
        }
    }
}

/// The entry of a declared match spec: one whose name is a pattern goes by
/// its canonical spelling.
pub open spec fn declared_entry(spec: DeclaredSpecView, source: Seq<char>) -> MatchspecEntryView {
    MatchspecEntryView {
        name: match spec.name {
            Some(name) => name,
            None => spec.canonical,
        },
        canonical: spec.canonical,
        spec: SpecView::Declared(spec),
        source,
    }
}

/// The entries of the declared match specs among the selected requirements,
/// in order.
pub open spec fn declared_entries(selected: Seq<SelectedView>) -> Seq<MatchspecEntryView>
    decreases selected.len(),
{
    if selected.len() == 0 {
        Seq::empty()
    } else {
        let before = declared_entries(selected.drop_last());
        match selected.last().dependency {
            DependencyView::Pep508(_) => before,
            DependencyView::Matchspec(spec) => before.push(
                declared_entry(spec, selected.last().source),
            ),
        }
    }
}

/// The entries of the declared match specs among the selected requirements.
pub fn matchspec_entries(selected: &Vec<SelectedRequirement<'_>>) -> (r: Vec<MatchspecEntry>)
    ensures
        r.deep_view() == declared_entries(selected.deep_view()),
{
    let ghost all = selected.deep_view();
    let mut out: Vec<MatchspecEntry> = Vec::new();
    let mut i: usize = 0;
    assert(out.deep_view() =~= declared_entries(all.take(0)));
    while i < selected.len()
        invariant
            i <= selected.len(),
            all == selected.deep_view(),
            out.deep_view() == declared_entries(all.take(i as int)),
        decreases selected.len() - i,
    {
        assert(all.take(i + 1).drop_last() =~= all.take(i as int));
        assert(all.take(i + 1).last() == selected@[i as int].deep_view());
        if let Dependency::Matchspec(spec) = selected[i].dependency {
            let ghost done = out.deep_view();
            let entry = MatchspecEntry {
                name: match &spec.name {
                    Some(name) => name.clone(),
                    None => spec.canonical.clone(),
                },
                canonical: spec.canonical.clone(),
                spec: Spec::Declared((**spec).duplicate()),
                source: selected[i].source.clone(),
            };
            out.push(entry);
            assert(out.deep_view() =~= done.push(entry.deep_view()));
        }
        i += 1;
    }
    assert(all.take(i as int) =~= all);
    out
}

/// What conversion amounts to so far: the entries, and a line for each
/// failure.
pub struct Tally {
    pub entries: Seq<MatchspecEntryView>,
    pub failures: Seq<Seq<char>>,
}

/// The line for a requirement that has no match spec.
pub open spec fn failure_line(requirement: Seq<char>, source: Seq<char>, message: Seq<char>) -> Seq<
    char,
> {
    "  "@ + requirement + " (from "@ + source + "): "@ + message
}

/// One more converted specifier, if it applies.
pub open spec fn with_converted(
    before: Tally,
    found: Result<Option<MatchSpecView>, ConvertErrorView>,
    requirement: Seq<char>,
    source: Seq<char>,
) -> Tally {
    match found {
        Ok(None) => before,
        Ok(Some(spec)) => Tally {
            entries: before.entries.push(
                MatchspecEntryView {
                    name: spec.name,
                    canonical: canonical_text(spec),
                    spec: SpecView::Converted(spec),
                    source,
                },
            ),
            ..before
        },
        Err(error) => Tally {
            failures: before.failures.push(
                failure_line(requirement, source, convert_error_text(error)),
            ),
            ..before
        },
    }
}

/// The selected requirements converted, added to the given entries.
pub open spec fn tally(
    start: Seq<MatchspecEntryView>,
    selected: Seq<SelectedView>,
    platform: Platform,
    map: TableView<Seq<char>>,
) -> Tally
    decreases selected.len(),
{
    if selected.len() == 0 {
        Tally { entries: start, failures: Seq::empty() }
    } else {
        let before = tally(start, selected.drop_last(), platform, map);
        match selected.last().dependency {
            DependencyView::Pep508(requirement) => with_converted(
                before,
                convert_outcome(requirement, false, platform, map),
                requirement.text,
                selected.last().source,
            ),
            DependencyView::Matchspec(_) => before,
        }
    }
}

/// The supported Python versions converted too, if they are given.
pub open spec fn with_python(before: Tally, requires_python: Option<Seq<SpecifierView>>) -> Tally {
    match requires_python {
        None => before,
        Some(specifiers) => match version_spec_outcome(specifiers, false) {
            Ok(None) => before,
            Ok(Some(version)) => {
                let spec = MatchSpecView {
                    name: "python"@,
                    version: Some(version),
                    extras: None,
                    condition: None,
                };
                Tally {
                    entries: before.entries.push(
                        MatchspecEntryView {
                            name: "python"@,
                            canonical: canonical_text(spec),
                            spec: SpecView::Converted(spec),
                            source: REQUIRES_PYTHON_SOURCE@,
                        },
                    ),
                    ..before
                }
            },
            Err(error) => Tally {
                failures: before.failures.push(python_failure(convert_error_text(error))),
                ..before
            },
        },
    }
}

/// The line for supported Python versions that have no match spec.
pub open spec fn python_failure(message: Seq<char>) -> Seq<char> {
    "  "@ + REQUIRES_PYTHON_SOURCE@ + ": "@ + message
}

/// Lines, one below the other.
pub open spec fn joined_lines(lines: Seq<Seq<char>>) -> Seq<char>
    decreases lines.len(),
{
    if lines.len() == 0 {
        Seq::empty()
    } else if lines.len() == 1 {
        lines[0]
    } else {
        joined_lines(lines.drop_last()) + "\n"@ + lines.last()
    }
}

/// The match specs of entries.
pub open spec fn specs_of(entries: Seq<MatchspecEntryView>) -> Seq<SpecView> {
    entries.map_values(|e: MatchspecEntryView| e.spec)
}

/// The locked requirements of entries.
pub open spec fn locked_of(entries: Seq<MatchspecEntryView>) -> Seq<LockedView> {
    entries.map_values(
        |e: MatchspecEntryView| LockedView { matchspec: e.canonical, source: e.source },
    )
}

/// The entries that the requirements give on a platform, in order, or why
/// some have none.
pub open spec fn platform_entries(
    start: Seq<MatchspecEntryView>,
    selected: Seq<SelectedView>,
    requires_python: Option<Seq<SpecifierView>>,
    platform: Platform,
    map: TableView<Seq<char>>,
) -> Result<Seq<MatchspecEntryView>, ErrorView> {
    let all = with_python(tally(start, selected, platform, map), requires_python);
    if host_facts(platform) is None {
        Err(ErrorView::UnsupportedPlatform(platform))
    } else if all.failures.len() > 0 {
        Err(ErrorView::Conversion(joined_lines(all.failures)))
    } else {
        Ok(sorted::<MatchspecEntry>(all.entries))
    }
}

/// Adds one converted specifier.
fn push_converted(
    found: Result<Option<MatchSpec>, ConvertError>,
    requirement: &str,
    source: &str,
    entries: &mut Vec<MatchspecEntry>,
    failures: &mut Vec<String>,
)
    requires
        match converted(found) {
            Ok(Some(spec)) => matchspec_error(spec) is None,
            _ => true,
        },
    ensures
        (Tally { entries: final(entries).deep_view(), failures: final(failures).deep_view() })
            == with_converted(
            Tally { entries: old(entries).deep_view(), failures: old(failures).deep_view() },
            converted(found),
            requirement@,
            source@,
        ),
{
    let ghost done = entries.deep_view();
    let ghost known = failures.deep_view();
    let message = match found {
        Ok(None) => return ,
        Ok(Some(spec)) => match spec.canonical() {
            Ok(canonical) => {
                let entry = MatchspecEntry {
                    name: spec.name.clone(),
                    canonical,
                    spec: Spec::Converted(spec),
                    source: source.to_owned(),
                };
                entries.push(entry);
                assert(entries.deep_view() =~= done.push(entry.deep_view()));
                return ;
            },
            Err(_) => return ,
        },
        Err(error) => error.to_string(),
    };
    let mut line = concat3("  ", requirement, " (from ");
    line.append(source);
    line.append("): ");
    line.append(message.as_str());
    failures.push(line);
    assert(failures.deep_view() =~= known.push(line@));
}

/// Adds the supported Python versions.
fn push_python(
    requires_python: Option<&Vec<Specifier>>,
    entries: &mut Vec<MatchspecEntry>,
    failures: &mut Vec<String>,
)
    ensures
        (Tally { entries: final(entries).deep_view(), failures: final(failures).deep_view() })
            == with_python(
            Tally { entries: old(entries).deep_view(), failures: old(failures).deep_view() },
            specifiers_view(requires_python),
        ),
{
    let ghost done = entries.deep_view();
    let ghost known = failures.deep_view();
    let specifiers = match requires_python {
        Some(specifiers) => specifiers,
        None => return ,
    };
    let message = match version_spec(specifiers, false) {
        Ok(None) => return ,
        Ok(Some(version)) => {
            let spec = MatchSpec {
                name: "python".to_owned(),
                version: Some(version),
                extras: None,
                condition: None,
            };
            proof {
                converted_versions_are_read(specifiers.deep_view(), false);
            }
            match spec.canonical() {
                Ok(canonical) => {
                    let entry = MatchspecEntry {
                        name: "python".to_owned(),
                        canonical,
                        spec: Spec::Converted(spec),
                        source: REQUIRES_PYTHON_SOURCE.to_owned(),
                    };
                    entries.push(entry);
                    assert(entries.deep_view() =~= done.push(entry.deep_view()));
                    return ;
                },
                Err(_) => return ,
            }
        },
        Err(error) => error.to_string(),
    };
    let mut line = concat3("  ", REQUIRES_PYTHON_SOURCE, ": ");
    line.append(message.as_str());
    failures.push(line);
    assert(failures.deep_view() =~= known.push(line@));
}

/// The view of optional specifiers.
pub open spec fn specifiers_view(s: Option<&Vec<Specifier>>) -> Option<Seq<SpecifierView>> {
    match s {
        Some(specifiers) => Some(specifiers.deep_view()),
        None => None,
    }
}

fn join_lines(lines: &Vec<String>) -> (r: String)
    ensures
        r@ == joined_lines(lines.deep_view()),
{
    let ghost all = lines.deep_view();
    let mut out = String::new();
    let mut i: usize = 0;
    assert(out@ =~= joined_lines(all.take(0)));
    while i < lines.len()
        invariant
            i <= lines.len(),
            all == lines.deep_view(),
            out@ == joined_lines(all.take(i as int)),
        decreases lines.len() - i,
    {
        assert(all.take(i + 1).drop_last() =~= all.take(i as int));
        assert(all.take(i + 1).last() == lines@[i as int]@);
        if i > 0 {
            out.append("\n");
        }
        out.append(lines[i].as_str());
        i += 1;
        assert(out@ =~= joined_lines(all.take(i as int)));
    }
    assert(all.take(i as int) =~= all);
    out
}

/// The selected requirements, and the supported Python versions if they are
/// given, as match specs for a platform, in order of package name,
/// canonical spelling and source. The entries of the declared match specs
/// are given, as they are the same on every platform.
///
/// A specifier whose marker never holds on the platform is left out. Every
/// requirement that has no match spec is reported, not just the first.
pub fn convert_for_platform_with_matchspec_entries(
    matchspec_entries: &Vec<MatchspecEntry>,
    selected: &Vec<SelectedRequirement<'_>>,
    requires_python: Option<&Vec<Specifier>>,
    platform: Platform,
    pypi_to_conda_map: &MappingHandle,
) -> (r: Result<ConvertedRequirements, Error>)
    ensures
        match platform_entries(
            matchspec_entries.deep_view(),
            selected.deep_view(),
            specifiers_view(requires_python),
            platform,
            pypi_to_conda_map.mapping(),
        ) {
            Ok(entries) => match r {
                Ok(found) => found.specs.deep_view() == specs_of(entries)
                    && found.locked.deep_view() == locked_of(entries),
                Err(_) => false,
            },
            Err(expected) => match r {
                Ok(_) => false,
                Err(error) => error.deep_view() == expected,
            },
        },
{
    let assumption = match known_values_assumption(platform) {
        Ok(assumption) => assumption,
        Err(error) => return Err(Error::UnsupportedPlatform(error)),
    };
    let ghost start = matchspec_entries.deep_view();
    let ghost all = selected.deep_view();
    let ghost map = pypi_to_conda_map.mapping();
    let mut entries: Vec<MatchspecEntry> = matchspec_entries.duplicate();
    let mut failures: Vec<String> = Vec::new();
    let mut i: usize = 0;
    assert(failures.deep_view() =~= Seq::empty());
    while i < selected.len()
        invariant
            i <= selected.len(),
            all == selected.deep_view(),
            map == pypi_to_conda_map.mapping(),
            assumption.platform == platform,
            (Tally { entries: entries.deep_view(), failures: failures.deep_view() }) == tally(
                start,
                all.take(i as int),
                platform,
                map,
            ),
        decreases selected.len() - i,
    {
        assert(all.take(i + 1).drop_last() =~= all.take(i as int));
        assert(all.take(i + 1).last() == selected@[i as int].deep_view());
        if let Dependency::Pep508(requirement) = selected[i].dependency {
            let found = convert(requirement, false, &assumption, pypi_to_conda_map);
            proof {
                if let Ok(Some(_)) = converted(found) {
                    converted_specs_are_read(
                        requirement.deep_view(),
                        false,
                        platform,
                        pypi_to_conda_map.mapping(),
                    );
                }
            }
            push_converted(
                found,
                requirement.text.as_str(),
                selected[i].source.as_str(),
                &mut entries,
                &mut failures,
            );
        }
        i += 1;
    }
    assert(all.take(i as int) =~= all);
    push_python(requires_python, &mut entries, &mut failures);
    if failures.len() > 0 {
        return Err(Error::Conversion(join_lines(&failures)));
    }
    let ordered = sort(&entries);
    let ghost order = ordered.deep_view();
    let mut specs: Vec<Spec> = Vec::new();
    let mut locked: Vec<LockedRequirement> = Vec::new();
    let mut j: usize = 0;
    assert(specs.deep_view() =~= specs_of(order.take(0)));
    assert(locked.deep_view() =~= locked_of(order.take(0)));
    while j < ordered.len()
        invariant
            j <= ordered.len(),
            order == ordered.deep_view(),
            specs.deep_view() == specs_of(order.take(j as int)),
            locked.deep_view() == locked_of(order.take(j as int)),
        decreases ordered.len() - j,
    {
        let ghost done = specs.deep_view();
        let ghost kept = locked.deep_view();
        assert(order[j as int] == ordered@[j as int].deep_view());
        let spec = ordered[j].spec.duplicate();
        specs.push(spec);
        assert(specs.deep_view() =~= done.push(spec.deep_view()));
        let lock = LockedRequirement {
            matchspec: ordered[j].canonical.clone(),
            source: ordered[j].source.clone(),
        };
        locked.push(lock);
        assert(locked.deep_view() =~= kept.push(lock.deep_view()));
        j += 1;
        assert(specs.deep_view() =~= specs_of(order.take(j as int)));
        assert(locked.deep_view() =~= locked_of(order.take(j as int)));
    }
    assert(order.take(j as int) =~= order);
    Ok(ConvertedRequirements { specs, locked })
}

/// Dependencies, all selected from the same source.
pub open spec fn selected_from(dependencies: Seq<DependencyView>, source: Seq<char>) -> Seq<
    SelectedView,
> {
    dependencies.map_values(|d: DependencyView| SelectedView { dependency: d, source })
}

/// The canonical spellings of entries.
pub open spec fn canonical_of(entries: Seq<MatchspecEntryView>) -> Seq<Seq<char>> {
    entries.map_values(|e: MatchspecEntryView| e.canonical)
}

/// The canonical spellings of the match specs that dependencies, and the
/// supported Python versions if they are given, have on a platform.
pub fn canonical_matchspecs(
    dependencies: &Vec<Dependency>,
    requires_python: Option<&Vec<Specifier>>,
    platform: Platform,
    pypi_to_conda_map: &MappingHandle,
) -> (r: Result<Vec<String>, Error>)
    ensures
        ({
            let selected = selected_from(dependencies.deep_view(), CONTENT_KEY_SOURCE@);
            match platform_entries(
                declared_entries(selected),
                selected,
                specifiers_view(requires_python),
                platform,
                pypi_to_conda_map.mapping(),
            ) {
                Ok(entries) => match r {
                    Ok(found) => found.deep_view() == canonical_of(entries),
                    Err(_) => false,
                },
                Err(expected) => match r {
                    Ok(_) => false,
                    Err(error) => error.deep_view() == expected,
                },
            }
        }),
{
    let ghost wanted = selected_from(dependencies.deep_view(), CONTENT_KEY_SOURCE@);
    let mut selected: Vec<SelectedRequirement<'_>> = Vec::new();
    let mut i: usize = 0;
    while i < dependencies.len()
        invariant
            i <= dependencies.len(),
            wanted == selected_from(dependencies.deep_view(), CONTENT_KEY_SOURCE@),
            selected.deep_view() == wanted.take(i as int),
        decreases dependencies.len() - i,
    {
        let ghost done = selected.deep_view();
        let one = SelectedRequirement {
            dependency: &dependencies[i],
            source: CONTENT_KEY_SOURCE.to_owned(),
        };
        assert(wanted[i as int] == one.deep_view());
        selected.push(one);
        i += 1;
        assert(selected.deep_view() =~= done.push(one.deep_view()));
        assert(selected.deep_view() =~= wanted.take(i as int));
    }
    assert(wanted.take(i as int) =~= wanted);
    let entries = matchspec_entries(&selected);
    match convert_for_platform_with_matchspec_entries(
        &entries,
        &selected,
        requires_python,
        platform,
        pypi_to_conda_map,
    ) {
        Ok(found) => {
            let ghost locked = found.locked.deep_view();
            let mut out: Vec<String> = Vec::new();
            let mut j: usize = 0;
            while j < found.locked.len()
                invariant
                    j <= found.locked.len(),
                    locked == found.locked.deep_view(),
                    out.deep_view() =~= locked.take(j as int).map_values(
                        |l: LockedView| l.matchspec,
                    ),
                decreases found.locked.len() - j,
            {
                let ghost done = out.deep_view();
                out.push(found.locked[j].matchspec.clone());
                j += 1;
                assert(locked[j - 1] == found.locked@[j - 1].deep_view());
                assert(out.deep_view() =~= done.push(locked[j - 1].matchspec));
                assert(out.deep_view() =~= locked.take(j as int).map_values(
                    |l: LockedView| l.matchspec,
                ));
            }
            proof {
                assert(locked.take(j as int) =~= locked);
                let order = platform_entries(
                    declared_entries(wanted),
                    wanted,
                    specifiers_view(requires_python),
                    platform,
                    pypi_to_conda_map.mapping(),
                )->Ok_0;
                assert(out.deep_view() =~= canonical_of(order));
            }
            Ok(out)
        },
        Err(error) => Err(error),
    }
}

/// The entries for a platform stand in order, and none is lost or merged:
/// there are as many as requirements that have a match spec.
pub proof fn platform_entries_in_order(
    start: Seq<MatchspecEntryView>,
    selected: Seq<SelectedView>,
    requires_python: Option<Seq<SpecifierView>>,
    platform: Platform,
    map: TableView<Seq<char>>,
)
    requires
        platform_entries(start, selected, requires_python, platform, map) is Ok,
    ensures
        ({
            let entries = platform_entries(
                start,
                selected,
                requires_python,
                platform,
                map,
            )->Ok_0;
            let all = with_python(
                tally(start, selected, platform, map),
                requires_python,
            ).entries;
            &&& is_sorted::<MatchspecEntry>(entries)
            &&& entries.to_multiset() == all.to_multiset()
            &&& entries.len() == all.len()
        }),
{
    let all = with_python(
        tally(start, selected, platform, map),
        requires_python,
    ).entries;
    sorted_is_sorted::<MatchspecEntry>(all);
}

/// A declared match spec is converted the same on every platform: its entry
/// is among those of each.
pub proof fn declared_specs_are_kept(
    start: Seq<MatchspecEntryView>,
    selected: Seq<SelectedView>,
    requires_python: Option<Seq<SpecifierView>>,
    platform: Platform,
    map: TableView<Seq<char>>,
    i: int,
)
    requires
        platform_entries(start, selected, requires_python, platform, map) is Ok,
        0 <= i < start.len(),
    ensures
        platform_entries(start, selected, requires_python, platform, map)->Ok_0.contains(start[i]),
{
    broadcast use vstd::seq_lib::group_to_multiset_ensures;

    platform_entries_in_order(start, selected, requires_python, platform, map);
    let before = tally(start, selected, platform, map);
    tally_keeps(start, selected, platform, map);
    let all = with_python(before, requires_python).entries;
    assert(all[i] == start[i]);
    assert(all.contains(start[i]));
    let entries = platform_entries(start, selected, requires_python, platform, map)->Ok_0;
    assert(entries.to_multiset().count(start[i]) > 0);
}

proof fn tally_keeps(
    start: Seq<MatchspecEntryView>,
    selected: Seq<SelectedView>,
    platform: Platform,
    map: TableView<Seq<char>>,
)
    ensures
        start.is_prefix_of(tally(start, selected, platform, map).entries),
    decreases selected.len(),
{
    if selected.len() > 0 {
        tally_keeps(start, selected.drop_last(), platform, map);
    }
}

/// Each selected requirement is converted in turn: a declared match spec and
/// a specifier that does not apply add nothing; a specifier that applies adds
/// its match spec, under its source; one that has none adds a line that
/// names it, its source and the reason.
pub proof fn requirements_are_converted_in_turn(
    start: Seq<MatchspecEntryView>,
    selected: Seq<SelectedView>,
    one: SelectedView,
    platform: Platform,
    map: TableView<Seq<char>>,
)
    ensures
        tally(start, Seq::empty(), platform, map) == (Tally {
            entries: start,
            failures: Seq::empty(),
        }),
        ({
            let before = tally(start, selected, platform, map);
            let after = tally(start, selected.push(one), platform, map);
            match one.dependency {
                DependencyView::Matchspec(_) => after == before,
                DependencyView::Pep508(r) => match convert_outcome(r, false, platform, map) {
                    Ok(None) => after == before,
                    Ok(Some(spec)) => {
                        &&& after.failures == before.failures
                        &&& after.entries.len() == before.entries.len() + 1
                        &&& before.entries.is_prefix_of(after.entries)
                        &&& after.entries.last().name == spec.name
                        &&& after.entries.last().spec == SpecView::Converted(spec)
                        &&& after.entries.last().canonical == canonical_text(spec)
                        &&& after.entries.last().source == one.source
                    },
                    Err(error) => {
                        &&& after.entries == before.entries
                        &&& after.failures == before.failures.push(
                            "  "@ + r.text + " (from "@ + one.source + "): "@ + convert_error_text(
                                error,
                            ),
                        )
                    },
                },
            }
        }),
{
    assert(selected.push(one).drop_last() =~= selected);
}

/// The supported Python versions add a match spec for `python`, or a line
/// that says why they have none.
pub proof fn python_is_converted_last(before: Tally, specifiers: Seq<SpecifierView>)
    ensures
        with_python(before, None) == before,
        ({
            let after = with_python(before, Some(specifiers));
            match version_spec_outcome(specifiers, false) {
                Ok(None) => after == before,
                Ok(Some(version)) => {
                    &&& after.failures == before.failures
                    &&& after.entries.len() == before.entries.len() + 1
                    &&& before.entries.is_prefix_of(after.entries)
                    &&& after.entries.last().name == "python"@
                    &&& after.entries.last().source == "requires-python"@
                    &&& after.entries.last().spec == SpecView::Converted(
                        MatchSpecView {
                            name: "python"@,
                            version: Some(version),
                            extras: None,
                            condition: None,
                        },
                    )
                },
                Err(error) => {
                    &&& after.entries == before.entries
                    &&& after.failures == before.failures.push(
                        "  "@ + "requires-python"@ + ": "@ + convert_error_text(error),
                    )
                },
            }
        }),
{
}

/// The requirements of a platform are refused exactly where it is none that
/// packages are installed onto, or one of them has no match spec.
pub proof fn platform_is_refused_where(
    start: Seq<MatchspecEntryView>,
    selected: Seq<SelectedView>,
    requires_python: Option<Seq<SpecifierView>>,
    platform: Platform,
    map: TableView<Seq<char>>,
)
    ensures
        ({
            let supported = platform is Linux64 || platform is LinuxAarch64 || platform is Osx64
                || platform is OsxArm64 || platform is Win64 || platform is WinArm64;
            let found = platform_entries(start, selected, requires_python, platform, map);
            let all_convert = (forall|i: int|
                0 <= i < selected.len() && (#[trigger] selected[i]).dependency is Pep508
                    ==> convert_outcome(selected[i].dependency->Pep508_0, false, platform, map)
                    is Ok) && (requires_python is Some ==> version_spec_outcome(
                requires_python->0,
                false,
            ) is Ok);
            &&& !supported ==> found == Err::<Seq<MatchspecEntryView>, ErrorView>(
                ErrorView::UnsupportedPlatform(platform),
            )
            &&& supported ==> (found is Ok <==> all_convert)
            &&& supported && !all_convert ==> found->Err_0 is Conversion
        }),
{
    tally_fails(start, selected, platform, map);
}

proof fn tally_fails(
    start: Seq<MatchspecEntryView>,
    selected: Seq<SelectedView>,
    platform: Platform,
    map: TableView<Seq<char>>,
)
    ensures
        tally(start, selected, platform, map).failures.len() == 0 <==> forall|i: int|
            0 <= i < selected.len() && (#[trigger] selected[i]).dependency is Pep508
                ==> convert_outcome(selected[i].dependency->Pep508_0, false, platform, map) is Ok,
    decreases selected.len(),
{
    if selected.len() > 0 {
        let front = selected.drop_last();
        tally_fails(start, front, platform, map);
        assert(selected[selected.len() - 1] == selected.last());
        if tally(start, selected, platform, map).failures.len() == 0 {
            assert forall|i: int|
                0 <= i < selected.len() && (#[trigger] selected[i]).dependency
                    is Pep508 implies convert_outcome(
                selected[i].dependency->Pep508_0,
                false,
                platform,
                map,
            ) is Ok by {
                if i < front.len() {
                    assert(front[i] == selected[i]);
                }
            }
        }
        if forall|i: int|
            0 <= i < selected.len() && (#[trigger] selected[i]).dependency is Pep508
                ==> convert_outcome(selected[i].dependency->Pep508_0, false, platform, map) is Ok {
            assert forall|i: int|
                0 <= i < front.len() && (#[trigger] front[i]).dependency
                    is Pep508 implies convert_outcome(
                front[i].dependency->Pep508_0,
                false,
                platform,
                map,
            ) is Ok by {
                assert(front[i] == selected[i]);
            }
        }
    }
}

/// Every failure has a line of its own, in order.
pub proof fn failures_stand_line_by_line(lines: Seq<Seq<char>>, line: Seq<char>)
    ensures
        joined_lines(seq![line]) == line,
        lines.len() > 0 ==> joined_lines(lines.push(line)) == joined_lines(lines) + "\n"@ + line,
{
    assert(lines.push(line).drop_last() =~= lines);
}

/// A declared match spec is taken as it is, under its source: by its name,
/// or by its spelling where the name is a pattern. Specifiers add nothing.
pub proof fn declared_specs_are_taken_as_they_are(selected: Seq<SelectedView>, one: SelectedView)
    ensures
        declared_entries(Seq::empty()).len() == 0,
        match one.dependency {
            DependencyView::Pep508(_) => declared_entries(selected.push(one)) == declared_entries(
                selected,
            ),
            DependencyView::Matchspec(spec) => declared_entries(selected.push(one))
                == declared_entries(selected).push(
                MatchspecEntryView {
                    name: if spec.name is Some {
                        spec.name->0
                    } else {
                        spec.canonical
                    },
                    canonical: spec.canonical,
                    spec: SpecView::Declared(spec),
                    source: one.source,
                },
            ),
        },
{
    assert(selected.push(one).drop_last() =~= selected);
}

/// Entries are ordered by name, those of the same name by spelling, and those
/// of the same spelling by source.
pub proof fn entries_rank_by_name_first(a: MatchspecEntryView, b: MatchspecEntryView)
    ensures
        a.name != b.name ==> MatchspecEntry::ranks_le(a, b) == text_le(a.name, b.name),
        a.name == b.name && a.canonical != b.canonical ==> MatchspecEntry::ranks_le(a, b)
            == text_le(a.canonical, b.canonical),
        a.name == b.name && a.canonical == b.canonical ==> MatchspecEntry::ranks_le(a, b)
            == text_le(a.source, b.source),
{
}

/// What is solved for and what is locked stand at the same positions, and so
/// does what a content key is made from; its requirements all have the same
/// source.
pub proof fn listings_go_together(
    entries: Seq<MatchspecEntryView>,
    dependencies: Seq<DependencyView>,
    source: Seq<char>,
    i: int,
)
    ensures
        specs_of(entries).len() == entries.len(),
        locked_of(entries).len() == entries.len(),
        canonical_of(entries).len() == entries.len(),
        selected_from(dependencies, source).len() == dependencies.len(),
        0 <= i < entries.len() ==> specs_of(entries)[i] == entries[i].spec
            && locked_of(entries)[i].matchspec == entries[i].canonical
            && locked_of(entries)[i].source == entries[i].source && canonical_of(entries)[i]
            == entries[i].canonical,
        0 <= i < dependencies.len() ==> selected_from(dependencies, source)[i].dependency
            == dependencies[i] && selected_from(dependencies, source)[i].source == source,
{
}

} // verus!
