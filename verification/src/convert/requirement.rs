//! A dependency specifier as a conda match spec: its mapped name, its
//! versions, its extras, and its marker as a condition.

use crate::conda::{
    matchspec_error, ConditionView, MatchSpec, MatchSpecView, VersionSpec, VersionSpecView,
};
use crate::conda_map::error::{
    invalid_mapped_name_text, InvalidMappedName, InvalidMappedNameView,
};
use crate::conda_map::load::{mapped_name, MappingHandle};
use crate::convert::version::{
    converted, converted_versions_are_read, version_spec, version_spec_keeps_meaning,
    version_spec_outcome,
};
use crate::marker::assumption::Assumption;
use crate::marker::condition::{
    conversion, converted_conditions_are_read, marker_outcome, to_matchspec_condition,
    unconvertible_text, Applicability, ApplicabilityView, Unconvertible, UnconvertibleView,
};
use crate::meaning::{
    asks_for, constraint_takes, is_published, is_regular, Point,
};
use crate::pep508::{
    LeafView, Marker, MarkerLeaf, MarkerView, Requirement, RequirementView, SourceView,
    VersionOrUrl,
};
use crate::platform::Platform;
use crate::sort::{sort, sorted, sorted_is_sorted, Ranked};
use crate::table::TableView;
use crate::text::{
    concat, concat3, decimal, decimal_of, quoted, quoted_text, same, text_le,
    text_le_antisymmetric, text_le_reflexive,
};
use vstd::prelude::*;
use vstd::string::*;
use vstd::utf8::*;

verus! {

/// How many bytes a package name or an extra may have.
pub const MAX_CEP26_NAME_LENGTH: usize = 64;

/// Why a dependency specifier has no match spec.
#[derive(Debug, Clone, PartialEq, Eq)]
pub enum ConvertError {
    /// Its marker speaks of an extra.
    Marker { marker: String },
    /// It asks for what stands at a URL.
    DirectUrl,
    /// A version has a local label.
    LocalVersionLabel { specifier: String },
    /// A version is a pre-release, and none is wanted.
    Prerelease { specifier: String },
    /// The package name is too long.
    NameTooLong { name: String, length: usize },
    /// An extra is too long.
    ExtraTooLong { extra: String, length: usize },
    /// The package name is mapped to what is no name.
    InvalidMappedName(InvalidMappedName),
    /// A version is none for conda.
    InvalidVersionLiteral { literal: String, source: String },
    /// The marker has no equivalent.
    UnconvertibleMarker(Unconvertible),
}

/// Why a dependency specifier has no match spec, as mathematical values.
pub enum ConvertErrorView {
    Marker(Seq<char>),
    DirectUrl,
    LocalVersionLabel(Seq<char>),
    Prerelease(Seq<char>),
    NameTooLong(Seq<char>, nat),
    ExtraTooLong(Seq<char>, nat),
    InvalidMappedName(InvalidMappedNameView),
    InvalidVersionLiteral(Seq<char>, Seq<char>),
    UnconvertibleMarker(UnconvertibleView),
}

impl DeepView for ConvertError {
    type V = ConvertErrorView;

    open spec fn deep_view(&self) -> ConvertErrorView {
        match self {
            ConvertError::Marker { marker } => ConvertErrorView::Marker(marker@),
            ConvertError::DirectUrl => ConvertErrorView::DirectUrl,
            ConvertError::LocalVersionLabel { specifier } => ConvertErrorView::LocalVersionLabel(
                specifier@,
            ),
            ConvertError::Prerelease { specifier } => ConvertErrorView::Prerelease(specifier@),
            ConvertError::NameTooLong { name, length } => ConvertErrorView::NameTooLong(
                name@,
                *length as nat,
            ),
            ConvertError::ExtraTooLong { extra, length } => ConvertErrorView::ExtraTooLong(
                extra@,
                *length as nat,
            ),
            ConvertError::InvalidMappedName(error) => ConvertErrorView::InvalidMappedName(
                error.deep_view(),
            ),
            ConvertError::InvalidVersionLiteral { literal, source } =>
                ConvertErrorView::InvalidVersionLiteral(literal@, source@),
            ConvertError::UnconvertibleMarker(error) => ConvertErrorView::UnconvertibleMarker(
                error.deep_view(),
            ),
        }
    }
}

/// The message of a failed conversion.
pub open spec fn convert_error_text(e: ConvertErrorView) -> Seq<char> {
    match e {
        ConvertErrorView::Marker(marker) => "requirement has an environment marker ("@
            + quoted_text(marker) + "); markers are not supported by this converter"@,
        ConvertErrorView::DirectUrl =>
            "requirement has a direct URL reference, which has no matchspec equivalent"@,
        ConvertErrorView::LocalVersionLabel(specifier) => "specifier "@ + quoted_text(specifier)
            + " has a local version label, which conda match specs cannot represent"@,
        ConvertErrorView::Prerelease(specifier) => "specifier "@ + quoted_text(specifier)
            + " is a pre-release version and allow_pre is unset"@,
        ConvertErrorView::NameTooLong(name, length) => "conda package name "@ + quoted_text(name)
            + " exceeds "@ + decimal(MAX_CEP26_NAME_LENGTH as nat) + " characters ("@ + decimal(
            length,
        ) + ")"@,
        ConvertErrorView::ExtraTooLong(extra, length) => "extra "@ + quoted_text(extra)
            + " exceeds "@ + decimal(MAX_CEP26_NAME_LENGTH as nat)
            + " characters once normalized ("@ + decimal(length) + ")"@,
        ConvertErrorView::InvalidMappedName(error) => "invalid pypi-to-conda mapping entry: "@
            + invalid_mapped_name_text(error),
        ConvertErrorView::InvalidVersionLiteral(literal, source) => quoted_text(literal)
            + " did not parse as a conda version literal: "@ + source,
        ConvertErrorView::UnconvertibleMarker(error) =>
            "marker could not be converted to a matchspec condition: "@ + unconvertible_text(error),
    }
}

impl ConvertError {
    /// The message of the error.
    pub fn to_string(&self) -> (r: String)
        ensures
            r@ == convert_error_text(self.deep_view()),
    {
        match self {
            ConvertError::Marker { marker } => {
                let shown = quoted(marker.as_str());
                concat3(
                    "requirement has an environment marker (",
                    shown.as_str(),
                    "); markers are not supported by this converter",
                )
            },
            ConvertError::DirectUrl =>
                "requirement has a direct URL reference, which has no matchspec equivalent".to_owned(),
            ConvertError::LocalVersionLabel { specifier } => {
                let shown = quoted(specifier.as_str());
                concat3(
                    "specifier ",
                    shown.as_str(),
                    " has a local version label, which conda match specs cannot represent",
                )
            },
            ConvertError::Prerelease { specifier } => {
                let shown = quoted(specifier.as_str());
                concat3(
                    "specifier ",
                    shown.as_str(),
                    " is a pre-release version and allow_pre is unset",
                )
            },
            ConvertError::NameTooLong { name, length } => {
                let shown = quoted(name.as_str());
                let limit = decimal_of(MAX_CEP26_NAME_LENGTH as u128);
                let actual = decimal_of(*length as u128);
                let mut out = concat3("conda package name ", shown.as_str(), " exceeds ");
                out.append(limit.as_str());
                out.append(" characters (");
                out.append(actual.as_str());
                out.append(")");
                out
            },
            ConvertError::ExtraTooLong { extra, length } => {
                let shown = quoted(extra.as_str());
                let limit = decimal_of(MAX_CEP26_NAME_LENGTH as u128);
                let actual = decimal_of(*length as u128);
                let mut out = concat3("extra ", shown.as_str(), " exceeds ");
                out.append(limit.as_str());
                out.append(" characters once normalized (");
                out.append(actual.as_str());
                out.append(")");
                out
            },
            ConvertError::InvalidMappedName(error) => {
                let inner = error.to_string();
                concat("invalid pypi-to-conda mapping entry: ", inner.as_str())
            },
            ConvertError::InvalidVersionLiteral { literal, source } => {
                let shown = quoted(literal.as_str());
                concat3(
                    shown.as_str(),
                    " did not parse as a conda version literal: ",
                    source.as_str(),
                )
            },
            ConvertError::UnconvertibleMarker(error) => {
                let inner = error.to_string();
                concat(
                    "marker could not be converted to a matchspec condition: ",
                    inner.as_str(),
                )
            },
        }
    }
}

/// Whether some clause of a conjunction speaks of an extra.
pub open spec fn clause_has_extra(clause: Seq<LeafView>) -> bool {
    exists|j: int| 0 <= j < clause.len() && #[trigger] clause[j] is Extra
}

/// Whether some clause of a marker speaks of an extra.
pub open spec fn has_extra(marker: MarkerView) -> bool {
    exists|i: int|
        0 <= i < marker.form.clauses.len() && clause_has_extra(#[trigger] marker.form.clauses[i])
}

fn clause_has_extra_leaf(clause: &Vec<MarkerLeaf>) -> (r: bool)
    ensures
        r == clause_has_extra(clause.deep_view()),
{
    let ghost all = clause.deep_view();
    let mut j: usize = 0;
    while j < clause.len()
        invariant
            j <= clause.len(),
            all == clause.deep_view(),
            forall|k: int| 0 <= k < j ==> !(#[trigger] all[k] is Extra),
        decreases clause.len() - j,
    {
        assert(all[j as int] == clause@[j as int].deep_view());
        if let MarkerLeaf::Extra = &clause[j] {
            assert(all[j as int] is Extra);
            return true;
        }
        j += 1;
    }
    false
}

/// Whether some clause of a marker speaks of an extra.
pub fn marker_has_extra_clause(marker: &Marker) -> (r: bool)
    ensures
        r == has_extra(marker.deep_view()),
{
    let clauses = &marker.form.clauses;
    let ghost all = marker.deep_view().form.clauses;
    let mut i: usize = 0;
    while i < clauses.len()
        invariant
            i <= clauses.len(),
            all == clauses.deep_view(),
            all == marker.deep_view().form.clauses,
            forall|k: int| 0 <= k < i ==> !clause_has_extra(#[trigger] all[k]),
        decreases clauses.len() - i,
    {
        assert(all[i as int] == clauses@[i as int].deep_view());
        if clause_has_extra_leaf(&clauses[i]) {
            assert(clause_has_extra(all[i as int]));
            return true;
        }
        i += 1;
    }
    false
}

/// How many bytes a text takes.
pub open spec fn byte_length(s: Seq<char>) -> nat {
    encode_utf8(s).len()
}

/// The conda name of a package.
pub open spec fn conda_name_outcome(map: TableView<Seq<char>>, name: Seq<char>) -> Result<
    Seq<char>,
    ConvertErrorView,
> {
    match mapped_name(map, name) {
        Err(error) => Err(ConvertErrorView::InvalidMappedName(error)),
        Ok(mapped) => if byte_length(mapped) > MAX_CEP26_NAME_LENGTH {
            Err(ConvertErrorView::NameTooLong(mapped, byte_length(mapped)))
        } else {
            Ok(mapped)
        },
    }
}

/// The conda name of a package: what it is mapped to, if that is not too
/// long.
pub fn conda_name(name: &str, pypi_to_conda_map: &MappingHandle) -> (r: Result<
    String,
    ConvertError,
>)
    ensures
        converted(r) == conda_name_outcome(pypi_to_conda_map.mapping(), name@),
{
    let mapped = match pypi_to_conda_map.get(name) {
        Ok(mapped) => mapped,
        Err(error) => return Err(ConvertError::InvalidMappedName(error)),
    };
    let bytes = mapped.as_bytes();
    let length: usize = bytes.len();
    if length > MAX_CEP26_NAME_LENGTH {
        return Err(ConvertError::NameTooLong { name: mapped.to_owned(), length });
    }
    Ok(mapped.to_owned())
}

/// Texts in order without repetitions of the one before.
pub open spec fn without_repeats(s: Seq<Seq<char>>) -> Seq<Seq<char>>
    decreases s.len(),
{
    if s.len() == 0 {
        Seq::empty()
    } else {
        let before = without_repeats(s.drop_last());
        if s.len() > 1 && s[s.len() - 2] == s.last() {
            before
        } else {
            before.push(s.last())
        }
    }
}

/// Texts without repetitions of the one before.
pub fn remove_repeats(texts: &Vec<String>) -> (r: Vec<String>)
    ensures
        r.deep_view() == without_repeats(texts.deep_view()),
{
    let ghost all = texts.deep_view();
    let mut out: Vec<String> = Vec::new();
    let mut i: usize = 0;
    assert(out.deep_view() =~= without_repeats(all.take(0)));
    while i < texts.len()
        invariant
            i <= texts.len(),
            all == texts.deep_view(),
            out.deep_view() == without_repeats(all.take(i as int)),
        decreases texts.len() - i,
    {
        assert(all.take(i + 1).drop_last() =~= all.take(i as int));
        assert(all.take(i + 1).last() == texts@[i as int]@);
        if i > 0 {
            assert(all.take(i + 1)[i - 1] == texts@[i - 1]@);
        }
        if i == 0 || !same(texts[i - 1].as_str(), texts[i].as_str()) {
            let ghost done = out.deep_view();
            out.push(texts[i].clone());
            assert(out.deep_view() =~= done.push(texts@[i as int]@));
        }
        i += 1;
    }
    assert(all.take(i as int) =~= all);
    out
}

/// The first extra that is too long, if there is one.
pub open spec fn long_extra(extras: Seq<Seq<char>>) -> Option<Seq<char>>
    decreases extras.len(),
{
    if extras.len() == 0 {
        None
    } else if let Some(extra) = long_extra(extras.drop_last()) {
        Some(extra)
    } else if byte_length(extras.last()) > MAX_CEP26_NAME_LENGTH {
        Some(extras.last())
    } else {
        None
    }
}

/// The extras that a match spec asks for: each once, in order; none where
/// there are none.
pub open spec fn extras_outcome(extras: Seq<Seq<char>>) -> Result<
    Option<Seq<Seq<char>>>,
    ConvertErrorView,
> {
    if let Some(extra) = long_extra(extras) {
        Err(ConvertErrorView::ExtraTooLong(extra, byte_length(extra)))
    } else if extras.len() == 0 {
        Ok(None)
    } else {
        Ok(Some(without_repeats(sorted::<String>(extras))))
    }
}

proof fn long_extra_first(extras: Seq<Seq<char>>, n: int)
    requires
        0 <= n <= extras.len(),
        long_extra(extras.take(n)) is Some,
    ensures
        long_extra(extras) == long_extra(extras.take(n)),
    decreases extras.len() - n,
{
    if n < extras.len() {
        assert(extras.take(n + 1).drop_last() =~= extras.take(n));
        long_extra_first(extras, n + 1);
    } else {
        assert(extras.take(n) =~= extras);
    }
}

/// The extras that a match spec asks for.
pub fn conda_extras(extras: &Vec<String>) -> (r: Result<Option<Vec<String>>, ConvertError>)
    ensures
        converted(r) == extras_outcome(extras.deep_view()),
{
    let ghost all = extras.deep_view();
    let mut i: usize = 0;
    while i < extras.len()
        invariant
            i <= extras.len(),
            all == extras.deep_view(),
            long_extra(all.take(i as int)) is None,
        decreases extras.len() - i,
    {
        assert(all.take(i + 1).drop_last() =~= all.take(i as int));
        assert(all.take(i + 1).last() == extras@[i as int]@);
        let bytes = extras[i].as_str().as_bytes();
        let length: usize = bytes.len();
        if length > MAX_CEP26_NAME_LENGTH {
            proof {
                long_extra_first(all, i + 1);
            }
            return Err(ConvertError::ExtraTooLong { extra: extras[i].clone(), length });
        }
        i += 1;
    }
    assert(all.take(i as int) =~= all);
    if extras.len() == 0 {
        return Ok(None);
    }
    let ordered = sort(extras);
    Ok(Some(remove_repeats(&ordered)))
}

/// The version constraint of a dependency specifier.
pub open spec fn source_outcome(source: Option<SourceView>, allow_pre: bool) -> Result<
    Option<VersionSpecView>,
    ConvertErrorView,
> {
    match source {
        None => Ok(None),
        Some(SourceView::Url(_)) => Err(ConvertErrorView::DirectUrl),
        Some(SourceView::Versions(specifiers)) => version_spec_outcome(specifiers, allow_pre),
    }
}

fn source_version(source: &Option<VersionOrUrl>, allow_pre: bool) -> (r: Result<
    Option<VersionSpec>,
    ConvertError,
>)
    ensures
        converted(r) == source_outcome(source.deep_view(), allow_pre),
{
    match source {
        None => Ok(None),
        Some(VersionOrUrl::Url(_)) => Err(ConvertError::DirectUrl),
        Some(VersionOrUrl::VersionSpecifier(specifiers)) => version_spec(specifiers, allow_pre),
    }
}

/// The match spec of a dependency specifier whose condition is known.
pub open spec fn spec_with_condition(
    r: RequirementView,
    condition: Option<ConditionView>,
    allow_pre: bool,
    map: TableView<Seq<char>>,
) -> Result<Option<MatchSpecView>, ConvertErrorView> {
    match source_outcome(r.version_or_url, allow_pre) {
        Err(error) => Err(error),
        Ok(version) => match conda_name_outcome(map, r.name) {
            Err(error) => Err(error),
            Ok(name) => match extras_outcome(r.extras) {
                Err(error) => Err(error),
                Ok(extras) => Ok(Some(MatchSpecView { name, version, extras, condition })),
            },
        },
    }
}

/// The match spec of a dependency specifier whose marker, on the target
/// platform, is known to say the given.
pub open spec fn spec_outcome(
    r: RequirementView,
    applies: Result<ApplicabilityView, UnconvertibleView>,
    allow_pre: bool,
    map: TableView<Seq<char>>,
) -> Result<Option<MatchSpecView>, ConvertErrorView> {
    if has_extra(r.marker) {
        Err(ConvertErrorView::Marker(r.marker_text))
    } else {
        match applies {
            Ok(ApplicabilityView::Never) => Ok(None),
            Ok(ApplicabilityView::Always) => spec_with_condition(r, None, allow_pre, map),
            Ok(ApplicabilityView::Conditionally(condition)) => spec_with_condition(
                r,
                Some(condition),
                allow_pre,
                map,
            ),
            Err(error) => Err(ConvertErrorView::UnconvertibleMarker(error)),
        }
    }
}

/// The match spec of a dependency specifier on a platform; none where its
/// marker never holds there.
pub open spec fn convert_outcome(
    r: RequirementView,
    allow_pre: bool,
    platform: Platform,
    map: TableView<Seq<char>>,
) -> Result<Option<MatchSpecView>, ConvertErrorView> {
    spec_outcome(r, marker_outcome(r.marker, platform), allow_pre, map)
}

/// The match spec of a dependency specifier, given what its marker says on
/// the target platform.
pub fn convert_applicable(
    requirement: &Requirement,
    applies: Result<Applicability, Unconvertible>,
    allow_pre: bool,
    pypi_to_conda_map: &MappingHandle,
) -> (r: Result<Option<MatchSpec>, ConvertError>)
    ensures
        converted(r) == spec_outcome(
            requirement.deep_view(),
            conversion(applies),
            allow_pre,
            pypi_to_conda_map.mapping(),
        ),
{
    if marker_has_extra_clause(&requirement.marker) {
        return Err(ConvertError::Marker { marker: requirement.marker_text.clone() });
    }
    let condition = match applies {
        Ok(Applicability::Never) => return Ok(None),
        Ok(Applicability::Always) => None,
        Ok(Applicability::Conditionally(condition)) => Some(condition),
        Err(error) => return Err(ConvertError::UnconvertibleMarker(error)),
    };
    let version = match source_version(&requirement.version_or_url, allow_pre) {
        Ok(version) => version,
        Err(error) => return Err(error),
    };
    let name = match conda_name(requirement.name.as_str(), pypi_to_conda_map) {
        Ok(name) => name,
        Err(error) => return Err(error),
    };
    let extras = match conda_extras(&requirement.extras) {
        Ok(extras) => extras,
        Err(error) => return Err(error),
    };
    Ok(Some(MatchSpec { name, version, extras, condition }))
}

/// The match spec of a dependency specifier where an assumption holds;
/// `None` where its marker never holds there. A marker that speaks of an
/// extra is an error.
pub fn convert(
    requirement: &Requirement,
    allow_pre: bool,
    assumption: &Assumption,
    pypi_to_conda_map: &MappingHandle,
) -> (r: Result<Option<MatchSpec>, ConvertError>)
    ensures
        converted(r) == convert_outcome(
            requirement.deep_view(),
            allow_pre,
            assumption.platform,
            pypi_to_conda_map.mapping(),
        ),
{
    if marker_has_extra_clause(&requirement.marker) {
        return Err(ConvertError::Marker { marker: requirement.marker_text.clone() });
    }
    let applies = to_matchspec_condition(&requirement.marker, assumption);
    convert_applicable(requirement, applies, allow_pre, pypi_to_conda_map)
}

/// The match spec of each of several dependency specifiers, at the same
/// position.
pub fn convert_all(
    requirements: &Vec<&Requirement>,
    allow_pre: bool,
    assumption: &Assumption,
    pypi_to_conda_map: &MappingHandle,
) -> (r: Vec<Result<Option<MatchSpec>, ConvertError>>)
    ensures
        r@.len() == requirements@.len(),
        forall|i: int|
            0 <= i < r@.len() ==> converted(#[trigger] r@[i]) == convert_outcome(
                requirements@[i].deep_view(),
                allow_pre,
                assumption.platform,
                pypi_to_conda_map.mapping(),
            ),
{
    let mut out: Vec<Result<Option<MatchSpec>, ConvertError>> = Vec::new();
    let mut i: usize = 0;
    while i < requirements.len()
        invariant
            i <= requirements.len(),
            out@.len() == i,
            forall|k: int|
                0 <= k < i ==> converted(#[trigger] out@[k]) == convert_outcome(
                    requirements@[k].deep_view(),
                    allow_pre,
                    assumption.platform,
                    pypi_to_conda_map.mapping(),
                ),
        decreases requirements.len() - i,
    {
        out.push(convert(requirements[i], allow_pre, assumption, pypi_to_conda_map));
        i += 1;
    }
    out
}

/// A converted specifier has a canonical spelling: conda takes every version
/// in it.
pub proof fn converted_specs_are_read(
    r: RequirementView,
    allow_pre: bool,
    platform: Platform,
    map: TableView<Seq<char>>,
)
    requires
        convert_outcome(r, allow_pre, platform, map) is Ok,
        convert_outcome(r, allow_pre, platform, map)->Ok_0 is Some,
    ensures
        matchspec_error(convert_outcome(r, allow_pre, platform, map)->Ok_0->0) is None,
{
    let spec = convert_outcome(r, allow_pre, platform, map)->Ok_0->0;
    if spec.condition is Some {
        converted_conditions_are_read(r.marker.on(platform));
    }
    if spec.version is Some {
        match r.version_or_url {
            Some(SourceView::Versions(specifiers)) => {
                converted_versions_are_read(specifiers, allow_pre);
            },
            _ => {},
        }
    }
}

/// A package goes by its mapped name, if that takes no more than sixty-four
/// bytes.
pub proof fn names_are_mapped_and_bounded(map: TableView<Seq<char>>, name: Seq<char>)
    ensures
        match mapped_name(map, name) {
            Err(error) => conda_name_outcome(map, name) == Err::<Seq<char>, ConvertErrorView>(
                ConvertErrorView::InvalidMappedName(error),
            ),
            Ok(mapped) => if encode_utf8(mapped).len() <= 64 {
                conda_name_outcome(map, name) == Ok::<Seq<char>, ConvertErrorView>(mapped)
            } else {
                conda_name_outcome(map, name) == Err::<Seq<char>, ConvertErrorView>(
                    ConvertErrorView::NameTooLong(mapped, encode_utf8(mapped).len()),
                )
            },
        },
{
}

proof fn long_extra_is_first(extras: Seq<Seq<char>>)
    ensures
        match long_extra(extras) {
            Some(extra) => exists|i: int|
                0 <= i < extras.len() && #[trigger] extras[i] == extra && encode_utf8(
                    extra,
                ).len() > 64 && forall|k: int|
                    0 <= k < i ==> encode_utf8(#[trigger] extras[k]).len() <= 64,
            None => forall|k: int|
                0 <= k < extras.len() ==> encode_utf8(#[trigger] extras[k]).len() <= 64,
        },
    decreases extras.len(),
{
    if extras.len() > 0 {
        let front = extras.drop_last();
        long_extra_is_first(front);
        if let Some(extra) = long_extra(front) {
            let i = choose|i: int|
                0 <= i < front.len() && #[trigger] front[i] == extra && encode_utf8(extra).len()
                    > 64 && forall|k: int|
                    0 <= k < i ==> encode_utf8(#[trigger] front[k]).len() <= 64;
            assert(extras[i] == extra);
            assert forall|k: int| 0 <= k < i implies encode_utf8(#[trigger] extras[k]).len()
                <= 64 by {
                assert(front[k] == extras[k]);
            }
        } else {
            assert forall|k: int| 0 <= k < extras.len() - 1 implies encode_utf8(
                #[trigger] extras[k],
            ).len() <= 64 by {
                assert(front[k] == extras[k]);
            }
            assert(extras[extras.len() - 1] == extras.last());
        }
    }
}

proof fn ascending_once(s: Seq<Seq<char>>)
    requires
        forall|i: int, j: int| 0 <= i < j < s.len() ==> text_le(#[trigger] s[i], #[trigger] s[j]),
    ensures
        ({
            let r = without_repeats(s);
            &&& forall|i: int, j: int|
                0 <= i < j < r.len() ==> text_le(#[trigger] r[i], #[trigger] r[j]) && r[i] != r[j]
            &&& forall|x: Seq<char>| #[trigger] r.contains(x) <==> s.contains(x)
            &&& s.len() > 0 ==> r.len() > 0 && r.last() == s.last()
        }),
    decreases s.len(),
{
    let r = without_repeats(s);
    if s.len() > 0 {
        let front = s.drop_last();
        assert forall|i: int, j: int| 0 <= i < j < front.len() implies text_le(
            #[trigger] front[i],
            #[trigger] front[j],
        ) by {
            assert(text_le(s[i], s[j]));
        }
        ascending_once(front);
        let before = without_repeats(front);
        let last = s.last();
        assert forall|x: Seq<char>| s.contains(x) <==> front.contains(x) || x == last by {
            if s.contains(x) {
                let i = s.index_of(x);
                if i < front.len() {
                    assert(front[i] == x);
                }
            }
            if front.contains(x) {
                let i = front.index_of(x);
                assert(s[i] == x);
            }
            assert(s[s.len() - 1] == last);
        }
        if s.len() > 1 && s[s.len() - 2] == last {
            assert(front[s.len() - 2] == last);
            assert(front.contains(last));
        } else {
            assert forall|i: int, j: int| 0 <= i < j < r.len() implies text_le(
                #[trigger] r[i],
                #[trigger] r[j],
            ) && r[i] != r[j] by {
                if j < before.len() {
                    assert(text_le(before[i], before[j]));
                } else {
                    assert(before.contains(before[i]));
                    assert(front.contains(before[i]));
                    let k = choose|k: int| 0 <= k < front.len() && front[k] == before[i];
                    assert(text_le(s[k], s[s.len() - 1]));
                    if before[i] == last {
                        assert(text_le(s[s.len() - 2], s[s.len() - 1]));
                        if k < s.len() - 2 {
                            assert(text_le(s[k], s[s.len() - 2]));
                        }
                        text_le_reflexive(last);
                        text_le_antisymmetric(s[s.len() - 2], last);
                    }
                }
            }
            assert forall|x: Seq<char>| #[trigger] r.contains(x) <==> s.contains(x) by {
                if r.contains(x) {
                    let i = r.index_of(x);
                    if i < before.len() {
                        assert(before[i] == x);
                        assert(before.contains(x));
                    }
                }
                if front.contains(x) {
                    assert(before.contains(x));
                    let i = before.index_of(x);
                    assert(r[i] == x);
                }
                assert(r[r.len() - 1] == last);
            }
        }
    }
}

/// The extras of a match spec are those of the specifier, each once, in
/// ascending order; there are none where the specifier has none, and the
/// first that takes more than sixty-four bytes is an error.
pub proof fn extras_are_kept(extras: Seq<Seq<char>>)
    ensures
        match extras_outcome(extras) {
            Ok(None) => extras.len() == 0,
            Ok(Some(r)) => {
                &&& extras.len() > 0
                &&& forall|x: Seq<char>| #[trigger] r.contains(x) <==> extras.contains(x)
                &&& forall|i: int, j: int|
                    0 <= i < j < r.len() ==> text_le(#[trigger] r[i], #[trigger] r[j]) && r[i]
                        != r[j]
                &&& forall|k: int|
                    0 <= k < extras.len() ==> encode_utf8(#[trigger] extras[k]).len() <= 64
            },
            Err(ConvertErrorView::ExtraTooLong(extra, length)) => length == encode_utf8(extra).len()
                && exists|i: int|
                0 <= i < extras.len() && #[trigger] extras[i] == extra && length > 64 && forall|
                    k: int,
                |
                    0 <= k < i ==> encode_utf8(#[trigger] extras[k]).len() <= 64,
            Err(_) => false,
        },
{
    broadcast use vstd::seq_lib::group_to_multiset_ensures;

    long_extra_is_first(extras);
    if long_extra(extras) is None && extras.len() > 0 {
        sorted_is_sorted::<String>(extras);
        let s = sorted::<String>(extras);
        assert forall|i: int, j: int| 0 <= i < j < s.len() implies text_le(
            #[trigger] s[i],
            #[trigger] s[j],
        ) by {
            assert(String::ranks_le(s[i], s[j]));
        }
        ascending_once(s);
        assert forall|x: Seq<char>| #[trigger] without_repeats(s).contains(x) <==> extras.contains(
            x,
        ) by {
            assert(s.to_multiset().count(x) == extras.to_multiset().count(x));
        }
    }
}

/// What a dependency specifier becomes on a platform, step by step: one
/// whose marker speaks of an extra is an error; one that never applies there
/// is left out, whatever else it says; one whose marker has no condition is
/// an error, and so is one that asks for a URL. Otherwise its match spec has
/// the mapped name, the extras, and a condition exactly where it does not
/// always apply.
pub proof fn converted_spec_says_all(
    r: RequirementView,
    allow_pre: bool,
    platform: Platform,
    map: TableView<Seq<char>>,
)
    ensures
        ({
            let found = convert_outcome(r, allow_pre, platform, map);
            let applies = marker_outcome(r.marker, platform);
            let speaks_of_extra = exists|i: int, j: int|
                #![trigger r.marker.form.clauses[i][j]]
                0 <= i < r.marker.form.clauses.len() && 0 <= j < r.marker.form.clauses[i].len()
                    && r.marker.form.clauses[i][j] is Extra;
            if speaks_of_extra {
                found == Err::<Option<MatchSpecView>, ConvertErrorView>(
                    ConvertErrorView::Marker(r.marker_text),
                )
            } else if applies is Err {
                found == Err::<Option<MatchSpecView>, ConvertErrorView>(
                    ConvertErrorView::UnconvertibleMarker(applies->Err_0),
                )
            } else if applies->Ok_0 is Never {
                found == Ok::<Option<MatchSpecView>, ConvertErrorView>(None)
            } else if r.version_or_url is Some && r.version_or_url->0 is Url {
                found == Err::<Option<MatchSpecView>, ConvertErrorView>(ConvertErrorView::DirectUrl)
            } else {
                match found {
                    Ok(Some(spec)) => {
                        &&& mapped_name(map, r.name) == Ok::<
                            Seq<char>,
                            InvalidMappedNameView,
                        >(spec.name)
                        &&& extras_outcome(r.extras) == Ok::<
                            Option<Seq<Seq<char>>>,
                            ConvertErrorView,
                        >(spec.extras)
                        &&& applies->Ok_0 is Always ==> spec.condition is None
                        &&& applies->Ok_0 is Conditionally ==> spec.condition == Some(
                            applies->Ok_0->Conditionally_0,
                        )
                        &&& r.version_or_url is None ==> spec.version is None
                        &&& r.version_or_url is Some ==> version_spec_outcome(
                            r.version_or_url->0->Versions_0,
                            allow_pre,
                        ) == Ok::<Option<VersionSpecView>, ConvertErrorView>(spec.version)
                    },
                    Ok(None) => false,
                    Err(_) => (r.version_or_url is Some && version_spec_outcome(
                        r.version_or_url->0->Versions_0,
                        allow_pre,
                    ) is Err) || conda_name_outcome(map, r.name) is Err || extras_outcome(r.extras)
                        is Err,
                }
            }
        }),
{
    let clauses = r.marker.form.clauses;
    if has_extra(r.marker) {
        let i = choose|i: int| 0 <= i < clauses.len() && clause_has_extra(#[trigger] clauses[i]);
        let j = choose|j: int| 0 <= j < clauses[i].len() && #[trigger] clauses[i][j] is Extra;
        assert(r.marker.form.clauses[i][j] is Extra);
    }
    if exists|i: int, j: int|
        #![trigger r.marker.form.clauses[i][j]]
        0 <= i < r.marker.form.clauses.len() && 0 <= j < r.marker.form.clauses[i].len()
            && r.marker.form.clauses[i][j] is Extra {
        let (i, j) = choose|i: int, j: int|
            #![trigger r.marker.form.clauses[i][j]]
            0 <= i < r.marker.form.clauses.len() && 0 <= j < r.marker.form.clauses[i].len()
                && r.marker.form.clauses[i][j] is Extra;
        assert(clause_has_extra(clauses[i]));
    }
}

/// The match spec of a dependency specifier takes exactly the published
/// versions that every one of its specifiers asks for; all of them where it
/// has none.
pub proof fn converted_spec_takes_what_is_asked_for(
    r: RequirementView,
    allow_pre: bool,
    platform: Platform,
    map: TableView<Seq<char>>,
    p: Point,
)
    requires
        is_published(p),
        convert_outcome(r, allow_pre, platform, map) is Ok,
        convert_outcome(r, allow_pre, platform, map)->Ok_0 is Some,
        r.version_or_url is Some ==> forall|i: int|
            0 <= i < r.version_or_url->0->Versions_0.len() ==> {
                let s = #[trigger] r.version_or_url->0->Versions_0[i];
                is_regular(s.version) && (s.operator is TildeEqual ==> s.version.release.len() >= 2
                    && s.version.release[s.version.release.len() - 2] < u64::MAX)
            },
    ensures
        ({
            let spec = convert_outcome(r, allow_pre, platform, map)->Ok_0->0;
            (spec.version is None || constraint_takes(spec.version->0, p)) <==> (
            r.version_or_url is Some ==> forall|i: int|
                0 <= i < r.version_or_url->0->Versions_0.len() ==> asks_for(
                    (#[trigger] r.version_or_url->0->Versions_0[i]).operator,
                    r.version_or_url->0->Versions_0[i].version,
                    p,
                ))
        }),
{
    converted_spec_says_all(r, allow_pre, platform, map);
    if r.version_or_url is Some {
        version_spec_keeps_meaning(r.version_or_url->0->Versions_0, allow_pre, p);
    }
}

/// Each refusal says why, and quotes what it is about.
pub proof fn refusals_say_why(
    text: Seq<char>,
    length: nat,
    source: Seq<char>,
    error: InvalidMappedNameView,
    marker: UnconvertibleView,
)
    ensures
        convert_error_text(ConvertErrorView::Marker(text)) == "requirement has an environment marker ("@
            + quoted_text(text) + "); markers are not supported by this converter"@,
        convert_error_text(ConvertErrorView::DirectUrl)
            == "requirement has a direct URL reference, which has no matchspec equivalent"@,
        convert_error_text(ConvertErrorView::LocalVersionLabel(text)) == "specifier "@ + quoted_text(
            text,
        ) + " has a local version label, which conda match specs cannot represent"@,
        convert_error_text(ConvertErrorView::Prerelease(text)) == "specifier "@ + quoted_text(text)
            + " is a pre-release version and allow_pre is unset"@,
        convert_error_text(ConvertErrorView::NameTooLong(text, length)) == "conda package name "@
            + quoted_text(text) + " exceeds "@ + decimal(64) + " characters ("@ + decimal(length)
            + ")"@,
        convert_error_text(ConvertErrorView::ExtraTooLong(text, length)) == "extra "@ + quoted_text(
            text,
        ) + " exceeds "@ + decimal(64) + " characters once normalized ("@ + decimal(length) + ")"@,
        convert_error_text(ConvertErrorView::InvalidMappedName(error))
            == "invalid pypi-to-conda mapping entry: "@ + invalid_mapped_name_text(error),
        convert_error_text(ConvertErrorView::InvalidVersionLiteral(text, source)) == quoted_text(
            text,
        ) + " did not parse as a conda version literal: "@ + source,
        convert_error_text(ConvertErrorView::UnconvertibleMarker(marker))
            == "marker could not be converted to a matchspec condition: "@ + unconvertible_text(
            marker,
        ),
{
}

} // verus!
