use ana::conda::{Clause, Comparator, Condition};
use ana::marker::condition::{convert_leaf, convert_membership, convert_specifier, format_release};
use ana::marker::{format_version, known_values_assumption, to_matchspec_condition, Unconvertible};
use ana::pep440::{Operator, Version};
use ana::pep508::{parse_requirement, parse_requirement_in, MarkerLeaf, NormalForm};
use ana::platform::Platform;
use rattler_conda_types::{
    EqualityOperator, MatchSpec, MatchSpecCondition, PackageName, PackageNameMatcher,
    ParseStrictness, RangeOperator, StrictRangeOperator, StrictVersion, Version as CondaVersion,
    VersionSpec,
};
use std::str::FromStr;
use uv_pep440::{Version as PypiVersion, VersionSpecifier};

/// An applicability whose condition is conda's own type.
#[derive(Debug, PartialEq)]
enum Applicability {
    Always,
    Conditionally(MatchSpecCondition),
    Never,
}

fn conda_clause(clause: &Clause) -> VersionSpec {
    let version = CondaVersion::from_str(&clause.version).unwrap();
    match clause.comparator {
        Comparator::Greater => VersionSpec::Range(RangeOperator::Greater, version),
        Comparator::GreaterEquals => VersionSpec::Range(RangeOperator::GreaterEquals, version),
        Comparator::Less => VersionSpec::Range(RangeOperator::Less, version),
        Comparator::LessEquals => VersionSpec::Range(RangeOperator::LessEquals, version),
        Comparator::Equals => VersionSpec::Exact(EqualityOperator::Equals, version),
        Comparator::NotEquals => VersionSpec::Exact(EqualityOperator::NotEquals, version),
        Comparator::StartsWith => VersionSpec::StrictRange(
            StrictRangeOperator::StartsWith,
            StrictVersion::from(version),
        ),
        Comparator::NotStartsWith => VersionSpec::StrictRange(
            StrictRangeOperator::NotStartsWith,
            StrictVersion::from(version),
        ),
    }
}


fn conda_condition(condition: &Condition) -> MatchSpecCondition {
    match condition {
        Condition::Python(clause) => MatchSpecCondition::MatchSpec(Box::new(MatchSpec {
            name: PackageNameMatcher::Exact(PackageName::new_unchecked("python")),
            version: Some(conda_clause(clause)),
            ..MatchSpec::default()
        })),
        Condition::And(a, b) => {
            MatchSpecCondition::And(Box::new(conda_condition(a)), Box::new(conda_condition(b)))
        }
        Condition::Or(a, b) => {
            MatchSpecCondition::Or(Box::new(conda_condition(a)), Box::new(conda_condition(b)))
        }
    }
}

/// The marker of `entry`, converted under the known values of `subdir`.
fn convert(entry: &str, subdir: Platform) -> Result<Applicability, Unconvertible> {
    let requirement = parse_requirement(entry).unwrap();
    let assumption = known_values_assumption(subdir).unwrap();
    let applicability = to_matchspec_condition(&requirement.marker, &assumption)?;
    Ok(match applicability {
        ana::marker::Applicability::Always => Applicability::Always,
        ana::marker::Applicability::Conditionally(condition) => {
            Applicability::Conditionally(conda_condition(&condition))
        }
        ana::marker::Applicability::Never => Applicability::Never,
    })
}

/// The condition `python<version_spec>`.
fn python(version_spec: &str) -> MatchSpecCondition {
    MatchSpecCondition::MatchSpec(Box::new(MatchSpec {
        name: PackageNameMatcher::Exact(PackageName::new_unchecked("python")),
        version: Some(VersionSpec::from_str(version_spec, ParseStrictness::Lenient).unwrap()),
        ..MatchSpec::default()
    }))
}

/// `MatchSpecCondition::And`, for building expected multi-leaf
/// values -- each `MarkerExpression` leaf converts independently, so
/// two clauses on the same key (e.g. a `~=` expansion's `>=`/`<`
/// pair) stay two nested `MatchSpecCondition::MatchSpec` leaves,
/// never merged into one `VersionSpec::Group`.
fn and2(a: MatchSpecCondition, b: MatchSpecCondition) -> MatchSpecCondition {
    MatchSpecCondition::And(Box::new(a), Box::new(b))
}

/// [`and2`]'s `Or` counterpart.
fn or2(a: MatchSpecCondition, b: MatchSpecCondition) -> MatchSpecCondition {
    MatchSpecCondition::Or(Box::new(a), Box::new(b))
}

/// A `python_full_version` sweep crossing every boundary these
/// tests care about: pre-3.9, 3.9's own pre-/dev-/post-release
/// stages, 3.9.0 itself, later patches, the 3.10 boundary, a
/// double-digit minor, and a major bump.
const CANDIDATES: &[&str] = &[
    "2.7.18",
    "3.7.9",
    "3.8.0",
    "3.8.16",
    "3.9.0.dev0",
    "3.9.0a0",
    "3.9.0a1",
    "3.9.0b1",
    "3.9.0rc1",
    "3.9.0",
    "3.9.0.post1",
    "3.9.1",
    "3.9.20",
    "3.10.0a0",
    "3.10.0",
    "3.10.5",
    "3.13.0",
    "3.13.2",
    "4.0.0a0",
    "4.0.0",
];

/// `full_version`'s `major.minor`, truncated the way a real
/// interpreter's `python_version` always is relative to its
/// `python_full_version` (`sys.version_info[:2]`) -- taken on
/// faith as this oracle's one definitional assumption.
fn python_version_of(full_version: &str) -> PypiVersion {
    let version = PypiVersion::from_str(full_version).unwrap();
    let release = version.release();
    PypiVersion::from_str(&format!(
        "{}.{}",
        release.first().copied().unwrap_or(0),
        release.get(1).copied().unwrap_or(0)
    ))
    .unwrap()
}

fn pip_ordered_reference(
    key: &str,
    operator: &str,
    literal: &str,
    full_version: &str,
) -> bool {
    let literal_version = PypiVersion::from_str(literal).unwrap();
    let subject = if key == "python_version" {
        python_version_of(full_version)
    } else {
        PypiVersion::from_str(full_version).unwrap()
    };
    match operator {
        ">=" => subject >= literal_version,
        ">" => subject > literal_version,
        "<=" => subject <= literal_version,
        "<" => subject < literal_version,
        other => unreachable!("not an ordered comparator: {other:?}"),
    }
}

/// Whether `condition` holds for `python`, via a recursive walk
/// over the typed [`MatchSpecCondition`] tree.
fn condition_holds(condition: &MatchSpecCondition, python: &CondaVersion) -> bool {
    match condition {
        MatchSpecCondition::And(a, b) => {
            condition_holds(a, python) && condition_holds(b, python)
        }
        MatchSpecCondition::Or(a, b) => {
            condition_holds(a, python) || condition_holds(b, python)
        }
        MatchSpecCondition::MatchSpec(spec) => spec
            .version
            .as_ref()
            .is_none_or(|version_spec| version_spec.matches(python)),
    }
}

/// [`Applicability`]'s own "does this hold" question, for a given
/// `python` candidate.
fn applicability_holds(applicability: &Applicability, python: &CondaVersion) -> bool {
    match applicability {
        Applicability::Always => true,
        Applicability::Never => false,
        Applicability::Conditionally(condition) => condition_holds(condition, python),
    }
}

fn assert_ordered_comparator_agrees_with_pip(
    key: &str,
    operator: &str,
    literal: &str,
    candidates: &[&str],
) {
    let marker = format!(r#"{key} {operator} "{literal}""#);
    let applicability = convert(&format!("requests; {marker}"), Platform::Linux64).unwrap();
    for candidate in candidates {
        let pip_result = pip_ordered_reference(key, operator, literal, candidate);
        let python: CondaVersion = candidate.parse().unwrap();
        let matchspec_result = applicability_holds(&applicability, &python);
        assert_eq!(
            pip_result, matchspec_result,
            "marker {marker:?} candidate {candidate:?}: pip says {pip_result}, \
                     matchspec says {matchspec_result}"
        );
    }
}

fn pip_equality_reference(
    key: &str,
    operator: &str,
    literal: &str,
    full_version: &str,
) -> bool {
    let subject = if key == "python_version" {
        python_version_of(full_version)
    } else {
        PypiVersion::from_str(full_version).unwrap()
    };
    let specifier = VersionSpecifier::from_str(&format!("{operator}{literal}")).unwrap();
    specifier.contains(&subject)
}

/// The independent ground truth `python_version in/not in
/// "<literal>"` holds for `full_version` -- a plain substring
/// test against `literal`, PEP 508's own definition,
/// deliberately not the range-arithmetic shape `uv_pep508`'s
/// canonicalization assumes.
fn pip_membership_reference(negated: bool, literal: &str, full_version: &str) -> bool {
    let subject = python_version_of(full_version).to_string();
    let contains = literal.contains(&subject);
    if negated {
        !contains
    } else {
        contains
    }
}

/// [`assert_ordered_comparator_agrees_with_pip`]'s `==`/`!=`
/// counterpart.
fn assert_equality_agrees_with_pip(
    key: &str,
    operator: &str,
    literal: &str,
    candidates: &[&str],
) {
    let marker = format!(r#"{key} {operator} "{literal}""#);
    let applicability = convert(&format!("requests; {marker}"), Platform::Linux64).unwrap();
    for candidate in candidates {
        let pip_result = pip_equality_reference(key, operator, literal, candidate);
        let python: CondaVersion = candidate.parse().unwrap();
        let matchspec_result = applicability_holds(&applicability, &python);
        assert_eq!(
            pip_result, matchspec_result,
            "marker {marker:?} candidate {candidate:?}: pip says {pip_result}, \
                     matchspec says {matchspec_result}"
        );
    }
}

/// [`assert_ordered_comparator_agrees_with_pip`]'s `in`/`not in`
/// counterpart.
fn assert_membership_agrees_with_pip(negated: bool, literal: &str, candidates: &[&str]) {
    let keyword = if negated { "not in" } else { "in" };
    let marker = format!(r#"python_version {keyword} "{literal}""#);
    let applicability = convert(&format!("requests; {marker}"), Platform::Linux64).unwrap();
    for candidate in candidates {
        let pip_result = pip_membership_reference(negated, literal, candidate);
        let python: CondaVersion = candidate.parse().unwrap();
        let matchspec_result = applicability_holds(&applicability, &python);
        assert_eq!(
            pip_result, matchspec_result,
            "marker {marker:?} candidate {candidate:?}: pip says {pip_result}, \
                     matchspec says {matchspec_result}"
        );
    }
}

#[test]
fn a_marker_free_requirement_is_always_applicable() {
    assert_eq!(
        convert("requests", Platform::Linux64).unwrap(),
        Applicability::Always
    );
}

#[test]
fn a_marker_that_holds_given_known_values_is_always_applicable() {
    assert_eq!(
        convert(r#"requests; sys_platform == "linux""#, Platform::Linux64).unwrap(),
        Applicability::Always
    );
}

#[test]
fn a_marker_that_cannot_hold_given_known_values_is_never_applicable() {
    assert_eq!(
        convert(r#"requests; sys_platform == "win32""#, Platform::Linux64).unwrap(),
        Applicability::Never
    );
}

#[test]
fn a_pure_free_variable_marker_is_conditionally_applicable() {
    assert_eq!(
        convert(r#"requests; python_version >= "3.9""#, Platform::Linux64).unwrap(),
        Applicability::Conditionally(python(">=3.9.0a0"))
    );
}

#[test]
fn a_known_and_free_conjunction_collapses_to_just_the_free_part() {
    assert_eq!(
        convert(
            r#"requests; sys_platform == "linux" and python_version >= "3.9""#,
            Platform::Linux64
        )
        .unwrap(),
        Applicability::Conditionally(python(">=3.9.0a0"))
    );
}

#[test]
fn a_known_false_and_free_conjunction_is_never_applicable() {
    assert_eq!(
        convert(
            r#"requests; sys_platform == "win32" and python_version >= "3.9""#,
            Platform::Linux64
        )
        .unwrap(),
        Applicability::Never
    );
}

#[test]
fn a_known_true_or_free_disjunction_is_always_applicable() {
    assert_eq!(
        convert(
            r#"requests; sys_platform == "linux" or python_version >= "3.9""#,
            Platform::Linux64
        )
        .unwrap(),
        Applicability::Always
    );
}

#[test]
fn greater_than_equal_gets_the_pre_release_anchor() {
    assert_eq!(
        convert(r#"requests; python_version >= "3.9""#, Platform::Linux64).unwrap(),
        Applicability::Conditionally(python(">=3.9.0a0"))
    );
}

#[test]
fn less_than_becomes_next_minor_exclusive() {
    // Anchored at `.0a0` so a pre-release build of 3.9 is
    // excluded too, not just final releases.
    assert_eq!(
        convert(r#"requests; python_version < "3.9""#, Platform::Linux64).unwrap(),
        Applicability::Conditionally(python("<3.9.0a0"))
    );
}

#[test]
fn less_than_equal_becomes_next_minor_exclusive_upper_bound() {
    assert_eq!(
        convert(r#"requests; python_version <= "3.9""#, Platform::Linux64).unwrap(),
        Applicability::Conditionally(python("<3.10.0a0"))
    );
}

#[test]
fn greater_than_becomes_next_minor_inclusive_lower_bound() {
    assert_eq!(
        convert(r#"requests; python_version > "3.9""#, Platform::Linux64).unwrap(),
        Applicability::Conditionally(python(">=3.10.0a0"))
    );
}

#[test]
fn equality_becomes_an_anchored_two_clause_range() {
    assert_eq!(
        convert(r#"requests; python_version == "3.9""#, Platform::Linux64).unwrap(),
        Applicability::Conditionally(and2(python(">=3.9.0a0"), python("<3.10.0a0")))
    );
}

#[test]
fn inequality_becomes_a_fuzzy_minor_exclusion() {
    assert_eq!(
        convert(r#"requests; python_version != "3.9""#, Platform::Linux64).unwrap(),
        Applicability::Conditionally(python("!=3.9.*"))
    );
}

/// A bare major literal normalizes to minor `0`, so the bound is
/// the *next* minor (`3.1`), not the next major -- unlike the
/// `3.*` glob case below, which is two independent `Version`
/// leaves, not one `EqualStar` leaf.
#[test]
fn single_major_segment_equality_still_converts() {
    assert_eq!(
        convert(r#"requests; python_version == "3""#, Platform::Linux64).unwrap(),
        Applicability::Conditionally(and2(python(">=3.0.0a0"), python("<3.1.0a0")))
    );
}

#[test]
fn condition_reversed_comparison_operand_order_still_converts() {
    assert_eq!(
        convert(r#"requests; "3.9" <= python_version"#, Platform::Linux64).unwrap(),
        Applicability::Conditionally(python(">=3.9.0a0"))
    );
}

/// Two separate `Version` clauses in the same DNF `and`-group
/// convert to two nested leaves, see [`and2`]'s docs; both
/// boundaries get the `.0a0` anchor.
#[test]
fn major_glob_equality_converts_to_a_range() {
    assert_eq!(
        convert(r#"requests; python_version == "3.*""#, Platform::Linux64).unwrap(),
        Applicability::Conditionally(and2(python(">=3.0.0a0"), python("<4.0.0a0")))
    );
}

#[test]
fn compatible_release_is_pre_expanded_and_converts() {
    assert_eq!(
        convert(r#"requests; python_version ~= "3.9""#, Platform::Linux64).unwrap(),
        Applicability::Conditionally(and2(python(">=3.9.0a0"), python("<4.0.0a0")))
    );
}

/// `uv_pep508` expands the literal into a plain range directly;
/// both boundaries get the `.0a0` anchor.
#[test]
fn in_marker_converts_to_a_bounded_range() {
    assert_eq!(
        convert(
            r#"requests; python_version in "3.9 3.10""#,
            Platform::Linux64
        )
        .unwrap(),
        Applicability::Conditionally(and2(python(">=3.9.0a0"), python("<3.11.0a0")))
    );
}

#[test]
fn not_in_marker_converts_to_an_excluded_range() {
    assert_eq!(
        convert(
            r#"requests; python_version not in "3.9 3.10""#,
            Platform::Linux64
        )
        .unwrap(),
        Applicability::Conditionally(or2(python("<3.9.0a0"), python(">=3.11.0a0")))
    );
}

#[test]
fn python_full_version_passes_through_directly() {
    assert_eq!(
        convert(
            r#"requests; python_full_version >= "3.9.5""#,
            Platform::Linux64
        )
        .unwrap(),
        Applicability::Conditionally(python(">=3.9.5"))
    );
}

#[test]
fn exact_full_version_equality_is_not_fuzzy() {
    // uv_pep508 emits a plain `Equal`, not `EqualStar`, when the
    // literal has no ambiguity to collapse.
    assert_eq!(
        convert(
            r#"requests; python_full_version == "3.9.5""#,
            Platform::Linux64
        )
        .unwrap(),
        Applicability::Conditionally(python("==3.9.5"))
    );
}

/// `implementation_version` converts identically to
/// `python_full_version` -- CPython is the only supported
/// interpreter.
#[test]
fn implementation_version_converts_the_same_as_python_full_version() {
    assert_eq!(
        convert(
            r#"requests; implementation_version >= "3.9.5""#,
            Platform::Linux64
        )
        .unwrap(),
        Applicability::Conditionally(python(">=3.9.5"))
    );
}

#[test]
fn prerelease_literal_converts_without_any_allow_pre_concept() {
    assert_eq!(
        convert(
            r#"requests; python_full_version >= "3.9.0rc1""#,
            Platform::Linux64
        )
        .unwrap(),
        Applicability::Conditionally(python(">=3.9.0a0"))
    );
}

#[test]
fn condition_greater_than_equal_agrees_with_pip_across_every_candidate() {
    assert_ordered_comparator_agrees_with_pip(
        "python_version",
        ">=",
        "3.9",
        CANDIDATES,
    );
    assert_ordered_comparator_agrees_with_pip(
        "python_full_version",
        ">=",
        "3.9.1",
        CANDIDATES,
    );
}

#[test]
fn greater_than_agrees_with_pip_across_every_candidate() {
    assert_ordered_comparator_agrees_with_pip("python_version", ">", "3.9", CANDIDATES);
}

#[test]
fn condition_less_than_agrees_with_pip_across_every_candidate() {
    assert_ordered_comparator_agrees_with_pip("python_version", "<", "3.9", CANDIDATES);
    assert_ordered_comparator_agrees_with_pip(
        "python_full_version",
        "<",
        "3.9.1",
        CANDIDATES,
    );
}

#[test]
fn less_than_equal_agrees_with_pip_across_every_candidate() {
    assert_ordered_comparator_agrees_with_pip(
        "python_version",
        "<=",
        "3.9",
        CANDIDATES,
    );
}

#[test]
fn crossing_the_double_digit_minor_boundary_agrees_with_pip() {
    assert_ordered_comparator_agrees_with_pip(
        "python_version",
        ">=",
        "3.13",
        CANDIDATES,
    );
}

#[test]
fn implementation_version_agrees_with_pip_across_every_candidate() {
    assert_ordered_comparator_agrees_with_pip(
        "implementation_version",
        ">=",
        "3.9.1",
        CANDIDATES,
    );
}

#[test]
fn two_segment_literal_agrees_with_pip_outside_the_known_tradeoff_gap() {
    let candidates: Vec<&str> = CANDIDATES
        .iter()
        .copied()
        .filter(|candidate| {
            !matches!(
                *candidate,
                "3.9.0.dev0" | "3.9.0a0" | "3.9.0a1" | "3.9.0b1" | "3.9.0rc1"
            )
        })
        .collect();
    assert_ordered_comparator_agrees_with_pip(
        "python_full_version",
        ">=",
        "3.9",
        &candidates,
    );
}

#[test]
fn condition_equality_agrees_with_pip_across_every_candidate() {
    assert_equality_agrees_with_pip("python_version", "==", "3.9", CANDIDATES);
    assert_equality_agrees_with_pip(
        "python_full_version",
        "==",
        "3.9.1",
        CANDIDATES,
    );
}

#[test]
fn condition_inequality_agrees_with_pip_across_every_candidate() {
    assert_equality_agrees_with_pip("python_version", "!=", "3.9", CANDIDATES);
    assert_equality_agrees_with_pip(
        "python_full_version",
        "!=",
        "3.9.1",
        CANDIDATES,
    );
}

#[test]
fn major_glob_equality_agrees_with_pip_across_every_candidate() {
    assert_equality_agrees_with_pip("python_version", "==", "3.*", CANDIDATES);
}

#[test]
fn major_glob_inequality_agrees_with_pip_across_every_candidate() {
    assert_equality_agrees_with_pip("python_version", "!=", "3.*", CANDIDATES);
}

#[test]
fn glob_equality_agrees_with_pip_across_every_candidate() {
    let candidates: Vec<&str> = CANDIDATES
        .iter()
        .copied()
        .filter(|candidate| {
            !matches!(
                *candidate,
                "3.9.0.dev0" | "3.9.0a0" | "3.9.0a1" | "3.9.0b1" | "3.9.0rc1"
            )
        })
        .collect();
    assert_equality_agrees_with_pip(
        "python_full_version",
        "==",
        "3.9.*",
        &candidates,
    );
}

#[test]
fn glob_inequality_agrees_with_pip_across_every_candidate() {
    let candidates: Vec<&str> = CANDIDATES
        .iter()
        .copied()
        .filter(|candidate| {
            !matches!(
                *candidate,
                "3.9.0.dev0" | "3.9.0a0" | "3.9.0a1" | "3.9.0b1" | "3.9.0rc1"
            )
        })
        .collect();
    assert_equality_agrees_with_pip(
        "python_full_version",
        "!=",
        "3.9.*",
        &candidates,
    );
}

#[test]
fn implementation_version_equality_agrees_with_pip_across_every_candidate() {
    assert_equality_agrees_with_pip(
        "implementation_version",
        "==",
        "3.9.1",
        CANDIDATES,
    );
}

#[test]
fn space_separated_in_agrees_with_pip_across_every_candidate() {
    assert_membership_agrees_with_pip(false, "3.8 3.9 3.13", CANDIDATES);
}

#[test]
fn space_separated_not_in_agrees_with_pip_across_every_candidate() {
    assert_membership_agrees_with_pip(true, "3.8 3.9 3.13", CANDIDATES);
}

#[test]
fn condition_combined_marker_preserves_and_or_structure() {
    assert_eq!(
        convert(
            r#"requests; sys_platform == "win32" and python_version >= "3.9""#,
            Platform::Linux64
        )
        .unwrap(),
        Applicability::Never
    );
    // A build targeting an unknown platform would keep both
    // sides here.
    assert_eq!(
        convert(
            r#"requests; sys_platform == "win32" and python_version >= "3.9""#,
            Platform::Win64
        )
        .unwrap(),
        Applicability::Conditionally(python(">=3.9.0a0"))
    );
}

#[test]
fn conjunction_of_two_free_variable_clauses_preserves_and() {
    assert_eq!(
        convert(
            r#"requests; python_version >= "3.9" and implementation_version < "3.12""#,
            Platform::Linux64
        )
        .unwrap(),
        Applicability::Conditionally(and2(python("<3.12.0a0"), python(">=3.9.0a0")))
    );
}

#[test]
fn platform_release_has_no_matchspec_equivalent() {
    let err = convert(
        r#"requests; platform_release == "5.10.0""#,
        Platform::Linux64,
    )
    .unwrap_err();
    assert!(
        matches!(err, Unconvertible::NoMatchspecEquivalent { .. }),
        "{err:?}"
    );
}

#[test]
fn platform_version_has_no_matchspec_equivalent() {
    let err = convert(
        r#"requests; platform_version == "5.10.0-generic""#,
        Platform::Linux64,
    )
    .unwrap_err();
    assert!(
        matches!(err, Unconvertible::NoMatchspecEquivalent { .. }),
        "{err:?}"
    );
}

/// A `platform_release` clause alongside a free-variable clause
/// still fails -- the free variable alone doesn't rescue a
/// marker that also depends on a key with no matchspec
/// equivalent.
#[test]
fn excluded_key_combined_with_the_free_variable_is_unconvertible() {
    let err = convert(
        r#"requests; platform_release == "5.10.0" and python_version >= "3.9""#,
        Platform::Linux64,
    )
    .unwrap_err();
    assert!(
        matches!(err, Unconvertible::NoMatchspecEquivalent { .. }),
        "{err:?}"
    );
}

#[test]
fn forward_in_python_version_still_converts_correctly() {
    assert_eq!(
        convert(r#"requests; python_version in "3.11""#, Platform::Linux64).unwrap(),
        Applicability::Conditionally(and2(python(">=3.11.0a0"), python("<3.12.0a0")))
    );
}

#[test]
fn reversed_in_sys_platform_still_produces_a_real_expression() {
    let err = convert(r#"requests; "nux" in sys_platform"#, Platform::Linux64).unwrap_err();
    assert!(
        matches!(
            &err,
            Unconvertible::NoMatchspecEquivalent { key } if key == "sys_platform"
        ),
        "{err:?}"
    );
}

/// Same contrast for `not in`.
#[test]
fn reversed_not_in_sys_platform_still_produces_a_real_expression() {
    let err =
        convert(r#"requests; "nux" not in sys_platform"#, Platform::Linux64).unwrap_err();
    assert!(
        matches!(
            &err,
            Unconvertible::NoMatchspecEquivalent { key } if key == "sys_platform"
        ),
        "{err:?}"
    );
}

fn final_release(release: &[u64]) -> Version {
    Version {
        epoch: 0,
        release: release.to_vec(),
        pre: None,
        post: None,
        dev: None,
        local: false,
    }
}

fn python_leaf(comparator: Comparator, version: &str) -> Condition {
    Condition::Python(Clause {
        comparator,
        version: version.to_string(),
    })
}

#[test]
fn a_version_is_spelled_with_dots_before_each_stage() {
    let version = Version {
        epoch: 1,
        release: vec![2, 0, 3],
        pre: Some(("rc".to_string(), 4)),
        post: Some(5),
        dev: Some(6),
        local: false,
    };
    assert_eq!(format_version(&version), "1!2.0.3.rc4.post5.dev6");
    assert_eq!(format_version(&final_release(&[3, 12])), "3.12");
    assert_eq!(format_release(&[]), "");
}

#[test]
fn only_a_minor_boundary_is_anchored() {
    assert_eq!(
        convert_specifier(Operator::GreaterThanEqual, &final_release(&[3, 9])),
        Ok(python_leaf(Comparator::GreaterEquals, "3.9.0a0"))
    );
    assert_eq!(
        convert_specifier(Operator::LessThan, &final_release(&[3, 9, 2])),
        Ok(python_leaf(Comparator::Less, "3.9.2"))
    );
    assert_eq!(
        convert_specifier(Operator::NotEqualStar, &final_release(&[3, 9])),
        Ok(python_leaf(Comparator::NotStartsWith, "3.9"))
    );
}

#[test]
fn membership_is_a_chain_of_equalities() {
    let versions = vec!["3.8".to_string(), "3.9".to_string()];
    assert_eq!(
        convert_membership("in", &versions),
        Ok(Condition::Or(
            Box::new(python_leaf(Comparator::Equals, "3.8")),
            Box::new(python_leaf(Comparator::Equals, "3.9")),
        ))
    );
    assert_eq!(
        convert_membership("not in", &versions),
        Ok(Condition::And(
            Box::new(python_leaf(Comparator::NotEquals, "3.8")),
            Box::new(python_leaf(Comparator::NotEquals, "3.9")),
        ))
    );
}

#[test]
fn membership_in_nothing_is_unsupported() {
    let err = convert_membership("in", &Vec::new()).unwrap_err();
    assert_eq!(
        err,
        Unconvertible::UnsupportedOperator {
            key: "python_full_version".to_string(),
            operator: "in".to_string(),
        }
    );
    assert_eq!(
        err.to_string(),
        "comparator \"in\" is not supported for marker key \"python_full_version\""
    );
}

#[test]
fn membership_in_what_is_no_version_names_it() {
    let err = convert_membership("in", &vec!["3.8".to_string(), "?".to_string()]).unwrap_err();
    assert!(
        matches!(&err, Unconvertible::InvalidVersionLiteral { literal, .. } if literal == "?"),
        "{err:?}"
    );
    assert!(err
        .to_string()
        .starts_with("\"?\" did not parse as a conda version literal: "));
}

#[test]
fn an_extra_clause_is_refused() {
    let err = convert_leaf(&MarkerLeaf::Extra).unwrap_err();
    assert_eq!(err, Unconvertible::ExtraMarker);
    assert_eq!(
        err.to_string(),
        "\"extra\" marker reached marker-condition conversion; strip it before calling"
    );
}

#[test]
fn an_excluded_key_is_named_in_quotes() {
    let err = convert(
        r#"requests; platform_release == "5.10.0""#,
        Platform::Linux64,
    )
    .unwrap_err();
    assert_eq!(
        err.to_string(),
        "marker key \"platform_release\" has no matchspec equivalent"
    );
}

#[test]
fn a_value_in_quotes_does_not_hide_the_platform() {
    let entry = r#"a; sys_platform == "win32" and platform_release == "it's""#;
    assert_eq!(convert(entry, Platform::Linux64).unwrap(), Applicability::Never);
    assert_eq!(
        convert(entry, Platform::Win64).unwrap_err(),
        Unconvertible::NoMatchspecEquivalent {
            key: "platform_release".to_string()
        }
    );
}

#[test]
fn a_url_in_front_of_a_marker_does_not_hide_it() {
    let entry = r#"a @ https://example.com/a;b.whl ; sys_platform == "win32""#;
    assert_eq!(convert(entry, Platform::Linux64).unwrap(), Applicability::Never);
    assert_eq!(convert(entry, Platform::Win64).unwrap(), Applicability::Always);
}

#[test]
fn what_is_left_of_a_marker_is_in_normal_form() {
    let marker = parse_requirement(r#"a; sys_platform == "linux" and python_version < "3.9""#)
        .unwrap()
        .marker;
    assert_eq!(
        *marker.on(Platform::Linux64),
        NormalForm {
            always: false,
            clauses: vec![vec![MarkerLeaf::Version("<3.9".to_string())]],
        }
    );
    assert_eq!(
        *marker.on(Platform::Osx64),
        NormalForm {
            always: false,
            clauses: vec![],
        }
    );
    assert_eq!(marker.form.clauses[0].len(), 2);
    assert_eq!(*marker.on(Platform::NoArch), marker.form);
}

#[test]
fn a_number_too_large_to_count_on_from_keeps_the_marker_as_written() {
    let marker = "python_version > '3.18446744073709551614' and python_version < '5'";
    let requirement = parse_requirement(&format!("a>=1; {marker}")).unwrap();
    assert_eq!(requirement.marker_text, marker);
    assert_eq!(requirement.text, format!("a>=1 ; {marker}"));
    assert_eq!(
        convert(&format!("a>=1; {marker}"), Platform::Linux64).unwrap_err(),
        Unconvertible::NoMatchspecEquivalent {
            key: marker.to_string()
        }
    );
    let inverted = "a; '3.18446744073709551614' < python_version";
    assert_eq!(
        parse_requirement(inverted).unwrap().marker_text,
        "'3.18446744073709551614' < python_version"
    );
}

#[test]
fn a_large_number_is_one_only_in_a_version() {
    let entry = "a;os_name=='18446744073709551614'";
    assert_eq!(convert(entry, Platform::Linux64).unwrap(), Applicability::Never);
    assert!(parse_requirement("a>=18446744073709551614; python_version > '3.9'")
        .unwrap()
        .marker_text
        .starts_with("python_full_version"));
    assert_eq!(
        convert("a; python_version > '3.18446744073709551613'", Platform::Linux64).unwrap(),
        Applicability::Conditionally(python(">=3.18446744073709551614.0a0"))
    );
}

#[test]
fn a_local_label_in_a_list_keeps_the_marker_as_written() {
    let marker = "python_full_version not in '3.8+a' and python_full_version >= '3.8'";
    let requirement = parse_requirement(&format!("foo; {marker}")).unwrap();
    assert_eq!(requirement.name, "foo");
    assert_eq!(requirement.text, format!("foo ; {marker}"));
    assert_eq!(
        convert(&format!("foo; {marker}"), Platform::Linux64).unwrap_err(),
        Unconvertible::NoMatchspecEquivalent {
            key: marker.to_string()
        }
    );
    let other = "foo @ https://example.com/;x ; implementation_version in '1+b' or python_version<'3'";
    assert!(parse_requirement(other).is_ok());
}

#[test]
fn a_local_label_alone_is_converted() {
    assert_eq!(
        convert("foo; python_full_version in '3.8+a'", Platform::Linux64).unwrap(),
        Applicability::Conditionally(conda_condition(&python_leaf(Comparator::Equals, "3.8")))
    );
    assert_eq!(
        convert(
            "foo; python_full_version == '3.8+a' and python_full_version >= '3.7'",
            Platform::Linux64
        )
        .unwrap(),
        Applicability::Conditionally(conda_condition(&python_leaf(Comparator::Equals, "3.8")))
    );
}

#[test]
fn the_project_root_is_put_into_the_url() {
    let root = Some("/home/me/project".to_string());
    let entry = "a @ file://${PROJECT_ROOT}/a.whl ; os_name == '${PROJECT_ROOT}'";
    let requirement = parse_requirement_in(entry, &root).unwrap();
    assert_eq!(
        requirement.text,
        "a @ file:///home/me/project/a.whl ; os_name == '${PROJECT_ROOT}'"
    );
    assert_eq!(
        parse_requirement_in(entry, &None).unwrap_err(),
        format!("The project root is not known\n{entry}")
    );
    assert_eq!(
        parse_requirement_in("a>=1", &None).unwrap(),
        parse_requirement("a>=1").unwrap()
    );
}

#[test]
fn the_project_root_is_the_current_directory() {
    let here = std::path::absolute(".").unwrap();
    let requirement = parse_requirement("a @ file://${PROJECT_ROOT}/a.whl").unwrap();
    assert_eq!(
        requirement,
        parse_requirement_in(
            "a @ file://${PROJECT_ROOT}/a.whl",
            &Some(here.to_str().unwrap().to_string())
        )
        .unwrap()
    );
}

#[test]
fn a_variable_in_a_marker_is_not_looked_up() {
    assert_eq!(
        parse_requirement("a; os_name == '${HOME}'").unwrap().marker_text,
        "os_name == '${HOME}'"
    );
    assert_eq!(
        parse_requirement("a;os_name=='${PROJECT_ROOT}'").unwrap().marker_text,
        "os_name == '${PROJECT_ROOT}'"
    );
}

#[test]
fn a_listed_pre_release_is_kept() {
    let only = |comparator, version: &str| {
        Applicability::Conditionally(conda_condition(&python_leaf(comparator, version)))
    };
    assert_eq!(
        convert("requests; python_full_version in '3.9.0rc1'", Platform::Linux64).unwrap(),
        only(Comparator::Equals, "3.9.0.rc1")
    );
    assert_eq!(
        convert("requests; python_full_version not in '3.9.0rc1'", Platform::Linux64).unwrap(),
        only(Comparator::NotEquals, "3.9.0.rc1")
    );
}

#[test]
fn a_specifier_without_a_marker_applies_everywhere() {
    let marker = parse_requirement("requests[socks]>=2.0").unwrap().marker;
    let always = NormalForm {
        always: true,
        clauses: vec![],
    };
    for platform in [Platform::NoArch, Platform::Linux64, Platform::OsxArm64, Platform::Win64] {
        assert_eq!(*marker.on(platform), always);
    }
    assert_eq!(convert("requests[socks]>=2.0", Platform::Win64).unwrap(), Applicability::Always);
}
