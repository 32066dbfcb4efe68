use ana::conda::{Clause, Comparator};
use ana::convert::{version_spec, ConvertError};
use ana::marker::format_version;
use ana::pep440::{parse_specifier, parse_specifiers, Operator, Specifier, Version};
use rattler_conda_types::{
    EqualityOperator, LogicalOperator, ParseStrictness, RangeOperator, StrictRangeOperator,
    StrictVersion, VersionSpec,
};
use std::str::FromStr;
use uv_pep440::{Version as PypiVersion, VersionSpecifiers};

/// A version constraint as conda's own type, built piece by piece.
fn conda_version_spec(spec: &ana::conda::VersionSpec) -> VersionSpec {
    match spec {
        ana::conda::VersionSpec::One(clause) => conda_clause(clause),
        ana::conda::VersionSpec::All(clauses) => VersionSpec::Group(
            LogicalOperator::And,
            clauses.iter().map(conda_clause).collect(),
        ),
    }
}

fn conda_clause(clause: &Clause) -> VersionSpec {
    let version = rattler_conda_types::Version::from_str(&clause.version).unwrap();
    match clause.comparator {
        Comparator::Greater => VersionSpec::Range(RangeOperator::Greater, version),
        Comparator::GreaterEquals => VersionSpec::Range(RangeOperator::GreaterEquals, version),
        Comparator::Less => VersionSpec::Range(RangeOperator::Less, version),
        Comparator::LessEquals => VersionSpec::Range(RangeOperator::LessEquals, version),
        Comparator::Equals => VersionSpec::Exact(EqualityOperator::Equals, version),
        Comparator::NotEquals => VersionSpec::Exact(EqualityOperator::NotEquals, version),
        Comparator::StartsWith => VersionSpec::StrictRange(
            StrictRangeOperator::StartsWith,
            StrictVersion::from(version),
        ),
        Comparator::NotStartsWith => VersionSpec::StrictRange(
            StrictRangeOperator::NotStartsWith,
            StrictVersion::from(version),
        ),
    }
}

/// The constraint that `specifiers` stand for, as conda's own type.
fn convert(specifiers: &str, allow_pre: bool) -> Result<Option<VersionSpec>, ConvertError> {
    let specifiers = parse_specifiers(specifiers).unwrap();
    let spec = version_spec(&specifiers, allow_pre)?;
    Ok(spec.as_ref().map(conda_version_spec))
}

fn expect(expected: &str) -> VersionSpec {
    VersionSpec::from_str(expected, ParseStrictness::Lenient).unwrap()
}

/// Whether `uv_pep440` considers `candidate` to satisfy `specifier`.
fn pip_matches(specifier: &str, candidate: &str) -> bool {
    let specifiers = VersionSpecifiers::from_str(specifier).unwrap();
    let version = PypiVersion::from_str(candidate).unwrap();
    specifiers.contains(&version)
}

/// Whether `clause` holds of `candidate`, spelled as conda spells it.
fn matchspec_matches(clause: &VersionSpec, candidate: &str) -> bool {
    let version = parse_specifier(&format!("=={candidate}")).unwrap().version;
    clause.matches(&rattler_conda_types::Version::from_str(&format_version(&version)).unwrap())
}

/// Converts `specifier` to a [`VersionSpec`] once, then asserts its
/// [`matchspec_matches`] result agrees with [`pip_matches`]
/// independently for every one of `candidates`.
fn assert_agrees_with_pip(specifier: &str, candidates: &[&str], allow_pre: bool) {
    let clause = convert(specifier, allow_pre).unwrap().unwrap();
    for candidate in candidates {
        let pip_result = pip_matches(specifier, candidate);
        let matchspec_result = matchspec_matches(&clause, candidate);
        assert_eq!(
            pip_result, matchspec_result,
            "specifier {specifier:?} candidate {candidate:?}: pip says {pip_result}, \
                     matchspec says {matchspec_result}"
        );
    }
}

/// A version sweep crossing every boundary this module and
/// `exclusive_comparator_carve_out` care about: below `1.0.0`,
/// each of its pre-release stages, `1.0.0` itself, its
/// post-release, the next patch (and its rc), the next minor
/// (and its alpha), and the next major (and its alpha).
const VERSION_CANDIDATES: [&str; 16] = [
    "0.9.9",
    "1.0.0.dev0",
    "1.0.0.dev1",
    "1.0.0a0",
    "1.0.0a1",
    "1.0.0b1",
    "1.0.0rc1",
    "1.0.0rc2",
    "1.0.0",
    "1.0.0.post1",
    "1.0.1",
    "1.0.1rc1",
    "1.1.0",
    "1.1.0a0",
    "2.0.0",
    "2.0.0a0",
];

const BOUNDARY_CANDIDATES: [&str; 11] = [
    "0.9.9",
    "1.0.0.dev0",
    "1.0.0a0",
    "1.0.0",
    "1.0.0.post1",
    "1.0.5",
    "1.0.99",
    "1.1.0.dev0",
    "1.1.0a0",
    "1.1.0",
    "1.10.0", // shares the "1.1" string prefix but is a different minor
];

const CANDIDATES: [&str; 6] = ["0.5.0", "1.0.0", "1!0.5.0", "1!1.0.0", "1!2.0.0", "2!0.1.0"];

#[test]
fn empty_specifier_set_has_no_version_spec() {
    assert_eq!(convert("", false).unwrap(), None);
}

#[test]
fn operators_pass_through_as_is() {
    for operator in [">=", "<=", "!=", "=="] {
        let specifiers = format!("{operator}2.0.0");
        assert_eq!(
            convert(&specifiers, false).unwrap(),
            Some(expect(&specifiers)),
            "operator {operator}"
        );
    }
}

#[test]
fn multiple_specifiers_join_in_canonical_order() {
    assert_eq!(
        convert(">=1.0.0,<2.0.0", false).unwrap(),
        Some(expect(">=1.0.0,<2.0.0a0"))
    );
}

#[test]
fn canonical_order_spans_every_operator_category() {
    assert_eq!(
        convert("!=5.0.0,==3.0.0,<4.0.0,>=1.0.0", false).unwrap(),
        Some(expect(">=1.0.0,<4.0.0a0,==3.0.0,!=5.0.0"))
    );
}

#[test]
fn same_operator_ties_sort_lexicographically() {
    assert_eq!(
        convert(">=9.0,>=10.0", false).unwrap(),
        Some(expect(">=10.0,>=9.0"))
    );
}

/// The `!=` exclusion-category counterpart to
/// `same_operator_ties_sort_lexicographically`: these two already
/// sort lexicographically in input order, pinning that the
/// tiebreak doesn't accidentally reorder an already-sorted pair.
#[test]
fn same_operator_ties_sort_lexicographically_for_exclusions() {
    assert_eq!(
        convert("!=1.0.0,!=2.0.0", false).unwrap(),
        Some(expect("!=1.0.0,!=2.0.0"))
    );
}

#[test]
fn version_strict_less_than_gets_the_pre_release_carve_out_anchor() {
    assert_eq!(convert("<2.0.0", false).unwrap(), Some(expect("<2.0.0a0")));
}

#[test]
fn strict_less_than_carve_out_anchor_with_a_missing_patch_segment() {
    assert_eq!(convert("<2.0", false).unwrap(), Some(expect("<2.0a0")));
}

#[test]
fn strict_less_than_of_a_pre_release_has_no_anchor() {
    assert_eq!(
        convert("<2.0.0rc1", true).unwrap(),
        Some(expect("<2.0.0.rc1"))
    );
}

#[test]
fn strict_greater_than_gets_the_post_release_carve_out_exclusion() {
    assert_eq!(
        convert(">1.0.0", false).unwrap(),
        Some(expect(">1.0.0,!=1.0.0.post*"))
    );
}

#[test]
fn strict_greater_than_of_a_post_release_has_no_exclusion() {
    assert_eq!(
        convert(">1.0.0.post1", false).unwrap(),
        Some(expect(">1.0.0.post1"))
    );
}

#[test]
fn strict_greater_than_of_a_dev_release_has_no_exclusion() {
    assert_eq!(
        convert(">1.0.0.dev1", true).unwrap(),
        Some(expect(">1.0.0.dev1"))
    );
}

#[test]
fn strict_comparators_reject_a_pre_release_by_default() {
    for operator in ["<", ">"] {
        let specifiers = format!("{operator}2.0.0rc1");
        let err = convert(&specifiers, false).unwrap_err();
        assert!(matches!(err, ConvertError::Prerelease { .. }), "{err:?}");
    }
}

#[test]
fn equals_glob_is_rewritten_to_the_canonical_fuzzy_form() {
    assert_eq!(convert("==1.0.*", false).unwrap(), Some(expect("=1.0")));
}

#[test]
fn not_equals_glob_passes_through_unchanged() {
    assert_eq!(convert("!=1.0.*", false).unwrap(), Some(expect("!=1.0.*")));
}

#[test]
fn equals_glob_with_an_epoch_is_rewritten_to_the_canonical_fuzzy_form() {
    assert_eq!(convert("==1!2.0.*", false).unwrap(), Some(expect("=1!2.0")));
}

#[test]
fn expands_to_a_range() {
    assert_eq!(
        convert("~=1.4.2", false).unwrap(),
        Some(expect(">=1.4.2,<1.5.0a0"))
    );
}

#[test]
fn two_segments_drops_the_major() {
    assert_eq!(
        convert("~=1.4", false).unwrap(),
        Some(expect(">=1.4,<2.0a0"))
    );
}

#[test]
fn four_segments_only_bumps_the_last() {
    assert_eq!(
        convert("~=1.2.3.4", false).unwrap(),
        Some(expect(">=1.2.3.4,<1.2.4.0a0"))
    );
}

#[test]
fn preserves_the_epoch_in_both_bounds() {
    assert_eq!(
        convert("~=1!3.13.2", false).unwrap(),
        Some(expect(">=1!3.13.2,<1!3.14.0a0"))
    );
}

#[test]
fn combines_with_another_specifier_in_canonical_order() {
    assert_eq!(
        convert("~=3.13.2,!=3.13.5", false).unwrap(),
        Some(expect(">=3.13.2,<3.14.0a0,!=3.13.5"))
    );
}

#[test]
fn rejects_a_pre_release_by_default() {
    let err = convert("~=3.13.2rc1", false).unwrap_err();
    assert!(matches!(err, ConvertError::Prerelease { .. }), "{err:?}");
}

#[test]
fn allow_pre_permits_a_pre_release() {
    assert_eq!(
        convert("~=3.13.2rc1", true).unwrap(),
        Some(expect(">=3.13.2.rc1,<3.14.0a0"))
    );
}

#[test]
fn is_converted_to_double_equals() {
    assert_eq!(convert("===1.0.0", false).unwrap(), Some(expect("==1.0.0")));
}

#[test]
fn epoch_is_preserved() {
    assert_eq!(
        convert(">=1!1.0.0", false).unwrap(),
        Some(expect(">=1!1.0.0"))
    );
}

#[test]
fn post_release_is_accepted() {
    assert_eq!(
        convert(">=1.0.0.post1", false).unwrap(),
        Some(expect(">=1.0.0.post1"))
    );
}

#[test]
fn post_release_shorthand_is_normalized() {
    assert_eq!(
        convert(">=1.0-1", false).unwrap(),
        Some(expect(">=1.0.post1"))
    );
}

#[test]
fn pre_release_is_dotted_when_allowed() {
    assert_eq!(
        convert("==1.0.0rc1", true).unwrap(),
        Some(expect("==1.0.0.rc1"))
    );
}

#[test]
fn many_release_segments_are_all_preserved() {
    assert_eq!(
        convert(">=1.2.3.4", false).unwrap(),
        Some(expect(">=1.2.3.4"))
    );
}

#[test]
fn pre_post_and_dev_releases_all_combine_in_order() {
    assert_eq!(
        convert("==1.0.0a1.post2.dev3", true).unwrap(),
        Some(expect("==1.0.0.a1.post2.dev3"))
    );
}

#[test]
fn v_prefix_is_normalized_away() {
    assert_eq!(convert(">=v1.0", false).unwrap(), Some(expect(">=1.0")));
}

#[test]
fn version_rejects_a_local_version_label() {
    for specifiers in ["==1.0.0+local", "!=1.0.0+local", "===1.0.0+local"] {
        let err = convert(specifiers, false).unwrap_err();
        assert!(
            matches!(err, ConvertError::LocalVersionLabel { .. }),
            "{specifiers}: {err:?}"
        );
    }
}

#[test]
fn version_rejects_a_pre_release_version_by_default() {
    for specifiers in ["==1.0.0dev1", "==1.0.0a1", "==1.0.0b1", "==1.0.0rc1"] {
        let err = convert(specifiers, false).unwrap_err();
        assert!(
            matches!(err, ConvertError::Prerelease { .. }),
            "{specifiers}: {err:?}"
        );
    }
}

#[test]
fn dev_release_combined_with_a_post_release_is_still_a_pre_release() {
    let err = convert("==1.0.0.post1.dev1", false).unwrap_err();
    assert!(matches!(err, ConvertError::Prerelease { .. }), "{err:?}");
}

#[test]
fn local_version_label_is_rejected_before_pre_release_even_with_allow_pre() {
    let err = convert("==1.0.0rc1+local", true).unwrap_err();
    assert!(
        matches!(err, ConvertError::LocalVersionLabel { .. }),
        "{err:?}"
    );
}

#[test]
fn allow_pre_still_rejects_a_local_version_label() {
    let err = convert("==1.0.0+local", true).unwrap_err();
    assert!(
        matches!(err, ConvertError::LocalVersionLabel { .. }),
        "{err:?}"
    );
}

#[test]
fn plain_release_literal_agrees_with_pip_across_every_candidate() {
    for comparator in ["==", "!=", ">=", "<=", ">", "<"] {
        assert_agrees_with_pip(
            &format!("{comparator}1.0.0"),
            &VERSION_CANDIDATES,
            false,
        );
    }
}

/// The literal itself is a pre-release, exercised separately
/// from a plain release since `format_version`'s `.rc1`
/// spelling must order correctly against every candidate.
///
/// Excludes `>`: `uv_pep440`'s post-release exclusion for `>V`
/// fires whenever release digits match regardless of `V` being
/// a pre-release, unlike `packaging` -- a real `uv_pep440` gap,
/// covered separately by `exclusive_comparator_carve_out`.
#[test]
fn rc_literal_agrees_with_pip_across_every_candidate() {
    for comparator in ["==", "!=", ">=", "<=", "<"] {
        assert_agrees_with_pip(
            &format!("{comparator}1.0.0rc1"),
            &VERSION_CANDIDATES,
            true,
        );
    }
}

/// `<` is included here (unlike the `rc`/`dev` sweeps below,
/// which exclude `>`): `uv_pep440`'s `Operator::LessThan`
/// excludes a same-release-digits prerelease candidate only
/// when `self` isn't itself a prerelease, matching `packaging`.
#[test]
fn post_release_literal_agrees_with_pip_across_every_candidate() {
    for comparator in ["==", "!=", ">=", "<=", "<"] {
        assert_agrees_with_pip(
            &format!("{comparator}1.0.0.post1"),
            &VERSION_CANDIDATES,
            false,
        );
    }
}

/// A dev-release literal sorts before every other pre-release
/// stage of the same base version -- the boundary most likely
/// to catch a PEP 440 vs. conda CEP-33 ordering mismatch.
///
/// Excludes `>`, for the same `uv_pep440`-vs-`packaging` gap as
/// `rc_literal_agrees_with_pip_across_every_candidate`.
#[test]
fn dev_release_literal_agrees_with_pip_across_every_candidate() {
    for comparator in ["==", "!=", ">=", "<=", "<"] {
        assert_agrees_with_pip(
            &format!("{comparator}1.0.0.dev1"),
            &VERSION_CANDIDATES,
            true,
        );
    }
}

#[test]
fn inclusive_range_agrees_with_pip_across_every_candidate() {
    assert_agrees_with_pip(">=1.0.0,<=1.1.0", &VERSION_CANDIDATES, false);
}

#[test]
fn three_segment_base_agrees_with_pip_across_the_boundary() {
    let candidates = [
        "3.12.9",
        "3.13.1",
        "3.13.2",
        "3.13.2.post1",
        "3.13.99",
        "3.14.0.dev0",
        "3.14.0a0",
        "3.14.0a1",
        "3.14.0b1",
        "3.14.0rc1",
        "3.14.0",
        "3.15.0",
    ];
    assert_agrees_with_pip("~=3.13.2", &candidates, false);
}

/// `~=3.13` bumps the *major* segment (there's no minor left to
/// bump), so the boundary moves to `4.0.0a0` instead.
#[test]
fn two_segment_base_agrees_with_pip_across_the_boundary() {
    let candidates = [
        "3.0.0",
        "3.13.0",
        "3.99.0",
        "4.0.0.dev0",
        "4.0.0a0",
        "4.0.0a1",
        "4.0.0",
        "5.0.0",
    ];
    assert_agrees_with_pip("~=3.13", &candidates, false);
}

/// `~=1.2.3.4` only bumps the last segment (`<1.2.4.0a0`), not
/// the third -- the boundary sits one segment deeper than the
/// three-segment case.
#[test]
fn four_segment_base_agrees_with_pip_across_the_boundary() {
    let candidates = [
        "1.2.3.3",
        "1.2.3.4",
        "1.2.3.99",
        "1.2.4.0.dev0",
        "1.2.4.0a0",
        "1.2.4.0a1",
        "1.2.4.0",
        "1.2.5.0",
    ];
    assert_agrees_with_pip("~=1.2.3.4", &candidates, false);
}

#[test]
fn epoch_is_preserved_on_both_bounds() {
    let candidates = [
        "1!3.12.9",
        "1!3.13.2",
        "1!3.13.99",
        "1!3.14.0a0",
        "1!3.14.0",
        "3.13.2",   // no epoch -- epoch 0, below every `1!...` candidate
        "2!3.13.2", // a higher epoch, above every `1!...` candidate
    ];
    assert_agrees_with_pip("~=1!3.13.2", &candidates, false);
}

#[test]
fn pre_release_base_with_allow_pre_agrees_with_pip_across_the_boundary() {
    let candidates = [
        "3.13.1",
        "3.13.2.dev0",
        "3.13.2a0",
        "3.13.2a1",
        "3.13.2b1",
        "3.13.2rc1",
        "3.13.2",
        "3.14.0a0",
    ];
    assert_agrees_with_pip("~=3.13.2rc1", &candidates, true);
}

#[test]
fn equality_glob_agrees_with_pip_across_the_boundary() {
    assert_agrees_with_pip("==1.0.*", &BOUNDARY_CANDIDATES, false);
}

#[test]
fn inequality_glob_agrees_with_pip_across_the_boundary() {
    assert_agrees_with_pip("!=1.0.*", &BOUNDARY_CANDIDATES, false);
}

#[test]
fn single_segment_glob_agrees_with_pip_across_the_boundary() {
    let candidates = [
        "0.9.9",
        "1.0.0.dev0",
        "1.0.0a0",
        "1.0.0",
        "1.99.0",
        "2.0.0.dev0",
        "2.0.0a0",
        "2.0.0",
    ];
    assert_agrees_with_pip("==1.*", &candidates, false);
}

#[test]
fn glob_with_an_epoch_agrees_with_pip_across_the_boundary() {
    let candidates = [
        "1.0.5", "1!0.9.9", "1!1.0.0", "1!1.0.5", "1!1.1.0", "2!1.0.0",
    ];
    assert_agrees_with_pip("==1!1.0.*", &candidates, false);
}

/// Every comparator, including strict `<`/`>`, is safe here:
/// none of `CANDIDATES` shares the literal's epoch *and*
/// trimmed release, which is the only situation
/// `exclusive_comparator_carve_out` shows disagreement in.
#[test]
fn agrees_with_pip_across_every_candidate() {
    for comparator in ["==", "!=", ">=", ">", "<=", "<"] {
        assert_agrees_with_pip(&format!("{comparator}1!1.0.0"), &CANDIDATES, false);
    }
}

#[test]
fn strict_less_than_excludes_a_dev_release_of_the_boundary() {
    assert_agrees_with_pip("<1.0.0", &["1.0.0.dev0"], true);
}

#[test]
fn strict_less_than_excludes_an_rc_release_of_the_boundary() {
    assert_agrees_with_pip("<1.0.0", &["1.0.0rc1"], true);
}

#[test]
fn strict_less_than_still_includes_versions_below_the_boundary() {
    assert_agrees_with_pip("<1.0.0", &["0.9.9", "1.0.0a0", "0.9.9.post1"], false);
}

/// The motivating case for gluing `a0` with no dot at all: `V`
/// (`2.0`) has no patch segment, so the anchor is `<2.0a0`, not
/// `<2.0.0a0` -- a dotted anchor would leave `2.0.dev0`
/// unexcluded.
#[test]
fn strict_less_than_with_a_missing_patch_segment_still_excludes_a_same_shape_dev_release(
) {
    assert_agrees_with_pip(
        "<2.0",
        &["2.0.dev0", "2.0.0.dev0", "2.0a0", "2.0", "1.9"],
        true,
    );
}

/// `V` itself a pre-release needs no carve-out -- `<1.0.0rc1`
/// already excludes everything at or above it via ordinary
/// comparison.
#[test]
fn strict_less_than_with_a_pre_release_boundary_is_a_plain_passthrough() {
    assert_agrees_with_pip(
        "<1.0.0rc1",
        &[
            "1.0.0.dev0",
            "1.0.0a0",
            "1.0.0rc1.dev0",
            "1.0.0rc1",
            "1.0.0",
        ],
        true,
    );
}

/// `V` a post-release (not itself a pre-release) still gets the
/// carve-out -- it excludes dev-releases of that post-release,
/// which count as `V`'s own pre-release family.
#[test]
fn strict_less_than_with_a_post_release_boundary_excludes_its_dev_releases() {
    assert_agrees_with_pip(
        "<1.0.0.post1",
        &["1.0.0.post1.dev0", "1.0.0.post0", "1.0.0", "1.0.0.post1"],
        true,
    );
}

#[test]
fn strict_greater_than_excludes_a_post_release_of_the_boundary() {
    assert_agrees_with_pip(">1.0.0", &["1.0.0.post1", "1.0.0.post999999"], false);
}

#[test]
fn strict_greater_than_still_includes_versions_above_the_boundary() {
    assert_agrees_with_pip(">1.0.0", &["1.0.1", "1.0.1a0", "2.0.0"], true);
}

#[test]
fn strict_greater_than_with_a_pre_release_boundary_excludes_its_post_releases() {
    assert_agrees_with_pip(
        ">1.0.0rc1",
        &["1.0.0rc1.post0", "1.0.0rc1", "1.0.0rc2", "1.0.0"],
        true,
    );
}

#[test]
fn strict_greater_than_with_a_dev_release_boundary_is_a_plain_passthrough() {
    assert_agrees_with_pip(
        ">1.0.0.dev1",
        &["1.0.0.dev0", "1.0.0.dev2", "1.0.0a0", "1.0.0"],
        true,
    );
}

#[test]
fn strict_greater_than_with_a_post_release_boundary_is_a_plain_passthrough() {
    assert_agrees_with_pip(
        ">1.0.0.post1",
        &["1.0.0.post0", "1.0.0.post2", "1.0.1"],
        false,
    );
}

#[test]
fn strict_greater_than_carve_out_respects_the_epoch() {
    assert_agrees_with_pip(
        ">1!1.0.0",
        &["1!1.0.0.post1", "1.0.0.post1", "2!1.0.0.post1", "1!1.0.1"],
        false,
    );
}

/// The `!=V.post*` exclusion must be scoped to `V`'s own epoch
/// even when `V` is a pre-release, not just a plain release
/// (see the test above).
#[test]
fn strict_greater_than_carve_out_respects_the_epoch_with_a_pre_release_boundary() {
    assert_agrees_with_pip(
        ">1!1.0.0rc1",
        &[
            "1!1.0.0rc1.post0", // same epoch, V's own post family -- excluded
            "1.0.0rc1.post0",   // epoch 0 -- already excluded by the epoch itself
            "2!1.0.0rc1.post0", // higher epoch -- not part of V's family
            "1!1.0.0rc2",
            "1!1.0.0",
        ],
        true,
    );
}

/// Classic PEP 440 gotcha: `>=X.rc1,<X` matches nothing in
/// pip, since `<X` excludes `X`'s whole pre-release family
/// regardless of the lower bound.
#[test]
fn rc_lower_bound_with_a_plain_upper_bound_is_an_empty_range_in_pip() {
    assert_agrees_with_pip(">=1.0.0rc1,<1.0.0", &["1.0.0rc1"], true);
}

fn clause(comparator: Comparator, version: &str) -> Clause {
    Clause {
        comparator,
        version: version.to_string(),
    }
}

#[test]
fn one_specifier_is_one_clause() {
    assert_eq!(
        version_spec(&parse_specifiers("!=1.2").unwrap(), false).unwrap(),
        Some(ana::conda::VersionSpec::One(clause(
            Comparator::NotEquals,
            "1.2"
        )))
    );
}

#[test]
fn a_compatible_release_is_a_range_of_two_clauses() {
    assert_eq!(
        version_spec(&parse_specifiers("~=1.4.2").unwrap(), false).unwrap(),
        Some(ana::conda::VersionSpec::All(vec![
            clause(Comparator::GreaterEquals, "1.4.2"),
            clause(Comparator::Less, "1.5.0a0"),
        ]))
    );
}

#[test]
fn the_order_of_specifiers_makes_no_difference() {
    let one = version_spec(&parse_specifiers("!=1.5,>=1.0,<2.0,!=1.4").unwrap(), false).unwrap();
    let other = version_spec(&parse_specifiers("!=1.4,<2.0,!=1.5,>=1.0").unwrap(), false).unwrap();
    assert!(one.is_some());
    assert_eq!(one, other);
}

#[test]
fn a_local_label_is_named_in_the_message() {
    assert_eq!(
        version_spec(&parse_specifiers("==1.0.0+local").unwrap(), false)
            .unwrap_err()
            .to_string(),
        "specifier \"==1.0.0+local\" has a local version label, which conda match specs cannot \
         represent"
    );
}

#[test]
fn a_pre_release_is_named_in_the_message() {
    assert_eq!(
        version_spec(&parse_specifiers("==1.0.0rc1").unwrap(), false)
            .unwrap_err()
            .to_string(),
        "specifier \"==1.0.0rc1\" is a pre-release version and allow_pre is unset"
    );
}

#[test]
fn a_specifier_is_taken_apart() {
    let specifier: Specifier = parse_specifier(">=1!2.3rc4").unwrap();
    assert_eq!(specifier.operator, Operator::GreaterThanEqual);
    assert_eq!(
        specifier.version,
        Version {
            epoch: 1,
            release: vec![2, 3],
            pre: Some(("rc".to_string(), 4)),
            post: None,
            dev: None,
            local: false,
        }
    );
    assert_eq!(specifier.text, ">=1!2.3rc4");
}

#[test]
fn what_is_no_specifier_set_is_refused() {
    assert!(parse_specifiers("not a specifier").is_err());
    assert!(parse_specifier("1.0").is_err());
}
