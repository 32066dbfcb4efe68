use ana::conda::{Clause, Comparator, Condition};
use ana::conda_map::MappingHandle;
use ana::convert::requirement::{conda_extras, conda_name, marker_has_extra_clause};
use ana::convert::ConvertError;
use ana::marker::{known_values_assumption, Assumption};
use ana::pep508::{parse_requirement, Requirement};
use ana::platform::Platform;
use ana::table::Table;
use rattler_conda_types::{
    EqualityOperator, LogicalOperator, MatchSpec, MatchSpecCondition, PackageName,
    PackageNameMatcher, ParseMatchSpecOptions, ParseStrictness, RangeOperator, StrictRangeOperator,
    StrictVersion, Version, VersionSpec,
};
use std::str::FromStr;

/// A version constraint as conda's own type, built piece by piece.
fn conda_version_spec(spec: &ana::conda::VersionSpec) -> VersionSpec {
    match spec {
        ana::conda::VersionSpec::One(clause) => conda_clause(clause),
        ana::conda::VersionSpec::All(clauses) => VersionSpec::Group(
            LogicalOperator::And,
            clauses.iter().map(conda_clause).collect(),
        ),
    }
}

fn conda_clause(clause: &Clause) -> VersionSpec {
    let version = Version::from_str(&clause.version).unwrap();
    match clause.comparator {
        Comparator::Greater => VersionSpec::Range(RangeOperator::Greater, version),
        Comparator::GreaterEquals => VersionSpec::Range(RangeOperator::GreaterEquals, version),
        Comparator::Less => VersionSpec::Range(RangeOperator::Less, version),
        Comparator::LessEquals => VersionSpec::Range(RangeOperator::LessEquals, version),
        Comparator::Equals => VersionSpec::Exact(EqualityOperator::Equals, version),
        Comparator::NotEquals => VersionSpec::Exact(EqualityOperator::NotEquals, version),
        Comparator::StartsWith => VersionSpec::StrictRange(
            StrictRangeOperator::StartsWith,
            StrictVersion::from(version),
        ),
        Comparator::NotStartsWith => VersionSpec::StrictRange(
            StrictRangeOperator::NotStartsWith,
            StrictVersion::from(version),
        ),
    }
}


fn conda_condition(condition: &Condition) -> MatchSpecCondition {
    match condition {
        Condition::Python(clause) => MatchSpecCondition::MatchSpec(Box::new(MatchSpec {
            name: PackageNameMatcher::Exact(PackageName::new_unchecked("python")),
            version: Some(conda_clause(clause)),
            ..MatchSpec::default()
        })),
        Condition::And(a, b) => {
            MatchSpecCondition::And(Box::new(conda_condition(a)), Box::new(conda_condition(b)))
        }
        Condition::Or(a, b) => {
            MatchSpecCondition::Or(Box::new(conda_condition(a)), Box::new(conda_condition(b)))
        }
    }
}


/// A match spec as conda's own type, built piece by piece.
fn conda_spec(spec: &ana::conda::MatchSpec) -> MatchSpec {
    MatchSpec {
        name: PackageNameMatcher::Exact(PackageName::new_unchecked(spec.name.as_str())),
        version: spec.version.as_ref().map(conda_version_spec),
        extras: spec.extras.clone(),
        condition: spec.condition.as_ref().map(conda_condition),
        ..MatchSpec::default()
    }
}

fn req(spec: &str) -> Requirement {
    parse_requirement(spec).unwrap()
}

/// A mapping of the given names.
fn mapping_of(names: &[(&str, &str)]) -> MappingHandle {
    let mut map = Table::new();
    for (pypi, conda) in names {
        map.insert(pypi.to_string(), conda.to_string());
    }
    MappingHandle::from_map(map)
}

fn no_mapping() -> MappingHandle {
    mapping_of(&[])
}

/// What is known on `linux-64`, wherever the tests run.
fn assumption() -> Assumption {
    known_values_assumption(Platform::Linux64).unwrap()
}

/// The match spec of a requirement, as conda's own type.
fn convert(
    requirement: &Requirement,
    allow_pre: bool,
    assumption: Assumption,
    pypi_to_conda_map: &MappingHandle,
) -> Result<Option<MatchSpec>, ConvertError> {
    let spec = ana::convert::convert(requirement, allow_pre, &assumption, pypi_to_conda_map)?;
    Ok(spec.as_ref().map(conda_spec))
}

fn convert_all(
    requirements: &[Requirement],
    allow_pre: bool,
    assumption: Assumption,
    pypi_to_conda_map: &MappingHandle,
) -> Vec<Result<Option<MatchSpec>, ConvertError>> {
    ana::convert::convert_all(
        &requirements.iter().collect(),
        allow_pre,
        &assumption,
        pypi_to_conda_map,
    )
    .into_iter()
    .map(|result| result.map(|spec| spec.as_ref().map(conda_spec)))
    .collect()
}

/// A batch that is large.
const LARGE_BATCH: usize = 64;

/// [`convert`] against [`assumption`], asserting the requirement
/// applies on `linux-64` (not `Applicability::Never`) and unwrapping
/// the rest.
fn convert_ok(requirement: &Requirement, allow_pre: bool) -> MatchSpec {
    convert(requirement, allow_pre, assumption(), &no_mapping())
        .unwrap()
        .expect("expected the requirement to apply on linux-64, not Applicability::Never")
}

/// [`convert`] against [`assumption`], asserting failure.
fn convert_err(requirement: &Requirement, allow_pre: bool) -> ConvertError {
    convert(requirement, allow_pre, assumption(), &no_mapping()).unwrap_err()
}

/// `expected` parsed as a conda matchspec, for comparing against
/// [`convert`]'s output without hand-building a `MatchSpec` per test.
/// `with_extras(true)` because the `extras=[...]` bracket key is gated
/// behind that option in the string parser.
fn expect(expected: &str) -> MatchSpec {
    MatchSpec::from_str(expected, ParseMatchSpecOptions::lenient().with_extras(true)).unwrap()
}

/// A leaf `MatchSpecCondition` for `python<version_spec>`.
fn python(version_spec: &str) -> MatchSpecCondition {
    MatchSpecCondition::MatchSpec(Box::new(MatchSpec {
        name: PackageNameMatcher::Exact(PackageName::new_unchecked("python")),
        version: Some(
            VersionSpec::from_str(version_spec, ParseStrictness::Lenient).unwrap(),
        ),
        ..MatchSpec::default()
    }))
}

#[test]
fn bare_name_passes_through_identity_mapped() {
    assert_eq!(convert_ok(&req("requests"), false), expect("requests"));
}

#[test]
fn name_is_normalized() {
    assert_eq!(convert_ok(&req("Requests"), false), expect("requests"));
}

#[test]
fn name_normalizes_separators_too() {
    assert_eq!(
        convert_ok(&req("Foo_Bar.BAZ"), false),
        expect("foo-bar-baz")
    );
}

#[test]
fn versioned_dependency_keeps_the_normalized_name() {
    assert_eq!(
        convert_ok(&req("requests>=2.0.0"), false),
        expect(r#"requests[version=">=2.0.0"]"#)
    );
}

#[test]
fn name_over_64_characters_is_rejected() {
    let name = "a".repeat(65);
    let err = convert_err(&req(&name), false);
    assert!(matches!(err, ConvertError::NameTooLong { .. }), "{err:?}");
}

#[test]
fn name_at_exactly_64_characters_is_accepted() {
    let name = "a".repeat(64);
    assert_eq!(convert_ok(&req(&name), false), expect(&name));
}

#[test]
fn mapped_name_is_replaced() {
    let handle = mapping_of(&[("opencv-python", "py-opencv")]);
    let result = convert(&req("opencv-python"), false, assumption(), &handle)
        .unwrap()
        .unwrap();
    assert_eq!(result, expect("py-opencv"));
}

#[test]
fn unmapped_name_with_a_nonempty_table_still_passes_through_identity_mapped() {
    let handle = mapping_of(&[("opencv-python", "py-opencv")]);
    let result = convert(&req("requests"), false, assumption(), &handle)
        .unwrap()
        .unwrap();
    assert_eq!(result, expect("requests"));
}

#[test]
fn empty_table_is_identity_mapped() {
    let result = convert(&req("opencv-python"), false, assumption(), &no_mapping())
        .unwrap()
        .unwrap();
    assert_eq!(result, expect("opencv-python"));
}

/// The length check applies to the *mapped* name, not the
/// original PyPI one.
#[test]
fn mapped_name_over_64_characters_is_rejected() {
    let long_name = "a".repeat(65);
    let handle =
        mapping_of(&[("short-pkg", &long_name)]);
    let err = convert(&req("short-pkg"), false, assumption(), &handle).unwrap_err();
    assert!(matches!(err, ConvertError::NameTooLong { .. }), "{err:?}");
}

/// A mapping entry whose value doesn't have a valid conda
/// package-name shape is rejected with a specific error rather
/// than reaching `PackageName::new_unchecked` unchecked.
#[test]
fn mapped_name_with_an_invalid_shape_is_rejected() {
    let handle = mapping_of(&[("some-pkg", "not a valid name")]);
    let err = convert(&req("some-pkg"), false, assumption(), &handle).unwrap_err();
    assert!(matches!(err, ConvertError::InvalidMappedName(_)), "{err:?}");
}

#[test]
fn operator_is_passed_through_as_is() {
    for operator in [">=", "<=", "!="] {
        let spec = format!("requests{operator}2.0.0");
        assert_eq!(
            convert_ok(&req(&spec), false),
            expect(&format!(r#"requests[version="{operator}2.0.0"]"#))
        );
    }
}

#[test]
fn convert_strict_less_than_gets_the_pre_release_carve_out_anchor() {
    assert_eq!(
        convert_ok(&req("requests<2.0.0"), false),
        expect(r#"requests[version="<2.0.0a0"]"#)
    );
}

#[test]
fn multiple_specifiers_are_joined_in_canonical_order() {
    assert_eq!(
        convert_ok(&req("requests<=2.0.0,!=1.0.1,>=0.9"), false),
        expect(r#"requests[version=">=0.9,<=2.0.0,!=1.0.1"]"#)
    );
}

#[test]
fn compatible_release_expands_to_a_range() {
    assert_eq!(
        convert_ok(&req("requests~=3.13.2"), false),
        expect(r#"requests[version=">=3.13.2,<3.14.0a0"]"#)
    );
}

#[test]
fn convert_rejects_a_local_version_label() {
    let err = convert_err(&req("requests==1.0.0+local"), false);
    assert!(
        matches!(err, ConvertError::LocalVersionLabel { .. }),
        "{err:?}"
    );
}

#[test]
fn convert_rejects_a_pre_release_version_by_default() {
    let err = convert_err(&req("requests==1.0.0rc1"), false);
    assert!(matches!(err, ConvertError::Prerelease { .. }), "{err:?}");
}

#[test]
fn allow_pre_permits_a_pre_release_version() {
    assert_eq!(
        convert_ok(&req("requests==1.0.0rc1"), true),
        expect(r#"requests[version="==1.0.0.rc1"]"#)
    );
}

#[test]
fn rejects_a_direct_url_reference() {
    let err = convert_err(
        &req("requests @ https://example.com/requests-1.0.0.whl"),
        false,
    );
    assert!(matches!(err, ConvertError::DirectUrl), "{err:?}");
}

#[test]
fn local_version_label_with_strict_less_or_greater_than_is_rejected_at_parse_time() {
    for entry in ["requests<1.0.0+local", "requests>1.0.0+local"] {
        let parsed = parse_requirement(entry);
        assert!(
            parsed.is_err(),
            "{entry:?} should fail to parse as a Requirement at all"
        );
    }
}

/// A marker referencing a *known* key resolves via `restrict()`,
/// either to `Applicability::Always` (this test) or
/// `Applicability::Never`. `sys_platform == "win32"` is false on
/// `linux-64`, so the dependency doesn't apply -- not an error.
#[test]
fn virtual_package_marker_makes_the_dependency_never_apply() {
    let result = convert(
        &req(r#"requests>=2.0.0; sys_platform == "win32""#),
        false,
        assumption(),
        &no_mapping(),
    )
    .unwrap();
    assert_eq!(result, None);
}

#[test]
fn extra_marker_is_rejected() {
    let err = convert_err(&req(r#"requests>=2.0.0; extra == "foo""#), false);
    assert!(matches!(err, ConvertError::Marker { .. }), "{err:?}");
}

#[test]
fn marker_error_carries_the_marker_text() {
    let err = convert_err(&req(r#"requests; extra == "foo""#), false);
    match err {
        ConvertError::Marker { marker } => {
            assert!(marker.contains("extra"), "{marker:?}");
        }
        other => panic!("expected ConvertError::Marker, got {other:?}"),
    }
}

/// [`convert`] checks for an `extra` clause before inspecting
/// `requirement.version_or_url`, so a requirement with both a
/// direct URL and an `extra` marker is rejected as
/// [`ConvertError::Marker`], not [`ConvertError::DirectUrl`].
#[test]
fn marker_rejection_takes_precedence_over_a_direct_url() {
    let entry = r#"requests @ https://example.com/pkg.whl ; extra == "foo""#;
    let err = convert_err(&req(entry), false);
    assert!(matches!(err, ConvertError::Marker { .. }), "{err:?}");
}

/// Any marker containing an `extra` clause is rejected uniformly,
/// regardless of shape (combined clauses, mixed with an
/// environment condition, reversed operand order) -- see
/// [`convert`]'s docs for why.
#[test]
fn every_extra_containing_marker_shape_is_rejected_uniformly() {
    for entry in [
        r#"requests>=2.0.0; extra == "foo" or extra == "bar""#,
        r#"requests>=2.0.0; extra == "foo" and python_version >= "3.8""#,
        r#"requests>=2.0.0; "foo" == extra"#,
    ] {
        let err = convert_err(&req(entry), false);
        assert!(
            matches!(err, ConvertError::Marker { .. }),
            "{entry}: {err:?}"
        );
    }
}

/// Each marker references a known key with a value that holds on
/// `linux-64`, resolving via `restrict()` to
/// `Applicability::Always`.
#[test]
fn known_key_markers_with_a_holding_value_resolve_to_always() {
    for entry in [
        r#"requests>=2.0.0; platform_machine == "x86_64""#,
        r#"requests>=2.0.0; os_name != "nt""#,
        r#"requests>=2.0.0; sys_platform >= "linux""#,
    ] {
        assert_eq!(
            convert_ok(&req(entry), false),
            expect("requests>=2.0.0"),
            "{entry}"
        );
    }
}

/// `sys_platform == "cygwin"` is a known key whose value never
/// holds on `linux-64` -- `Applicability::Never`, so the
/// dependency is dropped (`Ok(None)`), not an error.
#[test]
fn known_key_marker_with_a_never_holding_value_resolves_to_never() {
    let result = convert(
        &req(r#"requests>=2.0.0; sys_platform == "cygwin""#),
        false,
        assumption(),
        &no_mapping(),
    )
    .unwrap();
    assert_eq!(result, None);
}

#[test]
fn tilde_equal_on_a_free_variable_key_now_converts_successfully() {
    for entry in [
        r#"requests>=2.0.0; python_version ~= "3.9""#,
        r#"requests>=2.0.0; python_full_version ~= "3.9.0""#,
    ] {
        let result = convert(&req(entry), false, assumption(), &no_mapping()).unwrap();
        assert!(
            matches!(
                result,
                Some(MatchSpec {
                    condition: Some(_),
                    ..
                })
            ),
            "{entry}: {result:?}"
        );
    }
}

/// A reversed-operand `in`/`not in` marker (literal on the left:
/// `"foo" in extra`) is not preserved as a real constraint by
/// `uv_pep508`: `Requirement::from_str` parses it successfully and
/// `marker.is_true()` is `true`, so [`convert`] silently treats
/// the dependency as marker-free rather than rejecting it. Pinned
/// here as the current behavior, so a future `uv_pep508` upgrade
/// that starts parsing these shapes into a real `MarkerTree`
/// turns into a loud test failure instead of a silent change.
#[test]
fn reversed_in_marker_is_silently_accepted_not_rejected() {
    let entry = r#"requests>=2.0.0; "foo" in extra"#;
    assert!(
        convert(&req(entry), false, assumption(), &no_mapping()).is_ok(),
        "if this now fails, uv_pep508 has started parsing reversed `in` as a real \
                 constraint -- update this test and consider whether ConvertError::Marker \
                 should fire instead"
    );
}

#[test]
fn reversed_not_in_marker_is_silently_accepted_not_rejected() {
    let entry = r#"requests>=2.0.0; "3.9" not in python_version"#;
    assert!(
        convert(&req(entry), false, assumption(), &no_mapping()).is_ok(),
        "if this now fails, uv_pep508 has started parsing reversed `not in` as a real \
                 constraint -- update this test and consider whether ConvertError::Marker \
                 should fire instead"
    );
}

/// A reversed-operand compatible-release comparison against a
/// string marker field (`"posix" ~= os_name`) is silently
/// accepted, not rejected, same as the reversed `in`/`not in`
/// shapes above: `uv_pep508` treats it as marker-free. Pinned here
/// so a future `uv_pep508` upgrade that starts treating this as a
/// real constraint (or panics) is a loud test failure.
#[test]
fn reversed_compatible_release_string_marker_is_silently_accepted_not_rejected() {
    let entry = r#"requests>=2.0.0; "posix" ~= os_name"#;
    assert!(
        convert(&req(entry), false, assumption(), &no_mapping()).is_ok(),
        "if this now fails, uv_pep508 has started treating a reversed string `~=` \
                 marker as a real constraint (or panics again) -- update this test and \
                 consider whether ConvertError::Marker should fire instead"
    );
}

/// A marker key with no matchspec equivalent even once known
/// values are restricted away surfaces as
/// [`ConvertError::UnconvertibleMarker`], not
/// [`ConvertError::Marker`].
#[test]
fn a_key_with_no_matchspec_equivalent_is_unconvertible_not_a_marker_error() {
    let err = convert_err(
        &req(r#"requests>=2.0.0; platform_release == "5.10.0""#),
        false,
    );
    assert!(
        matches!(err, ConvertError::UnconvertibleMarker(_)),
        "{err:?}"
    );
}

/// `sys_platform == "linux"` resolves away (true on `linux-64`),
/// leaving just the `python_version` residual as the matchspec
/// `condition`.
#[test]
fn a_known_and_free_marker_produces_a_condition() {
    let matchspec = convert_ok(
        &req(r#"requests>=2.0.0; sys_platform == "linux" and python_version >= "3.9""#),
        false,
    );
    assert_eq!(matchspec.name, expect("requests").name);
    assert!(matchspec.condition.is_some(), "{matchspec:?}");
}

/// The boundary is anchored at `.0a0` so a pre-release build of
/// the boundary minor (`python==3.9.0a0`) is correctly included.
#[test]
fn python_version_marker_converts_per_the_table() {
    let matchspec = convert_ok(&req(r#"requests; python_version >= "3.9""#), false);
    assert_eq!(matchspec.condition, Some(python(">=3.9.0a0")));
}

#[test]
fn python_version_equality_marker_produces_a_rattler_valid_when_clause() {
    let matchspec = convert_ok(&req(r#"requests; python_version == "3.9""#), false);
    assert_eq!(
        matchspec.condition,
        Some(MatchSpecCondition::And(
            Box::new(python(">=3.9.0a0")),
            Box::new(python("<3.10.0a0")),
        ))
    );
}

#[test]
fn python_version_inequality_marker_produces_a_rattler_valid_when_clause() {
    let matchspec = convert_ok(&req(r#"requests; python_version != "3.9""#), false);
    assert_eq!(matchspec.condition, Some(python("!=3.9.*")));
}

/// Uses `win-64`, not this module's usual `linux-64`:
/// `sys_platform == "win32"` would resolve away on `linux-64`,
/// dropping one side of the `and` instead of leaving it in the
/// residual.
#[test]
fn convert_combined_marker_preserves_and_or_structure() {
    let win_assumption =
        known_values_assumption(Platform::Win64).unwrap();
    let matchspec = convert(
        &req(r#"requests; sys_platform == "win32" and python_version >= "3.9""#),
        false,
        win_assumption,
        &no_mapping(),
    )
    .unwrap()
    .expect("sys_platform == \"win32\" holds on win-64");
    assert_eq!(matchspec.condition, Some(python(">=3.9.0a0")));
}

#[test]
fn convert_reversed_comparison_operand_order_still_converts() {
    let matchspec = convert_ok(&req(r#"requests; "3.9" <= python_version"#), false);
    assert_eq!(matchspec.condition, Some(python(">=3.9.0a0")));
}

/// With no virtual-package `condition` in this design, the
/// reversed operand order is exercised through `restrict()`'s own
/// resolution: `"win32" == sys_platform` still resolves to
/// `Applicability::Never` on `linux-64` regardless of which side
/// of `==` the literal is on.
#[test]
fn reversed_virtual_package_operand_order_still_converts() {
    let result = convert(
        &req(r#"requests; "win32" == sys_platform"#),
        false,
        assumption(),
        &no_mapping(),
    )
    .unwrap();
    assert_eq!(result, None);
}

/// `uv_pep508` drops the `rc1` pre-release segment during marker
/// parsing, and the resulting 2-segment literal is then
/// indistinguishable from a `python_version` boundary, so it gets
/// that boundary's `.0a0` anchor too.
#[test]
fn prerelease_literal_in_a_full_version_marker_is_allowed_without_allow_pre() {
    let matchspec = convert_ok(
        &req(r#"requests; python_full_version >= "3.9.0rc1""#),
        false,
    );
    assert_eq!(matchspec.condition, Some(python(">=3.9.0a0")));
}

/// The package-version part (`numpy<1.25.0,>=1.24.0`) and the
/// marker part convert independently and combine in the same
/// `MatchSpec`. The glob literal collapses to a 2-segment
/// `python_full_version` boundary, indistinguishable here from a
/// `python_version` boundary at the same precision, so it gets
/// the anchored two-clause range.
#[test]
fn full_version_glob_marker_produces_a_rattler_valid_when_clause() {
    let matchspec = convert_ok(
        &req(r#"numpy<1.25.0,>=1.24.0; python_full_version == "3.8.*""#),
        false,
    );
    assert_eq!(matchspec.version, expect("numpy>=1.24.0,<1.25.0a0").version);
    assert_eq!(
        matchspec.condition,
        Some(MatchSpecCondition::And(
            Box::new(python(">=3.8.0a0")),
            Box::new(python("<3.9.0a0")),
        ))
    );
}

/// Uses a free-variable marker rather than `sys_platform ==
/// "win32"` (which would resolve away to `Applicability::Never`
/// on `linux-64`) to keep both extras and a real `condition`
/// present together.
#[test]
fn extras_and_marker_combine_in_one_bracket() {
    let matchspec =
        convert_ok(&req(r#"fastapi[all]>=1.0; python_version >= "3.9""#), false);
    assert_eq!(matchspec.extras, expect("fastapi[extras=[all]]").extras);
    assert_eq!(matchspec.condition, Some(python(">=3.9.0a0")));
}

/// A bare major literal normalizes to minor `0`, so the upper
/// bound is the next minor (`3.1`), not the next major.
#[test]
fn python_version_literal_with_only_a_major_segment_converts() {
    let matchspec = convert_ok(&req(r#"requests>=2.0.0; python_version == "3""#), false);
    assert_eq!(
        matchspec.condition,
        Some(MatchSpecCondition::And(
            Box::new(python(">=3.0.0a0")),
            Box::new(python("<3.1.0a0")),
        ))
    );
}

/// `uv_pep508` expands the literal's bounds directly, with no
/// network fetch needed. Both boundaries get the `.0a0` anchor.
#[test]
fn in_marker_converts_via_the_membership_rewrite() {
    let matchspec = convert_ok(
        &req(r#"requests>=2.0.0; python_version in "3.9 3.10""#),
        false,
    );
    assert_eq!(
        matchspec.condition,
        Some(MatchSpecCondition::And(
            Box::new(python(">=3.9.0a0")),
            Box::new(python("<3.11.0a0")),
        ))
    );
}

/// Both boundaries get the `.0a0` anchor.
#[test]
fn not_in_marker_converts_via_the_membership_rewrite() {
    let matchspec = convert_ok(
        &req(r#"requests>=2.0.0; python_version not in "3.9 3.10""#),
        false,
    );
    assert_eq!(
        matchspec.condition,
        Some(MatchSpecCondition::Or(
            Box::new(python("<3.9.0a0")),
            Box::new(python(">=3.11.0a0")),
        ))
    );
}

#[test]
fn marker_equivalence_oracle_suite() {
    let matchspec = convert_ok(&req(r#"requests; python_version >= "3.9""#), false);
    let condition = matchspec
        .condition
        .expect(r#"python_version >= "3.9" is conditional, not Always/Never"#);
    let MatchSpecCondition::MatchSpec(spec) = &condition else {
        panic!("expected a single leaf condition, got {condition:?}");
    };
    let version_spec = spec
        .version
        .as_ref()
        .expect("the python leaf always carries a version");
    assert!(
        version_spec.matches(&Version::from_str("3.9.0a0").unwrap()),
        "a pre-release build of the boundary minor must still satisfy >=3.9: {version_spec}"
    );
    assert!(
        !version_spec.matches(&Version::from_str("3.8.9").unwrap()),
        "a version below the boundary minor entirely must not satisfy >=3.9: {version_spec}"
    );
}

#[test]
fn bare_extra_becomes_an_extras_bracket() {
    assert_eq!(
        convert_ok(&req("fastapi[all]"), false),
        expect("fastapi[extras=[all]]")
    );
}

#[test]
fn extras_come_after_the_version() {
    assert_eq!(
        convert_ok(&req("fastapi[all]>=1.0"), false),
        expect(r#"fastapi[version=">=1.0",extras=[all]]"#)
    );
}

#[test]
fn multiple_extras_are_normalized_and_sorted() {
    assert_eq!(
        convert_ok(&req("fastapi[Standard,ALL]"), false),
        expect("fastapi[extras=[all,standard]]")
    );
}

#[test]
fn extra_name_is_normalized() {
    assert_eq!(
        convert_ok(&req("fastapi[Some_Extra.Name]"), false),
        expect("fastapi[extras=[some-extra-name]]")
    );
}

#[test]
fn extra_name_over_64_characters_is_rejected() {
    let entry = format!("fastapi[{}]", "a".repeat(65));
    let err = convert_err(&req(&entry), false);
    assert!(matches!(err, ConvertError::ExtraTooLong { .. }), "{err:?}");
}

#[test]
fn extra_name_at_exactly_64_characters_is_accepted() {
    let extra = "a".repeat(64);
    let entry = format!("fastapi[{extra}]");
    assert_eq!(
        convert_ok(&req(&entry), false),
        expect(&format!("fastapi[extras=[{extra}]]"))
    );
}

#[test]
fn empty_extras_brackets_produce_no_extras_clause() {
    assert_eq!(convert_ok(&req("fastapi[]"), false), expect("fastapi"));
}

#[test]
fn duplicate_extras_after_normalization_are_deduplicated() {
    assert_eq!(
        convert_ok(&req("fastapi[Foo-Bar,foo_bar]"), false),
        expect("fastapi[extras=[foo-bar]]")
    );
}

#[test]
fn any_invalid_extra_length_raises_even_when_others_are_valid() {
    let entry = format!("fastapi[valid,{}]", "a".repeat(65));
    let err = convert_err(&req(&entry), false);
    assert!(matches!(err, ConvertError::ExtraTooLong { .. }), "{err:?}");
}

#[test]
fn name_version_and_extras_all_combine() {
    let entry = "Foo_Bar.BAZ[Extra1,extra_2]~=1.2.3rc1";
    assert_eq!(
        convert_ok(&req(entry), true),
        expect(r#"foo-bar-baz[version=">=1.2.3.rc1,<1.3.0a0",extras=[extra-2,extra1]]"#)
    );
}

#[test]
fn is_index_aligned_with_its_input() {
    let requirements = vec![req("requests"), req("requests @ https://example.com/x.whl")];
    let results = convert_all(&requirements, false, assumption(), &no_mapping());

    assert_eq!(results.len(), 2);
    assert!(results[0].is_ok());
    assert!(matches!(results[1], Err(ConvertError::DirectUrl)));
}

#[test]
fn is_index_aligned_with_its_input_above_the_parallel_threshold() {
    let mut requirements: Vec<Requirement> = (0..LARGE_BATCH)
        .map(|i| req(&format!("requests{i}")))
        .collect();
    requirements.push(req("requests @ https://example.com/x.whl"));

    let results = convert_all(&requirements, false, assumption(), &no_mapping());

    assert_eq!(results.len(), LARGE_BATCH + 1);
    assert!(results[..LARGE_BATCH]
        .iter()
        .all(Result::is_ok));
    assert!(matches!(
        results[LARGE_BATCH],
        Err(ConvertError::DirectUrl)
    ));
}

#[test]
fn mapping_is_forwarded_on_both_the_sequential_and_parallel_paths() {
    let handle = mapping_of(&[("opencv-python", "py-opencv")]);

    let sequential = vec![req("opencv-python")];
    let sequential_results = convert_all(&sequential, false, assumption(), &handle);
    assert_eq!(
        sequential_results[0]
            .as_ref()
            .unwrap()
            .as_ref()
            .unwrap()
            .name,
        PackageNameMatcher::Exact(PackageName::new_unchecked("py-opencv"))
    );

    let mut parallel: Vec<Requirement> = (0..LARGE_BATCH)
        .map(|i| req(&format!("requests{i}")))
        .collect();
    parallel.push(req("opencv-python"));
    let parallel_results = convert_all(&parallel, false, assumption(), &handle);
    let last = parallel_results
        .last()
        .unwrap()
        .as_ref()
        .unwrap()
        .as_ref()
        .unwrap();
    assert_eq!(
        last.name,
        PackageNameMatcher::Exact(PackageName::new_unchecked("py-opencv"))
    );
}

#[test]
fn a_mapped_name_is_measured_in_bytes() {
    let long_name = "a".repeat(65);
    let err = conda_name("short-pkg", &mapping_of(&[("short-pkg", &long_name)])).unwrap_err();
    assert_eq!(
        err.to_string(),
        format!("conda package name \"{long_name}\" exceeds 64 characters (65)")
    );
    assert_eq!(conda_name("numpy", &no_mapping()).unwrap(), "numpy");
}

#[test]
fn extras_are_sorted_and_written_once() {
    let extras = ["b", "a", "b"].map(ToString::to_string).to_vec();
    assert_eq!(
        conda_extras(&extras).unwrap(),
        Some(vec!["a".to_string(), "b".to_string()])
    );
    assert_eq!(conda_extras(&Vec::new()).unwrap(), None);
}

#[test]
fn a_long_extra_is_named_in_the_message() {
    let extra = "a".repeat(70);
    assert_eq!(
        conda_extras(&vec![extra.clone()]).unwrap_err().to_string(),
        format!("extra \"{extra}\" exceeds 64 characters once normalized (70)")
    );
}

#[test]
fn an_extra_clause_is_found_in_any_branch() {
    assert!(marker_has_extra_clause(
        &req(r#"a; python_version < "3.9" or extra == "foo""#).marker
    ));
    assert!(!marker_has_extra_clause(&req(r#"a; python_version < "3.9""#).marker));
    assert!(!marker_has_extra_clause(&req("a").marker));
}

#[test]
fn conversion_errors_say_what_is_wrong() {
    assert_eq!(
        convert_err(&req(r#"requests; extra == "foo""#), false).to_string(),
        "requirement has an environment marker (\"extra == 'foo'\"); markers are not supported by \
         this converter"
    );
    assert_eq!(
        convert_err(&req("requests @ https://example.com/x.whl"), false).to_string(),
        "requirement has a direct URL reference, which has no matchspec equivalent"
    );
    assert_eq!(
        convert_err(&req(r#"requests; platform_release == "5""#), false).to_string(),
        "marker could not be converted to a matchspec condition: marker key \
         \"platform_release\" has no matchspec equivalent"
    );
    assert!(
        conda_name("some-pkg", &mapping_of(&[("some-pkg", "not a valid name")]))
            .unwrap_err()
            .to_string()
            .starts_with("invalid pypi-to-conda mapping entry: ")
    );
}

#[test]
fn a_converted_spec_is_spelled_canonically() {
    let spelled = |entry: &str| {
        ana::convert::convert(&req(entry), true, &assumption(), &no_mapping())
            .unwrap()
            .unwrap()
            .canonical()
            .unwrap()
    };
    assert_eq!(spelled("requests>=1.0,<2.0"), "requests >=1.0,<2.0a0");
    assert_eq!(spelled("requests"), "requests");
    for entry in [
        "requests==1.0.*",
        "requests!=1.0.*,>1!2.0",
        "requests~=2.1",
        "requests[b,a]===3.0rc1",
        r#"requests; python_version == "3.9""#,
        r#"requests[a]<=4; python_version < "3.9" or python_version >= "3.11""#,
        r#"requests; python_version not in "3.9 3.10" and implementation_version != "3.12.1""#,
    ] {
        let spec = ana::convert::convert(&req(entry), true, &assumption(), &no_mapping())
            .unwrap()
            .unwrap();
        assert_eq!(
            spec.canonical().unwrap(),
            conda_spec(&spec).to_string(),
            "{entry}"
        );
    }
}

#[test]
fn a_spec_with_what_is_no_version_has_no_spelling() {
    let bad = |version: &str| Clause {
        comparator: Comparator::Less,
        version: version.to_string(),
    };
    let spec = ana::conda::MatchSpec {
        name: "numpy".to_string(),
        version: Some(ana::conda::VersionSpec::All(vec![bad("1.0"), bad("?")])),
        extras: None,
        condition: None,
    };
    assert!(spec.canonical().is_err());
    let spec = ana::conda::MatchSpec {
        name: "numpy".to_string(),
        version: None,
        extras: None,
        condition: Some(Condition::Or(
            Box::new(Condition::Python(bad("3.9"))),
            Box::new(Condition::Python(bad("?"))),
        )),
    };
    assert!(spec.canonical().is_err());
}
