use ana::conda::{Clause, Comparator, Condition, VersionSpec};
use ana::conda_map::MappingHandle;
use ana::dependency::{parse_matchspec, Dependency, SelectedRequirement};
use ana::matchspec_convert::{
    canonical_matchspecs, convert_for_platform_with_matchspec_entries, matchspec_entries,
    ConvertedRequirements, Error, Spec, REQUIRES_PYTHON_SOURCE,
};
use ana::pep440::{parse_specifiers, Specifier};
use ana::pep508::parse_requirement;
use ana::platform::Platform;
use ana::table::Table;
use rattler_conda_types::{
    EqualityOperator, LogicalOperator, MatchSpec, MatchSpecCondition, PackageName,
    PackageNameMatcher, ParseMatchSpecOptions, RangeOperator, StrictRangeOperator, StrictVersion,
};
use std::collections::BTreeSet;
use std::str::FromStr;

/// A version constraint as conda's own type, built piece by piece.
fn conda_version_spec(spec: &VersionSpec) -> rattler_conda_types::VersionSpec {
    match spec {
        VersionSpec::One(clause) => conda_clause(clause),
        VersionSpec::All(clauses) => rattler_conda_types::VersionSpec::Group(
            LogicalOperator::And,
            clauses.iter().map(conda_clause).collect(),
        ),
    }
}

fn conda_clause(clause: &Clause) -> rattler_conda_types::VersionSpec {
    let version = rattler_conda_types::Version::from_str(&clause.version).unwrap();
    match clause.comparator {
        Comparator::Greater => rattler_conda_types::VersionSpec::Range(RangeOperator::Greater, version),
        Comparator::GreaterEquals => rattler_conda_types::VersionSpec::Range(RangeOperator::GreaterEquals, version),
        Comparator::Less => rattler_conda_types::VersionSpec::Range(RangeOperator::Less, version),
        Comparator::LessEquals => rattler_conda_types::VersionSpec::Range(RangeOperator::LessEquals, version),
        Comparator::Equals => rattler_conda_types::VersionSpec::Exact(EqualityOperator::Equals, version),
        Comparator::NotEquals => rattler_conda_types::VersionSpec::Exact(EqualityOperator::NotEquals, version),
        Comparator::StartsWith => rattler_conda_types::VersionSpec::StrictRange(
            StrictRangeOperator::StartsWith,
            StrictVersion::from(version),
        ),
        Comparator::NotStartsWith => rattler_conda_types::VersionSpec::StrictRange(
            StrictRangeOperator::NotStartsWith,
            StrictVersion::from(version),
        ),
    }
}

fn conda_condition(condition: &Condition) -> MatchSpecCondition {
    match condition {
        Condition::Python(clause) => MatchSpecCondition::MatchSpec(Box::new(MatchSpec {
            name: PackageNameMatcher::Exact(PackageName::new_unchecked("python")),
            version: Some(conda_clause(clause)),
            ..MatchSpec::default()
        })),
        Condition::And(a, b) => {
            MatchSpecCondition::And(Box::new(conda_condition(a)), Box::new(conda_condition(b)))
        }
        Condition::Or(a, b) => {
            MatchSpecCondition::Or(Box::new(conda_condition(a)), Box::new(conda_condition(b)))
        }
    }
}

/// A match spec as conda's own type, built piece by piece.
fn conda_spec(spec: &ana::conda::MatchSpec) -> MatchSpec {
    MatchSpec {
        name: PackageNameMatcher::Exact(PackageName::new_unchecked(spec.name.as_str())),
        version: spec.version.as_ref().map(conda_version_spec),
        extras: spec.extras.clone(),
        condition: spec.condition.as_ref().map(conda_condition),
        ..MatchSpec::default()
    }
}

fn conda(spec: &Spec) -> MatchSpec {
    match spec {
        Spec::Declared(spec) => {
            MatchSpec::from_str(&spec.text, ParseMatchSpecOptions::lenient()).unwrap()
        }
        Spec::Converted(spec) => conda_spec(spec),
    }
}

fn opencv_mapping() -> MappingHandle {
    let mut map = Table::new();
    map.insert("opencv-python".to_string(), "py-opencv".to_string());
    MappingHandle::from_map(map)
}

/// A `MappingHandle` with no entries, for tests that don't care about
/// name mapping.
fn no_mapping() -> MappingHandle {
    MappingHandle::from_map(Table::new())
}

/// Test-only convenience combining `matchspec_entries` and
/// `convert_for_platform_with_matchspec_entries` into one call.
fn convert_for_platform(
    selected: &Vec<SelectedRequirement<'_>>,
    requires_python: Option<&Vec<Specifier>>,
    platform: Platform,
    pypi_to_conda_map: &MappingHandle,
) -> Result<ConvertedRequirements, Error> {
    convert_for_platform_with_matchspec_entries(
        &matchspec_entries(selected),
        selected,
        requires_python,
        platform,
        pypi_to_conda_map,
    )
}

fn pep508_deps(reqs: &[&str]) -> Vec<Dependency> {
    reqs.iter()
        .map(|r| Dependency::Pep508(parse_requirement(r).unwrap()))
        .collect()
}

fn matchspec_deps(specs: &[&str]) -> Vec<Dependency> {
    specs
        .iter()
        .map(|s| {
            Dependency::Matchspec(Box::new(parse_matchspec(s).unwrap()))
        })
        .collect()
}

/// Wraps `deps` as `SelectedRequirement`s with source `"runtime"`.
/// `deps` must outlive the returned borrow.
fn selected(deps: &[Dependency]) -> Vec<SelectedRequirement<'_>> {
    deps.iter()
        .map(|dependency| SelectedRequirement {
            dependency,
            source: "runtime".to_string(),
        })
        .collect()
}

/// Same as `selected`, with an explicit `source`.
fn selected_with_source<'p>(
    deps: &'p [Dependency],
    source: &str,
) -> Vec<SelectedRequirement<'p>> {
    deps.iter()
        .map(|dependency| SelectedRequirement {
            dependency,
            source: source.to_string(),
        })
        .collect()
}

#[test]
fn converts_and_canonicalizes() {
    let deps = pep508_deps(&["numpy>=1.20", "ruff"]);
    let converted =
        convert_for_platform(&selected(&deps), None, Platform::Linux64, &no_mapping()).unwrap();
    let strings: Vec<&str> = converted
        .locked
        .iter()
        .map(|r| r.matchspec.as_str())
        .collect();
    assert_eq!(strings, vec!["numpy >=1.20", "ruff"]);
    assert_eq!(converted.specs.len(), 2);
}

#[test]
fn foreign_platform_markers_resolve_without_host_detection() {
    let deps = pep508_deps(&["numpy", "pywin32; sys_platform == 'win32'"]);
    let selected = selected(&deps);
    let linux =
        convert_for_platform(&selected, None, Platform::Linux64, &no_mapping()).unwrap();
    assert_eq!(linux.locked.len(), 1);
    assert_eq!(linux.locked[0].matchspec, "numpy");

    let windows =
        convert_for_platform(&selected, None, Platform::Win64, &no_mapping()).unwrap();
    assert_eq!(windows.locked.len(), 2);
}

/// The same package pinned in both `runtime` and a group is not
/// collapsed into one entry; per PEP 735,
/// duplicate requirements across sources are kept as independent
/// constraints, not deduplicated by precedence.
#[test]
fn duplicate_requirements_from_different_sources_are_both_kept() {
    let deps = pep508_deps(&["numpy>=1.20"]);
    let mut selected = selected(&deps);
    selected.push(SelectedRequirement {
        dependency: &deps[0],
        source: "group:dev".to_string(),
    });
    let converted =
        convert_for_platform(&selected, None, Platform::Linux64, &no_mapping()).unwrap();

    assert_eq!(
        converted.locked.len(),
        2,
        "both sources' requirements are kept, not collapsed into one"
    );
    assert!(
        converted
            .locked
            .iter()
            .all(|r| r.matchspec == "numpy >=1.20"),
        "both entries carry the same (jointly-satisfiable) constraint"
    );
    let sources: BTreeSet<&str> = converted.locked.iter().map(|r| r.source.as_str()).collect();
    assert_eq!(
        sources,
        BTreeSet::from(["runtime", "group:dev"]),
        "neither source's copy is dropped in favor of the other"
    );
    assert_eq!(
        converted.specs.len(),
        2,
        "the solver sees both constraints, exactly as it would for a package that's both a \
             direct and a transitive dependency"
    );
}

#[test]
fn requires_python_becomes_a_locked_requirement_with_its_own_source() {
    let requires_python = parse_specifiers(">=3.9").unwrap();
    let deps = pep508_deps(&["numpy>=1.20"]);
    let converted = convert_for_platform(
        &selected(&deps),
        Some(&requires_python),
        Platform::Linux64,
        &no_mapping(),
    )
    .unwrap();

    assert_eq!(
        converted.locked.len(),
        2,
        "python is an ordinary locked entry"
    );
    assert_eq!(converted.specs.len(), 2);
    let python = converted
        .locked
        .iter()
        .find(|req| req.source == REQUIRES_PYTHON_SOURCE)
        .expect("a requires-python-sourced requirement was recorded");
    assert_eq!(python.matchspec, "python >=3.9");

    let specs: Vec<MatchSpec> = converted.specs.iter().map(conda).collect();
    let python_spec = specs
        .iter()
        .find(|spec| spec.name.as_exact().map(|n| n.as_normalized()) == Some("python"))
        .expect("a python matchspec was produced");
    let version_spec = python_spec
        .version
        .as_ref()
        .expect("python carries a version");
    assert!(version_spec.matches(&rattler_conda_types::Version::from_str("3.9.0").unwrap()));
    assert!(!version_spec.matches(&rattler_conda_types::Version::from_str("3.8.0").unwrap()));
}

#[test]
fn no_requires_python_means_no_python_spec() {
    let deps = pep508_deps(&["numpy"]);
    let converted =
        convert_for_platform(&selected(&deps), None, Platform::Linux64, &no_mapping()).unwrap();
    assert_eq!(converted.specs.len(), 1);
}

#[test]
fn conversion_failures_are_aggregated() {
    let deps = pep508_deps(&["numpy @ https://example.com/numpy.whl", "also @ file:///x"]);
    let converted =
        convert_for_platform(&selected(&deps), None, Platform::Linux64, &no_mapping());
    match converted {
        Err(Error::Conversion(message)) => {
            assert!(message.contains("numpy @"), "{message}");
            assert!(message.contains("also @"), "{message}");
        }
        other => panic!("expected conversion error, got {}", {
            if other.is_ok() {
                "ok"
            } else {
                "different error"
            }
        }),
    }
}

#[test]
fn matchspec_entries_pass_through_without_conversion() {
    let deps = matchspec_deps(&["compilers", "cmake >=3.20"]);
    let converted = convert_for_platform(
        &selected_with_source(&deps, "group:build"),
        None,
        Platform::Linux64,
        &no_mapping(),
    )
    .unwrap();
    let strings: Vec<&str> = converted
        .locked
        .iter()
        .map(|r| r.matchspec.as_str())
        .collect();
    assert_eq!(strings, vec!["cmake >=3.20", "compilers"]);
    assert!(converted.locked.iter().all(|r| r.source == "group:build"));
    assert_eq!(converted.specs.len(), 2);
}

#[test]
fn pep508_and_matchspec_entries_merge_and_sort() {
    let pep508 = pep508_deps(&["ruff"]);
    let matchspec = matchspec_deps(&["compilers"]);
    let mut selected = selected(&pep508);
    selected.extend(selected_with_source(&matchspec, "group:build"));
    let converted =
        convert_for_platform(&selected, None, Platform::Linux64, &no_mapping()).unwrap();
    let summary: Vec<(&str, &str)> = converted
        .locked
        .iter()
        .map(|r| (r.matchspec.as_str(), r.source.as_str()))
        .collect();
    assert_eq!(
        summary,
        vec![("compilers", "group:build"), ("ruff", "runtime")]
    );
}

/// Same guarantee as
/// `duplicate_requirements_from_different_sources_are_both_kept`, for
/// `Dependency::Matchspec` entries.
#[test]
fn duplicate_matchspec_entries_from_different_sources_are_both_kept() {
    let deps = matchspec_deps(&["numpy >=1.26"]);
    let mut selected = selected_with_source(&deps, "runtime");
    selected.extend(selected_with_source(&deps, "group:dev"));
    let converted =
        convert_for_platform(&selected, None, Platform::Linux64, &no_mapping()).unwrap();

    assert_eq!(converted.locked.len(), 2);
    assert!(converted
        .locked
        .iter()
        .all(|r| r.matchspec == "numpy >=1.26"));
    let sources: BTreeSet<&str> = converted.locked.iter().map(|r| r.source.as_str()).collect();
    assert_eq!(sources, BTreeSet::from(["runtime", "group:dev"]));
    assert_eq!(converted.specs.len(), 2);
}

/// A name present in the pypi-to-conda mapping table is replaced in
/// both `locked` and `specs`.
#[test]
fn pypi_to_conda_map_is_applied_through_convert_for_platform() {
    let deps = pep508_deps(&["opencv-python>=4.0"]);
    let handle = opencv_mapping();
    let converted =
        convert_for_platform(&selected(&deps), None, Platform::Linux64, &handle).unwrap();

    assert_eq!(converted.locked.len(), 1);
    assert_eq!(converted.locked[0].matchspec, "py-opencv >=4.0");
    assert_eq!(
        conda(&converted.specs[0])
            .name
            .as_exact()
            .map(|n| n.as_normalized()),
        Some("py-opencv")
    );
}

/// A name absent from the mapping table is unaffected, even with an
/// unrelated non-empty table.
#[test]
fn unmapped_name_is_unaffected_by_an_unrelated_table() {
    let deps = pep508_deps(&["numpy>=1.20"]);
    let handle = opencv_mapping();
    let converted =
        convert_for_platform(&selected(&deps), None, Platform::Linux64, &handle).unwrap();

    assert_eq!(converted.locked[0].matchspec, "numpy >=1.20");
}

#[test]
fn canonical_matchspecs_returns_sorted_canonical_strings() {
    let deps = pep508_deps(&["numpy>=1.20", "ruff"]);
    let strings = canonical_matchspecs(&deps, None, Platform::Linux64, &no_mapping()).unwrap();
    assert_eq!(strings, vec!["numpy >=1.20", "ruff"]);
}

#[test]
fn canonical_matchspecs_includes_requires_python() {
    let requires_python = parse_specifiers(">=3.9").unwrap();
    let deps = pep508_deps(&["numpy"]);
    let strings = canonical_matchspecs(
        &deps,
        Some(&requires_python),
        Platform::Linux64,
        &no_mapping(),
    )
    .unwrap();
    assert!(strings.contains(&"python >=3.9".to_string()), "{strings:?}");
}

#[test]
fn canonical_matchspecs_surfaces_conversion_failures() {
    let deps = pep508_deps(&["numpy @ https://example.com/numpy.whl"]);
    let err = canonical_matchspecs(&deps, None, Platform::Linux64, &no_mapping()).unwrap_err();
    assert!(matches!(err, Error::Conversion(_)));
}

/// The canonical spelling is the one conda gives the match spec itself.
#[test]
fn locked_spellings_are_those_of_the_specs() {
    let deps = pep508_deps(&[
        "a",
        "b>=1.0,<2.0,!=1.5",
        "c[x,y]>1.0",
        "d==1.2.*; python_version >= '3.9'",
        "e!=1.2.*; python_version == '3.9' or python_version > '3.11'",
        "f~=1.4.2; python_full_version < '3.9.1' or (python_version >= '3.10' and python_full_version != '3.10.4')",
        "g===2.0",
        "h<=3!1.0.post2",
    ]);
    let converted =
        convert_for_platform(&selected(&deps), None, Platform::Linux64, &no_mapping()).unwrap();
    assert_eq!(converted.locked.len(), 8);
    for (locked, spec) in converted.locked.iter().zip(&converted.specs) {
        assert_eq!(locked.matchspec, conda(spec).to_string());
    }
}

#[test]
fn entries_are_ordered_by_name_then_spelling_then_source() {
    let runtime = pep508_deps(&["b", "a>=2", "a>=1"]);
    let group = pep508_deps(&["a>=1"]);
    let mut all = selected(&runtime);
    all.extend(selected_with_source(&group, "group:x"));
    let converted = convert_for_platform(&all, None, Platform::OsxArm64, &no_mapping()).unwrap();
    let summary: Vec<(&str, &str)> = converted
        .locked
        .iter()
        .map(|r| (r.matchspec.as_str(), r.source.as_str()))
        .collect();
    assert_eq!(
        summary,
        vec![
            ("a >=1", "group:x"),
            ("a >=1", "runtime"),
            ("a >=2", "runtime"),
            ("b", "runtime"),
        ]
    );
}

#[test]
fn failures_are_listed_line_by_line() {
    let deps = pep508_deps(&["a @ https://example.com/a.whl", "b>=1.0a1"]);
    let requires_python = parse_specifiers(">=3.9rc1").unwrap();
    let err = convert_for_platform(
        &selected(&deps),
        Some(&requires_python),
        Platform::Linux64,
        &no_mapping(),
    )
    .err()
    .unwrap();
    assert_eq!(
        err.to_string(),
        "failed to convert requirements to matchspecs:\n  a @ https://example.com/a.whl (from runtime): requirement has a direct URL reference, which has no matchspec equivalent\n  b>=1.0a1 (from runtime): specifier \">=1.0a1\" is a pre-release version and allow_pre is unset\n  requires-python: specifier \">=3.9rc1\" is a pre-release version and allow_pre is unset"
    );
}

#[test]
fn an_unsupported_platform_is_an_error() {
    let err = canonical_matchspecs(&vec![], None, Platform::Linux32, &no_mapping()).unwrap_err();
    assert_eq!(
        err.to_string(),
        "platform Linux32 has no known marker-environment mapping (ana only installs onto linux-64, linux-aarch64, osx-64, osx-arm64, win-64, or win-arm64)"
    );
}

#[test]
fn a_pattern_goes_by_its_spelling() {
    let deps = matchspec_deps(&["conda-forge::numpy >=1.26"]);
    let entries = matchspec_entries(&selected(&deps));
    assert_eq!(entries[0].name, "numpy");
    assert_eq!(entries[0].canonical, "conda-forge::numpy >=1.26");
    assert_eq!(entries[0].source, "runtime");
}
