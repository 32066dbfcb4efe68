use ana::data::Duplicate;
use ana::dependency::{parse_matchspec, Dependency};
use ana::pep508::{parse_requirement, Requirement};
use ana::pyproject::resolution::{
    resolve, Chain, DependencyGroupSpecifier, Item, ResolveError, ResolveErrorKind,
    ResolvedDependencies, Resolver, Section, MAX_RESOLUTION_DEPTH,
};
use ana::table::Table;
use std::str::FromStr;
use uv_normalize::{ExtraName, GroupName};

fn extra(name: &str) -> String {
    ExtraName::from_str(name).unwrap().to_string()
}

fn group(name: &str) -> String {
    GroupName::from_str(name).unwrap().to_string()
}

fn table<V: Duplicate>(entries: Vec<(String, Vec<V>)>) -> Table<Vec<V>> {
    let mut table = Table::new();
    for (key, value) in entries {
        table.insert(key, value);
    }
    table
}

fn req(spec: &str) -> Requirement {
    parse_requirement(spec).unwrap()
}

/// A `Dependency::Pep508` wrapping `req(spec)`, for building/
/// comparing against `dependency_groups`, which is `Dependency`-typed.
/// `optional_dependencies` stays plain `Requirement`-typed (see
/// `ResolvedDependencies`'s docs), so tests exercising it keep using
/// `req(...)` directly.
fn dep(spec: &str) -> Dependency {
    Dependency::Pep508(req(spec))
}

#[test]
fn optional_dependencies_resolve() {
    let optional_dependencies = table(vec![
        (extra("alpha"), vec![req("beta"), req("gamma"), req("delta")]),
        (extra("epsilon"), vec![req("eta<2.0"), req("theta==2024.09.01")]),
        (extra("iota"), vec![req("spam[alpha]")]),
    ]);
    let resolved = resolve(
        Some("spam"),
        Some(&optional_dependencies),
        None,
    )
    .unwrap();

    assert_eq!(
        *resolved.optional_dependencies.get(&extra("iota")).unwrap(),
        vec![req("beta"), req("gamma"), req("delta")]
    );
}

#[test]
fn optional_dependencies_cycle() {
    let optional_dependencies = table(vec![
        (extra("alpha"), vec![req("spam[iota]")]),
        (extra("iota"), vec![req("spam[alpha]")]),
    ]);
    let err = resolve(
        Some("spam"),
        Some(&optional_dependencies),
        None,
    )
    .unwrap_err();

    assert_eq!(
        err.to_string(),
        "Cycles are not supported: extra:alpha -> extra:iota -> extra:alpha"
    );
}

#[test]
fn optional_dependencies_missing_include() {
    let optional_dependencies = table(vec![
        (extra("iota"), vec![req("spam[alpha]")]),
    ]);
    let err = resolve(
        Some("spam"),
        Some(&optional_dependencies),
        None,
    )
    .unwrap_err();

    assert_eq!(
        err.to_string(),
        "Failed to find optional dependency `alpha` included by extra:iota"
    );
}

#[test]
fn optional_dependencies_missing_top_level() {
    let optional_dependencies = table(vec![
        (extra("alpha"), vec![req("beta")]),
        (extra("bar"), vec![req("spam[foo]")]),
    ]);
    let err = resolve(Some("spam"), Some(&optional_dependencies), None).unwrap_err();

    assert_eq!(
        err.to_string(),
        "Failed to find optional dependency `foo` included by extra:bar"
    );
}

#[test]
fn dependency_groups_resolve() {
    let dependency_groups = table(vec![
        (group("alpha"), vec![
            DependencyGroupSpecifier::Dependency(dep("beta")),
            DependencyGroupSpecifier::Dependency(dep("gamma")),
            DependencyGroupSpecifier::Dependency(dep("delta")),
        ]),
        (group("epsilon"), vec![
            DependencyGroupSpecifier::Dependency(dep("eta<2.0")),
            DependencyGroupSpecifier::Dependency(dep("theta==2024.09.01")),
        ]),
        (group("iota"), vec![DependencyGroupSpecifier::IncludeGroup(group("alpha"))]),
    ]);
    let resolved = resolve(None, None, Some(&dependency_groups)).unwrap();

    assert_eq!(
        *resolved.dependency_groups.get(&group("iota")).unwrap(),
        vec![dep("beta"), dep("gamma"), dep("delta")]
    );
}

#[test]
fn dependency_groups_cycle() {
    let dependency_groups = table(vec![
        (group("alpha"), vec![DependencyGroupSpecifier::IncludeGroup(group("iota"))]),
        (group("iota"), vec![DependencyGroupSpecifier::IncludeGroup(group("alpha"))]),
    ]);
    let err = resolve(None, None, Some(&dependency_groups)).unwrap_err();

    assert_eq!(
        err.to_string(),
        "Cycles are not supported: group:alpha -> group:iota -> group:alpha"
    );
}

#[test]
fn dependency_groups_missing_include() {
    let dependency_groups = table(vec![
        (group("iota"), vec![DependencyGroupSpecifier::IncludeGroup(group("alpha"))]),
    ]);
    let err = resolve(None, None, Some(&dependency_groups)).unwrap_err();

    assert_eq!(
        err.to_string(),
        "Failed to find dependency group `alpha` included by group:iota"
    );
}

#[test]
fn dependency_groups_with_optional_dependencies() {
    let optional_dependencies = table(vec![
        (extra("test"), vec![req("pytest")]),
    ]);
    let dependency_groups = table(vec![
        (group("dev"), vec![DependencyGroupSpecifier::Dependency(dep("spam[test]"))]),
    ]);
    let resolved = resolve(
        Some("spam"),
        Some(&optional_dependencies),
        Some(&dependency_groups),
    )
    .unwrap();

    assert_eq!(
        *resolved.dependency_groups.get(&group("dev")).unwrap(),
        vec![dep("pytest")]
    );
}

// An extra and a group with the same name are
// independent namespaces.
#[test]
fn extra_and_group_same_name_are_independent() {
    let optional_dependencies = table(vec![
        (extra("dev"), vec![req("pytest")]),
    ]);
    let dependency_groups = table(vec![
        (group("dev"), vec![DependencyGroupSpecifier::Dependency(dep("ruff"))]),
    ]);
    let resolved = resolve(
        Some("spam"),
        Some(&optional_dependencies),
        Some(&dependency_groups),
    )
    .unwrap();

    assert_eq!(
        *resolved.optional_dependencies.get(&extra("dev")).unwrap(),
        vec![req("pytest")]
    );
    assert_eq!(*resolved.dependency_groups.get(&group("dev")).unwrap(), vec![dep("ruff")]);
}

#[test]
fn optional_dependencies_are_not_dependency_groups() {
    let optional_dependencies = table(vec![
        (extra("test"), vec![req("pytest")]),
    ]);
    let dependency_groups = table(vec![
        (group("dev"), vec![DependencyGroupSpecifier::Dependency(dep("spam[test]"))]),
    ]);
    let resolved = resolve(
        Some("spam"),
        Some(&optional_dependencies),
        Some(&dependency_groups),
    )
    .unwrap();

    assert!(resolved.optional_dependencies.get(&extra("test")).is_some());
    assert!(!resolved.dependency_groups.get(&group("test")).is_some());
    assert!(resolved.dependency_groups.get(&group("dev")).is_some());
}

#[test]
fn mixed_resolution() {
    let optional_dependencies = table(vec![
        (extra("test"), vec![req("pytest")]),
        (extra("numpy"), vec![req("numpy")]),
    ]);
    let dependency_groups = table(vec![
        (group("dev"), vec![DependencyGroupSpecifier::Dependency(dep("spam[test]"))]),
        (group("test"), vec![DependencyGroupSpecifier::Dependency(dep("spam[numpy]"))]),
    ]);
    let resolved = resolve(
        Some("spam"),
        Some(&optional_dependencies),
        Some(&dependency_groups),
    )
    .unwrap();

    assert_eq!(
        *resolved.dependency_groups.get(&group("dev")).unwrap(),
        vec![dep("pytest")]
    );
    assert_eq!(
        *resolved.dependency_groups.get(&group("test")).unwrap(),
        vec![dep("numpy")]
    );
}

#[test]
fn optional_dependencies_with_underscores() {
    let optional_dependencies = table(vec![
        (extra("all"), vec![req("foo[group-one]"), req("foo[group_two]")]),
        (extra("group_one"), vec![req("anyio>=4.9.0")]),
        (extra("group-two"), vec![req("trio>=0.31.0")]),
    ]);
    let resolved = resolve(
        Some("foo"),
        Some(&optional_dependencies),
        None,
    )
    .unwrap();

    assert_eq!(
        *resolved.optional_dependencies.get(&extra("all")).unwrap(),
        vec![req("anyio>=4.9.0"), req("trio>=0.31.0")]
    );
}

// -----------------------------------------------------------------------
// Error attribution (`ResolveError::section`)
// -----------------------------------------------------------------------

#[test]
fn error_in_optional_dependencies_is_attributed_there() {
    // A failure found while the extras loop is running must be attributed
    // to `Section::OptionalDependencies`.
    let optional_dependencies = table(vec![
        (extra("iota"), vec![req("spam[alpha]")]),
    ]);
    let err = resolve(
        Some("spam"),
        Some(&optional_dependencies),
        None,
    )
    .unwrap_err();

    assert_eq!(err.section(), Section::OptionalDependencies);
}

#[test]
fn error_in_dependency_groups_is_attributed_there() {
    // Symmetric with the extras case above, for a failure in the groups loop.
    let dependency_groups = table(vec![
        (group("iota"), vec![DependencyGroupSpecifier::IncludeGroup(group("alpha"))]),
    ]);
    let err = resolve(None, None, Some(&dependency_groups)).unwrap_err();

    assert_eq!(err.section(), Section::DependencyGroups);
}

#[test]
fn error_in_extra_referenced_only_from_a_group_is_attributed_to_groups() {
    // `all` isn't a top-level extra, so the extras loop never looks at it --
    // this only fails because `dev` (a group) references `spam[all]`. That
    // makes it an `OptionalDependencyNotFound` (the variant says "optional
    // dependency"), but it's still attributed to `Section::DependencyGroups`,
    // since that's the loop that was running when it was discovered.
    let optional_dependencies = table(vec![
        (extra("test"), vec![req("pytest")]),
    ]);
    let dependency_groups = table(vec![
        (group("dev"), vec![DependencyGroupSpecifier::Dependency(dep("spam[all]"))]),
    ]);
    let err = resolve(
        Some("spam"),
        Some(&optional_dependencies),
        Some(&dependency_groups),
    )
    .unwrap_err();

    assert_eq!(err.section(), Section::DependencyGroups);
    assert_eq!(
        err.to_string(),
        "Failed to find optional dependency `all` included by group:dev"
    );
}

#[test]
fn error_in_extras_takes_priority_when_both_sections_are_present() {
    // `resolve()` walks extras to completion before looking at groups, so
    // when both sections have a failure, the extras failure wins.
    let optional_dependencies = table(vec![
        (extra("broken"), vec![req("spam[missing]")]),
    ]);
    let dependency_groups = table(vec![
        (group("also-broken"), vec![DependencyGroupSpecifier::IncludeGroup(group("nope"))]),
    ]);
    let err = resolve(
        Some("spam"),
        Some(&optional_dependencies),
        Some(&dependency_groups),
    )
    .unwrap_err();

    assert_eq!(err.section(), Section::OptionalDependencies);
    assert_eq!(
        err.to_string(),
        "Failed to find optional dependency `missing` included by extra:broken"
    );
}

// -----------------------------------------------------------------------
// Maximum resolution depth
// -----------------------------------------------------------------------

/// A chain of `len` dependency groups, `g0` through `g{len-1}`, each
/// including the next via `include-group`; the last one is a plain
/// requirement rather than another include, so the chain terminates on
/// its own instead of erroring on a missing final reference.
fn dependency_group_chain(len: usize) -> Table<Vec<DependencyGroupSpecifier>> {
    let entries = (0..len)
        .map(|i| {
            let specifier = if i + 1 < len {
                DependencyGroupSpecifier::IncludeGroup(group(&format!("g{}", i + 1)))
            } else {
                DependencyGroupSpecifier::Dependency(dep("leaf"))
            };
            (group(&format!("g{i}")), vec![specifier])
        })
        .collect();
    table(entries)
}

/// Same shape as `dependency_group_chain`, but as self-referential
/// optional-dependency extras (`e0` through `e{len-1}`) on a project
/// named `spam`, instead of `include-group` references.
fn optional_dependency_chain(len: usize) -> Table<Vec<Requirement>> {
    let entries = (0..len)
        .map(|i| {
            let requirement = if i + 1 < len {
                req(&format!("spam[e{}]", i + 1))
            } else {
                req("leaf")
            };
            (extra(&format!("e{i}")), vec![requirement])
        })
        .collect();
    table(entries)
}

#[test]
fn dependency_group_chain_within_limit_resolves() {
    let dependency_groups = dependency_group_chain(MAX_RESOLUTION_DEPTH);
    let resolved = resolve(None, None, Some(&dependency_groups)).unwrap();
    assert_eq!(*resolved.dependency_groups.get(&group("g0")).unwrap(), vec![dep("leaf")]);
}

#[test]
fn dependency_group_chain_exceeding_limit_is_rejected() {
    // One link longer than the "within limit" test above, still acyclic
    // (every group name is distinct), so the cycle check can't catch it.
    let dependency_groups = dependency_group_chain(MAX_RESOLUTION_DEPTH + 1);
    let err = resolve(None, None, Some(&dependency_groups)).unwrap_err();
    assert!(err.to_string().starts_with(&format!(
        "maximum reference depth ({MAX_RESOLUTION_DEPTH}) exceeded"
    )));
}

#[test]
fn optional_dependency_chain_within_limit_resolves() {
    let optional_dependencies = optional_dependency_chain(MAX_RESOLUTION_DEPTH);
    let resolved = resolve(
        Some("spam"),
        Some(&optional_dependencies),
        None,
    )
    .unwrap();
    assert_eq!(
        *resolved.optional_dependencies.get(&extra("e0")).unwrap(),
        vec![req("leaf")]
    );
}

#[test]
fn optional_dependency_chain_exceeding_limit_is_rejected() {
    // Self-referential extras recurse through a separate function
    // (`resolve_optional_dependency`) from `include-group`, so this
    // needs its own depth-limit test.
    let optional_dependencies = optional_dependency_chain(MAX_RESOLUTION_DEPTH + 1);
    let err = resolve(
        Some("spam"),
        Some(&optional_dependencies),
        None,
    )
    .unwrap_err();
    assert!(err.to_string().starts_with(&format!(
        "maximum reference depth ({MAX_RESOLUTION_DEPTH}) exceeded"
    )));
}

#[test]
fn a_match_spec_is_never_expanded() {
    let spec = Dependency::Matchspec(Box::new(parse_matchspec("spam").unwrap()));
    let dependency_groups = table(vec![(
        group("dev"),
        vec![DependencyGroupSpecifier::Dependency(spec.clone())],
    )]);
    let resolved = resolve(Some("spam"), None, Some(&dependency_groups)).unwrap();
    assert_eq!(
        *resolved.dependency_groups.get("dev").unwrap(),
        vec![spec]
    );
}

#[test]
fn references_expand_in_place_without_dropping_repeats() {
    let dependency_groups = table(vec![
        (
            group("all"),
            vec![
                DependencyGroupSpecifier::Dependency(dep("first")),
                DependencyGroupSpecifier::IncludeGroup(group("some")),
                DependencyGroupSpecifier::IncludeGroup(group("some")),
                DependencyGroupSpecifier::Dependency(dep("last")),
            ],
        ),
        (
            group("some"),
            vec![DependencyGroupSpecifier::Dependency(dep("x"))],
        ),
    ]);
    let resolved = resolve(None, None, Some(&dependency_groups)).unwrap();
    assert_eq!(
        *resolved.dependency_groups.get("all").unwrap(),
        vec![dep("first"), dep("x"), dep("x"), dep("last")]
    );
}

#[test]
fn every_declared_name_is_resolved_and_what_is_needed_comes_first() {
    let optional_dependencies = table(vec![
        (extra("all"), vec![req("spam[one,two]")]),
        (extra("one"), vec![req("x")]),
        (extra("two"), vec![req("y")]),
    ]);
    let resolved = resolve(Some("spam"), Some(&optional_dependencies), None).unwrap();
    let names: Vec<&str> = (0..resolved.optional_dependencies.len())
        .map(|i| resolved.optional_dependencies.key(i))
        .collect();
    assert_eq!(names, vec!["one", "two", "all"]);
    let all = resolved.optional_dependencies.get("all").unwrap();
    assert!(all.iter().all(|requirement| requirement.name != "spam"));
}

#[test]
fn without_a_project_name_nothing_refers_to_itself() {
    let optional_dependencies = table(vec![(extra("all"), vec![req("spam[missing]")])]);
    let resolved = resolve(None, Some(&optional_dependencies), None).unwrap();
    assert_eq!(
        *resolved.optional_dependencies.get("all").unwrap(),
        vec![req("spam[missing]")]
    );
}

#[test]
fn failures_are_rendered() {
    let error = |kind| ResolveError {
        kind,
        section: Section::DependencyGroups,
    };
    assert_eq!(
        error(ResolveErrorKind::MissingParent(Item::Group("a".to_string()))).to_string(),
        "Internal error: no parent tracked while resolving unresolvable reference `group:a`"
    );
    assert_eq!(
        error(ResolveErrorKind::MaxDepthExceeded {
            limit: 10,
            chain: Chain(vec![Item::Group("a".to_string()), Item::Extra("b".to_string())]),
        })
        .to_string(),
        "maximum reference depth (10) exceeded while resolving: group:a -> extra:b"
    );
}

#[test]
fn a_list_without_references_is_kept() {
    let optional_dependencies = table(vec![(extra("plain"), vec![req("b"), req("a"), req("b")])]);
    let dependency_groups = table(vec![(
        group("dev"),
        vec![
            DependencyGroupSpecifier::Dependency(dep("b")),
            DependencyGroupSpecifier::Dependency(dep("a")),
        ],
    )]);
    let resolved = resolve(
        Some("project"),
        Some(&optional_dependencies),
        Some(&dependency_groups),
    )
    .unwrap();
    assert_eq!(
        *resolved.optional_dependencies.get("plain").unwrap(),
        vec![req("b"), req("a"), req("b")]
    );
    assert_eq!(
        *resolved.dependency_groups.get("dev").unwrap(),
        vec![dep("b"), dep("a")]
    );
}

#[test]
fn an_extra_that_is_reached_again_is_no_cycle() {
    let optional_dependencies = table(vec![
        (extra("base"), vec![req("numpy")]),
        (extra("left"), vec![req("spam[base]")]),
        (extra("right"), vec![req("spam[base]"), req("spam[left]"), req("spam[base]")]),
    ]);
    let resolved = resolve(Some("spam"), Some(&optional_dependencies), None).unwrap();

    assert_eq!(
        *resolved.optional_dependencies.get(&extra("left")).unwrap(),
        vec![req("numpy")]
    );
    assert_eq!(
        *resolved.optional_dependencies.get(&extra("right")).unwrap(),
        vec![req("numpy"), req("numpy"), req("numpy")]
    );
}

#[test]
fn a_resolved_extra_is_left_as_it_is() {
    let declared = table(vec![(extra("loop"), vec![req("spam[loop]")])]);
    let groups: Table<Vec<DependencyGroupSpecifier>> = Table::new();
    let resolver = Resolver {
        name: Some("spam"),
        extras: &declared,
        groups: &groups,
    };
    let mut resolved = ResolvedDependencies {
        optional_dependencies: table(vec![(extra("loop"), vec![req("numpy")])]),
        dependency_groups: Table::new(),
    };
    let mut parents = vec![Item::Extra(extra("loop"))];
    resolver
        .resolve_optional_dependency(&extra("loop"), &mut resolved, &mut parents)
        .unwrap();
    assert_eq!(
        *resolved.optional_dependencies.get(&extra("loop")).unwrap(),
        vec![req("numpy")]
    );
    assert_eq!(parents, vec![Item::Extra(extra("loop"))]);
}
