use ana::marker::{known_values_assumption, UnsupportedPlatform};
use ana::platform::Platform;
use std::str::FromStr;
use uv_pep508::{MarkerTree, Requirement, VerbatimUrl};

fn req(entry: &str) -> Requirement<VerbatimUrl> {
    Requirement::from_str(entry).unwrap()
}

/// The known values of `subdir` as a marker.
fn assumption_of(subdir: Platform) -> MarkerTree {
    MarkerTree::from_str(&known_values_assumption(subdir).unwrap().text()).unwrap()
}

/// The marker of `entry`, given the known values of `subdir`.
fn restricted(entry: &str, subdir: Platform) -> MarkerTree {
    req(entry).marker.restrict(assumption_of(subdir))
}

fn both(left: MarkerTree, right: MarkerTree) -> MarkerTree {
    let mut marker = left;
    marker.and(right);
    marker
}

/// Restricting a marker and stating the assumption again says the same as
/// stating both from the start.
fn assert_reconjoining_reconstructs(entry: &str, subdir: Platform) {
    let marker = req(entry).marker;
    let assumption = assumption_of(subdir);
    let reconstructed = both(marker.restrict(assumption), assumption);
    let expected = both(marker, assumption);
    assert_eq!(reconstructed, expected, "entry {entry:?} subdir {subdir:?}");
}

#[test]
fn every_supported_subdir_builds_an_assumption() {
    for subdir in [
        Platform::Linux64,
        Platform::LinuxAarch64,
        Platform::Osx64,
        Platform::OsxArm64,
        Platform::Win64,
        Platform::WinArm64,
    ] {
        assert!(
            known_values_assumption(subdir).is_ok(),
            "{subdir:?} should be supported"
        );
    }
}

#[test]
fn an_unsupported_platform_is_rejected() {
    let err = known_values_assumption(Platform::Linux32).unwrap_err();
    assert_eq!(err, UnsupportedPlatform(Platform::Linux32));
}

#[test]
fn noarch_is_rejected() {
    // `NoArch` has no `sys_platform`/`os_name`/etc. of its own --
    // it isn't a real installation target, and shouldn't silently
    // build an assumption for one.
    assert!(known_values_assumption(Platform::NoArch).is_err());
}

#[test]
fn implementation_name_resolves() {
    assert!(restricted(
        r#"requests; implementation_name == "cpython""#,
        Platform::Linux64
    )
    .is_true());
    assert!(restricted(
        r#"requests; implementation_name == "pypy""#,
        Platform::Linux64
    )
    .is_false());
}

#[test]
fn platform_python_implementation_resolves() {
    assert!(restricted(
        r#"requests; platform_python_implementation == "CPython""#,
        Platform::Linux64
    )
    .is_true());
    assert!(restricted(
        r#"requests; platform_python_implementation == "PyPy""#,
        Platform::Linux64
    )
    .is_false());
}

#[test]
fn os_name_resolves() {
    assert!(restricted(r#"requests; os_name == "posix""#, Platform::Linux64).is_true());
    assert!(!restricted(r#"requests; os_name == "nt""#, Platform::Linux64).is_true());
    assert!(restricted(r#"requests; os_name != "nt""#, Platform::Linux64).is_true());
}

#[test]
fn sys_platform_resolves() {
    assert!(
        restricted(r#"requests; sys_platform == "linux""#, Platform::Linux64).is_true()
    );
    assert!(
        restricted(r#"requests; sys_platform == "win32""#, Platform::Linux64).is_false()
    );
}

#[test]
fn platform_system_resolves() {
    assert!(
        restricted(r#"requests; platform_system == "Linux""#, Platform::Linux64).is_true()
    );
    assert!(restricted(
        r#"requests; platform_system == "Darwin""#,
        Platform::Linux64
    )
    .is_false());
}

#[test]
fn platform_machine_resolves() {
    assert!(restricted(
        r#"requests; platform_machine == "x86_64""#,
        Platform::Linux64
    )
    .is_true());
    assert!(restricted(
        r#"requests; platform_machine == "aarch64""#,
        Platform::Linux64
    )
    .is_false());
}

#[test]
fn deprecated_alias_resolves_the_same_as_the_canonical_key() {
    assert!(restricted(r#"requests; "posix" == os.name"#, Platform::Linux64).is_true());
}

/// Ordering comparators against a known string key are decidable
/// too, not just `==`/`!=` -- `restrict()` uses the same
/// lexicographic range machinery `evaluate()` does internally.
#[test]
fn ordering_comparators_against_a_known_key_resolve() {
    assert!(
        restricted(r#"requests; sys_platform >= "linux""#, Platform::Linux64).is_true()
    );
    assert!(
        restricted(r#"requests; sys_platform > "linux""#, Platform::Linux64).is_false()
    );
}

#[test]
fn linux_64() {
    assert!(restricted(
        r#"requests; platform_system == "Linux" and platform_machine == "x86_64" and 
                   sys_platform == "linux" and os_name == "posix""#,
        Platform::Linux64
    )
    .is_true());
}

#[test]
fn linux_aarch64() {
    assert!(restricted(
        r#"requests; platform_system == "Linux" and platform_machine == "aarch64" and 
                   sys_platform == "linux" and os_name == "posix""#,
        Platform::LinuxAarch64
    )
    .is_true());
}

#[test]
fn osx_64() {
    assert!(restricted(
        r#"requests; platform_system == "Darwin" and platform_machine == "x86_64" and 
                   sys_platform == "darwin" and os_name == "posix""#,
        Platform::Osx64
    )
    .is_true());
}

#[test]
fn osx_arm64() {
    assert!(restricted(
        r#"requests; platform_system == "Darwin" and platform_machine == "arm64" and 
                   sys_platform == "darwin" and os_name == "posix""#,
        Platform::OsxArm64
    )
    .is_true());
}

/// Windows's `platform_machine` is `"AMD64"` -- uppercase, not
/// `rattler_conda_types::Arch::as_str()`'s lowercase `"x86_64"`.
/// This is the whole reason this table is hand-authored rather
/// than derived from `Arch`; see the module docs.
#[test]
fn win_64() {
    assert!(restricted(
        r#"requests; platform_system == "Windows" and platform_machine == "AMD64" and 
                   sys_platform == "win32" and os_name == "nt""#,
        Platform::Win64
    )
    .is_true());
    assert!(
        restricted(r#"requests; platform_machine == "x86_64""#, Platform::Win64).is_false()
    );
}

#[test]
fn win_arm64() {
    assert!(restricted(
        r#"requests; platform_system == "Windows" and platform_machine == "ARM64" and 
                   sys_platform == "win32" and os_name == "nt""#,
        Platform::WinArm64
    )
    .is_true());
    assert!(restricted(
        r#"requests; platform_machine == "arm64""#,
        Platform::WinArm64
    )
    .is_false());
}

#[test]
fn platform_release_is_left_unresolved() {
    let residual = restricted(
        r#"requests; platform_release == "5.10.0""#,
        Platform::Linux64,
    );
    assert!(!residual.is_true());
    assert!(!residual.is_false());
}

#[test]
fn platform_version_is_left_unresolved() {
    let residual = restricted(
        r#"requests; platform_version == "5.10.0-generic""#,
        Platform::Linux64,
    );
    assert!(!residual.is_true());
    assert!(!residual.is_false());
}

/// A marker mixing an excluded key with a known key still
/// simplifies the known part -- `restrict()` works clause by
/// clause, not all-or-nothing.
#[test]
fn excluded_key_alongside_a_known_key_only_leaves_the_excluded_part() {
    let residual = restricted(
        r#"requests; platform_release == "5.10.0" and sys_platform == "linux""#,
        Platform::Linux64,
    );
    // sys_platform == "linux" is true under the assumption, so it
    // drops out of the `and`, leaving just the release clause.
    let expected =
        uv_pep508::MarkerTree::from_str(r#"platform_release == "5.10.0""#).unwrap();
    assert_eq!(residual, expected);
}

#[test]
fn python_version_is_left_unresolved() {
    let residual = restricted(r#"requests; python_version >= "3.9""#, Platform::Linux64);
    assert!(!residual.is_true());
    assert!(!residual.is_false());
}

#[test]
fn python_full_version_is_left_unresolved() {
    let residual = restricted(
        r#"requests; python_full_version >= "3.9.0""#,
        Platform::Linux64,
    );
    assert!(!residual.is_true());
    assert!(!residual.is_false());
}

#[test]
fn implementation_version_is_left_unresolved() {
    let residual = restricted(
        r#"requests; implementation_version >= "3.9.0""#,
        Platform::Linux64,
    );
    assert!(!residual.is_true());
    assert!(!residual.is_false());
}

/// A known-key clause combined (via `or`) with a free-variable
/// clause collapses the whole marker to `TRUE` when the known
/// part alone already holds -- `or` short-circuits even though
/// the other side is undecidable.
#[test]
fn known_key_true_short_circuits_an_or_with_a_free_variable() {
    let residual = restricted(
        r#"requests; sys_platform == "linux" or python_version >= "3.9""#,
        Platform::Linux64,
    );
    assert!(residual.is_true());
}

#[test]
fn subdir_disjunction_and_free_variable_collapses_to_the_free_variable() {
    let residual = restricted(
        r#"requests; ((platform_machine == "x86_64" and sys_platform == "darwin") or 
                   (platform_machine == "x86_64" and sys_platform == "linux") or 
                   (platform_machine == "AMD64" and sys_platform == "win32")) and 
                   python_version < "3.11""#,
        Platform::Linux64,
    );
    let expected = uv_pep508::MarkerTree::from_str(r#"python_version < "3.11""#).unwrap();
    assert_eq!(residual, expected);
}

#[test]
fn known_key_equality() {
    assert_reconjoining_reconstructs(
        r#"requests; sys_platform == "linux""#,
        Platform::Linux64,
    );
    assert_reconjoining_reconstructs(
        r#"requests; sys_platform == "win32""#,
        Platform::Linux64,
    );
}

#[test]
fn known_key_inequality() {
    assert_reconjoining_reconstructs(r#"requests; os_name != "nt""#, Platform::Linux64);
}

#[test]
fn known_key_ordering() {
    assert_reconjoining_reconstructs(
        r#"requests; sys_platform >= "linux""#,
        Platform::Linux64,
    );
}

#[test]
fn free_variable_alone() {
    assert_reconjoining_reconstructs(
        r#"requests; python_version >= "3.9""#,
        Platform::Linux64,
    );
}

#[test]
fn conjunction_of_known_and_free() {
    assert_reconjoining_reconstructs(
        r#"requests; sys_platform == "linux" and python_version >= "3.9""#,
        Platform::Linux64,
    );
}

#[test]
fn disjunction_of_known_and_free() {
    assert_reconjoining_reconstructs(
        r#"requests; sys_platform == "win32" or python_version >= "3.9""#,
        Platform::Linux64,
    );
}

#[test]
fn disjunction_of_two_known_keys() {
    assert_reconjoining_reconstructs(
        r#"requests; sys_platform == "linux" or sys_platform == "darwin""#,
        Platform::Linux64,
    );
}

#[test]
fn extra_alongside_an_environment_clause() {
    assert_reconjoining_reconstructs(
        r#"requests; extra == "foo" and sys_platform == "linux""#,
        Platform::Linux64,
    );
    assert_reconjoining_reconstructs(
        r#"requests; extra == "foo" or sys_platform == "win32""#,
        Platform::Linux64,
    );
}

#[test]
fn deliberately_excluded_key_alongside_a_known_key() {
    assert_reconjoining_reconstructs(
        r#"requests; platform_release == "5.10.0" and sys_platform == "linux""#,
        Platform::Linux64,
    );
    assert_reconjoining_reconstructs(
        r#"requests; platform_release == "5.10.0" or sys_platform == "win32""#,
        Platform::Linux64,
    );
}

#[test]
fn deliberately_excluded_key_alongside_the_free_variable() {
    assert_reconjoining_reconstructs(
        r#"requests; platform_version == "5.10.0-generic" and python_version >= "3.9""#,
        Platform::Linux64,
    );
}

#[test]
fn three_way_mix_of_known_free_and_excluded_keys() {
    assert_reconjoining_reconstructs(
        r#"requests; sys_platform == "linux" and python_version >= "3.9" and 
                   platform_release == "5.10.0""#,
        Platform::Linux64,
    );
}

#[test]
fn already_true_under_the_assumption_restricts_to_true() {
    let assumption = assumption_of(Platform::Linux64);
    assert!(assumption.restrict(assumption).is_true());
}

/// Runs the same sweep on a second subdir, to check the identity
/// isn't accidentally only true for `linux-64`'s particular
/// assumption shape.
#[test]
fn holds_on_a_different_subdir_too() {
    assert_reconjoining_reconstructs(
        r#"requests; sys_platform == "win32" and python_version >= "3.9""#,
        Platform::WinArm64,
    );
}

#[test]
fn assumption_states_six_equalities() {
    assert_eq!(
        known_values_assumption(Platform::OsxArm64).unwrap().text(),
        "implementation_name == 'cpython' and platform_python_implementation == 'CPython' \
         and os_name == 'posix' and sys_platform == 'darwin' \
         and platform_system == 'Darwin' and platform_machine == 'arm64'"
    );
}

#[test]
fn unsupported_platform_names_the_platform() {
    assert_eq!(
        known_values_assumption(Platform::Linux32).unwrap_err().to_string(),
        "platform Linux32 has no known marker-environment mapping (ana only installs onto \
         linux-64, linux-aarch64, osx-64, osx-arm64, win-64, or win-arm64)"
    );
}
