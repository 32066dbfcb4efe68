use ana::dependency::{parse_matchspec, Dependency};
use ana::pep440::parse_specifiers;
use ana::pep508::{parse_requirement, Requirement};
use ana::pyproject::{InvalidField, Pyproject};
use std::str::FromStr;
use uv_normalize::{ExtraName, GroupName, PackageName};

/// The dependency specifiers of a list that holds nothing else.
fn pep508(dependencies: &[Dependency]) -> Vec<Requirement> {
    dependencies
        .iter()
        .map(|dependency| match dependency {
            Dependency::Pep508(requirement) => requirement.clone(),
            other => panic!("unexpected match spec: {other:?}"),
        })
        .collect()
}

fn req(spec: &str) -> Requirement {
    parse_requirement(spec).unwrap()
}

fn extra(name: &str) -> String {
    ExtraName::from_str(name).unwrap().to_string()
}

fn group(name: &str) -> String {
    GroupName::from_str(name).unwrap().to_string()
}

fn package(name: &str) -> String {
    PackageName::from_str(name).unwrap().to_string()
}

fn parse_ok(toml: &str) -> Pyproject {
    Pyproject::parse(toml).unwrap()
}

fn parse_err(toml: &str) -> Vec<InvalidField> {
    Pyproject::parse(toml).unwrap_err().fields().to_vec()
}

/// An expected `InvalidField` with no description.
fn invalid(path: &str) -> InvalidField {
    InvalidField {
        path: path.to_string(),
        description: None,
    }
}

fn paths(fields: &[InvalidField]) -> Vec<&str> {
    fields.iter().map(|f| f.path.as_str()).collect()
}

// -----------------------------------------------------------------------
// Valid documents
// -----------------------------------------------------------------------

#[test]
fn minimal_project() {
    let p = parse_ok(
        r#"
[project]
name = "myproj"
dependencies = ["requests", "click>=8"]
"#,
    );
    assert_eq!(p.name, package("myproj"));
    assert_eq!(
        pep508(&p.requirements.runtime),
        vec![req("requests"), req("click>=8")]
    );
    assert!(p.requirements.extras.len() == 0);
    assert!(p.requirements.groups.len() == 0);
}

/// A trailing comma in a version specifier list (`"foo>=1,<2,"`) used to
/// be a `uv_pep508` parse error. uv#19806 ("Allow trailing commas in
/// version specifiers"), picked up by this crate's `uv-pep508` bump to
/// `0.12.6`, relaxed the grammar to accept exactly one trailing comma in
/// both the bare and parenthesized specifier-list forms.
#[test]
fn trailing_comma_in_version_specifiers_is_now_accepted() {
    let p = parse_ok(
        r#"
[project]
name = "myproj"
dependencies = ["requests>=1,<2,"]
"#,
    );
    assert_eq!(pep508(&p.requirements.runtime), vec![req("requests>=1,<2,")]);
}

#[test]
fn missing_dependencies_key_is_empty_runtime() {
    // A `[project]` table with no `dependencies` key at all means zero
    // runtime dependencies, not an error.
    let p = parse_ok(
        r#"
[project]
name = "myproj"
"#,
    );
    assert_eq!(p.name, package("myproj"));
    assert!(p.requirements.runtime.is_empty());
}

#[test]
fn empty_dependencies() {
    let p = parse_ok(
        r#"
[project]
name = "myproj"
dependencies = []
"#,
    );
    assert!(p.requirements.runtime.is_empty());
}

#[test]
fn full_project() {
    let p = parse_ok(
        r#"
[project]
name = "myproj"
dependencies = ["requests"]

[project.optional-dependencies]
test = ["pytest"]

[dependency-groups]
dev = ["ruff"]
"#,
    );
    assert_eq!(pep508(&p.requirements.runtime), vec![req("requests")]);
    assert_eq!(*p.requirements.extras.get(&extra("test")).unwrap(), vec![req("pytest")]);
    assert_eq!(pep508(p.requirements.groups.get(&group("dev")).unwrap()), vec![req("ruff")]);
}

#[test]
fn dynamic_with_unrelated_keys_is_fine() {
    // Only `dependencies`/`optional-dependencies` in `dynamic` are
    // rejection-worthy; `version`/`readme` etc. are ignored.
    let p = parse_ok(
        r#"
[project]
name = "myproj"
dynamic = ["version", "readme"]
"#,
    );
    assert_eq!(p.name, package("myproj"));
}

#[test]
fn unrelated_fields_are_ignored() {
    let p = parse_ok(
        r#"
[project]
name = "myproj"
version = "1.0"
readme = "README.md"
dependencies = ["requests"]

[tool.ana]
whatever = true

[tool.setuptools]
packages = ["x"]
"#,
    );
    assert_eq!(pep508(&p.requirements.runtime), vec![req("requests")]);
    assert_eq!(p.requires_python, None);
}

#[test]
fn requires_python_is_parsed() {
    let p = parse_ok(
        r#"
[project]
name = "myproj"
requires-python = ">=3.9"
"#,
    );
    assert_eq!(
        p.requires_python,
        Some(parse_specifiers(">=3.9").unwrap())
    );
}

#[test]
fn requires_python_wrong_shape_is_rejected() {
    let fields = parse_err(
        r#"
[project]
name = "myproj"
requires-python = [">=3.9"]
"#,
    );
    assert_eq!(paths(&fields), vec!["project.requires-python"]);
}

#[test]
fn requires_python_unparseable_is_rejected() {
    let fields = parse_err(
        r#"
[project]
name = "myproj"
requires-python = "not a specifier"
"#,
    );
    assert_eq!(paths(&fields), vec!["project.requires-python"]);
}

#[test]
fn dynamic_requires_python_is_rejected() {
    let fields = parse_err(
        r#"
[project]
name = "myproj"
dynamic = ["requires-python"]
"#,
    );
    assert_eq!(paths(&fields), vec!["project.dynamic"]);
}

#[test]
fn markers_and_extras_on_requirements_are_preserved() {
    // PEP 508 markers are static data -- evaluated downstream at
    // matchspec-generation time, not a parse-stage concern.
    let p = parse_ok(
        r#"
[project]
name = "myproj"
dependencies = ["django>2; os_name != 'nt'", "foo[gui,cli]"]
"#,
    );
    assert_eq!(
        pep508(&p.requirements.runtime),
        vec![req("django>2; os_name != 'nt'"), req("foo[gui,cli]")]
    );
}

#[test]
fn source_order_is_preserved() {
    let p = parse_ok(
        r#"
[project]
name = "myproj"
dependencies = ["zeta", "alpha", "middle"]
"#,
    );
    assert_eq!(
        pep508(&p.requirements.runtime),
        vec![req("zeta"), req("alpha"), req("middle")]
    );
}

#[test]
fn poetry_table_with_project_dependencies_is_fine() {
    // Poetry 2.0+ emits a standard `[project]` table; when
    // `[project.dependencies]` exists we don't care the backend
    // happens to be poetry-core.
    let p = parse_ok(
        r#"
[project]
name = "myproj"
dependencies = ["requests"]

[tool.poetry.dependencies]
requests = "^2.0"
"#,
    );
    assert_eq!(pep508(&p.requirements.runtime), vec![req("requests")]);
}

#[test]
fn tool_poetry_without_dependencies_is_fine() {
    // The legacy tell is `[tool.poetry.dependencies]` specifically, not
    // the mere presence of a `[tool.poetry]` table.
    let p = parse_ok(
        r#"
[project]
name = "myproj"
dependencies = ["requests"]

[tool.poetry]
name = "myproj"
"#,
    );
    assert_eq!(pep508(&p.requirements.runtime), vec![req("requests")]);
}

#[test]
fn self_referential_extra_expands() {
    let p = parse_ok(
        r#"
[project]
name = "myproj"

[project.optional-dependencies]
gui = ["tkinter"]
cli = ["click"]
all = ["myproj[gui,cli]"]
"#,
    );
    assert_eq!(
        *p.requirements.extras.get(&extra("all")).unwrap(),
        vec![req("tkinter"), req("click")]
    );
}

#[test]
fn self_referential_extra_in_group_expands() {
    let p = parse_ok(
        r#"
[project]
name = "myproj"

[project.optional-dependencies]
test = ["pytest"]

[dependency-groups]
dev = ["myproj[test]"]
"#,
    );
    assert_eq!(pep508(p.requirements.groups.get(&group("dev")).unwrap()), vec![req("pytest")]);
}

#[test]
fn include_group_expands_positionally_without_dedup() {
    // PEP 735: includes expand in place and do not deduplicate -- both
    // `foo` entries pass through; dedup is the solver's problem.
    let p = parse_ok(
        r#"
[project]
name = "myproj"

[dependency-groups]
a = ["foo"]
b = ["bar", {include-group = "a"}, "foo"]
"#,
    );
    assert_eq!(
        pep508(p.requirements.groups.get(&group("b")).unwrap()),
        vec![req("bar"), req("foo"), req("foo")]
    );
}

#[test]
fn include_group_reference_is_normalized() {
    let p = parse_ok(
        r#"
[project]
name = "myproj"

[dependency-groups]
dev-tools = ["ruff"]
all = [{include-group = "dev_tools"}]
"#,
    );
    assert_eq!(pep508(p.requirements.groups.get(&group("all")).unwrap()), vec![req("ruff")]);
}

#[test]
fn extra_reference_is_normalized() {
    let p = parse_ok(
        r#"
[project]
name = "myproj"

[project.optional-dependencies]
group_one = ["anyio"]
all = ["myproj[Group-One]"]
"#,
    );
    assert_eq!(*p.requirements.extras.get(&extra("all")).unwrap(), vec![req("anyio")]);
}

#[test]
fn project_name_is_normalized_for_self_reference() {
    let p = parse_ok(
        r#"
[project]
name = "MyProj"

[project.optional-dependencies]
test = ["pytest"]

[dependency-groups]
dev = ["myproj[test]"]
"#,
    );
    assert_eq!(p.name, package("myproj"));
    assert_eq!(pep508(p.requirements.groups.get(&group("dev")).unwrap()), vec![req("pytest")]);
}

#[test]
fn runtime_self_reference_passes_through_unexpanded() {
    // `resolve()` only expands inside extras/groups; a self-reference
    // in `[project.dependencies]` stays a literal requirement on the
    // project.
    let p = parse_ok(
        r#"
[project]
name = "myproj"
dependencies = ["myproj[test]"]

[project.optional-dependencies]
test = ["pytest"]
"#,
    );
    assert_eq!(pep508(&p.requirements.runtime), vec![req("myproj[test]")]);
    assert_eq!(*p.requirements.extras.get(&extra("test")).unwrap(), vec![req("pytest")]);
}

#[test]
fn extra_and_group_with_same_name_are_independent() {
    let p = parse_ok(
        r#"
[project]
name = "myproj"

[project.optional-dependencies]
dev = ["pytest"]

[dependency-groups]
dev = ["ruff"]
"#,
    );
    assert_eq!(*p.requirements.extras.get(&extra("dev")).unwrap(), vec![req("pytest")]);
    assert_eq!(pep508(p.requirements.groups.get(&group("dev")).unwrap()), vec![req("ruff")]);
}

#[test]
fn empty_group_is_fine() {
    let p = parse_ok(
        r#"
[project]
name = "myproj"

[dependency-groups]
dev = []
"#,
    );
    assert_eq!(
        pep508(p.requirements.groups.get(&group("dev")).unwrap()),
        Vec::<Requirement>::new()
    );
}

// -----------------------------------------------------------------------
// Structural errors
// -----------------------------------------------------------------------

#[test]
fn missing_project_table() {
    let fields = parse_err(
        r#"
[build-system]
requires = ["setuptools"]
"#,
    );
    assert_eq!(fields, vec![invalid("project")]);
}

#[test]
fn empty_document() {
    assert_eq!(parse_err(""), vec![invalid("project")]);
}

#[test]
fn project_not_a_table() {
    let fields = parse_err(r#"project = "hello""#);
    assert_eq!(fields, vec![invalid("project")]);
}

#[test]
fn missing_name() {
    let fields = parse_err(
        r#"
[project]
dependencies = ["requests"]
"#,
    );
    assert_eq!(fields, vec![invalid("project.name")]);
}

#[test]
fn name_wrong_type() {
    let fields = parse_err(
        r#"
[project]
name = 42
"#,
    );
    assert_eq!(fields, vec![invalid("project.name")]);
}

#[test]
fn name_not_a_valid_package_name() {
    let fields = parse_err(
        r#"
[project]
name = "not a valid name!"
"#,
    );
    assert_eq!(fields.len(), 1);
    assert_eq!(fields[0].path, "project.name");
    assert!(fields[0].description.is_some());
}

#[test]
fn name_empty() {
    let fields = parse_err(
        r#"
[project]
name = ""
"#,
    );
    assert_eq!(fields.len(), 1);
    assert_eq!(fields[0].path, "project.name");
}

#[test]
fn dynamic_dependencies() {
    let fields = parse_err(
        r#"
[project]
name = "myproj"
dynamic = ["dependencies"]
"#,
    );
    assert_eq!(fields, vec![invalid("project.dynamic")]);
}

#[test]
fn dynamic_optional_dependencies() {
    let fields = parse_err(
        r#"
[project]
name = "myproj"
dynamic = ["optional-dependencies"]
"#,
    );
    assert_eq!(fields, vec![invalid("project.dynamic")]);
}

#[test]
fn dynamic_dependencies_rejected_even_with_static_value() {
    // The spec allows static + dynamic simultaneously (backend
    // appends) -- we reject unconditionally, since we can't tell a
    // complete list from a prefix.
    let fields = parse_err(
        r#"
[project]
name = "myproj"
dependencies = ["requests"]
dynamic = ["dependencies"]
"#,
    );
    assert_eq!(fields, vec![invalid("project.dynamic")]);
}

#[test]
fn dynamic_wrong_type() {
    let fields = parse_err(
        r#"
[project]
name = "myproj"
dynamic = "dependencies"
"#,
    );
    assert_eq!(fields, vec![invalid("project.dynamic")]);
}

#[test]
fn dynamic_non_string_entry() {
    let fields = parse_err(
        r#"
[project]
name = "myproj"
dynamic = [42]
"#,
    );
    assert_eq!(fields, vec![invalid("project.dynamic")]);
}

#[test]
fn poetry_dependencies_without_project_dependencies() {
    // Legacy Poetry 1.x tell: `[tool.poetry.dependencies]` with no
    // `[project.dependencies]`. Must error even though a missing
    // `dependencies` key is otherwise fine.
    let fields = parse_err(
        r#"
[project]
name = "myproj"

[tool.poetry.dependencies]
python = "^3.9"
requests = "^2.0"
"#,
    );
    assert_eq!(fields, vec![invalid("tool.poetry.dependencies")]);
}

#[test]
fn toml_syntax_error() {
    let fields = parse_err("[project\nname = \"myproj\"");
    assert_eq!(fields.len(), 1);
    assert!(fields[0].path.is_empty());
    assert!(fields[0].description.is_some());
}

// -----------------------------------------------------------------------
// Wrong types in dependency lists
// -----------------------------------------------------------------------

#[test]
fn dependencies_not_an_array() {
    let fields = parse_err(
        r#"
[project]
name = "myproj"
dependencies = "requests"
"#,
    );
    assert_eq!(fields, vec![invalid("project.dependencies")]);
}

#[test]
fn dependencies_non_string_entry() {
    let fields = parse_err(
        r#"
[project]
name = "myproj"
dependencies = [42]
"#,
    );
    assert_eq!(fields, vec![invalid("project.dependencies[0]")]);
}

#[test]
fn dependencies_table_entry() {
    let fields = parse_err(
        r#"
[project]
name = "myproj"
dependencies = [{name = "requests"}]
"#,
    );
    assert_eq!(fields, vec![invalid("project.dependencies[0]")]);
}

#[test]
fn optional_dependencies_not_a_table() {
    let fields = parse_err(
        r#"
[project]
name = "myproj"
optional-dependencies = ["pytest"]
"#,
    );
    assert_eq!(fields, vec![invalid("project.optional-dependencies")]);
}

#[test]
fn extra_not_an_array() {
    let fields = parse_err(
        r#"
[project]
name = "myproj"

[project.optional-dependencies]
test = "pytest"
"#,
    );
    assert_eq!(fields, vec![invalid("project.optional-dependencies.test")]);
}

#[test]
fn extra_table_value() {
    let fields = parse_err(
        r#"
[project]
name = "myproj"

[project.optional-dependencies]
test = {x = 1}
"#,
    );
    assert_eq!(fields, vec![invalid("project.optional-dependencies.test")]);
}

#[test]
fn extra_non_string_entry() {
    let fields = parse_err(
        r#"
[project]
name = "myproj"

[project.optional-dependencies]
test = ["pytest", 42]
"#,
    );
    assert_eq!(
        fields,
        vec![invalid("project.optional-dependencies.test[1]")]
    );
}

#[test]
fn dependency_groups_not_a_table() {
    // `dependency-groups` is a top-level table (PEP 735), not nested
    // under `[project]` -- it must appear before the `[project]`
    // header (or after, via its own `[dependency-groups]` header) to
    // actually land at the document root.
    let fields = parse_err(
        r#"
dependency-groups = ["pytest"]

[project]
name = "myproj"
"#,
    );
    assert_eq!(fields, vec![invalid("dependency-groups")]);
}

#[test]
fn group_not_an_array() {
    let fields = parse_err(
        r#"
[project]
name = "myproj"

[dependency-groups]
dev = "pytest"
"#,
    );
    assert_eq!(fields, vec![invalid("dependency-groups.dev")]);
}

#[test]
fn group_table_value() {
    // A group is a *list* of specifiers; a bare `{include-group = ...}`
    // table as the group value itself is not legal.
    let fields = parse_err(
        r#"
[project]
name = "myproj"

[dependency-groups]
dev = {include-group = "base"}
"#,
    );
    assert_eq!(fields, vec![invalid("dependency-groups.dev")]);
}

#[test]
fn group_entry_int() {
    let fields = parse_err(
        r#"
[project]
name = "myproj"

[dependency-groups]
dev = [42]
"#,
    );
    assert_eq!(fields, vec![invalid("dependency-groups.dev[0]")]);
}

#[test]
fn group_entry_nested_array() {
    let fields = parse_err(
        r#"
[project]
name = "myproj"

[dependency-groups]
dev = [["pytest"]]
"#,
    );
    assert_eq!(fields, vec![invalid("dependency-groups.dev[0]")]);
}

#[test]
fn group_entry_include_group_wrong_type() {
    let fields = parse_err(
        r#"
[project]
name = "myproj"

[dependency-groups]
dev = [{include-group = 42}]
"#,
    );
    assert_eq!(fields, vec![invalid("dependency-groups.dev[0]")]);
}

#[test]
fn group_entry_table_with_extra_keys() {
    // PEP 735: tools SHOULD error on unrecognized data in dependency
    // groups rather than silently skip it.
    let fields = parse_err(
        r#"
[project]
name = "myproj"

[dependency-groups]
dev = [{include-group = "base", foo = 1}]
"#,
    );
    assert_eq!(fields, vec![invalid("dependency-groups.dev[0]")]);
}

#[test]
fn group_entry_table_with_wrong_key() {
    // `include_group` (underscore) is not the PEP 735 key.
    let fields = parse_err(
        r#"
[project]
name = "myproj"

[dependency-groups]
dev = [{include_group = "base"}]
"#,
    );
    assert_eq!(fields, vec![invalid("dependency-groups.dev[0]")]);
}

#[test]
fn group_entry_empty_table() {
    let fields = parse_err(
        r#"
[project]
name = "myproj"

[dependency-groups]
dev = [{}]
"#,
    );
    assert_eq!(fields, vec![invalid("dependency-groups.dev[0]")]);
}

// -----------------------------------------------------------------------
// Requirement parse errors
// -----------------------------------------------------------------------

#[test]
fn invalid_requirement_in_dependencies() {
    let fields = parse_err(
        r#"
[project]
name = "myproj"
dependencies = ["requests >< 1.0"]
"#,
    );
    assert_eq!(fields.len(), 1);
    assert_eq!(fields[0].path, "project.dependencies[0]");
    assert!(fields[0]
        .description
        .as_deref()
        .unwrap()
        .contains("requests >< 1.0"));
}

/// An extra name ending in a bare separator (`-`, `_`, or `.` with no
/// alphanumeric character after it) used to make `uv_pep508`'s
/// `Requirement::from_str` *panic* -- not return an `Err` -- under this
/// crate's old `uv-pep508` `0.9.7` pin: the extra-name scanner accepted
/// the trailing separator and then assumed `ExtraName` construction
/// from the scanned text could not fail. That's a real violation of
/// this module's contract that untrusted `pyproject.toml` content
/// should never panic, only report an `InvalidField`.
///
/// Fixed by the `uv-pep508` bump to `0.12.6`: uv#19779 validates the
/// extra name ends in an alphanumeric character before constructing
/// `ExtraName`, turning this into an ordinary parse error. Covers all
/// three separators (`-`, `_`, `.`), which shared the identical panic
/// path.
#[test]
fn invalid_requirement_extra_with_trailing_separator_no_longer_panics() {
    for (separator, dependency) in [
        ('-', "requests[bar-]"),
        ('_', "requests[bar_]"),
        ('.', "requests[bar.]"),
    ] {
        let fields = parse_err(&format!(
            r#"
[project]
name = "myproj"
dependencies = ["{dependency}"]
"#,
        ));
        assert_eq!(fields.len(), 1, "separator {separator:?}: {fields:?}");
        assert_eq!(fields[0].path, "project.dependencies[0]");
        assert!(
            fields[0]
                .description
                .as_deref()
                .unwrap()
                .contains("alphanumeric"),
            "separator {separator:?}: {fields:?}"
        );
    }
}

/// A reversed-operand compatible-release marker against a pure string
/// field (`"posix" ~= os_name`) used to make `Requirement::from_str`
/// panic the same way as
/// `invalid_requirement_extra_with_trailing_separator_no_longer_panics`
/// above -- a marker-algebra `unreachable!()` in `uv_pep508` `0.9.7`,
/// fixed by uv#19782 in the same bump to `0.12.6`. Unlike the
/// trailing-separator case, the fixed behavior is *not* a parse error:
/// the marker is silently treated as `MarkerTree::TRUE`, so the
/// document parses successfully with the marker simply absent.
#[test]
fn requirement_with_reversed_compatible_release_string_marker_no_longer_panics() {
    let p = parse_ok(
        r#"
[project]
name = "myproj"
dependencies = ["requests>=2.0.0; \"posix\" ~= os_name"]
"#,
    );
    assert_eq!(p.requirements.runtime.len(), 1);
    assert!(pep508(&p.requirements.runtime)[0].marker.form.always);
}

#[test]
fn invalid_requirement_in_extra() {
    let fields = parse_err(
        r#"
[project]
name = "myproj"

[project.optional-dependencies]
test = ["foo["]
"#,
    );
    assert_eq!(fields.len(), 1);
    assert_eq!(fields[0].path, "project.optional-dependencies.test[0]");
    assert!(fields[0].description.as_deref().unwrap().contains("foo["));
}

#[test]
fn invalid_requirement_in_group() {
    let fields = parse_err(
        r#"
[project]
name = "myproj"

[dependency-groups]
dev = ["== 1.0"]
"#,
    );
    assert_eq!(fields.len(), 1);
    assert_eq!(fields[0].path, "dependency-groups.dev[0]");
    assert!(fields[0].description.as_deref().unwrap().contains("== 1.0"));
}

#[test]
fn multiple_invalid_requirements_all_reported() {
    let fields = parse_err(
        r#"
[project]
name = "myproj"
dependencies = ["requests >< 1.0", "flask", "foo["]

[project.optional-dependencies]
test = ["== 1.0"]

[dependency-groups]
dev = ["pytest", "bar)"]
"#,
    );
    assert_eq!(
        paths(&fields),
        [
            "project.dependencies[0]",
            "project.dependencies[2]",
            "project.optional-dependencies.test[0]",
            "dependency-groups.dev[1]",
        ]
    );
    assert!(fields.iter().all(|f| f.description.is_some()));
}

// -----------------------------------------------------------------------
// Duplicate names after normalization
// -----------------------------------------------------------------------

#[test]
fn duplicate_group_names_after_normalization() {
    // PEP 735: duplicate group names after normalization are an error,
    // not "last one wins".
    let fields = parse_err(
        r#"
[project]
name = "myproj"

[dependency-groups]
dev-tools = ["ruff"]
dev_tools = ["mypy"]
DEV_TOOLS = ["pytest"]
"#,
    );
    assert_eq!(fields.len(), 1);
    assert_eq!(fields[0].path, "dependency-groups");
    assert!(fields[0]
        .description
        .as_deref()
        .unwrap()
        .contains("dev-tools"));
}

#[test]
fn duplicate_extra_names_after_normalization() {
    // PEP 621 doesn't mandate it, but silently merging/overwriting is
    // worse than erroring -- symmetric with the group rule.
    let fields = parse_err(
        r#"
[project]
name = "myproj"

[project.optional-dependencies]
GUI = ["tkinter"]
gui = ["pyqt"]
"#,
    );
    assert_eq!(fields.len(), 1);
    assert_eq!(fields[0].path, "project.optional-dependencies");
    assert!(fields[0].description.as_deref().unwrap().contains("gui"));
}

// -----------------------------------------------------------------------
// Resolution errors (cycles, missing references)
// -----------------------------------------------------------------------

#[test]
fn include_group_cycle() {
    let fields = parse_err(
        r#"
[project]
name = "myproj"

[dependency-groups]
a = [{include-group = "b"}]
b = [{include-group = "a"}]
"#,
    );
    assert_eq!(fields.len(), 1);
    assert_eq!(fields[0].path, "dependency-groups");
    assert!(fields[0]
        .description
        .as_deref()
        .unwrap()
        .contains("Cycles are not supported"));
}

#[test]
fn include_group_self_cycle() {
    let fields = parse_err(
        r#"
[project]
name = "myproj"

[dependency-groups]
dev = [{include-group = "dev"}]
"#,
    );
    assert_eq!(fields.len(), 1);
    assert_eq!(fields[0].path, "dependency-groups");
    assert!(fields[0]
        .description
        .as_deref()
        .unwrap()
        .contains("Cycles are not supported"));
}

#[test]
fn include_group_long_acyclic_chain_is_rejected_not_crashed() {
    // Regression test for a stack-overflow DoS: a long but fully
    // acyclic `include-group` chain (every name distinct, so the cycle
    // check never fires) used to recurse with no bound until the
    // process aborted. `resolution::MAX_RESOLUTION_DEPTH` now bounds
    // this; 200 links is well past any plausible legitimate nesting
    // without this test needing to know the exact limit.
    const CHAIN_LEN: usize = 200;
    let mut toml = String::from("[project]\nname = \"myproj\"\n\n[dependency-groups]\n");
    for i in 0..CHAIN_LEN {
        if i + 1 < CHAIN_LEN {
            toml += &format!("g{i} = [{{include-group = \"g{}\"}}]\n", i + 1);
        } else {
            toml += &format!("g{i} = [\"leaf\"]\n");
        }
    }
    let fields = parse_err(&toml);
    assert_eq!(fields.len(), 1);
    assert_eq!(fields[0].path, "dependency-groups");
    assert!(fields[0]
        .description
        .as_deref()
        .unwrap()
        .contains("maximum reference depth"));
}

#[test]
fn include_group_missing_target() {
    let fields = parse_err(
        r#"
[project]
name = "myproj"

[dependency-groups]
dev = [{include-group = "nonexistent"}]
"#,
    );
    assert_eq!(fields.len(), 1);
    assert_eq!(fields[0].path, "dependency-groups");
    assert!(fields[0]
        .description
        .as_deref()
        .unwrap()
        .contains("Failed to find dependency group `nonexistent`"));
}

#[test]
fn self_referential_extra_cycle() {
    let fields = parse_err(
        r#"
[project]
name = "myproj"

[project.optional-dependencies]
alpha = ["myproj[iota]"]
iota = ["myproj[alpha]"]
"#,
    );
    assert_eq!(fields.len(), 1);
    assert_eq!(fields[0].path, "project.optional-dependencies");
    assert!(fields[0]
        .description
        .as_deref()
        .unwrap()
        .contains("Cycles are not supported"));
}

#[test]
fn self_referential_extra_missing_target() {
    let fields = parse_err(
        r#"
[project]
name = "myproj"

[project.optional-dependencies]
all = ["myproj[nope]"]
"#,
    );
    assert_eq!(fields.len(), 1);
    assert_eq!(fields[0].path, "project.optional-dependencies");
    assert!(fields[0]
        .description
        .as_deref()
        .unwrap()
        .contains("Failed to find optional dependency `nope`"));
}

#[test]
fn group_referencing_missing_extra() {
    let fields = parse_err(
        r#"
[project]
name = "myproj"

[dependency-groups]
dev = ["myproj[nope]"]
"#,
    );
    assert_eq!(fields.len(), 1);
    assert_eq!(fields[0].path, "dependency-groups");
    assert!(fields[0]
        .description
        .as_deref()
        .unwrap()
        .contains("Failed to find optional dependency `nope`"));
}

#[test]
fn resolution_error_discarded_when_field_errors_exist() {
    // A bad requirement string means the group maps are partial;
    // running resolution on them could report misleading "not found"
    // errors, so only the field error comes back. This proves that
    // when resolution *would also fail* (the b<->c cycle here), that
    // failure never leaks into the output. It doesn't prove resolution
    // wasn't attempted at all -- see
    // `resolution_never_run_when_field_errors_exist_even_if_it_would_succeed`
    // below for that.
    let fields = parse_err(
        r#"
[project]
name = "myproj"

[dependency-groups]
a = ["foo >< 1.0"]
b = [{include-group = "c"}]
c = [{include-group = "b"}]
"#,
    );
    assert_eq!(fields.len(), 1);
    assert_eq!(fields[0].path, "dependency-groups.a[0]");
}

#[test]
fn resolution_never_run_when_field_errors_exist_even_if_it_would_succeed() {
    // Unlike the test above, `dev` here is entirely independent of `a`
    // and has no cycle or missing reference -- resolving it in
    // isolation would succeed outright. This pins down that resolution
    // is genuinely skipped (not just run and its successful result
    // discarded) when a field error already exists: no trace of `dev`
    // comes back alongside the one real problem (`a`'s bad requirement
    // string).
    let fields = parse_err(
        r#"
[project]
name = "myproj"

[dependency-groups]
a = ["foo >< 1.0"]
dev = ["pytest"]
"#,
    );
    assert_eq!(fields.len(), 1);
    assert_eq!(fields[0].path, "dependency-groups.a[0]");
}

// -----------------------------------------------------------------------
// Fail-fast across independent structural checks
// -----------------------------------------------------------------------

#[test]
fn first_structural_error_short_circuits_the_rest() {
    // `project.name` is checked first (phase order: name, dynamic,
    // legacy Poetry, dependencies, optional-dependencies,
    // dependency-groups). This document also has a duplicate extra
    // name and a dependency string that would fail to parse, but
    // neither is ever reached: `Pyproject::parse` returns on the first
    // structural problem found.
    let fields = parse_err(
        r#"
[project]
name = 42
dependencies = ["requests >< 1.0"]

[project.optional-dependencies]
GUI = ["tkinter"]
gui = ["pyqt"]
"#,
    );
    assert_eq!(fields, vec![invalid("project.name")]);
}

#[test]
fn structural_error_short_circuits_before_requirement_parsing() {
    // `project.name` is valid here, so the walk gets further than the
    // previous test -- but `optional-dependencies.test` being the
    // wrong shape is a structural problem found before `dependencies`
    // is ever handed to the PEP 508 parser. Asserting there's exactly
    // one field, and that it's the shape error, proves parsing was
    // skipped rather than merely "also correct" (if it ran,
    // `requests >< 1.0` would fail too).
    let fields = parse_err(
        r#"
[project]
name = "myproj"
dependencies = ["requests >< 1.0"]

[project.optional-dependencies]
test = "pytest"
"#,
    );
    assert_eq!(fields, vec![invalid("project.optional-dependencies.test")]);
}

// -----------------------------------------------------------------------
// Aggregation within the requirement-parsing tier
// -----------------------------------------------------------------------

#[test]
fn error_display_lists_every_field() {
    // Once every structural check has passed, multiple *requirement
    // string* parse failures across different sections do all get
    // collected into one `PyprojectError` -- this is the one place the
    // module aggregates rather than stopping at the first. See
    // `multiple_invalid_requirements_all_reported` for the same
    // property asserted on `.fields()` directly.
    let err = Pyproject::parse(
        r#"
[project]
name = "myproj"
dependencies = ["requests >< 1.0", "flask"]

[dependency-groups]
dev = ["== 1.0"]
"#,
    )
    .unwrap_err();
    let rendered = err.to_string();
    assert!(rendered.contains("project.dependencies[0] not valid"));
    assert!(rendered.contains("dependency-groups.dev[0] not valid"));
}

fn spec(text: &str) -> Dependency {
    Dependency::Matchspec(Box::new(parse_matchspec(text).unwrap()))
}

#[test]
fn matchspec_dependencies_follow_the_specifiers() {
    let p = parse_ok(
        r#"
[project]
name = "myproj"
dependencies = ["polars>=1.0", "httpx"]

[tool.ana]
matchspec-dependencies = ["compilers", "conda-forge::pyarrow"]
"#,
    );
    assert_eq!(
        p.requirements.runtime,
        vec![
            Dependency::Pep508(req("polars>=1.0")),
            Dependency::Pep508(req("httpx")),
            spec("compilers"),
            spec("conda-forge::pyarrow"),
        ]
    );
}

#[test]
fn matchspec_groups_are_merged_under_the_normalized_name() {
    let p = parse_ok(
        r#"
[project]
name = "myproj"

[dependency-groups]
dev_tools = ["ruff", {include-group = "conda"}]

[tool.ana.matchspec-dependency-groups]
Dev-Tools = ["mkl"]
conda = ["compilers", {include-group = "base"}]
base = ["python"]
"#,
    );
    assert_eq!(
        *p.requirements.groups.get("dev-tools").unwrap(),
        vec![
            Dependency::Pep508(req("ruff")),
            spec("compilers"),
            spec("python"),
            spec("mkl"),
        ]
    );
    assert_eq!(
        *p.requirements.groups.get("conda").unwrap(),
        vec![spec("compilers"), spec("python")]
    );
}

#[test]
fn invalid_matchspecs_are_reported_after_invalid_specifiers() {
    let fields = parse_err(
        r#"
[project]
name = "myproj"
dependencies = ["!!!"]

[dependency-groups]
dev = ["also !!! bad"]

[tool.ana]
matchspec-dependencies = ["ok", "!!!not valid!!!"]

[tool.ana.matchspec-dependency-groups]
dev = [{include-group = "x"}, "!!!not valid!!!"]
"#,
    );
    assert_eq!(
        paths(&fields),
        vec![
            "project.dependencies[0]",
            "dependency-groups.dev[0]",
            "tool.ana.matchspec-dependencies[1]",
            "tool.ana.matchspec-dependency-groups.dev[1]",
        ]
    );
}

#[test]
fn wrongly_shaped_matchspec_tables_are_rejected() {
    let path = |tail: &str| {
        let fields = parse_err(&format!("[project]\nname = 'p'\n{tail}"));
        assert_eq!(fields.len(), 1);
        fields[0].path.clone()
    };
    assert_eq!(
        path("[tool.ana]\nmatchspec-dependencies = 'x'"),
        "tool.ana.matchspec-dependencies"
    );
    assert_eq!(
        path("[tool.ana]\nmatchspec-dependency-groups = 'x'"),
        "tool.ana.matchspec-dependency-groups"
    );
    assert_eq!(
        path("[tool.ana.matchspec-dependency-groups]\ndev = 'x'"),
        "tool.ana.matchspec-dependency-groups.dev"
    );
    assert_eq!(
        path("[tool.ana.matchspec-dependency-groups]\ndev = ['x', 1]"),
        "tool.ana.matchspec-dependency-groups.dev[1]"
    );
    assert_eq!(
        path("[tool.ana.matchspec-dependency-groups]\ndev = []\nDEV = []"),
        "tool.ana.matchspec-dependency-groups"
    );
}

#[test]
fn the_whole_error_is_rendered() {
    let err = Pyproject::parse("[project]\nname = 1\n").unwrap_err();
    assert_eq!(
        err.to_string(),
        "invalid pyproject.toml:\n  project.name not valid\n"
    );
    let err = Pyproject::parse("[project]\nname = '-x'\n").unwrap_err();
    assert_eq!(
        err.to_string(),
        "invalid pyproject.toml:\n  project.name not valid: Not a valid package or extra name: \"-x\". Names must start and end with a letter or digit and may only contain -, _, ., and alphanumeric characters.\n"
    );
    assert!(Pyproject::parse("=").unwrap_err().to_string().starts_with(
        "invalid pyproject.toml:\n  document not valid: TOML parse error"
    ));
}

#[test]
fn a_specifier_of_wide_white_space_is_reported() {
    let fields = parse_err("[project]\nname = 'p'\ndependencies = ['\u{3000}']\n");
    assert_eq!(paths(&fields), vec!["project.dependencies[0]"]);
    assert_eq!(
        fields[0].description.as_deref(),
        Some("Empty field is not allowed for PEP508\n\u{3000}\n^")
    );
}

#[test]
fn channels_are_read_from_the_tool_table() {
    let p = parse_ok(
        r#"
[project]
name = "myproj"

[tool.ana]
conda-channels = ["conda-forge", "bioconda"]
"#,
    );
    assert_eq!(
        p.channels,
        Some(vec!["conda-forge".to_string(), "bioconda".to_string()])
    );
}

#[test]
fn a_project_without_channels_names_none() {
    assert_eq!(parse_ok("[project]\nname = \"myproj\"\n").channels, None);
}

#[test]
fn an_empty_list_of_channels_is_rejected() {
    assert_eq!(
        parse_err("[project]\nname = \"myproj\"\n\n[tool.ana]\nconda-channels = []\n"),
        vec![InvalidField {
            path: "tool.ana.conda-channels".to_string(),
            description: Some("must not be empty".to_string()),
        }]
    );
}

#[test]
fn channels_that_are_no_list_are_rejected() {
    assert_eq!(
        parse_err("[project]\nname = \"myproj\"\n\n[tool.ana]\nconda-channels = \"x\"\n"),
        vec![invalid("tool.ana.conda-channels")]
    );
}

#[test]
fn channels_are_checked_before_dependencies() {
    assert_eq!(
        parse_err("[project]\nname = \"myproj\"\ndependencies = 1\n\n[tool.ana]\nconda-channels = 1\n"),
        vec![invalid("tool.ana.conda-channels")]
    );
}
