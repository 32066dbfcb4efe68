use ana::dependency::{bare_name, Dependency};
use ana::pep723::parse;

#[test]
fn lib_no_block_is_none() {
    assert_eq!(parse("print('hi')\n").unwrap(), None);
}

#[test]
fn dependencies_and_requires_python() {
    let source = "\
# /// script
# requires-python = \">=3.11\"
# dependencies = [
#   \"requests<3\",
#   \"rich\",
# ]
# ///
print('hi')
";
    let script = parse(source).unwrap().unwrap();
    assert_eq!(script.dependencies.len(), 2);
    assert_eq!(
        bare_name(&script.dependencies[0]),
        Some("requests".to_string())
    );
    assert_eq!(
        bare_name(&script.dependencies[1]),
        Some("rich".to_string())
    );
    assert_eq!(script.requires_python.unwrap()[0].text, ">=3.11");
    assert_eq!(script.channels, None);
}

#[test]
fn missing_dependencies_defaults_to_empty() {
    let source = "\
# /// script
# requires-python = \">=3.12\"
# ///
";
    let script = parse(source).unwrap().unwrap();
    assert_eq!(script.dependencies, vec![]);
}

#[test]
fn ana_extension_channels_and_matchspec_dependencies() {
    let source = "\
# /// script
# dependencies = [\"requests\"]
#
# [tool.ana]
# conda-channels = [\"conda-forge\"]
# matchspec-dependencies = [\"numpy>=1.26\"]
# ///
";
    let script = parse(source).unwrap().unwrap();
    assert_eq!(script.channels, Some(vec!["conda-forge".to_string()]));
    // PEP 508 entries first, then matchspec entries -- same merge
    // order as `ana_pyproject`'s `[tool.ana]` extension.
    assert_eq!(script.dependencies.len(), 2);
    assert_eq!(
        bare_name(&script.dependencies[0]),
        Some("requests".to_string())
    );
    assert_eq!(
        bare_name(&script.dependencies[1]),
        Some("numpy".to_string())
    );
    assert!(matches!(script.dependencies[1], Dependency::Matchspec(_)));
}

#[test]
fn an_invalid_pep508_dependency_names_its_index() {
    let source = "\
# /// script
# dependencies = [\"requests\", \"!!!not valid!!!\"]
# ///
";
    let err = parse(source).unwrap_err();
    assert_eq!(err.fields().len(), 1);
    assert_eq!(err.fields()[0].path, "dependencies[1]");
}

#[test]
fn an_invalid_matchspec_dependency_names_its_index() {
    let source = "\
# /// script
# dependencies = []
#
# [tool.ana]
# matchspec-dependencies = [\"!!!not valid!!!\"]
# ///
";
    let err = parse(source).unwrap_err();
    assert_eq!(err.fields().len(), 1);
    assert_eq!(err.fields()[0].path, "tool.ana.matchspec-dependencies[0]");
}

#[test]
fn every_invalid_dependency_is_collected_not_just_the_first() {
    let source = "\
# /// script
# dependencies = [\"!!!bad!!!\", \"also !!! bad\"]
# ///
";
    let err = parse(source).unwrap_err();
    assert_eq!(err.fields().len(), 2);
}

#[test]
fn an_invalid_requires_python_is_an_error() {
    let source = "\
# /// script
# requires-python = \"not a specifier\"
# ///
";
    let err = parse(source).unwrap_err();
    assert_eq!(err.fields()[0].path, "requires-python");
}

#[test]
fn an_empty_conda_channels_array_is_rejected() {
    let source = "\
# /// script
# dependencies = []
#
# [tool.ana]
# conda-channels = []
# ///
";
    let err = parse(source).unwrap_err();
    assert_eq!(err.fields()[0].path, "tool.ana.conda-channels");
}

#[test]
fn a_non_array_dependencies_field_is_rejected() {
    let source = "\
# /// script
# dependencies = \"requests\"
# ///
";
    let err = parse(source).unwrap_err();
    assert_eq!(err.fields()[0].path, "dependencies");
}

#[test]
fn malformed_toml_is_an_error() {
    let source = "\
# /// script
# this = is not [ valid toml
# ///
";
    assert!(parse(source).is_err());
}

#[test]
fn multiple_script_blocks_is_an_error() {
    let source = "\
# /// script
# dependencies = []
# ///
# /// script
# dependencies = [\"requests\"]
# ///
";
    let err = parse(source).unwrap_err();
    assert_eq!(err.fields().len(), 1);
    assert_eq!(err.fields()[0].path, "");
}

#[test]
fn an_unrelated_block_type_does_not_count_as_script_metadata() {
    let source = "\
# /// pyproject
# [tool.foo]
# ///
print('hi')
";
    assert_eq!(parse(source).unwrap(), None);
}

#[test]
fn errors_are_rendered_with_their_place() {
    let err = parse("# /// script\n# dependencies = 1\n# ///\n").unwrap_err();
    assert_eq!(
        err.to_string(),
        "invalid PEP 723 script metadata:\n  dependencies not valid\n"
    );
    let two = "# /// script\n# x = 1\n# ///\n".repeat(2);
    assert_eq!(
        parse(&two).unwrap_err().to_string(),
        "invalid PEP 723 script metadata:\n  script metadata not valid: multiple `# /// script` metadata blocks found (PEP 723 permits at most one)\n"
    );
}

#[test]
fn malformed_toml_is_blamed_on_the_block() {
    let err = parse("# /// script\n# this = is not [ valid toml\n# ///\n").unwrap_err();
    assert_eq!(err.fields().len(), 1);
    assert_eq!(err.fields()[0].path, "");
    assert!(err.fields()[0].description.is_some());
}

#[test]
fn wrong_shapes_are_blamed_on_their_place() {
    let path = |body: &str| {
        let source = format!("# /// script\n{body}# ///\n");
        let err = parse(&source).unwrap_err();
        assert_eq!(err.fields().len(), 1);
        err.fields()[0].path.clone()
    };
    assert_eq!(path("# requires-python = 3\n"), "requires-python");
    assert_eq!(path("# dependencies = ['a', 1]\n"), "dependencies[1]");
    assert_eq!(
        path("# [tool.ana]\n# conda-channels = 'x'\n"),
        "tool.ana.conda-channels"
    );
    assert_eq!(
        path("# [tool.ana]\n# matchspec-dependencies = [1]\n"),
        "tool.ana.matchspec-dependencies[0]"
    );
    assert_eq!(
        path("# [tool.ana]\n# matchspec-dependencies = 1\n"),
        "tool.ana.matchspec-dependencies"
    );
}
