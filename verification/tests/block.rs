use ana::pep723::block::{extract_script_block, MultipleBlocks};

#[test]
fn block_no_block_is_none() {
    assert_eq!(extract_script_block("print('hi')\n").unwrap(), None);
}

#[test]
fn finds_a_simple_block() {
    let source = "\
# /// script
# dependencies = [\"requests\"]
# ///
print('hi')
";
    let content = extract_script_block(source).unwrap().unwrap();
    assert_eq!(content, "dependencies = [\"requests\"]\n");
}

#[test]
fn a_bare_hash_content_line_becomes_a_blank_line() {
    let source = "\
# /// script
# dependencies = []
#
# [tool.ana]
# ///
";
    let content = extract_script_block(source).unwrap().unwrap();
    assert_eq!(content, "dependencies = []\n\n[tool.ana]\n");
}

#[test]
fn a_non_script_block_type_is_skipped() {
    let source = "\
# /// pyproject
# [tool.foo]
# ///
# /// script
# dependencies = []
# ///
";
    let content = extract_script_block(source).unwrap().unwrap();
    assert_eq!(content, "dependencies = []\n");
}

#[test]
fn a_second_script_block_is_an_error() {
    let source = "\
# /// script
# dependencies = []
# ///
# /// script
# dependencies = [\"requests\"]
# ///
";
    assert_eq!(extract_script_block(source), Err(MultipleBlocks));
}

#[test]
fn an_unterminated_block_is_not_a_match() {
    let source = "\
# /// script
# dependencies = []
print('no close, falls through to plain code')
";
    assert_eq!(extract_script_block(source).unwrap(), None);
}

#[test]
fn an_unterminated_block_does_not_hide_a_real_one_later() {
    let source = "\
# /// script
# dependencies = []
print('this one never closes')
# /// script
# dependencies = [\"requests\"]
# ///
";
    let content = extract_script_block(source).unwrap().unwrap();
    assert_eq!(content, "dependencies = [\"requests\"]\n");
}

#[test]
fn an_empty_block_is_not_a_match() {
    // PEP 723's own regex requires at least one content line.
    let source = "\
# /// script
# ///
";
    assert_eq!(extract_script_block(source).unwrap(), None);
}

#[test]
fn a_header_with_invalid_type_characters_is_ignored() {
    assert_eq!(
        extract_script_block("# /// not a valid type!\n# x = 1\n# ///\n").unwrap(),
        None
    );
}

#[test]
fn the_closing_line_must_match_exactly() {
    let source = "\
# /// script
# dependencies = []
# /// (trailing text disqualifies this as a close)
";
    assert_eq!(extract_script_block(source).unwrap(), None);
}

#[test]
fn carriage_returns_do_not_hide_a_block() {
    let source = "# /// script\r\n# x = 1\r\n# ///\r\n";
    assert_eq!(
        extract_script_block(source),
        Ok(Some("x = 1\n".to_string()))
    );
}

#[test]
fn a_header_before_the_close_starts_no_block() {
    let source = "\
# /// script
# a = 1
# /// pyproject
# b = 2
# ///
";
    assert_eq!(extract_script_block(source).unwrap(), None);
}

#[test]
fn the_close_belongs_to_the_last_header() {
    let source = "\
# /// pyproject
# a = 1
# /// script
# b = 2
# ///
";
    assert_eq!(extract_script_block(source).unwrap().unwrap(), "b = 2\n");
}
