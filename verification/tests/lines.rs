use ana::requirements_txt::lines::{logical_lines, strip_comment, LogicalLine};

/// Every `LogicalLine::Requirement` in `text`, as `(line, text)`
/// pairs -- for tests that don't care about `# ana-matchspec:`
/// directives. Panics if `text` produces any `LogicalLine::Matchspec`.
fn extract(text: &str) -> Vec<(usize, String)> {
    logical_lines(text)
        .into_iter()
        .map(|l| match l {
            LogicalLine::Requirement { line, text } => (line, text),
            other => panic!("unexpected directive: {other:?}"),
        })
        .collect()
}

#[test]
fn strip_comment_at_line_start() {
    assert_eq!(strip_comment("# a comment"), "");
}

#[test]
fn strip_comment_after_whitespace() {
    assert_eq!(strip_comment("foo==1.0 # trailing"), "foo==1.0 ");
}

#[test]
fn strip_comment_leaves_url_fragment_alone() {
    assert_eq!(
        strip_comment("foo @ https://example.com/x#frag"),
        "foo @ https://example.com/x#frag"
    );
}

#[test]
fn empty_and_whitespace_only_input_yields_nothing() {
    assert_eq!(extract(""), vec![]);
    assert_eq!(extract("\n\n   \n\t\n"), vec![]);
}

#[test]
fn simple_lines_are_independent() {
    assert_eq!(
        extract("foo==1.0\nbar>=2.0\n"),
        vec![(1, "foo==1.0".to_string()), (2, "bar>=2.0".to_string())]
    );
}

#[test]
fn blank_and_comment_only_lines_are_dropped_but_numbering_survives() {
    assert_eq!(
        extract("foo==1.0\n\n# just a comment\n\nbar>=2.0\n"),
        vec![(1, "foo==1.0".to_string()), (5, "bar>=2.0".to_string())]
    );
}

#[test]
fn trailing_comment_is_stripped_before_trim() {
    assert_eq!(
        extract("foo==1.0   # pinned for compat\n"),
        vec![(1, "foo==1.0".to_string())]
    );
}

#[test]
fn continuation_joins_without_inserting_a_separator() {
    assert_eq!(
        extract("foo==1.0 \\\n    --hash=sha256:abc\n"),
        vec![(1, "foo==1.0     --hash=sha256:abc".to_string())]
    );
}

#[test]
fn continuation_reports_the_starting_line_number() {
    assert_eq!(
        extract("bar>=1.0\nfoo==1.0 \\\n    --hash=sha256:abc\nbaz\n"),
        vec![
            (1, "bar>=1.0".to_string()),
            (2, "foo==1.0     --hash=sha256:abc".to_string()),
            (4, "baz".to_string()),
        ]
    );
}

#[test]
fn comment_after_a_continuation_backslash_does_not_defeat_it() {
    assert_eq!(
        extract("foo==1.0 \\ # explains the continuation\nbar>=1.0\n"),
        // The comment strip removes "# explains..." first, leaving a
        // trailing space then `\`; right-trimming before the
        // backslash check drops that trailing space, so this still
        // reads as a continuation and joins with the next line.
        vec![(1, "foo==1.0 bar>=1.0".to_string())]
    );
}

#[test]
fn trailing_backslash_at_end_of_file_is_dropped() {
    assert_eq!(extract("foo==1.0 \\"), vec![(1, "foo==1.0".to_string())]);
}

#[test]
fn multi_line_continuation_chain() {
    assert_eq!(
        extract("foo==1.0 \\\n    --hash=sha256:aaa \\\n    --hash=sha256:bbb\n"),
        vec![(
            1,
            "foo==1.0     --hash=sha256:aaa     --hash=sha256:bbb".to_string()
        )]
    );
}

fn all_lines(text: &str) -> Vec<LogicalLine> {
    logical_lines(text)
}

#[test]
fn recognized_on_its_own_line() {
    assert_eq!(
        all_lines("# ana-matchspec: numpy >=1.26\n"),
        vec![LogicalLine::Matchspec {
            line: 1,
            text: "numpy >=1.26".into()
        }]
    );
}

#[test]
fn tolerates_extra_whitespace_around_hash_and_colon() {
    assert_eq!(
        all_lines("   #   ana-matchspec:    mkl   \n"),
        vec![LogicalLine::Matchspec {
            line: 1,
            text: "mkl".into()
        }]
    );
}

#[test]
fn works_with_no_space_after_hash() {
    assert_eq!(
        all_lines("#ana-matchspec:compilers\n"),
        vec![LogicalLine::Matchspec {
            line: 1,
            text: "compilers".into()
        }]
    );
}

#[test]
fn empty_directive_text_is_preserved_as_empty_not_dropped() {
    // An empty `# ana-matchspec:` line is still reported as a
    // `Matchspec` logical line (with empty `text`) rather than
    // silently treated as a blank/comment line -- `document.rs`
    // is responsible for turning that into a proper error.
    assert_eq!(
        all_lines("# ana-matchspec:\n"),
        vec![LogicalLine::Matchspec {
            line: 1,
            text: "".into()
        }]
    );
}

#[test]
fn ordinary_comments_are_unaffected() {
    assert_eq!(all_lines("# just a comment\n"), vec![]);
    assert_eq!(all_lines("# ana-matchspec-like-but-not-quite\n"), vec![]);
}

#[test]
fn mixes_with_requirement_lines_in_file_order() {
    assert_eq!(
        all_lines("foo==1.0\n# ana-matchspec: mkl\nbar>=2.0\n"),
        vec![
            LogicalLine::Requirement {
                line: 1,
                text: "foo==1.0".into()
            },
            LogicalLine::Matchspec {
                line: 2,
                text: "mkl".into()
            },
            LogicalLine::Requirement {
                line: 3,
                text: "bar>=2.0".into()
            },
        ]
    );
}

#[test]
fn not_recognized_mid_continuation() {
    // A `\`-continued requirement line followed by a physical
    // line that looks like the directive is *not* special-cased
    // -- it's still mid-join, so it's treated as ordinary
    // (comment-stripped-to-nothing) continuation content, not a
    // separate directive.
    assert_eq!(
        all_lines("foo==1.0 \\\n# ana-matchspec: mkl\n"),
        vec![LogicalLine::Requirement {
            line: 1,
            text: "foo==1.0".into()
        }]
    );
}

#[test]
fn channels_directive_is_recognized_like_a_matchspec_one() {
    assert_eq!(
        logical_lines("foo\n  #ana-channels: conda-forge, bioconda \n"),
        vec![
            LogicalLine::Requirement {
                line: 1,
                text: "foo".into()
            },
            LogicalLine::Channels {
                line: 2,
                text: "conda-forge, bioconda".into()
            },
        ]
    );
}

#[test]
fn carriage_returns_before_newlines_are_not_part_of_a_line() {
    assert_eq!(
        extract("foo==1.0\r\nbar\r\n"),
        vec![(1, "foo==1.0".to_string()), (2, "bar".to_string())]
    );
}

#[test]
fn logical_lines_come_in_file_order() {
    let lines = extract("a \\\n b\n\nc\n# x\nd\n");
    let numbers: Vec<usize> = lines.iter().map(|(n, _)| *n).collect();
    assert_eq!(numbers, vec![1, 4, 6]);
}

#[test]
fn strip_comment_after_any_white_space() {
    assert_eq!(strip_comment("foo\t# c"), "foo\t");
    assert_eq!(strip_comment("foo\u{c}# c"), "foo\u{c}");
    assert_eq!(strip_comment("foo\u{a0}# c"), "foo\u{a0}");
    assert_eq!(strip_comment("foo\u{200b}# c"), "foo\u{200b}# c");
}

/// The lines with every number increased.
fn later(lines: Vec<LogicalLine>, by: usize) -> Vec<LogicalLine> {
    lines
        .into_iter()
        .map(|line| match line {
            LogicalLine::Requirement { line, text } => LogicalLine::Requirement { line: line + by, text },
            LogicalLine::Matchspec { line, text } => LogicalLine::Matchspec { line: line + by, text },
            LogicalLine::Channels { line, text } => LogicalLine::Channels { line: line + by, text },
        })
        .collect()
}

#[test]
fn the_lines_of_two_texts_follow_each_other() {
    let a = "numpy \\\n  >=1\r\n\n# ana-matchspec: scipy\n";
    let b = "pandas\n# ana-channels: conda-forge\nattrs \\\n";
    let mut expected = logical_lines(a);
    expected.extend(later(logical_lines(b), 4));
    assert_eq!(logical_lines(&format!("{a}{b}")), expected);
    assert_eq!(expected.len(), 5);
}
