use ana::conda::DeclaredSpec;
use ana::dependency::{parse_matchspec, Dependency};
use ana::pep508::{parse_requirement, Requirement};
use ana::requirements_txt::document::{looks_like_url_or_path, unsupported_directive};
use ana::requirements_txt::{LineError, LineErrorKind, RequirementEntry, RequirementsTxt};

fn req(spec: &str) -> Requirement {
    parse_requirement(spec).unwrap()
}

fn matchspec(spec: &str) -> DeclaredSpec {
    parse_matchspec(spec).unwrap()
}

fn parse_ok(text: &str) -> RequirementsTxt {
    RequirementsTxt::parse(text).unwrap()
}

fn parse_err(text: &str) -> Vec<LineError> {
    RequirementsTxt::parse(text).unwrap_err().errors().to_vec()
}

/// A `Dependency::Pep508`-backed `RequirementEntry`, for comparing
/// against ordinary requirement lines.
fn entry(spec: &str, line: usize) -> RequirementEntry {
    RequirementEntry {
        dependency: Dependency::Pep508(req(spec)),
        line,
    }
}

/// A `Dependency::Matchspec`-backed `RequirementEntry`, for
/// comparing against `# ana-matchspec:` directive lines.
fn matchspec_entry(spec: &str, line: usize) -> RequirementEntry {
    RequirementEntry {
        dependency: Dependency::Matchspec(Box::new(matchspec(spec))),
        line,
    }
}


#[test]
fn empty_file() {
    assert_eq!(parse_ok(""), RequirementsTxt::default());
}

#[test]
fn only_comments_and_blank_lines() {
    assert_eq!(
        parse_ok("# leading comment\n\n   \n# trailing comment\n"),
        RequirementsTxt::default()
    );
}

#[test]
fn simple_requirements() {
    let parsed = parse_ok("foo==1.0\nbar>=2.0,<3.0\n");
    assert_eq!(
        parsed.requirements,
        vec![entry("foo==1.0", 1), entry("bar>=2.0,<3.0", 2)]
    );
}

#[test]
fn requirement_with_extras_and_marker() {
    let parsed = parse_ok("requests[socks]>=2.0.0; sys_platform == \"win32\"\n");
    assert_eq!(
        parsed.requirements,
        vec![entry(
            "requests[socks]>=2.0.0; sys_platform == \"win32\"",
            1
        )]
    );
}

#[test]
fn trailing_comment_and_blank_lines_between_requirements() {
    let parsed = parse_ok("foo==1.0  # pinned\n\nbar>=2.0\n");
    assert_eq!(
        parsed.requirements,
        vec![entry("foo==1.0", 1), entry("bar>=2.0", 3)]
    );
}

#[test]
fn unversioned_requirement() {
    let parsed = parse_ok("foo\n");
    assert_eq!(parsed.requirements, vec![entry("foo", 1)]);
}


#[test]
fn simple_matchspec_directive() {
    let parsed = parse_ok("# ana-matchspec: numpy >=1.26\n");
    assert_eq!(
        parsed.requirements,
        vec![matchspec_entry("numpy >=1.26", 1)]
    );
}

#[test]
fn unversioned_matchspec_directive() {
    let parsed = parse_ok("# ana-matchspec: mkl\n");
    assert_eq!(parsed.requirements, vec![matchspec_entry("mkl", 1)]);
}

#[test]
fn matchspec_and_pep508_lines_merge_in_file_order() {
    let parsed = parse_ok("ruff\n# ana-matchspec: compilers\nnumpy>=1.20\n");
    assert_eq!(
        parsed.requirements,
        vec![
            entry("ruff", 1),
            matchspec_entry("compilers", 2),
            entry("numpy>=1.20", 3),
        ]
    );
}

#[test]
fn matchspec_directive_with_extras() {
    let parsed = parse_ok("# ana-matchspec: numpy[build=*py311*]\n");
    assert_eq!(
        parsed.requirements,
        vec![matchspec_entry("numpy[build=*py311*]", 1)]
    );
}

#[test]
fn empty_matchspec_directive_is_an_error() {
    assert_eq!(
        parse_err("# ana-matchspec:\n"),
        vec![LineError {
            line: 1,
            kind: LineErrorKind::EmptyMatchspecDirective
        }]
    );
}

#[test]
fn whitespace_only_matchspec_directive_is_an_error() {
    assert_eq!(
        parse_err("# ana-matchspec:    \n"),
        vec![LineError {
            line: 1,
            kind: LineErrorKind::EmptyMatchspecDirective
        }]
    );
}

#[test]
fn invalid_matchspec_syntax_is_reported() {
    let errors = parse_err("# ana-matchspec: this is [ not valid\n");
    assert_eq!(errors.len(), 1);
    assert_eq!(errors[0].line, 1);
    match &errors[0].kind {
        LineErrorKind::InvalidMatchspec(_) => {}
        other => panic!("expected InvalidMatchspec, got {other:?}"),
    }
}

#[test]
fn explicit_channel_is_accepted() {
    let parsed = parse_ok("# ana-matchspec: conda-forge::numpy\n");
    let RequirementEntry {
        dependency: Dependency::Matchspec(spec),
        line,
    } = &parsed.requirements[0]
    else {
        panic!("expected a matchspec dependency");
    };
    assert_eq!(*line, 1);
    assert!(spec.channel.is_some());
}

#[test]
fn ordinary_comments_are_still_dropped_not_reported() {
    assert_eq!(
        parse_ok("# just a comment\nfoo\n").requirements,
        vec![entry("foo", 2)]
    );
}


#[test]
fn single_directive_parses_to_the_list() {
    let parsed = parse_ok("# ana-channels: conda-forge, bioconda\n");
    assert_eq!(
        parsed.channels,
        Some(vec!["conda-forge".to_string(), "bioconda".to_string()])
    );
}

#[test]
fn whitespace_around_entries_is_trimmed() {
    let parsed = parse_ok("#ana-channels:  conda-forge ,bioconda  \n");
    assert_eq!(
        parsed.channels,
        Some(vec!["conda-forge".to_string(), "bioconda".to_string()])
    );
}

#[test]
fn absent_file_has_no_channels() {
    let parsed = parse_ok("foo==1.0\n");
    assert_eq!(parsed.channels, None);
}

#[test]
fn empty_directive_is_an_error() {
    assert_eq!(
        parse_err("# ana-channels:\n"),
        vec![LineError {
            line: 1,
            kind: LineErrorKind::EmptyChannelsDirective
        }]
    );
}

#[test]
fn whitespace_only_directive_is_an_error() {
    assert_eq!(
        parse_err("# ana-channels:    \n"),
        vec![LineError {
            line: 1,
            kind: LineErrorKind::EmptyChannelsDirective
        }]
    );
}

#[test]
fn blank_entry_in_list_is_an_error() {
    assert_eq!(
        parse_err("# ana-channels: conda-forge, ,bioconda\n"),
        vec![LineError {
            line: 1,
            kind: LineErrorKind::EmptyChannelsDirective
        }]
    );
}

/// `entry.trim()` only strips ASCII/Unicode whitespace
/// (`char::is_whitespace()`) -- a zero-width space (Unicode
/// category Cf, not whitespace) is not whitespace and survives
/// verbatim, keeping the entry byte-distinct from the clean name
/// it visually resembles rather than silently colliding with it.
#[test]
fn zero_width_space_in_an_entry_is_preserved_verbatim_not_stripped() {
    let parsed = parse_ok("# ana-channels: conda-forge\u{200b}\n");
    let channels = parsed.channels.unwrap();
    assert_eq!(channels, vec!["conda-forge\u{200b}".to_string()]);
    assert_ne!(channels[0], "conda-forge");
}

#[test]
fn duplicate_directive_is_an_error() {
    let errors =
        parse_err("# ana-channels: conda-forge\nfoo==1.0\n# ana-channels: bioconda\n");
    assert_eq!(
        errors,
        vec![LineError {
            line: 3,
            kind: LineErrorKind::DuplicateChannelsDirective
        }]
    );
}

#[test]
fn third_occurrence_is_also_an_error() {
    let errors = parse_err("# ana-channels: a\n# ana-channels: b\n# ana-channels: c\n");
    assert_eq!(
        errors,
        vec![
            LineError {
                line: 2,
                kind: LineErrorKind::DuplicateChannelsDirective
            },
            LineError {
                line: 3,
                kind: LineErrorKind::DuplicateChannelsDirective
            },
        ]
    );
}

#[test]
fn directive_interleaved_with_ordinary_and_matchspec_lines_still_parses_those() {
    let parsed =
        parse_ok("# ana-channels: conda-forge\nfoo==1.0\n# ana-matchspec: mkl\nbar>=2.0\n");
    assert_eq!(parsed.channels, Some(vec!["conda-forge".to_string()]));
    assert_eq!(
        parsed.requirements,
        vec![
            entry("foo==1.0", 2),
            matchspec_entry("mkl", 3),
            entry("bar>=2.0", 4)
        ]
    );
}

#[test]
fn directive_does_not_become_a_requirement_entry() {
    let parsed = parse_ok("# ana-channels: conda-forge\n");
    assert_eq!(parsed.requirements, vec![]);
}


#[test]
fn recursive_requirements_file_is_rejected() {
    assert_eq!(
        parse_err("-r other.txt\n"),
        vec![LineError {
            line: 1,
            kind: LineErrorKind::UnsupportedDirective("-r".to_string())
        }]
    );
}

#[test]
fn long_form_requirement_flag_is_rejected() {
    assert_eq!(
        parse_err("--requirement other.txt\n"),
        vec![LineError {
            line: 1,
            kind: LineErrorKind::UnsupportedDirective("--requirement".to_string())
        }]
    );
}

#[test]
fn constraints_file_is_rejected() {
    assert_eq!(
        parse_err("-c constraints.txt\n"),
        vec![LineError {
            line: 1,
            kind: LineErrorKind::UnsupportedDirective("-c".to_string())
        }]
    );
}

#[test]
fn editable_is_rejected() {
    assert_eq!(
        parse_err("-e .\n"),
        vec![LineError {
            line: 1,
            kind: LineErrorKind::UnsupportedDirective("-e".to_string())
        }]
    );
}

#[test]
fn editable_long_form_is_rejected() {
    assert_eq!(
        parse_err("--editable ./local-pkg\n"),
        vec![LineError {
            line: 1,
            kind: LineErrorKind::UnsupportedDirective("--editable".to_string())
        }]
    );
}

#[test]
fn index_url_option_is_rejected() {
    assert_eq!(
        parse_err("--index-url https://example.com/simple\n"),
        vec![LineError {
            line: 1,
            kind: LineErrorKind::UnsupportedDirective("--index-url".to_string())
        }]
    );
}

#[test]
fn inline_hash_is_rejected() {
    assert_eq!(
        parse_err("foo==1.0 --hash=sha256:abc\n"),
        vec![LineError {
            line: 1,
            kind: LineErrorKind::UnsupportedDirective("--hash".to_string())
        }]
    );
}

#[test]
fn continuation_joined_hash_is_rejected() {
    assert_eq!(
        parse_err("foo==1.0 \\\n    --hash=sha256:abc\n"),
        vec![LineError {
            line: 1,
            kind: LineErrorKind::UnsupportedDirective("--hash".to_string())
        }]
    );
}

#[test]
fn bare_hash_token_without_equals_is_rejected() {
    assert_eq!(
        parse_err("foo==1.0 --hash sha256:abc\n"),
        vec![LineError {
            line: 1,
            kind: LineErrorKind::UnsupportedDirective("--hash".to_string())
        }]
    );
}


#[test]
fn name_at_https_url_is_rejected() {
    assert_eq!(
        parse_err("foo @ https://example.com/foo-1.0.whl\n"),
        vec![LineError {
            line: 1,
            kind: LineErrorKind::DirectUrlOrPath
        }]
    );
}

#[test]
fn name_at_git_url_is_rejected() {
    assert_eq!(
        parse_err("foo @ git+https://example.com/foo.git\n"),
        vec![LineError {
            line: 1,
            kind: LineErrorKind::DirectUrlOrPath
        }]
    );
}

#[test]
fn bare_https_url_is_rejected() {
    assert_eq!(
        parse_err("https://example.com/foo-1.0-py3-none-any.whl\n"),
        vec![LineError {
            line: 1,
            kind: LineErrorKind::DirectUrlOrPath
        }]
    );
}

#[test]
fn bare_git_vcs_ref_is_rejected() {
    assert_eq!(
        parse_err("git+https://example.com/foo.git\n"),
        vec![LineError {
            line: 1,
            kind: LineErrorKind::DirectUrlOrPath
        }]
    );
}

#[test]
fn relative_local_path_is_rejected() {
    assert_eq!(
        parse_err("./local-package\n"),
        vec![LineError {
            line: 1,
            kind: LineErrorKind::DirectUrlOrPath
        }]
    );
}

#[test]
fn absolute_local_path_is_rejected() {
    assert_eq!(
        parse_err("/opt/packages/local-package\n"),
        vec![LineError {
            line: 1,
            kind: LineErrorKind::DirectUrlOrPath
        }]
    );
}


#[test]
fn invalid_pep508_syntax_reports_the_underlying_message() {
    let errors = parse_err("not a valid==requirement==string\n");
    assert_eq!(errors.len(), 1);
    assert_eq!(errors[0].line, 1);
    match &errors[0].kind {
        LineErrorKind::InvalidRequirement(_) => {}
        other => panic!("expected InvalidRequirement, got {other:?}"),
    }
}

#[test]
fn every_bad_line_is_collected_not_just_the_first() {
    let errors = parse_err("-r other.txt\nfoo==1.0\n-c constraints.txt\n");
    assert_eq!(
        errors,
        vec![
            LineError {
                line: 1,
                kind: LineErrorKind::UnsupportedDirective("-r".to_string())
            },
            LineError {
                line: 3,
                kind: LineErrorKind::UnsupportedDirective("-c".to_string())
            },
        ]
    );
}

#[test]
fn every_bad_line_is_collected_across_both_dependency_kinds() {
    let errors = parse_err("-r other.txt\n# ana-matchspec:\nfoo==1.0\n");
    assert_eq!(
        errors,
        vec![
            LineError {
                line: 1,
                kind: LineErrorKind::UnsupportedDirective("-r".to_string())
            },
            LineError {
                line: 2,
                kind: LineErrorKind::EmptyMatchspecDirective
            },
        ]
    );
}

#[test]
fn valid_lines_around_a_bad_one_still_parse() {
    // A rejected line shouldn't stop its neighbors from parsing --
    // only `RequirementsTxtError` (not `RequirementsTxt`) is
    // returned when there's at least one bad line, but that
    // error should carry exactly the one problem, not incidental
    // fallout from lines that were actually fine.
    let errors = parse_err("foo==1.0\n-e .\nbar==2.0\n");
    assert_eq!(
        errors,
        vec![LineError {
            line: 2,
            kind: LineErrorKind::UnsupportedDirective("-e".to_string())
        }]
    );
}


#[test]
fn line_error_display_includes_line_number() {
    let err = LineError {
        line: 5,
        kind: LineErrorKind::UnsupportedDirective("-r".to_string()),
    };
    assert_eq!(err.to_string(), "line 5: `-r` is not supported");
}

#[test]
fn requirements_txt_error_display_lists_every_line() {
    let err = RequirementsTxt::parse("-r a.txt\n-c b.txt\n").unwrap_err();
    let rendered = err.to_string();
    assert!(rendered.contains("line 1:"));
    assert!(rendered.contains("line 2:"));
}

#[test]
fn every_kind_of_error_is_rendered() {
    let rendered = |kind: LineErrorKind| kind.to_string();
    assert_eq!(
        rendered(LineErrorKind::InvalidRequirement("x".to_string())),
        "invalid PEP 508 requirement: x"
    );
    assert_eq!(
        rendered(LineErrorKind::DirectUrlOrPath),
        "direct URL/VCS/local-path requirements are not supported (no matchspec equivalent)"
    );
    assert_eq!(
        rendered(LineErrorKind::EmptyMatchspecDirective),
        "`# ana-matchspec:` directive has no matchspec text"
    );
    assert_eq!(
        rendered(LineErrorKind::InvalidMatchspec("x".to_string())),
        "invalid conda matchspec: x"
    );
    assert_eq!(
        rendered(LineErrorKind::EmptyChannelsDirective),
        "`# ana-channels:` directive has no channels, or contains a blank entry"
    );
    assert_eq!(
        rendered(LineErrorKind::DuplicateChannelsDirective),
        "`# ana-channels:` directive may appear at most once per file"
    );
}

#[test]
fn whole_error_is_rendered() {
    let err = RequirementsTxt::parse("-r a.txt\n\n-c b.txt\n").unwrap_err();
    assert_eq!(
        err.to_string(),
        "invalid requirements.txt:\n  line 1: `-r` is not supported\n  line 3: `-c` is not supported\n"
    );
}

#[test]
fn errors_come_in_file_order_whatever_found_them() {
    let errors = parse_err("# ana-channels:\n-r a\n# ana-channels: x\n-c b\n");
    let lines: Vec<usize> = errors.iter().map(|error| error.line).collect();
    assert_eq!(lines, vec![1, 2, 3, 4]);
}

#[test]
fn words_that_look_like_urls_or_paths() {
    for text in [
        "GIT+ssh://x", "hg+x", "svn+x y", "bzr+x", "a://b", "./x", "../x", "/x", "~/x",
    ] {
        assert!(looks_like_url_or_path(text), "{text}");
    }
    for text in ["", "  ", "foo ./x", ".x", "git"] {
        assert!(!looks_like_url_or_path(text), "{text}");
    }
}

#[test]
fn options_are_named_by_their_first_word() {
    assert_eq!(unsupported_directive("foo"), None);
    assert_eq!(unsupported_directive("-"), Some("-".to_string()));
    assert_eq!(
        unsupported_directive("--x --hash=1"),
        Some("--hash".to_string())
    );
}

#[test]
fn a_matchspec_keeps_its_canonical_spelling_and_name() {
    let spec = matchspec("NumPy   >=1.26");
    assert_eq!(spec.text, "NumPy   >=1.26");
    assert_eq!(spec.canonical, "numpy >=1.26");
    assert_eq!(spec.name.as_deref(), Some("numpy"));
    assert_eq!(spec.channel, None);
    assert_eq!(
        matchspec("conda-forge::numpy").channel.as_deref(),
        Some("https://conda.anaconda.org/conda-forge/")
    );
}

#[test]
fn a_matchspec_may_name_its_channel_by_url() {
    let spec = matchspec("https://example.com/stable::numpy >=1.26");
    assert_eq!(
        spec.channel.as_deref(),
        Some("https://example.com/stable/")
    );
    assert_eq!(spec.name.as_deref(), Some("numpy"));
}

#[test]
fn every_line_is_accepted_or_rejected() {
    let text = "numpy\n# ana-channels: conda-forge\n# ana-channels: bioconda\n-e .\nscipy\n";
    let errors = RequirementsTxt::parse(text).unwrap_err().errors().to_vec();
    assert_eq!(errors.iter().map(|e| e.line).collect::<Vec<_>>(), vec![3, 4]);
    let parsed = parse_ok("numpy\n# ana-channels: conda-forge\nscipy\n");
    assert_eq!(parsed.requirements.len(), 2);
    assert_eq!(parsed.channels, Some(vec!["conda-forge".to_string()]));
}

#[test]
fn a_channel_url_in_front_of_a_bracket_section_is_read() {
    let spec = parse_matchspec("https://example.com/c::numpy[build=x]").unwrap();
    assert_eq!(spec.name.as_deref(), Some("numpy"));
    assert_eq!(spec.channel.as_deref(), Some("https://example.com/c/"));
    let spec = parse_matchspec("conda-forge/linux-64::numpy[version='>=1']").unwrap();
    assert_eq!(spec.channel.as_deref(), Some("https://conda.anaconda.org/conda-forge/"));
}
