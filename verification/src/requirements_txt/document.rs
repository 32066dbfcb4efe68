//! Reads the dependencies of a `requirements.txt`.
//!
//! Every line is independent of every other, so every invalid line is
//! reported, not just the first. A channels directive speaks of the whole
//! file: only its first occurrence is read, and each further one is an
//! error.

use crate::conda::{conda_matchspec, is_fixed_spec, read_matchspec, DeclaredSpec, DeclaredSpecView};
use crate::data::Duplicate;
use crate::dependency::{Dependency, DependencyView};
use crate::pep440::outcome;
use crate::pep508::{
    may_be_read, parse_requirement, Requirement, RequirementView, SourceView, VersionOrUrl,
};
use crate::requirements_txt::lines::{
    in_file_order, line_number, line_views, logical_lines, logical_lines_in_file_order,
    logical_views, LineView, LogicalLine,
};
use crate::text::{
    begins, char_rows, chars_of, concat, concat3, contains, decimal, decimal_of, has, has_at,
    lower_all, lower_char, same_chars, split, split_chars, string_of,
    trim, trim_chars, words, words_of,
};
use vstd::prelude::*;
use vstd::string::*;

verus! {

/// Why one line was rejected.
#[derive(Debug, Clone, PartialEq, Eq)]
pub enum LineErrorKind {
    /// Not a valid dependency specifier, and why.
    InvalidRequirement(String),
    /// A direct URL, a version control reference or a local path.
    DirectUrlOrPath,
    /// An option that is not supported.
    UnsupportedDirective(String),
    /// A matchspec directive without a matchspec.
    EmptyMatchspecDirective,
    /// Not a valid matchspec, and why.
    InvalidMatchspec(String),
    /// A channels directive without channels, or with a blank one.
    EmptyChannelsDirective,
    /// A channels directive that is not the first.
    DuplicateChannelsDirective,
}

/// Why one line was rejected, as mathematical values.
pub enum FaultView {
    InvalidRequirement(Seq<char>),
    DirectUrlOrPath,
    UnsupportedDirective(Seq<char>),
    EmptyMatchspecDirective,
    InvalidMatchspec(Seq<char>),
    EmptyChannelsDirective,
    DuplicateChannelsDirective,
}

impl DeepView for LineErrorKind {
    type V = FaultView;

    open spec fn deep_view(&self) -> FaultView {
        match self {
            LineErrorKind::InvalidRequirement(message) => FaultView::InvalidRequirement(message@),
            LineErrorKind::DirectUrlOrPath => FaultView::DirectUrlOrPath,
            LineErrorKind::UnsupportedDirective(token) => FaultView::UnsupportedDirective(token@),
            LineErrorKind::EmptyMatchspecDirective => FaultView::EmptyMatchspecDirective,
            LineErrorKind::InvalidMatchspec(message) => FaultView::InvalidMatchspec(message@),
            LineErrorKind::EmptyChannelsDirective => FaultView::EmptyChannelsDirective,
            LineErrorKind::DuplicateChannelsDirective => FaultView::DuplicateChannelsDirective,
        }
    }
}

/// How the reason for a rejection is shown.
pub open spec fn fault_text(f: FaultView) -> Seq<char> {
    match f {
        FaultView::InvalidRequirement(message) => "invalid PEP 508 requirement: "@ + message,
        FaultView::DirectUrlOrPath =>
            "direct URL/VCS/local-path requirements are not supported (no matchspec equivalent)"@,
        FaultView::UnsupportedDirective(token) => "`"@ + token + "` is not supported"@,
        FaultView::EmptyMatchspecDirective =>
            "`# ana-matchspec:` directive has no matchspec text"@,
        FaultView::InvalidMatchspec(message) => "invalid conda matchspec: "@ + message,
        FaultView::EmptyChannelsDirective =>
            "`# ana-channels:` directive has no channels, or contains a blank entry"@,
        FaultView::DuplicateChannelsDirective =>
            "`# ana-channels:` directive may appear at most once per file"@,
    }
}

impl LineErrorKind {
    /// How the reason is shown.
    pub fn to_string(&self) -> (r: String)
        ensures
            r@ == fault_text(self.deep_view()),
    {
        match self {
            LineErrorKind::InvalidRequirement(message) => concat(
                "invalid PEP 508 requirement: ",
                message.as_str(),
            ),
            LineErrorKind::DirectUrlOrPath =>
                "direct URL/VCS/local-path requirements are not supported (no matchspec equivalent)".to_owned(),
            LineErrorKind::UnsupportedDirective(token) => concat3(
                "`",
                token.as_str(),
                "` is not supported",
            ),
            LineErrorKind::EmptyMatchspecDirective =>
                "`# ana-matchspec:` directive has no matchspec text".to_owned(),
            LineErrorKind::InvalidMatchspec(message) => concat(
                "invalid conda matchspec: ",
                message.as_str(),
            ),
            LineErrorKind::EmptyChannelsDirective =>
                "`# ana-channels:` directive has no channels, or contains a blank entry".to_owned(),
            LineErrorKind::DuplicateChannelsDirective =>
                "`# ana-channels:` directive may appear at most once per file".to_owned(),
        }
    }
}

/// A rejected line: the physical line it starts on, and why.
#[derive(Debug, Clone, PartialEq, Eq)]
pub struct LineError {
    pub line: usize,
    pub kind: LineErrorKind,
}

/// A rejected line as mathematical values.
pub struct LineErrorView {
    pub line: int,
    pub kind: FaultView,
}

impl DeepView for LineError {
    type V = LineErrorView;

    open spec fn deep_view(&self) -> LineErrorView {
        LineErrorView { line: self.line as int, kind: self.kind.deep_view() }
    }
}

/// How a rejected line is shown.
pub open spec fn line_error_text(e: LineErrorView) -> Seq<char> {
    "line "@ + decimal(e.line as nat) + ": "@ + fault_text(e.kind)
}

impl LineError {
    /// How the error is shown.
    pub fn to_string(&self) -> (r: String)
        ensures
            r@ == line_error_text(self.deep_view()),
    {
        let number = decimal_of(self.line as u128);
        let head = concat3("line ", number.as_str(), ": ");
        let reason = self.kind.to_string();
        concat(head.as_str(), reason.as_str())
    }
}

/// Every rejected line of one `requirements.txt`; at least one.
#[derive(Debug)]
pub struct RequirementsTxtError {
    errors: Vec<LineError>,
}

/// The lines of an error as they are shown, each on its own line.
pub open spec fn errors_text(errors: Seq<LineErrorView>) -> Seq<char>
    decreases errors.len(),
{
    if errors.len() == 0 {
        "invalid requirements.txt:\n"@
    } else {
        errors_text(errors.drop_last()) + "  "@ + line_error_text(errors.last()) + "\n"@
    }
}

impl RequirementsTxtError {
    /// The rejected lines.
    pub closed spec fn view_errors(&self) -> Seq<LineErrorView> {
        self.errors.deep_view()
    }

    fn new(errors: Vec<LineError>) -> (r: RequirementsTxtError)
        ensures
            r.view_errors() == errors.deep_view(),
    {
        RequirementsTxtError { errors }
    }

    /// The rejected lines, in file order.
    pub fn errors(&self) -> (r: &Vec<LineError>)
        ensures
            r.deep_view() == self.view_errors(),
    {
        &self.errors
    }

    /// How the error is shown.
    pub fn to_string(&self) -> (r: String)
        ensures
            r@ == errors_text(self.view_errors()),
    {
        let ghost all = self.errors.deep_view();
        let mut out = "invalid requirements.txt:\n".to_owned();
        let mut i: usize = 0;
        while i < self.errors.len()
            invariant
                i <= self.errors.len(),
                all == self.errors.deep_view(),
                out@ == errors_text(all.take(i as int)),
            decreases self.errors.len() - i,
        {
            assert(all.take(i + 1).drop_last() =~= all.take(i as int));
            assert(all.take(i + 1).last() == self.errors@[i as int].deep_view());
            let one = self.errors[i].to_string();
            out.append("  ");
            out.append(one.as_str());
            out.append("\n");
            i += 1;
        }
        assert(all.take(i as int) =~= all);
        out
    }
}

/// An accepted line: its dependency, and the physical line it starts on.
#[derive(Debug, Clone, PartialEq, Eq)]
pub struct RequirementEntry {
    pub dependency: Dependency,
    pub line: usize,
}

/// An accepted line as mathematical values.
pub struct EntryView {
    pub dependency: DependencyView,
    pub line: int,
}

impl DeepView for RequirementEntry {
    type V = EntryView;

    open spec fn deep_view(&self) -> EntryView {
        EntryView { dependency: self.dependency.deep_view(), line: self.line as int }
    }
}

/// The dependencies of a `requirements.txt`, in file order, and the
/// channels that it asks for, if it does.
#[derive(Debug, Clone, PartialEq, Eq)]
pub struct RequirementsTxt {
    pub requirements: Vec<RequirementEntry>,
    pub channels: Option<Vec<String>>,
}

/// A `requirements.txt` as mathematical values.
pub struct DocumentView {
    pub requirements: Seq<EntryView>,
    pub channels: Option<Seq<Seq<char>>>,
}

impl DeepView for RequirementsTxt {
    type V = DocumentView;

    open spec fn deep_view(&self) -> DocumentView {
        DocumentView {
            requirements: self.requirements.deep_view(),
            channels: self.channels.deep_view(),
        }
    }
}

impl Default for RequirementsTxt {
    fn default() -> (r: Self)
        ensures
            r.deep_view() == (DocumentView { requirements: Seq::empty(), channels: None }),
    {
        let requirements: Vec<RequirementEntry> = Vec::new();
        assert(requirements.deep_view() =~= Seq::empty());
        RequirementsTxt { requirements, channels: None }
    }
}

/// Whether a word is a hash option.
pub open spec fn is_hash_option(word: Seq<char>) -> bool {
    word == "--hash"@ || begins(word, "--hash="@)
}

/// Whether some word of a line is a hash option.
pub open spec fn has_hash_option(all: Seq<Seq<char>>) -> bool {
    exists|i: int| 0 <= i < all.len() && is_hash_option(#[trigger] all[i])
}

/// The option that a line uses, if it uses one: a hash option anywhere, or
/// the first word of a line that starts with a hyphen.
pub open spec fn option_of(text: Seq<char>) -> Option<Seq<char>> {
    let all = words(text);
    if has_hash_option(all) {
        Some("--hash"@)
    } else if text.len() > 0 && text[0] == '-' {
        if all.len() > 0 {
            Some(all[0])
        } else {
            Some(text)
        }
    } else {
        None
    }
}

/// If a line uses an option that is not supported, the token that names it.
pub fn unsupported_directive(text: &str) -> (r: Option<String>)
    ensures
        r.deep_view() == option_of(text@),
{
    let cs = chars_of(text);
    let all = words_of(&cs);
    let ghost rows = char_rows(all@);
    let mut i: usize = 0;
    let hash = chars_of("--hash");
    while i < all.len()
        invariant
            i <= all.len(),
            rows == char_rows(all@),
            rows == words(text@),
            hash@ == "--hash"@,
            forall|k: int| 0 <= k < i ==> !is_hash_option(#[trigger] rows[k]),
        decreases all.len() - i,
    {
        assert(rows[i as int] == all@[i as int]@);
        if same_chars(&all[i], &hash) || has_at(&all[i], 0, "--hash=") {
            assert(is_hash_option(rows[i as int]));
            return Some("--hash".to_owned());
        }
        i += 1;
    }
    if cs.len() > 0 && cs[0] == '-' {
        if all.len() > 0 {
            assert(rows[0] == all@[0]@);
            Some(string_of(&all[0]))
        } else {
            Some(text.to_owned())
        }
    } else {
        None
    }
}

/// Whether a word looks like a URL, a version control reference or a path.
pub open spec fn is_url_or_path(word: Seq<char>) -> bool {
    let small = lower_all(word);
    ||| begins(small, "git+"@)
    ||| begins(small, "hg+"@)
    ||| begins(small, "svn+"@)
    ||| begins(small, "bzr+"@)
    ||| contains(word, "://"@)
    ||| begins(word, "./"@)
    ||| begins(word, "../"@)
    ||| begins(word, "/"@)
    ||| begins(word, "~"@)
}

/// Whether the first word of a line looks like a URL, a version control
/// reference or a path.
pub open spec fn starts_with_url_or_path(text: Seq<char>) -> bool {
    words(text).len() > 0 && is_url_or_path(words(text)[0])
}

/// Whether the first word of a line looks like a URL, a version control
/// reference or a path.
pub fn looks_like_url_or_path(text: &str) -> (r: bool)
    ensures
        r == starts_with_url_or_path(text@),
{
    let cs = chars_of(text);
    let all = words_of(&cs);
    if all.len() == 0 {
        assert(words(text@).len() == 0) by {
            assert(char_rows(all@).len() == 0);
        }
        return false;
    }
    assert(char_rows(all@)[0] == all@[0]@);
    let word = &all[0];
    let mut small: Vec<char> = Vec::new();
    let mut i: usize = 0;
    while i < word.len()
        invariant
            i <= word.len(),
            small@ == lower_all(word@.take(i as int)),
        decreases word.len() - i,
    {
        small.push(lower_char(word[i]));
        i += 1;
        assert(small@ =~= lower_all(word@.take(i as int)));
    }
    assert(word@.take(i as int) =~= word@);
    has_at(&small, 0, "git+") || has_at(&small, 0, "hg+") || has_at(&small, 0, "svn+") || has_at(
        &small,
        0,
        "bzr+",
    ) || has(word, "://") || has_at(word, 0, "./") || has_at(word, 0, "../") || has_at(
        word,
        0,
        "/",
    ) || has_at(word, 0, "~")
}

/// What a requirement line is, given what reading it gave.
pub open spec fn requirement_line(
    text: Seq<char>,
    read: Result<RequirementView, Seq<char>>,
) -> Result<DependencyView, FaultView> {
    match option_of(text) {
        Some(token) => Err(FaultView::UnsupportedDirective(token)),
        None => match read {
            Ok(requirement) => match requirement.version_or_url {
                Some(SourceView::Url(_)) => Err(FaultView::DirectUrlOrPath),
                _ => Ok(DependencyView::Pep508(requirement)),
            },
            Err(message) => if starts_with_url_or_path(text) {
                Err(FaultView::DirectUrlOrPath)
            } else {
                Err(FaultView::InvalidRequirement(message))
            },
        },
    }
}

/// The view of the outcome of one line.
pub open spec fn line_outcome(r: Result<Dependency, LineErrorKind>) -> Result<
    DependencyView,
    FaultView,
> {
    match r {
        Ok(dependency) => Ok(dependency.deep_view()),
        Err(kind) => Err(kind.deep_view()),
    }
}

/// Decides on a requirement line, given what reading it gave.
pub fn accept_requirement(text: &str, read: Result<Requirement, String>) -> (r: Result<
    Dependency,
    LineErrorKind,
>)
    ensures
        line_outcome(r) == requirement_line(text@, outcome(read)),
{
    if let Some(token) = unsupported_directive(text) {
        return Err(LineErrorKind::UnsupportedDirective(token));
    }
    match read {
        Ok(requirement) => {
            let is_url = match &requirement.version_or_url {
                Some(VersionOrUrl::Url(_)) => true,
                _ => false,
            };
            if is_url {
                Err(LineErrorKind::DirectUrlOrPath)
            } else {
                Ok(Dependency::Pep508(requirement))
            }
        },
        Err(message) => if looks_like_url_or_path(text) {
            Err(LineErrorKind::DirectUrlOrPath)
        } else {
            Err(LineErrorKind::InvalidRequirement(message))
        },
    }
}

/// What a matchspec directive is, given what reading its text gave.
pub open spec fn matchspec_line(
    text: Seq<char>,
    read: Result<DeclaredSpecView, Seq<char>>,
) -> Result<DependencyView, FaultView> {
    if text.len() == 0 {
        Err(FaultView::EmptyMatchspecDirective)
    } else {
        match read {
            Ok(spec) => Ok(DependencyView::Matchspec(spec)),
            Err(message) => Err(FaultView::InvalidMatchspec(message)),
        }
    }
}

/// Decides on a matchspec directive, given what reading its text gave.
pub fn accept_matchspec(text: &str, read: Result<DeclaredSpec, String>) -> (r: Result<
    Dependency,
    LineErrorKind,
>)
    ensures
        line_outcome(r) == matchspec_line(text@, outcome(read)),
{
    if text.is_empty() {
        return Err(LineErrorKind::EmptyMatchspecDirective);
    }
    match read {
        Ok(spec) => Ok(Dependency::Matchspec(Box::new(spec))),
        Err(message) => Err(LineErrorKind::InvalidMatchspec(message)),
    }
}

/// The entries of a channels directive, trimmed.
pub open spec fn channel_entries(text: Seq<char>) -> Seq<Seq<char>> {
    split(text, ',').map_values(|entry: Seq<char>| trim(entry))
}

/// The channels that a directive asks for; none where it is blank or an
/// entry of it is.
pub open spec fn channels_of(text: Seq<char>) -> Option<Seq<Seq<char>>> {
    let entries = channel_entries(text);
    if trim(text).len() > 0 && forall|i: int| 0 <= i < entries.len() ==> (#[trigger] entries[i]).len() > 0 {
        Some(entries)
    } else {
        None
    }
}

/// Reads a channels directive.
pub fn parse_channels_directive(text: &str) -> (r: Result<Vec<String>, LineErrorKind>)
    ensures
        match r {
            Ok(channels) => channels_of(text@) == Some(channels.deep_view()),
            Err(kind) => channels_of(text@) is None && kind is EmptyChannelsDirective,
        },
{
    let cs = chars_of(text);
    let trimmed = trim_chars(&cs);
    if trimmed.len() == 0 {
        return Err(LineErrorKind::EmptyChannelsDirective);
    }
    let pieces = split_chars(&cs, ',');
    let ghost all = channel_entries(text@);
    let mut out: Vec<String> = Vec::new();
    let mut i: usize = 0;
    assert(out.deep_view() =~= all.take(0));
    while i < pieces.len()
        invariant
            i <= pieces.len(),
            char_rows(pieces@) == split(text@, ','),
            all == channel_entries(text@),
            all.len() == pieces.len(),
            trim(text@).len() > 0,
            out.deep_view() == all.take(i as int),
            forall|k: int| 0 <= k < i ==> (#[trigger] all[k]).len() > 0,
        decreases pieces.len() - i,
    {
        let entry = trim_chars(&pieces[i]);
        assert(char_rows(pieces@)[i as int] == pieces@[i as int]@);
        assert(all[i as int] == entry@);
        if entry.len() == 0 {
            return Err(LineErrorKind::EmptyChannelsDirective);
        }
        let ghost done = out.deep_view();
        let name = string_of(&entry);
        out.push(name);
        i += 1;
        assert(out.deep_view() =~= done.push(name@));
        assert(out.deep_view() =~= all.take(i as int));
    }
    assert(all.take(i as int) =~= all);
    Ok(out)
}

/// What reading one logical line gave.
#[derive(Debug)]
pub enum LineRead {
    /// A requirement, or why the text is none.
    Requirement(Result<Requirement, String>),
    /// A matchspec, or why the text is none.
    Matchspec(Result<DeclaredSpec, String>),
    /// A channels directive; there is nothing to read.
    Channels,
}

/// What reading one logical line gave, as mathematical values.
pub enum LineReadView {
    Requirement(Result<RequirementView, Seq<char>>),
    Matchspec(Result<DeclaredSpecView, Seq<char>>),
    Channels,
}

impl DeepView for LineRead {
    type V = LineReadView;

    open spec fn deep_view(&self) -> LineReadView {
        match self {
            LineRead::Requirement(read) => LineReadView::Requirement(outcome(*read)),
            LineRead::Matchspec(read) => LineReadView::Matchspec(outcome(*read)),
            LineRead::Channels => LineReadView::Channels,
        }
    }
}

/// Whether `read` is what reading a line gave. What a requirement that
/// refers to an environment variable and a matchspec whose channel may be a
/// path give is left open.
pub open spec fn is_read(line: LineView, read: LineReadView) -> bool {
    match line {
        LineView::Requirement { line, text } => {
            &&& read is Requirement
            &&& may_be_read(text, read->Requirement_0)
        },
        LineView::Matchspec { line, text } => {
            &&& read is Matchspec
            &&& is_fixed_spec(text) ==> read->Matchspec_0 == conda_matchspec(text)
        },
        LineView::Channels { line, text } => read is Channels,
    }
}

/// Whether the outcomes are those of reading the lines.
pub open spec fn are_read(all: Seq<LineView>, reads: Seq<LineReadView>) -> bool {
    &&& reads.len() == all.len()
    &&& forall|i: int| 0 <= i < all.len() ==> is_read(all[i], #[trigger] reads[i])
}

/// Reads every line.
pub fn read_lines(all: &Vec<LogicalLine>) -> (r: Vec<LineRead>)
    ensures
        are_read(line_views(all@), r.deep_view()),
{
    let ghost rows = line_views(all@);
    let mut out: Vec<LineRead> = Vec::new();
    let mut i: usize = 0;
    while i < all.len()
        invariant
            i <= all.len(),
            rows == line_views(all@),
            out@.len() == i,
            forall|k: int| 0 <= k < i ==> is_read(rows[k], #[trigger] out.deep_view()[k]),
        decreases all.len() - i,
    {
        let read = match &all[i] {
            LogicalLine::Requirement { text, .. } => LineRead::Requirement(
                parse_requirement(text.as_str()),
            ),
            LogicalLine::Matchspec { text, .. } => LineRead::Matchspec(
                read_matchspec(text.as_str()),
            ),
            LogicalLine::Channels { .. } => LineRead::Channels,
        };
        let ghost before = out.deep_view();
        assert(rows[i as int] == all@[i as int]@);
        assert(is_read(rows[i as int], read.deep_view()));
        out.push(read);
        i += 1;
        assert forall|k: int| 0 <= k < i implies is_read(rows[k], #[trigger] out.deep_view()[k]) by {
            if k < i - 1 {
                assert(out.deep_view()[k] == before[k]);
            }
        }
    }
    out
}

/// What the lines read so far amount to: the accepted entries, the rejected
/// lines, whether a channels directive was seen, and its channels.
pub struct Progress {
    pub entries: Seq<EntryView>,
    pub errors: Seq<LineErrorView>,
    pub seen_channels: bool,
    pub channels: Option<Seq<Seq<char>>>,
}

/// One more dependency line.
pub open spec fn with_dependency(
    before: Progress,
    line: int,
    found: Result<DependencyView, FaultView>,
) -> Progress {
    match found {
        Ok(dependency) => Progress {
            entries: before.entries.push(EntryView { dependency, line }),
            ..before
        },
        Err(kind) => Progress { errors: before.errors.push(LineErrorView { line, kind }), ..before },
    }
}

/// One more channels directive.
pub open spec fn with_channels(before: Progress, line: int, text: Seq<char>) -> Progress {
    if before.seen_channels {
        Progress {
            errors: before.errors.push(
                LineErrorView { line, kind: FaultView::DuplicateChannelsDirective },
            ),
            ..before
        }
    } else {
        match channels_of(text) {
            Some(list) => Progress { seen_channels: true, channels: Some(list), ..before },
            None => Progress {
                seen_channels: true,
                errors: before.errors.push(
                    LineErrorView { line, kind: FaultView::EmptyChannelsDirective },
                ),
                ..before
            },
        }
    }
}

/// What the lines amount to, given what reading them gave.
pub open spec fn progress(all: Seq<LineView>, reads: Seq<LineReadView>) -> Progress
    decreases all.len(),
{
    if all.len() == 0 {
        Progress {
            entries: Seq::empty(),
            errors: Seq::empty(),
            seen_channels: false,
            channels: None,
        }
    } else {
        let before = progress(all.drop_last(), reads);
        match (all.last(), reads[all.len() - 1]) {
            (LineView::Requirement { line, text }, LineReadView::Requirement(read)) =>
                with_dependency(before, line, requirement_line(text, read)),
            (LineView::Matchspec { line, text }, LineReadView::Matchspec(read)) =>
                with_dependency(before, line, matchspec_line(text, read)),
            (LineView::Channels { line, text }, _) => with_channels(before, line, text),
            _ => before,
        }
    }
}

/// What a file with the given lines is, given what reading them gave: every
/// rejected line, or, without any, the accepted ones and the channels.
pub open spec fn document(all: Seq<LineView>, reads: Seq<LineReadView>) -> Result<
    DocumentView,
    Seq<LineErrorView>,
> {
    let end = progress(all, reads);
    if end.errors.len() > 0 {
        Err(end.errors)
    } else {
        Ok(DocumentView { requirements: end.entries, channels: end.channels })
    }
}

/// The view of what was made of a file.
pub open spec fn document_outcome(r: Result<RequirementsTxt, RequirementsTxtError>) -> Result<
    DocumentView,
    Seq<LineErrorView>,
> {
    match r {
        Ok(file) => Ok(file.deep_view()),
        Err(error) => Err(error.view_errors()),
    }
}

fn push_dependency(
    found: Result<Dependency, LineErrorKind>,
    line: usize,
    entries: &mut Vec<RequirementEntry>,
    errors: &mut Vec<LineError>,
)
    ensures
        match line_outcome(found) {
            Ok(dependency) => final(entries).deep_view() == old(entries).deep_view().push(
                EntryView { dependency, line: line as int },
            ) && final(errors).deep_view() == old(errors).deep_view(),
            Err(kind) => final(errors).deep_view() == old(errors).deep_view().push(
                LineErrorView { line: line as int, kind },
            ) && final(entries).deep_view() == old(entries).deep_view(),
        },
{
    let ghost before = entries.deep_view();
    let ghost known = errors.deep_view();
    match found {
        Ok(dependency) => {
            let entry = RequirementEntry { dependency, line };
            entries.push(entry);
            assert(entries.deep_view() =~= before.push(entry.deep_view()));
        },
        Err(kind) => {
            let error = LineError { line, kind };
            errors.push(error);
            assert(errors.deep_view() =~= known.push(error.deep_view()));
        },
    }
}

/// Puts a file together from its logical lines and what reading them gave.
pub fn assemble(all: Vec<LogicalLine>, reads: Vec<LineRead>) -> (r: Result<
    RequirementsTxt,
    RequirementsTxtError,
>)
    requires
        reads@.len() == all@.len(),
    ensures
        document_outcome(r) == document(line_views(all@), reads.deep_view()),
{
    let ghost rows = line_views(all@);
    let ghost views = reads.deep_view();
    let mut entries: Vec<RequirementEntry> = Vec::new();
    let mut errors: Vec<LineError> = Vec::new();
    let mut seen_channels = false;
    let mut channels: Option<Vec<String>> = None;
    let mut i: usize = 0;
    assert(entries.deep_view() =~= Seq::empty());
    assert(errors.deep_view() =~= Seq::empty());
    while i < all.len()
        invariant
            i <= all.len(),
            all@.len() == reads@.len(),
            rows == line_views(all@),
            views == reads.deep_view(),
            progress(rows.take(i as int), views) == (Progress {
                entries: entries.deep_view(),
                errors: errors.deep_view(),
                seen_channels,
                channels: channels.deep_view(),
            }),
        decreases all.len() - i,
    {
        assert(rows.take(i + 1).drop_last() =~= rows.take(i as int));
        assert(rows.take(i + 1).last() == all@[i as int]@);
        assert(views[i as int] == reads@[i as int].deep_view());
        match (&all[i], &reads[i]) {
            (LogicalLine::Requirement { line, text }, LineRead::Requirement(read)) => {
                let copied = match read {
                    Ok(requirement) => Ok(requirement.duplicate()),
                    Err(message) => Err(message.clone()),
                };
                let found = accept_requirement(text.as_str(), copied);
                push_dependency(found, *line, &mut entries, &mut errors);
            },
            (LogicalLine::Matchspec { line, text }, LineRead::Matchspec(read)) => {
                let copied = match read {
                    Ok(spec) => Ok(spec.duplicate()),
                    Err(message) => Err(message.clone()),
                };
                let found = accept_matchspec(text.as_str(), copied);
                push_dependency(found, *line, &mut entries, &mut errors);
            },
            (LogicalLine::Channels { line, text }, _) => {
                let ghost known = errors.deep_view();
                if seen_channels {
                    let error = LineError {
                        line: *line,
                        kind: LineErrorKind::DuplicateChannelsDirective,
                    };
                    errors.push(error);
                    assert(errors.deep_view() =~= known.push(error.deep_view()));
                } else {
                    seen_channels = true;
                    match parse_channels_directive(text.as_str()) {
                        Ok(list) => channels = Some(list),
                        Err(kind) => {
                            let error = LineError { line: *line, kind };
                            errors.push(error);
                            assert(errors.deep_view() =~= known.push(error.deep_view()));
                        },
                    }
                }
            },
            _ => {},
        }
        i += 1;
    }
    assert(rows.take(i as int) =~= rows);
    if errors.len() > 0 {
        Err(RequirementsTxtError::new(errors))
    } else {
        Ok(RequirementsTxt { requirements: entries, channels })
    }
}

impl RequirementsTxt {
    /// Reads the text of a `requirements.txt`. Every invalid or unsupported
    /// line is an error; without any, each line gives its dependency.
    pub fn parse(text: &str) -> (r: Result<RequirementsTxt, RequirementsTxtError>)
        ensures
            exists|reads: Seq<LineReadView>|
                #![trigger are_read(logical_views(text@), reads)]
                are_read(logical_views(text@), reads) && document_outcome(r) == document(
                    logical_views(text@),
                    reads,
                ),
            r is Err ==> r->Err_0.view_errors().len() > 0,
    {
        let all = logical_lines(text);
        let reads = read_lines(&all);
        let ghost views = reads.deep_view();
        assert(are_read(logical_views(text@), views));
        assemble(all, reads)
    }
}

/// Rejected lines are reported in file order, each once.
pub proof fn errors_in_file_order(text: Seq<char>, reads: Seq<LineReadView>)
    ensures
        forall|i: int, j: int|
            0 <= i < j < progress(logical_views(text), reads).errors.len() ==> (
            #[trigger] progress(logical_views(text), reads).errors[i]).line < (
            #[trigger] progress(logical_views(text), reads).errors[j]).line,
{
    logical_lines_in_file_order(text);
    let all = logical_views(text);
    errors_ordered(all, reads, all.len() as int);
    assert(all.take(all.len() as int) =~= all);
}

proof fn errors_ordered(all: Seq<LineView>, reads: Seq<LineReadView>, n: int)
    requires
        in_file_order(all),
        0 <= n <= all.len(),
    ensures
        forall|i: int, j: int|
            0 <= i < j < progress(all.take(n), reads).errors.len() ==> (#[trigger] progress(
                all.take(n),
                reads,
            ).errors[i]).line < (#[trigger] progress(all.take(n), reads).errors[j]).line,
        forall|i: int|
            0 <= i < progress(all.take(n), reads).errors.len() ==> n > 0 && (#[trigger] progress(
                all.take(n),
                reads,
            ).errors[i]).line <= line_number(all[n - 1]),
    decreases n,
{
    if n > 0 {
        errors_ordered(all, reads, n - 1);
        assert(all.take(n).drop_last() =~= all.take(n - 1));
        assert(all.take(n).last() == all[n - 1]);
        let before = progress(all.take(n - 1), reads).errors;
        let after = progress(all.take(n), reads).errors;
        assert forall|i: int| 0 <= i < before.len() implies (#[trigger] before[i]).line
            < line_number(all[n - 1]) by {
            assert(line_number(all[n - 2]) < line_number(all[n - 1]));
        }
        assert forall|i: int| 0 <= i < before.len() implies #[trigger] after[i] == before[i] by {}
    }
}

/// Accepted lines stand in file order, each once.
pub proof fn entries_in_file_order(text: Seq<char>, reads: Seq<LineReadView>)
    ensures
        forall|i: int, j: int|
            0 <= i < j < progress(logical_views(text), reads).entries.len() ==> (
            #[trigger] progress(logical_views(text), reads).entries[i]).line < (
            #[trigger] progress(logical_views(text), reads).entries[j]).line,
{
    logical_lines_in_file_order(text);
    let all = logical_views(text);
    entries_ordered(all, reads, all.len() as int);
    assert(all.take(all.len() as int) =~= all);
}

proof fn entries_ordered(all: Seq<LineView>, reads: Seq<LineReadView>, n: int)
    requires
        in_file_order(all),
        0 <= n <= all.len(),
    ensures
        forall|i: int, j: int|
            0 <= i < j < progress(all.take(n), reads).entries.len() ==> (#[trigger] progress(
                all.take(n),
                reads,
            ).entries[i]).line < (#[trigger] progress(all.take(n), reads).entries[j]).line,
        forall|i: int|
            0 <= i < progress(all.take(n), reads).entries.len() ==> n > 0 && (#[trigger] progress(
                all.take(n),
                reads,
            ).entries[i]).line <= line_number(all[n - 1]),
    decreases n,
{
    if n > 0 {
        entries_ordered(all, reads, n - 1);
        assert(all.take(n).drop_last() =~= all.take(n - 1));
        assert(all.take(n).last() == all[n - 1]);
        let before = progress(all.take(n - 1), reads).entries;
        let after = progress(all.take(n), reads).entries;
        assert forall|i: int| 0 <= i < before.len() implies (#[trigger] before[i]).line
            < line_number(all[n - 1]) by {
            assert(line_number(all[n - 2]) < line_number(all[n - 1]));
        }
        assert forall|i: int| 0 <= i < before.len() implies #[trigger] after[i] == before[i] by {}
    }
}

/// No line is dropped: each is accepted or rejected. Of the channels
/// directives at most one is accepted, and then the file has channels.
pub proof fn no_line_is_dropped(all: Seq<LineView>, reads: Seq<LineReadView>)
    requires
        are_read(all, reads),
    ensures
        progress(all, reads).entries.len() + progress(all, reads).errors.len() + (if progress(
            all,
            reads,
        ).channels is Some {
            1nat
        } else {
            0nat
        }) == all.len(),
{
    lines_counted(all, reads, all.len() as int);
    assert(all.take(all.len() as int) =~= all);
}

proof fn lines_counted(all: Seq<LineView>, reads: Seq<LineReadView>, n: int)
    requires
        are_read(all, reads),
        0 <= n <= all.len(),
    ensures
        ({
            let p = progress(all.take(n), reads);
            &&& p.channels is Some ==> p.seen_channels
            &&& p.entries.len() + p.errors.len() + (if p.channels is Some {
                1nat
            } else {
                0nat
            }) == n
        }),
    decreases n,
{
    if n > 0 {
        lines_counted(all, reads, n - 1);
        assert(all.take(n).drop_last() =~= all.take(n - 1));
        assert(all.take(n).last() == all[n - 1]);
        assert(is_read(all[n - 1], reads[n - 1]));
    }
}

/// A line with a hash option anywhere uses that, and any other line that
/// starts with a hyphen the option it starts with; no other line uses one.
pub proof fn options_are_recognized(text: Seq<char>)
    ensures
        ({
            let all = words(text);
            let hashed = exists|i: int|
                0 <= i < all.len() && (#[trigger] all[i] == "--hash"@ || "--hash="@.is_prefix_of(
                    all[i],
                ));
            &&& hashed ==> option_of(text) == Some("--hash"@)
            &&& !hashed && text.len() > 0 && text[0] == '-' ==> option_of(text) is Some && (
            all.len() > 0 ==> option_of(text) == Some(all[0]))
            &&& !hashed && !(text.len() > 0 && text[0] == '-') ==> option_of(text) is None
        }),
{
    let all = words(text);
    assert forall|i: int| 0 <= i < all.len() implies is_hash_option(all[i]) == (#[trigger] all[i]
        == "--hash"@ || "--hash="@.is_prefix_of(all[i])) by {
        crate::text::prefix_is_begin(all[i], "--hash="@);
    }
    if has_hash_option(all) {
        let i = choose|i: int| 0 <= i < all.len() && is_hash_option(#[trigger] all[i]);
        assert(all[i] == "--hash"@ || "--hash="@.is_prefix_of(all[i]));
    }
    if exists|i: int|
        0 <= i < all.len() && (#[trigger] all[i] == "--hash"@ || "--hash="@.is_prefix_of(all[i])) {
        let i = choose|i: int|
            0 <= i < all.len() && (#[trigger] all[i] == "--hash"@ || "--hash="@.is_prefix_of(
                all[i],
            ));
        assert(is_hash_option(all[i]));
    }
}

/// What a requirement line is: one that uses an option is refused for that;
/// one that was read is taken, unless it asks for a URL; one that was not
/// is refused as a URL or path where its first word looks like one, and
/// otherwise for the reason it was not.
pub proof fn requirement_lines_are_decided(
    text: Seq<char>,
    read: Result<RequirementView, Seq<char>>,
)
    ensures
        option_of(text) is Some ==> requirement_line(text, read) == Err::<
            DependencyView,
            FaultView,
        >(FaultView::UnsupportedDirective(option_of(text)->0)),
        option_of(text) is None && read is Ok && !(read->Ok_0.version_or_url is Some
            && read->Ok_0.version_or_url->0 is Url) ==> requirement_line(text, read) == Ok::<
            DependencyView,
            FaultView,
        >(DependencyView::Pep508(read->Ok_0)),
        option_of(text) is None && read is Ok && read->Ok_0.version_or_url is Some
            && read->Ok_0.version_or_url->0 is Url ==> requirement_line(text, read) == Err::<
            DependencyView,
            FaultView,
        >(FaultView::DirectUrlOrPath),
        option_of(text) is None && read is Err ==> requirement_line(text, read) == Err::<
            DependencyView,
            FaultView,
        >(
            if starts_with_url_or_path(text) {
                FaultView::DirectUrlOrPath
            } else {
                FaultView::InvalidRequirement(read->Err_0)
            },
        ),
{
}

/// A word looks like a URL or path where it starts with the name of a version
/// control system and `+`, in any case, holds `://`, or starts as a path
/// does.
pub proof fn urls_and_paths_are_recognized(word: Seq<char>)
    ensures
        ({
            let small = word.map_values(|c: char| crate::text::lower(c));
            is_url_or_path(word) <==> "git+"@.is_prefix_of(small) || "hg+"@.is_prefix_of(small)
                || "svn+"@.is_prefix_of(small) || "bzr+"@.is_prefix_of(small) || (exists|a: int|
                0 <= a && a + 3 <= word.len() && #[trigger] word.subrange(a, a + 3) == "://"@)
                || "./"@.is_prefix_of(word) || "../"@.is_prefix_of(word) || "/"@.is_prefix_of(word)
                || "~"@.is_prefix_of(word)
        }),
{
    reveal_strlit("://");
    let small = lower_all(word);
    assert(small =~= word.map_values(|c: char| crate::text::lower(c)));
    crate::text::prefix_is_begin(small, "git+"@);
    crate::text::prefix_is_begin(small, "hg+"@);
    crate::text::prefix_is_begin(small, "svn+"@);
    crate::text::prefix_is_begin(small, "bzr+"@);
    crate::text::prefix_is_begin(word, "./"@);
    crate::text::prefix_is_begin(word, "../"@);
    crate::text::prefix_is_begin(word, "/"@);
    crate::text::prefix_is_begin(word, "~"@);
    if contains(word, "://"@) {
        let a = choose|a: int| crate::text::holds_at(word, a, "://"@);
        assert(word.subrange(a, a + 3) == "://"@);
    }
    if exists|a: int|
        0 <= a && a + 3 <= word.len() && #[trigger] word.subrange(a, a + 3) == "://"@ {
        let a = choose|a: int|
            0 <= a && a + 3 <= word.len() && #[trigger] word.subrange(a, a + 3) == "://"@;
        assert(crate::text::holds_at(word, a, "://"@));
    }
}

/// A matchspec directive without a text is refused; any other is taken where
/// its text was read, and refused for the reason where it was not.
pub proof fn matchspec_lines_are_decided(
    text: Seq<char>,
    read: Result<DeclaredSpecView, Seq<char>>,
)
    ensures
        text.len() == 0 ==> matchspec_line(text, read) == Err::<DependencyView, FaultView>(
            FaultView::EmptyMatchspecDirective,
        ),
        text.len() > 0 && read is Ok ==> matchspec_line(text, read) == Ok::<
            DependencyView,
            FaultView,
        >(DependencyView::Matchspec(read->Ok_0)),
        text.len() > 0 && read is Err ==> matchspec_line(text, read) == Err::<
            DependencyView,
            FaultView,
        >(FaultView::InvalidMatchspec(read->Err_0)),
{
}

/// The channels of a directive stand between commas, each trimmed, in order;
/// a directive with a blank one is refused.
pub proof fn channels_stand_between_commas(text: Seq<char>, entry: Seq<char>)
    requires
        crate::text::lacks(entry, ','),
    ensures
        channel_entries(entry) == seq![trim(entry)],
        channel_entries(text.push(',') + entry) == channel_entries(text).push(trim(entry)),
        channels_of(text) is Some ==> channels_of(text)->0 == channel_entries(text) && forall|
            i: int,
        |
            0 <= i < channel_entries(text).len() ==> (#[trigger] channel_entries(text)[i]).len()
                > 0,
        trim(entry).len() > 0 ==> channels_of(entry) == Some(seq![trim(entry)]),
        trim(entry).len() == 0 ==> channels_of(entry) is None && channels_of(
            text.push(',') + entry,
        ) is None,
        channels_of(text) is Some && trim(entry).len() > 0 ==> channels_of(
            text.push(',') + entry,
        ) == Some(channels_of(text)->0.push(trim(entry))),
{
    crate::text::split_piece(text, entry, ',');
    assert(channel_entries(entry) =~= seq![trim(entry)]);
    let longer = text.push(',') + entry;
    let all = channel_entries(longer);
    assert(all =~= channel_entries(text).push(trim(entry)));
    if trim(entry).len() == 0 {
        assert(all[all.len() - 1].len() == 0);
        assert(channel_entries(entry)[0].len() == 0);
    }
    if channels_of(text) is Some && trim(entry).len() > 0 {
        assert forall|i: int| 0 <= i < all.len() implies (#[trigger] all[i]).len() > 0 by {
            if i < channel_entries(text).len() {
                assert(channel_entries(text)[i].len() > 0);
            }
        }
        crate::text::trim_is_the_middle(longer);
        crate::text::trim_is_the_middle(text);
        if forall|i: int| 0 <= i < longer.len() ==> is_space_at(longer, i) {
            assert forall|i: int| 0 <= i < text.len() implies crate::text::is_space(
                #[trigger] text[i],
            ) by {
                assert(is_space_at(longer, i));
                assert(longer[i] == text[i]);
            }
        }
        assert(trim(longer).len() > 0) by {
            if trim(longer).len() == 0 {
                assert(crate::text::is_space(longer[text.len() as int]));
                assert(longer[text.len() as int] == ',');
            }
        }
    }
}

spec fn is_space_at(s: Seq<char>, i: int) -> bool {
    crate::text::is_space(s[i])
}

/// Lines are taken one by one: a requirement or match spec that is taken
/// joins the entries, one that is refused the errors, each with its number;
/// the first channels directive gives the channels or an error, and every
/// further one an error.
pub proof fn lines_are_taken_one_by_one(
    all: Seq<LineView>,
    reads: Seq<LineReadView>,
    line: int,
    text: Seq<char>,
    required: Result<RequirementView, Seq<char>>,
    spec: Result<DeclaredSpecView, Seq<char>>,
)
    requires
        all.len() < reads.len(),
    ensures
        ({
            let before = progress(all, reads);
            let as_requirement = progress(
                all.push(LineView::Requirement { line, text }),
                reads.update(all.len() as int, LineReadView::Requirement(required)),
            );
            let as_spec = progress(
                all.push(LineView::Matchspec { line, text }),
                reads.update(all.len() as int, LineReadView::Matchspec(spec)),
            );
            let as_channels = progress(
                all.push(LineView::Channels { line, text }),
                reads.update(all.len() as int, LineReadView::Channels),
            );
            &&& match requirement_line(text, required) {
                Ok(dependency) => as_requirement == (Progress {
                    entries: before.entries.push(EntryView { dependency, line }),
                    ..before
                }),
                Err(kind) => as_requirement == (Progress {
                    errors: before.errors.push(LineErrorView { line, kind }),
                    ..before
                }),
            }
            &&& match matchspec_line(text, spec) {
                Ok(dependency) => as_spec == (Progress {
                    entries: before.entries.push(EntryView { dependency, line }),
                    ..before
                }),
                Err(kind) => as_spec == (Progress {
                    errors: before.errors.push(LineErrorView { line, kind }),
                    ..before
                }),
            }
            &&& as_channels.seen_channels
            &&& as_channels.entries == before.entries
            &&& before.seen_channels ==> as_channels.channels == before.channels
                && as_channels.errors == before.errors.push(
                LineErrorView { line, kind: FaultView::DuplicateChannelsDirective },
            )
            &&& !before.seen_channels && channels_of(text) is Some ==> as_channels.channels
                == channels_of(text) && as_channels.errors == before.errors
            &&& !before.seen_channels && channels_of(text) is None ==> as_channels.errors
                == before.errors.push(
                LineErrorView { line, kind: FaultView::EmptyChannelsDirective },
            )
        }),
        progress(Seq::empty(), reads).entries.len() == 0,
        progress(Seq::empty(), reads).errors.len() == 0,
        progress(Seq::empty(), reads).channels is None,
        !progress(Seq::empty(), reads).seen_channels,
{
    let a = LineView::Requirement { line, text };
    let b = LineView::Matchspec { line, text };
    let c = LineView::Channels { line, text };
    let n = all.len() as int;
    assert(all.push(a).drop_last() =~= all);
    assert(all.push(b).drop_last() =~= all);
    assert(all.push(c).drop_last() =~= all);
    progress_ignores_later(all, reads, reads.update(n, LineReadView::Requirement(required)));
    progress_ignores_later(all, reads, reads.update(n, LineReadView::Matchspec(spec)));
    progress_ignores_later(all, reads, reads.update(n, LineReadView::Channels));
}

proof fn progress_ignores_later(
    all: Seq<LineView>,
    reads: Seq<LineReadView>,
    other: Seq<LineReadView>,
)
    requires
        forall|i: int| 0 <= i < all.len() ==> #[trigger] reads[i] == other[i],
    ensures
        progress(all, reads) == progress(all, other),
    decreases all.len(),
{
    if all.len() > 0 {
        progress_ignores_later(all.drop_last(), reads, other);
        assert(reads[all.len() - 1] == other[all.len() - 1]);
    }
}

/// A file is refused exactly where a line of it is; otherwise it has the
/// entries and channels of its lines.
pub proof fn file_is_refused_where_a_line_is(all: Seq<LineView>, reads: Seq<LineReadView>)
    ensures
        document(all, reads) is Err <==> progress(all, reads).errors.len() > 0,
        document(all, reads) is Err ==> document(all, reads)->Err_0 == progress(all, reads).errors,
        document(all, reads) is Ok ==> document(all, reads)->Ok_0.requirements == progress(
            all,
            reads,
        ).entries && document(all, reads)->Ok_0.channels == progress(all, reads).channels,
{
}

/// What is wrong with a file is shown line by line, each with its number and
/// what is wrong with it.
pub proof fn faults_are_shown_line_by_line(errors: Seq<LineErrorView>, error: LineErrorView)
    ensures
        errors_text(Seq::empty()) == "invalid requirements.txt:\n"@,
        errors_text(errors.push(error)) == errors_text(errors) + "  "@ + ("line "@ + decimal(
            error.line as nat,
        ) + ": "@ + fault_text(error.kind)) + "\n"@,
{
    assert(errors.push(error).drop_last() =~= errors);
}

/// Each fault says what is wrong.
pub proof fn faults_say_what(message: Seq<char>)
    ensures
        fault_text(FaultView::InvalidRequirement(message)) == "invalid PEP 508 requirement: "@
            + message,
        fault_text(FaultView::DirectUrlOrPath)
            == "direct URL/VCS/local-path requirements are not supported (no matchspec equivalent)"@,
        fault_text(FaultView::UnsupportedDirective(message)) == "`"@ + message
            + "` is not supported"@,
        fault_text(FaultView::EmptyMatchspecDirective)
            == "`# ana-matchspec:` directive has no matchspec text"@,
        fault_text(FaultView::InvalidMatchspec(message)) == "invalid conda matchspec: "@ + message,
        fault_text(FaultView::EmptyChannelsDirective)
            == "`# ana-channels:` directive has no channels, or contains a blank entry"@,
        fault_text(FaultView::DuplicateChannelsDirective)
            == "`# ana-channels:` directive may appear at most once per file"@,
{
}

/// A line is taken for a URL or a path by its first word alone; a line
/// without words is not.
pub proof fn first_word_decides(text: Seq<char>)
    ensures
        words(text).len() == 0 ==> !starts_with_url_or_path(text),
        words(text).len() > 0 ==> (starts_with_url_or_path(text) <==> is_url_or_path(
            words(text)[0],
        )),
{
}

/// Each line of a file is read for what it is: a requirement as a dependency
/// specifier, the text of a matchspec directive as a match spec.
pub proof fn lines_are_read_for_what_they_are(
    all: Seq<LineView>,
    reads: Seq<LineReadView>,
    i: int,
)
    requires
        are_read(all, reads),
        0 <= i < all.len(),
    ensures
        reads.len() == all.len(),
        match all[i] {
            LineView::Requirement { line, text } => reads[i] is Requirement && may_be_read(
                text,
                reads[i]->Requirement_0,
            ),
            LineView::Matchspec { line, text } => reads[i] is Matchspec && (is_fixed_spec(text)
                ==> reads[i]->Matchspec_0 == conda_matchspec(text)),
            LineView::Channels { line, text } => reads[i] is Channels,
        },
{
    assert(is_read(all[i], reads[i]));
}

} // verus!
