//! Turns raw `requirements.txt` text into logical lines: comments
//! stripped, backslash-continued physical lines joined, blank lines
//! dropped, and directive comments recognized as lines of their own kind.
//!
//! A line is a directive when, after leading white space, `#` and more
//! white space, what is left starts with a directive's name, such as
//! `ana-matchspec:`. It is recognized only where no joined line is open,
//! so it is always one physical line.
//!
//! A `#` starts a comment, to the end of its physical line, when it is the
//! first character of the line or stands after white space. Comments are
//! stripped before lines are joined.
//!
//! A physical line that ends in `\` once its comment and trailing white
//! space are gone has that backslash removed and the next physical line
//! appended directly. On the last physical line the backslash is dropped.

use crate::text::{
    begins, char_rows, chars_of, has_at, is_space, is_space_char, lines, lines_append, lines_of,
    range_of, string_of, trim, trim_chars, trim_end, trim_end_chars, trim_start, trim_start_chars,
};
use vstd::prelude::*;
use vstd::string::*;

verus! {

/// The name of the directive that declares a conda matchspec.
pub const MATCHSPEC_DIRECTIVE: &'static str = "ana-matchspec:";

/// The name of the directive that declares the channels of a file.
pub const CHANNELS_DIRECTIVE: &'static str = "ana-channels:";

/// One logical line: joined, without comments, trimmed, tagged with the
/// 1-based number of the physical line it starts on.
#[derive(Debug, Clone, PartialEq, Eq)]
pub enum LogicalLine {
    /// An ordinary line, expected to be a requirement.
    Requirement { line: usize, text: String },
    /// What follows the name of a matchspec directive, trimmed.
    Matchspec { line: usize, text: String },
    /// What follows the name of a channels directive, trimmed.
    Channels { line: usize, text: String },
}

/// A logical line with its number and text taken as mathematical values.
pub enum LineView {
    Requirement { line: int, text: Seq<char> },
    Matchspec { line: int, text: Seq<char> },
    Channels { line: int, text: Seq<char> },
}

impl View for LogicalLine {
    type V = LineView;

    open spec fn view(&self) -> LineView {
        match self {
            LogicalLine::Requirement { line, text } => LineView::Requirement {
                line: *line as int,
                text: text@,
            },
            LogicalLine::Matchspec { line, text } => LineView::Matchspec {
                line: *line as int,
                text: text@,
            },
            LogicalLine::Channels { line, text } => LineView::Channels {
                line: *line as int,
                text: text@,
            },
        }
    }
}

/// The views of a list of logical lines.
pub open spec fn line_views(v: Seq<LogicalLine>) -> Seq<LineView> {
    v.map_values(|l: LogicalLine| l@)
}

/// Whether a `#` at position `i` would start a comment.
pub open spec fn comment_may_start(line: Seq<char>, i: int) -> bool {
    i == 0 || is_space(line[i - 1])
}

/// Where the comment of a line starts: the first `#` that starts the line
/// or stands after white space; the line's length if there is none.
pub open spec fn comment_start(line: Seq<char>, i: int) -> int
    decreases line.len() - i,
{
    if i < 0 || i >= line.len() {
        line.len() as int
    } else if line[i] == '#' && comment_may_start(line, i) {
        i
    } else {
        comment_start(line, i + 1)
    }
}

/// A physical line without its comment.
pub open spec fn without_comment(line: Seq<char>) -> Seq<char> {
    line.take(comment_start(line, 0))
}

/// What a physical line adds to the joined line that it continues, if it
/// is continued by the next one: what stands before its final backslash.
pub open spec fn continued(line: Seq<char>) -> Option<Seq<char>> {
    let t = trim_end(without_comment(line));
    if t.len() > 0 && t.last() == '\\' {
        Some(t.drop_last())
    } else {
        None
    }
}

/// The joined text that starts at physical line `i`, and the index of the
/// first physical line after it.
pub open spec fn joined(rows: Seq<Seq<char>>, i: int) -> (Seq<char>, int)
    decreases rows.len() - i,
{
    if i < 0 || i >= rows.len() {
        (Seq::empty(), i)
    } else {
        match continued(rows[i]) {
            Some(chunk) => {
                let (rest, next) = joined(rows, i + 1);
                (chunk + rest, next)
            },
            None => (without_comment(rows[i]), i + 1),
        }
    }
}

/// What follows the directive's name, trimmed, if the physical line is
/// that directive.
pub open spec fn directive(row: Seq<char>, name: Seq<char>) -> Option<Seq<char>> {
    let head = trim_start(row);
    let body = trim_start(head.drop_first());
    if head.len() > 0 && head[0] == '#' && begins(body, name) {
        Some(trim(body.skip(name.len() as int)))
    } else {
        None
    }
}

/// The logical lines from physical line `i` on.
pub open spec fn logical_from(rows: Seq<Seq<char>>, i: int) -> Seq<LineView>
    decreases rows.len() - i,
{
    if i < 0 || i >= rows.len() {
        Seq::empty()
    } else if let Some(text) = directive(rows[i], MATCHSPEC_DIRECTIVE@) {
        seq![LineView::Matchspec { line: i + 1, text }] + logical_from(rows, i + 1)
    } else if let Some(text) = directive(rows[i], CHANNELS_DIRECTIVE@) {
        seq![LineView::Channels { line: i + 1, text }] + logical_from(rows, i + 1)
    } else {
        let (text, next) = joined(rows, i);
        let rest = if i < next <= rows.len() {
            logical_from(rows, next)
        } else {
            Seq::empty()
        };
        if trim(text).len() > 0 {
            seq![LineView::Requirement { line: i + 1, text: trim(text) }] + rest
        } else {
            rest
        }
    }
}

/// The logical lines of a file's text.
pub open spec fn logical_views(text: Seq<char>) -> Seq<LineView> {
    logical_from(lines(text), 0)
}

proof fn joined_bounds(rows: Seq<Seq<char>>, i: int)
    requires
        0 <= i < rows.len(),
    ensures
        i < joined(rows, i).1 <= rows.len(),
    decreases rows.len() - i,
{
    if i + 1 < rows.len() {
        joined_bounds(rows, i + 1);
    } else {
        assert(joined(rows, i + 1).1 == i + 1);
    }
}

/// Every logical line of `text`, in order. Blank lines and lines that only
/// hold a comment give none.
pub fn logical_lines(text: &str) -> (r: Vec<LogicalLine>)
    ensures
        line_views(r@) == logical_views(text@),
{
    let rows = lines_of(text);
    let ghost all = char_rows(rows@);
    let mut result: Vec<LogicalLine> = Vec::new();
    let mut i: usize = 0;
    assert(line_views(result@) + logical_from(all, 0) =~= logical_from(all, 0));
    while i < rows.len()
        invariant
            i <= rows.len(),
            all == char_rows(rows@),
            line_views(result@) + logical_from(all, i as int) == logical_from(all, 0),
        decreases rows.len() - i,
    {
        assert(all[i as int] == rows@[i as int]@);
        let ghost before = line_views(result@);
        let ghost here = logical_from(all, i as int);
        if let Some(text) = match_directive(&rows[i], MATCHSPEC_DIRECTIVE) {
            let line = LogicalLine::Matchspec { line: i + 1, text };
            result.push(line);
            i += 1;
            assert(line_views(result@) =~= before.push(line@));
            assert(line_views(result@) + logical_from(all, i as int) =~= before + here);
            continue;
        }
        if let Some(text) = match_directive(&rows[i], CHANNELS_DIRECTIVE) {
            let line = LogicalLine::Channels { line: i + 1, text };
            result.push(line);
            i += 1;
            assert(line_views(result@) =~= before.push(line@));
            assert(line_views(result@) + logical_from(all, i as int) =~= before + here);
            continue;
        }
        proof {
            joined_bounds(all, i as int);
        }
        let (joined_text, next) = join_lines(&rows, i);
        let trimmed = trim_chars(&joined_text);
        if trimmed.len() > 0 {
            let line = LogicalLine::Requirement { line: i + 1, text: string_of(&trimmed) };
            result.push(line);
            assert(line_views(result@) =~= before.push(line@));
        }
        i = next;
        assert(line_views(result@) + logical_from(all, i as int) =~= before + here);
    }
    assert(line_views(result@) + logical_from(all, i as int) =~= line_views(result@));
    result
}

/// The joined text that starts at physical line `start`, and the index of
/// the first physical line after it.
fn join_lines(rows: &Vec<Vec<char>>, start: usize) -> (r: (Vec<char>, usize))
    requires
        start < rows.len(),
    ensures
        (r.0@, r.1 as int) == joined(char_rows(rows@), start as int),
        r.1 <= rows.len(),
{
    let ghost all = char_rows(rows@);
    let mut buffer: Vec<char> = Vec::new();
    let mut i: usize = start;
    assert(buffer@ + joined(all, i as int).0 =~= joined(all, start as int).0);
    while i < rows.len()
        invariant
            start <= i <= rows.len(),
            all == char_rows(rows@),
            buffer@ + joined(all, i as int).0 == joined(all, start as int).0,
            joined(all, i as int).1 == joined(all, start as int).1,
        decreases rows.len() - i,
    {
        assert(all[i as int] == rows@[i as int]@);
        let stripped = strip_comment_chars(&rows[i]);
        let right = trim_end_chars(&stripped);
        let ghost before = buffer@;
        if right.len() > 0 && right[right.len() - 1] == '\\' {
            let mut chunk = range_of(&right, 0, right.len() - 1);
            assert(chunk@ =~= right@.drop_last());
            let ghost chunk_text = chunk@;
            buffer.append(&mut chunk);
            i += 1;
            assert(buffer@ + joined(all, i as int).0 =~= before + (chunk_text + joined(
                all,
                i as int,
            ).0));
        } else {
            let mut chunk = stripped;
            buffer.append(&mut chunk);
            return (buffer, i + 1);
        }
    }
    assert(buffer@ + joined(all, i as int).0 =~= buffer@);
    (buffer, i)
}

/// If the physical line is the named directive, what follows the name,
/// trimmed.
fn match_directive(row: &[char], name: &str) -> (r: Option<String>)
    ensures
        match r {
            Some(text) => directive(row@, name@) == Some(text@),
            None => directive(row@, name@) is None,
        },
{
    let head = trim_start_chars(row);
    if head.len() == 0 || head[0] != '#' {
        return None;
    }
    let after = range_of(&head, 1, head.len());
    assert(after@ =~= head@.drop_first());
    let body = trim_start_chars(&after);
    if !has_at(&body, 0, name) {
        return None;
    }
    let n: usize = name.unicode_len();
    let rest = range_of(&body, n, body.len());
    assert(rest@ =~= body@.skip(name@.len() as int));
    Some(string_of(&trim_chars(&rest)))
}

/// A physical line without its comment.
pub fn strip_comment(line: &str) -> (r: String)
    ensures
        r@ == without_comment(line@),
{
    let cs = chars_of(line);
    string_of(&strip_comment_chars(&cs))
}

/// A physical line without its comment.
fn strip_comment_chars(line: &[char]) -> (r: Vec<char>)
    ensures
        r@ == without_comment(line@),
{
    let mut i: usize = 0;
    while i < line.len() && !(line[i] == '#' && (i == 0 || is_space_char(line[i - 1])))
        invariant
            i <= line.len(),
            comment_start(line@, 0) == comment_start(line@, i as int),
        decreases line.len() - i,
    {
        i += 1;
    }
    let r = range_of(line, 0, i);
    assert(r@ =~= line@.take(i as int));
    r
}

/// The number of the physical line that a logical line starts on.
pub open spec fn line_number(l: LineView) -> int {
    match l {
        LineView::Requirement { line, text } => line,
        LineView::Matchspec { line, text } => line,
        LineView::Channels { line, text } => line,
    }
}

/// Whether the lines stand in file order, no two of them starting on the
/// same physical line.
pub open spec fn in_file_order(all: Seq<LineView>) -> bool {
    forall|i: int, j: int|
        0 <= i < j < all.len() ==> line_number(#[trigger] all[i]) < line_number(#[trigger] all[j])
}

proof fn logical_from_ordered(rows: Seq<Seq<char>>, i: int)
    requires
        0 <= i <= rows.len(),
    ensures
        in_file_order(logical_from(rows, i)),
        forall|k: int|
            0 <= k < logical_from(rows, i).len() ==> i < line_number(
                #[trigger] logical_from(rows, i)[k],
            ) <= rows.len(),
    decreases rows.len() - i,
{
    if i < rows.len() {
        let all = logical_from(rows, i);
        if directive(rows[i], MATCHSPEC_DIRECTIVE@) is Some || directive(
            rows[i],
            CHANNELS_DIRECTIVE@,
        ) is Some {
            let rest = logical_from(rows, i + 1);
            logical_from_ordered(rows, i + 1);
            assert(all =~= seq![all[0]] + rest);
            assert forall|k: int| 0 < k < all.len() implies #[trigger] all[k] == rest[k - 1] by {}
        } else {
            joined_bounds(rows, i);
            let (text, next) = joined(rows, i);
            let rest = logical_from(rows, next);
            logical_from_ordered(rows, next);
            if trim(text).len() > 0 {
                assert(all =~= seq![all[0]] + rest);
                assert forall|k: int| 0 < k < all.len() implies #[trigger] all[k] == rest[k - 1] by {}
            } else {
                assert(all == rest);
            }
        }
    }
}

/// Logical lines stand in file order, each tagged with a physical line of
/// the text.
pub proof fn logical_lines_in_file_order(text: Seq<char>)
    ensures
        in_file_order(logical_views(text)),
        forall|k: int|
            0 <= k < logical_views(text).len() ==> 1 <= line_number(
                #[trigger] logical_views(text)[k],
            ) <= lines(text).len(),
{
    logical_from_ordered(lines(text), 0);
}

/// A logical line that starts so many physical lines later.
pub open spec fn later(l: LineView, by: int) -> LineView {
    match l {
        LineView::Requirement { line, text } => LineView::Requirement { line: line + by, text },
        LineView::Matchspec { line, text } => LineView::Matchspec { line: line + by, text },
        LineView::Channels { line, text } => LineView::Channels { line: line + by, text },
    }
}

/// Logical lines that start so many physical lines later.
pub open spec fn all_later(all: Seq<LineView>, by: int) -> Seq<LineView> {
    all.map_values(|l: LineView| later(l, by))
}

proof fn joined_in_front(a: Seq<Seq<char>>, b: Seq<Seq<char>>, i: int)
    requires
        0 <= i < a.len(),
        continued(a.last()) is None,
    ensures
        joined(a + b, i) == joined(a, i),
    decreases a.len() - i,
{
    assert((a + b)[i] == a[i]);
    if i + 1 < a.len() {
        joined_in_front(a, b, i + 1);
    }
}

proof fn joined_behind(a: Seq<Seq<char>>, b: Seq<Seq<char>>, i: int)
    requires
        0 <= i <= b.len(),
    ensures
        joined(a + b, a.len() + i) == (joined(b, i).0, joined(b, i).1 + a.len()),
    decreases b.len() - i,
{
    if i < b.len() {
        assert((a + b)[a.len() + i] == b[i]);
        joined_behind(a, b, i + 1);
    }
}

proof fn logical_in_front(a: Seq<Seq<char>>, b: Seq<Seq<char>>, i: int)
    requires
        0 <= i <= a.len(),
        a.len() > 0 ==> continued(a.last()) is None,
    ensures
        logical_from(a + b, i) == logical_from(a, i) + logical_from(a + b, a.len() as int),
    decreases a.len() - i,
{
    let rest = logical_from(a + b, a.len() as int);
    if i == a.len() {
        assert(logical_from(a, i) + rest =~= rest);
    } else {
        assert((a + b)[i] == a[i]);
        if directive(a[i], MATCHSPEC_DIRECTIVE@) is Some || directive(
            a[i],
            CHANNELS_DIRECTIVE@,
        ) is Some {
            logical_in_front(a, b, i + 1);
        } else {
            joined_in_front(a, b, i);
            joined_bounds(a, i);
            logical_in_front(a, b, joined(a, i).1);
        }
        assert(logical_from(a + b, i) =~= logical_from(a, i) + rest);
    }
}

proof fn logical_behind(a: Seq<Seq<char>>, b: Seq<Seq<char>>, i: int)
    requires
        0 <= i <= b.len(),
    ensures
        logical_from(a + b, a.len() + i) == all_later(logical_from(b, i), a.len() as int),
    decreases b.len() - i,
{
    if i < b.len() {
        assert((a + b)[a.len() + i] == b[i]);
        if directive(b[i], MATCHSPEC_DIRECTIVE@) is Some || directive(
            b[i],
            CHANNELS_DIRECTIVE@,
        ) is Some {
            logical_behind(a, b, i + 1);
        } else {
            joined_behind(a, b, i);
            joined_bounds(b, i);
            logical_behind(a, b, joined(b, i).1);
        }
    }
    assert(logical_from(a + b, a.len() + i) =~= all_later(logical_from(b, i), a.len() as int));
}

/// The logical lines of two texts put together are those of the one and then
/// those of the other, which start as many physical lines later as the first
/// has, where the first ends in a newline and its last line is not continued.
pub proof fn logical_lines_append(a: Seq<char>, b: Seq<char>)
    requires
        a.len() == 0 || a.last() == '\n',
        lines(a).len() > 0 ==> continued(lines(a).last()) is None,
    ensures
        logical_views(a + b) == logical_views(a) + all_later(
            logical_views(b),
            lines(a).len() as int,
        ),
{
    lines_append(a, b);
    logical_in_front(lines(a), lines(b), 0);
    logical_behind(lines(a), lines(b), 0);
}

proof fn comment_start_is_first(line: Seq<char>, i: int)
    requires
        0 <= i <= line.len(),
    ensures
        ({
            let n = comment_start(line, i);
            &&& i <= n <= line.len()
            &&& n < line.len() ==> line[n] == '#' && (n == 0 || is_space(line[n - 1]))
            &&& forall|k: int|
                i <= k < n ==> !(#[trigger] line[k] == '#' && (k == 0 || is_space(line[k - 1])))
        }),
    decreases line.len() - i,
{
    if i < line.len() && !(line[i] == '#' && comment_may_start(line, i)) {
        comment_start_is_first(line, i + 1);
    }
}

/// A comment starts at the first `#` that starts the line or follows white
/// space; what stands before it stays as it is.
pub proof fn comments_start_after_white_space(line: Seq<char>)
    ensures
        exists|n: int|
            #![trigger line.take(n)]
            0 <= n <= line.len() && without_comment(line) == line.take(n) && (n < line.len()
                ==> line[n] == '#' && (n == 0 || is_space(line[n - 1]))) && forall|k: int|
                0 <= k < n ==> !(#[trigger] line[k] == '#' && (k == 0 || is_space(line[k - 1]))),
{
    comment_start_is_first(line, 0);
    let n = comment_start(line, 0);
    assert(without_comment(line) == line.take(n));
}

/// A line is continued exactly where a backslash ends what is left of it
/// without its comment and the white space behind; it adds what stands
/// before that.
pub proof fn continuation_ends_in_a_backslash(line: Seq<char>)
    ensures
        ({
            let t = trim_end(without_comment(line));
            match continued(line) {
                Some(chunk) => t == chunk.push('\\'),
                None => t.len() == 0 || t.last() != '\\',
            }
        }),
{
    let t = trim_end(without_comment(line));
    if continued(line) is Some {
        assert(t =~= t.drop_last().push('\\'));
    }
}

/// Continued lines are joined without anything between them, up to and with
/// the first that is not continued.
pub proof fn continued_lines_are_joined(rows: Seq<Seq<char>>, i: int)
    requires
        0 <= i < rows.len(),
    ensures
        continued(rows[i]) is None ==> joined(rows, i) == (without_comment(rows[i]), i + 1),
        continued(rows[i]) is Some && i + 1 < rows.len() ==> joined(rows, i) == (
            continued(rows[i])->0 + joined(rows, i + 1).0,
            joined(rows, i + 1).1,
        ),
        continued(rows[i]) is Some && i + 1 == rows.len() ==> joined(rows, i) == (
            continued(rows[i])->0,
            i + 1,
        ),
{
    if continued(rows[i]) is Some && i + 1 == rows.len() {
        assert(continued(rows[i])->0 + joined(rows, i + 1).0 =~= continued(rows[i])->0);
    }
}

/// A directive is `#`, perhaps behind white space, then perhaps white space
/// and the name; what follows the name, trimmed, is its text.
pub proof fn directives_are_recognized(
    before: Seq<char>,
    between: Seq<char>,
    name: Seq<char>,
    rest: Seq<char>,
)
    requires
        forall|i: int| 0 <= i < before.len() ==> is_space(#[trigger] before[i]),
        forall|i: int| 0 <= i < between.len() ==> is_space(#[trigger] between[i]),
        name.len() > 0,
        !is_space(name[0]),
    ensures
        directive(before + seq!['#'] + between + name + rest, name) == Some(trim(rest)),
{
    let tail = between + name + rest;
    let row = before + seq!['#'] + between + name + rest;
    assert(row =~= before + (seq!['#'] + tail));
    crate::text::leading_space_is_trimmed(before, seq!['#'] + tail);
    assert((seq!['#'] + tail).drop_first() =~= tail);
    assert(tail =~= between + (name + rest));
    crate::text::leading_space_is_trimmed(between, name + rest);
    assert((name + rest)[0] == name[0]);
    assert((name + rest).subrange(0, name.len() as int) =~= name);
    assert((name + rest).skip(name.len() as int) =~= rest);
}

/// Each line gives what it is, at its number: a directive its text; any
/// other, joined with those that continue it, a requirement, unless nothing
/// but white space and comments is left of it. What follows is read on from
/// there.
pub proof fn lines_are_read_in_turn(rows: Seq<Seq<char>>, i: int)
    requires
        0 <= i < rows.len(),
    ensures
        ({
            let spec = directive(rows[i], "ana-matchspec:"@);
            let channels = directive(rows[i], "ana-channels:"@);
            let (text, next) = joined(rows, i);
            &&& spec is Some ==> logical_from(rows, i) == seq![
                LineView::Matchspec { line: i + 1, text: spec->0 },
            ] + logical_from(rows, i + 1)
            &&& spec is None && channels is Some ==> logical_from(rows, i) == seq![
                LineView::Channels { line: i + 1, text: channels->0 },
            ] + logical_from(rows, i + 1)
            &&& spec is None && channels is None && (exists|k: int|
                0 <= k < text.len() && !is_space(#[trigger] text[k])) ==> logical_from(rows, i)
                == seq![LineView::Requirement { line: i + 1, text: trim(text) }] + logical_from(
                rows,
                next,
            )
            &&& spec is None && channels is None && (forall|k: int|
                0 <= k < text.len() ==> is_space(#[trigger] text[k])) ==> logical_from(rows, i)
                == logical_from(rows, next)
        }),
{
    joined_bounds(rows, i);
    crate::text::trim_is_the_middle(joined(rows, i).0);
}

} // verus!
