//! Locating the raw content of a script metadata block in a Python source
//! file: a `# /// <type>` header line, one or more `#` or `# `-prefixed
//! content lines, and a closing `# ///` line, each matched exactly.

use crate::text::{
    begins, char_rows, chars_of, has_at, is_alnum, is_alnum_char, lines, lines_of, range_of, same_chars,
    string_of_range,
};
use vstd::prelude::*;
use vstd::string::*;

verus! {

/// A second `# /// script` block was found; at most one is permitted.
#[derive(Debug, Clone, Copy, PartialEq, Eq)]
pub struct MultipleBlocks;

/// The type a header line names: `# /// ` followed by one or more letters,
/// digits or hyphens, and nothing else.
pub open spec fn header_type(line: Seq<char>) -> Option<Seq<char>> {
    let rest = line.skip("# /// "@.len() as int);
    if begins(line, "# /// "@) && rest.len() > 0 && forall|i: int|
        0 <= i < rest.len() ==> is_alnum(#[trigger] rest[i]) || rest[i] == '-' {
        Some(rest)
    } else {
        None
    }
}

/// A content line is exactly `#`, or `# ` followed by anything.
pub open spec fn is_content(line: Seq<char>) -> bool {
    line == "#"@ || begins(line, "# "@)
}

/// A content line without its comment marker.
pub open spec fn uncommented(line: Seq<char>) -> Seq<char> {
    if begins(line, "# "@) {
        line.skip(2)
    } else {
        line.skip(1)
    }
}

/// The first position from `j` on whose line closes a block or is no
/// content line.
pub open spec fn content_end(lines: Seq<Seq<char>>, j: int) -> int
    decreases lines.len() - j,
{
    if 0 <= j < lines.len() && lines[j] != "# ///"@ && is_content(lines[j]) {
        content_end(lines, j + 1)
    } else {
        j
    }
}

/// The uncommented lines from `from` up to `to`, each ended by a newline.
pub open spec fn content_text(lines: Seq<Seq<char>>, from: int, to: int) -> Seq<char>
    decreases to - from,
{
    if from >= to {
        Seq::empty()
    } else {
        content_text(lines, from, to - 1) + uncommented(lines[to - 1]).push('\n')
    }
}

/// The block whose content starts at `start`: its content and the position
/// just past its closing line. There is none where the content is empty or
/// where it ends before a closing line.
pub open spec fn block_at(lines: Seq<Seq<char>>, start: int) -> Option<(Seq<char>, int)> {
    let end = content_end(lines, start);
    if start < end < lines.len() && lines[end] == "# ///"@ {
        Some((content_text(lines, start, end), end + 1))
    } else {
        None
    }
}

/// Whether one of the lines from `from` up to `to` is a header.
pub open spec fn has_header(lines: Seq<Seq<char>>, from: int, to: int) -> bool {
    exists|k: int| from <= k < to && header_type(#[trigger] lines[k]) is Some
}

/// The content of every `script` block from line `i` on, in order. Blocks
/// of another type are skipped whole; a header without a block, or with
/// another header before the next close, is skipped alone.
pub open spec fn script_contents(lines: Seq<Seq<char>>, i: int) -> Seq<Seq<char>>
    decreases lines.len() - i,
{
    if i < 0 || i >= lines.len() {
        Seq::empty()
    } else {
        match (header_type(lines[i]), block_at(lines, i + 1)) {
            (Some(kind), Some((content, next))) => if next <= i || has_header(
                lines,
                i + 1,
                next - 1,
            ) {
                script_contents(lines, i + 1)
            } else {
                let rest = script_contents(lines, next);
                if kind == "script"@ {
                    seq![content] + rest
                } else {
                    rest
                }
            },
            _ => script_contents(lines, i + 1),
        }
    }
}

/// What [`extract_script_block`] returns for a source with the given
/// script blocks.
pub open spec fn only_block(contents: Seq<Seq<char>>) -> Result<Option<Seq<char>>, MultipleBlocks> {
    if contents.len() == 0 {
        Ok(None)
    } else if contents.len() == 1 {
        Ok(Some(contents[0]))
    } else {
        Err(MultipleBlocks)
    }
}

/// The view of an extraction result.
pub open spec fn extraction(r: Result<Option<String>, MultipleBlocks>) -> Result<
    Option<Seq<char>>,
    MultipleBlocks,
> {
    match r {
        Ok(Some(s)) => Ok(Some(s@)),
        Ok(None) => Ok(None),
        Err(e) => Err(e),
    }
}

proof fn content_end_bounds(lines: Seq<Seq<char>>, j: int)
    requires
        0 <= j <= lines.len(),
    ensures
        j <= content_end(lines, j) <= lines.len(),
    decreases lines.len() - j,
{
    if j < lines.len() {
        content_end_bounds(lines, j + 1);
    }
}

/// The uncommented content of the only `# /// script ... # ///` block of
/// `source`, or `None` if it has none. A header without a matching close,
/// or followed by a line that is no content line, starts no block. Nor does
/// one with another header before the next close: that close belongs to the
/// later header. A block of another type is skipped whole. `Err` exactly
/// where there is a second `script` block.
pub fn extract_script_block(source: &str) -> (r: Result<Option<String>, MultipleBlocks>)
    ensures
        extraction(r) == only_block(script_contents(lines(source@), 0)),
{
    let rows = lines_of(source);
    let ghost all = char_rows(rows@);
    let mut found: Option<String> = None;
    let mut i: usize = 0;
    let ghost mut seen: Seq<Seq<char>> = Seq::empty();
    assert(seen + script_contents(all, 0) =~= script_contents(all, 0));
    while i < rows.len()
        invariant
            i <= rows.len(),
            all == char_rows(rows@),
            all == lines(source@),
            script_contents(all, 0) == seen + script_contents(all, i as int),
            match found {
                Some(s) => seen == seq![s@],
                None => seen == Seq::<Seq<char>>::empty(),
            },
        decreases rows.len() - i,
    {
        assert(all[i as int] == rows@[i as int]@);
        let kind = match header_type_of(&rows[i]) {
            Some(kind) => kind,
            None => {
                i += 1;
                continue;
            },
        };
        let (content, next) = match read_block_content(&rows, i + 1) {
            Some(block) => block,
            None => {
                i += 1;
                continue;
            },
        };
        proof {
            content_end_bounds(all, i + 1);
        }
        if holds_header(&rows, i + 1, next - 1) {
            i += 1;
            continue;
        }
        let script = chars_of("script");
        if same_chars(&kind, &script) {
            let ghost rest = script_contents(all, next as int);
            assert(seen + (seq![content@] + rest) =~= (seen + seq![content@]) + rest);
            if found.is_some() {
                return Err(MultipleBlocks);
            }
            proof {
                seen = seen + seq![content@];
                assert(seen =~= seq![content@]);
            }
            found = Some(content);
        }
        i = next;
    }
    assert(seen + script_contents(all, i as int) =~= seen);
    Ok(found)
}

/// The type that a header line names, if `line` is one.
fn header_type_of(line: &[char]) -> (r: Option<Vec<char>>)
    ensures
        match r {
            Some(kind) => header_type(line@) == Some(kind@),
            None => header_type(line@) is None,
        },
{
    proof {
        reveal_strlit("# /// ");
    }
    if !has_at(line, 0, "# /// ") {
        return None;
    }
    let rest = range_of(line, 6, line.len());
    assert(rest@ =~= line@.skip(6));
    if rest.len() == 0 {
        return None;
    }
    let mut i: usize = 0;
    while i < rest.len()
        invariant
            i <= rest.len(),
            rest@ == line@.skip("# /// "@.len() as int),
            forall|k: int| 0 <= k < i ==> is_alnum(#[trigger] rest@[k]) || rest@[k] == '-',
        decreases rest.len() - i,
    {
        if !is_alnum_char(rest[i]) && rest[i] != '-' {
            assert(!is_alnum(rest@[i as int]));
            return None;
        }
        i += 1;
    }
    Some(rest)
}

/// Whether one of the lines from `from` up to `to` is a header.
fn holds_header(rows: &Vec<Vec<char>>, from: usize, to: usize) -> (r: bool)
    requires
        from <= to <= rows.len(),
    ensures
        r == has_header(char_rows(rows@), from as int, to as int),
{
    let ghost all = char_rows(rows@);
    let mut k: usize = from;
    while k < to
        invariant
            from <= k <= to <= rows.len(),
            all == char_rows(rows@),
            forall|j: int| from <= j < k ==> header_type(#[trigger] all[j]) is None,
        decreases to - k,
    {
        assert(all[k as int] == rows@[k as int]@);
        if header_type_of(&rows[k]).is_some() {
            assert(header_type(all[k as int]) is Some);
            return true;
        }
        k += 1;
    }
    false
}

/// Whether `line` is a content line.
fn is_content_line(line: &[char]) -> (r: bool)
    ensures
        r == is_content(line@),
{
    let hash = chars_of("#");
    same_chars(line, &hash) || has_at(line, 0, "# ")
}

/// Reads the content lines from `start` on, up to and with a closing line.
fn read_block_content(rows: &Vec<Vec<char>>, start: usize) -> (r: Option<(String, usize)>)
    requires
        start <= rows.len(),
    ensures
        match r {
            Some((content, next)) => block_at(char_rows(rows@), start as int) == Some(
                (content@, next as int),
            ) && next <= rows.len(),
            None => block_at(char_rows(rows@), start as int) is None,
        },
{
    let ghost all = char_rows(rows@);
    let mut content = String::new();
    let mut j: usize = start;
    let close = chars_of("# ///");
    proof {
        reveal_strlit("#");
        reveal_strlit("# ");
        reveal_strlit("# ///");
    }
    while j < rows.len()
        invariant
            start <= j <= rows.len(),
            all == char_rows(rows@),
            close@ == "# ///"@,
            "# "@.len() == 2,
            "#"@.len() == 1,
            content_end(all, start as int) == content_end(all, j as int),
            content@ == content_text(all, start as int, j as int),
        decreases rows.len() - j,
    {
        assert(all[j as int] == rows@[j as int]@);
        let line = &rows[j];
        if same_chars(line, &close) {
            if j == start {
                return None;
            }
            return Some((content, j + 1));
        }
        if is_content_line(line) {
            let from: usize = if has_at(line, 0, "# ") {
                2
            } else {
                1
            };
            let body = string_of_range(line, from, line.len());
            assert(body@ =~= uncommented(line@));
            content.append(body.as_str());
            content.push('\n');
            assert(content@ =~= content_text(all, start as int, j as int) + uncommented(
                all[j as int],
            ).push('\n'));
            j += 1;
        } else {
            return None;
        }
    }
    None
}

/// The close of a block never closes an earlier header: a header with
/// another one before the next close adds nothing to what follows it.
pub proof fn close_belongs_to_the_last_header(lines: Seq<Seq<char>>, i: int, k: int)
    requires
        0 <= i < k < content_end(lines, i + 1),
        header_type(lines[k]) is Some,
    ensures
        script_contents(lines, i) == script_contents(lines, i + 1),
{
    if let Some((_, next)) = block_at(lines, i + 1) {
        assert(has_header(lines, i + 1, next - 1));
    }
}

proof fn content_runs_to_the_close(lines: Seq<Seq<char>>, from: int, to: int)
    requires
        0 <= from <= to < lines.len(),
        lines[to] == "# ///"@,
        forall|i: int|
            from <= i < to ==> #[trigger] lines[i] != "# ///"@ && (lines[i] == "#"@ || "# "@.is_prefix_of(
                lines[i],
            )),
    ensures
        content_end(lines, from) == to,
    decreases to - from,
{
    if from < to {
        crate::text::prefix_is_begin(lines[from], "# "@);
        content_runs_to_the_close(lines, from + 1, to);
    }
}

/// Lines between the line `# /// script` and the line `# ///`, each of them
/// `#` or starting with `# ` and none a header, are a script block: what
/// follows its close is looked at next, and nothing before it is part of it.
pub proof fn block_is_found(lines: Seq<Seq<char>>, i: int, to: int)
    requires
        0 <= i,
        i + 1 < to < lines.len(),
        lines[i] == "# /// script"@,
        lines[to] == "# ///"@,
        forall|k: int|
            i < k < to ==> #[trigger] lines[k] != "# ///"@ && (lines[k] == "#"@ || "# "@.is_prefix_of(
                lines[k],
            )) && header_type(lines[k]) is None,
    ensures
        script_contents(lines, i) == seq![content_text(lines, i + 1, to)] + script_contents(
            lines,
            to + 1,
        ),
{
    reveal_strlit("# /// ");
    reveal_strlit("# /// script");
    reveal_strlit("script");
    content_runs_to_the_close(lines, i + 1, to);
    let line = lines[i];
    crate::text::prefix_is_begin(line, "# /// "@);
    assert("# /// "@.is_prefix_of(line));
    assert(line.skip(6) =~= "script"@);
    assert(header_type(line) == Some("script"@));
    assert(!has_header(lines, i + 1, to));
}

/// The content of a block is its lines in order, each without its leading
/// `#` and the space behind that if there is one, and each ended by a
/// newline.
pub proof fn content_is_uncommented(lines: Seq<Seq<char>>, from: int, to: int, rest: Seq<char>)
    requires
        0 <= from <= to < lines.len(),
    ensures
        content_text(lines, from, from).len() == 0,
        lines[to] == "#"@ ==> content_text(lines, from, to + 1) == content_text(lines, from, to)
            + seq!['\n'],
        lines[to] == "# "@ + rest ==> content_text(lines, from, to + 1) == content_text(
            lines,
            from,
            to,
        ) + rest + seq!['\n'],
{
    reveal_strlit("#");
    reveal_strlit("# ");
    let line = lines[to];
    crate::text::prefix_is_begin(line, "# "@);
    if line == "#"@ {
        assert(!"# "@.is_prefix_of(line));
        assert(uncommented(line) =~= Seq::empty());
        assert(Seq::<char>::empty().push('\n') =~= seq!['\n']);
    }
    if line == "# "@ + rest {
        assert("# "@.is_prefix_of(line));
        assert(uncommented(line) =~= rest);
        assert(content_text(lines, from, to) + rest.push('\n') =~= content_text(lines, from, to)
            + rest + seq!['\n']);
    }
}

/// A line that is no header starts no block.
pub proof fn other_lines_start_no_block(lines: Seq<Seq<char>>, i: int)
    requires
        0 <= i < lines.len(),
        !"# /// "@.is_prefix_of(lines[i]) || lines[i].len() == "# /// "@.len() || exists|k: int|
            "# /// "@.len() <= k < lines[i].len() && !('a' <= #[trigger] lines[i][k] <= 'z' || 'A'
                <= lines[i][k] <= 'Z' || '0' <= lines[i][k] <= '9' || lines[i][k] == '-'),
    ensures
        script_contents(lines, i) == script_contents(lines, i + 1),
        header_type(lines[i]) is None,
{
    let line = lines[i];
    let n = "# /// "@.len() as int;
    crate::text::prefix_is_begin(line, "# /// "@);
    if header_type(line) is Some {
        let rest = line.skip(n);
        if exists|k: int|
            n <= k < line.len() && !('a' <= #[trigger] line[k] <= 'z' || 'A' <= line[k] <= 'Z' || '0'
                <= line[k] <= '9' || line[k] == '-') {
            let k = choose|k: int|
                n <= k < line.len() && !('a' <= #[trigger] line[k] <= 'z' || 'A' <= line[k] <= 'Z'
                    || '0' <= line[k] <= '9' || line[k] == '-');
            assert(rest[k - n] == line[k]);
        }
    }
}

/// A source is refused exactly where it has more than one script block; the
/// content of the only one is what is extracted, and nothing where there is
/// none.
pub proof fn one_block_is_extracted(contents: Seq<Seq<char>>)
    ensures
        only_block(contents) is Err <==> contents.len() >= 2,
        contents.len() == 0 ==> only_block(contents) == Ok::<
            Option<Seq<char>>,
            MultipleBlocks,
        >(None),
        contents.len() == 1 ==> only_block(contents) == Ok::<Option<Seq<char>>, MultipleBlocks>(
            Some(contents[0]),
        ),
{
}

proof fn kind_is_named(kind: Seq<char>)
    requires
        kind.len() > 0,
        forall|k: int|
            0 <= k < kind.len() ==> 'a' <= #[trigger] kind[k] <= 'z' || 'A' <= kind[k] <= 'Z' || '0'
                <= kind[k] <= '9' || kind[k] == '-',
    ensures
        header_type("# /// "@ + kind) == Some(kind),
{
    let line = "# /// "@ + kind;
    let n = "# /// "@.len() as int;
    crate::text::prefix_is_begin(line, "# /// "@);
    assert("# /// "@.is_prefix_of(line));
    assert(line.skip(n) =~= kind);
}

/// A block of another kind is skipped whole: what looks like a script block
/// inside it is none.
pub proof fn other_block_is_skipped(
    lines: Seq<Seq<char>>,
    i: int,
    to: int,
    kind: Seq<char>,
)
    requires
        0 <= i,
        i + 1 < to < lines.len(),
        lines[i] == "# /// "@ + kind,
        kind.len() > 0,
        kind != "script"@,
        forall|k: int|
            0 <= k < kind.len() ==> 'a' <= #[trigger] kind[k] <= 'z' || 'A' <= kind[k] <= 'Z' || '0'
                <= kind[k] <= '9' || kind[k] == '-',
        lines[to] == "# ///"@,
        forall|k: int|
            i < k < to ==> #[trigger] lines[k] != "# ///"@ && (lines[k] == "#"@ || "# "@.is_prefix_of(
                lines[k],
            )) && header_type(lines[k]) is None,
    ensures
        script_contents(lines, i) == script_contents(lines, to + 1),
{
    kind_is_named(kind);
    content_runs_to_the_close(lines, i + 1, to);
    assert(!has_header(lines, i + 1, to));
}

proof fn content_runs_to_a_stop(lines: Seq<Seq<char>>, from: int, to: int)
    requires
        0 <= from <= to <= lines.len(),
        to < lines.len() ==> lines[to] != "#"@ && !"# "@.is_prefix_of(lines[to]),
        forall|i: int|
            from <= i < to ==> #[trigger] lines[i] != "# ///"@ && (lines[i] == "#"@ || "# "@.is_prefix_of(
                lines[i],
            )),
    ensures
        content_end(lines, from) == to,
    decreases to - from,
{
    if from < to {
        crate::text::prefix_is_begin(lines[from], "# "@);
        content_runs_to_a_stop(lines, from + 1, to);
    } else if to < lines.len() {
        crate::text::prefix_is_begin(lines[to], "# "@);
    }
}

/// A header starts no block where no content follows it, where what follows
/// stops before it is closed, or where another header stands in it.
pub proof fn header_alone_is_skipped(lines: Seq<Seq<char>>, i: int, to: int)
    requires
        0 <= i < to <= lines.len(),
        forall|k: int|
            i < k < to ==> #[trigger] lines[k] != "# ///"@ && (lines[k] == "#"@ || "# "@.is_prefix_of(
                lines[k],
            )),
        ({
            ||| to == lines.len()
            ||| lines[to] != "#"@ && !"# "@.is_prefix_of(lines[to])
            ||| lines[to] == "# ///"@ && (to == i + 1 || exists|k: int|
                i < k < to && header_type(#[trigger] lines[k]) is Some)
        }),
    ensures
        script_contents(lines, i) == script_contents(lines, i + 1),
{
    reveal_strlit("# ///");
    reveal_strlit("# ");
    if to < lines.len() && lines[to] == "# ///"@ {
        content_runs_to_the_close(lines, i + 1, to);
        if to > i + 1 {
            assert("# "@.is_prefix_of(lines[to]));
            let k = choose|k: int| i < k < to && header_type(#[trigger] lines[k]) is Some;
            assert(has_header(lines, i + 1, to));
        }
    } else {
        content_runs_to_a_stop(lines, i + 1, to);
    }
}

} // verus!
