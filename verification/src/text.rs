//! Text as sequences of characters: trimming, splitting, searching,
//! ordering and decimal rendering, each with an exact specification.

use vstd::prelude::*;
use vstd::string::*;

verus! {

/// `String::push`: appends one character at the end.
pub assume_specification[ String::push ](s: &mut String, c: char)
    ensures
        final(s)@ == old(s)@.push(c),
;

/// The Unicode `White_Space` characters.
pub open spec fn is_space(c: char) -> bool {
    ||| '\u{9}' <= c <= '\u{d}'
    ||| c == ' '
    ||| c == '\u{85}'
    ||| c == '\u{a0}'
    ||| c == '\u{1680}'
    ||| '\u{2000}' <= c <= '\u{200a}'
    ||| c == '\u{2028}'
    ||| c == '\u{2029}'
    ||| c == '\u{202f}'
    ||| c == '\u{205f}'
    ||| c == '\u{3000}'
}

/// Whether `c` is a Unicode white-space character.
pub fn is_space_char(c: char) -> (r: bool)
    ensures
        r == is_space(c),
{
    ('\u{9}' <= c && c <= '\u{d}') || c == ' ' || c == '\u{85}' || c == '\u{a0}' || c == '\u{1680}'
        || ('\u{2000}' <= c && c <= '\u{200a}') || c == '\u{2028}' || c == '\u{2029}' || c
        == '\u{202f}' || c == '\u{205f}' || c == '\u{3000}'
}

/// ASCII letters and digits.
pub open spec fn is_alnum(c: char) -> bool {
    'a' <= c <= 'z' || 'A' <= c <= 'Z' || '0' <= c <= '9'
}

/// Whether `c` is an ASCII letter or digit.
pub fn is_alnum_char(c: char) -> (r: bool)
    ensures
        r == is_alnum(c),
{
    ('a' <= c && c <= 'z') || ('A' <= c && c <= 'Z') || ('0' <= c && c <= '9')
}

/// `c` with an ASCII capital replaced by its small letter.
pub open spec fn lower(c: char) -> char {
    if 'A' <= c <= 'Z' {
        ((c as u32) + 32) as u8 as char
    } else {
        c
    }
}

/// `c` with an ASCII capital replaced by its small letter.
pub fn lower_char(c: char) -> (r: char)
    ensures
        r == lower(c),
{
    if 'A' <= c && c <= 'Z' {
        ((c as u32) + 32) as u8 as char
    } else {
        c
    }
}

/// Every character of `s` with its ASCII capitals made small.
pub open spec fn lower_all(s: Seq<char>) -> Seq<char> {
    s.map_values(|c: char| lower(c))
}

/// The characters of a string.
pub fn chars_of(s: &str) -> (r: Vec<char>)
    ensures
        r@ == s@,
{
    let mut out: Vec<char> = Vec::new();
    let mut it = s.chars();
    loop
        invariant_except_break
            out@ + vstd::std_specs::iter::IteratorSpec::remaining(&it) == s@,
            vstd::std_specs::iter::IteratorSpec::obeys_prophetic_iter_laws(&it),
            vstd::std_specs::iter::IteratorSpec::decrease(&it) is Some,
        ensures
            out@ == s@,
        decreases vstd::std_specs::iter::IteratorSpec::decrease(&it)->0,
    {
        match it.next() {
            Some(c) => {
                out.push(c);
                assert(out@ + vstd::std_specs::iter::IteratorSpec::remaining(&it) =~= s@);
            },
            None => {
                assert(out@ =~= s@);
                break;
            },
        }
    }
    out
}

/// The string made of the given characters.
pub fn string_of(cs: &[char]) -> (r: String)
    ensures
        r@ == cs@,
{
    let mut out = String::new();
    let mut i: usize = 0;
    while i < cs.len()
        invariant
            i <= cs.len(),
            out@ == cs@.take(i as int),
        decreases cs.len() - i,
    {
        out.push(cs[i]);
        i += 1;
        assert(cs@.take(i as int) =~= cs@.take(i - 1).push(cs@[i - 1]));
    }
    assert(cs@.take(i as int) =~= cs@);
    out
}

/// The string made of the characters from index `from` up to `to`.
pub fn string_of_range(cs: &[char], from: usize, to: usize) -> (r: String)
    requires
        from <= to <= cs.len(),
    ensures
        r@ == cs@.subrange(from as int, to as int),
{
    let mut out = String::new();
    let mut i: usize = from;
    while i < to
        invariant
            from <= i <= to <= cs.len(),
            out@ == cs@.subrange(from as int, i as int),
        decreases to - i,
    {
        out.push(cs[i]);
        i += 1;
        assert(cs@.subrange(from as int, i as int) =~= cs@.subrange(from as int, i - 1).push(
            cs@[i - 1],
        ));
    }
    out
}

/// The characters from index `from` up to `to`.
pub fn range_of(cs: &[char], from: usize, to: usize) -> (r: Vec<char>)
    requires
        from <= to <= cs.len(),
    ensures
        r@ == cs@.subrange(from as int, to as int),
{
    let mut out: Vec<char> = Vec::new();
    let mut i: usize = from;
    while i < to
        invariant
            from <= i <= to <= cs.len(),
            out@ == cs@.subrange(from as int, i as int),
        decreases to - i,
    {
        out.push(cs[i]);
        i += 1;
        assert(cs@.subrange(from as int, i as int) =~= cs@.subrange(from as int, i - 1).push(
            cs@[i - 1],
        ));
    }
    out
}

/// Whether two strings hold the same characters.
pub fn same(a: &str, b: &str) -> (r: bool)
    ensures
        r == (a@ == b@),
{
    let x = chars_of(a);
    let y = chars_of(b);
    same_chars(&x, &y)
}

/// Whether two slices hold the same characters.
pub fn same_chars(a: &[char], b: &[char]) -> (r: bool)
    ensures
        r == (a@ == b@),
{
    if a.len() != b.len() {
        return false;
    }
    let mut i: usize = 0;
    while i < a.len()
        invariant
            i <= a.len(),
            a.len() == b.len(),
            forall|k: int| 0 <= k < i ==> a@[k] == b@[k],
        decreases a.len() - i,
    {
        if a[i] != b[i] {
            return false;
        }
        i += 1;
    }
    assert(a@ =~= b@);
    true
}

/// Whether `s` holds `p` at position `at`.
pub open spec fn holds_at(s: Seq<char>, at: int, p: Seq<char>) -> bool {
    0 <= at && at + p.len() <= s.len() && s.subrange(at, at + p.len()) == p
}

/// Whether `cs` holds `p` at position `at`.
pub fn has_at(cs: &[char], at: usize, p: &str) -> (r: bool)
    ensures
        r == holds_at(cs@, at as int, p@),
{
    let pat = chars_of(p);
    if at > cs.len() || pat.len() > cs.len() - at {
        return false;
    }
    let mut i: usize = 0;
    while i < pat.len()
        invariant
            i <= pat.len(),
            pat@ == p@,
            at + pat.len() <= cs.len(),
            forall|k: int| 0 <= k < i ==> cs@[at + k] == p@[k],
        decreases pat.len() - i,
    {
        if cs[at + i] != pat[i] {
            assert(cs@.subrange(at as int, at + p@.len())[i as int] == cs@[at + i]);
            return false;
        }
        i += 1;
    }
    assert(cs@.subrange(at as int, at + p@.len()) =~= p@);
    true
}

/// Whether `s` begins with `p`.
pub open spec fn begins(s: Seq<char>, p: Seq<char>) -> bool {
    holds_at(s, 0, p)
}

/// Whether `s` holds `p` anywhere.
pub open spec fn contains(s: Seq<char>, p: Seq<char>) -> bool {
    exists|at: int| holds_at(s, at, p)
}

/// Whether `cs` holds `p` anywhere.
pub fn has(cs: &[char], p: &str) -> (r: bool)
    ensures
        r == contains(cs@, p@),
{
    let mut at: usize = 0;
    while at < cs.len()
        invariant
            at <= cs.len(),
            forall|k: int| 0 <= k < at ==> !holds_at(cs@, k, p@),
        decreases cs.len() - at,
    {
        if has_at(cs, at, p) {
            return true;
        }
        at += 1;
    }
    let r = has_at(cs, at, p);
    assert forall|k: int| !r implies !holds_at(cs@, k, p@) by {
        if k > at {
        }
    }
    r
}

/// Where `c` first stands in `s`; the length of `s` where it does not.
pub open spec fn first_of(s: Seq<char>, c: char) -> int
    decreases s.len(),
{
    if s.len() == 0 || s[0] == c {
        0
    } else {
        1 + first_of(s.drop_first(), c)
    }
}

/// What stands in `s` from the first `c` on.
pub open spec fn from_first(s: Seq<char>, c: char) -> Seq<char> {
    s.skip(first_of(s, c))
}

/// A character first stands no later than where it stands.
pub proof fn first_of_bound(s: Seq<char>, c: char, i: int)
    requires
        0 <= i < s.len(),
        s[i] == c,
    ensures
        0 <= first_of(s, c) <= i,
    decreases s.len(),
{
    if s[0] != c {
        assert(s.drop_first()[i - 1] == c);
        first_of_bound(s.drop_first(), c, i - 1);
    }
}

/// Where `c` first stands in `cs`; the length of `cs` where it does not.
pub fn first_index(cs: &[char], c: char) -> (r: usize)
    ensures
        r == first_of(cs@, c),
        r <= cs@.len(),
{
    let mut i: usize = 0;
    assert(cs@.skip(0) =~= cs@);
    while i < cs.len() && cs[i] != c
        invariant
            i <= cs.len(),
            first_of(cs@, c) == i + first_of(cs@.skip(i as int), c),
        decreases cs.len() - i,
    {
        assert(cs@.skip(i as int).drop_first() =~= cs@.skip(i + 1));
        i += 1;
    }
    i
}

/// `s` without its leading white space.
pub open spec fn trim_start(s: Seq<char>) -> Seq<char>
    decreases s.len(),
{
    if s.len() > 0 && is_space(s[0]) {
        trim_start(s.drop_first())
    } else {
        s
    }
}

/// `s` without its trailing white space.
pub open spec fn trim_end(s: Seq<char>) -> Seq<char>
    decreases s.len(),
{
    if s.len() > 0 && is_space(s.last()) {
        trim_end(s.drop_last())
    } else {
        s
    }
}

/// `s` without its leading and trailing white space.
pub open spec fn trim(s: Seq<char>) -> Seq<char> {
    trim_end(trim_start(s))
}

/// The characters of `cs` without leading white space.
pub fn trim_start_chars(cs: &[char]) -> (r: Vec<char>)
    ensures
        r@ == trim_start(cs@),
{
    let mut i: usize = 0;
    assert(cs@.skip(0) =~= cs@);
    while i < cs.len() && is_space_char(cs[i])
        invariant
            i <= cs.len(),
            trim_start(cs@) == trim_start(cs@.skip(i as int)),
        decreases cs.len() - i,
    {
        assert(cs@.skip(i as int).drop_first() =~= cs@.skip(i + 1));
        i += 1;
    }
    assert(cs@.skip(i as int) =~= cs@.subrange(i as int, cs@.len() as int));
    range_of(cs, i, cs.len())
}

/// The characters of `cs` without trailing white space.
pub fn trim_end_chars(cs: &[char]) -> (r: Vec<char>)
    ensures
        r@ == trim_end(cs@),
{
    let mut n: usize = cs.len();
    assert(cs@.take(n as int) =~= cs@);
    while n > 0 && is_space_char(cs[n - 1])
        invariant
            n <= cs.len(),
            trim_end(cs@) == trim_end(cs@.take(n as int)),
        decreases n,
    {
        assert(cs@.take(n as int).drop_last() =~= cs@.take(n - 1));
        n -= 1;
    }
    assert(cs@.take(n as int) =~= cs@.subrange(0, n as int));
    range_of(cs, 0, n)
}

/// The characters of `cs` without leading and trailing white space.
pub fn trim_chars(cs: &[char]) -> (r: Vec<char>)
    ensures
        r@ == trim(cs@),
{
    let front = trim_start_chars(cs);
    trim_end_chars(&front)
}

/// The views of a list of character vectors.
pub open spec fn char_rows(v: Seq<Vec<char>>) -> Seq<Seq<char>> {
    v.map_values(|x: Vec<char>| x@)
}

/// The views of a list of strings.
pub open spec fn texts(v: Seq<String>) -> Seq<Seq<char>> {
    v.map_values(|x: String| x@)
}

/// The pieces of `s` between occurrences of `sep`; always at least one.
pub open spec fn split(s: Seq<char>, sep: char) -> Seq<Seq<char>>
    decreases s.len(),
{
    if s.len() == 0 {
        seq![Seq::empty()]
    } else {
        let before = split(s.drop_last(), sep);
        if s.last() == sep {
            before.push(Seq::empty())
        } else {
            before.drop_last().push(before.last().push(s.last()))
        }
    }
}

/// Splitting gives at least one piece.
pub proof fn split_nonempty(s: Seq<char>, sep: char)
    ensures
        split(s, sep).len() >= 1,
    decreases s.len(),
{
    if s.len() > 0 {
        split_nonempty(s.drop_last(), sep);
    }
}

/// The pieces of `cs` between occurrences of `sep`.
pub fn split_chars(cs: &[char], sep: char) -> (r: Vec<Vec<char>>)
    ensures
        char_rows(r@) == split(cs@, sep),
        r@.len() >= 1,
{
    let mut done: Vec<Vec<char>> = Vec::new();
    let mut current: Vec<char> = Vec::new();
    let mut i: usize = 0;
    assert(char_rows(done@).push(current@) =~= split(cs@.take(0), sep));
    while i < cs.len()
        invariant
            i <= cs.len(),
            char_rows(done@).push(current@) == split(cs@.take(i as int), sep),
        decreases cs.len() - i,
    {
        assert(cs@.take(i + 1).drop_last() =~= cs@.take(i as int));
        assert(cs@.take(i + 1).last() == cs@[i as int]);
        let ghost before = char_rows(done@).push(current@);
        assert(before.drop_last() =~= char_rows(done@));
        if cs[i] == sep {
            let ghost old_done = done@;
            done.push(current);
            assert(char_rows(done@) =~= before);
            current = Vec::new();
            assert(current@ =~= Seq::empty());
        } else {
            current.push(cs[i]);
        }
        i += 1;
    }
    assert(cs@.take(i as int) =~= cs@);
    let ghost before = char_rows(done@).push(current@);
    done.push(current);
    assert(char_rows(done@) =~= before);
    done
}

/// `s` without a final carriage return.
pub open spec fn strip_cr(s: Seq<char>) -> Seq<char> {
    if s.len() > 0 && s.last() == '\r' {
        s.drop_last()
    } else {
        s
    }
}

/// The lines of `s`: what stands before each newline, without a carriage
/// return just before it, then what follows the last newline if anything
/// does.
pub open spec fn lines(s: Seq<char>) -> Seq<Seq<char>> {
    let pieces = split(s, '\n');
    let ended = pieces.drop_last().map_values(|p: Seq<char>| strip_cr(p));
    if pieces.last().len() == 0 {
        ended
    } else {
        ended.push(pieces.last())
    }
}

/// Two lists of pieces with the last of the one and the first of the other
/// put together.
spec fn glued(x: Seq<Seq<char>>, y: Seq<Seq<char>>) -> Seq<Seq<char>> {
    x.drop_last() + seq![x.last() + y[0]] + y.drop_first()
}

proof fn split_append(a: Seq<char>, b: Seq<char>, sep: char)
    ensures
        split(a + b, sep) == glued(split(a, sep), split(b, sep)),
    decreases b.len(),
{
    split_nonempty(a, sep);
    split_nonempty(b, sep);
    let x = split(a, sep);
    if b.len() == 0 {
        assert(a + b =~= a);
        assert(x.last() + Seq::<char>::empty() =~= x.last());
        assert(glued(x, split(b, sep)) =~= x);
    } else {
        let front = b.drop_last();
        let y = split(front, sep);
        split_append(a, front, sep);
        split_nonempty(front, sep);
        assert((a + b).drop_last() =~= a + front);
        assert((a + b).last() == b.last());
        let whole = glued(x, y);
        if b.last() == sep {
            assert(whole.push(Seq::empty()) =~= glued(x, y.push(Seq::empty())));
        } else {
            let longer = y.drop_last().push(y.last().push(b.last()));
            if y.len() == 1 {
                assert(whole.last() =~= x.last() + y[0]);
                assert((x.last() + y[0]).push(b.last()) =~= x.last() + y[0].push(b.last()));
            } else {
                assert(whole.last() == y.last());
            }
            assert(whole.drop_last().push(whole.last().push(b.last())) =~= glued(x, longer));
        }
    }
}

/// The lines of two texts, the first of which ends in a newline, stand one
/// after the other in the lines of both.
pub proof fn lines_append(a: Seq<char>, b: Seq<char>)
    requires
        a.len() == 0 || a.last() == '\n',
    ensures
        lines(a + b) == lines(a) + lines(b),
{
    if a.len() == 0 {
        assert(a + b =~= b);
        assert(lines(a) =~= Seq::empty());
        assert(lines(a) + lines(b) =~= lines(b));
    } else {
        split_append(a, b, '\n');
        split_nonempty(a, '\n');
        split_nonempty(b, '\n');
        let x = split(a, '\n');
        let y = split(b, '\n');
        assert(x.last() =~= Seq::empty());
        assert(x.last() + y[0] =~= y[0]);
        assert(glued(x, y) =~= x.drop_last() + y);
        assert(lines(a + b) =~= lines(a) + lines(b));
    }
}

/// The lines of a text.
pub fn lines_of(s: &str) -> (r: Vec<Vec<char>>)
    ensures
        char_rows(r@) == lines(s@),
{
    let cs = chars_of(s);
    let pieces = split_chars(&cs, '\n');
    let ghost rows = char_rows(pieces@);
    let mut out: Vec<Vec<char>> = Vec::new();
    let last: usize = pieces.len() - 1;
    let mut i: usize = 0;
    while i < last
        invariant
            i <= last,
            last == pieces.len() - 1,
            rows == char_rows(pieces@),
            char_rows(out@) == rows.drop_last().map_values(|p: Seq<char>| strip_cr(p)).take(
                i as int,
            ),
        decreases last - i,
    {
        let n: usize = pieces[i].len();
        let ghost done = char_rows(out@);
        assert(rows[i as int] == pieces@[i as int]@);
        let line = if n > 0 && pieces[i][n - 1] == '\r' {
            let l = range_of(&pieces[i], 0, n - 1);
            assert(l@ =~= rows[i as int].drop_last());
            l
        } else {
            let l = range_of(&pieces[i], 0, n);
            assert(l@ =~= rows[i as int]);
            l
        };
        assert(line@ == strip_cr(rows[i as int]));
        out.push(line);
        i += 1;
        assert(char_rows(out@) =~= done.push(strip_cr(rows[i - 1])));
        assert(rows.drop_last().map_values(|p: Seq<char>| strip_cr(p)).take(i as int) =~= done.push(
            strip_cr(rows[i - 1]),
        ));
    }
    let ghost ended = rows.drop_last().map_values(|p: Seq<char>| strip_cr(p));
    assert(ended.take(i as int) =~= ended);
    assert(rows.last() == pieces@[last as int]@);
    if pieces[last].len() > 0 {
        let line = range_of(&pieces[last], 0, pieces[last].len());
        assert(line@ =~= rows.last());
        let ghost done = char_rows(out@);
        out.push(line);
        assert(char_rows(out@) =~= done.push(rows.last()));
    }
    out
}

/// The maximal runs of non-space characters of `s`, finished ones first,
/// then the one still open at the end (empty between words).
pub open spec fn word_scan(s: Seq<char>) -> (Seq<Seq<char>>, Seq<char>)
    decreases s.len(),
{
    if s.len() == 0 {
        (Seq::empty(), Seq::empty())
    } else {
        let (done, open) = word_scan(s.drop_last());
        if !is_space(s.last()) {
            (done, open.push(s.last()))
        } else if open.len() > 0 {
            (done.push(open), Seq::empty())
        } else {
            (done, open)
        }
    }
}

/// The words of `s`: its maximal runs of non-space characters, in order.
pub open spec fn words(s: Seq<char>) -> Seq<Seq<char>> {
    let (done, open) = word_scan(s);
    if open.len() > 0 {
        done.push(open)
    } else {
        done
    }
}

/// The words of a text.
pub fn words_of(cs: &[char]) -> (r: Vec<Vec<char>>)
    ensures
        char_rows(r@) == words(cs@),
{
    let mut done: Vec<Vec<char>> = Vec::new();
    let mut open: Vec<char> = Vec::new();
    let mut i: usize = 0;
    assert(char_rows(done@) =~= Seq::empty());
    assert(open@ =~= Seq::empty());
    while i < cs.len()
        invariant
            i <= cs.len(),
            (char_rows(done@), open@) == word_scan(cs@.take(i as int)),
        decreases cs.len() - i,
    {
        assert(cs@.take(i + 1).drop_last() =~= cs@.take(i as int));
        assert(cs@.take(i + 1).last() == cs@[i as int]);
        let ghost before = char_rows(done@);
        if !is_space_char(cs[i]) {
            open.push(cs[i]);
        } else if open.len() > 0 {
            let ghost word = open@;
            done.push(open);
            assert(char_rows(done@) =~= before.push(word));
            open = Vec::new();
            assert(open@ =~= Seq::empty());
        }
        i += 1;
    }
    assert(cs@.take(i as int) =~= cs@);
    if open.len() > 0 {
        let ghost before = char_rows(done@);
        let ghost word = open@;
        done.push(open);
        assert(char_rows(done@) =~= before.push(word));
    }
    done
}

/// The decimal digit of a value below ten.
pub open spec fn digit(d: int) -> char {
    ((d + 48) as u8) as char
}

/// `n` in decimal, without leading zeros.
pub open spec fn decimal(n: nat) -> Seq<char>
    decreases n,
{
    if n < 10 {
        seq![digit(n as int)]
    } else {
        decimal(n / 10).push(digit((n % 10) as int))
    }
}

/// `n` in decimal, without leading zeros.
pub fn decimal_of(n: u128) -> (r: String)
    ensures
        r@ == decimal(n as nat),
    decreases n,
{
    let d: u8 = (n % 10) as u8 + 48;
    let c: char = d as char;
    if n < 10 {
        let mut out = String::new();
        out.push(c);
        assert(out@ =~= seq![digit(n as int)]);
        out
    } else {
        let mut out = decimal_of(n / 10);
        out.push(c);
        out
    }
}

/// The characters of `a` followed by those of `b`.
pub fn concat(a: &str, b: &str) -> (r: String)
    ensures
        r@ == a@ + b@,
{
    let mut out = a.to_owned();
    out.append(b);
    out
}

/// The characters of `a`, `b` and `c`, one after the other.
pub fn concat3(a: &str, b: &str, c: &str) -> (r: String)
    ensures
        r@ == a@ + b@ + c@,
{
    let mut out = a.to_owned();
    out.append(b);
    out.append(c);
    out
}

/// Whether `s` stands before `t` or is `t`, by the code points of the first
/// position where they differ; a text stands before its extensions.
pub open spec fn text_le(s: Seq<char>, t: Seq<char>) -> bool
    decreases s.len(),
{
    if s.len() == 0 {
        true
    } else if t.len() == 0 {
        false
    } else if s[0] != t[0] {
        s[0] < t[0]
    } else {
        text_le(s.drop_first(), t.drop_first())
    }
}

/// Every text stands before itself or is itself.
pub proof fn text_le_reflexive(s: Seq<char>)
    ensures
        text_le(s, s),
    decreases s.len(),
{
    if s.len() > 0 {
        text_le_reflexive(s.drop_first());
    }
}

/// Of two texts one stands before the other.
pub proof fn text_le_total(s: Seq<char>, t: Seq<char>)
    ensures
        text_le(s, t) || text_le(t, s),
    decreases s.len(),
{
    if s.len() > 0 && t.len() > 0 && s[0] == t[0] {
        text_le_total(s.drop_first(), t.drop_first());
    }
}

/// Two texts that stand before each other are the same.
pub proof fn text_le_antisymmetric(s: Seq<char>, t: Seq<char>)
    requires
        text_le(s, t),
        text_le(t, s),
    ensures
        s == t,
    decreases s.len(),
{
    if s.len() > 0 && t.len() > 0 {
        text_le_antisymmetric(s.drop_first(), t.drop_first());
        assert(s =~= seq![s[0]] + s.drop_first());
        assert(t =~= seq![t[0]] + t.drop_first());
    } else {
        assert(s =~= t);
    }
}

/// The order of texts is transitive.
pub proof fn text_le_transitive(s: Seq<char>, t: Seq<char>, u: Seq<char>)
    requires
        text_le(s, t),
        text_le(t, u),
    ensures
        text_le(s, u),
    decreases s.len(),
{
    if s.len() > 0 && t.len() > 0 && u.len() > 0 && s[0] == t[0] && t[0] == u[0] {
        text_le_transitive(s.drop_first(), t.drop_first(), u.drop_first());
    }
}

/// Whether `a` stands before `b` or is `b`.
pub fn le_chars(a: &[char], b: &[char]) -> (r: bool)
    ensures
        r == text_le(a@, b@),
{
    let mut i: usize = 0;
    assert(a@.skip(0) =~= a@);
    assert(b@.skip(0) =~= b@);
    while i < a.len() && i < b.len() && a[i] == b[i]
        invariant
            i <= a.len(),
            i <= b.len(),
            text_le(a@, b@) == text_le(a@.skip(i as int), b@.skip(i as int)),
        decreases a.len() - i,
    {
        assert(a@.skip(i as int).drop_first() =~= a@.skip(i + 1));
        assert(b@.skip(i as int).drop_first() =~= b@.skip(i + 1));
        i += 1;
    }
    if i == a.len() {
        true
    } else if i == b.len() {
        false
    } else {
        a[i] < b[i]
    }
}

/// Whether `a` stands before `b` or is `b`.
pub fn le_str(a: &str, b: &str) -> (r: bool)
    ensures
        r == text_le(a@, b@),
{
    let x = chars_of(a);
    let y = chars_of(b);
    le_chars(&x, &y)
}

/// A text in double quotes, with what needs it escaped.
pub uninterp spec fn quoted_text(s: Seq<char>) -> Seq<char>;

/// `str`'s `Debug`: the text in double quotes, with quotes, backslashes and
/// characters that do not print escaped.
#[verifier::external_body]
pub(crate) fn quoted(s: &str) -> (r: String)
    ensures
        r@ == quoted_text(s@),
{
    format!("{s:?}")
}

/// Whether a character stands nowhere in a text.
pub open spec fn lacks(s: Seq<char>, c: char) -> bool {
    forall|i: int| 0 <= i < s.len() ==> s[i] != c
}

/// A text without separators is one piece, and behind a separator it is one
/// piece more.
pub proof fn split_piece(x: Seq<char>, y: Seq<char>, sep: char)
    requires
        lacks(y, sep),
    ensures
        split(y, sep) == seq![y],
        split(x.push(sep) + y, sep) == split(x, sep).push(y),
    decreases y.len(),
{
    if y.len() == 0 {
        assert(x.push(sep) + y =~= x.push(sep));
        assert(x.push(sep).drop_last() =~= x);
        assert(y =~= Seq::empty());
    } else {
        let front = y.drop_last();
        assert forall|i: int| 0 <= i < front.len() implies front[i] != sep by {
            assert(front[i] == y[i]);
        }
        split_piece(x, front, sep);
        assert((x.push(sep) + y).drop_last() =~= x.push(sep) + front);
        assert((x.push(sep) + y).last() == y.last());
        assert(y[y.len() - 1] != sep);
        assert(front.push(y.last()) =~= y);
        assert(split(y, sep) =~= seq![y]);
        let before = split(x, sep).push(front);
        assert(before.drop_last() =~= split(x, sep));
        assert(split(x.push(sep) + y, sep) =~= split(x, sep).push(y));
    }
}

/// A trimmed text is a stretch of the text: only white space stands before
/// and behind it, and it neither starts nor ends with any.
pub proof fn trim_is_the_middle(s: Seq<char>)
    ensures
        exists|a: int, b: int|
            #![trigger s.subrange(a, b)]
            0 <= a <= b <= s.len() && trim(s) == s.subrange(a, b) && (forall|i: int|
                0 <= i < a || b <= i < s.len() ==> is_space(#[trigger] s[i])) && (a < b
                ==> !is_space(s[a]) && !is_space(s[b - 1])),
        trim(s).len() == 0 <==> forall|i: int| 0 <= i < s.len() ==> is_space(#[trigger] s[i]),
{
    trim_start_is_a_rest(s);
    let rest = trim_start(s);
    trim_end_is_a_front(rest);
    let a = s.len() - rest.len();
    let b = a + trim(s).len();
    assert(trim(s) =~= s.subrange(a, b));
    assert forall|i: int| 0 <= i < a || b <= i < s.len() implies is_space(#[trigger] s[i]) by {
        if i >= b {
            assert(rest[i - a] == s[i]);
        }
    }
    if a < b {
        assert(rest[0] == s[a]);
        assert(trim(s)[0] == rest[0]);
        assert(trim(s).last() == s[b - 1]);
    }
}

proof fn trim_start_is_a_rest(s: Seq<char>)
    ensures
        trim_start(s).len() <= s.len(),
        trim_start(s) == s.skip(s.len() - trim_start(s).len()),
        forall|i: int|
            0 <= i < s.len() - trim_start(s).len() ==> is_space(#[trigger] s[i]),
        trim_start(s).len() > 0 ==> !is_space(trim_start(s)[0]),
    decreases s.len(),
{
    if s.len() > 0 && is_space(s[0]) {
        let t = s.drop_first();
        trim_start_is_a_rest(t);
        assert(trim_start(s) =~= s.skip(s.len() - trim_start(s).len()));
        assert forall|i: int| 0 <= i < s.len() - trim_start(s).len() implies is_space(
            #[trigger] s[i],
        ) by {
            if i > 0 {
                assert(t[i - 1] == s[i]);
            }
        }
    } else {
        assert(s.skip(0) =~= s);
    }
}

proof fn trim_end_is_a_front(s: Seq<char>)
    ensures
        trim_end(s).len() <= s.len(),
        trim_end(s) == s.take(trim_end(s).len() as int),
        forall|i: int| trim_end(s).len() <= i < s.len() ==> is_space(#[trigger] s[i]),
        trim_end(s).len() > 0 ==> !is_space(trim_end(s).last()),
    decreases s.len(),
{
    if s.len() > 0 && is_space(s.last()) {
        let t = s.drop_last();
        trim_end_is_a_front(t);
        assert(trim_end(s) =~= s.take(trim_end(s).len() as int));
        assert forall|i: int| trim_end(s).len() <= i < s.len() implies is_space(
            #[trigger] s[i],
        ) by {
            if i < t.len() {
                assert(t[i] == s[i]);
            }
        }
    } else {
        assert(s.take(s.len() as int) =~= s);
    }
}

/// Trimming the start takes off white space alone, and all of it there.
pub proof fn trim_start_takes_white_space(s: Seq<char>)
    ensures
        exists|a: int|
            #![trigger s.skip(a)]
            0 <= a <= s.len() && trim_start(s) == s.skip(a) && (forall|i: int|
                0 <= i < a ==> is_space(#[trigger] s[i])) && (a < s.len() ==> !is_space(s[a])),
{
    trim_start_is_a_rest(s);
    let a = s.len() - trim_start(s).len();
    assert(trim_start(s) == s.skip(a));
    if a < s.len() {
        assert(trim_start(s)[0] == s[a]);
    }
}

/// Trimming the end takes off white space alone, and all of it there.
pub proof fn trim_end_takes_white_space(s: Seq<char>)
    ensures
        exists|b: int|
            #![trigger s.take(b)]
            0 <= b <= s.len() && trim_end(s) == s.take(b) && (forall|i: int|
                b <= i < s.len() ==> is_space(#[trigger] s[i])) && (b > 0 ==> !is_space(s[b - 1])),
{
    trim_end_is_a_front(s);
    assert(trim_end(s) == s.take(trim_end(s).len() as int));
}

/// A text ranks no higher than another exactly where it starts the other, or
/// has the lower character where they first differ.
pub proof fn text_le_is_by_first_difference(s: Seq<char>, t: Seq<char>)
    ensures
        text_le(s, t) <==> s.is_prefix_of(t) || exists|k: int|
            0 <= k < s.len() && k < t.len() && (#[trigger] s[k]) < t[k] && s.take(k) == t.take(k),
    decreases s.len(),
{
    if s.len() > 0 && t.len() > 0 {
        let a = s.drop_first();
        let b = t.drop_first();
        text_le_is_by_first_difference(a, b);
        if s[0] == t[0] {
            if a.is_prefix_of(b) {
                assert(s =~= seq![s[0]] + a);
                assert forall|i: int| 0 <= i < s.len() implies s[i] == t[i] by {
                    if i > 0 {
                        assert(a[i - 1] == b[i - 1]);
                    }
                }
            }
            if s.is_prefix_of(t) {
                assert forall|i: int| 0 <= i < a.len() implies a[i] == b[i] by {
                    assert(s[i + 1] == t[i + 1]);
                }
            }
            if exists|k: int|
                0 <= k < a.len() && k < b.len() && (#[trigger] a[k]) < b[k] && a.take(k) == b.take(
                    k,
                ) {
                let k = choose|k: int|
                    0 <= k < a.len() && k < b.len() && (#[trigger] a[k]) < b[k] && a.take(k)
                        == b.take(k);
                assert(s[k + 1] == a[k] && t[k + 1] == b[k]);
                assert forall|i: int| 0 <= i < k + 1 implies #[trigger] s.take(k + 1)[i] == t.take(k + 1)[i] by {
                    if i > 0 {
                        assert(a.take(k)[i - 1] == b.take(k)[i - 1]);
                    }
                }
                assert(s.take(k + 1) =~= t.take(k + 1));
            }
            if exists|k: int|
                0 <= k < s.len() && k < t.len() && (#[trigger] s[k]) < t[k] && s.take(k) == t.take(
                    k,
                ) {
                let k = choose|k: int|
                    0 <= k < s.len() && k < t.len() && (#[trigger] s[k]) < t[k] && s.take(k)
                        == t.take(k);
                assert(k > 0);
                assert(a[k - 1] == s[k] && b[k - 1] == t[k]);
                assert forall|i: int| 0 <= i < k - 1 implies #[trigger] a.take(k - 1)[i] == b.take(k - 1)[i] by {
                    assert(s.take(k)[i + 1] == t.take(k)[i + 1]);
                }
                assert(a.take(k - 1) =~= b.take(k - 1));
            }
        } else {
            if s[0] < t[0] {
                assert(s.take(0) =~= t.take(0));
            } else {
                assert(!s.is_prefix_of(t)) by {
                    if s.is_prefix_of(t) {
                        assert(s[0] == t[0]);
                    }
                }
                assert forall|k: int|
                    0 <= k < s.len() && k < t.len() && (#[trigger] s[k]) < t[k] implies s.take(k)
                    != t.take(k) by {
                    if k > 0 {
                        assert(s.take(k)[0] != t.take(k)[0]);
                    }
                }
            }
        }
    } else if s.len() == 0 {
        assert(s.is_prefix_of(t));
    }
}

/// A text without a newline is its own line, unless it is empty; with a
/// newline behind it, it is a line without the carriage return it may end
/// in.
pub proof fn one_line(s: Seq<char>)
    requires
        lacks(s, '\n'),
    ensures
        s.len() > 0 ==> lines(s) == seq![s],
        s.len() == 0 ==> lines(s).len() == 0,
        s.len() > 0 && s.last() == '\r' ==> lines(s.push('\n')) == seq![s.drop_last()],
        !(s.len() > 0 && s.last() == '\r') ==> lines(s.push('\n')) == seq![s],
{
    let none = Seq::<char>::empty();
    split_piece(s, none, '\n');
    split_piece(none, s, '\n');
    assert(s.push('\n') + none =~= s.push('\n'));
    assert(split(s, '\n') =~= seq![s]);
    assert(split(s.push('\n'), '\n') =~= seq![s, none]);
    if s.len() > 0 {
        assert(lines(s) =~= seq![s]);
    }
    assert(lines(s.push('\n')) =~= seq![strip_cr(s)]);
}

/// The words of a text are those of its parts on both sides of white space;
/// what holds none is one word.
pub proof fn words_part_at_white_space(a: Seq<char>, c: char, b: Seq<char>)
    ensures
        is_space(c) ==> words(a.push(c) + b) == words(a) + words(b),
        (forall|i: int| 0 <= i < a.len() ==> !is_space(#[trigger] a[i])) && a.len() > 0 ==> words(a)
            == seq![a],
        a.len() == 0 ==> words(a).len() == 0,
{
    if is_space(c) {
        word_scan_on(a.push(c), b);
        assert(a.push(c).drop_last() =~= a);
        assert(word_scan(a.push(c)).1.len() == 0);
        assert(words(a.push(c) + b) =~= words(a) + words(b));
    }
    if (forall|i: int| 0 <= i < a.len() ==> !is_space(#[trigger] a[i])) && a.len() > 0 {
        word_scan_solid(a);
        assert(words(a) =~= seq![a]);
    }
}

proof fn word_scan_on(a: Seq<char>, b: Seq<char>)
    requires
        word_scan(a).1.len() == 0,
    ensures
        word_scan(a + b).0 == word_scan(a).0 + word_scan(b).0,
        word_scan(a + b).1 == word_scan(b).1,
    decreases b.len(),
{
    if b.len() == 0 {
        assert(a + b =~= a);
        assert(word_scan(a).0 + word_scan(b).0 =~= word_scan(a).0);
        assert(word_scan(a).1 =~= word_scan(b).1);
    } else {
        word_scan_on(a, b.drop_last());
        assert((a + b).drop_last() =~= a + b.drop_last());
        assert((a + b).last() == b.last());
        assert(word_scan(a + b).0 =~= word_scan(a).0 + word_scan(b).0);
    }
}

proof fn word_scan_solid(a: Seq<char>)
    requires
        forall|i: int| 0 <= i < a.len() ==> !is_space(#[trigger] a[i]),
    ensures
        word_scan(a).0.len() == 0,
        word_scan(a).1 == a,
    decreases a.len(),
{
    if a.len() > 0 {
        let front = a.drop_last();
        assert forall|i: int| 0 <= i < front.len() implies !is_space(#[trigger] front[i]) by {
            assert(front[i] == a[i]);
        }
        word_scan_solid(front);
        assert(!is_space(a[a.len() - 1]));
        assert(front.push(a.last()) =~= a);
    } else {
        assert(word_scan(a).1 =~= a);
    }
}

/// A number in decimal is read back digit by digit, and starts with a zero
/// only where it is zero.
pub proof fn decimal_reads_back(n: nat)
    ensures
        decimal(n).len() > 0,
        n < 10 ==> decimal(n).len() == 1 && decimal(n)[0] as u32 == 48 + n,
        n >= 10 ==> decimal(n).len() > 1 && decimal(n).drop_last() == decimal(n / 10)
            && decimal(n).last() as u32 == 48 + n % 10,
    decreases n,
{
    if n < 10 {
        assert(((n as int + 48) as u8) as char as u32 == n + 48);
    } else {
        let d = (n % 10) as int;
        assert(((d + 48) as u8) as char as u32 == d + 48);
        assert(decimal(n).drop_last() =~= decimal(n / 10));
        decimal_reads_back(n / 10);
    }
}

/// A character first stands where it stands and does not before; it stands
/// nowhere where that is the end.
pub proof fn first_of_is_first(s: Seq<char>, c: char)
    ensures
        0 <= first_of(s, c) <= s.len(),
        first_of(s, c) < s.len() ==> s[first_of(s, c)] == c,
        forall|i: int| 0 <= i < first_of(s, c) ==> #[trigger] s[i] != c,
    decreases s.len(),
{
    if s.len() > 0 && s[0] != c {
        let rest = s.drop_first();
        first_of_is_first(rest, c);
        assert forall|i: int| 0 <= i < first_of(s, c) implies #[trigger] s[i] != c by {
            if i > 0 {
                assert(s[i] == rest[i - 1]);
            }
        }
    }
}

/// A text begins with another exactly where that is a prefix of it, and
/// holds another exactly where it is that with something before and
/// something behind, either of which may be empty.
pub proof fn texts_hold_their_parts(s: Seq<char>, p: Seq<char>, a: Seq<char>, b: Seq<char>)
    ensures
        begins(s, p) <==> p.is_prefix_of(s),
        s == a + p + b ==> contains(s, p),
        contains(s, p) ==> exists|x: Seq<char>, y: Seq<char>| s == #[trigger] (x + p + y),
{
    if begins(s, p) {
        assert forall|i: int| 0 <= i < p.len() implies p[i] == s[i] by {
            assert(s.subrange(0, p.len() as int)[i] == p[i]);
        }
    }
    if p.is_prefix_of(s) {
        assert(s.subrange(0, p.len() as int) =~= p);
    }
    if s == a + p + b {
        let at = a.len() as int;
        assert(s.subrange(at, at + p.len()) =~= p);
        assert(holds_at(s, at, p));
    }
    if contains(s, p) {
        let at = choose|at: int| holds_at(s, at, p);
        let x = s.take(at);
        let y = s.skip(at + p.len());
        assert(s =~= x + s.subrange(at, at + p.len()) + y);
        assert(s == x + p + y);
    }
}

/// White space is what Unicode says it is; letters and digits are those of
/// ASCII, and so are the capitals that are made small.
pub proof fn characters_are_told_apart(c: char)
    ensures
        ({
            let n = c as int;
            &&& is_space(c) <==> (n == 9 || n == 10 || n == 11 || n == 12 || n == 13 || n == 32 || n
                == 133 || n == 160 || n == 5760 || (8192 <= n && n <= 8202) || n == 8232 || n == 8233
                || n == 8239 || n == 8287 || n == 12288)
            &&& is_alnum(c) <==> (48 <= n && n <= 57) || (65 <= n && n <= 90) || (97 <= n && n
                <= 122)
            &&& (65 <= n && n <= 90) ==> lower(c) as int == n + 32
            &&& !(65 <= n && n <= 90) ==> lower(c) == c
        }),
{
}

/// A text begins with its prefixes and nothing else.
pub proof fn prefix_is_begin(s: Seq<char>, p: Seq<char>)
    ensures
        begins(s, p) <==> p.is_prefix_of(s),
{
    if begins(s, p) {
        assert forall|i: int| 0 <= i < p.len() implies p[i] == s[i] by {
            assert(s.subrange(0, p.len() as int)[i] == p[i]);
        }
    }
    if p.is_prefix_of(s) {
        assert(s.subrange(0, p.len() as int) =~= p);
    }
}

/// White space in front of a text that starts with none is trimmed off.
pub proof fn leading_space_is_trimmed(space: Seq<char>, rest: Seq<char>)
    requires
        forall|i: int| 0 <= i < space.len() ==> is_space(#[trigger] space[i]),
        rest.len() > 0,
        !is_space(rest[0]),
    ensures
        trim_start(space + rest) == rest,
    decreases space.len(),
{
    if space.len() == 0 {
        assert(space + rest =~= rest);
    } else {
        let less = space.drop_first();
        assert forall|i: int| 0 <= i < less.len() implies is_space(#[trigger] less[i]) by {
            assert(less[i] == space[i + 1]);
        }
        assert(is_space(space[0]));
        assert((space + rest).drop_first() =~= less + rest);
        leading_space_is_trimmed(less, rest);
    }
}

} // verus!
