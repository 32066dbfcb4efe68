//! Which clauses in the text of a marker compare with a version.
//!
//! The text is taken apart at its quotes: what stands outside them, and the
//! values inside them, take turns. A value is compared with the key that
//! stands on the other side of the operator before or behind it.

use crate::text::{
    char_rows, chars_of, contains, first_index, first_of, has, range_of, same_chars, words, words_of,
};
use vstd::prelude::*;
use vstd::string::*;

verus! {

/// Whether a character quotes values.
pub open spec fn is_quote(c: char) -> bool {
    c == '\'' || c == '"'
}

/// Where the first quote stands in `s`; the length of `s` where none does.
pub open spec fn first_quote(s: Seq<char>) -> int
    decreases s.len(),
{
    if s.len() == 0 || is_quote(s[0]) {
        0
    } else {
        1 + first_quote(s.drop_first())
    }
}

/// What stands outside quotes and what stands inside them, in turn. A quote
/// that is not closed reaches to the end.
pub open spec fn pieces(s: Seq<char>) -> Seq<Seq<char>>
    decreases s.len(),
{
    let i = first_quote(s);
    if i < 0 || i >= s.len() {
        seq![s]
    } else {
        let rest = s.skip(i + 1);
        let j = first_of(rest, s[i]);
        if j < 0 || j >= rest.len() {
            seq![s.take(i), rest]
        } else {
            seq![s.take(i), rest.take(j)] + pieces(rest.skip(j + 1))
        }
    }
}

/// Whether a character sets off the words outside quotes.
pub open spec fn is_mark(c: char) -> bool {
    c == '(' || c == ')' || c == '<' || c == '>' || c == '=' || c == '!' || c == '~'
}

/// A text with a space in place of each mark.
pub open spec fn spaced(s: Seq<char>) -> Seq<char> {
    s.map_values(
        |c: char|
            if is_mark(c) {
                ' '
            } else {
                c
            },
    )
}

/// The keys and words that stand outside quotes.
pub open spec fn outer_words(s: Seq<char>) -> Seq<Seq<char>> {
    words(spaced(s))
}

/// Whether a word is a key whose values are versions.
pub open spec fn is_version_key(w: Seq<char>) -> bool {
    w == "python_version"@ || w == "python_full_version"@ || w == "implementation_version"@
}

/// The key whose membership in the value that follows a text is asked for,
/// if it is.
pub open spec fn listed_key(before: Seq<char>) -> Option<Seq<char>> {
    let w = outer_words(before);
    let n = w.len();
    if n < 2 || w[n - 1] != "in"@ {
        None
    } else if w[n - 2] != "not"@ {
        Some(w[n - 2])
    } else if n < 3 {
        None
    } else {
        Some(w[n - 3])
    }
}

/// Whether a value that stands between two texts is compared with a version.
pub open spec fn is_version_clause(before: Seq<char>, after: Seq<char>) -> bool {
    ||| listed_key(before) is Some && is_version_key(listed_key(before)->0)
    ||| outer_words(before).len() > 0 && is_version_key(outer_words(before).last())
    ||| outer_words(after).len() > 0 && is_version_key(outer_words(after)[0])
}

/// Whether a value that follows a text is a list of versions that are taken
/// with their local labels, and holds one that has a label.
pub open spec fn is_labelled_list(before: Seq<char>, value: Seq<char>) -> bool {
    &&& listed_key(before) == Some("python_full_version"@) || listed_key(before) == Some(
        "implementation_version"@,
    )
    &&& value.contains('+')
}

/// Whether the `k`th value of a marker is compared with a version.
pub open spec fn compares_version(p: Seq<Seq<char>>, k: int) -> bool {
    &&& 0 <= k
    &&& 2 * k + 1 < p.len()
    &&& is_version_clause(
        p[2 * k],
        if 2 * k + 2 < p.len() {
            p[2 * k + 2]
        } else {
            Seq::empty()
        },
    )
}

/// Whether the `k`th value of a marker is a list of versions with a local
/// label.
pub open spec fn lists_label(p: Seq<Seq<char>>, k: int) -> bool {
    0 <= k && 2 * k + 1 < p.len() && is_labelled_list(p[2 * k], p[2 * k + 1])
}

/// Whether the `k`th value of a marker holds the one version number that can
/// be read, but not counted on from.
pub open spec fn is_outsize(p: Seq<Seq<char>>, k: int) -> bool {
    compares_version(p, k) && contains(p[2 * k + 1], "18446744073709551614"@)
}

/// Whether a marker may have no normal form: it compares with a version
/// whose number is too large, or asks for membership in a list of versions
/// with a local label and compares with another version.
pub open spec fn is_formless(marker: Seq<char>) -> bool {
    let p = pieces(marker);
    ||| exists|k: int| #[trigger] is_outsize(p, k)
    ||| exists|k: int, j: int|
        #[trigger] lists_label(p, k) && #[trigger] compares_version(p, j) && j != k
}

/// Whether the marker of a specifier, which starts behind a semicolon, may
/// have no normal form.
pub open spec fn has_formless_marker(text: Seq<char>) -> bool {
    exists|i: int| 0 <= i < text.len() && #[trigger] text[i] == ';' && is_formless(text.skip(i + 1))
}

fn quote_index(cs: &[char]) -> (r: usize)
    ensures
        r == first_quote(cs@),
        r <= cs@.len(),
{
    let mut i: usize = 0;
    assert(cs@.skip(0) =~= cs@);
    while i < cs.len() && cs[i] != '\'' && cs[i] != '"'
        invariant
            i <= cs.len(),
            first_quote(cs@) == i + first_quote(cs@.skip(i as int)),
        decreases cs.len() - i,
    {
        assert(cs@.skip(i as int).drop_first() =~= cs@.skip(i + 1));
        i += 1;
    }
    i
}

fn pieces_of(cs: &[char]) -> (r: Vec<Vec<char>>)
    ensures
        char_rows(r@) == pieces(cs@),
{
    let mut out: Vec<Vec<char>> = Vec::new();
    let mut rest = range_of(cs, 0, cs.len());
    assert(rest@ =~= cs@);
    assert(char_rows(out@) + pieces(rest@) =~= pieces(cs@));
    loop
        invariant
            char_rows(out@) + pieces(rest@) == pieces(cs@),
        decreases rest.len(),
    {
        let ghost before = char_rows(out@);
        let i: usize = quote_index(&rest);
        if i == rest.len() {
            let ghost all = rest@;
            out.push(rest);
            assert(char_rows(out@) =~= before + seq![all]);
            return out;
        }
        let outer = range_of(&rest, 0, i);
        let inner = range_of(&rest, i + 1, rest.len());
        assert(outer@ =~= rest@.take(i as int));
        assert(inner@ =~= rest@.skip(i + 1));
        let j: usize = first_index(&inner, rest[i]);
        if j == inner.len() {
            let ghost last = seq![outer@, inner@];
            out.push(outer);
            out.push(inner);
            assert(char_rows(out@) =~= before + last);
            return out;
        }
        let value = range_of(&inner, 0, j);
        let next = range_of(&inner, j + 1, inner.len());
        assert(value@ =~= inner@.take(j as int));
        assert(next@ =~= inner@.skip(j + 1));
        let ghost two = seq![outer@, value@];
        out.push(outer);
        out.push(value);
        assert(char_rows(out@) =~= before + two);
        assert(char_rows(out@) + pieces(next@) =~= before + (two + pieces(next@)));
        rest = next;
    }
}

fn outer_words_of(cs: &[char]) -> (r: Vec<Vec<char>>)
    ensures
        char_rows(r@) == outer_words(cs@),
{
    let mut out: Vec<char> = Vec::new();
    let mut i: usize = 0;
    while i < cs.len()
        invariant
            i <= cs.len(),
            out@ =~= spaced(cs@).take(i as int),
        decreases cs.len() - i,
    {
        let c = cs[i];
        if c == '(' || c == ')' || c == '<' || c == '>' || c == '=' || c == '!' || c == '~' {
            out.push(' ');
        } else {
            out.push(c);
        }
        i += 1;
    }
    assert(spaced(cs@).take(i as int) =~= spaced(cs@));
    words_of(&out)
}

fn is_word(w: &[char], text: &str) -> (r: bool)
    ensures
        r == (w@ == text@),
{
    let cs = chars_of(text);
    same_chars(w, &cs)
}

fn names_version(w: &[char]) -> (r: bool)
    ensures
        r == is_version_key(w@),
{
    is_word(w, "python_version") || is_word(w, "python_full_version") || is_word(
        w,
        "implementation_version",
    )
}

fn listed_key_of(before: &[char]) -> (r: Option<Vec<char>>)
    ensures
        match r {
            Some(key) => listed_key(before@) == Some(key@),
            None => listed_key(before@) is None,
        },
{
    let w = outer_words_of(before);
    let n: usize = w.len();
    let ghost all = char_rows(w@);
    assert(forall|i: int| 0 <= i < n ==> #[trigger] all[i] == w@[i]@);
    if n < 2 || !is_word(&w[n - 1], "in") {
        return None;
    }
    let at: usize = if !is_word(&w[n - 2], "not") {
        n - 2
    } else if n < 3 {
        return None;
    } else {
        n - 3
    };
    let key = range_of(&w[at], 0, w[at].len());
    assert(key@ =~= all[at as int]);
    Some(key)
}

fn version_clause(before: &[char], after: &[char]) -> (r: bool)
    ensures
        r == is_version_clause(before@, after@),
{
    if let Some(key) = listed_key_of(before) {
        if names_version(&key) {
            return true;
        }
    }
    let left = outer_words_of(before);
    let ghost words_left = char_rows(left@);
    if left.len() > 0 {
        assert(words_left.last() == left@[left@.len() - 1]@);
        if names_version(&left[left.len() - 1]) {
            return true;
        }
    }
    let right = outer_words_of(after);
    let ghost words_right = char_rows(right@);
    if right.len() > 0 {
        assert(words_right[0] == right@[0]@);
        return names_version(&right[0]);
    }
    false
}

fn labelled_list(before: &[char], value: &[char]) -> (r: bool)
    ensures
        r == is_labelled_list(before@, value@),
{
    match listed_key_of(before) {
        Some(key) => (is_word(&key, "python_full_version") || is_word(
            &key,
            "implementation_version",
        )) && has_char(value, '+'),
        None => false,
    }
}

fn has_char(cs: &[char], c: char) -> (r: bool)
    ensures
        r == cs@.contains(c),
{
    let mut i: usize = 0;
    while i < cs.len()
        invariant
            i <= cs.len(),
            forall|k: int| 0 <= k < i ==> cs@[k] != c,
        decreases cs.len() - i,
    {
        if cs[i] == c {
            assert(cs@[i as int] == c);
            return true;
        }
        i += 1;
    }
    false
}

fn compares_version_at(p: &Vec<Vec<char>>, k: usize) -> (r: bool)
    requires
        k < p.len() / 2,
    ensures
        r == compares_version(char_rows(p@), k as int),
{
    let ghost all = char_rows(p@);
    assert(all[2 * k] == p@[2 * k]@);
    if 2 * k + 2 < p.len() {
        assert(all[2 * k + 2] == p@[2 * k + 2]@);
        version_clause(&p[2 * k], &p[2 * k + 2])
    } else {
        let none: Vec<char> = Vec::new();
        assert(none@ =~= Seq::empty());
        version_clause(&p[2 * k], &none)
    }
}

/// Whether a value of a marker other than the `k`th is compared with a
/// version.
fn compares_other_version(p: &Vec<Vec<char>>, k: usize) -> (r: bool)
    ensures
        r == exists|j: int| #[trigger] compares_version(char_rows(p@), j) && j != k,
{
    let ghost all = char_rows(p@);
    let mut j: usize = 0;
    while j < p.len() / 2
        invariant
            j <= p.len() / 2,
            all == char_rows(p@),
            forall|i: int| 0 <= i < j && i != k ==> !#[trigger] compares_version(all, i),
        decreases p.len() / 2 - j,
    {
        if j != k && compares_version_at(p, j) {
            assert(compares_version(all, j as int));
            return true;
        }
        j += 1;
    }
    false
}

/// Whether a marker may have no normal form.
fn formless(marker: &[char]) -> (r: bool)
    ensures
        r == is_formless(marker@),
{
    let p = pieces_of(marker);
    let ghost all = char_rows(p@);
    let mut k: usize = 0;
    while k < p.len() / 2
        invariant
            k <= p.len() / 2,
            all == char_rows(p@),
            all == pieces(marker@),
            forall|i: int| 0 <= i < k ==> !#[trigger] is_outsize(all, i),
            forall|i: int, j: int|
                0 <= i < k && #[trigger] lists_label(all, i) && #[trigger] compares_version(all, j)
                    ==> j == i,
        decreases p.len() / 2 - k,
    {
        assert(all[2 * k] == p@[2 * k]@);
        assert(all[2 * k + 1] == p@[2 * k + 1]@);
        if compares_version_at(&p, k) && has(&p[2 * k + 1], "18446744073709551614") {
            assert(is_outsize(all, k as int));
            return true;
        }
        let labelled = labelled_list(&p[2 * k], &p[2 * k + 1]);
        assert(labelled == lists_label(all, k as int));
        if labelled && compares_other_version(&p, k) {
            let ghost j = choose|j: int| #[trigger] compares_version(all, j) && j != k;
            assert(lists_label(all, k as int) && compares_version(all, j));
            return true;
        }
        k += 1;
    }
    assert forall|i: int| !#[trigger] is_outsize(all, i) by {
        if is_outsize(all, i) {
            assert(i < k);
        }
    }
    assert forall|i: int, j: int|
        #[trigger] lists_label(all, i) && #[trigger] compares_version(all, j) implies j == i by {
        assert(i < k);
    }
    false
}

/// Whether the marker of a specifier may have no normal form.
pub fn formless_marker(cs: &[char]) -> (r: bool)
    ensures
        r == has_formless_marker(cs@),
{
    let mut i: usize = 0;
    while i < cs.len()
        invariant
            i <= cs.len(),
            forall|k: int|
                0 <= k < i && #[trigger] cs@[k] == ';' ==> !is_formless(cs@.skip(k + 1)),
        decreases cs.len() - i,
    {
        if cs[i] == ';' {
            let marker = range_of(cs, i + 1, cs.len());
            assert(marker@ =~= cs@.skip(i + 1));
            if formless(&marker) {
                assert(cs@[i as int] == ';');
                return true;
            }
        }
        i += 1;
    }
    false
}

proof fn first_quote_is_first(s: Seq<char>)
    ensures
        0 <= first_quote(s) <= s.len(),
        first_quote(s) < s.len() ==> s[first_quote(s)] == '\'' || s[first_quote(s)] == '"',
        forall|i: int| 0 <= i < first_quote(s) ==> #[trigger] s[i] != '\'' && s[i] != '"',
    decreases s.len(),
{
    if s.len() > 0 && !(s[0] == '\'' || s[0] == '"') {
        let rest = s.drop_first();
        first_quote_is_first(rest);
        assert forall|i: int| 0 <= i < first_quote(s) implies #[trigger] s[i] != '\'' && s[i]
            != '"' by {
            if i > 0 {
                assert(s[i] == rest[i - 1]);
            }
        }
    }
}

/// A marker is taken apart at its quotes: what stands before the first, what
/// stands between it and the next of its kind, and so on with what follows.
pub proof fn values_stand_between_quotes(
    outer: Seq<char>,
    quote: char,
    value: Seq<char>,
    rest: Seq<char>,
)
    requires
        crate::text::lacks(outer, '\''),
        crate::text::lacks(outer, '"'),
        quote == '\'' || quote == '"',
        crate::text::lacks(value, quote),
    ensures
        pieces(outer) == seq![outer],
        pieces(outer + seq![quote] + value) == seq![outer, value],
        pieces(outer + seq![quote] + value + seq![quote] + rest) == seq![outer, value] + pieces(
            rest,
        ),
{
    let n = outer.len() as int;
    first_quote_is_first(outer);
    if first_quote(outer) < n {
        assert(outer[first_quote(outer)] == '\'' || outer[first_quote(outer)] == '"');
    }
    let open = outer + seq![quote] + value;
    first_quote_is_first(open);
    assert(open[n] == quote);
    assert(first_quote(open) == n) by {
        let m = first_quote(open);
        if m < n {
            assert(open[m] == outer[m]);
        }
    }
    assert(open.skip(n + 1) =~= value);
    assert(open.take(n) =~= outer);
    crate::text::first_of_is_first(value, quote);
    if first_of(value, quote) < value.len() {
        assert(value[first_of(value, quote)] == quote);
    }
    let closed = outer + seq![quote] + value + seq![quote] + rest;
    first_quote_is_first(closed);
    assert(closed[n] == quote);
    assert(first_quote(closed) == n) by {
        let m = first_quote(closed);
        if m < n {
            assert(closed[m] == outer[m]);
        }
    }
    let tail = closed.skip(n + 1);
    assert(tail =~= value + seq![quote] + rest);
    assert(closed.take(n) =~= outer);
    let k = value.len() as int;
    crate::text::first_of_is_first(tail, quote);
    assert(tail[k] == quote);
    assert(first_of(tail, quote) == k) by {
        let m = first_of(tail, quote);
        if m < k {
            assert(tail[m] == value[m]);
        }
    }
    assert(tail.take(k) =~= value);
    assert(tail.skip(k + 1) =~= rest);
}

/// The words outside quotes are those that are left where the marks of
/// comparisons and brackets are taken for white space.
pub proof fn marks_set_words_off(s: Seq<char>, blank: Seq<char>)
    requires
        blank.len() == s.len(),
        forall|i: int|
            0 <= i < s.len() ==> #[trigger] blank[i] == (if s[i] == '(' || s[i] == ')' || s[i] == '<'
                || s[i] == '>' || s[i] == '=' || s[i] == '!' || s[i] == '~' {
                ' '
            } else {
                s[i]
            }),
    ensures
        outer_words(s) == words(blank),
{
    assert(spaced(s) =~= blank);
}

/// A value is compared with a version where one of the three keys for
/// versions is the last word before it or the first behind it, or stands
/// before `in` or `not in` in front of it.
pub proof fn version_clauses_are_recognized(before: Seq<char>, after: Seq<char>)
    ensures
        ({
            let w = outer_words(before);
            let v = outer_words(after);
            let n = w.len() as int;
            let names = |k: Seq<char>|
                k == "python_version"@ || k == "python_full_version"@ || k
                    == "implementation_version"@;
            &&& is_version_clause(before, after) <==> (n > 0 && names(w[n - 1])) || (v.len() > 0
                && names(v[0])) || (n > 1 && w[n - 1] == "in"@ && w[n - 2] != "not"@ && names(
                w[n - 2],
            )) || (n > 2 && w[n - 1] == "in"@ && w[n - 2] == "not"@ && names(w[n - 3]))
        }),
{
}

/// A list of versions is one with labels where it is asked whether it holds,
/// or does not hold, a version that is taken with its label, and a plus sign
/// stands in it.
pub proof fn labelled_lists_are_recognized(before: Seq<char>, value: Seq<char>)
    ensures
        ({
            let w = outer_words(before);
            let n = w.len() as int;
            let names = |k: Seq<char>|
                k == "python_full_version"@ || k == "implementation_version"@;
            &&& is_labelled_list(before, value) <==> value.contains('+') && ((n > 1 && w[n - 1]
                == "in"@ && w[n - 2] != "not"@ && names(w[n - 2])) || (n > 2 && w[n - 1] == "in"@
                && w[n - 2] == "not"@ && names(w[n - 3])))
        }),
{
}

/// Whether the value at an odd place is compared with a version that stands
/// in what surrounds it.
pub open spec fn version_at(p: Seq<Seq<char>>, at: int) -> bool {
    at % 2 == 1 && 0 < at < p.len() && is_version_clause(
        p[at - 1],
        if at + 1 < p.len() {
            p[at + 1]
        } else {
            Seq::empty()
        },
    )
}

/// A marker may have no normal form exactly where a version it compares with
/// holds the largest number that can be read, or where it has a list of
/// versions with labels and compares another value with a version.
pub proof fn formless_markers_are_recognized(marker: Seq<char>)
    ensures
        is_formless(marker) <==> {
            let p = pieces(marker);
            ||| exists|at: int|
                #[trigger] version_at(p, at) && contains(p[at], "18446744073709551614"@)
            ||| exists|at: int, other: int|
                at % 2 == 1 && 0 < at < p.len() && at != other && is_labelled_list(p[at - 1], p[at])
                    && #[trigger] version_at(p, other) && #[trigger] p[at] == p[at]
        },
{
    let p = pieces(marker);
    assert forall|k: int| #[trigger] compares_version(p, k) implies version_at(p, 2 * k + 1) by {}
    assert forall|at: int| #[trigger] version_at(p, at) implies compares_version(p, (at - 1) / 2)
        && 2 * ((at - 1) / 2) + 1 == at by {}
    if exists|k: int| #[trigger] is_outsize(p, k) {
        let k = choose|k: int| #[trigger] is_outsize(p, k);
        assert(compares_version(p, k));
        assert(version_at(p, 2 * k + 1) && contains(p[2 * k + 1], "18446744073709551614"@));
    }
    if exists|k: int, j: int|
        #[trigger] lists_label(p, k) && #[trigger] compares_version(p, j) && j != k {
        let (k, j) = choose|k: int, j: int|
            #[trigger] lists_label(p, k) && #[trigger] compares_version(p, j) && j != k;
        assert(version_at(p, 2 * j + 1));
        assert(p[2 * k + 1] == p[2 * k + 1]);
        assert(is_labelled_list(p[2 * k + 1 - 1], p[2 * k + 1]));
    }
    if exists|at: int| #[trigger] version_at(p, at) && contains(p[at], "18446744073709551614"@) {
        let at = choose|at: int|
            #[trigger] version_at(p, at) && contains(p[at], "18446744073709551614"@);
        assert(is_outsize(p, (at - 1) / 2));
    }
    if exists|at: int, other: int|
        at % 2 == 1 && 0 < at < p.len() && at != other && is_labelled_list(p[at - 1], p[at])
            && #[trigger] version_at(p, other) && #[trigger] p[at] == p[at] {
        let (at, other) = choose|at: int, other: int|
            at % 2 == 1 && 0 < at < p.len() && at != other && is_labelled_list(p[at - 1], p[at])
                && #[trigger] version_at(p, other) && #[trigger] p[at] == p[at];
        let k = (at - 1) / 2;
        assert(2 * k + 1 == at);
        assert(lists_label(p, k));
        assert(compares_version(p, (other - 1) / 2));
    }
}

/// The marker of a specifier may have no normal form where what follows any
/// of its semicolons may have none.
pub proof fn markers_follow_semicolons(body: Seq<char>, marker: Seq<char>)
    ensures
        is_formless(marker) ==> has_formless_marker(body.push(';') + marker),
        crate::text::lacks(body, ';') && crate::text::lacks(marker, ';') ==> (has_formless_marker(
            body.push(';') + marker,
        ) <==> is_formless(marker)),
        crate::text::lacks(body, ';') ==> !has_formless_marker(body),
{
    let text = body.push(';') + marker;
    let n = body.len() as int;
    assert(text.skip(n + 1) =~= marker);
    assert(text[n] == ';');
    if crate::text::lacks(body, ';') && crate::text::lacks(marker, ';') && has_formless_marker(
        text,
    ) {
        let i = choose|i: int|
            0 <= i < text.len() && #[trigger] text[i] == ';' && is_formless(text.skip(i + 1));
        if i < n {
            assert(text[i] == body[i]);
        } else if i > n {
            assert(text[i] == marker[i - n - 1]);
        }
    }
}

} // verus!
