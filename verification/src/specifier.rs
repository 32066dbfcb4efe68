//! Where a dependency specifier refers to its environment: in its URL, or,
//! where it does not start as a specifier does, in its first word.

use crate::text::{
    begins, char_rows, chars_of, contains, first_index, first_of, has, has_at, is_alnum,
    is_alnum_char, is_space, is_space_char, range_of, trim_start, trim_start_chars, words, words_of,
};
use vstd::prelude::*;
use vstd::string::*;

verus! {

/// Whether a specifier gives a URL: an `@` stands in it, before any marker.
pub open spec fn has_url(text: Seq<char>) -> bool {
    first_of(text, '@') < text.len() && first_of(text, '@') < first_of(text, ';')
}

/// What follows the `@` of a specifier, from the first character on that is
/// no white space.
pub open spec fn url_and_rest(text: Seq<char>) -> Seq<char> {
    trim_start(text.skip(first_of(text, '@') + 1))
}

/// Whether a URL stops before the `i`th character: that ends the line, or is
/// a semicolon or a hash next to white space.
pub open spec fn stops_url(s: Seq<char>, i: int) -> bool {
    ||| s[i] == '\r' || s[i] == '\n'
    ||| (s[i] == ';' || s[i] == '#') && (is_space(s[i - 1]) || (i + 1 < s.len() && is_space(
        s[i + 1],
    )))
}

/// Where the URL that `s` starts with stops, looking from `i` on.
pub open spec fn url_length(s: Seq<char>, i: int) -> int
    decreases s.len() - i,
{
    if i < 0 || i >= s.len() {
        s.len() as int
    } else if stops_url(s, i) {
        i
    } else {
        url_length(s, i + 1)
    }
}

/// The URL of a specifier; nothing where it gives none.
pub open spec fn url_text(text: Seq<char>) -> Seq<char> {
    if has_url(text) {
        let s = url_and_rest(text);
        s.take(url_length(s, 1))
    } else {
        Seq::empty()
    }
}

/// Where the URL of a specifier stops; the length of the specifier where it
/// gives none.
pub open spec fn url_stop(text: Seq<char>) -> int {
    if has_url(text) {
        let s = url_and_rest(text);
        text.len() - s.len() + url_length(s, 1)
    } else {
        text.len() as int
    }
}

/// Whether a character may stand in a package name.
pub open spec fn is_name_char(c: char) -> bool {
    is_alnum(c) || c == '.' || c == '-' || c == '_'
}

/// What follows the package name that `s` starts with.
pub open spec fn after_name(s: Seq<char>) -> Seq<char>
    decreases s.len(),
{
    if s.len() > 0 && is_name_char(s[0]) {
        after_name(s.drop_first())
    } else {
        s
    }
}

/// What follows the extras that `s` starts with, if it starts with any.
pub open spec fn after_extras(s: Seq<char>) -> Seq<char> {
    if s.len() == 0 || s[0] != '[' {
        s
    } else if first_of(s, ']') < s.len() {
        s.skip(first_of(s, ']') + 1)
    } else {
        Seq::empty()
    }
}

/// Whether a character may follow the name and the extras of a specifier.
pub open spec fn follows_name(c: char) -> bool {
    c == '@' || c == '(' || c == '<' || c == '=' || c == '>' || c == '~' || c == '!' || c == ';'
}

/// Whether a word starts as a specifier does: with a package name, perhaps
/// with extras, and then nothing or what may follow.
pub open spec fn starts_with_name(w: Seq<char>) -> bool {
    let rest = after_extras(after_name(w));
    w.len() > 0 && is_alnum(w[0]) && (rest.len() == 0 || follows_name(rest[0]))
}

/// The first word of a text that does not start as a specifier does; nothing
/// where it does.
pub open spec fn unnamed_word(text: Seq<char>) -> Seq<char> {
    let w = words(text);
    if w.len() == 0 || starts_with_name(w[0]) {
        Seq::empty()
    } else {
        w[0]
    }
}

/// Whether what a text means as a specifier does not depend on the
/// environment: no variable is referred to where one is looked up.
pub open spec fn is_fixed(text: Seq<char>) -> bool {
    !contains(url_text(text), "${"@) && !contains(unnamed_word(text), "${"@)
}

/// Whether the project root is referred to where variables are looked up.
pub open spec fn needs_root(text: Seq<char>) -> bool {
    contains(url_text(text), "${PROJECT_ROOT}"@) || contains(
        unnamed_word(text),
        "${PROJECT_ROOT}"@,
    )
}

/// A text with a directory in place of each reference to the project root.
pub open spec fn with_root(s: Seq<char>, root: Seq<char>) -> Seq<char>
    decreases s.len(),
{
    if s.len() == 0 {
        s
    } else if begins(s, "${PROJECT_ROOT}"@) && "${PROJECT_ROOT}"@.len() > 0 {
        root + with_root(s.skip("${PROJECT_ROOT}"@.len() as int), root)
    } else {
        seq![s[0]] + with_root(s.drop_first(), root)
    }
}

/// A specifier with a directory in place of each reference to the project
/// root up to where its URL stops.
pub open spec fn rooted(text: Seq<char>, root: Seq<char>) -> Seq<char> {
    with_root(text.take(url_stop(text)), root) + text.skip(url_stop(text))
}

proof fn trim_start_shorter(s: Seq<char>)
    ensures
        trim_start(s).len() <= s.len(),
    decreases s.len(),
{
    if s.len() > 0 && is_space(s[0]) {
        trim_start_shorter(s.drop_first());
    }
}

fn url_length_of(s: &[char]) -> (r: usize)
    ensures
        r == url_length(s@, 1),
        r <= s@.len(),
{
    let mut i: usize = 1;
    while i < s.len()
        invariant
            1 <= i,
            s@.len() > 0 ==> i <= s@.len(),
            url_length(s@, 1) == url_length(s@, i as int),
        decreases s.len() - i,
    {
        if s[i] == '\r' || s[i] == '\n' || ((s[i] == ';' || s[i] == '#') && (is_space_char(
            s[i - 1],
        ) || (i + 1 < s.len() && is_space_char(s[i + 1])))) {
            return i;
        }
        i += 1;
    }
    s.len()
}

/// The URL of a specifier, and where it stops.
fn url_of(cs: &[char]) -> (r: (Vec<char>, usize))
    ensures
        r.0@ == url_text(cs@),
        r.1 == url_stop(cs@),
        r.1 <= cs@.len(),
{
    let at: usize = first_index(cs, '@');
    if at == cs.len() || at >= first_index(cs, ';') {
        let none: Vec<char> = Vec::new();
        assert(none@ =~= Seq::empty());
        return (none, cs.len());
    }
    let tail = range_of(cs, at + 1, cs.len());
    assert(tail@ =~= cs@.skip(at + 1));
    let s = trim_start_chars(&tail);
    proof {
        trim_start_shorter(tail@);
    }
    let n: usize = url_length_of(&s);
    let url = range_of(&s, 0, n);
    assert(url@ =~= s@.take(n as int));
    (url, cs.len() - s.len() + n)
}

fn named_start(w: &[char]) -> (r: bool)
    ensures
        r == starts_with_name(w@),
{
    if w.len() == 0 || !is_alnum_char(w[0]) {
        return false;
    }
    let mut i: usize = 0;
    assert(w@.skip(0) =~= w@);
    while i < w.len() && (is_alnum_char(w[i]) || w[i] == '.' || w[i] == '-' || w[i] == '_')
        invariant
            i <= w.len(),
            after_name(w@) == after_name(w@.skip(i as int)),
        decreases w.len() - i,
    {
        assert(w@.skip(i as int).drop_first() =~= w@.skip(i + 1));
        i += 1;
    }
    let mut rest = range_of(w, i, w.len());
    assert(rest@ =~= w@.skip(i as int));
    assert(rest@ == after_name(w@));
    if rest.len() > 0 && rest[0] == '[' {
        let close: usize = first_index(&rest, ']');
        if close == rest.len() {
            return true;
        }
        let tail = range_of(&rest, close + 1, rest.len());
        assert(tail@ =~= rest@.skip(close + 1));
        rest = tail;
    }
    assert(rest@ == after_extras(after_name(w@)));
    if rest.len() == 0 {
        return true;
    }
    let c = rest[0];
    c == '@' || c == '(' || c == '<' || c == '=' || c == '>' || c == '~' || c == '!' || c == ';'
}

fn unnamed_word_of(cs: &[char]) -> (r: Vec<char>)
    ensures
        r@ == unnamed_word(cs@),
{
    let w = words_of(cs);
    let ghost all = char_rows(w@);
    if w.len() > 0 {
        assert(all[0] == w@[0]@);
        if !named_start(&w[0]) {
            let first = range_of(&w[0], 0, w[0].len());
            assert(first@ =~= all[0]);
            return first;
        }
    }
    let none: Vec<char> = Vec::new();
    assert(none@ =~= Seq::empty());
    none
}

/// Whether the project root is referred to where variables are looked up.
pub fn asks_for_root(cs: &[char]) -> (r: bool)
    ensures
        r == needs_root(cs@),
{
    let (url, _) = url_of(cs);
    has(&url, "${PROJECT_ROOT}") || has(&unnamed_word_of(cs), "${PROJECT_ROOT}")
}

/// A specifier with a directory in place of each reference to the project
/// root up to where its URL stops.
pub fn put_root(cs: &[char], root: &str) -> (r: Vec<char>)
    ensures
        r@ == rooted(cs@, root@),
{
    let (_, stop) = url_of(cs);
    let front = range_of(cs, 0, stop);
    let ghost s = front@;
    let dir = chars_of(root);
    let mut out: Vec<char> = Vec::new();
    let mut i: usize = 0;
    proof {
        reveal_strlit("${PROJECT_ROOT}");
    }
    assert(s.skip(0) =~= s);
    assert(out@ + with_root(s, root@) =~= with_root(s, root@));
    while i < front.len()
        invariant
            i <= front.len(),
            s == front@,
            dir@ == root@,
            "${PROJECT_ROOT}"@.len() == 15,
            with_root(s, root@) == out@ + with_root(s.skip(i as int), root@),
        decreases front.len() - i,
    {
        let ghost before = out@;
        let ghost here = s.skip(i as int);
        if has_at(&front, i, "${PROJECT_ROOT}") {
            let mut more = range_of(&dir, 0, dir.len());
            assert(more@ =~= root@);
            proof {
                assert(here.subrange(0, 15) =~= s.subrange(i as int, i + 15));
                assert(here.skip(15) =~= s.skip(i + 15));
            }
            out.append(&mut more);
            i += 15;
            assert(out@ + with_root(s.skip(i as int), root@) =~= before + (root@ + with_root(
                s.skip(i as int),
                root@,
            )));
        } else {
            proof {
                if begins(here, "${PROJECT_ROOT}"@) {
                    assert(here.subrange(0, 15) =~= s.subrange(i as int, i + 15));
                }
                assert(here.drop_first() =~= s.skip(i + 1));
            }
            out.push(front[i]);
            i += 1;
            assert(out@ + with_root(s.skip(i as int), root@) =~= before + (seq![here[0]]
                + with_root(s.skip(i as int), root@)));
        }
    }
    assert(s.skip(i as int) =~= Seq::empty());
    assert(out@ + with_root(Seq::empty(), root@) =~= out@);
    let mut tail = range_of(cs, stop, cs.len());
    assert(tail@ =~= cs@.skip(stop as int));
    assert(s =~= cs@.take(stop as int));
    out.append(&mut tail);
    out
}

/// The URL of a specifier starts behind its `@` and the white space there,
/// and reaches to the end of the line, or to a semicolon that white space
/// follows.
pub proof fn url_stands_behind_the_at(
    name: Seq<char>,
    gap: Seq<char>,
    url: Seq<char>,
    rest: Seq<char>,
)
    requires
        crate::text::lacks(name, '@'),
        crate::text::lacks(name, ';'),
        forall|i: int| 0 <= i < gap.len() ==> is_space(#[trigger] gap[i]),
        url.len() > 0,
        !is_space(url[0]),
        forall|i: int|
            0 <= i < url.len() ==> #[trigger] url[i] != '\r' && url[i] != '\n' && url[i] != ';'
                && url[i] != '#',
        rest.len() == 0 || rest[0] == '\r' || rest[0] == '\n' || (rest.len() > 1 && rest[0] == ';'
            && is_space(rest[1])),
    ensures
        ({
            let text = name + seq!['@'] + gap + url + rest;
            &&& url_text(text) == url
            &&& url_stop(text) == text.len() - rest.len()
        }),
{
    let text = name + seq!['@'] + gap + url + rest;
    let at = name.len() as int;
    crate::text::first_of_is_first(text, '@');
    crate::text::first_of_is_first(text, ';');
    assert(text[at] == '@');
    assert(first_of(text, '@') == at) by {
        let n = first_of(text, '@');
        if n < at {
            assert(text[n] == name[n]);
        }
    }
    assert(first_of(text, ';') > at) by {
        let n = first_of(text, ';');
        if n < at {
            assert(text[n] == name[n]);
        }
    }
    let tail = text.skip(at + 1);
    let s = url + rest;
    assert(tail =~= gap + s);
    crate::text::leading_space_is_trimmed(gap, s);
    assert(url_and_rest(text) == s);
    url_runs_to(url, rest, 1);
    assert(s.take(url.len() as int) =~= url);
}

proof fn url_runs_to(url: Seq<char>, rest: Seq<char>, i: int)
    requires
        1 <= i <= url.len(),
        forall|k: int|
            0 <= k < url.len() ==> #[trigger] url[k] != '\r' && url[k] != '\n' && url[k] != ';'
                && url[k] != '#',
        rest.len() == 0 || rest[0] == '\r' || rest[0] == '\n' || (rest.len() > 1 && rest[0] == ';'
            && is_space(rest[1])),
    ensures
        url_length(url + rest, i) == url.len(),
    decreases url.len() - i,
{
    let s = url + rest;
    if i < url.len() {
        assert(s[i] == url[i]);
        url_runs_to(url, rest, i + 1);
    } else if rest.len() > 0 {
        assert(s[i] == rest[0]);
        if rest.len() > 1 {
            assert(s[i + 1] == rest[1]);
        }
    }
}

/// A specifier without an `@`, or with one only behind its semicolon, gives
/// no URL.
pub proof fn no_url_without_an_at(text: Seq<char>, marker: Seq<char>)
    requires
        crate::text::lacks(text, '@'),
    ensures
        url_text(text).len() == 0,
        url_text(text.push(';') + marker).len() == 0,
{
    crate::text::first_of_is_first(text, '@');
    let n = first_of(text, '@');
    if n < text.len() {
        assert(text[n] == '@');
    }
    let whole = text.push(';') + marker;
    crate::text::first_of_is_first(whole, '@');
    assert(whole[text.len() as int] == ';');
    crate::text::first_of_bound(whole, ';', text.len() as int);
    let m = first_of(whole, '@');
    if m < text.len() {
        assert(whole[m] == text[m]);
    }
}

/// A word starts as a specifier does where it is a name, perhaps with extras
/// in brackets, that ends or is followed by what may follow one.
pub proof fn names_start_specifiers(name: Seq<char>, extras: Seq<char>, rest: Seq<char>)
    requires
        name.len() > 0,
        is_alnum(name[0]),
        forall|i: int|
            0 <= i < name.len() ==> is_alnum(#[trigger] name[i]) || name[i] == '.' || name[i] == '-'
                || name[i] == '_',
        crate::text::lacks(extras, ']'),
        rest.len() == 0 || rest[0] == '@' || rest[0] == '(' || rest[0] == '<' || rest[0] == '='
            || rest[0] == '>' || rest[0] == '~' || rest[0] == '!' || rest[0] == ';',
    ensures
        starts_with_name(name + rest),
        starts_with_name(name + seq!['['] + extras + seq![']'] + rest),
{
    name_is_passed(name, rest);
    assert((name + rest)[0] == name[0]);
    let more = seq!['['] + extras + seq![']'] + rest;
    assert(more[0] == '[');
    name_is_passed(name, more);
    assert(name + seq!['['] + extras + seq![']'] + rest =~= name + more);
    assert((name + more)[0] == name[0]);
    let n = extras.len() as int + 1;
    crate::text::first_of_is_first(more, ']');
    assert(more[n] == ']');
    assert(first_of(more, ']') == n) by {
        let m = first_of(more, ']');
        if 0 < m < n {
            assert(more[m] == extras[m - 1]);
        }
    }
    assert(more.skip(n + 1) =~= rest);
}

proof fn name_is_passed(name: Seq<char>, rest: Seq<char>)
    requires
        forall|i: int|
            0 <= i < name.len() ==> is_alnum(#[trigger] name[i]) || name[i] == '.' || name[i] == '-'
                || name[i] == '_',
        rest.len() == 0 || !(is_alnum(rest[0]) || rest[0] == '.' || rest[0] == '-' || rest[0]
            == '_'),
    ensures
        after_name(name + rest) == rest,
    decreases name.len(),
{
    if name.len() == 0 {
        assert(name + rest =~= rest);
    } else {
        assert(is_name_char(name[0]));
        let less = name.drop_first();
        assert((name + rest).drop_first() =~= less + rest);
        assert forall|i: int| 0 <= i < less.len() implies is_alnum(#[trigger] less[i]) || less[i]
            == '.' || less[i] == '-' || less[i] == '_' by {
            assert(less[i] == name[i + 1]);
        }
        name_is_passed(less, rest);
    }
}

/// A word does not start as a specifier does where it starts with neither a
/// letter nor a digit, or where its name is followed by what may not follow
/// one.
pub proof fn other_words_start_none(name: Seq<char>, rest: Seq<char>)
    requires
        rest.len() > 0,
        forall|i: int|
            0 <= i < name.len() ==> is_alnum(#[trigger] name[i]) || name[i] == '.' || name[i] == '-'
                || name[i] == '_',
        !(is_alnum(rest[0]) || rest[0] == '.' || rest[0] == '-' || rest[0] == '_' || rest[0] == '['
            || rest[0] == '@' || rest[0] == '(' || rest[0] == '<' || rest[0] == '=' || rest[0]
            == '>' || rest[0] == '~' || rest[0] == '!' || rest[0] == ';') || (name.len() > 0
            && !is_alnum(name[0])),
    ensures
        !starts_with_name(name + rest),
{
    if name.len() > 0 {
        assert((name + rest)[0] == name[0]);
    } else {
        assert((name + rest)[0] == rest[0]);
    }
    if !(is_alnum(rest[0]) || rest[0] == '.' || rest[0] == '-' || rest[0] == '_') {
        name_is_passed(name, rest);
    }
}

/// The project root is referred to exactly where `${PROJECT_ROOT}` stands in
/// the URL, or in a first word that does not start as a specifier does; and
/// what a text means is fixed where no `${` stands there.
pub proof fn references_are_found(text: Seq<char>)
    ensures
        ({
            let first = words(text);
            let unnamed = first.len() > 0 && !starts_with_name(first[0]);
            &&& needs_root(text) <==> contains(url_text(text), "${PROJECT_ROOT}"@) || (unnamed
                && contains(first[0], "${PROJECT_ROOT}"@))
            &&& is_fixed(text) <==> !contains(url_text(text), "${"@) && !(unnamed && contains(
                first[0],
                "${"@,
            ))
        }),
{
    reveal_strlit("${PROJECT_ROOT}");
    reveal_strlit("${");
    let none = Seq::<char>::empty();
    assert(!contains(none, "${PROJECT_ROOT}"@));
    assert(!contains(none, "${"@));
}

/// Each reference to the project root is replaced by the root, from left to
/// right, and nothing else is.
pub proof fn references_are_replaced(a: Seq<char>, b: Seq<char>, root: Seq<char>)
    requires
        crate::text::lacks(a, '$'),
    ensures
        with_root(a, root) == a,
        with_root(a + "${PROJECT_ROOT}"@ + b, root) == a + root + with_root(b, root),
    decreases a.len(),
{
    reveal_strlit("${PROJECT_ROOT}");
    let p = "${PROJECT_ROOT}"@;
    if a.len() == 0 {
        let s = a + p + b;
        assert(s.subrange(0, 15) =~= p);
        assert(s.skip(15) =~= b);
        assert(a + root + with_root(b, root) =~= root + with_root(b, root));
    } else {
        let less = a.drop_first();
        assert forall|i: int| 0 <= i < less.len() implies #[trigger] less[i] != '$' by {
            assert(less[i] == a[i + 1]);
        }
        references_are_replaced(less, b, root);
        let s = a + p + b;
        assert(s[0] == a[0]);
        assert(!begins(s, p)) by {
            if begins(s, p) {
                assert(s.subrange(0, 15)[0] == p[0]);
            }
        }
        assert(!begins(a, p)) by {
            if begins(a, p) {
                assert(a.subrange(0, 15)[0] == p[0]);
            }
        }
        assert(s.drop_first() =~= less + p + b);
        assert(seq![a[0]] + less =~= a);
        assert(with_root(s, root) =~= a + root + with_root(b, root));
    }
}

/// What stands behind the URL of a specifier is left as it is.
pub proof fn rest_keeps_its_references(text: Seq<char>, front: Seq<char>, root: Seq<char>)
    requires
        0 <= url_stop(text) <= text.len(),
        front == text.subrange(0, url_stop(text)),
    ensures
        rooted(text, root) == with_root(front, root) + text.subrange(
            url_stop(text),
            text.len() as int,
        ),
{
    assert(text.take(url_stop(text)) =~= front);
    assert(text.skip(url_stop(text)) =~= text.subrange(url_stop(text), text.len() as int));
}

/// A name with extras starts no specifier where what may not follow one
/// follows.
pub proof fn other_words_behind_extras_start_none(
    name: Seq<char>,
    extras: Seq<char>,
    rest: Seq<char>,
)
    requires
        forall|i: int|
            0 <= i < name.len() ==> is_alnum(#[trigger] name[i]) || name[i] == '.' || name[i] == '-'
                || name[i] == '_',
        crate::text::lacks(extras, ']'),
        rest.len() > 0,
        !(rest[0] == '@' || rest[0] == '(' || rest[0] == '<' || rest[0] == '=' || rest[0] == '>'
            || rest[0] == '~' || rest[0] == '!' || rest[0] == ';'),
    ensures
        !starts_with_name(name + seq!['['] + extras + seq![']'] + rest),
{
    let more = seq!['['] + extras + seq![']'] + rest;
    assert(more[0] == '[');
    name_is_passed(name, more);
    assert(name + seq!['['] + extras + seq![']'] + rest =~= name + more);
    let n = extras.len() as int + 1;
    crate::text::first_of_is_first(more, ']');
    assert(more[n] == ']');
    assert(first_of(more, ']') == n) by {
        let m = first_of(more, ']');
        if 0 < m < n {
            assert(more[m] == extras[m - 1]);
        }
    }
    assert(more.skip(n + 1) =~= rest);
}

proof fn url_runs_to_mark(url: Seq<char>, space: char, mark: char, rest: Seq<char>, i: int)
    requires
        1 <= i <= url.len() + 1,
        forall|k: int|
            0 <= k < url.len() ==> #[trigger] url[k] != '\r' && url[k] != '\n' && url[k] != ';'
                && url[k] != '#',
        is_space(space) && space != '\r' && space != '\n',
        mark == ';' || mark == '#',
    ensures
        url_length(url + seq![space, mark] + rest, i) == url.len() + 1,
    decreases url.len() + 1 - i,
{
    let s = url + seq![space, mark] + rest;
    let n = url.len() as int;
    assert(s[n] == space);
    assert(s[n + 1] == mark);
    if i <= n {
        if i < n {
            assert(s[i] == url[i]);
        }
        url_runs_to_mark(url, space, mark, rest, i + 1);
    }
}

/// The URL of a specifier stops before a semicolon or a hash that follows
/// white space, which still belongs to it.
pub proof fn url_stops_before_a_mark(
    name: Seq<char>,
    url: Seq<char>,
    space: char,
    mark: char,
    rest: Seq<char>,
)
    requires
        crate::text::lacks(name, '@'),
        crate::text::lacks(name, ';'),
        url.len() > 0,
        !is_space(url[0]),
        forall|i: int|
            0 <= i < url.len() ==> #[trigger] url[i] != '\r' && url[i] != '\n' && url[i] != ';'
                && url[i] != '#',
        is_space(space) && space != '\r' && space != '\n',
        mark == ';' || mark == '#',
    ensures
        ({
            let text = name + seq!['@'] + url + seq![space, mark] + rest;
            &&& url_text(text) == url.push(space)
            &&& url_stop(text) == name.len() + url.len() + 2
        }),
{
    let text = name + seq!['@'] + url + seq![space, mark] + rest;
    let at = name.len() as int;
    crate::text::first_of_is_first(text, '@');
    crate::text::first_of_is_first(text, ';');
    assert(text[at] == '@');
    assert(first_of(text, '@') == at) by {
        let n = first_of(text, '@');
        if n < at {
            assert(text[n] == name[n]);
        }
    }
    assert(first_of(text, ';') > at) by {
        let n = first_of(text, ';');
        if n < at {
            assert(text[n] == name[n]);
        }
    }
    let s = url + seq![space, mark] + rest;
    assert(text.skip(at + 1) =~= s);
    assert(s[0] == url[0]);
    assert(trim_start(s) == s);
    url_runs_to_mark(url, space, mark, rest, 1);
    assert(s.take(url.len() as int + 1) =~= url.push(space));
}

} // verus!
