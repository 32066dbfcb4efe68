//! Keys that name environment directories.

use crate::convert::requirement::{remove_repeats, without_repeats};
use crate::sort::{sort, sorted, sorted_is_sorted, Ranked};
use crate::text::{
    first_of, lacks, split, split_piece, text_le, text_le_antisymmetric, text_le_reflexive,
    text_le_total, text_le_transitive,
};
use sha2::Digest;
use vstd::prelude::*;
use vstd::relations::*;
use vstd::seq_lib::*;
use vstd::string::*;
use vstd::utf8::*;

verus! {

/// The SHA-256 digest of bytes.
pub uninterp spec fn sha256(bytes: Seq<u8>) -> Seq<u8>;

/// `sha2::Sha256::digest`: the 32 bytes of the digest.
#[verifier::external_body]
fn digest(bytes: &[u8]) -> (r: Vec<u8>)
    ensures
        r@ == sha256(bytes@),
        r@.len() == 32,
{
    sha2::Sha256::digest(bytes).to_vec()
}

/// The hexadecimal digit of a value below sixteen.
pub open spec fn hex_digit(d: int) -> char {
    if d < 10 {
        ((d + 48) as u8) as char
    } else {
        ((d + 87) as u8) as char
    }
}

/// Bytes in hexadecimal, two digits each.
pub open spec fn hex(bytes: Seq<u8>) -> Seq<char>
    decreases bytes.len(),
{
    if bytes.len() == 0 {
        Seq::empty()
    } else {
        hex(bytes.drop_last()).push(hex_digit(bytes.last() as int / 16)).push(
            hex_digit(bytes.last() as int % 16),
        )
    }
}

fn hex_char(d: u8) -> (r: char)
    requires
        d < 16,
    ensures
        r == hex_digit(d as int),
{
    if d < 10 {
        (d + 48) as char
    } else {
        (d + 87) as char
    }
}

/// The first bytes of a digest in hexadecimal.
fn hex_prefix(bytes: &Vec<u8>, n: usize) -> (r: String)
    requires
        n <= bytes@.len(),
    ensures
        r@ == hex(bytes@.take(n as int)),
{
    let mut out = String::new();
    let mut i: usize = 0;
    assert(out@ =~= hex(bytes@.take(0)));
    while i < n
        invariant
            i <= n <= bytes@.len(),
            out@ == hex(bytes@.take(i as int)),
        decreases n - i,
    {
        assert(bytes@.take(i + 1).drop_last() =~= bytes@.take(i as int));
        assert(bytes@.take(i + 1).last() == bytes@[i as int]);
        out.push(hex_char(bytes[i] / 16));
        out.push(hex_char(bytes[i] % 16));
        i += 1;
    }
    out
}

/// Two hexadecimal digits stand for each byte.
proof fn hex_length(bytes: Seq<u8>)
    ensures
        hex(bytes).len() == 2 * bytes.len(),
    decreases bytes.len(),
{
    if bytes.len() > 0 {
        hex_length(bytes.drop_last());
    }
}

/// Texts with a separator between each two.
pub open spec fn joined(parts: Seq<Seq<char>>, separator: char) -> Seq<char>
    decreases parts.len(),
{
    if parts.len() == 0 {
        Seq::empty()
    } else if parts.len() == 1 {
        parts[0]
    } else {
        joined(parts.drop_last(), separator).push(separator) + parts.last()
    }
}

fn join(parts: &Vec<String>, separator: char) -> (r: String)
    ensures
        r@ == joined(parts.deep_view(), separator),
{
    let ghost all = parts.deep_view();
    let mut out = String::new();
    let mut i: usize = 0;
    assert(out@ =~= joined(all.take(0), separator));
    while i < parts.len()
        invariant
            i <= parts.len(),
            all == parts.deep_view(),
            out@ == joined(all.take(i as int), separator),
        decreases parts.len() - i,
    {
        assert(all.take(i + 1).drop_last() =~= all.take(i as int));
        assert(all.take(i + 1).last() == parts@[i as int]@);
        if i > 0 {
            out.push(separator);
        }
        out.append(parts[i].as_str());
        i += 1;
        assert(out@ =~= joined(all.take(i as int), separator));
    }
    assert(all.take(i as int) =~= all);
    out
}

/// The texts of borrowed strings.
pub open spec fn borrowed(names: Seq<&str>) -> Seq<Seq<char>> {
    Seq::new(names.len(), |i: int| names[i]@)
}

fn own(names: &[&str]) -> (r: Vec<String>)
    ensures
        r.deep_view() == borrowed(names@),
{
    let mut out: Vec<String> = Vec::new();
    let mut i: usize = 0;
    while i < names.len()
        invariant
            i <= names.len(),
            out.deep_view() =~= borrowed(names@).take(i as int),
        decreases names.len() - i,
    {
        let ghost done = out.deep_view();
        let one = names[i].to_owned();
        out.push(one);
        i += 1;
        assert(out.deep_view() =~= done.push(one@));
        assert(out.deep_view() =~= borrowed(names@).take(i as int));
    }
    assert(borrowed(names@).take(i as int) =~= borrowed(names@));
    out
}

/// The first bytes of the digest of a text, in hexadecimal.
pub open spec fn text_key(text: Seq<char>, bytes: int) -> Seq<char> {
    hex(sha256(encode_utf8(text)).take(bytes))
}

/// The key of group names: of the names in order, each once.
pub open spec fn names_key(names: Seq<Seq<char>>) -> Seq<char> {
    text_key(joined(without_repeats(sorted::<String>(names)), ','), 4)
}

/// The key of match specs: of their spellings in order.
pub open spec fn content_key(canonical: Seq<Seq<char>>) -> Seq<char> {
    text_key(joined(sorted::<String>(canonical), '\n'), 32)
}

/// The key of group names and match specs together.
pub open spec fn names_and_content_key(
    names: Seq<Seq<char>>,
    canonical: Seq<Seq<char>>,
) -> Seq<char> {
    text_key(
        joined(sorted::<String>(names), ',').push('\0') + joined(
            sorted::<String>(canonical),
            '\n',
        ),
        32,
    )
}

fn key_of(text: &str, bytes: usize) -> (r: String)
    requires
        bytes <= 32,
    ensures
        r@ == text_key(text@, bytes as int),
        r@.len() == 2 * bytes,
{
    let whole = digest(text.as_bytes());
    proof {
        hex_length(whole@.take(bytes as int));
    }
    hex_prefix(&whole, bytes)
}

/// A key that names one environment directory.
#[derive(Debug, Clone, PartialEq, Eq, Hash)]
pub struct EnvironmentKey(String);

impl EnvironmentKey {
    /// The text of the key.
    pub closed spec fn text(&self) -> Seq<char> {
        self.0@
    }

    /// The key of a selection of groups. Neither the order of the names nor
    /// repeating one matters.
    pub fn from_symbolic_names(names: &[&str]) -> (r: EnvironmentKey)
        ensures
            r.text() == names_key(borrowed(names@)),
            r.text().len() == 8,
    {
        let ordered = sort(&own(names));
        let once = remove_repeats(&ordered);
        let signature = join(&once, ',');
        EnvironmentKey(key_of(signature.as_str(), 4))
    }

    /// The key of a list of match specs, given by their canonical spelling.
    /// Their order does not matter.
    pub fn from_content(canonical: &[&str]) -> (r: EnvironmentKey)
        ensures
            r.text() == content_key(borrowed(canonical@)),
            r.text().len() == 64,
    {
        let ordered = sort(&own(canonical));
        let signature = join(&ordered, '\n');
        EnvironmentKey(key_of(signature.as_str(), 32))
    }

    /// The key of a selection of groups together with a list of match specs.
    /// The order of neither matters.
    pub fn from_names_and_content(names: &[&str], canonical: &[&str]) -> (r: EnvironmentKey)
        ensures
            r.text() == names_and_content_key(borrowed(names@), borrowed(canonical@)),
            r.text().len() == 64,
    {
        let mut signature = join(&sort(&own(names)), ',');
        signature.push('\0');
        let content = join(&sort(&own(canonical)), '\n');
        signature.append(content.as_str());
        EnvironmentKey(key_of(signature.as_str(), 32))
    }

    /// The key of a script, given the text of its path.
    pub fn from_identity_path(path: &str) -> (r: EnvironmentKey)
        ensures
            r.text() == text_key(path@, 32),
            r.text().len() == 64,
    {
        EnvironmentKey(key_of(path, 32))
    }

    /// A key that was read off the name of a directory.
    pub fn from_raw(key: String) -> (r: EnvironmentKey)
        ensures
            r.text() == key@,
    {
        EnvironmentKey(key)
    }

    /// The text of the key.
    pub fn as_str(&self) -> (r: &str)
        ensures
            r@ == self.text(),
    {
        self.0.as_str()
    }
}

/// The order of texts, as a function.
spec fn text_order() -> spec_fn(Seq<char>, Seq<char>) -> bool {
    |a: Seq<char>, b: Seq<char>| text_le(a, b)
}

proof fn text_order_is_total()
    ensures
        total_ordering(text_order()),
{
    let le = text_order();
    assert forall|a: Seq<char>| #[trigger] le(a, a) by {
        text_le_reflexive(a);
    }
    assert forall|a: Seq<char>, b: Seq<char>| #[trigger] le(a, b) && #[trigger] le(b, a) implies a
        == b by {
        text_le_antisymmetric(a, b);
    }
    assert forall|a: Seq<char>, b: Seq<char>, c: Seq<char>| #[trigger]
        le(a, b) && #[trigger] le(b, c) implies le(a, c) by {
        text_le_transitive(a, b, c);
    }
    assert forall|a: Seq<char>, b: Seq<char>| #[trigger] le(a, b) || #[trigger] le(b, a) by {
        text_le_total(a, b);
    }
}

/// Texts that are the same but for their order are the same once sorted.
proof fn sorted_texts_unique(a: Seq<Seq<char>>, b: Seq<Seq<char>>)
    requires
        a.to_multiset() == b.to_multiset(),
    ensures
        sorted::<String>(a) == sorted::<String>(b),
{
    sorted_is_sorted::<String>(a);
    sorted_is_sorted::<String>(b);
    text_order_is_total();
    let x = sorted::<String>(a);
    let y = sorted::<String>(b);
    let le = text_order();
    assert forall|i: int, j: int| 0 <= i < j < x.len() implies #[trigger] le(x[i], x[j]) by {
        assert(String::ranks_le(x[i], x[j]));
    }
    assert forall|i: int, j: int| 0 <= i < j < y.len() implies #[trigger] le(y[i], y[j]) by {
        assert(String::ranks_le(y[i], y[j]));
    }
    lemma_sorted_unique(x, y, le);
}

/// The key of match specs does not depend on their order.
pub proof fn content_key_ignores_order(a: Seq<Seq<char>>, b: Seq<Seq<char>>)
    requires
        a.to_multiset() == b.to_multiset(),
    ensures
        content_key(a) == content_key(b),
{
    sorted_texts_unique(a, b);
}

/// The key of groups and match specs depends on the order of neither.
pub proof fn names_and_content_key_ignores_order(
    names: Seq<Seq<char>>,
    other_names: Seq<Seq<char>>,
    canonical: Seq<Seq<char>>,
    other_canonical: Seq<Seq<char>>,
)
    requires
        names.to_multiset() == other_names.to_multiset(),
        canonical.to_multiset() == other_canonical.to_multiset(),
    ensures
        names_and_content_key(names, canonical) == names_and_content_key(
            other_names,
            other_canonical,
        ),
{
    sorted_texts_unique(names, other_names);
    sorted_texts_unique(canonical, other_canonical);
}

/// In a sorted list without repetitions each text stands once, before all
/// that come after it.
proof fn without_repeats_strict(s: Seq<Seq<char>>)
    requires
        forall|i: int, j: int| 0 <= i < j < s.len() ==> text_le(#[trigger] s[i], #[trigger] s[j]),
    ensures
        ({
            let r = without_repeats(s);
            &&& forall|i: int, j: int|
                0 <= i < j < r.len() ==> text_le(#[trigger] r[i], #[trigger] r[j]) && r[i] != r[j]
            &&& forall|x: Seq<char>| #[trigger] r.contains(x) <==> s.contains(x)
            &&& s.len() > 0 ==> r.len() > 0 && r.last() == s.last()
        }),
    decreases s.len(),
{
    let r = without_repeats(s);
    if s.len() > 0 {
        let front = s.drop_last();
        assert forall|i: int, j: int| 0 <= i < j < front.len() implies text_le(
            #[trigger] front[i],
            #[trigger] front[j],
        ) by {
            assert(text_le(s[i], s[j]));
        }
        without_repeats_strict(front);
        let before = without_repeats(front);
        let last = s.last();
        assert forall|x: Seq<char>| s.contains(x) <==> front.contains(x) || x == last by {
            if s.contains(x) {
                let i = s.index_of(x);
                if i < front.len() {
                    assert(front[i] == x);
                }
            }
            if front.contains(x) {
                let i = front.index_of(x);
                assert(s[i] == x);
            }
            assert(s[s.len() - 1] == last);
        }
        if s.len() > 1 && s[s.len() - 2] == last {
            assert(front[s.len() - 2] == last);
            assert(front.contains(last));
        } else {
            assert forall|i: int, j: int| 0 <= i < j < r.len() implies text_le(
                #[trigger] r[i],
                #[trigger] r[j],
            ) && r[i] != r[j] by {
                if j < before.len() {
                    assert(text_le(before[i], before[j]));
                } else {
                    let k = choose|k: int| 0 <= k < front.len() && front[k] == before[i];
                    assert(before.contains(before[i]));
                    assert(front.contains(before[i]));
                    assert(text_le(s[k], s[s.len() - 1]));
                    if before[i] == last {
                        assert(text_le(s[s.len() - 2], s[s.len() - 1]));
                        if k < s.len() - 2 {
                            assert(text_le(s[k], s[s.len() - 2]));
                        }
                        text_le_reflexive(last);
                        text_le_antisymmetric(s[s.len() - 2], last);
                    }
                }
            }
            assert forall|x: Seq<char>| #[trigger] r.contains(x) <==> s.contains(x) by {
                if r.contains(x) {
                    let i = r.index_of(x);
                    if i < before.len() {
                        assert(before[i] == x);
                        assert(before.contains(x));
                    }
                }
                if front.contains(x) {
                    assert(before.contains(x));
                    let i = before.index_of(x);
                    assert(r[i] == x);
                }
                assert(r[r.len() - 1] == last);
            }
        }
    }
}

/// Two strictly ordered lists of the same texts are the same.
proof fn strict_lists_unique(a: Seq<Seq<char>>, b: Seq<Seq<char>>)
    requires
        forall|i: int, j: int|
            0 <= i < j < a.len() ==> text_le(#[trigger] a[i], #[trigger] a[j]) && a[i] != a[j],
        forall|i: int, j: int|
            0 <= i < j < b.len() ==> text_le(#[trigger] b[i], #[trigger] b[j]) && b[i] != b[j],
        forall|x: Seq<char>| #[trigger] a.contains(x) <==> b.contains(x),
    ensures
        a == b,
    decreases a.len(),
{
    if a.len() == 0 {
        if b.len() > 0 {
            assert(b.contains(b[0]));
            assert(a.contains(b[0]));
        }
        assert(a =~= b);
    } else {
        assert(a.contains(a.last())) by {
            assert(a[a.len() - 1] == a.last());
        }
        assert(b.contains(a.last()));
        assert(b.contains(b.last())) by {
            assert(b[b.len() - 1] == b.last());
        }
        assert(a.contains(b.last()));
        if a.last() != b.last() {
            let i = a.index_of(b.last());
            let j = b.index_of(a.last());
            assert(text_le(a[i], a[a.len() - 1]));
            assert(text_le(b[j], b[b.len() - 1]));
            text_le_antisymmetric(a.last(), b.last());
        }
        let x = a.drop_last();
        let y = b.drop_last();
        assert forall|i: int, j: int| 0 <= i < j < x.len() implies text_le(
            #[trigger] x[i],
            #[trigger] x[j],
        ) && x[i] != x[j] by {
            assert(text_le(a[i], a[j]) && a[i] != a[j]);
        }
        assert forall|i: int, j: int| 0 <= i < j < y.len() implies text_le(
            #[trigger] y[i],
            #[trigger] y[j],
        ) && y[i] != y[j] by {
            assert(text_le(b[i], b[j]) && b[i] != b[j]);
        }
        assert forall|t: Seq<char>| #[trigger] x.contains(t) <==> y.contains(t) by {
            if x.contains(t) {
                let i = x.index_of(t);
                assert(a[i] == t && a[i] != a[a.len() - 1]);
                assert(a.contains(t));
                let j = b.index_of(t);
                assert(y[j] == t);
            }
            if y.contains(t) {
                let i = y.index_of(t);
                assert(b[i] == t && b[i] != b[b.len() - 1]);
                assert(b.contains(t));
                assert(a.contains(t));
                let j = a.index_of(t);
                assert(x[j] == t);
            }
        }
        strict_lists_unique(x, y);
        assert(a =~= x.push(a.last()));
        assert(b =~= y.push(b.last()));
    }
}

/// The key of groups depends on which are named alone: neither on their
/// order nor on how often one is named.
pub proof fn names_key_ignores_order_and_repeats(a: Seq<Seq<char>>, b: Seq<Seq<char>>)
    requires
        forall|name: Seq<char>| #[trigger] a.contains(name) <==> b.contains(name),
    ensures
        names_key(a) == names_key(b),
{
    broadcast use group_to_multiset_ensures;

    sorted_is_sorted::<String>(a);
    sorted_is_sorted::<String>(b);
    let x = sorted::<String>(a);
    let y = sorted::<String>(b);
    assert forall|i: int, j: int| 0 <= i < j < x.len() implies text_le(
        #[trigger] x[i],
        #[trigger] x[j],
    ) by {
        assert(String::ranks_le(x[i], x[j]));
    }
    assert forall|i: int, j: int| 0 <= i < j < y.len() implies text_le(
        #[trigger] y[i],
        #[trigger] y[j],
    ) by {
        assert(String::ranks_le(y[i], y[j]));
    }
    without_repeats_strict(x);
    without_repeats_strict(y);
    assert forall|t: Seq<char>| #[trigger] without_repeats(x).contains(t) <==> without_repeats(
        y,
    ).contains(t) by {
        assert(x.to_multiset().count(t) == a.to_multiset().count(t));
        assert(y.to_multiset().count(t) == b.to_multiset().count(t));
        assert(a.contains(t) <==> b.contains(t));
    }
    strict_lists_unique(without_repeats(x), without_repeats(y));
}

/// Whether no text is empty or holds a separator.
pub open spec fn are_parts(parts: Seq<Seq<char>>, separator: char) -> bool {
    forall|i: int|
        0 <= i < parts.len() ==> (#[trigger] parts[i]).len() > 0 && lacks(parts[i], separator)
}

proof fn joined_splits(parts: Seq<Seq<char>>, separator: char)
    requires
        parts.len() > 0,
        are_parts(parts, separator),
    ensures
        split(joined(parts, separator), separator) == parts,
        joined(parts, separator).len() > 0,
    decreases parts.len(),
{
    let last = parts.last();
    assert(parts[parts.len() - 1] == last);
    if parts.len() == 1 {
        split_piece(Seq::empty(), last, separator);
        assert(parts =~= seq![last]);
    } else {
        let front = parts.drop_last();
        assert forall|i: int| 0 <= i < front.len() implies (#[trigger] front[i]).len() > 0 && lacks(
            front[i],
            separator,
        ) by {
            assert(front[i] == parts[i]);
        }
        joined_splits(front, separator);
        split_piece(joined(front, separator), last, separator);
        assert(parts =~= front.push(last));
    }
}

/// What parts are joined to tells them apart.
proof fn joined_tells_apart(a: Seq<Seq<char>>, b: Seq<Seq<char>>, separator: char)
    requires
        are_parts(a, separator),
        are_parts(b, separator),
        joined(a, separator) == joined(b, separator),
    ensures
        a == b,
{
    if a.len() > 0 {
        joined_splits(a, separator);
    }
    if b.len() > 0 {
        joined_splits(b, separator);
    }
    if a.len() == 0 || b.len() == 0 {
        assert(a =~= b);
    }
}

proof fn sorted_are_parts(s: Seq<Seq<char>>, separator: char)
    requires
        are_parts(s, separator),
    ensures
        are_parts(sorted::<String>(s), separator),
        sorted::<String>(s).to_multiset() == s.to_multiset(),
{
    broadcast use group_to_multiset_ensures;

    sorted_is_sorted::<String>(s);
    let r = sorted::<String>(s);
    assert forall|i: int| 0 <= i < r.len() implies (#[trigger] r[i]).len() > 0 && lacks(
        r[i],
        separator,
    ) by {
        assert(r.to_multiset().count(r[i]) > 0);
        assert(s.to_multiset().count(r[i]) > 0);
        let k = s.index_of(r[i]);
        assert(s[k] == r[i]);
    }
}

proof fn joined_lacks(parts: Seq<Seq<char>>, separator: char, c: char)
    requires
        c != separator,
        forall|i: int| 0 <= i < parts.len() ==> lacks(#[trigger] parts[i], c),
    ensures
        lacks(joined(parts, separator), c),
    decreases parts.len(),
{
    if parts.len() > 1 {
        let front = parts.drop_last();
        assert forall|i: int| 0 <= i < front.len() implies lacks(#[trigger] front[i], c) by {
            assert(front[i] == parts[i]);
        }
        joined_lacks(front, separator, c);
        assert(lacks(parts[parts.len() - 1], c));
    } else if parts.len() == 1 {
        assert(lacks(parts[0], c));
    }
}

proof fn first_behind(a: Seq<char>, b: Seq<char>, c: char)
    requires
        lacks(a, c),
    ensures
        first_of(a.push(c) + b, c) == a.len(),
    decreases a.len(),
{
    let s = a.push(c) + b;
    if a.len() > 0 {
        let rest = a.drop_first();
        assert(s[0] == a[0]);
        assert(s.drop_first() =~= rest.push(c) + b);
        assert forall|i: int| 0 <= i < rest.len() implies rest[i] != c by {
            assert(rest[i] == a[i + 1]);
        }
        first_behind(rest, b, c);
    }
}

/// The key of groups and match specs is that of a text which tells what was
/// selected: two selections whose texts are the same name the same groups as
/// often, and hold the same match specs as often. So two selections that
/// differ have different keys, unless the digests of their two texts are the
/// same. No group is named by nothing or by a text with a comma or a null
/// character, and no match spec is spelled by nothing or with a newline.
pub proof fn names_and_content_key_tells_apart(
    names: Seq<Seq<char>>,
    canonical: Seq<Seq<char>>,
    other_names: Seq<Seq<char>>,
    other_canonical: Seq<Seq<char>>,
)
    requires
        are_parts(names, ','),
        are_parts(other_names, ','),
        forall|i: int| 0 <= i < names.len() ==> lacks(#[trigger] names[i], '\0'),
        forall|i: int| 0 <= i < other_names.len() ==> lacks(#[trigger] other_names[i], '\0'),
        are_parts(canonical, '\n'),
        are_parts(other_canonical, '\n'),
    ensures
        exists|a: Seq<char>, b: Seq<char>|
            #![trigger encode_utf8(a), encode_utf8(b)]
            names_and_content_key(names, canonical) == hex(sha256(encode_utf8(a)).take(32))
                && names_and_content_key(other_names, other_canonical) == hex(
                sha256(encode_utf8(b)).take(32),
            ) && (a == b ==> names.to_multiset() == other_names.to_multiset()
                && canonical.to_multiset() == other_canonical.to_multiset()),
{
    broadcast use group_to_multiset_ensures;

    sorted_are_parts(names, ',');
    sorted_are_parts(other_names, ',');
    sorted_are_parts(canonical, '\n');
    sorted_are_parts(other_canonical, '\n');
    let n = sorted::<String>(names);
    let m = sorted::<String>(other_names);
    let c = sorted::<String>(canonical);
    let d = sorted::<String>(other_canonical);
    assert forall|i: int| 0 <= i < n.len() implies lacks(#[trigger] n[i], '\0') by {
        assert(n.to_multiset().count(n[i]) > 0);
        assert(names.to_multiset().count(n[i]) > 0);
        let k = names.index_of(n[i]);
        assert(names[k] == n[i]);
    }
    assert forall|i: int| 0 <= i < m.len() implies lacks(#[trigger] m[i], '\0') by {
        assert(m.to_multiset().count(m[i]) > 0);
        assert(other_names.to_multiset().count(m[i]) > 0);
        let k = other_names.index_of(m[i]);
        assert(other_names[k] == m[i]);
    }
    joined_lacks(n, ',', '\0');
    joined_lacks(m, ',', '\0');
    let x = joined(n, ',');
    let y = joined(m, ',');
    let u = joined(c, '\n');
    let v = joined(d, '\n');
    let a = x.push('\0') + u;
    let b = y.push('\0') + v;
    first_behind(x, u, '\0');
    first_behind(y, v, '\0');
    if a == b {
        assert(x =~= a.take(x.len() as int));
        assert(y =~= b.take(y.len() as int));
        assert(u =~= a.skip(x.len() as int + 1));
        assert(v =~= b.skip(y.len() as int + 1));
        joined_tells_apart(n, m, ',');
        joined_tells_apart(c, d, '\n');
    }
    assert(names_and_content_key(names, canonical) == hex(sha256(encode_utf8(a)).take(32)));
}

/// The key of match specs is that of a text which tells them up to their
/// order.
pub proof fn content_key_tells_apart(canonical: Seq<Seq<char>>, other: Seq<Seq<char>>)
    requires
        are_parts(canonical, '\n'),
        are_parts(other, '\n'),
    ensures
        exists|a: Seq<char>, b: Seq<char>|
            #![trigger encode_utf8(a), encode_utf8(b)]
            content_key(canonical) == hex(sha256(encode_utf8(a)).take(32)) && content_key(other)
                == hex(sha256(encode_utf8(b)).take(32)) && (a == b ==> canonical.to_multiset()
                == other.to_multiset()),
{
    sorted_are_parts(canonical, '\n');
    sorted_are_parts(other, '\n');
    let a = joined(sorted::<String>(canonical), '\n');
    let b = joined(sorted::<String>(other), '\n');
    if a == b {
        joined_tells_apart(sorted::<String>(canonical), sorted::<String>(other), '\n');
    }
    assert(content_key(canonical) == hex(sha256(encode_utf8(a)).take(32)));
    assert(content_key(other) == hex(sha256(encode_utf8(b)).take(32)));
}

/// The key of groups is that of a text which tells which are named.
pub proof fn names_key_tells_apart(names: Seq<Seq<char>>, other: Seq<Seq<char>>)
    requires
        are_parts(names, ','),
        are_parts(other, ','),
    ensures
        exists|a: Seq<char>, b: Seq<char>|
            #![trigger encode_utf8(a), encode_utf8(b)]
            names_key(names) == hex(sha256(encode_utf8(a)).take(4)) && names_key(other) == hex(
                sha256(encode_utf8(b)).take(4),
            ) && (a == b ==> forall|name: Seq<char>| #[trigger]
                names.contains(name) <==> other.contains(name)),
{
    broadcast use group_to_multiset_ensures;

    sorted_are_parts(names, ',');
    sorted_are_parts(other, ',');
    sorted_is_sorted::<String>(names);
    sorted_is_sorted::<String>(other);
    let x = sorted::<String>(names);
    let y = sorted::<String>(other);
    assert forall|i: int, j: int| 0 <= i < j < x.len() implies text_le(
        #[trigger] x[i],
        #[trigger] x[j],
    ) by {
        assert(String::ranks_le(x[i], x[j]));
    }
    assert forall|i: int, j: int| 0 <= i < j < y.len() implies text_le(
        #[trigger] y[i],
        #[trigger] y[j],
    ) by {
        assert(String::ranks_le(y[i], y[j]));
    }
    without_repeats_strict(x);
    without_repeats_strict(y);
    let p = without_repeats(x);
    let q = without_repeats(y);
    assert forall|i: int| 0 <= i < p.len() implies (#[trigger] p[i]).len() > 0 && lacks(
        p[i],
        ',',
    ) by {
        assert(p.contains(p[i]));
        let k = x.index_of(p[i]);
        assert(x[k] == p[i]);
    }
    assert forall|i: int| 0 <= i < q.len() implies (#[trigger] q[i]).len() > 0 && lacks(
        q[i],
        ',',
    ) by {
        assert(q.contains(q[i]));
        let k = y.index_of(q[i]);
        assert(y[k] == q[i]);
    }
    let a = joined(p, ',');
    let b = joined(q, ',');
    if a == b {
        joined_tells_apart(p, q, ',');
        assert forall|name: Seq<char>| #[trigger] names.contains(name) <==> other.contains(
            name,
        ) by {
            assert(x.to_multiset().count(name) == names.to_multiset().count(name));
            assert(y.to_multiset().count(name) == other.to_multiset().count(name));
            assert(p.contains(name) <==> x.contains(name));
            assert(q.contains(name) <==> y.contains(name));
        }
    }
    assert(names_key(names) == hex(sha256(encode_utf8(a)).take(4)));
    assert(names_key(other) == hex(sha256(encode_utf8(b)).take(4)));
}

/// Different bytes are different in hexadecimal.
pub proof fn hex_tells_apart(a: Seq<u8>, b: Seq<u8>)
    requires
        hex(a) == hex(b),
    ensures
        a == b,
    decreases a.len(),
{
    hex_length(a);
    hex_length(b);
    if a.len() == 0 {
        assert(a =~= b);
    } else {
        let x = hex(a);
        let y = hex(b);
        let n = x.len() as int;
        assert(x[n - 1] == hex_digit(a.last() as int % 16));
        assert(y[n - 1] == hex_digit(b.last() as int % 16));
        assert(x[n - 2] == hex_digit(a.last() as int / 16));
        assert(y[n - 2] == hex_digit(b.last() as int / 16));
        hex_digit_tells_apart(a.last() as int % 16, b.last() as int % 16);
        hex_digit_tells_apart(a.last() as int / 16, b.last() as int / 16);
        assert(hex(a.drop_last()) =~= x.take(n - 2));
        assert(hex(b.drop_last()) =~= y.take(n - 2));
        hex_tells_apart(a.drop_last(), b.drop_last());
        assert(a =~= a.drop_last().push(a.last()));
        assert(b =~= b.drop_last().push(b.last()));
    }
}

proof fn hex_digit_tells_apart(d: int, e: int)
    requires
        0 <= d < 16,
        0 <= e < 16,
        hex_digit(d) == hex_digit(e),
    ensures
        d == e,
{
    assert(((d + 48) as u8) as char as u32 == d + 48);
    assert(((e + 48) as u8) as char as u32 == e + 48);
    assert(((d + 87) as u8) as char as u32 == d + 87);
    assert(((e + 87) as u8) as char as u32 == e + 87);
}

/// The hexadecimal digits are `0` to `9` and `a` to `f`.
pub proof fn hexadecimal_digits(d: int)
    requires
        0 <= d < 16,
    ensures
        d < 10 ==> hex_digit(d) as int == '0' as int + d,
        d >= 10 ==> hex_digit(d) as int == 'a' as int + (d - 10),
{
}

} // verus!
