//! What versions and comparisons mean, whatever they are made from: how a
//! spelled version reads, which of two versions comes first, which versions
//! a comparison takes, and which a specifier asks for.

use crate::conda::{ClauseView, Comparator, ConditionView, VersionSpecView};
use crate::marker::condition::{epoch_text, release_text, version_text};
use crate::pep440::{Operator, VersionView};
use crate::text::{decimal, digit};
use vstd::prelude::*;
use vstd::string::*;

verus! {

/// A version: its epoch, its release segments, and the stages before or
/// behind that release, each a word and a number. The number of a stage
/// that is spelled without one is negative.
pub struct Point {
    pub epoch: nat,
    pub release: Seq<nat>,
    pub stages: Seq<(Seq<char>, int)>,
}

/// A version that is being read, and whether its last release segment may
/// still have digits.
pub struct Reading {
    pub epoch: nat,
    pub release: Seq<nat>,
    pub open: bool,
    pub stages: Seq<(Seq<char>, int)>,
}

/// Whether a character is a decimal digit.
pub open spec fn is_digit(c: char) -> bool {
    '0' <= c <= '9'
}

/// The value of a decimal digit.
pub open spec fn digit_value(c: char) -> int {
    (c as u32) - 48
}

/// A number with one more digit; a negative one has none yet.
pub open spec fn with_digit(n: int, c: char) -> int {
    if n < 0 {
        digit_value(c)
    } else {
        10 * n + digit_value(c)
    }
}

/// A version that is being read, with one more character.
pub open spec fn step(r: Reading, c: char) -> Reading {
    if is_digit(c) {
        if r.stages.len() > 0 {
            let last = r.stages.last();
            Reading { stages: r.stages.drop_last().push((last.0, with_digit(last.1, c))), ..r }
        } else if r.open && r.release.len() > 0 {
            Reading {
                release: r.release.drop_last().push(
                    with_digit(r.release.last() as int, c) as nat,
                ),
                ..r
            }
        } else {
            Reading { release: r.release.push(digit_value(c) as nat), open: true, ..r }
        }
    } else if c == '.' {
        Reading { open: false, ..r }
    } else if c == '!' {
        Reading { epoch: r.release.last(), release: Seq::empty(), open: false, ..r }
    } else if r.stages.len() > 0 && r.stages.last().1 < 0 {
        let last = r.stages.last();
        Reading { stages: r.stages.drop_last().push((last.0.push(c), last.1)), open: false, ..r }
    } else {
        Reading { stages: r.stages.push((seq![c], -1int)), open: false, ..r }
    }
}

/// A version that is being read, with more characters.
pub open spec fn read_on(r: Reading, s: Seq<char>) -> Reading
    decreases s.len(),
{
    if s.len() == 0 {
        r
    } else {
        step(read_on(r, s.drop_last()), s.last())
    }
}

/// Where reading a version starts.
pub open spec fn unread() -> Reading {
    Reading { epoch: 0, release: Seq::empty(), open: false, stages: Seq::empty() }
}

/// The version that a text spells.
pub open spec fn point_of(text: Seq<char>) -> Point {
    let r = read_on(unread(), text);
    Point { epoch: r.epoch, release: r.release, stages: r.stages }
}

/// Release segments as natural numbers.
pub open spec fn segments(release: Seq<u64>) -> Seq<nat> {
    release.map_values(|n: u64| n as nat)
}

/// The stages of a version: its pre-release, its post-release and its
/// development release, as far as it is one.
pub open spec fn stages_of(v: VersionView) -> Seq<(Seq<char>, int)> {
    (match v.pre {
        Some((letters, number)) => seq![(letters, number as int)],
        None => Seq::empty(),
    }) + (match v.post {
        Some(number) => seq![("post"@, number as int)],
        None => Seq::empty(),
    }) + (match v.dev {
        Some(number) => seq![("dev"@, number as int)],
        None => Seq::empty(),
    })
}

/// A version as it was taken apart, without its local label.
pub open spec fn version_point(v: VersionView) -> Point {
    Point { epoch: v.epoch as nat, release: segments(v.release), stages: stages_of(v) }
}

/// A release segment; those that are not written are zero.
pub open spec fn seg(release: Seq<nat>, i: int) -> nat {
    if 0 <= i < release.len() {
        release[i]
    } else {
        0
    }
}

/// Whether two releases are the same.
pub open spec fn release_eq(a: Seq<nat>, b: Seq<nat>) -> bool {
    forall|i: int| 0 <= i ==> #[trigger] seg(a, i) == seg(b, i)
}

/// Whether a release comes before another: it is lower in the first segment
/// in which they differ.
pub open spec fn release_lt(a: Seq<nat>, b: Seq<nat>) -> bool {
    exists|k: int|
        0 <= k && #[trigger] seg(a, k) < seg(b, k) && forall|i: int|
            0 <= i < k ==> #[trigger] seg(a, i) == seg(b, i)
}

/// Where a stage stands: development releases, then alphas, betas and
/// candidates come before the release, and post-releases behind it.
pub open spec fn rank(word: Seq<char>) -> int {
    if word == "dev"@ {
        -4
    } else if word == "a"@ {
        -3
    } else if word == "b"@ {
        -2
    } else if word == "rc"@ {
        -1
    } else if word == "post"@ {
        1
    } else {
        0
    }
}

/// A stage; one that is not written is the release itself.
pub open spec fn stage(stages: Seq<(Seq<char>, int)>, i: int) -> (int, int) {
    if 0 <= i < stages.len() {
        (rank(stages[i].0), stages[i].1)
    } else {
        (0, 0)
    }
}

/// Whether a stage comes before another.
pub open spec fn stage_lt(a: (int, int), b: (int, int)) -> bool {
    a.0 < b.0 || (a.0 == b.0 && a.1 < b.1)
}

/// Whether the stages of two versions are the same.
pub open spec fn stages_eq(a: Seq<(Seq<char>, int)>, b: Seq<(Seq<char>, int)>) -> bool {
    forall|i: int| 0 <= i ==> #[trigger] stage(a, i) == stage(b, i)
}

/// Whether the stages of a version come before those of another: the first
/// that differs does.
pub open spec fn stages_lt(a: Seq<(Seq<char>, int)>, b: Seq<(Seq<char>, int)>) -> bool {
    exists|k: int|
        0 <= k && stage_lt(#[trigger] stage(a, k), stage(b, k)) && forall|i: int|
            0 <= i < k ==> #[trigger] stage(a, i) == stage(b, i)
}

/// Whether two versions are the same.
pub open spec fn same_point(a: Point, b: Point) -> bool {
    a.epoch == b.epoch && release_eq(a.release, b.release) && stages_eq(a.stages, b.stages)
}

/// Whether a version comes before another.
pub open spec fn before(a: Point, b: Point) -> bool {
    ||| a.epoch < b.epoch
    ||| a.epoch == b.epoch && release_lt(a.release, b.release)
    ||| a.epoch == b.epoch && release_eq(a.release, b.release) && stages_lt(a.stages, b.stages)
}

/// Whether a version starts with another: its release does, or, where the
/// other has stages, it is of the same release and its stages start with
/// those, whatever the number of one that is spelled without.
pub open spec fn starts_with(p: Point, c: Point) -> bool {
    if c.stages.len() == 0 {
        p.epoch == c.epoch && forall|i: int|
            0 <= i < c.release.len() ==> #[trigger] seg(p.release, i) == seg(c.release, i)
    } else {
        p.epoch == c.epoch && release_eq(p.release, c.release) && p.stages.len() >= c.stages.len()
            && forall|i: int|
            0 <= i < c.stages.len() ==> (#[trigger] stage(p.stages, i)).0 == stage(c.stages, i).0
                && (c.stages[i].1 < 0 || p.stages[i].1 == c.stages[i].1)
    }
}

/// Whether a comparison takes a version.
pub open spec fn takes(c: ClauseView, p: Point) -> bool {
    let v = point_of(c.version);
    match c.comparator {
        Comparator::Greater => before(v, p),
        Comparator::GreaterEquals => !before(p, v),
        Comparator::Less => before(p, v),
        Comparator::LessEquals => !before(v, p),
        Comparator::Equals => same_point(p, v),
        Comparator::NotEquals => !same_point(p, v),
        Comparator::StartsWith => starts_with(p, v),
        Comparator::NotStartsWith => !starts_with(p, v),
    }
}

/// Whether comparisons all take a version.
pub open spec fn all_take(clauses: Seq<ClauseView>, p: Point) -> bool {
    forall|i: int| 0 <= i < clauses.len() ==> takes(#[trigger] clauses[i], p)
}

/// Whether a version constraint takes a version.
pub open spec fn constraint_takes(c: VersionSpecView, p: Point) -> bool {
    match c {
        VersionSpecView::One(clause) => takes(clause, p),
        VersionSpecView::All(clauses) => all_take(clauses, p),
    }
}

/// Whether a condition on the version of `python` takes a version.
pub open spec fn condition_takes(c: ConditionView, p: Point) -> bool
    decreases c,
{
    match c {
        ConditionView::Python(clause) => takes(clause, p),
        ConditionView::And(a, b) => condition_takes(*a, p) && condition_takes(*b, p),
        ConditionView::Or(a, b) => condition_takes(*a, p) || condition_takes(*b, p),
    }
}

/// Whether the stages of one version go on those of another, of the same
/// release, by a stage that stands before it or behind it.
pub open spec fn goes_on(p: Point, v: Point, behind: bool) -> bool {
    &&& p.epoch == v.epoch
    &&& release_eq(p.release, v.release)
    &&& p.stages.len() > v.stages.len()
    &&& forall|i: int|
        0 <= i < v.stages.len() ==> #[trigger] stage(p.stages, i) == stage(v.stages, i)
    &&& if behind {
        stage(p.stages, v.stages.len() as int).0 > 0
    } else {
        stage(p.stages, v.stages.len() as int).0 < 0
    }
}

/// Whether a version is what a specifier asks for. A version after another
/// is none of its post-releases, unless the other is a post-release or a
/// development release itself; a version before another is none of its
/// pre-releases, unless the other is a pre-release or a development release
/// itself. A compatible release is not before the version and has the same
/// release but for the last segment and what follows.
pub open spec fn asks_for(operator: Operator, v: VersionView, p: Point) -> bool {
    let q = version_point(v);
    match operator {
        Operator::GreaterThanEqual => !before(p, q),
        Operator::LessThanEqual => !before(q, p),
        Operator::GreaterThan => before(q, p) && (v.post is Some || v.dev is Some || !goes_on(
            p,
            q,
            true,
        )),
        Operator::LessThan => before(p, q) && (v.pre is Some || v.dev is Some || !goes_on(
            p,
            q,
            false,
        )),
        Operator::Equal | Operator::ExactEqual => same_point(p, q),
        Operator::NotEqual => !same_point(p, q),
        Operator::EqualStar => starts_with(p, q),
        Operator::NotEqualStar => !starts_with(p, q),
        Operator::TildeEqual => !before(p, q) && p.epoch == q.epoch && forall|i: int|
            0 <= i < v.release.len() - 1 ==> #[trigger] seg(p.release, i) == v.release[i],
    }
}

/// Whether a version has a release, and its pre-release, if it is one, is an
/// alpha, a beta or a candidate.
pub open spec fn is_regular(v: VersionView) -> bool {
    v.release.len() > 0 && match v.pre {
        Some((letters, _)) => letters == "a"@ || letters == "b"@ || letters == "rc"@,
        None => true,
    }
}

/// Whether a version may be that of a package: no development release, and
/// with a pre-release at most before what else it is.
pub open spec fn is_published(p: Point) -> bool {
    forall|i: int|
        0 <= i < p.stages.len() ==> {
            let s = #[trigger] stage(p.stages, i);
            s.0 >= -3 && (i > 0 ==> s.0 >= 0) && s.1 >= 0
        }
}

/// Whether a version is a final release of the usual epoch.
pub open spec fn is_final(p: Point) -> bool {
    p.epoch == 0 && p.stages.len() == 0
}

pub(crate) proof fn read_on_append(r: Reading, a: Seq<char>, b: Seq<char>)
    ensures
        read_on(r, a + b) == read_on(read_on(r, a), b),
    decreases b.len(),
{
    if b.len() == 0 {
        assert(a + b =~= a);
    } else {
        assert((a + b).drop_last() =~= a + b.drop_last());
        assert((a + b).last() == b.last());
        read_on_append(r, a, b.drop_last());
    }
}

pub(crate) proof fn digit_reads(d: int)
    requires
        0 <= d < 10,
    ensures
        is_digit(digit(d)),
        digit_value(digit(d)) == d,
{
    assert(((d + 48) as u8) as char as u32 == d + 48);
}

/// A number that starts a release segment.
pub(crate) proof fn segment_reads(r: Reading, n: nat)
    requires
        !r.open,
        r.stages.len() == 0,
    ensures
        read_on(r, decimal(n)) == (Reading { release: r.release.push(n), open: true, ..r }),
    decreases n,
{
    let s = decimal(n);
    if n < 10 {
        digit_reads(n as int);
        assert(s.drop_last() =~= Seq::empty());
        assert(read_on(r, s.drop_last()) == r);
    } else {
        digit_reads((n % 10) as int);
        segment_reads(r, n / 10);
        assert(s.drop_last() =~= decimal(n / 10));
        assert(s.last() == digit((n % 10) as int));
        let mid = r.release.push(n / 10);
        assert(mid.drop_last() =~= r.release);
        assert(10 * (n / 10) + n % 10 == n);
    }
}

/// A number that follows the word of a stage.
pub(crate) proof fn number_reads(r: Reading, n: nat)
    requires
        r.stages.len() > 0,
        r.stages.last().1 < 0,
    ensures
        read_on(r, decimal(n)) == (Reading {
            stages: r.stages.drop_last().push((r.stages.last().0, n as int)),
            ..r
        }),
    decreases n,
{
    let s = decimal(n);
    if n < 10 {
        digit_reads(n as int);
        assert(s.drop_last() =~= Seq::empty());
        assert(read_on(r, s.drop_last()) == r);
    } else {
        digit_reads((n % 10) as int);
        number_reads(r, n / 10);
        assert(s.drop_last() =~= decimal(n / 10));
        assert(s.last() == digit((n % 10) as int));
        let mid = r.stages.drop_last().push((r.stages.last().0, (n / 10) as int));
        assert(mid.drop_last() =~= r.stages.drop_last());
        assert(10 * (n / 10) + n % 10 == n);
    }
}

/// Whether a text is a word.
pub open spec fn is_word(w: Seq<char>) -> bool {
    w.len() > 0 && forall|i: int|
        0 <= i < w.len() ==> !is_digit(#[trigger] w[i]) && w[i] != '.' && w[i] != '!'
}

/// A word starts a stage.
pub(crate) proof fn word_reads(r: Reading, w: Seq<char>)
    requires
        is_word(w),
        r.stages.len() > 0 ==> r.stages.last().1 >= 0,
    ensures
        read_on(r, w) == (Reading { stages: r.stages.push((w, -1int)), open: false, ..r }),
    decreases w.len(),
{
    let front = w.drop_last();
    assert(w[w.len() - 1] == w.last());
    if front.len() == 0 {
        assert(read_on(r, front) == r);
        assert(w =~= seq![w.last()]);
    } else {
        assert forall|i: int| 0 <= i < front.len() implies !is_digit(#[trigger] front[i])
            && front[i] != '.' && front[i] != '!' by {
            assert(front[i] == w[i]);
        }
        word_reads(r, front);
        let mid = r.stages.push((front, -1int));
        assert(mid.drop_last() =~= r.stages);
        assert(front.push(w.last()) =~= w);
    }
}

/// A dot closes a release segment.
pub(crate) proof fn dot_reads(r: Reading)
    ensures
        read_on(r, "."@) == (Reading { open: false, ..r }),
{
    reveal_strlit(".");
    let s = "."@;
    assert(s.drop_last() =~= Seq::empty());
    assert(read_on(r, s.drop_last()) == r);
    assert(s.last() == '.');
}

/// A word and a number are a stage.
pub(crate) proof fn stage_reads(r: Reading, w: Seq<char>, n: nat)
    requires
        is_word(w),
        r.stages.len() > 0 ==> r.stages.last().1 >= 0,
    ensures
        read_on(r, w + decimal(n)) == (Reading {
            stages: r.stages.push((w, n as int)),
            open: false,
            ..r
        }),
{
    read_on_append(r, w, decimal(n));
    word_reads(r, w);
    let mid = read_on(r, w);
    number_reads(mid, n);
    assert(mid.stages.drop_last() =~= r.stages);
}

pub(crate) proof fn release_reads(r: Reading, release: Seq<u64>)
    requires
        r == (Reading { release: Seq::empty(), open: false, stages: Seq::empty(), ..r }),
        release.len() > 0,
    ensures
        read_on(r, release_text(release)) == (Reading {
            release: segments(release),
            open: true,
            ..r
        }),
    decreases release.len(),
{
    if release.len() == 1 {
        segment_reads(r, release[0] as nat);
        assert(r.release.push(release[0] as nat) =~= segments(release));
    } else {
        let front = release.drop_last();
        let head = release_text(front);
        let last = decimal(release.last() as nat);
        release_reads(r, front);
        read_on_append(r, head + "."@, last);
        read_on_append(r, head, "."@);
        let mid = read_on(r, head);
        dot_reads(mid);
        segment_reads(read_on(r, head + "."@), release.last() as nat);
        assert(segments(front).push(release.last() as nat) =~= segments(release));
    }
}

pub(crate) proof fn epoch_reads(epoch: u64)
    ensures
        read_on(unread(), epoch_text(epoch)) == (Reading { epoch: epoch as nat, ..unread() }),
{
    if epoch != 0 {
        reveal_strlit("!");
        let s = "!"@;
        read_on_append(unread(), decimal(epoch as nat), s);
        segment_reads(unread(), epoch as nat);
        let mid = read_on(unread(), decimal(epoch as nat));
        assert(s.drop_last() =~= Seq::empty());
        assert(read_on(mid, s.drop_last()) == mid);
        assert(s.last() == '!');
        assert(mid.release.last() == epoch as nat);
    }
}

/// A version is read as it was taken apart, and what follows is read on from
/// there.
pub(crate) proof fn version_reads(v: VersionView)
    requires
        is_regular(v),
    ensures
        read_on(unread(), version_text(v)) == (Reading {
            epoch: v.epoch as nat,
            release: segments(v.release),
            open: v.pre is None && v.post is None && v.dev is None,
            stages: stages_of(v),
        }),
        stages_of(v).len() > 0 ==> stages_of(v).last().1 >= 0,
{
    reveal_strlit("a");
    reveal_strlit("b");
    reveal_strlit("rc");
    reveal_strlit("post");
    reveal_strlit("dev");
    reveal_strlit(".post");
    reveal_strlit(".dev");
    reveal_strlit(".");
    let pre = match v.pre {
        Some((letters, number)) => "."@ + letters + decimal(number as nat),
        None => Seq::empty(),
    };
    let post = match v.post {
        Some(number) => ".post"@ + decimal(number as nat),
        None => Seq::empty(),
    };
    let dev = match v.dev {
        Some(number) => ".dev"@ + decimal(number as nat),
        None => Seq::empty(),
    };
    let epoch = epoch_text(v.epoch);
    let release = release_text(v.release);
    epoch_reads(v.epoch);
    let r0 = read_on(unread(), epoch);
    release_reads(r0, v.release);
    read_on_append(unread(), epoch, release);
    let head = epoch + release;
    let r1 = read_on(unread(), head);
    read_on_append(unread(), head, pre);
    let r2 = read_on(unread(), head + pre);
    if let Some((letters, number)) = v.pre {
        assert(pre =~= "."@ + (letters + decimal(number as nat)));
        read_on_append(r1, "."@, letters + decimal(number as nat));
        dot_reads(r1);
        stage_reads(read_on(r1, "."@), letters, number as nat);
        assert(r2.stages =~= seq![(letters, number as int)]);
    } else {
        assert(r2 == r1);
    }
    read_on_append(unread(), head + pre, post);
    let r3 = read_on(unread(), head + pre + post);
    if let Some(number) = v.post {
        assert(post =~= "."@ + ("post"@ + decimal(number as nat)));
        read_on_append(r2, "."@, "post"@ + decimal(number as nat));
        dot_reads(r2);
        stage_reads(read_on(r2, "."@), "post"@, number as nat);
    } else {
        assert(r3 == r2);
    }
    read_on_append(unread(), head + pre + post, dev);
    let r4 = read_on(unread(), head + pre + post + dev);
    if let Some(number) = v.dev {
        assert(dev =~= "."@ + ("dev"@ + decimal(number as nat)));
        read_on_append(r3, "."@, "dev"@ + decimal(number as nat));
        dot_reads(r3);
        stage_reads(read_on(r3, "."@), "dev"@, number as nat);
    } else {
        assert(r4 == r3);
    }
    assert(version_text(v) =~= head + pre + post + dev);
    assert(r4.stages =~= stages_of(v));
}

/// No published version is an alpha before the first.
pub(crate) proof fn first_alpha_is_first(p: Point)
    requires
        is_published(p),
    ensures
        !stages_lt(p.stages, seq![("a"@, 0int)]),
{
    reveal_strlit("a");
    reveal_strlit("dev");
    let first = seq![("a"@, 0int)];
    assert("a"@ != "dev"@) by {
        assert("a"@.len() != "dev"@.len());
    }
    assert(stage(first, 0) == (-3int, 0int));
    assert forall|k: int| 0 <= k && stage_lt(#[trigger] stage(p.stages, k), stage(first, k))
        && (forall|i: int|
        0 <= i < k ==> #[trigger] stage(p.stages, i) == stage(first, i)) implies false by {
        if k > 0 {
            assert(stage(p.stages, 0) == stage(first, 0));
        }
    }
}

/// A compatible release is one that is not before the version and is before
/// the first alpha of the release that follows all compatible ones: that
/// with the last segment left out and the one before it raised by one.
pub(crate) proof fn compatible_is_between(v: VersionView, upper: Seq<u64>, p: Point)
    requires
        is_published(p),
        v.release.len() >= 2,
        upper.len() == v.release.len() - 1,
        forall|i: int| 0 <= i < upper.len() - 1 ==> #[trigger] upper[i] == v.release[i],
        upper.last() == v.release[v.release.len() - 2] + 1,
        !before(p, version_point(v)),
    ensures
        before(
            p,
            Point {
                epoch: v.epoch as nat,
                release: segments(upper).push(0),
                stages: seq![("a"@, 0int)],
            },
        ) <==> p.epoch == v.epoch && forall|i: int|
            0 <= i < v.release.len() - 1 ==> #[trigger] seg(p.release, i) == v.release[i],
{
    let q = version_point(v);
    let c = Point {
        epoch: v.epoch as nat,
        release: segments(upper).push(0),
        stages: seq![("a"@, 0int)],
    };
    let n = v.release.len() as int;
    first_alpha_is_first(p);
    assert forall|i: int| 0 <= i < n - 2 implies #[trigger] seg(c.release, i) == v.release[i] by {
        assert(upper[i] == v.release[i]);
    }
    assert(seg(c.release, n - 2) == v.release[n - 2] + 1);
    assert forall|i: int| n - 2 < i implies #[trigger] seg(c.release, i) == 0 by {}
    assert forall|i: int| 0 <= i < n implies #[trigger] seg(q.release, i) == v.release[i] by {}
    if p.epoch == v.epoch && forall|i: int|
        0 <= i < n - 1 ==> #[trigger] seg(p.release, i) == v.release[i] {
        assert(seg(p.release, n - 2) < seg(c.release, n - 2));
        assert forall|i: int| 0 <= i < n - 2 implies #[trigger] seg(p.release, i) == seg(
            c.release,
            i,
        ) by {}
        assert(release_lt(p.release, c.release));
    }
    if before(p, c) {
        assert(p.epoch == v.epoch);
        assert(release_lt(p.release, c.release));
        let k = choose|k: int|
            0 <= k && #[trigger] seg(p.release, k) < seg(c.release, k) && forall|i: int|
                0 <= i < k ==> #[trigger] seg(p.release, i) == seg(c.release, i);
        assert(k <= n - 2);
        if k < n - 2 || seg(p.release, k) < v.release[k] {
            assert(seg(p.release, k) < seg(q.release, k));
            assert forall|i: int| 0 <= i < k implies #[trigger] seg(p.release, i) == seg(
                q.release,
                i,
            ) by {
                assert(seg(c.release, i) == v.release[i]);
            }
            assert(release_lt(p.release, q.release));
            assert(before(p, q));
        }
        assert forall|i: int| 0 <= i < n - 1 implies #[trigger] seg(p.release, i)
            == v.release[i] by {
            if i < n - 2 {
                assert(seg(p.release, i) == seg(c.release, i));
            }
        }
    }
}

/// A version that is no pre-release is after exactly those published ones
/// that are before its first alpha and the others before it that are none of
/// its pre-releases.
pub(crate) proof fn before_first_alpha(v: VersionView, p: Point)
    requires
        is_published(p),
        v.pre is None,
        v.dev is None,
    ensures
        before(
            p,
            Point {
                epoch: v.epoch as nat,
                release: segments(v.release),
                stages: stages_of(v).push(("a"@, 0int)),
            },
        ) <==> before(p, version_point(v)) && !goes_on(p, version_point(v), false),
{
    reveal_strlit("a");
    reveal_strlit("dev");
    assert("a"@.len() != "dev"@.len());
    let q = version_point(v);
    let m = q.stages.len() as int;
    let c = Point {
        epoch: v.epoch as nat,
        release: segments(v.release),
        stages: stages_of(v).push(("a"@, 0int)),
    };
    assert(stage(c.stages, m) == (-3int, 0int));
    assert forall|i: int| 0 <= i < m implies #[trigger] stage(c.stages, i) == stage(
        q.stages,
        i,
    ) by {}
    if p.epoch == q.epoch && release_lt(p.release, q.release) {
        let k = choose|k: int|
            0 <= k && #[trigger] seg(p.release, k) < seg(q.release, k) && forall|i: int|
                0 <= i < k ==> #[trigger] seg(p.release, i) == seg(q.release, i);
        assert(!release_eq(p.release, q.release)) by {
            assert(seg(p.release, k) != seg(q.release, k));
        }
    }
    if p.epoch == q.epoch && release_eq(p.release, q.release) {
        assert(!release_lt(p.release, q.release));
        if stages_lt(p.stages, c.stages) {
            let k = choose|k: int|
                0 <= k && stage_lt(#[trigger] stage(p.stages, k), stage(c.stages, k)) && forall|
                    i: int,
                |
                    0 <= i < k ==> #[trigger] stage(p.stages, i) == stage(c.stages, i);
            if k > m {
                assert(stage(p.stages, m) == stage(c.stages, m));
            }
            assert(k < m);
            assert(stage_lt(stage(p.stages, k), stage(q.stages, k)));
            assert forall|i: int| 0 <= i < k implies #[trigger] stage(p.stages, i) == stage(
                q.stages,
                i,
            ) by {}
            assert(stages_lt(p.stages, q.stages));
            assert(!goes_on(p, q, false));
        }
        if stages_lt(p.stages, q.stages) && !goes_on(p, q, false) {
            let k = choose|k: int|
                0 <= k && stage_lt(#[trigger] stage(p.stages, k), stage(q.stages, k)) && forall|
                    i: int,
                |
                    0 <= i < k ==> #[trigger] stage(p.stages, i) == stage(q.stages, i);
            if k >= m {
                assert(stage(q.stages, k) == (0int, 0int));
                assert(k < p.stages.len());
                assert(k == 0);
                assert(goes_on(p, q, false));
            }
            assert(stage_lt(stage(p.stages, k), stage(c.stages, k)));
            assert forall|i: int| 0 <= i < k implies #[trigger] stage(p.stages, i) == stage(
                c.stages,
                i,
            ) by {}
            assert(stages_lt(p.stages, c.stages));
        }
    }
}

} // verus!
