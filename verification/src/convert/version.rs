//! Version specifiers as conda version constraints.

use crate::conda::{
    check_conda_version, clauses_error, clauses_error_add, conda_version, version_spec_error, Clause,
    ClauseView, Comparator, VersionSpec,
    VersionSpecView,
};
use crate::convert::requirement::{ConvertError, ConvertErrorView};
use crate::data::Duplicate;
use crate::meaning::{
    all_take, asks_for, before_first_alpha, compatible_is_between, constraint_takes, dot_reads,
    epoch_reads, goes_on, is_published, is_regular, point_of, read_on, read_on_append, release_eq,
    release_reads, segment_reads, segments, stage, stage_reads, stages_of, starts_with, takes, unread,
    version_point, version_reads, word_reads, Point,
};
use crate::marker::condition::{
    epoch_text, format_epoch, format_release, format_version, release_text, version_text,
};
use crate::pep440::{specifier_outcome, Operator, Specifier, SpecifierView, VersionView};
use crate::sort::{is_sorted, sort, sorted, sorted_is_sorted, Ranked};
use crate::text::{
    concat, concat3, le_str, text_le, text_le_antisymmetric, text_le_total, text_le_transitive,
};
use vstd::prelude::*;
use vstd::string::*;

verus! {

/// The rank of an operator: lower bounds, then upper bounds, then pins,
/// then exclusions.
pub open spec fn rank(operator: Operator) -> int {
    match operator {
        Operator::GreaterThanEqual | Operator::GreaterThan => 0,
        Operator::LessThanEqual | Operator::LessThan => 1,
        Operator::Equal | Operator::EqualStar | Operator::ExactEqual | Operator::TildeEqual => 2,
        Operator::NotEqual | Operator::NotEqualStar => 3,
    }
}

fn operator_rank(operator: Operator) -> (r: u8)
    ensures
        r == rank(operator),
{
    match operator {
        Operator::GreaterThanEqual | Operator::GreaterThan => 0,
        Operator::LessThanEqual | Operator::LessThan => 1,
        Operator::Equal | Operator::EqualStar | Operator::ExactEqual | Operator::TildeEqual => 2,
        Operator::NotEqual | Operator::NotEqualStar => 3,
    }
}

impl Ranked for Specifier {
    open spec fn ranks_le(a: SpecifierView, b: SpecifierView) -> bool {
        rank(a.operator) < rank(b.operator) || (rank(a.operator) == rank(b.operator) && text_le(
            a.text,
            b.text,
        ))
    }

    fn is_le(&self, other: &Self) -> (r: bool) {
        let a: u8 = operator_rank(self.operator);
        let b: u8 = operator_rank(other.operator);
        a < b || (a == b && le_str(self.text.as_str(), other.text.as_str()))
    }

    proof fn le_total(a: SpecifierView, b: SpecifierView) {
        text_le_total(a.text, b.text);
    }

    proof fn le_transitive(a: SpecifierView, b: SpecifierView, c: SpecifierView) {
        if rank(a.operator) == rank(b.operator) && rank(b.operator) == rank(c.operator) {
            text_le_transitive(a.text, b.text, c.text);
        }
    }
}

/// Why the version of a specifier cannot stand in a match spec, if it
/// cannot: it has a local label, or it is a pre-release and none is wanted.
pub open spec fn rejection(s: SpecifierView, allow_pre: bool) -> Option<ConvertErrorView> {
    if s.version.local {
        Some(ConvertErrorView::LocalVersionLabel(s.text))
    } else if s.version.is_prerelease() && !allow_pre {
        Some(ConvertErrorView::Prerelease(s.text))
    } else {
        None
    }
}

fn reject_unsupported_version(specifier: &Specifier, allow_pre: bool) -> (r: Option<ConvertError>)
    ensures
        r.deep_view() == rejection(specifier.deep_view(), allow_pre),
{
    if specifier.version.local {
        return Some(ConvertError::LocalVersionLabel { specifier: specifier.text.clone() });
    }
    if specifier.version.is_prerelease() && !allow_pre {
        return Some(ConvertError::Prerelease { specifier: specifier.text.clone() });
    }
    None
}

/// A comparison with a spelled version, if conda takes it.
pub open spec fn clause_outcome(comparator: Comparator, version: Seq<char>) -> Result<
    ClauseView,
    ConvertErrorView,
> {
    match conda_version(version) {
        Ok(_) => Ok(ClauseView { comparator, version }),
        Err(message) => Err(ConvertErrorView::InvalidVersionLiteral(version, message)),
    }
}

/// The view of a result whose error is a failed conversion.
pub open spec fn converted<T: DeepView>(r: Result<T, ConvertError>) -> Result<
    T::V,
    ConvertErrorView,
> {
    match r {
        Ok(value) => Ok(value.deep_view()),
        Err(error) => Err(error.deep_view()),
    }
}

fn clause(comparator: Comparator, version: String) -> (r: Result<Clause, ConvertError>)
    ensures
        converted(r) == clause_outcome(comparator, version@),
{
    match check_conda_version(version.as_str()) {
        Ok(_) => Ok(Clause { comparator, version }),
        Err(source) => Err(ConvertError::InvalidVersionLiteral { literal: version, source }),
    }
}

/// One comparison, if conda takes its version.
pub open spec fn single(comparator: Comparator, version: Seq<char>) -> Result<
    Seq<ClauseView>,
    ConvertErrorView,
> {
    match clause_outcome(comparator, version) {
        Ok(c) => Ok(seq![c]),
        Err(error) => Err(error),
    }
}

/// Two comparisons, if conda takes their versions.
pub open spec fn pair(
    first: Comparator,
    first_version: Seq<char>,
    second: Comparator,
    second_version: Seq<char>,
) -> Result<Seq<ClauseView>, ConvertErrorView> {
    match (clause_outcome(first, first_version), clause_outcome(second, second_version)) {
        (Ok(a), Ok(b)) => Ok(seq![a, b]),
        (Err(error), _) => Err(error),
        (_, Err(error)) => Err(error),
    }
}

fn one_clause(comparator: Comparator, version: String) -> (r: Result<Vec<Clause>, ConvertError>)
    ensures
        converted(r) == single(comparator, version@),
{
    match clause(comparator, version) {
        Ok(c) => {
            let mut out: Vec<Clause> = Vec::new();
            out.push(c);
            assert(out.deep_view() =~= seq![c.deep_view()]);
            Ok(out)
        },
        Err(error) => Err(error),
    }
}

fn two_clauses(
    first: Comparator,
    first_version: String,
    second: Comparator,
    second_version: String,
) -> (r: Result<Vec<Clause>, ConvertError>)
    ensures
        converted(r) == pair(first, first_version@, second, second_version@),
{
    let a = match clause(first, first_version) {
        Ok(a) => a,
        Err(error) => return Err(error),
    };
    let b = match clause(second, second_version) {
        Ok(b) => b,
        Err(error) => return Err(error),
    };
    let mut out: Vec<Clause> = Vec::new();
    out.push(a);
    out.push(b);
    assert(out.deep_view() =~= seq![a.deep_view(), b.deep_view()]);
    Ok(out)
}

/// The release with its last segment left out and the one before it raised
/// by one.
pub open spec fn bumped_release(release: Seq<u64>) -> Seq<u64> {
    if release.len() <= 1 {
        Seq::empty()
    } else {
        let prefix = release.drop_last();
        prefix.update(
            prefix.len() - 1,
            if prefix.last() == u64::MAX {
                u64::MAX
            } else {
                (prefix.last() + 1) as u64
            },
        )
    }
}

fn bump_release(release: &Vec<u64>) -> (r: Vec<u64>)
    ensures
        r@ == bumped_release(release@),
{
    let mut out: Vec<u64> = Vec::new();
    if release.len() <= 1 {
        assert(out@ =~= Seq::empty());
        return out;
    }
    let n: usize = release.len() - 1;
    let mut i: usize = 0;
    while i < n
        invariant
            i <= n,
            n == release.len() - 1,
            out@ == release@.take(i as int),
        decreases n - i,
    {
        out.push(release[i]);
        i += 1;
        assert(out@ =~= release@.take(i as int));
    }
    let last: u64 = release[n - 1].saturating_add(1);
    out.set(n - 1, last);
    assert(out@ =~= bumped_release(release@));
    out
}

/// What a compatible release stays below.
pub open spec fn compatible_upper(v: VersionView) -> Seq<char> {
    epoch_text(v.epoch) + release_text(bumped_release(v.release)) + ".0a0"@
}

/// The comparisons that a specifier stands for. A version after another is
/// none of its post-releases, and a version before another none of its
/// pre-releases, unless the other is such a release itself. A compatible
/// release is a range.
pub open spec fn specifier_clauses(s: SpecifierView, allow_pre: bool) -> Result<
    Seq<ClauseView>,
    ConvertErrorView,
> {
    let v = s.version;
    let spelled = version_text(v);
    if let Some(error) = rejection(s, allow_pre) {
        Err(error)
    } else {
        match s.operator {
            Operator::GreaterThanEqual => single(Comparator::GreaterEquals, spelled),
            Operator::LessThanEqual => single(Comparator::LessEquals, spelled),
            Operator::GreaterThan => if v.dev is Some || v.post is Some {
                single(Comparator::Greater, spelled)
            } else {
                pair(
                    Comparator::Greater,
                    spelled,
                    Comparator::NotStartsWith,
                    spelled + ".post"@,
                )
            },
            Operator::LessThan => single(
                Comparator::Less,
                if v.is_prerelease() {
                    spelled
                } else {
                    spelled + "a0"@
                },
            ),
            Operator::Equal | Operator::ExactEqual => single(Comparator::Equals, spelled),
            Operator::NotEqual => single(Comparator::NotEquals, spelled),
            Operator::EqualStar => single(Comparator::StartsWith, spelled),
            Operator::NotEqualStar => single(Comparator::NotStartsWith, spelled),
            Operator::TildeEqual => pair(
                Comparator::GreaterEquals,
                spelled,
                Comparator::Less,
                compatible_upper(v),
            ),
        }
    }
}

/// The comparisons that a specifier stands for.
pub fn convert_specifier(specifier: &Specifier, allow_pre: bool) -> (r: Result<
    Vec<Clause>,
    ConvertError,
>)
    ensures
        converted(r) == specifier_clauses(specifier.deep_view(), allow_pre),
{
    if let Some(error) = reject_unsupported_version(specifier, allow_pre) {
        return Err(error);
    }
    let version = &specifier.version;
    let spelled = format_version(version);
    match specifier.operator {
        Operator::GreaterThanEqual => one_clause(Comparator::GreaterEquals, spelled),
        Operator::LessThanEqual => one_clause(Comparator::LessEquals, spelled),
        Operator::GreaterThan => if version.dev.is_some() || version.post.is_some() {
            one_clause(Comparator::Greater, spelled)
        } else {
            let post = concat(spelled.as_str(), ".post");
            two_clauses(Comparator::Greater, spelled, Comparator::NotStartsWith, post)
        },
        Operator::LessThan => if version.is_prerelease() {
            one_clause(Comparator::Less, spelled)
        } else {
            one_clause(Comparator::Less, concat(spelled.as_str(), "a0"))
        },
        Operator::Equal | Operator::ExactEqual => one_clause(Comparator::Equals, spelled),
        Operator::NotEqual => one_clause(Comparator::NotEquals, spelled),
        Operator::EqualStar => one_clause(Comparator::StartsWith, spelled),
        Operator::NotEqualStar => one_clause(Comparator::NotStartsWith, spelled),
        Operator::TildeEqual => {
            let bumped = bump_release(&version.release);
            let epoch = format_epoch(version.epoch);
            let release = format_release(bumped.as_slice());
            let upper = concat3(epoch.as_str(), release.as_str(), ".0a0");
            two_clauses(Comparator::GreaterEquals, spelled, Comparator::Less, upper)
        },
    }
}

/// The comparisons that specifiers stand for, in order, or why the first
/// that has none has none.
pub open spec fn all_clauses(specifiers: Seq<SpecifierView>, allow_pre: bool) -> Result<
    Seq<ClauseView>,
    ConvertErrorView,
>
    decreases specifiers.len(),
{
    if specifiers.len() == 0 {
        Ok(Seq::empty())
    } else {
        match all_clauses(specifiers.drop_last(), allow_pre) {
            Err(error) => Err(error),
            Ok(before) => match specifier_clauses(specifiers.last(), allow_pre) {
                Ok(clauses) => Ok(before + clauses),
                Err(error) => Err(error),
            },
        }
    }
}

proof fn clauses_error_first(specifiers: Seq<SpecifierView>, allow_pre: bool, n: int)
    requires
        0 <= n <= specifiers.len(),
        all_clauses(specifiers.take(n), allow_pre) is Err,
    ensures
        all_clauses(specifiers, allow_pre) == all_clauses(specifiers.take(n), allow_pre),
    decreases specifiers.len() - n,
{
    if n < specifiers.len() {
        assert(specifiers.take(n + 1).drop_last() =~= specifiers.take(n));
        clauses_error_first(specifiers, allow_pre, n + 1);
    } else {
        assert(specifiers.take(n) =~= specifiers);
    }
}

/// The version constraint that a set of specifiers stands for; none for an
/// empty set. Its comparisons stand in canonical order: lower bounds, upper
/// bounds, pins, exclusions, each by its spelling.
pub open spec fn version_spec_outcome(specifiers: Seq<SpecifierView>, allow_pre: bool) -> Result<
    Option<VersionSpecView>,
    ConvertErrorView,
> {
    if specifiers.len() == 0 {
        Ok(None)
    } else {
        match all_clauses(sorted::<Specifier>(specifiers), allow_pre) {
            Err(error) => Err(error),
            Ok(clauses) => if clauses.len() == 1 {
                Ok(Some(VersionSpecView::One(clauses[0])))
            } else {
                Ok(Some(VersionSpecView::All(clauses)))
            },
        }
    }
}

/// The version constraint that a set of specifiers stands for.
pub fn version_spec(specifiers: &Vec<Specifier>, allow_pre: bool) -> (r: Result<
    Option<VersionSpec>,
    ConvertError,
>)
    ensures
        converted(r) == version_spec_outcome(specifiers.deep_view(), allow_pre),
{
    if specifiers.len() == 0 {
        return Ok(None);
    }
    let ordered = sort(specifiers);
    let ghost all = ordered.deep_view();
    let mut clauses: Vec<Clause> = Vec::new();
    let mut i: usize = 0;
    assert(clauses.deep_view() =~= Seq::empty());
    while i < ordered.len()
        invariant
            i <= ordered.len(),
            specifiers@.len() > 0,
            all == ordered.deep_view(),
            all == sorted::<Specifier>(specifiers.deep_view()),
            all_clauses(all.take(i as int), allow_pre) == Ok::<Seq<ClauseView>, ConvertErrorView>(
                clauses.deep_view(),
            ),
        decreases ordered.len() - i,
    {
        assert(all.take(i + 1).drop_last() =~= all.take(i as int));
        assert(all.take(i + 1).last() == ordered@[i as int].deep_view());
        match convert_specifier(&ordered[i], allow_pre) {
            Ok(more) => {
                let mut more = more;
                let ghost before = clauses.deep_view();
                let ghost added = more.deep_view();
                clauses.append(&mut more);
                assert(clauses.deep_view() =~= before + added);
            },
            Err(error) => {
                proof {
                    clauses_error_first(all, allow_pre, i + 1);
                }
                return Err(error);
            },
        }
        i += 1;
    }
    assert(all.take(i as int) =~= all);
    if clauses.len() == 1 {
        assert(clauses.deep_view()[0] == clauses@[0].deep_view());
        return Ok(Some(VersionSpec::One(clauses[0].duplicate())));
    }
    Ok(Some(VersionSpec::All(clauses)))
}

/// Whether each specifier is what its spelling spells.
pub open spec fn are_spelled(specifiers: Seq<SpecifierView>) -> bool {
    forall|i: int|
        0 <= i < specifiers.len() ==> specifier_outcome((#[trigger] specifiers[i]).text) == Ok::<
            SpecifierView,
            Seq<char>,
        >(specifiers[i])
}

proof fn sorted_keeps_spelled(s: Seq<SpecifierView>)
    requires
        are_spelled(s),
    ensures
        are_spelled(sorted::<Specifier>(s)),
{
    broadcast use vstd::seq_lib::group_to_multiset_ensures;

    sorted_is_sorted::<Specifier>(s);
    let r = sorted::<Specifier>(s);
    assert forall|i: int| 0 <= i < r.len() implies specifier_outcome((#[trigger] r[i]).text)
        == Ok::<SpecifierView, Seq<char>>(r[i]) by {
        assert(r.contains(r[i]));
        assert(r.to_multiset().count(r[i]) == s.to_multiset().count(r[i]));
        let k = s.index_of(r[i]);
        assert(s[k] == r[i]);
    }
}

/// Two sorted lists of the same spelled specifiers are the same.
proof fn sorted_specifiers_unique(a: Seq<SpecifierView>, b: Seq<SpecifierView>)
    requires
        is_sorted::<Specifier>(a),
        is_sorted::<Specifier>(b),
        are_spelled(a),
        are_spelled(b),
        a.to_multiset() == b.to_multiset(),
    ensures
        a == b,
    decreases a.len(),
{
    broadcast use vstd::seq_lib::group_to_multiset_ensures;

    assert(a.len() == a.to_multiset().len());
    assert(b.len() == b.to_multiset().len());
    if a.len() == 0 {
        assert(a =~= b);
    } else {
        let x = a.last();
        let y = b.last();
        assert(a.contains(x)) by {
            assert(a[a.len() - 1] == x);
        }
        assert(b.contains(y)) by {
            assert(b[b.len() - 1] == y);
        }
        assert(b.to_multiset().count(x) > 0);
        assert(a.to_multiset().count(y) > 0);
        let i = a.index_of(y);
        let j = b.index_of(x);
        if x != y {
            assert(Specifier::ranks_le(a[i], a[a.len() - 1]));
            assert(Specifier::ranks_le(b[j], b[b.len() - 1]));
            text_le_antisymmetric(x.text, y.text);
            assert(specifier_outcome(a[a.len() - 1].text) == Ok::<SpecifierView, Seq<char>>(x));
            assert(specifier_outcome(b[b.len() - 1].text) == Ok::<SpecifierView, Seq<char>>(y));
        }
        let fa = a.drop_last();
        let fb = b.drop_last();
        assert(a =~= fa.push(x));
        assert(b =~= fb.push(y));
        assert(fa.to_multiset() =~= fb.to_multiset()) by {
            assert(fa.to_multiset() =~= a.to_multiset().remove(x));
            assert(fb.to_multiset() =~= b.to_multiset().remove(y));
        }
        assert forall|p: int, q: int| 0 <= p < q < fa.len() implies Specifier::ranks_le(
            #[trigger] fa[p],
            #[trigger] fa[q],
        ) by {
            assert(Specifier::ranks_le(a[p], a[q]));
        }
        assert forall|p: int, q: int| 0 <= p < q < fb.len() implies Specifier::ranks_le(
            #[trigger] fb[p],
            #[trigger] fb[q],
        ) by {
            assert(Specifier::ranks_le(b[p], b[q]));
        }
        assert forall|p: int| 0 <= p < fa.len() implies specifier_outcome(
            (#[trigger] fa[p]).text,
        ) == Ok::<SpecifierView, Seq<char>>(fa[p]) by {
            assert(fa[p] == a[p]);
        }
        assert forall|p: int| 0 <= p < fb.len() implies specifier_outcome(
            (#[trigger] fb[p]).text,
        ) == Ok::<SpecifierView, Seq<char>>(fb[p]) by {
            assert(fb[p] == b[p]);
        }
        sorted_specifiers_unique(fa, fb);
    }
}

/// The version constraint of a set of specifiers does not depend on the
/// order in which they are written.
pub proof fn version_spec_ignores_order(
    a: Seq<SpecifierView>,
    b: Seq<SpecifierView>,
    allow_pre: bool,
)
    requires
        are_spelled(a),
        are_spelled(b),
        a.to_multiset() == b.to_multiset(),
    ensures
        version_spec_outcome(a, allow_pre) == version_spec_outcome(b, allow_pre),
{
    broadcast use vstd::seq_lib::group_to_multiset_ensures;

    assert(a.len() == a.to_multiset().len());
    assert(b.len() == b.to_multiset().len());
    sorted_is_sorted::<Specifier>(a);
    sorted_is_sorted::<Specifier>(b);
    sorted_keeps_spelled(a);
    sorted_keeps_spelled(b);
    sorted_specifiers_unique(sorted::<Specifier>(a), sorted::<Specifier>(b));
}

proof fn specifier_clauses_are_read(s: SpecifierView, allow_pre: bool)
    requires
        specifier_clauses(s, allow_pre) is Ok,
    ensures
        clauses_error(specifier_clauses(s, allow_pre)->Ok_0) is None,
{
    let clauses = specifier_clauses(s, allow_pre)->Ok_0;
    reveal_with_fuel(clauses_error, 3);
    if clauses.len() == 2 {
        assert(clauses.drop_last() =~= seq![clauses[0]]);
    }
}

proof fn all_clauses_are_read(specifiers: Seq<SpecifierView>, allow_pre: bool)
    requires
        all_clauses(specifiers, allow_pre) is Ok,
    ensures
        clauses_error(all_clauses(specifiers, allow_pre)->Ok_0) is None,
    decreases specifiers.len(),
{
    if specifiers.len() > 0 {
        all_clauses_are_read(specifiers.drop_last(), allow_pre);
        specifier_clauses_are_read(specifiers.last(), allow_pre);
        clauses_error_add(
            all_clauses(specifiers.drop_last(), allow_pre)->Ok_0,
            specifier_clauses(specifiers.last(), allow_pre)->Ok_0,
        );
    }
}

/// Conda takes every version of a converted constraint.
pub proof fn converted_versions_are_read(specifiers: Seq<SpecifierView>, allow_pre: bool)
    requires
        version_spec_outcome(specifiers, allow_pre) is Ok,
        version_spec_outcome(specifiers, allow_pre)->Ok_0 is Some,
    ensures
        version_spec_error(version_spec_outcome(specifiers, allow_pre)->Ok_0->0) is None,
{
    let ordered = sorted::<Specifier>(specifiers);
    all_clauses_are_read(ordered, allow_pre);
    let clauses = all_clauses(ordered, allow_pre)->Ok_0;
    if clauses.len() == 1 {
        reveal_with_fuel(clauses_error, 2);
        assert(clauses.drop_last() =~= Seq::empty());
    }
}

/// The upper bound of a compatible release has one segment less than the
/// release, the same segments before its last, and as its last the segment
/// of the release in that place, raised by one unless it is the largest. A
/// release of one segment has none.
pub proof fn bumped_release_is_next(release: Seq<u64>)
    ensures
        release.len() <= 1 ==> bumped_release(release).len() == 0,
        release.len() >= 2 ==> bumped_release(release).len() == release.len() - 1,
        forall|i: int|
            0 <= i < release.len() - 2 ==> #[trigger] bumped_release(release)[i] == release[i],
        release.len() >= 2 && release[release.len() - 2] < u64::MAX ==> bumped_release(
            release,
        )[release.len() - 2] == release[release.len() - 2] + 1,
        release.len() >= 2 && release[release.len() - 2] == u64::MAX ==> bumped_release(
            release,
        )[release.len() - 2] == u64::MAX,
{
}

proof fn upper_reads(v: VersionView)
    requires
        v.release.len() >= 2,
    ensures
        point_of(compatible_upper(v)) == (Point {
            epoch: v.epoch as nat,
            release: segments(bumped_release(v.release)).push(0),
            stages: seq![("a"@, 0int)],
        }),
{
    reveal_strlit(".0a0");
    reveal_strlit(".");
    reveal_strlit("a");
    let bumped = bumped_release(v.release);
    let head = epoch_text(v.epoch) + release_text(bumped);
    epoch_reads(v.epoch);
    let r0 = read_on(unread(), epoch_text(v.epoch));
    read_on_append(unread(), epoch_text(v.epoch), release_text(bumped));
    release_reads(r0, bumped);
    let r1 = read_on(unread(), head);
    let zero = crate::text::decimal(0);
    crate::meaning::digit_reads(0);
    assert(zero =~= seq!['0']) by {
        assert(zero == seq![crate::text::digit(0)]);
    }
    assert(".0a0"@ =~= "."@ + (zero + ("a"@ + zero)));
    read_on_append(unread(), head, ".0a0"@);
    read_on_append(r1, "."@, zero + ("a"@ + zero));
    dot_reads(r1);
    let r2 = read_on(r1, "."@);
    read_on_append(r2, zero, "a"@ + zero);
    segment_reads(r2, 0);
    let r3 = read_on(r2, zero);
    stage_reads(r3, "a"@, 0);
    assert(r3.stages.push(("a"@, 0int)) =~= seq![("a"@, 0int)]);
}

proof fn alpha_reads(v: VersionView)
    requires
        is_regular(v),
    ensures
        point_of(version_text(v) + "a0"@) == (Point {
            epoch: v.epoch as nat,
            release: segments(v.release),
            stages: stages_of(v).push(("a"@, 0int)),
        }),
{
    reveal_strlit("a0");
    reveal_strlit("a");
    version_reads(v);
    let zero = crate::text::decimal(0);
    crate::meaning::digit_reads(0);
    assert(zero =~= seq!['0']) by {
        assert(zero == seq![crate::text::digit(0)]);
    }
    assert("a0"@ =~= "a"@ + zero);
    read_on_append(unread(), version_text(v), "a0"@);
    stage_reads(read_on(unread(), version_text(v)), "a"@, 0);
}

proof fn post_reads(v: VersionView)
    requires
        is_regular(v),
    ensures
        point_of(version_text(v) + ".post"@) == (Point {
            epoch: v.epoch as nat,
            release: segments(v.release),
            stages: stages_of(v).push(("post"@, -1int)),
        }),
{
    reveal_strlit(".post");
    reveal_strlit("post");
    reveal_strlit(".");
    version_reads(v);
    let r = read_on(unread(), version_text(v));
    assert(".post"@ =~= "."@ + "post"@);
    read_on_append(unread(), version_text(v), ".post"@);
    read_on_append(r, "."@, "post"@);
    dot_reads(r);
    word_reads(read_on(r, "."@), "post"@);
}

proof fn post_excluded(v: VersionView, p: Point)
    requires
        is_regular(v),
        is_published(p),
    ensures
        starts_with(p, point_of(version_text(v) + ".post"@)) <==> goes_on(p, version_point(v), true),
{
    reveal_strlit("post");
    reveal_strlit("dev");
    reveal_strlit("a");
    reveal_strlit("b");
    reveal_strlit("rc");
    post_reads(v);
    version_reads(v);
    let c = point_of(version_text(v) + ".post"@);
    let q = version_point(v);
    let m = q.stages.len() as int;
    assert("post"@.len() == 4 && "dev"@.len() == 3 && "a"@.len() == 1 && "b"@.len() == 1
        && "rc"@.len() == 2);
    assert(stage(c.stages, m) == (1int, -1int));
    assert forall|i: int| 0 <= i < m implies #[trigger] stage(c.stages, i) == stage(
        q.stages,
        i,
    ) && c.stages[i].1 >= 0 by {}
    if starts_with(p, c) {
        assert(stage(p.stages, m).0 == stage(c.stages, m).0);
        assert forall|i: int| 0 <= i < m implies #[trigger] stage(p.stages, i) == stage(
            q.stages,
            i,
        ) by {
            assert(stage(c.stages, i) == stage(q.stages, i));
        }
        assert(release_eq(p.release, q.release));
        assert(goes_on(p, q, true));
    }
    if goes_on(p, q, true) {
        assert forall|i: int| 0 <= i < c.stages.len() implies (#[trigger] stage(p.stages, i)).0
            == stage(c.stages, i).0 && (c.stages[i].1 < 0 || p.stages[i].1 == c.stages[i].1) by {
            if i < m {
                assert(stage(p.stages, i) == stage(q.stages, i));
            } else {
                assert(stage(p.stages, m).0 > 0);
            }
        }
        assert(release_eq(p.release, c.release));
        assert(starts_with(p, c));
    }
}

/// The comparisons that a specifier stands for take exactly the published
/// versions that it asks for.
pub proof fn specifier_keeps_meaning(s: SpecifierView, allow_pre: bool, p: Point)
    requires
        is_regular(s.version),
        is_published(p),
        s.operator is TildeEqual ==> s.version.release.len() >= 2
            && s.version.release[s.version.release.len() - 2] < u64::MAX,
        specifier_clauses(s, allow_pre) is Ok,
    ensures
        all_take(specifier_clauses(s, allow_pre)->Ok_0, p) <==> asks_for(s.operator, s.version, p),
{
    let v = s.version;
    let spelled = version_text(v);
    let clauses = specifier_clauses(s, allow_pre)->Ok_0;
    version_reads(v);
    assert(point_of(spelled) == version_point(v));
    assert(all_take(clauses, p) ==> takes(clauses[0], p));
    assert(all_take(clauses, p) && clauses.len() > 1 ==> takes(clauses[1], p));
    match s.operator {
        Operator::GreaterThan => {
            post_excluded(v, p);
        },
        Operator::LessThan => {
            if !v.is_prerelease() {
                alpha_reads(v);
                before_first_alpha(v, p);
            }
        },
        Operator::TildeEqual => {
            upper_reads(v);
            bumped_release_is_next(v.release);
            if !crate::meaning::before(p, version_point(v)) {
                compatible_is_between(v, bumped_release(v.release), p);
            }
        },
        _ => {},
    }
}

/// A specifier has comparisons exactly where its version has no local label,
/// is no pre-release or development release, unless such are wanted, and
/// conda takes the versions of the comparisons.
pub proof fn specifier_is_converted(s: SpecifierView, allow_pre: bool)
    ensures
        s.version.local ==> specifier_clauses(s, allow_pre) == Err::<
            Seq<ClauseView>,
            ConvertErrorView,
        >(ConvertErrorView::LocalVersionLabel(s.text)),
        !s.version.local && !allow_pre && (s.version.pre is Some || s.version.dev is Some)
            ==> specifier_clauses(s, allow_pre) == Err::<Seq<ClauseView>, ConvertErrorView>(
            ConvertErrorView::Prerelease(s.text),
        ),
        !s.version.local && (allow_pre || (s.version.pre is None && s.version.dev is None)) ==> (
        specifier_clauses(s, allow_pre) is Ok || specifier_clauses(s, allow_pre)->Err_0
            is InvalidVersionLiteral),
        !s.version.local && (allow_pre || (s.version.pre is None && s.version.dev is None)) && (
        forall|text: Seq<char>| #[trigger] conda_version(text) is Ok) ==> specifier_clauses(
            s,
            allow_pre,
        ) is Ok,
{
}

proof fn all_clauses_take(specifiers: Seq<SpecifierView>, allow_pre: bool, p: Point)
    requires
        all_clauses(specifiers, allow_pre) is Ok,
    ensures
        all_take(all_clauses(specifiers, allow_pre)->Ok_0, p) <==> forall|i: int|
            0 <= i < specifiers.len() ==> specifier_clauses(#[trigger] specifiers[i], allow_pre)
                is Ok && all_take(specifier_clauses(specifiers[i], allow_pre)->Ok_0, p),
        forall|i: int|
            0 <= i < specifiers.len() ==> specifier_clauses(#[trigger] specifiers[i], allow_pre)
                is Ok,
    decreases specifiers.len(),
{
    if specifiers.len() > 0 {
        let front = specifiers.drop_last();
        all_clauses_take(front, allow_pre, p);
        let a = all_clauses(front, allow_pre)->Ok_0;
        let b = specifier_clauses(specifiers.last(), allow_pre)->Ok_0;
        let all = a + b;
        assert forall|i: int| 0 <= i < specifiers.len() implies specifier_clauses(
            #[trigger] specifiers[i],
            allow_pre,
        ) is Ok by {
            if i < front.len() {
                assert(front[i] == specifiers[i]);
            }
        }
        if all_take(all, p) {
            assert forall|i: int| 0 <= i < a.len() implies takes(#[trigger] a[i], p) by {
                assert(all[i] == a[i]);
            }
            assert forall|i: int| 0 <= i < b.len() implies takes(#[trigger] b[i], p) by {
                assert(all[a.len() + i] == b[i]);
            }
            assert forall|i: int| 0 <= i < specifiers.len() implies all_take(
                specifier_clauses(#[trigger] specifiers[i], allow_pre)->Ok_0,
                p,
            ) by {
                if i < front.len() {
                    assert(front[i] == specifiers[i]);
                }
            }
        }
        if forall|i: int|
            0 <= i < specifiers.len() ==> specifier_clauses(#[trigger] specifiers[i], allow_pre)
                is Ok && all_take(specifier_clauses(specifiers[i], allow_pre)->Ok_0, p) {
            assert forall|i: int| 0 <= i < front.len() implies specifier_clauses(
                #[trigger] front[i],
                allow_pre,
            ) is Ok && all_take(specifier_clauses(front[i], allow_pre)->Ok_0, p) by {
                assert(front[i] == specifiers[i]);
            }
            assert(all_take(
                specifier_clauses(specifiers[specifiers.len() - 1], allow_pre)->Ok_0,
                p,
            ));
            assert forall|i: int| 0 <= i < all.len() implies takes(#[trigger] all[i], p) by {
                if i < a.len() {
                    assert(takes(a[i], p));
                } else {
                    assert(takes(b[i - a.len()], p));
                }
            }
        }
    }
}

/// The version constraint of a set of specifiers takes exactly the published
/// versions that each of them asks for; without specifiers there is none.
pub proof fn version_spec_keeps_meaning(
    specifiers: Seq<SpecifierView>,
    allow_pre: bool,
    p: Point,
)
    requires
        is_published(p),
        forall|i: int|
            0 <= i < specifiers.len() ==> is_regular((#[trigger] specifiers[i]).version) && (
            specifiers[i].operator is TildeEqual ==> specifiers[i].version.release.len() >= 2
                && specifiers[i].version.release[specifiers[i].version.release.len() - 2]
                < u64::MAX),
        version_spec_outcome(specifiers, allow_pre) is Ok,
    ensures
        version_spec_outcome(specifiers, allow_pre)->Ok_0 is None <==> specifiers.len() == 0,
        specifiers.len() > 0 ==> (constraint_takes(
            version_spec_outcome(specifiers, allow_pre)->Ok_0->0,
            p,
        ) <==> forall|i: int|
            0 <= i < specifiers.len() ==> asks_for(
                (#[trigger] specifiers[i]).operator,
                specifiers[i].version,
                p,
            )),
{
    broadcast use vstd::seq_lib::group_to_multiset_ensures;

    if specifiers.len() > 0 {
        let ordered = sorted::<Specifier>(specifiers);
        sorted_is_sorted::<Specifier>(specifiers);
        all_clauses_take(ordered, allow_pre, p);
        let clauses = all_clauses(ordered, allow_pre)->Ok_0;
        if clauses.len() == 1 {
            assert(all_take(clauses, p) <==> takes(clauses[0], p));
        }
        assert forall|i: int| 0 <= i < ordered.len() implies is_regular(
            (#[trigger] ordered[i]).version,
        ) && (ordered[i].operator is TildeEqual ==> ordered[i].version.release.len() >= 2
            && ordered[i].version.release[ordered[i].version.release.len() - 2] < u64::MAX) by {
            assert(ordered.to_multiset().count(ordered[i]) > 0);
            assert(specifiers.to_multiset().count(ordered[i]) > 0);
            let k = specifiers.index_of(ordered[i]);
            assert(specifiers[k] == ordered[i]);
        }
        assert forall|i: int| 0 <= i < ordered.len() implies (all_take(
            specifier_clauses(#[trigger] ordered[i], allow_pre)->Ok_0,
            p,
        ) <==> asks_for(ordered[i].operator, ordered[i].version, p)) by {
            specifier_keeps_meaning(ordered[i], allow_pre, p);
        }
        if all_take(clauses, p) {
            assert forall|i: int| 0 <= i < specifiers.len() implies asks_for(
                (#[trigger] specifiers[i]).operator,
                specifiers[i].version,
                p,
            ) by {
                assert(specifiers.to_multiset().count(specifiers[i]) > 0);
                assert(ordered.to_multiset().count(specifiers[i]) > 0);
                let k = ordered.index_of(specifiers[i]);
                assert(ordered[k] == specifiers[i]);
                assert(all_take(specifier_clauses(ordered[k], allow_pre)->Ok_0, p));
            }
        }
        if forall|i: int|
            0 <= i < specifiers.len() ==> asks_for(
                (#[trigger] specifiers[i]).operator,
                specifiers[i].version,
                p,
            ) {
            assert forall|i: int| 0 <= i < ordered.len() implies specifier_clauses(
                #[trigger] ordered[i],
                allow_pre,
            ) is Ok && all_take(specifier_clauses(ordered[i], allow_pre)->Ok_0, p) by {
                assert(ordered.to_multiset().count(ordered[i]) > 0);
                assert(specifiers.to_multiset().count(ordered[i]) > 0);
                let k = specifiers.index_of(ordered[i]);
                assert(specifiers[k] == ordered[i]);
                assert(asks_for(specifiers[k].operator, specifiers[k].version, p));
            }
        }
    }
}

} // verus!
