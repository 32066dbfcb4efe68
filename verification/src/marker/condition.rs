//! Markers as conditions on the version of the `python` package.
//!
//! What is known of a marker on the target platform is taken out of it
//! first. What is left speaks of the Python version, or of something that
//! has no equivalent in a match spec.

use crate::conda::{
    check_conda_version, condition_error, conda_version, Clause, ClauseView, Comparator, Condition,
    ConditionView,
};
use crate::marker::assumption::Assumption;
use crate::meaning::{
    asks_for, before, condition_takes, digit_reads, dot_reads, first_alpha_is_first, is_final,
    is_published, is_regular, point_of, read_on, read_on_append, release_eq, release_lt, same_point, seg,
    segment_reads, segments, stage_reads, starts_with, takes, unread, version_point, version_reads,
    Point,
};
use crate::pep440::{
    parse_specifier, parse_version, pep440_version, specifier_outcome, Operator, Version,
    VersionView,
};
use crate::pep508::{FormView, LeafView, Marker, MarkerLeaf, MarkerView, NormalForm};
use crate::platform::Platform;
use crate::text::{concat, concat3, decimal, decimal_of, quoted, quoted_text, same};
use vstd::prelude::*;
use vstd::string::*;

verus! {

/// Whether a dependency applies on the target platform.
#[derive(Debug, Clone, PartialEq, Eq)]
pub enum Applicability {
    /// It always does.
    Always,
    /// It does where the condition on the Python version holds.
    Conditionally(Condition),
    /// It never does.
    Never,
}

/// Whether a dependency applies, as mathematical values.
pub enum ApplicabilityView {
    Always,
    Conditionally(ConditionView),
    Never,
}

impl DeepView for Applicability {
    type V = ApplicabilityView;

    open spec fn deep_view(&self) -> ApplicabilityView {
        match self {
            Applicability::Always => ApplicabilityView::Always,
            Applicability::Conditionally(condition) => ApplicabilityView::Conditionally(
                condition.deep_view(),
            ),
            Applicability::Never => ApplicabilityView::Never,
        }
    }
}

/// Why a marker has no equivalent in a match spec.
#[derive(Debug, Clone, PartialEq, Eq)]
pub enum Unconvertible {
    /// It speaks of something other than the Python version.
    NoMatchspecEquivalent { key: String },
    /// It speaks of an extra.
    ExtraMarker,
    /// It compares in a way that has no equivalent.
    UnsupportedOperator { key: String, operator: String },
    /// It compares with what is no version.
    InvalidVersionLiteral { literal: String, source: String },
}

/// Why a marker has no equivalent, as mathematical values.
pub enum UnconvertibleView {
    NoMatchspecEquivalent(Seq<char>),
    ExtraMarker,
    UnsupportedOperator(Seq<char>, Seq<char>),
    InvalidVersionLiteral(Seq<char>, Seq<char>),
}

impl DeepView for Unconvertible {
    type V = UnconvertibleView;

    open spec fn deep_view(&self) -> UnconvertibleView {
        match self {
            Unconvertible::NoMatchspecEquivalent { key } =>
                UnconvertibleView::NoMatchspecEquivalent(key@),
            Unconvertible::ExtraMarker => UnconvertibleView::ExtraMarker,
            Unconvertible::UnsupportedOperator { key, operator } =>
                UnconvertibleView::UnsupportedOperator(key@, operator@),
            Unconvertible::InvalidVersionLiteral { literal, source } =>
                UnconvertibleView::InvalidVersionLiteral(literal@, source@),
        }
    }
}

/// The message of an unconvertible marker.
pub open spec fn unconvertible_text(u: UnconvertibleView) -> Seq<char> {
    match u {
        UnconvertibleView::NoMatchspecEquivalent(key) => "marker key "@ + quoted_text(key)
            + " has no matchspec equivalent"@,
        UnconvertibleView::ExtraMarker =>
            "\"extra\" marker reached marker-condition conversion; strip it before calling"@,
        UnconvertibleView::UnsupportedOperator(key, operator) => "comparator "@ + quoted_text(
            operator,
        ) + " is not supported for marker key "@ + quoted_text(key),
        UnconvertibleView::InvalidVersionLiteral(literal, source) => quoted_text(literal)
            + " did not parse as a conda version literal: "@ + source,
    }
}

impl Unconvertible {
    /// The message of the error.
    pub fn to_string(&self) -> (r: String)
        ensures
            r@ == unconvertible_text(self.deep_view()),
    {
        match self {
            Unconvertible::NoMatchspecEquivalent { key } => {
                let shown = quoted(key.as_str());
                concat3("marker key ", shown.as_str(), " has no matchspec equivalent")
            },
            Unconvertible::ExtraMarker =>
                "\"extra\" marker reached marker-condition conversion; strip it before calling".to_owned(),
            Unconvertible::UnsupportedOperator { key, operator } => {
                let shown = quoted(operator.as_str());
                let head = concat3(
                    "comparator ",
                    shown.as_str(),
                    " is not supported for marker key ",
                );
                let name = quoted(key.as_str());
                concat(head.as_str(), name.as_str())
            },
            Unconvertible::InvalidVersionLiteral { literal, source } => {
                let shown = quoted(literal.as_str());
                concat3(
                    shown.as_str(),
                    " did not parse as a conda version literal: ",
                    source.as_str(),
                )
            },
        }
    }
}

/// Release segments, separated by dots.
pub open spec fn release_text(release: Seq<u64>) -> Seq<char>
    decreases release.len(),
{
    if release.len() == 0 {
        Seq::empty()
    } else if release.len() == 1 {
        decimal(release[0] as nat)
    } else {
        release_text(release.drop_last()) + "."@ + decimal(release.last() as nat)
    }
}

/// The epoch of a version, if it has one.
pub open spec fn epoch_text(epoch: u64) -> Seq<char> {
    if epoch != 0 {
        decimal(epoch as nat) + "!"@
    } else {
        Seq::empty()
    }
}

/// A version as conda spells it: its epoch, its release, and dots before
/// its pre-release, post-release and development release.
pub open spec fn version_text(v: VersionView) -> Seq<char> {
    epoch_text(v.epoch) + release_text(v.release) + match v.pre {
        Some((letters, number)) => "."@ + letters + decimal(number as nat),
        None => Seq::empty(),
    } + match v.post {
        Some(number) => ".post"@ + decimal(number as nat),
        None => Seq::empty(),
    } + match v.dev {
        Some(number) => ".dev"@ + decimal(number as nat),
        None => Seq::empty(),
    }
}

/// Release segments, separated by dots.
pub fn format_release(release: &[u64]) -> (r: String)
    ensures
        r@ == release_text(release@),
{
    let mut out = String::new();
    let mut i: usize = 0;
    assert(out@ =~= release_text(release@.take(0)));
    while i < release.len()
        invariant
            i <= release.len(),
            out@ == release_text(release@.take(i as int)),
        decreases release.len() - i,
    {
        assert(release@.take(i + 1).drop_last() =~= release@.take(i as int));
        assert(release@.take(i + 1).last() == release@[i as int]);
        if i > 0 {
            out.append(".");
        }
        let number = decimal_of(release[i] as u128);
        out.append(number.as_str());
        i += 1;
        assert(out@ =~= release_text(release@.take(i as int)));
    }
    assert(release@.take(i as int) =~= release@);
    out
}

/// The epoch of a version, if it has one.
pub fn format_epoch(epoch: u64) -> (r: String)
    ensures
        r@ == epoch_text(epoch),
{
    if epoch != 0 {
        let number = decimal_of(epoch as u128);
        concat(number.as_str(), "!")
    } else {
        let out = String::new();
        assert(out@ =~= Seq::empty());
        out
    }
}

/// A version as conda spells it.
pub fn format_version(version: &Version) -> (r: String)
    ensures
        r@ == version_text(version.deep_view()),
{
    let mut out = format_epoch(version.epoch);
    let release = format_release(version.release.as_slice());
    out.append(release.as_str());
    let ghost v = version.deep_view();
    let ghost head = epoch_text(v.epoch) + release_text(v.release);
    let ghost pre_part = match v.pre {
        Some((letters, number)) => "."@ + letters + decimal(number as nat),
        None => Seq::empty(),
    };
    if let Some((letters, number)) = &version.pre {
        let digits = decimal_of(*number as u128);
        out.append(".");
        out.append(letters.as_str());
        out.append(digits.as_str());
    }
    assert(out@ =~= head + pre_part);
    let ghost post_part = match v.post {
        Some(number) => ".post"@ + decimal(number as nat),
        None => Seq::empty(),
    };
    if let Some(number) = version.post {
        let digits = decimal_of(number as u128);
        out.append(".post");
        out.append(digits.as_str());
    }
    assert(out@ =~= head + pre_part + post_part);
    if let Some(number) = version.dev {
        let digits = decimal_of(number as u128);
        out.append(".dev");
        out.append(digits.as_str());
    }
    assert(out@ =~= version_text(v));
    out
}

/// A spelled version, if conda takes it.
pub open spec fn literal(text: Seq<char>) -> Result<Seq<char>, UnconvertibleView> {
    match conda_version(text) {
        Ok(_) => Ok(text),
        Err(message) => Err(UnconvertibleView::InvalidVersionLiteral(text, message)),
    }
}

/// The view of a result whose error is an unconvertible marker.
pub open spec fn conversion<T: DeepView>(r: Result<T, Unconvertible>) -> Result<
    T::V,
    UnconvertibleView,
> {
    match r {
        Ok(value) => Ok(value.deep_view()),
        Err(error) => Err(error.deep_view()),
    }
}

fn check_literal(text: String) -> (r: Result<String, Unconvertible>)
    ensures
        conversion(r) == literal(text@),
{
    match check_conda_version(text.as_str()) {
        Ok(_) => Ok(text),
        Err(source) => Err(Unconvertible::InvalidVersionLiteral { literal: text, source }),
    }
}

/// A version's major and minor number, if it has no finer part.
pub open spec fn minor_precision(v: VersionView) -> Option<(u64, u64)> {
    if v.epoch != 0 || v.pre is Some || v.post is Some || v.dev is Some {
        None
    } else if exists|i: int| 2 <= i < v.release.len() && #[trigger] v.release[i] != 0 {
        None
    } else {
        Some(
            (
                if v.release.len() > 0 {
                    v.release[0]
                } else {
                    0
                },
                if v.release.len() > 1 {
                    v.release[1]
                } else {
                    0
                },
            ),
        )
    }
}

fn minor_of(version: &Version) -> (r: Option<(u64, u64)>)
    ensures
        r == minor_precision(version.deep_view()),
{
    if version.epoch != 0 || version.pre.is_some() || version.post.is_some()
        || version.dev.is_some() {
        return None;
    }
    let release = &version.release;
    let mut i: usize = 2;
    while i < release.len()
        invariant
            2 <= i,
            release@ == version.deep_view().release,
            forall|k: int| 2 <= k < i && k < release@.len() ==> #[trigger] release@[k] == 0,
            version.deep_view().epoch == 0,
            version.deep_view().pre is None,
            version.deep_view().post is None,
            version.deep_view().dev is None,
        decreases release.len() - i,
    {
        if release[i] != 0 {
            assert(version.deep_view().release[i as int] != 0);
            return None;
        }
        i += 1;
    }
    let major: u64 = if release.len() > 0 {
        release[0]
    } else {
        0
    };
    let minor: u64 = if release.len() > 1 {
        release[1]
    } else {
        0
    };
    Some((major, minor))
}

/// What stands before every pre-release of a minor version.
pub open spec fn anchor_text(major: nat, minor: nat) -> Seq<char> {
    decimal(major) + "."@ + decimal(minor) + ".0a0"@
}

fn anchor(major: u64, minor: u128) -> (r: Result<String, Unconvertible>)
    ensures
        conversion(r) == literal(anchor_text(major as nat, minor as nat)),
{
    let a = decimal_of(major as u128);
    let b = decimal_of(minor);
    let head = concat3(a.as_str(), ".", b.as_str());
    check_literal(concat(head.as_str(), ".0a0"))
}

/// Where a range that starts or ends at a version does so: before the
/// version's pre-releases where it has no finer part than its minor number.
pub open spec fn boundary_text(v: VersionView) -> Seq<char> {
    match minor_precision(v) {
        Some((major, minor)) => anchor_text(major as nat, minor as nat),
        None => version_text(v),
    }
}

fn boundary(version: &Version) -> (r: Result<String, Unconvertible>)
    ensures
        conversion(r) == literal(boundary_text(version.deep_view())),
{
    match minor_of(version) {
        Some((major, minor)) => anchor(major, minor as u128),
        None => check_literal(format_version(version)),
    }
}

/// A condition that compares the version of `python`.
pub open spec fn python_outcome(
    comparator: Comparator,
    spelled: Result<Seq<char>, UnconvertibleView>,
) -> Result<ConditionView, UnconvertibleView> {
    match spelled {
        Ok(version) => Ok(ConditionView::Python(ClauseView { comparator, version })),
        Err(error) => Err(error),
    }
}

fn python_condition(comparator: Comparator, spelled: Result<String, Unconvertible>) -> (r: Result<
    Condition,
    Unconvertible,
>)
    ensures
        conversion(r) == python_outcome(comparator, conversion(spelled)),
{
    match spelled {
        Ok(version) => Ok(Condition::Python(Clause { comparator, version })),
        Err(error) => Err(error),
    }
}

/// The condition that a comparison with a version stands for. A range that
/// a minor version starts or ends takes in or leaves out its pre-releases;
/// a comparison with every version of a minor version is the range between
/// it and the next.
pub open spec fn specifier_condition(operator: Operator, v: VersionView) -> Result<
    ConditionView,
    UnconvertibleView,
> {
    match operator {
        Operator::GreaterThanEqual => python_outcome(
            Comparator::GreaterEquals,
            literal(boundary_text(v)),
        ),
        Operator::LessThan => python_outcome(Comparator::Less, literal(boundary_text(v))),
        Operator::LessThanEqual => python_outcome(
            Comparator::LessEquals,
            literal(version_text(v)),
        ),
        Operator::GreaterThan => python_outcome(Comparator::Greater, literal(version_text(v))),
        Operator::Equal => python_outcome(Comparator::Equals, literal(version_text(v))),
        Operator::NotEqual => python_outcome(Comparator::NotEquals, literal(version_text(v))),
        Operator::EqualStar => match minor_precision(v) {
            Some((major, minor)) => match (
                python_outcome(
                    Comparator::GreaterEquals,
                    literal(anchor_text(major as nat, minor as nat)),
                ),
                python_outcome(
                    Comparator::Less,
                    literal(anchor_text(major as nat, minor as nat + 1)),
                ),
            ) {
                (Ok(lower), Ok(upper)) => Ok(ConditionView::And(Box::new(lower), Box::new(upper))),
                (Err(error), _) => Err(error),
                (_, Err(error)) => Err(error),
            },
            None => python_outcome(Comparator::StartsWith, literal(version_text(v))),
        },
        Operator::NotEqualStar => python_outcome(
            Comparator::NotStartsWith,
            literal(version_text(v)),
        ),
        Operator::TildeEqual => Err(
            UnconvertibleView::UnsupportedOperator("python_full_version"@, "TildeEqual"@),
        ),
        Operator::ExactEqual => Err(
            UnconvertibleView::UnsupportedOperator("python_full_version"@, "ExactEqual"@),
        ),
    }
}

fn unsupported(operator: &str) -> (r: Unconvertible)
    ensures
        r.deep_view() == UnconvertibleView::UnsupportedOperator(
            "python_full_version"@,
            operator@,
        ),
{
    Unconvertible::UnsupportedOperator {
        key: "python_full_version".to_owned(),
        operator: operator.to_owned(),
    }
}

/// The condition that a comparison with a version stands for.
pub fn convert_specifier(operator: Operator, version: &Version) -> (r: Result<
    Condition,
    Unconvertible,
>)
    ensures
        conversion(r) == specifier_condition(operator, version.deep_view()),
{
    match operator {
        Operator::GreaterThanEqual => python_condition(
            Comparator::GreaterEquals,
            boundary(version),
        ),
        Operator::LessThan => python_condition(Comparator::Less, boundary(version)),
        Operator::LessThanEqual => python_condition(
            Comparator::LessEquals,
            check_literal(format_version(version)),
        ),
        Operator::GreaterThan => python_condition(
            Comparator::Greater,
            check_literal(format_version(version)),
        ),
        Operator::Equal => python_condition(
            Comparator::Equals,
            check_literal(format_version(version)),
        ),
        Operator::NotEqual => python_condition(
            Comparator::NotEquals,
            check_literal(format_version(version)),
        ),
        Operator::EqualStar => match minor_of(version) {
            Some((major, minor)) => {
                let lower = match python_condition(
                    Comparator::GreaterEquals,
                    anchor(major, minor as u128),
                ) {
                    Ok(lower) => lower,
                    Err(error) => return Err(error),
                };
                let upper = match python_condition(
                    Comparator::Less,
                    anchor(major, minor as u128 + 1),
                ) {
                    Ok(upper) => upper,
                    Err(error) => return Err(error),
                };
                Ok(Condition::And(Box::new(lower), Box::new(upper)))
            },
            None => python_condition(
                Comparator::StartsWith,
                check_literal(format_version(version)),
            ),
        },
        Operator::NotEqualStar => python_condition(
            Comparator::NotStartsWith,
            check_literal(format_version(version)),
        ),
        Operator::TildeEqual => Err(unsupported("TildeEqual")),
        Operator::ExactEqual => Err(unsupported("ExactEqual")),
    }
}

/// Conditions joined from the left, each of which must hold.
pub open spec fn and_chain(leaves: Seq<ConditionView>) -> ConditionView
    decreases leaves.len(),
{
    if leaves.len() <= 1 {
        leaves[0]
    } else {
        ConditionView::And(Box::new(and_chain(leaves.drop_last())), Box::new(leaves.last()))
    }
}

/// Conditions joined from the left, one of which must hold.
pub open spec fn or_chain(arms: Seq<ConditionView>) -> ConditionView
    decreases arms.len(),
{
    if arms.len() <= 1 {
        arms[0]
    } else {
        ConditionView::Or(Box::new(or_chain(arms.drop_last())), Box::new(arms.last()))
    }
}

fn join_and(acc: Option<Condition>, next: Condition) -> (r: Condition)
    ensures
        r.deep_view() == match acc {
            Some(a) => ConditionView::And(Box::new(a.deep_view()), Box::new(next.deep_view())),
            None => next.deep_view(),
        },
{
    match acc {
        Some(a) => Condition::And(Box::new(a), Box::new(next)),
        None => next,
    }
}

fn join_or(acc: Option<Condition>, next: Condition) -> (r: Condition)
    ensures
        r.deep_view() == match acc {
            Some(a) => ConditionView::Or(Box::new(a.deep_view()), Box::new(next.deep_view())),
            None => next.deep_view(),
        },
{
    match acc {
        Some(a) => Condition::Or(Box::new(a), Box::new(next)),
        None => next,
    }
}

/// Conditions that compare the version of `python` with each of several
/// spelled versions, or why the first that is none is not.
pub open spec fn listed_conditions(comparator: Comparator, versions: Seq<Seq<char>>) -> Result<
    Seq<ConditionView>,
    UnconvertibleView,
>
    decreases versions.len(),
{
    if versions.len() == 0 {
        Ok(Seq::empty())
    } else {
        match listed_conditions(comparator, versions.drop_last()) {
            Err(error) => Err(error),
            Ok(before) => match pep440_version(versions.last()) {
                Err(message) => Err(
                    UnconvertibleView::InvalidVersionLiteral(versions.last(), message),
                ),
                Ok(version) => match python_outcome(comparator, literal(version_text(version))) {
                    Ok(condition) => Ok(before.push(condition)),
                    Err(error) => Err(error),
                },
            },
        }
    }
}

/// The condition that membership in a list of versions stands for: being
/// one of them, or being none of them. An empty list has no equivalent.
pub open spec fn membership_condition(operator: Seq<char>, versions: Seq<Seq<char>>) -> Result<
    ConditionView,
    UnconvertibleView,
> {
    if (operator != "in"@ && operator != "not in"@) || versions.len() == 0 {
        Err(UnconvertibleView::UnsupportedOperator("python_full_version"@, operator))
    } else if operator == "in"@ {
        match listed_conditions(Comparator::Equals, versions) {
            Ok(leaves) => Ok(or_chain(leaves)),
            Err(error) => Err(error),
        }
    } else {
        match listed_conditions(Comparator::NotEquals, versions) {
            Ok(leaves) => Ok(and_chain(leaves)),
            Err(error) => Err(error),
        }
    }
}

proof fn listed_error_first(comparator: Comparator, versions: Seq<Seq<char>>, n: int)
    requires
        0 <= n <= versions.len(),
        listed_conditions(comparator, versions.take(n)) is Err,
    ensures
        listed_conditions(comparator, versions) == listed_conditions(comparator, versions.take(n)),
    decreases versions.len() - n,
{
    if n < versions.len() {
        assert(versions.take(n + 1).drop_last() =~= versions.take(n));
        listed_error_first(comparator, versions, n + 1);
    } else {
        assert(versions.take(n) =~= versions);
    }
}

/// The condition that membership in a list of versions stands for.
pub fn convert_membership(operator: &str, versions: &Vec<String>) -> (r: Result<
    Condition,
    Unconvertible,
>)
    ensures
        conversion(r) == membership_condition(operator@, versions.deep_view()),
{
    let within = same(operator, "in");
    proof {
        reveal_strlit("in");
        reveal_strlit("not in");
        assert("in"@.len() != "not in"@.len());
    }
    if (!within && !same(operator, "not in")) || versions.len() == 0 {
        return Err(unsupported(operator));
    }
    let comparator = if within {
        Comparator::Equals
    } else {
        Comparator::NotEquals
    };
    let ghost all = versions.deep_view();
    let ghost mut leaves: Seq<ConditionView> = Seq::empty();
    let mut acc: Option<Condition> = None;
    let mut i: usize = 0;
    while i < versions.len()
        invariant
            i <= versions.len(),
            all == versions.deep_view(),
            all.len() > 0,
            within == (operator@ == "in"@),
            within || operator@ == "not in"@,
            comparator == if within {
                Comparator::Equals
            } else {
                Comparator::NotEquals
            },
            listed_conditions(comparator, all.take(i as int)) == Ok::<
                Seq<ConditionView>,
                UnconvertibleView,
            >(leaves),
            leaves.len() == i,
            match acc {
                Some(a) => i > 0 && a.deep_view() == if within {
                    or_chain(leaves)
                } else {
                    and_chain(leaves)
                },
                None => i == 0,
            },
        decreases versions.len() - i,
    {
        assert(all.take(i + 1).drop_last() =~= all.take(i as int));
        assert(all.take(i + 1).last() == versions@[i as int]@);
        let version = match parse_version(versions[i].as_str()) {
            Ok(version) => version,
            Err(source) => {
                proof {
                    listed_error_first(comparator, all, i + 1);
                }
                return Err(
                    Unconvertible::InvalidVersionLiteral { literal: versions[i].clone(), source },
                );
            },
        };
        let spelled = check_literal(format_version(&version));
        let leaf = match python_condition(comparator, spelled) {
            Ok(leaf) => leaf,
            Err(error) => {
                proof {
                    listed_error_first(comparator, all, i + 1);
                }
                return Err(error);
            },
        };
        let ghost longer = leaves.push(leaf.deep_view());
        proof {
            assert(longer.drop_last() =~= leaves);
        }
        acc = Some(
            if within {
                join_or(acc, leaf)
            } else {
                join_and(acc, leaf)
            },
        );
        proof {
            leaves = longer;
        }
        i += 1;
    }
    assert(all.take(i as int) =~= all);
    match acc {
        Some(condition) => Ok(condition),
        None => Err(unsupported(operator)),
    }
}

/// The condition that one marker clause stands for.
pub open spec fn leaf_condition(leaf: LeafView) -> Result<ConditionView, UnconvertibleView> {
    match leaf {
        LeafView::Version(spelled) => match specifier_outcome(spelled) {
            Ok(specifier) => specifier_condition(specifier.operator, specifier.version),
            Err(message) => Err(UnconvertibleView::InvalidVersionLiteral(spelled, message)),
        },
        LeafView::VersionIn(operator, versions) => membership_condition(operator, versions),
        LeafView::Other(key) => Err(UnconvertibleView::NoMatchspecEquivalent(key)),
        LeafView::Extra => Err(UnconvertibleView::ExtraMarker),
    }
}

/// The condition that one marker clause stands for.
pub fn convert_leaf(leaf: &MarkerLeaf) -> (r: Result<Condition, Unconvertible>)
    ensures
        conversion(r) == leaf_condition(leaf.deep_view()),
{
    match leaf {
        MarkerLeaf::Version(spelled) => match parse_specifier(spelled.as_str()) {
            Ok(specifier) => convert_specifier(specifier.operator, &specifier.version),
            Err(source) => Err(
                Unconvertible::InvalidVersionLiteral { literal: spelled.clone(), source },
            ),
        },
        MarkerLeaf::VersionIn(operator, versions) => convert_membership(
            operator.as_str(),
            versions,
        ),
        MarkerLeaf::Other(key) => Err(Unconvertible::NoMatchspecEquivalent { key: key.clone() }),
        MarkerLeaf::Extra => Err(Unconvertible::ExtraMarker),
    }
}

/// The conditions of the clauses of a conjunction, or why the first that
/// has none has none.
pub open spec fn leaf_conditions(clause: Seq<LeafView>) -> Result<
    Seq<ConditionView>,
    UnconvertibleView,
>
    decreases clause.len(),
{
    if clause.len() == 0 {
        Ok(Seq::empty())
    } else {
        match leaf_conditions(clause.drop_last()) {
            Err(error) => Err(error),
            Ok(before) => match leaf_condition(clause.last()) {
                Ok(condition) => Ok(before.push(condition)),
                Err(error) => Err(error),
            },
        }
    }
}

/// The conditions of the conjunctions of a marker, or why the first that
/// has none has none.
pub open spec fn arm_conditions(clauses: Seq<Seq<LeafView>>) -> Result<
    Seq<ConditionView>,
    UnconvertibleView,
>
    decreases clauses.len(),
{
    if clauses.len() == 0 {
        Ok(Seq::empty())
    } else {
        match arm_conditions(clauses.drop_last()) {
            Err(error) => Err(error),
            Ok(before) => match leaf_conditions(clauses.last()) {
                Err(error) => Err(error),
                Ok(leaves) => Ok(before.push(and_chain(leaves))),
            },
        }
    }
}

proof fn leaf_error_first(clause: Seq<LeafView>, n: int)
    requires
        0 <= n <= clause.len(),
        leaf_conditions(clause.take(n)) is Err,
    ensures
        leaf_conditions(clause) == leaf_conditions(clause.take(n)),
    decreases clause.len() - n,
{
    if n < clause.len() {
        assert(clause.take(n + 1).drop_last() =~= clause.take(n));
        leaf_error_first(clause, n + 1);
    } else {
        assert(clause.take(n) =~= clause);
    }
}

proof fn arm_error_first(clauses: Seq<Seq<LeafView>>, n: int)
    requires
        0 <= n <= clauses.len(),
        arm_conditions(clauses.take(n)) is Err,
    ensures
        arm_conditions(clauses) == arm_conditions(clauses.take(n)),
    decreases clauses.len() - n,
{
    if n < clauses.len() {
        assert(clauses.take(n + 1).drop_last() =~= clauses.take(n));
        arm_error_first(clauses, n + 1);
    } else {
        assert(clauses.take(n) =~= clauses);
    }
}

/// Converts one conjunction.
fn convert_clause(clause: &Vec<MarkerLeaf>) -> (r: Result<Condition, Unconvertible>)
    requires
        clause@.len() > 0,
    ensures
        match leaf_conditions(clause.deep_view()) {
            Ok(leaves) => conversion(r) == Ok::<ConditionView, UnconvertibleView>(
                and_chain(leaves),
            ),
            Err(error) => conversion(r) == Err::<ConditionView, UnconvertibleView>(error),
        },
{
    let ghost all = clause.deep_view();
    let ghost mut leaves: Seq<ConditionView> = Seq::empty();
    let mut acc: Option<Condition> = None;
    let mut i: usize = 0;
    while i < clause.len()
        invariant
            i <= clause.len(),
            all == clause.deep_view(),
            all.len() > 0,
            leaf_conditions(all.take(i as int)) == Ok::<Seq<ConditionView>, UnconvertibleView>(
                leaves,
            ),
            leaves.len() == i,
            match acc {
                Some(a) => i > 0 && a.deep_view() == and_chain(leaves),
                None => i == 0,
            },
        decreases clause.len() - i,
    {
        assert(all.take(i + 1).drop_last() =~= all.take(i as int));
        assert(all.take(i + 1).last() == clause@[i as int].deep_view());
        let leaf = match convert_leaf(&clause[i]) {
            Ok(leaf) => leaf,
            Err(error) => {
                proof {
                    leaf_error_first(all, i + 1);
                }
                return Err(error);
            },
        };
        let ghost longer = leaves.push(leaf.deep_view());
        proof {
            assert(longer.drop_last() =~= leaves);
        }
        acc = Some(join_and(acc, leaf));
        proof {
            leaves = longer;
        }
        i += 1;
    }
    assert(all.take(i as int) =~= all);
    match acc {
        Some(condition) => Ok(condition),
        None => Err(Unconvertible::ExtraMarker),
    }
}

/// Whether a marker is a disjunction of conjunctions, none of them empty.
pub open spec fn is_proper(clauses: Seq<Seq<LeafView>>) -> bool {
    clauses.len() > 0 && forall|i: int|
        0 <= i < clauses.len() ==> (#[trigger] clauses[i]).len() > 0
}

/// The condition that a disjunction of conjunctions stands for.
pub open spec fn clauses_condition(clauses: Seq<Seq<LeafView>>) -> Result<
    ConditionView,
    UnconvertibleView,
> {
    match arm_conditions(clauses) {
        Ok(arms) => Ok(or_chain(arms)),
        Err(error) => Err(error),
    }
}

/// Converts a disjunction of conjunctions.
pub fn convert_clauses(clauses: &Vec<Vec<MarkerLeaf>>) -> (r: Result<
    Condition,
    Unconvertible,
>)
    requires
        is_proper(clauses.deep_view()),
    ensures
        conversion(r) == clauses_condition(clauses.deep_view()),
{
    let ghost all = clauses.deep_view();
    let ghost mut arms: Seq<ConditionView> = Seq::empty();
    let mut acc: Option<Condition> = None;
    let mut i: usize = 0;
    while i < clauses.len()
        invariant
            i <= clauses.len(),
            all == clauses.deep_view(),
            is_proper(all),
            arm_conditions(all.take(i as int)) == Ok::<Seq<ConditionView>, UnconvertibleView>(
                arms,
            ),
            arms.len() == i,
            match acc {
                Some(a) => i > 0 && a.deep_view() == or_chain(arms),
                None => i == 0,
            },
        decreases clauses.len() - i,
    {
        assert(all.take(i + 1).drop_last() =~= all.take(i as int));
        assert(all.take(i + 1).last() == clauses@[i as int].deep_view());
        assert(all[i as int].len() > 0);
        let arm = match convert_clause(&clauses[i]) {
            Ok(arm) => arm,
            Err(error) => {
                proof {
                    arm_error_first(all, i + 1);
                }
                return Err(error);
            },
        };
        let ghost longer = arms.push(arm.deep_view());
        proof {
            assert(longer.drop_last() =~= arms);
        }
        acc = Some(join_or(acc, arm));
        proof {
            arms = longer;
        }
        i += 1;
    }
    assert(all.take(i as int) =~= all);
    match acc {
        Some(condition) => Ok(condition),
        None => Err(Unconvertible::ExtraMarker),
    }
}

/// Whether no conjunction is empty.
fn all_clauses_filled(clauses: &Vec<Vec<MarkerLeaf>>) -> (r: bool)
    ensures
        r == forall|i: int|
            0 <= i < clauses.deep_view().len() ==> (#[trigger] clauses.deep_view()[i]).len() > 0,
{
    let ghost all = clauses.deep_view();
    let mut i: usize = 0;
    while i < clauses.len()
        invariant
            i <= clauses.len(),
            all == clauses.deep_view(),
            forall|k: int| 0 <= k < i ==> (#[trigger] all[k]).len() > 0,
        decreases clauses.len() - i,
    {
        assert(all[i as int] == clauses@[i as int].deep_view());
        if clauses[i].len() == 0 {
            assert(all[i as int].len() == 0);
            return false;
        }
        i += 1;
    }
    true
}

/// Whether a dependency applies where `left` is what is left of its marker:
/// always, never, or where the condition that the rest stands for holds. An
/// empty conjunction always holds.
pub open spec fn residual_outcome(left: FormView) -> Result<ApplicabilityView, UnconvertibleView> {
    if left.always {
        Ok(ApplicabilityView::Always)
    } else if left.clauses.len() == 0 {
        Ok(ApplicabilityView::Never)
    } else if !is_proper(left.clauses) {
        Ok(ApplicabilityView::Always)
    } else {
        match clauses_condition(left.clauses) {
            Ok(condition) => Ok(ApplicabilityView::Conditionally(condition)),
            Err(error) => Err(error),
        }
    }
}

/// Decides whether a dependency applies from what is left of its marker.
pub fn convert_residual(left: &NormalForm) -> (r: Result<Applicability, Unconvertible>)
    ensures
        conversion(r) == residual_outcome(left.deep_view()),
{
    if left.always {
        return Ok(Applicability::Always);
    }
    if left.clauses.len() == 0 {
        return Ok(Applicability::Never);
    }
    if !all_clauses_filled(&left.clauses) {
        return Ok(Applicability::Always);
    }
    match convert_clauses(&left.clauses) {
        Ok(condition) => Ok(Applicability::Conditionally(condition)),
        Err(error) => Err(error),
    }
}

/// Whether a dependency with a marker applies on a platform.
pub open spec fn marker_outcome(marker: MarkerView, platform: Platform) -> Result<
    ApplicabilityView,
    UnconvertibleView,
> {
    if marker.form.always {
        Ok(ApplicabilityView::Always)
    } else if marker.form.clauses.len() == 0 {
        Ok(ApplicabilityView::Never)
    } else {
        residual_outcome(marker.on(platform))
    }
}

/// Decides whether a dependency with a marker applies where an assumption
/// holds: always, never, or under a condition on the Python version.
pub fn to_matchspec_condition(marker: &Marker, assumption: &Assumption) -> (r: Result<
    Applicability,
    Unconvertible,
>)
    ensures
        conversion(r) == marker_outcome(marker.deep_view(), assumption.platform),
{
    if marker.form.always {
        return Ok(Applicability::Always);
    }
    if marker.form.clauses.len() == 0 {
        return Ok(Applicability::Never);
    }
    convert_residual(marker.on(assumption.platform))
}

/// Whether a condition holds where each comparison does or does not.
pub open spec fn holds(c: ConditionView, v: spec_fn(ClauseView) -> bool) -> bool
    decreases c,
{
    match c {
        ConditionView::Python(clause) => v(clause),
        ConditionView::And(a, b) => holds(*a, v) && holds(*b, v),
        ConditionView::Or(a, b) => holds(*a, v) || holds(*b, v),
    }
}

/// Conditions joined by `and` hold together exactly where each holds.
pub proof fn and_chain_holds(leaves: Seq<ConditionView>, v: spec_fn(ClauseView) -> bool)
    requires
        leaves.len() > 0,
    ensures
        holds(and_chain(leaves), v) <==> forall|i: int|
            0 <= i < leaves.len() ==> holds(#[trigger] leaves[i], v),
    decreases leaves.len(),
{
    if leaves.len() > 1 {
        let front = leaves.drop_last();
        and_chain_holds(front, v);
        if holds(and_chain(leaves), v) {
            assert forall|i: int| 0 <= i < leaves.len() implies holds(#[trigger] leaves[i], v) by {
                if i < front.len() {
                    assert(holds(front[i], v));
                }
            }
        }
        if forall|i: int| 0 <= i < leaves.len() ==> holds(#[trigger] leaves[i], v) {
            assert forall|i: int| 0 <= i < front.len() implies holds(#[trigger] front[i], v) by {
                assert(holds(leaves[i], v));
            }
            assert(holds(leaves[leaves.len() - 1], v));
        }
    }
}

/// Conditions joined by `or` hold exactly where one holds.
pub proof fn or_chain_holds(arms: Seq<ConditionView>, v: spec_fn(ClauseView) -> bool)
    requires
        arms.len() > 0,
    ensures
        holds(or_chain(arms), v) <==> exists|i: int|
            0 <= i < arms.len() && holds(#[trigger] arms[i], v),
    decreases arms.len(),
{
    if arms.len() > 1 {
        let front = arms.drop_last();
        or_chain_holds(front, v);
        if holds(or_chain(front), v) {
            let i = choose|i: int| 0 <= i < front.len() && holds(#[trigger] front[i], v);
            assert(holds(arms[i], v));
        }
        if holds(arms.last(), v) {
            assert(holds(arms[arms.len() - 1], v));
        }
        if exists|i: int| 0 <= i < arms.len() && holds(#[trigger] arms[i], v) {
            let i = choose|i: int| 0 <= i < arms.len() && holds(#[trigger] arms[i], v);
            if i < front.len() {
                assert(holds(front[i], v));
            }
        }
    } else {
        assert(arms[0] == or_chain(arms));
        if holds(or_chain(arms), v) {
            assert(holds(arms[0], v));
        }
    }
}

/// Whether a conjunction of marker clauses holds.
pub open spec fn clause_holds(
    clause: Seq<LeafView>,
    v: spec_fn(ClauseView) -> bool,
) -> bool {
    forall|j: int|
        0 <= j < clause.len() ==> leaf_condition(#[trigger] clause[j]) is Ok && holds(
            leaf_condition(clause[j])->Ok_0,
            v,
        )
}

proof fn leaf_conditions_each(clause: Seq<LeafView>)
    requires
        leaf_conditions(clause) is Ok,
    ensures
        leaf_conditions(clause)->Ok_0.len() == clause.len(),
        forall|j: int|
            0 <= j < clause.len() ==> leaf_condition(#[trigger] clause[j]) == Ok::<
                ConditionView,
                UnconvertibleView,
            >(leaf_conditions(clause)->Ok_0[j]),
    decreases clause.len(),
{
    if clause.len() > 0 {
        let front = clause.drop_last();
        leaf_conditions_each(front);
        assert forall|j: int| 0 <= j < clause.len() implies leaf_condition(
            #[trigger] clause[j],
        ) == Ok::<ConditionView, UnconvertibleView>(leaf_conditions(clause)->Ok_0[j]) by {
            if j < front.len() {
                assert(front[j] == clause[j]);
            }
        }
    }
}

proof fn arm_conditions_each(clauses: Seq<Seq<LeafView>>)
    requires
        arm_conditions(clauses) is Ok,
    ensures
        arm_conditions(clauses)->Ok_0.len() == clauses.len(),
        forall|i: int|
            0 <= i < clauses.len() ==> leaf_conditions(#[trigger] clauses[i]) is Ok
                && arm_conditions(clauses)->Ok_0[i] == and_chain(
                leaf_conditions(clauses[i])->Ok_0,
            ),
    decreases clauses.len(),
{
    if clauses.len() > 0 {
        let front = clauses.drop_last();
        arm_conditions_each(front);
        assert forall|i: int| 0 <= i < clauses.len() implies leaf_conditions(
            #[trigger] clauses[i],
        ) is Ok && arm_conditions(clauses)->Ok_0[i] == and_chain(
            leaf_conditions(clauses[i])->Ok_0,
        ) by {
            if i < front.len() {
                assert(front[i] == clauses[i]);
            }
        }
    }
}

/// A converted marker means what the marker means: the condition holds
/// exactly where all clauses of one of its conjunctions do, whichever
/// comparisons hold.
pub proof fn conversion_keeps_meaning(
    clauses: Seq<Seq<LeafView>>,
    v: spec_fn(ClauseView) -> bool,
)
    requires
        is_proper(clauses),
        clauses_condition(clauses) is Ok,
    ensures
        holds(clauses_condition(clauses)->Ok_0, v) <==> exists|i: int|
            0 <= i < clauses.len() && clause_holds(#[trigger] clauses[i], v),
{
    arm_conditions_each(clauses);
    let arms = arm_conditions(clauses)->Ok_0;
    or_chain_holds(arms, v);
    assert forall|i: int| 0 <= i < clauses.len() implies (holds(arms[i], v) <==> clause_holds(
        #[trigger] clauses[i],
        v,
    )) by {
        let clause = clauses[i];
        leaf_conditions_each(clause);
        let leaves = leaf_conditions(clause)->Ok_0;
        and_chain_holds(leaves, v);
        if holds(arms[i], v) {
            assert forall|j: int| 0 <= j < clause.len() implies leaf_condition(
                #[trigger] clause[j],
            ) is Ok && holds(leaf_condition(clause[j])->Ok_0, v) by {
                assert(holds(leaves[j], v));
            }
        }
        if clause_holds(clause, v) {
            assert forall|j: int| 0 <= j < leaves.len() implies holds(#[trigger] leaves[j], v) by {
                assert(leaf_condition(clause[j]) is Ok);
            }
        }
    }
    if exists|i: int| 0 <= i < clauses.len() && clause_holds(#[trigger] clauses[i], v) {
        let i = choose|i: int| 0 <= i < clauses.len() && clause_holds(#[trigger] clauses[i], v);
        assert(holds(arms[i], v));
    }
    if exists|i: int| 0 <= i < arms.len() && holds(#[trigger] arms[i], v) {
        let i = choose|i: int| 0 <= i < arms.len() && holds(#[trigger] arms[i], v);
        assert(clause_holds(clauses[i], v));
    }
}

/// Whether conda takes every version of each of several conditions.
spec fn are_taken(conditions: Seq<ConditionView>) -> bool {
    forall|i: int| 0 <= i < conditions.len() ==> condition_error(#[trigger] conditions[i]) is None
}

proof fn and_chain_taken(leaves: Seq<ConditionView>)
    requires
        leaves.len() > 0,
        are_taken(leaves),
    ensures
        condition_error(and_chain(leaves)) is None,
    decreases leaves.len(),
{
    assert(condition_error(leaves[leaves.len() - 1]) is None);
    if leaves.len() > 1 {
        let rest = leaves.drop_last();
        assert forall|i: int| 0 <= i < rest.len() implies condition_error(#[trigger] rest[i])
            is None by {
            assert(rest[i] == leaves[i]);
        }
        and_chain_taken(rest);
    }
}

proof fn or_chain_taken(arms: Seq<ConditionView>)
    requires
        arms.len() > 0,
        are_taken(arms),
    ensures
        condition_error(or_chain(arms)) is None,
    decreases arms.len(),
{
    assert(condition_error(arms[arms.len() - 1]) is None);
    if arms.len() > 1 {
        let rest = arms.drop_last();
        assert forall|i: int| 0 <= i < rest.len() implies condition_error(#[trigger] rest[i])
            is None by {
            assert(rest[i] == arms[i]);
        }
        or_chain_taken(rest);
    }
}

proof fn specifier_taken(operator: Operator, v: VersionView)
    requires
        specifier_condition(operator, v) is Ok,
    ensures
        condition_error(specifier_condition(operator, v)->Ok_0) is None,
{
    reveal_with_fuel(condition_error, 2);
}

proof fn listed_taken(comparator: Comparator, versions: Seq<Seq<char>>)
    requires
        listed_conditions(comparator, versions) is Ok,
    ensures
        listed_conditions(comparator, versions)->Ok_0.len() == versions.len(),
        are_taken(listed_conditions(comparator, versions)->Ok_0),
    decreases versions.len(),
{
    if versions.len() > 0 {
        listed_taken(comparator, versions.drop_last());
    }
}

proof fn leaf_taken(leaf: LeafView)
    requires
        leaf_condition(leaf) is Ok,
    ensures
        condition_error(leaf_condition(leaf)->Ok_0) is None,
{
    match leaf {
        LeafView::Version(spelled) => {
            let specifier = specifier_outcome(spelled)->Ok_0;
            specifier_taken(specifier.operator, specifier.version);
        },
        LeafView::VersionIn(operator, versions) => {
            if operator == "in"@ {
                listed_taken(Comparator::Equals, versions);
                or_chain_taken(listed_conditions(Comparator::Equals, versions)->Ok_0);
            } else {
                listed_taken(Comparator::NotEquals, versions);
                and_chain_taken(listed_conditions(Comparator::NotEquals, versions)->Ok_0);
            }
        },
        _ => {},
    }
}

proof fn leaves_taken(clause: Seq<LeafView>)
    requires
        leaf_conditions(clause) is Ok,
    ensures
        leaf_conditions(clause)->Ok_0.len() == clause.len(),
        are_taken(leaf_conditions(clause)->Ok_0),
    decreases clause.len(),
{
    if clause.len() > 0 {
        leaves_taken(clause.drop_last());
        leaf_taken(clause.last());
    }
}

proof fn arms_taken(clauses: Seq<Seq<LeafView>>)
    requires
        arm_conditions(clauses) is Ok,
        forall|i: int| 0 <= i < clauses.len() ==> (#[trigger] clauses[i]).len() > 0,
    ensures
        arm_conditions(clauses)->Ok_0.len() == clauses.len(),
        are_taken(arm_conditions(clauses)->Ok_0),
    decreases clauses.len(),
{
    if clauses.len() > 0 {
        let rest = clauses.drop_last();
        assert forall|i: int| 0 <= i < rest.len() implies (#[trigger] rest[i]).len() > 0 by {
            assert(rest[i] == clauses[i]);
        }
        arms_taken(rest);
        assert(clauses[clauses.len() - 1].len() > 0);
        leaves_taken(clauses.last());
        and_chain_taken(leaf_conditions(clauses.last())->Ok_0);
    }
}

/// Conda takes every version of a converted condition.
pub proof fn converted_conditions_are_read(left: FormView)
    requires
        residual_outcome(left) is Ok,
        residual_outcome(left)->Ok_0 is Conditionally,
    ensures
        condition_error(residual_outcome(left)->Ok_0->Conditionally_0) is None,
{
    arms_taken(left.clauses);
    or_chain_taken(arm_conditions(left.clauses)->Ok_0);
}

/// Whether a version names a minor version of Python and nothing finer.
pub open spec fn is_minor(v: VersionView) -> bool {
    v.epoch == 0 && v.pre is None && v.post is None && v.dev is None && forall|i: int|
        2 <= i < v.release.len() ==> #[trigger] v.release[i] == 0
}

/// Whether a Python version is of a minor version before the given one.
pub open spec fn before_minor(p: Point, major: nat, minor: nat) -> bool {
    seg(p.release, 0) < major || (seg(p.release, 0) == major && seg(p.release, 1) < minor)
}

/// Whether a marker that compares with a version holds of a Python version.
/// Where it only tells minor versions apart, a pre-release of one counts as
/// one of it.
pub open spec fn python_asks(operator: Operator, v: VersionView, p: Point) -> bool {
    let q = version_point(v);
    let major = seg(q.release, 0);
    let minor = seg(q.release, 1);
    match operator {
        Operator::GreaterThanEqual => if is_minor(v) {
            !before_minor(p, major, minor)
        } else {
            !before(p, q)
        },
        Operator::LessThan => if is_minor(v) {
            before_minor(p, major, minor)
        } else {
            before(p, q)
        },
        Operator::LessThanEqual => !before(q, p),
        Operator::GreaterThan => before(q, p),
        Operator::Equal | Operator::ExactEqual => same_point(p, q),
        Operator::NotEqual => !same_point(p, q),
        Operator::EqualStar => starts_with(p, q),
        Operator::NotEqualStar => !starts_with(p, q),
        Operator::TildeEqual => false,
    }
}

proof fn anchor_reads(major: nat, minor: nat)
    ensures
        point_of(anchor_text(major, minor)) == (Point {
            epoch: 0,
            release: seq![major, minor, 0],
            stages: seq![("a"@, 0int)],
        }),
{
    reveal_strlit(".0a0");
    reveal_strlit(".");
    reveal_strlit("a");
    let a = decimal(major);
    let b = decimal(minor);
    let zero = decimal(0);
    digit_reads(0);
    assert(zero =~= seq!['0']) by {
        assert(zero == seq![crate::text::digit(0)]);
    }
    let r0 = unread();
    segment_reads(r0, major);
    let r1 = read_on(r0, a);
    read_on_append(r0, a, "."@);
    dot_reads(r1);
    let r2 = read_on(r0, a + "."@);
    read_on_append(r0, a + "."@, b);
    segment_reads(r2, minor);
    let r3 = read_on(r0, a + "."@ + b);
    read_on_append(r0, a + "."@ + b, ".0a0"@);
    assert(".0a0"@ =~= "."@ + (zero + ("a"@ + zero)));
    read_on_append(r3, "."@, zero + ("a"@ + zero));
    dot_reads(r3);
    let r4 = read_on(r3, "."@);
    read_on_append(r4, zero, "a"@ + zero);
    segment_reads(r4, 0);
    let r5 = read_on(r4, zero);
    stage_reads(r5, "a"@, 0);
    assert(anchor_text(major, minor) =~= a + "."@ + b + ".0a0"@);
    assert(r5.release =~= seq![major, minor, 0]);
    assert(r5.stages.push(("a"@, 0int)) =~= seq![("a"@, 0int)]);
}

proof fn before_anchor(p: Point, major: nat, minor: nat)
    requires
        is_published(p),
        p.epoch == 0,
    ensures
        before(p, point_of(anchor_text(major, minor))) <==> before_minor(p, major, minor),
{
    anchor_reads(major, minor);
    first_alpha_is_first(p);
    let c = point_of(anchor_text(major, minor));
    assert(seg(c.release, 0) == major);
    assert(seg(c.release, 1) == minor);
    assert forall|i: int| 2 <= i implies #[trigger] seg(c.release, i) == 0 by {}
    if before_minor(p, major, minor) {
        let k: int = if seg(p.release, 0) < major {
            0
        } else {
            1
        };
        assert(seg(p.release, k) < seg(c.release, k));
        assert forall|i: int| 0 <= i < k implies #[trigger] seg(p.release, i) == seg(
            c.release,
            i,
        ) by {}
        assert(release_lt(p.release, c.release));
    }
    if release_lt(p.release, c.release) {
        let k = choose|k: int|
            0 <= k && #[trigger] seg(p.release, k) < seg(c.release, k) && forall|i: int|
                0 <= i < k ==> #[trigger] seg(p.release, i) == seg(c.release, i);
        assert(k < 2);
        if k == 1 {
            assert(seg(p.release, 0) == seg(c.release, 0));
        }
    }
}

/// A final release is before a minor version exactly where it is of a minor
/// version before that.
proof fn final_before_minor(v: VersionView, p: Point)
    requires
        is_final(p),
        is_minor(v),
    ensures
        before(p, version_point(v)) <==> before_minor(
            p,
            seg(version_point(v).release, 0),
            seg(version_point(v).release, 1),
        ),
{
    let q = version_point(v);
    let major = seg(q.release, 0);
    let minor = seg(q.release, 1);
    assert(q.stages =~= Seq::empty());
    assert forall|i: int| 2 <= i implies #[trigger] seg(q.release, i) == 0 by {
        if i < v.release.len() {
            assert(v.release[i] == 0);
        }
    }
    if before_minor(p, major, minor) {
        let k: int = if seg(p.release, 0) < major {
            0
        } else {
            1
        };
        assert(seg(p.release, k) < seg(q.release, k));
        assert forall|i: int| 0 <= i < k implies #[trigger] seg(p.release, i) == seg(
            q.release,
            i,
        ) by {}
        assert(release_lt(p.release, q.release));
    }
    if release_lt(p.release, q.release) {
        let k = choose|k: int|
            0 <= k && #[trigger] seg(p.release, k) < seg(q.release, k) && forall|i: int|
                0 <= i < k ==> #[trigger] seg(p.release, i) == seg(q.release, i);
        assert(k < 2);
        if k == 1 {
            assert(seg(p.release, 0) == seg(q.release, 0));
        }
    }
}

proof fn minor_precision_is_minor(v: VersionView)
    ensures
        match minor_precision(v) {
            Some((major, minor)) => is_minor(v) && major == seg(version_point(v).release, 0)
                && minor == seg(version_point(v).release, 1),
            None => !is_minor(v),
        },
{
    let q = version_point(v);
    if v.release.len() > 0 {
        assert(q.release[0] == v.release[0] as nat);
    }
    if v.release.len() > 1 {
        assert(q.release[1] == v.release[1] as nat);
    }
    if exists|i: int| 2 <= i < v.release.len() && #[trigger] v.release[i] != 0 {
        let i = choose|i: int| 2 <= i < v.release.len() && #[trigger] v.release[i] != 0;
        assert(v.release[i] != 0);
    }
}

/// The condition that a comparison of a marker stands for takes exactly the
/// Python versions that the comparison holds of. A comparison with every
/// version of a minor version is one with two segments, as there is no other
/// in a normal form.
pub proof fn comparison_keeps_meaning(operator: Operator, v: VersionView, p: Point)
    requires
        is_regular(v),
        is_published(p),
        p.epoch == 0,
        operator is EqualStar ==> !is_minor(v) || v.release.len() == 2,
        specifier_condition(operator, v) is Ok,
    ensures
        condition_takes(specifier_condition(operator, v)->Ok_0, p) <==> python_asks(
            operator,
            v,
            p,
        ),
{
    let q = version_point(v);
    version_reads(v);
    assert(point_of(version_text(v)) == q);
    minor_precision_is_minor(v);
    let major = seg(q.release, 0);
    let minor = seg(q.release, 1);
    reveal_with_fuel(condition_takes, 2);
    match operator {
        Operator::GreaterThanEqual | Operator::LessThan => {
            if is_minor(v) {
                before_anchor(p, major, minor);
            }
        },
        Operator::EqualStar => {
            if is_minor(v) {
                before_anchor(p, major, minor);
                before_anchor(p, major, minor + 1);
                assert(q.stages =~= Seq::empty());
                assert(q.release.len() == 2);
                if starts_with(p, q) {
                    assert(seg(p.release, 0) == seg(q.release, 0));
                    assert(seg(p.release, 1) == seg(q.release, 1));
                }
                if seg(p.release, 0) == major && seg(p.release, 1) == minor {
                    assert forall|i: int| 0 <= i < q.release.len() implies #[trigger] seg(
                        p.release,
                        i,
                    ) == seg(q.release, i) by {}
                }
            }
        },
        _ => {},
    }
}

/// With `<=`, `>=` and `==` the condition takes the version itself, and with
/// `<`, `>` and `!=` it does not.
pub proof fn comparison_decides_on_the_version_itself(operator: Operator, v: VersionView)
    requires
        is_regular(v),
        v.epoch == 0 && v.pre is None && v.post is None && v.dev is None,
        specifier_condition(operator, v) is Ok,
    ensures
        operator is LessThanEqual || operator is GreaterThanEqual || operator is Equal
            ==> condition_takes(specifier_condition(operator, v)->Ok_0, version_point(v)),
        operator is LessThan || operator is GreaterThan || operator is NotEqual
            ==> !condition_takes(specifier_condition(operator, v)->Ok_0, version_point(v)),
{
    let q = version_point(v);
    version_reads(v);
    minor_precision_is_minor(v);
    assert(q.stages =~= Seq::empty());
    assert(crate::meaning::stages_eq(q.stages, q.stages));
    assert(!crate::meaning::stages_lt(q.stages, q.stages));
    assert(release_eq(q.release, q.release));
    assert(!release_lt(q.release, q.release));
    if is_minor(v) {
        before_anchor(q, seg(q.release, 0), seg(q.release, 1));
    }
    reveal_with_fuel(condition_takes, 2);
}

/// Of final releases, a comparison of a marker holds where the releases
/// compare so segment by segment, and so does the condition it stands for:
/// with `<=` and `>=` also of the version itself, with `<` and `>` not.
pub proof fn comparison_keeps_meaning_of_final_releases(
    operator: Operator,
    v: VersionView,
    p: Point,
)
    requires
        is_regular(v),
        is_final(p),
        operator is EqualStar ==> !is_minor(v) || v.release.len() == 2,
        specifier_condition(operator, v) is Ok,
    ensures
        condition_takes(specifier_condition(operator, v)->Ok_0, p) <==> asks_for(operator, v, p),
        v.epoch == 0 && v.pre is None && v.post is None && v.dev is None ==> {
            let c = specifier_condition(operator, v)->Ok_0;
            let r = segments(v.release);
            match operator {
                Operator::GreaterThanEqual => condition_takes(c, p) <==> !release_lt(p.release, r),
                Operator::LessThanEqual => condition_takes(c, p) <==> !release_lt(r, p.release),
                Operator::GreaterThan => condition_takes(c, p) <==> release_lt(r, p.release),
                Operator::LessThan => condition_takes(c, p) <==> release_lt(p.release, r),
                Operator::Equal => condition_takes(c, p) <==> release_eq(p.release, r),
                Operator::NotEqual => condition_takes(c, p) <==> !release_eq(p.release, r),
                Operator::EqualStar => condition_takes(c, p) <==> forall|i: int|
                    0 <= i < r.len() ==> #[trigger] seg(p.release, i) == r[i],
                Operator::NotEqualStar => condition_takes(c, p) <==> !(forall|i: int|
                    0 <= i < r.len() ==> #[trigger] seg(p.release, i) == r[i]),
                _ => true,
            }
        },
{
    comparison_keeps_meaning(operator, v, p);
    let q = version_point(v);
    if is_minor(v) {
        final_before_minor(v, p);
    }
    if v.epoch == 0 && v.pre is None && v.post is None && v.dev is None {
        assert(q.stages =~= Seq::empty());
        assert(crate::meaning::stages_eq(p.stages, q.stages));
        assert(!crate::meaning::stages_lt(p.stages, q.stages));
        assert(!crate::meaning::stages_lt(q.stages, p.stages));
        assert forall|i: int| 0 <= i < q.release.len() implies #[trigger] seg(q.release, i)
            == q.release[i] by {}
        if starts_with(p, q) {
            assert forall|i: int| 0 <= i < q.release.len() implies #[trigger] seg(p.release, i)
                == q.release[i] by {}
        }
        if forall|i: int| 0 <= i < q.release.len() ==> #[trigger] seg(p.release, i) == q.release[i] {
            assert forall|i: int| 0 <= i < q.release.len() implies #[trigger] seg(p.release, i)
                == seg(q.release, i) by {}
        }
    }
}

/// A comparison of a marker has a condition unless its operator is `~=` or
/// `===`, or conda does not take a version.
pub proof fn comparison_is_converted(operator: Operator, v: VersionView)
    ensures
        operator is TildeEqual || operator is ExactEqual <==> specifier_condition(operator, v) is Err
            && specifier_condition(operator, v)->Err_0 is UnsupportedOperator,
        !(operator is TildeEqual) && !(operator is ExactEqual) && (forall|text: Seq<char>| #[trigger]
            conda_version(text) is Ok) ==> specifier_condition(operator, v) is Ok,
{
}

/// Whether a list names a Python version.
pub open spec fn lists(versions: Seq<Seq<char>>, p: Point) -> bool {
    exists|i: int|
        0 <= i < versions.len() && #[trigger] pep440_version(versions[i]) is Ok && same_point(
            p,
            version_point(pep440_version(versions[i])->Ok_0),
        )
}

/// Whether the condition of one version of a list takes a Python version
/// exactly where that is the version, or is not.
spec fn listed_means(comparator: Comparator, versions: Seq<Seq<char>>, i: int, p: Point) -> bool {
    pep440_version(versions[i]) is Ok && condition_takes(
        listed_conditions(comparator, versions)->Ok_0[i],
        p,
    ) == ((comparator is Equals) == same_point(
        p,
        version_point(pep440_version(versions[i])->Ok_0),
    ))
}

proof fn listed_meaning(comparator: Comparator, versions: Seq<Seq<char>>, p: Point)
    requires
        comparator is Equals || comparator is NotEquals,
        forall|i: int|
            0 <= i < versions.len() && #[trigger] pep440_version(versions[i]) is Ok ==> is_regular(
                pep440_version(versions[i])->Ok_0,
            ),
        listed_conditions(comparator, versions) is Ok,
    ensures
        listed_conditions(comparator, versions)->Ok_0.len() == versions.len(),
        forall|i: int|
            0 <= i < versions.len() ==> #[trigger] listed_means(comparator, versions, i, p),
    decreases versions.len(),
{
    if versions.len() > 0 {
        let front = versions.drop_last();
        assert forall|i: int|
            0 <= i < front.len() && #[trigger] pep440_version(front[i]) is Ok implies is_regular(
            pep440_version(front[i])->Ok_0,
        ) by {
            assert(front[i] == versions[i]);
            assert(pep440_version(versions[i]) is Ok);
        }
        listed_meaning(comparator, front, p);
        let all = listed_conditions(comparator, versions)->Ok_0;
        let before_last = listed_conditions(comparator, front)->Ok_0;
        assert(versions[versions.len() - 1] == versions.last());
        version_reads(pep440_version(versions.last())->Ok_0);
        assert forall|i: int| 0 <= i < versions.len() implies #[trigger] listed_means(
            comparator,
            versions,
            i,
            p,
        ) by {
            if i < front.len() {
                assert(listed_means(comparator, front, i, p));
                assert(all[i] == before_last[i]);
                assert(front[i] == versions[i]);
            } else {
                assert(all[i] == all.last());
                reveal_with_fuel(condition_takes, 2);
            }
        }
    }
}

proof fn and_chain_takes(leaves: Seq<ConditionView>, p: Point)
    requires
        leaves.len() > 0,
    ensures
        condition_takes(and_chain(leaves), p) <==> forall|i: int|
            0 <= i < leaves.len() ==> condition_takes(#[trigger] leaves[i], p),
    decreases leaves.len(),
{
    if leaves.len() > 1 {
        let front = leaves.drop_last();
        and_chain_takes(front, p);
        if condition_takes(and_chain(leaves), p) {
            assert forall|i: int| 0 <= i < leaves.len() implies condition_takes(
                #[trigger] leaves[i],
                p,
            ) by {
                if i < front.len() {
                    assert(condition_takes(front[i], p));
                }
            }
        }
        if forall|i: int| 0 <= i < leaves.len() ==> condition_takes(#[trigger] leaves[i], p) {
            assert forall|i: int| 0 <= i < front.len() implies condition_takes(
                #[trigger] front[i],
                p,
            ) by {
                assert(condition_takes(leaves[i], p));
            }
            assert(condition_takes(leaves[leaves.len() - 1], p));
        }
    }
}

proof fn or_chain_takes(arms: Seq<ConditionView>, p: Point)
    requires
        arms.len() > 0,
    ensures
        condition_takes(or_chain(arms), p) <==> exists|i: int|
            0 <= i < arms.len() && condition_takes(#[trigger] arms[i], p),
    decreases arms.len(),
{
    if arms.len() > 1 {
        let front = arms.drop_last();
        or_chain_takes(front, p);
        if condition_takes(or_chain(front), p) {
            let i = choose|i: int| 0 <= i < front.len() && condition_takes(#[trigger] front[i], p);
            assert(condition_takes(arms[i], p));
        }
        if condition_takes(arms.last(), p) {
            assert(condition_takes(arms[arms.len() - 1], p));
        }
        if exists|i: int| 0 <= i < arms.len() && condition_takes(#[trigger] arms[i], p) {
            let i = choose|i: int| 0 <= i < arms.len() && condition_takes(#[trigger] arms[i], p);
            if i < front.len() {
                assert(condition_takes(front[i], p));
            }
        }
    } else {
        assert(arms[0] == or_chain(arms));
        if condition_takes(or_chain(arms), p) {
            assert(condition_takes(arms[0], p));
        }
    }
}

/// The condition that membership in a list of versions stands for takes
/// exactly the Python versions that the list names, or names not.
pub proof fn membership_keeps_meaning(operator: Seq<char>, versions: Seq<Seq<char>>, p: Point)
    requires
        forall|i: int|
            0 <= i < versions.len() && #[trigger] pep440_version(versions[i]) is Ok ==> is_regular(
                pep440_version(versions[i])->Ok_0,
            ),
        membership_condition(operator, versions) is Ok,
    ensures
        operator == "in"@ || operator == "not in"@,
        operator == "in"@ ==> (condition_takes(membership_condition(operator, versions)->Ok_0, p)
            <==> lists(versions, p)),
        operator == "not in"@ ==> (condition_takes(
            membership_condition(operator, versions)->Ok_0,
            p,
        ) <==> !lists(versions, p)),
{
    reveal_strlit("in");
    reveal_strlit("not in");
    assert("in"@.len() != "not in"@.len());
    if operator == "in"@ {
        listed_meaning(Comparator::Equals, versions, p);
        let leaves = listed_conditions(Comparator::Equals, versions)->Ok_0;
        or_chain_takes(leaves, p);
        if condition_takes(or_chain(leaves), p) {
            let i = choose|i: int| 0 <= i < leaves.len() && condition_takes(#[trigger] leaves[i], p);
            assert(listed_means(Comparator::Equals, versions, i, p));
            assert(pep440_version(versions[i]) is Ok);
        }
        if lists(versions, p) {
            let i = choose|i: int|
                0 <= i < versions.len() && #[trigger] pep440_version(versions[i]) is Ok
                    && same_point(p, version_point(pep440_version(versions[i])->Ok_0));
            assert(listed_means(Comparator::Equals, versions, i, p));
            assert(condition_takes(leaves[i], p));
        }
    } else {
        listed_meaning(Comparator::NotEquals, versions, p);
        let leaves = listed_conditions(Comparator::NotEquals, versions)->Ok_0;
        and_chain_takes(leaves, p);
        if condition_takes(and_chain(leaves), p) && lists(versions, p) {
            let i = choose|i: int|
                0 <= i < versions.len() && #[trigger] pep440_version(versions[i]) is Ok
                    && same_point(p, version_point(pep440_version(versions[i])->Ok_0));
            assert(listed_means(Comparator::NotEquals, versions, i, p));
            assert(condition_takes(leaves[i], p));
        }
        if !lists(versions, p) {
            assert forall|i: int| 0 <= i < leaves.len() implies condition_takes(
                #[trigger] leaves[i],
                p,
            ) by {
                assert(listed_means(Comparator::NotEquals, versions, i, p));
                assert(pep440_version(versions[i]) is Ok);
            }
        }
    }
}

/// Whether a clause of a marker holds of a Python version.
pub open spec fn leaf_means(leaf: LeafView, p: Point) -> bool {
    match leaf {
        LeafView::Version(spelled) => specifier_outcome(spelled) is Ok && python_asks(
            specifier_outcome(spelled)->Ok_0.operator,
            specifier_outcome(spelled)->Ok_0.version,
            p,
        ),
        LeafView::VersionIn(operator, versions) => (operator == "in"@) == lists(versions, p),
        _ => false,
    }
}

/// Whether all clauses of a conjunction hold of a Python version.
pub open spec fn conjunction_means(clause: Seq<LeafView>, p: Point) -> bool {
    forall|j: int| 0 <= j < clause.len() ==> leaf_means(#[trigger] clause[j], p)
}

/// Whether a clause of a marker is as a normal form has it.
pub open spec fn is_normal_leaf(leaf: LeafView) -> bool {
    match leaf {
        LeafView::Version(spelled) => specifier_outcome(spelled) is Ok ==> {
            let s = specifier_outcome(spelled)->Ok_0;
            is_regular(s.version) && (s.operator is EqualStar ==> !is_minor(s.version)
                || s.version.release.len() == 2)
        },
        LeafView::VersionIn(operator, versions) => forall|i: int|
            0 <= i < versions.len() && #[trigger] pep440_version(versions[i]) is Ok ==> is_regular(
                pep440_version(versions[i])->Ok_0,
            ),
        _ => true,
    }
}

proof fn leaf_keeps_meaning(leaf: LeafView, p: Point)
    requires
        is_normal_leaf(leaf),
        is_published(p),
        p.epoch == 0,
        leaf_condition(leaf) is Ok,
    ensures
        condition_takes(leaf_condition(leaf)->Ok_0, p) <==> leaf_means(leaf, p),
{
    match leaf {
        LeafView::Version(spelled) => {
            let s = specifier_outcome(spelled)->Ok_0;
            comparison_keeps_meaning(s.operator, s.version, p);
        },
        LeafView::VersionIn(operator, versions) => {
            reveal_strlit("in");
            reveal_strlit("not in");
            assert("in"@.len() != "not in"@.len());
            membership_keeps_meaning(operator, versions, p);
        },
        _ => {},
    }
}

/// Where a dependency applies under a condition, it takes exactly the Python
/// versions of which all clauses of one of the conjunctions that are left of
/// its marker hold. It applies always where what is left always holds or
/// has an empty conjunction, and never where nothing is left; a clause that
/// speaks of something else than the Python version has no condition.
pub proof fn applicability_keeps_meaning(left: FormView, p: Point)
    requires
        is_published(p),
        p.epoch == 0,
        forall|i: int, j: int|
            #![trigger left.clauses[i][j]]
            0 <= i < left.clauses.len() && 0 <= j < left.clauses[i].len() ==> is_normal_leaf(
                left.clauses[i][j],
            ),
        residual_outcome(left) is Ok,
    ensures
        match residual_outcome(left)->Ok_0 {
            ApplicabilityView::Always => left.always || exists|i: int|
                0 <= i < left.clauses.len() && (#[trigger] left.clauses[i]).len() == 0,
            ApplicabilityView::Never => !left.always && left.clauses.len() == 0,
            ApplicabilityView::Conditionally(c) => !left.always && (condition_takes(c, p)
                <==> exists|i: int|
                0 <= i < left.clauses.len() && conjunction_means(#[trigger] left.clauses[i], p)),
        },
{
    if let ApplicabilityView::Conditionally(c) = residual_outcome(left)->Ok_0 {
        let clauses = left.clauses;
        arm_conditions_each(clauses);
        let arms = arm_conditions(clauses)->Ok_0;
        or_chain_takes(arms, p);
        assert forall|i: int| 0 <= i < clauses.len() implies (condition_takes(#[trigger] arms[i], p)
            <==> conjunction_means(clauses[i], p)) by {
            let clause = clauses[i];
            assert(leaf_conditions(clauses[i]) is Ok);
            leaf_conditions_each(clause);
            let leaves = leaf_conditions(clause)->Ok_0;
            and_chain_takes(leaves, p);
            assert forall|j: int| 0 <= j < clause.len() implies (condition_takes(
                #[trigger] leaves[j],
                p,
            ) <==> leaf_means(clause[j], p)) by {
                assert(leaf_condition(clause[j]) is Ok);
                assert(is_normal_leaf(left.clauses[i][j]));
                leaf_keeps_meaning(clause[j], p);
            }
            if condition_takes(arms[i], p) {
                assert forall|j: int| 0 <= j < clause.len() implies leaf_means(
                    #[trigger] clause[j],
                    p,
                ) by {
                    assert(condition_takes(leaves[j], p));
                }
            }
            if conjunction_means(clause, p) {
                assert forall|j: int| 0 <= j < leaves.len() implies condition_takes(
                    #[trigger] leaves[j],
                    p,
                ) by {
                    assert(leaf_means(clause[j], p));
                }
            }
        }
        if condition_takes(c, p) {
            let i = choose|i: int| 0 <= i < arms.len() && condition_takes(#[trigger] arms[i], p);
            assert(conjunction_means(left.clauses[i], p));
        }
        if exists|i: int|
            0 <= i < left.clauses.len() && conjunction_means(#[trigger] left.clauses[i], p) {
            let i = choose|i: int|
                0 <= i < left.clauses.len() && conjunction_means(#[trigger] left.clauses[i], p);
            assert(condition_takes(arms[i], p));
        }
    }
}

/// What is left of a marker has a condition only where every clause in it
/// compares a version, and an error names the first that does not.
pub proof fn other_clauses_have_no_condition(left: FormView, i: int, j: int)
    requires
        !left.always,
        forall|k: int| 0 <= k < left.clauses.len() ==> (#[trigger] left.clauses[k]).len() > 0,
        0 <= i < left.clauses.len(),
        0 <= j < left.clauses[i].len(),
        left.clauses[i][j] is Other || left.clauses[i][j] is Extra,
    ensures
        residual_outcome(left) is Err,
{
    if clauses_condition(left.clauses) is Ok {
        arm_conditions_each(left.clauses);
        assert(leaf_conditions(left.clauses[i]) is Ok);
        leaf_conditions_each(left.clauses[i]);
        assert(leaf_condition(left.clauses[i][j]) is Ok);
    }
}

/// A marker that always holds applies on every platform, one that never
/// holds on none; otherwise what is left of it on the platform decides.
pub proof fn platform_decides(marker: MarkerView, platform: Platform)
    ensures
        marker.form.always ==> marker_outcome(marker, platform) == Ok::<
            ApplicabilityView,
            UnconvertibleView,
        >(ApplicabilityView::Always),
        !marker.form.always && marker.form.clauses.len() == 0 ==> marker_outcome(marker, platform)
            == Ok::<ApplicabilityView, UnconvertibleView>(ApplicabilityView::Never),
        !marker.form.always && marker.form.clauses.len() > 0 ==> marker_outcome(marker, platform)
            == residual_outcome(
            match platform {
                Platform::Linux64 => marker.linux_64,
                Platform::LinuxAarch64 => marker.linux_aarch64,
                Platform::Osx64 => marker.osx_64,
                Platform::OsxArm64 => marker.osx_arm64,
                Platform::Win64 => marker.win_64,
                Platform::WinArm64 => marker.win_arm64,
                _ => marker.form,
            },
        ),
{
}

/// Each marker without an equivalent is refused with what stands in the way,
/// quoted.
pub proof fn refusals_say_why(key: Seq<char>, operator: Seq<char>, source: Seq<char>)
    ensures
        unconvertible_text(UnconvertibleView::NoMatchspecEquivalent(key)) == "marker key "@
            + quoted_text(key) + " has no matchspec equivalent"@,
        unconvertible_text(UnconvertibleView::ExtraMarker)
            == "\"extra\" marker reached marker-condition conversion; strip it before calling"@,
        unconvertible_text(UnconvertibleView::UnsupportedOperator(key, operator)) == "comparator "@
            + quoted_text(operator) + " is not supported for marker key "@ + quoted_text(key),
        unconvertible_text(UnconvertibleView::InvalidVersionLiteral(key, source)) == quoted_text(
            key,
        ) + " did not parse as a conda version literal: "@ + source,
{
}

/// A comparison of a marker is refused for its operator where that is `~=`
/// or `===`, and otherwise for a version that conda does not take, with the
/// reason.
pub proof fn comparison_is_refused_where(operator: Operator, v: VersionView)
    ensures
        operator is TildeEqual ==> specifier_condition(operator, v) == Err::<
            ConditionView,
            UnconvertibleView,
        >(UnconvertibleView::UnsupportedOperator("python_full_version"@, "TildeEqual"@)),
        operator is ExactEqual ==> specifier_condition(operator, v) == Err::<
            ConditionView,
            UnconvertibleView,
        >(UnconvertibleView::UnsupportedOperator("python_full_version"@, "ExactEqual"@)),
        !(operator is TildeEqual) && !(operator is ExactEqual) && specifier_condition(operator, v)
            is Err ==> (specifier_condition(operator, v)->Err_0 matches
            UnconvertibleView::InvalidVersionLiteral(text, message) && conda_version(text) == Err::<
            Seq<char>,
            Seq<char>,
        >(message)),
{
}

proof fn listed_are_converted(comparator: Comparator, versions: Seq<Seq<char>>)
    requires
        forall|i: int| 0 <= i < versions.len() ==> pep440_version(#[trigger] versions[i]) is Ok,
        forall|text: Seq<char>| #[trigger] conda_version(text) is Ok,
    ensures
        listed_conditions(comparator, versions) is Ok,
    decreases versions.len(),
{
    if versions.len() > 0 {
        let front = versions.drop_last();
        assert forall|i: int| 0 <= i < front.len() implies pep440_version(
            #[trigger] front[i],
        ) is Ok by {
            assert(front[i] == versions[i]);
        }
        listed_are_converted(comparator, front);
        assert(pep440_version(versions[versions.len() - 1]) is Ok);
    }
}

/// Membership in a list is refused for its operator where the list is empty
/// or the operator is neither `in` nor `not in`; a list of versions that
/// conda takes has a condition.
pub proof fn membership_is_converted_where(operator: Seq<char>, versions: Seq<Seq<char>>)
    ensures
        (operator != "in"@ && operator != "not in"@) || versions.len() == 0 ==> membership_condition(
            operator,
            versions,
        ) == Err::<ConditionView, UnconvertibleView>(
            UnconvertibleView::UnsupportedOperator("python_full_version"@, operator),
        ),
        (operator == "in"@ || operator == "not in"@) && versions.len() > 0 && (forall|i: int|
            0 <= i < versions.len() ==> pep440_version(#[trigger] versions[i]) is Ok) && (forall|
            text: Seq<char>,
        | #[trigger]
            conda_version(text) is Ok) ==> membership_condition(operator, versions) is Ok,
{
    if (forall|i: int|
        0 <= i < versions.len() ==> pep440_version(#[trigger] versions[i]) is Ok) && (forall|
        text: Seq<char>,
    | #[trigger]
        conda_version(text) is Ok) {
        listed_are_converted(Comparator::Equals, versions);
        listed_are_converted(Comparator::NotEquals, versions);
    }
}

} // verus!
