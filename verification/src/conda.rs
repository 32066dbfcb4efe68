//! Conda version constraints, conditions and match specs, as plain values.

use crate::data::Duplicate;
use crate::pep440::{outcome, read_views};
use crate::text::{contains, from_first, is_space};
use rattler_conda_types::{
    EqualityOperator, LogicalOperator, MatchSpec as CondaSpec, MatchSpecCondition, PackageName,
    ParseMatchSpecOptions, RangeOperator, StrictRangeOperator, StrictVersion,
    Version as CondaVersion, VersionSpec as Constraint,
};
use std::str::FromStr;
use vstd::prelude::*;
use vstd::string::*;

verus! {

/// How a version is compared with another.
#[derive(Debug, Clone, Copy, PartialEq, Eq, Structural)]
pub enum Comparator {
    Greater,
    GreaterEquals,
    Less,
    LessEquals,
    Equals,
    NotEquals,
    StartsWith,
    NotStartsWith,
}

/// One comparison with a conda version, given by its spelling.
#[derive(Debug, Clone, PartialEq, Eq)]
pub struct Clause {
    pub comparator: Comparator,
    pub version: String,
}

/// A comparison as mathematical values.
pub struct ClauseView {
    pub comparator: Comparator,
    pub version: Seq<char>,
}

impl DeepView for Clause {
    type V = ClauseView;

    open spec fn deep_view(&self) -> ClauseView {
        ClauseView { comparator: self.comparator, version: self.version@ }
    }
}

impl Duplicate for Clause {
    fn duplicate(&self) -> (r: Self) {
        Clause { comparator: self.comparator, version: self.version.clone() }
    }
}

/// A version constraint: one comparison, or several that must all hold.
#[derive(Debug, Clone, PartialEq, Eq)]
pub enum VersionSpec {
    One(Clause),
    All(Vec<Clause>),
}

/// A version constraint as mathematical values.
pub enum VersionSpecView {
    One(ClauseView),
    All(Seq<ClauseView>),
}

impl DeepView for VersionSpec {
    type V = VersionSpecView;

    open spec fn deep_view(&self) -> VersionSpecView {
        match self {
            VersionSpec::One(clause) => VersionSpecView::One(clause.deep_view()),
            VersionSpec::All(clauses) => VersionSpecView::All(clauses.deep_view()),
        }
    }
}

impl Duplicate for VersionSpec {
    fn duplicate(&self) -> (r: Self) {
        match self {
            VersionSpec::One(clause) => VersionSpec::One(clause.duplicate()),
            VersionSpec::All(clauses) => VersionSpec::All(clauses.duplicate()),
        }
    }
}

/// A condition on the version of the `python` package.
#[derive(Debug, PartialEq, Eq)]
pub enum Condition {
    Python(Clause),
    And(Box<Condition>, Box<Condition>),
    Or(Box<Condition>, Box<Condition>),
}

/// A condition as mathematical values.
pub enum ConditionView {
    Python(ClauseView),
    And(Box<ConditionView>, Box<ConditionView>),
    Or(Box<ConditionView>, Box<ConditionView>),
}

/// The view of a condition.
pub open spec fn condition_view(c: Condition) -> ConditionView
    decreases c,
{
    match c {
        Condition::Python(clause) => ConditionView::Python(clause.deep_view()),
        Condition::And(a, b) => ConditionView::And(
            Box::new(condition_view(*a)),
            Box::new(condition_view(*b)),
        ),
        Condition::Or(a, b) => ConditionView::Or(
            Box::new(condition_view(*a)),
            Box::new(condition_view(*b)),
        ),
    }
}

impl DeepView for Condition {
    type V = ConditionView;

    open spec fn deep_view(&self) -> ConditionView {
        condition_view(*self)
    }
}

fn duplicate_condition(c: &Condition) -> (r: Condition)
    ensures
        r.deep_view() == c.deep_view(),
    decreases c,
{
    match c {
        Condition::Python(clause) => Condition::Python(clause.duplicate()),
        Condition::And(a, b) => Condition::And(
            Box::new(duplicate_condition(a)),
            Box::new(duplicate_condition(b)),
        ),
        Condition::Or(a, b) => Condition::Or(
            Box::new(duplicate_condition(a)),
            Box::new(duplicate_condition(b)),
        ),
    }
}

impl Clone for Condition {
    fn clone(&self) -> (r: Self)
        ensures
            r.deep_view() == self.deep_view(),
    {
        duplicate_condition(self)
    }
}

impl Duplicate for Condition {
    fn duplicate(&self) -> (r: Self) {
        duplicate_condition(self)
    }
}

/// One step of a condition in postfix order: a comparison of the version of
/// the package with the given name, or an operator on the two results before
/// it.
pub enum StepView {
    Version(Seq<char>, ClauseView),
    And,
    Or,
}

/// A comparison with its version as conda spells it.
pub open spec fn respelled(c: ClauseView) -> ClauseView {
    ClauseView { version: conda_version(c.version)->Ok_0, ..c }
}

/// A version constraint with its versions as conda spells them.
pub open spec fn respelled_spec(v: VersionSpecView) -> VersionSpecView {
    match v {
        VersionSpecView::One(clause) => VersionSpecView::One(respelled(clause)),
        VersionSpecView::All(clauses) => VersionSpecView::All(
            clauses.map_values(|c: ClauseView| respelled(c)),
        ),
    }
}

/// A condition in postfix order, with its versions as conda spells them.
pub open spec fn postfix(c: ConditionView) -> Seq<StepView>
    decreases c,
{
    match c {
        ConditionView::Python(clause) => seq![StepView::Version("python"@, respelled(clause))],
        ConditionView::And(a, b) => (postfix(*a) + postfix(*b)).push(StepView::And),
        ConditionView::Or(a, b) => (postfix(*a) + postfix(*b)).push(StepView::Or),
    }
}

/// A match spec that a dependency specifier stands for: a package name, and
/// the versions, extras and condition it asks for.
#[derive(Debug, Clone, PartialEq, Eq)]
pub struct MatchSpec {
    pub name: String,
    pub version: Option<VersionSpec>,
    pub extras: Option<Vec<String>>,
    pub condition: Option<Condition>,
}

/// A match spec as mathematical values.
pub struct MatchSpecView {
    pub name: Seq<char>,
    pub version: Option<VersionSpecView>,
    pub extras: Option<Seq<Seq<char>>>,
    pub condition: Option<ConditionView>,
}

impl DeepView for MatchSpec {
    type V = MatchSpecView;

    open spec fn deep_view(&self) -> MatchSpecView {
        MatchSpecView {
            name: self.name@,
            version: self.version.deep_view(),
            extras: self.extras.deep_view(),
            condition: self.condition.deep_view(),
        }
    }
}

impl Duplicate for MatchSpec {
    fn duplicate(&self) -> (r: Self) {
        MatchSpec {
            name: self.name.clone(),
            version: self.version.duplicate(),
            extras: self.extras.duplicate(),
            condition: self.condition.duplicate(),
        }
    }
}

/// A match spec that was declared as such: the text as it was written, its
/// canonical spelling, its normalized package name unless the name is a
/// pattern, and the URL of the channel that it asks for, if it does.
#[derive(Debug, Clone, PartialEq, Eq)]
pub struct DeclaredSpec {
    pub text: String,
    pub canonical: String,
    pub name: Option<String>,
    pub channel: Option<String>,
}

/// A declared match spec as mathematical values.
pub struct DeclaredSpecView {
    pub text: Seq<char>,
    pub canonical: Seq<char>,
    pub name: Option<Seq<char>>,
    pub channel: Option<Seq<char>>,
}

impl DeepView for DeclaredSpec {
    type V = DeclaredSpecView;

    open spec fn deep_view(&self) -> DeclaredSpecView {
        DeclaredSpecView {
            text: self.text@,
            canonical: self.canonical@,
            name: self.name.deep_view(),
            channel: self.channel.deep_view(),
        }
    }
}

impl Duplicate for DeclaredSpec {
    fn duplicate(&self) -> (r: Self) {
        DeclaredSpec {
            text: self.text.clone(),
            canonical: self.canonical.clone(),
            name: self.name.duplicate(),
            channel: self.channel.duplicate(),
        }
    }
}

/// How conda spells the version that a text spells, or why it spells none.
pub uninterp spec fn conda_version(text: Seq<char>) -> Result<Seq<char>, Seq<char>>;

/// The comparisons that a conda version constraint holds, with their
/// versions as conda spells them.
pub uninterp spec fn constraint_clauses(constraint: Constraint) -> Seq<ClauseView>;

/// Whether a conda version constraint is a group of comparisons that must all
/// hold, rather than one comparison.
pub uninterp spec fn is_group(constraint: Constraint) -> bool;

/// The comparisons and operators that a conda condition holds, in postfix
/// order.
pub uninterp spec fn condition_steps(condition: MatchSpecCondition) -> Seq<StepView>;

/// The canonical spelling of the match spec with the given name, version
/// constraint, extras and condition.
pub uninterp spec fn conda_matchspec_text(
    name: Seq<char>,
    version: Option<VersionSpecView>,
    extras: Option<Seq<Seq<char>>>,
    when: Seq<StepView>,
) -> Seq<char>;

/// What the grammar of match specs makes of a text whose channel is no path:
/// the match spec, or why it is none.
pub uninterp spec fn conda_matchspec(text: Seq<char>) -> Result<
    DeclaredSpecView,
    Seq<char>,
>;

/// Whether a text cannot name a path, so that what it means does not depend
/// on the current directory.
pub open spec fn names_no_path(text: Seq<char>) -> bool {
    !text.contains('/') && !text.contains('\\') && !contains(text, ".."@)
}

/// Whether a text starts as a path does: with a dot, a tilde, a slash, a
/// backslash or a drive, or with white space, behind which one may start.
pub open spec fn starts_as_path(text: Seq<char>) -> bool {
    text.len() > 0 && (text[0] == '.' || text[0] == '~' || text[0] == '/' || text[0] == '\\'
        || is_space(text[0]) || (text.len() > 1 && text[1] == ':'))
}

/// Whether what a match spec means does not depend on the current directory:
/// it names no path, or its channel, which it starts with, is none, and its
/// bracket section, if it has one, names no other channel, be it by its key
/// or in front of the match spec of a condition.
pub open spec fn is_fixed_spec(text: Seq<char>) -> bool {
    let section = from_first(text, '[');
    names_no_path(text) || (!starts_as_path(text) && !contains(section, "channel"@)
        && !section.contains(':'))
}

/// `rattler_conda_types::Version::from_str`: whether a text is a conda
/// version, or the rendered error.
#[verifier::external_body]
pub(crate) fn check_conda_version(text: &str) -> (r: Result<(), String>)
    ensures
        match r {
            Ok(_) => conda_version(text@) is Ok,
            Err(message) => conda_version(text@) == Err::<Seq<char>, Seq<char>>(message@),
        },
{
    CondaVersion::from_str(text).map(|_| ()).map_err(|e| e.to_string())
}

/// `rattler_conda_types::VersionSpec`: a version constraint.
#[verifier::external_type_specification]
#[verifier::external_body]
pub struct ExVersionSpec(Constraint);

/// `rattler_conda_types::MatchSpecCondition`: a condition of a match spec.
#[verifier::external_type_specification]
#[verifier::external_body]
pub struct ExMatchSpecCondition(MatchSpecCondition);

/// What a conda version constraint says.
pub open spec fn constraint_view(constraint: Constraint) -> VersionSpecView {
    if is_group(constraint) {
        VersionSpecView::All(constraint_clauses(constraint))
    } else {
        VersionSpecView::One(constraint_clauses(constraint)[0])
    }
}

/// `rattler_conda_types::Version::from_str`, and the variant of
/// `VersionSpec` for a comparator: the comparison with the version that a
/// text spells, which its `Display` spells anew, or the rendered error.
#[verifier::external_body]
fn comparison(comparator: Comparator, version: &str) -> (r: Result<Constraint, String>)
    ensures
        match r {
            Ok(constraint) => conda_version(version@) is Ok && !is_group(constraint)
                && constraint_clauses(constraint) == seq![
                respelled((ClauseView { comparator, version: version@ })),
            ],
            Err(message) => conda_version(version@) == Err::<Seq<char>, Seq<char>>(message@),
        },
{
    let v = CondaVersion::from_str(version).map_err(|e| e.to_string())?;
    Ok(match comparator {
        Comparator::Greater => Constraint::Range(RangeOperator::Greater, v),
        Comparator::GreaterEquals => Constraint::Range(RangeOperator::GreaterEquals, v),
        Comparator::Less => Constraint::Range(RangeOperator::Less, v),
        Comparator::LessEquals => Constraint::Range(RangeOperator::LessEquals, v),
        Comparator::Equals => Constraint::Exact(EqualityOperator::Equals, v),
        Comparator::NotEquals => Constraint::Exact(EqualityOperator::NotEquals, v),
        Comparator::StartsWith => Constraint::StrictRange(StrictRangeOperator::StartsWith, StrictVersion::from(v)),
        Comparator::NotStartsWith => Constraint::StrictRange(StrictRangeOperator::NotStartsWith, StrictVersion::from(v)),
    })
}

/// `rattler_conda_types::VersionSpec::Group`: the constraint that several
/// comparisons all hold.
#[verifier::external_body]
fn all_of(comparisons: Vec<Constraint>) -> (r: Constraint)
    requires
        forall|i: int| 0 <= i < comparisons@.len() ==> !is_group(#[trigger] comparisons@[i]),
    ensures
        is_group(r),
        constraint_clauses(r) == comparisons@.map_values(
            |one: Constraint| constraint_clauses(one)[0],
        ),
{
    Constraint::Group(LogicalOperator::And, comparisons)
}

/// `rattler_conda_types::MatchSpecCondition::MatchSpec`: the condition that
/// a comparison holds of the version of a package.
#[verifier::external_body]
fn condition_on(package: &str, comparison: Constraint) -> (r: MatchSpecCondition)
    requires
        !is_group(comparison),
    ensures
        condition_steps(r) == seq![
            StepView::Version(package@, constraint_clauses(comparison)[0]),
        ],
{
    MatchSpecCondition::MatchSpec(Box::new(CondaSpec {
        version: Some(comparison),
        ..CondaSpec::from(PackageName::new_unchecked(package))
    }))
}

/// `rattler_conda_types::MatchSpecCondition::And`: the condition that two
/// conditions both hold.
#[verifier::external_body]
fn condition_both(a: MatchSpecCondition, b: MatchSpecCondition) -> (r: MatchSpecCondition)
    ensures
        condition_steps(r) == (condition_steps(a) + condition_steps(b)).push(StepView::And),
{
    MatchSpecCondition::And(Box::new(a), Box::new(b))
}

/// `rattler_conda_types::MatchSpecCondition::Or`: the condition that one of
/// two conditions holds.
#[verifier::external_body]
fn condition_either(a: MatchSpecCondition, b: MatchSpecCondition) -> (r: MatchSpecCondition)
    ensures
        condition_steps(r) == (condition_steps(a) + condition_steps(b)).push(StepView::Or),
{
    MatchSpecCondition::Or(Box::new(a), Box::new(b))
}

/// `rattler_conda_types::MatchSpec` rendered by its `Display`.
#[verifier::external_body]
fn matchspec_text(
    name: &str,
    version: Option<Constraint>,
    extras: &Option<Vec<String>>,
    when: Option<MatchSpecCondition>,
) -> (r: String)
    ensures
        r@ == conda_matchspec_text(
            name@,
            match version {
                Some(constraint) => Some(constraint_view(constraint)),
                None => None,
            },
            extras.deep_view(),
            match when {
                Some(condition) => condition_steps(condition),
                None => Seq::empty(),
            },
        ),
{
    CondaSpec {
        version,
        extras: extras.clone(),
        condition: when,
        ..CondaSpec::from(PackageName::new_unchecked(name))
    }.to_string()
}

/// `rattler_conda_types::MatchSpec::from_str` in lenient mode: the canonical
/// spelling, the normalized name and the channel of the match spec that a
/// text spells, or the rendered error. A channel given by a path is resolved
/// against the current directory, so nothing is said of a text whose channel
/// may be one.
#[verifier::external_body]
pub(crate) fn read_matchspec(text: &str) -> (r: Result<DeclaredSpec, String>)
    ensures
        is_fixed_spec(text@) ==> outcome(r) == conda_matchspec(text@),
{
    CondaSpec::from_str(text, ParseMatchSpecOptions::lenient())
        .map(|spec| DeclaredSpec {
            text: text.to_owned(),
            canonical: spec.to_string(),
            name: spec.name.as_exact().map(|n| n.as_normalized().to_owned()),
            channel: spec.channel.map(|c| c.base_url.to_string()),
        })
        .map_err(|e| e.to_string())
}

/// The steps of a condition, if there is one.
pub open spec fn steps_of(condition: Option<ConditionView>) -> Seq<StepView> {
    match condition {
        Some(c) => postfix(c),
        None => Seq::empty(),
    }
}

/// Why the version of a comparison is none, if it is none.
pub open spec fn clause_error(c: ClauseView) -> Option<Seq<char>> {
    match conda_version(c.version) {
        Ok(_) => None,
        Err(message) => Some(message),
    }
}

/// Why the first version among comparisons that is none is none.
pub open spec fn clauses_error(clauses: Seq<ClauseView>) -> Option<Seq<char>>
    decreases clauses.len(),
{
    if clauses.len() == 0 {
        None
    } else {
        match clauses_error(clauses.drop_last()) {
            Some(message) => Some(message),
            None => clause_error(clauses.last()),
        }
    }
}

/// Why the first version of a constraint that is none is none.
pub open spec fn version_spec_error(v: VersionSpecView) -> Option<Seq<char>> {
    match v {
        VersionSpecView::One(clause) => clause_error(clause),
        VersionSpecView::All(clauses) => clauses_error(clauses),
    }
}

/// Why the first version of a condition that is none is none.
pub open spec fn condition_error(c: ConditionView) -> Option<Seq<char>>
    decreases c,
{
    match c {
        ConditionView::Python(clause) => clause_error(clause),
        ConditionView::And(a, b) => match condition_error(*a) {
            Some(message) => Some(message),
            None => condition_error(*b),
        },
        ConditionView::Or(a, b) => match condition_error(*a) {
            Some(message) => Some(message),
            None => condition_error(*b),
        },
    }
}

/// Why the first version of a match spec that is none is none: those of its
/// condition come first.
pub open spec fn matchspec_error(spec: MatchSpecView) -> Option<Seq<char>> {
    match (spec.condition, spec.version) {
        (Some(condition), Some(version)) => match condition_error(condition) {
            Some(message) => Some(message),
            None => version_spec_error(version),
        },
        (Some(condition), None) => condition_error(condition),
        (None, Some(version)) => version_spec_error(version),
        (None, None) => None,
    }
}

/// The canonical spelling of a match spec all of whose versions are.
pub open spec fn canonical_text(spec: MatchSpecView) -> Seq<char> {
    conda_matchspec_text(
        spec.name,
        match spec.version {
            Some(version) => Some(respelled_spec(version)),
            None => None,
        },
        spec.extras,
        steps_of(spec.condition),
    )
}

/// The canonical spelling of a match spec, or why one of its versions is
/// none.
pub open spec fn canonical_outcome(spec: MatchSpecView) -> Result<Seq<char>, Seq<char>> {
    match matchspec_error(spec) {
        Some(message) => Err(message),
        None => Ok(canonical_text(spec)),
    }
}

/// Two lists of comparisons whose versions all are make another.
pub proof fn clauses_error_add(a: Seq<ClauseView>, b: Seq<ClauseView>)
    requires
        clauses_error(a) is None,
        clauses_error(b) is None,
    ensures
        clauses_error(a + b) is None,
    decreases b.len(),
{
    if b.len() == 0 {
        assert(a + b =~= a);
    } else {
        clauses_error_add(a, b.drop_last());
        assert((a + b).drop_last() =~= a + b.drop_last());
    }
}

proof fn clauses_error_first(clauses: Seq<ClauseView>, n: int)
    requires
        0 <= n <= clauses.len(),
        clauses_error(clauses.take(n)) is Some,
    ensures
        clauses_error(clauses) == clauses_error(clauses.take(n)),
    decreases clauses.len() - n,
{
    if n < clauses.len() {
        assert(clauses.take(n + 1).drop_last() =~= clauses.take(n));
        clauses_error_first(clauses, n + 1);
    } else {
        assert(clauses.take(n) =~= clauses);
    }
}

/// The conda constraint that a constraint stands for, or why the first of
/// its versions that is none is none.
fn conda_constraint(v: &VersionSpec) -> (r: Result<Constraint, String>)
    ensures
        match r {
            Ok(constraint) => version_spec_error(v.deep_view()) is None && constraint_view(
                constraint,
            ) == respelled_spec(v.deep_view()),
            Err(message) => version_spec_error(v.deep_view()) == Some(message@),
        },
{
    let clauses = match v {
        VersionSpec::One(clause) => return comparison(
            clause.comparator,
            clause.version.as_str(),
        ),
        VersionSpec::All(clauses) => clauses,
    };
    let ghost all = clauses.deep_view();
    let ghost wanted = all.map_values(|c: ClauseView| respelled(c));
    let mut parts: Vec<Constraint> = Vec::new();
    let mut i: usize = 0;
    while i < clauses.len()
        invariant
            i <= clauses.len(),
            all == clauses.deep_view(),
            v.deep_view() == VersionSpecView::All(all),
            wanted == all.map_values(|c: ClauseView| respelled(c)),
            clauses_error(all.take(i as int)) is None,
            parts@.len() == i,
            forall|k: int|
                0 <= k < i ==> !is_group(#[trigger] parts@[k]) && constraint_clauses(parts@[k])[0]
                    == wanted[k],
        decreases clauses.len() - i,
    {
        assert(all.take(i + 1).drop_last() =~= all.take(i as int));
        assert(all.take(i + 1).last() == clauses@[i as int].deep_view());
        assert(all[i as int] == clauses@[i as int].deep_view());
        match comparison(clauses[i].comparator, clauses[i].version.as_str()) {
            Ok(one) => {
                parts.push(one);
            },
            Err(message) => {
                proof {
                    clauses_error_first(all, i + 1);
                }
                return Err(message);
            },
        }
        i += 1;
    }
    assert(all.take(i as int) =~= all);
    let whole = all_of(parts);
    assert(constraint_clauses(whole) =~= wanted);
    Ok(whole)
}

/// The conda condition that a condition stands for, or why the first of its
/// versions that is none is none.
fn conda_condition(c: &Condition) -> (r: Result<MatchSpecCondition, String>)
    ensures
        match r {
            Ok(condition) => condition_error(c.deep_view()) is None && condition_steps(condition)
                == postfix(c.deep_view()),
            Err(message) => condition_error(c.deep_view()) == Some(message@),
        },
    decreases c,
{
    match c {
        Condition::Python(clause) => match comparison(
            clause.comparator,
            clause.version.as_str(),
        ) {
            Ok(one) => Ok(condition_on("python", one)),
            Err(message) => Err(message),
        },
        Condition::And(a, b) => match (conda_condition(a), conda_condition(b)) {
            (Ok(left), Ok(right)) => Ok(condition_both(left, right)),
            (Err(message), _) => Err(message),
            (_, Err(message)) => Err(message),
        },
        Condition::Or(a, b) => match (conda_condition(a), conda_condition(b)) {
            (Ok(left), Ok(right)) => Ok(condition_either(left, right)),
            (Err(message), _) => Err(message),
            (_, Err(message)) => Err(message),
        },
    }
}

impl MatchSpec {
    /// The canonical spelling of the match spec, or why one of its versions
    /// is none.
    pub fn canonical(&self) -> (r: Result<String, String>)
        ensures
            outcome(r) == canonical_outcome(self.deep_view()),
    {
        let when = match &self.condition {
            Some(condition) => match conda_condition(condition) {
                Ok(built) => Some(built),
                Err(message) => return Err(message),
            },
            None => None,
        };
        let version = match &self.version {
            Some(version) => match conda_constraint(version) {
                Ok(built) => Some(built),
                Err(message) => return Err(message),
            },
            None => None,
        };
        Ok(matchspec_text(self.name.as_str(), version, &self.extras, when))
    }
}

/// What reading one match spec gave: the match spec, or why it is none.
pub type SpecReadView = Result<DeclaredSpecView, Seq<char>>;

/// Whether the outcomes are those of reading the match specs: what a text
/// whose channel may be a path gives is left open.
pub open spec fn specs_are_read(texts: Seq<Seq<char>>, reads: Seq<SpecReadView>) -> bool {
    &&& reads.len() == texts.len()
    &&& forall|i: int|
        0 <= i < texts.len() && is_fixed_spec(texts[i]) ==> #[trigger] reads[i]
            == conda_matchspec(texts[i])
}

/// Reads every match spec.
pub fn read_specs(texts: &Vec<String>) -> (r: Vec<Result<DeclaredSpec, String>>)
    ensures
        specs_are_read(texts.deep_view(), read_views(r@)),
{
    let ghost all = texts.deep_view();
    let mut out: Vec<Result<DeclaredSpec, String>> = Vec::new();
    let mut i: usize = 0;
    while i < texts.len()
        invariant
            i <= texts.len(),
            all == texts.deep_view(),
            specs_are_read(all.take(i as int), read_views(out@)),
        decreases texts.len() - i,
    {
        let one = read_matchspec(texts[i].as_str());
        let ghost before = read_views(out@);
        out.push(one);
        proof {
            assert(all[i as int] == texts@[i as int]@);
            let after = read_views(out@);
            assert forall|k: int| 0 <= k < i + 1 && is_fixed_spec(all.take(i + 1)[k]) implies #[trigger] after[k]
                == conda_matchspec(all.take(i + 1)[k]) by {
                if k < i {
                    assert(after[k] == before[k]);
                    assert(all.take(i as int)[k] == all.take(i + 1)[k]);
                }
            }
        }
        i += 1;
    }
    assert(all.take(i as int) =~= all);
    out
}

/// What steps leave behind on top of earlier results: a comparison its
/// result, an operator one result for the last two.
pub open spec fn results(
    steps: Seq<StepView>,
    holds: spec_fn(Seq<char>, ClauseView) -> bool,
    before: Seq<bool>,
) -> Seq<bool>
    decreases steps.len(),
{
    if steps.len() == 0 {
        before
    } else {
        let done = results(steps.drop_last(), holds, before);
        let n = done.len() as int;
        match steps.last() {
            StepView::Version(package, clause) => done.push(holds(package, clause)),
            StepView::And => done.take(n - 2).push(done[n - 2] && done[n - 1]),
            StepView::Or => done.take(n - 2).push(done[n - 2] || done[n - 1]),
        }
    }
}

/// Whether a condition holds, given which comparisons do.
pub open spec fn is_met(
    c: ConditionView,
    holds: spec_fn(Seq<char>, ClauseView) -> bool,
) -> bool
    decreases c,
{
    match c {
        ConditionView::Python(clause) => holds(
            "python"@,
            ClauseView {
                comparator: clause.comparator,
                version: conda_version(clause.version)->Ok_0,
            },
        ),
        ConditionView::And(a, b) => is_met(*a, holds) && is_met(*b, holds),
        ConditionView::Or(a, b) => is_met(*a, holds) || is_met(*b, holds),
    }
}

proof fn results_of_both(
    a: Seq<StepView>,
    b: Seq<StepView>,
    holds: spec_fn(Seq<char>, ClauseView) -> bool,
    before: Seq<bool>,
)
    ensures
        results(a + b, holds, before) == results(b, holds, results(a, holds, before)),
    decreases b.len(),
{
    if b.len() == 0 {
        assert(a + b =~= a);
    } else {
        results_of_both(a, b.drop_last(), holds, before);
        assert((a + b).drop_last() =~= a + b.drop_last());
    }
}

/// A condition in postfix order, worked off step by step, leaves exactly
/// whether it holds, whatever the comparisons give.
pub proof fn postfix_means_the_condition(
    c: ConditionView,
    holds: spec_fn(Seq<char>, ClauseView) -> bool,
    before: Seq<bool>,
)
    ensures
        results(postfix(c), holds, before) == before.push(is_met(c, holds)),
    decreases c,
{
    match c {
        ConditionView::Python(clause) => {
            let steps = postfix(c);
            assert(steps.drop_last() =~= Seq::empty());
            assert(results(steps.drop_last(), holds, before) == before);
        },
        ConditionView::And(a, b) => {
            let first = before.push(is_met(*a, holds));
            postfix_means_the_condition(*a, holds, before);
            postfix_means_the_condition(*b, holds, first);
            results_of_both(postfix(*a), postfix(*b), holds, before);
            assert(postfix(c).drop_last() =~= postfix(*a) + postfix(*b));
            let done = first.push(is_met(*b, holds));
            assert(done.take(done.len() - 2) =~= before);
        },
        ConditionView::Or(a, b) => {
            let first = before.push(is_met(*a, holds));
            postfix_means_the_condition(*a, holds, before);
            postfix_means_the_condition(*b, holds, first);
            results_of_both(postfix(*a), postfix(*b), holds, before);
            assert(postfix(c).drop_last() =~= postfix(*a) + postfix(*b));
            let done = first.push(is_met(*b, holds));
            assert(done.take(done.len() - 2) =~= before);
        },
    }
}

/// The comparisons of a condition, from left to right.
pub open spec fn comparisons(c: ConditionView) -> Seq<ClauseView>
    decreases c,
{
    match c {
        ConditionView::Python(clause) => seq![clause],
        ConditionView::And(a, b) => comparisons(*a) + comparisons(*b),
        ConditionView::Or(a, b) => comparisons(*a) + comparisons(*b),
    }
}

/// The comparisons of a match spec: those of its condition, then those of
/// its version.
pub open spec fn all_comparisons(spec: MatchSpecView) -> Seq<ClauseView> {
    (match spec.condition {
        Some(condition) => comparisons(condition),
        None => Seq::empty(),
    }) + (match spec.version {
        Some(VersionSpecView::One(clause)) => seq![clause],
        Some(VersionSpecView::All(clauses)) => clauses,
        None => Seq::empty(),
    })
}

proof fn clauses_error_of_both(a: Seq<ClauseView>, b: Seq<ClauseView>)
    ensures
        clauses_error(a + b) == (if clauses_error(a) is Some {
            clauses_error(a)
        } else {
            clauses_error(b)
        }),
    decreases b.len(),
{
    if b.len() == 0 {
        assert(a + b =~= a);
    } else {
        clauses_error_of_both(a, b.drop_last());
        assert((a + b).drop_last() =~= a + b.drop_last());
    }
}

proof fn condition_error_is_first(c: ConditionView)
    ensures
        condition_error(c) == clauses_error(comparisons(c)),
    decreases c,
{
    match c {
        ConditionView::Python(clause) => {
            reveal_with_fuel(clauses_error, 2);
            assert(seq![clause].drop_last() =~= Seq::empty());
        },
        ConditionView::And(a, b) => {
            condition_error_is_first(*a);
            condition_error_is_first(*b);
            clauses_error_of_both(comparisons(*a), comparisons(*b));
        },
        ConditionView::Or(a, b) => {
            condition_error_is_first(*a);
            condition_error_is_first(*b);
            clauses_error_of_both(comparisons(*a), comparisons(*b));
        },
    }
}

proof fn first_error(clauses: Seq<ClauseView>, n: int)
    requires
        0 <= n <= clauses.len(),
        forall|i: int| 0 <= i < n ==> conda_version((#[trigger] clauses[i]).version) is Ok,
        n < clauses.len() ==> conda_version(clauses[n].version) is Err,
    ensures
        n == clauses.len() ==> clauses_error(clauses) is None,
        n < clauses.len() ==> clauses_error(clauses) == Some(
            conda_version(clauses[n].version)->Err_0,
        ),
    decreases clauses.len(),
{
    if clauses.len() > 0 {
        let rest = clauses.drop_last();
        if n < clauses.len() {
            if n < rest.len() {
                assert(rest[n] == clauses[n]);
            }
            assert forall|i: int| 0 <= i < n implies conda_version(
                (#[trigger] rest[i]).version,
            ) is Ok by {
                assert(rest[i] == clauses[i]);
            }
            first_error(rest, n);
        } else {
            assert forall|i: int| 0 <= i < rest.len() implies conda_version(
                (#[trigger] rest[i]).version,
            ) is Ok by {
                assert(rest[i] == clauses[i]);
            }
            first_error(rest, n - 1);
            assert(conda_version(clauses[n - 1].version) is Ok);
        }
    }
}

/// A match spec is spelled exactly where all its versions are conda
/// versions; otherwise the first that is none, those of its condition
/// first, says why it is not.
pub proof fn first_bad_version_is_reported(spec: MatchSpecView, n: int)
    requires
        0 <= n <= all_comparisons(spec).len(),
        forall|i: int|
            0 <= i < n ==> conda_version((#[trigger] all_comparisons(spec)[i]).version) is Ok,
        n < all_comparisons(spec).len() ==> conda_version(all_comparisons(spec)[n].version) is Err,
    ensures
        n == all_comparisons(spec).len() ==> canonical_outcome(spec) is Ok,
        n < all_comparisons(spec).len() ==> canonical_outcome(spec) == Err::<Seq<char>, Seq<char>>(
            conda_version(all_comparisons(spec)[n].version)->Err_0,
        ),
{
    let all = all_comparisons(spec);
    first_error(all, n);
    let a = match spec.condition {
        Some(condition) => comparisons(condition),
        None => Seq::empty(),
    };
    let b = match spec.version {
        Some(VersionSpecView::One(clause)) => seq![clause],
        Some(VersionSpecView::All(clauses)) => clauses,
        None => Seq::empty(),
    };
    clauses_error_of_both(a, b);
    if let Some(condition) = spec.condition {
        condition_error_is_first(condition);
    }
    if let Some(VersionSpecView::One(clause)) = spec.version {
        reveal_with_fuel(clauses_error, 2);
        assert(seq![clause].drop_last() =~= Seq::empty());
    }
}

/// The canonical spelling is that of the name, the extras and the condition
/// as they are, and of the version as it is but for how each number of it is
/// spelled.
pub proof fn spelling_says_all(spec: MatchSpecView, version: VersionSpecView)
    requires
        canonical_outcome(spec) is Ok,
        spec.version is Some ==> match (spec.version->0, version) {
            (VersionSpecView::One(c), VersionSpecView::One(d)) => d.comparator == c.comparator
                && conda_version(c.version) == Ok::<Seq<char>, Seq<char>>(d.version),
            (VersionSpecView::All(cs), VersionSpecView::All(ds)) => ds.len() == cs.len() && forall|
                i: int,
            |
                0 <= i < cs.len() ==> (#[trigger] ds[i]).comparator == cs[i].comparator
                    && conda_version(cs[i].version) == Ok::<Seq<char>, Seq<char>>(ds[i].version),
            _ => false,
        },
    ensures
        canonical_outcome(spec)->Ok_0 == conda_matchspec_text(
            spec.name,
            if spec.version is Some {
                Some(version)
            } else {
                None
            },
            spec.extras,
            if spec.condition is Some {
                postfix(spec.condition->0)
            } else {
                Seq::empty()
            },
        ),
{
    if let Some(VersionSpecView::All(cs)) = spec.version {
        if let VersionSpecView::All(ds) = version {
            assert(cs.map_values(|c: ClauseView| respelled(c)) =~= ds);
        }
    }
}

/// What a match spec is seen as holds each of its parts.
pub proof fn matchspec_view_holds_all(spec: MatchSpec, declared: DeclaredSpec, clause: Clause)
    ensures
        spec.deep_view().name == spec.name@,
        spec.deep_view().version == spec.version.deep_view(),
        spec.deep_view().extras == spec.extras.deep_view(),
        spec.deep_view().condition == spec.condition.deep_view(),
        declared.deep_view().text == declared.text@,
        declared.deep_view().canonical == declared.canonical@,
        declared.deep_view().name == declared.name.deep_view(),
        declared.deep_view().channel == declared.channel.deep_view(),
        clause.deep_view().comparator == clause.comparator,
        clause.deep_view().version == clause.version@,
        VersionSpec::One(clause).deep_view() == VersionSpecView::One(clause.deep_view()),
        condition_view(Condition::Python(clause)) == ConditionView::Python(clause.deep_view()),
{
}

/// Conditions are seen as they are put together.
pub proof fn condition_view_holds_all(a: Condition, b: Condition)
    ensures
        condition_view(Condition::And(Box::new(a), Box::new(b))) == ConditionView::And(
            Box::new(condition_view(a)),
            Box::new(condition_view(b)),
        ),
        condition_view(Condition::Or(Box::new(a), Box::new(b))) == ConditionView::Or(
            Box::new(condition_view(a)),
            Box::new(condition_view(b)),
        ),
{
}

} // verus!
