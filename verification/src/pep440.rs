//! Python versions and version specifiers, as plain values.

use crate::data::Duplicate;
use std::str::FromStr;
use vstd::prelude::*;
use vstd::string::*;

verus! {

/// A version comparison operator.
#[derive(Debug, Clone, Copy, PartialEq, Eq, Structural)]
pub enum Operator {
    /// `==`
    Equal,
    /// `== 1.2.*`
    EqualStar,
    /// `===`
    ExactEqual,
    /// `!=`
    NotEqual,
    /// `!= 1.2.*`
    NotEqualStar,
    /// `~=`
    TildeEqual,
    /// `<`
    LessThan,
    /// `<=`
    LessThanEqual,
    /// `>`
    GreaterThan,
    /// `>=`
    GreaterThanEqual,
}

/// A Python version, taken apart.
#[derive(Debug, Clone, PartialEq, Eq)]
pub struct Version {
    /// The epoch; zero where none is written.
    pub epoch: u64,
    /// The release segments.
    pub release: Vec<u64>,
    /// The letters and the number of the pre-release, if it is one.
    pub pre: Option<(String, u64)>,
    /// The number of the post-release, if it is one.
    pub post: Option<u64>,
    /// The number of the development release, if it is one.
    pub dev: Option<u64>,
    /// Whether it has a local version label.
    pub local: bool,
}

/// A version as mathematical values.
pub struct VersionView {
    pub epoch: u64,
    pub release: Seq<u64>,
    pub pre: Option<(Seq<char>, u64)>,
    pub post: Option<u64>,
    pub dev: Option<u64>,
    pub local: bool,
}

impl DeepView for Version {
    type V = VersionView;

    open spec fn deep_view(&self) -> VersionView {
        VersionView {
            epoch: self.epoch,
            release: self.release@,
            pre: match self.pre {
                Some((letters, number)) => Some((letters@, number)),
                None => None,
            },
            post: self.post,
            dev: self.dev,
            local: self.local,
        }
    }
}

impl Duplicate for Version {
    fn duplicate(&self) -> (r: Self) {
        let release = self.release.duplicate();
        assert(release@ =~= self.release@) by {
            assert(release.deep_view() =~= release@);
            assert(self.release.deep_view() =~= self.release@);
        }
        Version {
            epoch: self.epoch,
            release,
            pre: match &self.pre {
                Some((letters, number)) => Some((letters.clone(), *number)),
                None => None,
            },
            post: self.post,
            dev: self.dev,
            local: self.local,
        }
    }
}

impl VersionView {
    /// Whether the version is a pre-release or a development release.
    pub open spec fn is_prerelease(self) -> bool {
        self.pre is Some || self.dev is Some
    }
}

impl Version {
    /// Whether the version is a pre-release or a development release.
    pub fn is_prerelease(&self) -> (r: bool)
        ensures
            r == self.deep_view().is_prerelease(),
    {
        self.pre.is_some() || self.dev.is_some()
    }
}

/// One version specifier: an operator, the version it compares with, and
/// its own spelling.
#[derive(Debug, Clone, PartialEq, Eq)]
pub struct Specifier {
    pub operator: Operator,
    pub version: Version,
    pub text: String,
}

/// A specifier as mathematical values.
pub struct SpecifierView {
    pub operator: Operator,
    pub version: VersionView,
    pub text: Seq<char>,
}

impl DeepView for Specifier {
    type V = SpecifierView;

    open spec fn deep_view(&self) -> SpecifierView {
        SpecifierView {
            operator: self.operator,
            version: self.version.deep_view(),
            text: self.text@,
        }
    }
}

impl Duplicate for Specifier {
    fn duplicate(&self) -> (r: Self) {
        Specifier {
            operator: self.operator,
            version: self.version.duplicate(),
            text: self.text.clone(),
        }
    }
}

/// What the version grammar makes of a text: a version, or why it is none.
pub uninterp spec fn pep440_version(text: Seq<char>) -> Result<VersionView, Seq<char>>;

/// What the specifier grammar makes of a text: an operator and the text of
/// a version, or why it is no specifier.
pub uninterp spec fn pep440_specifier(text: Seq<char>) -> Result<(Operator, Seq<char>), Seq<char>>;

/// What the grammar of specifier sets makes of a text: the spelling of each
/// specifier, or why it is no such set.
pub uninterp spec fn pep440_set(text: Seq<char>) -> Result<Seq<Seq<char>>, Seq<char>>;

/// The view of a result whose error is a message.
pub open spec fn outcome<T: DeepView>(r: Result<T, String>) -> Result<T::V, Seq<char>> {
    match r {
        Ok(value) => Ok(value.deep_view()),
        Err(message) => Err(message@),
    }
}

/// The views of several results whose errors are messages.
pub open spec fn read_views<T: DeepView>(reads: Seq<Result<T, String>>) -> Seq<
    Result<T::V, Seq<char>>,
> {
    Seq::new(reads.len(), |i: int| outcome(reads[i]))
}

/// `uv_pep440::Version::from_str`: the parts of the version that a text
/// spells, or the rendered error.
#[verifier::external_body]
pub(crate) fn parse_version(text: &str) -> (r: Result<Version, String>)
    ensures
        outcome(r) == pep440_version(text@),
{
    uv_pep440::Version::from_str(text)
        .map(|v| Version {
            epoch: v.epoch(),
            release: v.release().to_vec(),
            pre: v.pre().map(|p| (p.kind.to_string(), p.number)),
            post: v.post(),
            dev: v.dev(),
            local: v.is_local(),
        })
        .map_err(|e| e.to_string())
}

/// `uv_pep440::VersionSpecifier::from_str`: the operator and the version's
/// spelling, or the rendered error.
#[verifier::external_body]
fn split_specifier(text: &str) -> (r: Result<(Operator, String), String>)
    ensures
        match r {
            Ok((operator, version)) => pep440_specifier(text@) == Ok::<
                (Operator, Seq<char>),
                Seq<char>,
            >((operator, version@)),
            Err(message) => pep440_specifier(text@) == Err::<(Operator, Seq<char>), Seq<char>>(
                message@,
            ),
        },
{
    let s = uv_pep440::VersionSpecifier::from_str(text).map_err(|e| e.to_string())?;
    Ok((match s.operator() {
        uv_pep440::Operator::Equal => Operator::Equal,
        uv_pep440::Operator::EqualStar => Operator::EqualStar,
        uv_pep440::Operator::ExactEqual => Operator::ExactEqual,
        uv_pep440::Operator::NotEqual => Operator::NotEqual,
        uv_pep440::Operator::NotEqualStar => Operator::NotEqualStar,
        uv_pep440::Operator::TildeEqual => Operator::TildeEqual,
        uv_pep440::Operator::LessThan => Operator::LessThan,
        uv_pep440::Operator::LessThanEqual => Operator::LessThanEqual,
        uv_pep440::Operator::GreaterThan => Operator::GreaterThan,
        uv_pep440::Operator::GreaterThanEqual => Operator::GreaterThanEqual,
    }, s.version().to_string()))
}

/// `uv_pep440::VersionSpecifiers::from_str`: the spelling of each specifier
/// of the set, or the rendered error.
#[verifier::external_body]
fn split_set(text: &str) -> (r: Result<Vec<String>, String>)
    ensures
        outcome(r) == pep440_set(text@),
{
    uv_pep440::VersionSpecifiers::from_str(text)
        .map(|set| set.iter().map(|s| s.to_string()).collect())
        .map_err(|e| e.to_string())
}

/// The specifier that a text spells, or why it spells none.
pub open spec fn specifier_outcome(text: Seq<char>) -> Result<SpecifierView, Seq<char>> {
    match pep440_specifier(text) {
        Ok((operator, spelled)) => match pep440_version(spelled) {
            Ok(version) => Ok(SpecifierView { operator, version, text }),
            Err(message) => Err(message),
        },
        Err(message) => Err(message),
    }
}

/// The specifiers that the given texts spell, or why the first that spells
/// none does not.
pub open spec fn specifiers_of(spelled: Seq<Seq<char>>) -> Result<Seq<SpecifierView>, Seq<char>>
    decreases spelled.len(),
{
    if spelled.len() == 0 {
        Ok(Seq::empty())
    } else {
        match (specifiers_of(spelled.drop_last()), specifier_outcome(spelled.last())) {
            (Ok(before), Ok(last)) => Ok(before.push(last)),
            (Ok(_), Err(message)) => Err(message),
            (Err(message), _) => Err(message),
        }
    }
}

/// The specifier set that a text spells, or why it spells none.
pub open spec fn specifiers_outcome(text: Seq<char>) -> Result<Seq<SpecifierView>, Seq<char>> {
    match pep440_set(text) {
        Ok(spelled) => specifiers_of(spelled),
        Err(message) => Err(message),
    }
}

/// The specifier that a text spells, or why it spells none.
pub fn parse_specifier(text: &str) -> (r: Result<Specifier, String>)
    ensures
        outcome(r) == specifier_outcome(text@),
{
    match split_specifier(text) {
        Ok((operator, spelled)) => match parse_version(spelled.as_str()) {
            Ok(version) => Ok(Specifier { operator, version, text: text.to_owned() }),
            Err(message) => Err(message),
        },
        Err(message) => Err(message),
    }
}

/// The specifier set that a text spells, or why it spells none.
pub fn parse_specifiers(text: &str) -> (r: Result<Vec<Specifier>, String>)
    ensures
        outcome(r) == specifiers_outcome(text@),
{
    let spelled = match split_set(text) {
        Ok(spelled) => spelled,
        Err(message) => return Err(message),
    };
    let ghost all = spelled.deep_view();
    let mut out: Vec<Specifier> = Vec::new();
    let mut i: usize = 0;
    assert(out.deep_view() =~= Seq::empty());
    while i < spelled.len()
        invariant
            i <= spelled.len(),
            all == spelled.deep_view(),
            specifiers_of(all.take(i as int)) == Ok::<Seq<SpecifierView>, Seq<char>>(
                out.deep_view(),
            ),
            specifiers_outcome(text@) == specifiers_of(all),
        decreases spelled.len() - i,
    {
        assert(all.take(i + 1).drop_last() =~= all.take(i as int));
        assert(all.take(i + 1).last() == spelled@[i as int]@);
        match parse_specifier(spelled[i].as_str()) {
            Ok(specifier) => {
                let ghost done = out.deep_view();
                out.push(specifier);
                assert(out.deep_view() =~= done.push(specifier.deep_view()));
            },
            Err(message) => {
                proof {
                    specifiers_error_first(all, i as int + 1);
                }
                return Err(message);
            },
        }
        i += 1;
    }
    assert(all.take(i as int) =~= all);
    Ok(out)
}

/// An error among the first `n` texts is the error of all of them.
proof fn specifiers_error_first(spelled: Seq<Seq<char>>, n: int)
    requires
        0 <= n <= spelled.len(),
        specifiers_of(spelled.take(n)) is Err,
    ensures
        specifiers_of(spelled) == specifiers_of(spelled.take(n)),
    decreases spelled.len() - n,
{
    if n < spelled.len() {
        assert(spelled.take(n + 1).drop_last() =~= spelled.take(n));
        specifiers_error_first(spelled, n + 1);
    } else {
        assert(spelled.take(n) =~= spelled);
    }
}

/// A specifier is read as its operator and its version, and keeps its
/// spelling; it is refused where either is none.
pub proof fn specifiers_are_read_whole(
    text: Seq<char>,
    operator: Operator,
    spelled: Seq<char>,
    version: VersionView,
)
    ensures
        pep440_specifier(text) == Ok::<(Operator, Seq<char>), Seq<char>>((operator, spelled))
            && pep440_version(spelled) == Ok::<VersionView, Seq<char>>(version) ==> (
        specifier_outcome(text) is Ok && specifier_outcome(text)->Ok_0.operator == operator
            && specifier_outcome(text)->Ok_0.version == version
            && specifier_outcome(text)->Ok_0.text == text),
        pep440_specifier(text) is Err ==> specifier_outcome(text) == Err::<
            SpecifierView,
            Seq<char>,
        >(pep440_specifier(text)->Err_0),
        pep440_specifier(text) is Ok && pep440_version(pep440_specifier(text)->Ok_0.1) is Err
            ==> specifier_outcome(text) == Err::<SpecifierView, Seq<char>>(
            pep440_version(pep440_specifier(text)->Ok_0.1)->Err_0,
        ),
{
}

/// The specifiers of a set are read one by one and stand in order; the first
/// that is none says why the set is none.
pub proof fn sets_are_read_one_by_one(spelled: Seq<Seq<char>>, n: int)
    requires
        0 <= n <= spelled.len(),
        forall|i: int| 0 <= i < n ==> specifier_outcome(#[trigger] spelled[i]) is Ok,
        n < spelled.len() ==> specifier_outcome(spelled[n]) is Err,
    ensures
        n < spelled.len() ==> specifiers_of(spelled) == Err::<Seq<SpecifierView>, Seq<char>>(
            specifier_outcome(spelled[n])->Err_0,
        ),
        n == spelled.len() ==> specifiers_of(spelled) is Ok && specifiers_of(
            spelled,
        )->Ok_0.len() == spelled.len() && forall|i: int|
            0 <= i < spelled.len() ==> specifier_outcome(spelled[i]) == Ok::<
                SpecifierView,
                Seq<char>,
            >(#[trigger] specifiers_of(spelled)->Ok_0[i]),
    decreases spelled.len(),
{
    if spelled.len() > 0 {
        let rest = spelled.drop_last();
        if n < spelled.len() {
            if n < rest.len() {
                assert(rest[n] == spelled[n]);
            }
            assert forall|i: int| 0 <= i < n implies specifier_outcome(#[trigger] rest[i]) is Ok by {
                assert(rest[i] == spelled[i]);
            }
            sets_are_read_one_by_one(rest, n);
        } else {
            assert forall|i: int| 0 <= i < rest.len() implies specifier_outcome(
                #[trigger] rest[i],
            ) is Ok by {
                assert(rest[i] == spelled[i]);
            }
            sets_are_read_one_by_one(rest, n - 1);
            assert(specifier_outcome(spelled[n - 1]) is Ok);
            let all = specifiers_of(spelled)->Ok_0;
            let front = specifiers_of(rest)->Ok_0;
            assert forall|i: int| 0 <= i < spelled.len() implies specifier_outcome(spelled[i])
                == Ok::<SpecifierView, Seq<char>>(#[trigger] all[i]) by {
                if i < rest.len() {
                    assert(all[i] == front[i]);
                    assert(rest[i] == spelled[i]);
                }
            }
        }
    }
}

/// A version is a pre-release exactly where it has a pre-release or a
/// development part, and what it is seen as holds each of its parts.
pub proof fn version_view_holds_all(version: Version, specifier: Specifier)
    ensures
        version.deep_view().is_prerelease() <==> version.pre is Some || version.dev is Some,
        version.deep_view().epoch == version.epoch,
        version.deep_view().release == version.release@,
        version.deep_view().pre is Some <==> version.pre is Some,
        version.pre matches Some((letters, number)) ==> version.deep_view().pre == Some(
            (letters@, number),
        ),
        version.deep_view().post == version.post,
        version.deep_view().dev == version.dev,
        version.deep_view().local == version.local,
        specifier.deep_view().operator == specifier.operator,
        specifier.deep_view().version == specifier.version.deep_view(),
        specifier.deep_view().text == specifier.text@,
{
}

} // verus!
