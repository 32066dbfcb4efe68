//! Dependency specifiers and environment markers, as plain values.

use crate::data::Duplicate;
use crate::marker::assumption::{assumption_has_form, known_text, Assumption};
use crate::marker::source::{formless_marker, has_formless_marker, is_formless};
use crate::pep440::{
    outcome, parse_specifiers, read_views, specifiers_outcome, Specifier, SpecifierView,
};
use crate::platform::Platform;
use crate::specifier::{
    asks_for_root, is_fixed, needs_root, put_root, rooted, unnamed_word, url_text,
};
use crate::text::{
    chars_of, concat, concat3, contains, first_index, first_of, first_of_bound, holds_at, range_of,
    string_of, trim, trim_chars,
};
use std::str::FromStr;
use uv_pep508::{MarkerExpression as E, MarkerTree, Requirement as Pep508, VerbatimUrl};
use vstd::prelude::*;
use vstd::string::*;

verus! {

use self::MarkerLeaf::{Extra, Other, Version, VersionIn};

/// One clause of a marker.
#[derive(Debug, Clone, PartialEq, Eq)]
pub enum MarkerLeaf {
    /// A comparison with a version; holds the version specifier.
    Version(String),
    /// Membership in a list of versions; holds the operator and the list.
    VersionIn(String, Vec<String>),
    /// A clause on something else than a version or an extra; names it.
    Other(String),
    /// A comparison with an extra.
    Extra,
}

/// A marker clause as mathematical values.
pub enum LeafView {
    Version(Seq<char>),
    VersionIn(Seq<char>, Seq<Seq<char>>),
    Other(Seq<char>),
    Extra,
}

impl DeepView for MarkerLeaf {
    type V = LeafView;

    open spec fn deep_view(&self) -> LeafView {
        match self {
            MarkerLeaf::Version(specifier) => LeafView::Version(specifier@),
            MarkerLeaf::VersionIn(operator, versions) => LeafView::VersionIn(
                operator@,
                versions.deep_view(),
            ),
            MarkerLeaf::Other(key) => LeafView::Other(key@),
            MarkerLeaf::Extra => LeafView::Extra,
        }
    }
}

impl Duplicate for MarkerLeaf {
    fn duplicate(&self) -> (r: Self) {
        match self {
            MarkerLeaf::Version(specifier) => MarkerLeaf::Version(specifier.clone()),
            MarkerLeaf::VersionIn(operator, versions) => MarkerLeaf::VersionIn(
                operator.clone(),
                versions.duplicate(),
            ),
            MarkerLeaf::Other(key) => MarkerLeaf::Other(key.clone()),
            MarkerLeaf::Extra => MarkerLeaf::Extra,
        }
    }
}

/// The disjunctive normal form of a marker: whether it always holds, and
/// otherwise its clauses. One that does not always hold and has no clauses
/// never holds.
#[derive(Debug, Clone, PartialEq, Eq)]
pub struct NormalForm {
    pub always: bool,
    pub clauses: Vec<Vec<MarkerLeaf>>,
}

/// A normal form as mathematical values.
pub struct FormView {
    pub always: bool,
    pub clauses: Seq<Seq<LeafView>>,
}

impl DeepView for NormalForm {
    type V = FormView;

    open spec fn deep_view(&self) -> FormView {
        FormView { always: self.always, clauses: self.clauses.deep_view() }
    }
}

impl Duplicate for NormalForm {
    fn duplicate(&self) -> (r: Self) {
        NormalForm { always: self.always, clauses: self.clauses.duplicate() }
    }
}

/// An environment marker: its normal form, and that of what is left of it on
/// each platform that packages are installed onto.
#[derive(Debug, Clone, PartialEq, Eq)]
pub struct Marker {
    pub form: NormalForm,
    pub linux_64: NormalForm,
    pub linux_aarch64: NormalForm,
    pub osx_64: NormalForm,
    pub osx_arm64: NormalForm,
    pub win_64: NormalForm,
    pub win_arm64: NormalForm,
}

/// A marker as mathematical values.
pub struct MarkerView {
    pub form: FormView,
    pub linux_64: FormView,
    pub linux_aarch64: FormView,
    pub osx_64: FormView,
    pub osx_arm64: FormView,
    pub win_64: FormView,
    pub win_arm64: FormView,
}

impl DeepView for Marker {
    type V = MarkerView;

    open spec fn deep_view(&self) -> MarkerView {
        MarkerView {
            form: self.form.deep_view(),
            linux_64: self.linux_64.deep_view(),
            linux_aarch64: self.linux_aarch64.deep_view(),
            osx_64: self.osx_64.deep_view(),
            osx_arm64: self.osx_arm64.deep_view(),
            win_64: self.win_64.deep_view(),
            win_arm64: self.win_arm64.deep_view(),
        }
    }
}

impl Duplicate for Marker {
    fn duplicate(&self) -> (r: Self) {
        Marker {
            form: self.form.duplicate(),
            linux_64: self.linux_64.duplicate(),
            linux_aarch64: self.linux_aarch64.duplicate(),
            osx_64: self.osx_64.duplicate(),
            osx_arm64: self.osx_arm64.duplicate(),
            win_64: self.win_64.duplicate(),
            win_arm64: self.win_arm64.duplicate(),
        }
    }
}

impl MarkerView {
    /// What is left of the marker on a platform: all of it where packages
    /// are not installed onto that.
    pub open spec fn on(self, platform: Platform) -> FormView {
        match platform {
            Platform::Linux64 => self.linux_64,
            Platform::LinuxAarch64 => self.linux_aarch64,
            Platform::Osx64 => self.osx_64,
            Platform::OsxArm64 => self.osx_arm64,
            Platform::Win64 => self.win_64,
            Platform::WinArm64 => self.win_arm64,
            _ => self.form,
        }
    }
}

impl Marker {
    /// What is left of the marker on a platform: all of it where packages
    /// are not installed onto that.
    pub fn on(&self, platform: Platform) -> (r: &NormalForm)
        ensures
            r.deep_view() == self.deep_view().on(platform),
    {
        match platform {
            Platform::Linux64 => &self.linux_64,
            Platform::LinuxAarch64 => &self.linux_aarch64,
            Platform::Osx64 => &self.osx_64,
            Platform::OsxArm64 => &self.osx_arm64,
            Platform::Win64 => &self.win_64,
            Platform::WinArm64 => &self.win_arm64,
            _ => &self.form,
        }
    }
}

/// What a dependency specifier asks for besides its name: a set of
/// versions, or what stands at a URL.
#[derive(Debug, Clone, PartialEq, Eq)]
pub enum VersionOrUrl {
    VersionSpecifier(Vec<Specifier>),
    Url(String),
}

/// A version set or URL as mathematical values.
pub enum SourceView {
    Versions(Seq<SpecifierView>),
    Url(Seq<char>),
}

impl DeepView for VersionOrUrl {
    type V = SourceView;

    open spec fn deep_view(&self) -> SourceView {
        match self {
            VersionOrUrl::VersionSpecifier(specifiers) => SourceView::Versions(
                specifiers.deep_view(),
            ),
            VersionOrUrl::Url(url) => SourceView::Url(url@),
        }
    }
}

impl Duplicate for VersionOrUrl {
    fn duplicate(&self) -> (r: Self) {
        match self {
            VersionOrUrl::VersionSpecifier(specifiers) => VersionOrUrl::VersionSpecifier(
                specifiers.duplicate(),
            ),
            VersionOrUrl::Url(url) => VersionOrUrl::Url(url.clone()),
        }
    }
}

/// A dependency specifier.
#[derive(Debug, Clone, PartialEq, Eq)]
pub struct Requirement {
    /// The normalized package name.
    pub name: String,
    /// The normalized extras, in the order in which they are written.
    pub extras: Vec<String>,
    /// The versions or the URL asked for, if any.
    pub version_or_url: Option<VersionOrUrl>,
    /// The environment marker.
    pub marker: Marker,
    /// The spelling of the marker; empty for one that always holds.
    pub marker_text: String,
    /// The spelling of the whole specifier.
    pub text: String,
}

/// A dependency specifier as mathematical values.
pub struct RequirementView {
    pub name: Seq<char>,
    pub extras: Seq<Seq<char>>,
    pub version_or_url: Option<SourceView>,
    pub marker: MarkerView,
    pub marker_text: Seq<char>,
    pub text: Seq<char>,
}

impl DeepView for Requirement {
    type V = RequirementView;

    open spec fn deep_view(&self) -> RequirementView {
        RequirementView {
            name: self.name@,
            extras: self.extras.deep_view(),
            version_or_url: self.version_or_url.deep_view(),
            marker: self.marker.deep_view(),
            marker_text: self.marker_text@,
            text: self.text@,
        }
    }
}

impl Duplicate for Requirement {
    fn duplicate(&self) -> (r: Self) {
        Requirement {
            name: self.name.clone(),
            extras: self.extras.duplicate(),
            version_or_url: self.version_or_url.duplicate(),
            marker: self.marker.duplicate(),
            marker_text: self.marker_text.clone(),
            text: self.text.clone(),
        }
    }
}

/// The parts of a dependency specifier but for its marker; a version set is
/// given by its spelling, and `body` spells them all.
#[derive(Debug)]
pub struct Parts {
    pub name: String,
    pub extras: Vec<String>,
    pub versions: Option<String>,
    pub url: Option<String>,
    pub body: String,
}

/// The parts of a dependency specifier as mathematical values.
pub struct PartsView {
    pub name: Seq<char>,
    pub extras: Seq<Seq<char>>,
    pub versions: Option<Seq<char>>,
    pub url: Option<Seq<char>>,
    pub body: Seq<char>,
}

impl DeepView for Parts {
    type V = PartsView;

    open spec fn deep_view(&self) -> PartsView {
        PartsView {
            name: self.name@,
            extras: self.extras.deep_view(),
            versions: self.versions.deep_view(),
            url: self.url.deep_view(),
            body: self.body@,
        }
    }
}

/// Whether a text is nothing but white space and starts with white space
/// outside ASCII.
pub open spec fn is_wide_blank(text: Seq<char>) -> bool {
    text.len() > 0 && text[0] > '\u{7f}' && trim(text).len() == 0
}

/// Why a text of white space alone is no dependency specifier.
pub open spec fn blank_message(text: Seq<char>) -> Seq<char> {
    "Empty field is not allowed for PEP508\n"@ + text + "\n^"@
}

/// Whether a text can be given to the reader of dependency specifiers.
pub open spec fn is_readable(text: Seq<char>) -> bool {
    !is_wide_blank(text) && !needs_root(text)
}

/// Whether a text spells no marker, as no semicolon stands in it.
pub open spec fn is_unmarked(text: Seq<char>) -> bool {
    first_of(text, ';') == text.len()
}

/// What the grammar of dependency specifiers makes of a fixed text: its
/// parts, or why it is no specifier.
pub uninterp spec fn pep508_parts(text: Seq<char>) -> Result<PartsView, Seq<char>>;

/// The spellings that the marker of the dependency specifier that a fixed
/// text spells may be given; the empty one is that of a marker that always
/// holds.
pub uninterp spec fn marker_spellings(text: Seq<char>) -> Set<Seq<char>>;

/// The normal forms that may be had of what is left, where the marker that
/// the second text spells holds, of the marker of the dependency specifier
/// that the first, fixed text spells. A text that spells no marker stands
/// for one that always holds. All of them mean the same where the second
/// marker holds; they differ in how a version is spelled and in how a range
/// of versions is put.
pub uninterp spec fn marker_forms(text: Seq<char>, assumption: Seq<char>) -> Set<FormView>;

/// The normal form of a marker that always holds.
pub open spec fn always_form() -> FormView {
    FormView { always: true, clauses: Seq::empty() }
}

/// Whether the marker of the dependency specifier that a fixed text spells
/// may be read as given: on each platform, as one of the normal forms of
/// what is left of it there. A text without a semicolon spells none.
pub open spec fn may_be_marker(text: Seq<char>, marker: MarkerView) -> bool {
    forall|p: Platform|
        {
            &&& marker_forms(text, known_text(p)).contains(#[trigger] marker.on(p))
            &&& is_unmarked(text) ==> marker.on(p) == always_form()
        }
}

/// `uv_pep508::Requirement::from_str`: the parts of the specifier that a
/// text spells, or the rendered error. The marker is taken off before the
/// specifier is rendered.
///
/// Variables of the environment are looked up in the URL and in the first
/// word of a text that does not start as a specifier does, so nothing is
/// said of a text that refers to one there. Looking up `${PROJECT_ROOT}`
/// panics where there is no current directory, and so does rendering the
/// error of a text that is white space alone and starts with white space
/// outside ASCII: such texts are left out.
#[verifier::external_body]
fn requirement_parts(text: &str) -> (r: Result<Parts, String>)
    requires
        is_readable(text@),
    ensures
        is_fixed(text@) ==> outcome(r) == pep508_parts(text@),
{
    Pep508::<VerbatimUrl>::from_str(text).map(|r| Pep508 { marker: MarkerTree::TRUE, ..r }).map(|r| Parts {
        name: r.name.to_string(),
        extras: r.extras.iter().map(|e| e.to_string()).collect(),
        versions: match &r.version_or_url {
            Some(uv_pep508::VersionOrUrl::VersionSpecifier(set)) => Some(set.to_string()),
            _ => None,
        },
        url: match &r.version_or_url {
            Some(uv_pep508::VersionOrUrl::Url(url)) => Some(url.to_string()),
            _ => None,
        },
        body: r.to_string(),
    }).map_err(|e| e.to_string())
}

/// `uv_pep508::MarkerTree::try_to_string`, on the marker of the dependency
/// specifier that a text spells: the spelling of the marker, empty for one
/// that always holds.
///
/// Equal markers share one diagram in a process, which keeps each version as
/// it was first spelled. So the spelling depends on what was read before: it
/// is one of a set that the text decides. A text without a semicolon spells
/// no marker.
///
/// Rendering a bound that is a version with a local label panics, and so may
/// counting on from the largest version number that can be read: texts whose
/// marker may come to either are left out.
#[verifier::external_body]
fn spell_marker(text: &str) -> (r: String)
    requires
        is_readable(text@),
        !has_formless_marker(text@),
    ensures
        is_fixed(text@) ==> marker_spellings(text@).contains(r@),
        is_unmarked(text@) ==> r@.len() == 0,
{
    let parsed = Pep508::<VerbatimUrl>::from_str(text);
    parsed.ok().and_then(|r| r.marker.try_to_string()).unwrap_or_default()
}

/// `uv_pep508::MarkerTree::restrict`, and `to_dnf` of what it gives, on the
/// marker of the dependency specifier that a text spells and the marker that
/// another text spells: what is left of the first where the second holds, in
/// disjunctive normal form. A text that spells no marker stands for one that
/// always holds.
///
/// Which of the normal forms of a marker comes depends on the spelling of the
/// versions in its diagram, and so on what was read before: it is one of a
/// set that the two texts decide. A text without a semicolon spells no
/// marker. The texts whose marker cannot be rendered are left out.
#[verifier::external_body]
fn read_marker(text: &str, assumption: &str) -> (r: NormalForm)
    requires
        is_readable(text@),
        !has_formless_marker(text@),
        !is_formless(assumption@),
    ensures
        is_fixed(text@) ==> marker_forms(text@, assumption@).contains(r.deep_view()),
        is_unmarked(text@) ==> r.deep_view() == always_form(),
{
    let tree = Pep508::<VerbatimUrl>::from_str(text).map(|r| r.marker).unwrap_or_default()
        .restrict(MarkerTree::from_str(assumption).unwrap_or_default());
    NormalForm { always: tree.is_true(), clauses: tree.to_dnf().iter().map(|clause| clause.iter().map(|e| match e {
        E::Version { specifier, .. } => Version(specifier.to_string()),
        E::VersionIn { versions, operator, .. } =>
            VersionIn(operator.to_string(), versions.iter().map(ToString::to_string).collect()),
        E::String { key, .. } => Other(key.to_string()),
        E::List { pair, .. } => Other(format!("{pair:?}")),
        E::Extra { .. } => Extra,
    }).collect()).collect() }
}

/// What is left, on a platform, of the marker of the dependency specifier
/// that a text spells.
fn marker_on(text: &str, platform: Platform) -> (r: NormalForm)
    requires
        is_readable(text@),
        !has_formless_marker(text@),
    ensures
        is_fixed(text@) ==> marker_forms(text@, known_text(platform)).contains(r.deep_view()),
        is_unmarked(text@) ==> r.deep_view() == always_form(),
{
    let known = (Assumption { platform }).text();
    proof {
        assumption_has_form(platform);
    }
    read_marker(text, known.as_str())
}

/// The marker of the dependency specifier that a text spells; one that
/// always holds where it spells none.
fn whole_marker(text: &str) -> (r: Marker)
    requires
        is_readable(text@),
        !has_formless_marker(text@),
    ensures
        is_fixed(text@) ==> may_be_marker(text@, r.deep_view()),
{
    Marker {
        form: marker_on(text, Platform::NoArch),
        linux_64: marker_on(text, Platform::Linux64),
        linux_aarch64: marker_on(text, Platform::LinuxAarch64),
        osx_64: marker_on(text, Platform::Osx64),
        osx_arm64: marker_on(text, Platform::OsxArm64),
        win_64: marker_on(text, Platform::Win64),
        win_arm64: marker_on(text, Platform::WinArm64),
    }
}

/// A marker as it is written: what follows the first semicolon.
pub open spec fn written_marker(text: Seq<char>) -> Seq<char> {
    trim(text.skip(first_of(text, ';') + 1))
}

/// The form of a marker that is kept as it is written: one clause, which
/// names it.
pub open spec fn written_form(marker: Seq<char>) -> FormView {
    FormView { always: false, clauses: seq![seq![LeafView::Other(marker)]] }
}

/// A marker that is kept as it is written, on every platform.
pub open spec fn kept_marker(marker: Seq<char>) -> MarkerView {
    MarkerView {
        form: written_form(marker),
        linux_64: written_form(marker),
        linux_aarch64: written_form(marker),
        osx_64: written_form(marker),
        osx_arm64: written_form(marker),
        win_64: written_form(marker),
        win_arm64: written_form(marker),
    }
}

fn as_written(marker: &str) -> (r: NormalForm)
    ensures
        r.deep_view() == written_form(marker@),
{
    let mut clause: Vec<MarkerLeaf> = Vec::new();
    clause.push(MarkerLeaf::Other(marker.to_owned()));
    assert(clause.deep_view() =~= seq![LeafView::Other(marker@)]);
    let mut clauses: Vec<Vec<MarkerLeaf>> = Vec::new();
    clauses.push(clause);
    assert(clauses.deep_view() =~= seq![seq![LeafView::Other(marker@)]]);
    NormalForm { always: false, clauses }
}

/// Keeps a marker as it is written.
pub fn keep_marker(marker: &str) -> (r: Marker)
    ensures
        r.deep_view() == kept_marker(marker@),
{
    Marker {
        form: as_written(marker),
        linux_64: as_written(marker),
        linux_aarch64: as_written(marker),
        osx_64: as_written(marker),
        osx_arm64: as_written(marker),
        win_64: as_written(marker),
        win_arm64: as_written(marker),
    }
}

/// The dependency specifier with the given parts, spelling of its marker and
/// marker, or why its version set is none.
pub open spec fn assembled(parts: PartsView, marker_text: Seq<char>, marker: MarkerView) -> Result<
    RequirementView,
    Seq<char>,
> {
    let whole = RequirementView {
        name: parts.name,
        extras: parts.extras,
        version_or_url: match parts.url {
            Some(url) => Some(SourceView::Url(url)),
            None => None,
        },
        marker,
        marker_text,
        text: if marker_text.len() == 0 {
            parts.body
        } else {
            parts.body + " ; "@ + marker_text
        },
    };
    match parts.versions {
        Some(spelled) => match specifiers_outcome(spelled) {
            Ok(specifiers) => Ok(
                RequirementView {
                    version_or_url: Some(SourceView::Versions(specifiers)),
                    ..whole
                },
            ),
            Err(message) => Err(message),
        },
        None => Ok(whole),
    }
}

/// Whether reading a fixed text may give the dependency specifier, or the
/// reason why it spells none: only the spelling of the marker, and which of
/// its normal forms it is given in, is open. A marker that may have no
/// normal form is kept as it is written.
pub open spec fn may_read(text: Seq<char>, read: ReadView) -> bool {
    if is_wide_blank(text) {
        read == Err::<RequirementView, Seq<char>>(blank_message(text))
    } else {
        match pep508_parts(text) {
            Err(message) => read == Err::<RequirementView, Seq<char>>(message),
            Ok(parts) => if has_formless_marker(text) {
                read == assembled(parts, written_marker(text), kept_marker(written_marker(text)))
            } else {
                exists|spelled: Seq<char>, marker: MarkerView|
                    may_spell(text, spelled) && #[trigger] may_be_marker(text, marker) && read
                        == #[trigger] assembled(parts, spelled, marker)
            },
        }
    }
}

/// Whether the marker of the dependency specifier that a fixed text spells
/// may be spelled as given.
pub open spec fn may_spell(text: Seq<char>, spelled: Seq<char>) -> bool {
    marker_spellings(text).contains(spelled) && (is_unmarked(text) ==> spelled.len() == 0)
}

/// Puts a dependency specifier together from its parts, the spelling of its
/// marker and its marker.
pub fn assemble(parts: Parts, marker_text: String, marker: Marker) -> (r: Result<
    Requirement,
    String,
>)
    ensures
        outcome(r) == assembled(parts.deep_view(), marker_text@, marker.deep_view()),
{
    let version_or_url = match parts.versions {
        Some(spelled) => match parse_specifiers(spelled.as_str()) {
            Ok(specifiers) => Some(VersionOrUrl::VersionSpecifier(specifiers)),
            Err(message) => return Err(message),
        },
        None => match parts.url {
            Some(url) => Some(VersionOrUrl::Url(url)),
            None => None,
        },
    };
    let text = if marker_text.as_str().is_empty() {
        parts.body
    } else {
        concat3(parts.body.as_str(), " ; ", marker_text.as_str())
    };
    Ok(
        Requirement {
            name: parts.name,
            extras: parts.extras,
            version_or_url,
            marker,
            marker_text,
            text,
        },
    )
}

/// The dependency specifier that a text which can be read spells, or why it
/// spells none.
fn read_requirement(text: &str) -> (r: Result<Requirement, String>)
    requires
        !needs_root(text@),
    ensures
        is_fixed(text@) ==> may_read(text@, outcome(r)),
{
    let cs = chars_of(text);
    if cs.len() > 0 && cs[0] > '\u{7f}' && trim_chars(&cs).len() == 0 {
        return Err(concat3("Empty field is not allowed for PEP508\n", text, "\n^"));
    }
    let parts = match requirement_parts(text) {
        Ok(parts) => parts,
        Err(message) => return Err(message),
    };
    if formless_marker(&cs) {
        let at: usize = first_index(&cs, ';');
        proof {
            semicolon_found(text@);
        }
        let rest = range_of(&cs, at + 1, cs.len());
        assert(rest@ =~= text@.skip(first_of(text@, ';') + 1));
        let written = string_of(&trim_chars(&rest));
        let marker = keep_marker(written.as_str());
        return assemble(parts, written, marker);
    }
    let spelled = spell_marker(text);
    let marker = whole_marker(text);
    assert(is_fixed(text@) ==> may_spell(text@, spelled@));
    assemble(parts, spelled, marker)
}

/// A marker that may have no normal form stands behind a semicolon.
proof fn semicolon_found(text: Seq<char>)
    requires
        has_formless_marker(text),
    ensures
        first_of(text, ';') < text.len(),
{
    let i = choose|i: int|
        0 <= i < text.len() && #[trigger] text[i] == ';' && is_formless(text.skip(i + 1));
    first_of_bound(text, ';', i);
}

/// Why a text that refers to the project root is no dependency specifier
/// where that is not known.
pub open spec fn rootless_message(text: Seq<char>) -> Seq<char> {
    "The project root is not known\n"@ + text
}

/// Whether reading a text may give the dependency specifier, or the reason
/// why it spells none, where the project root is the given directory or is
/// not known. What a text that refers to another variable of the environment
/// gives is left open.
pub open spec fn may_read_in(text: Seq<char>, root: Option<Seq<char>>, read: ReadView) -> bool {
    if !needs_root(text) {
        is_fixed(text) ==> may_read(text, read)
    } else if root is None || needs_root(rooted(text, root->0)) {
        read == Err::<RequirementView, Seq<char>>(rootless_message(text))
    } else {
        is_fixed(rooted(text, root->0)) ==> may_read(rooted(text, root->0), read)
    }
}

/// Whether reading a text may give the dependency specifier, or the reason
/// why it spells none.
pub open spec fn may_be_read(text: Seq<char>, read: ReadView) -> bool {
    &&& is_fixed(text) ==> may_read(text, read)
    &&& exists|root: Option<Seq<char>>| #[trigger] may_read_in(text, root, read)
}

/// The dependency specifier that a text spells, or why it spells none, where
/// the project root is the given directory or is not known.
pub fn parse_requirement_in(text: &str, root: &Option<String>) -> (r: Result<Requirement, String>)
    ensures
        may_read_in(text@, root.deep_view(), outcome(r)),
{
    let cs = chars_of(text);
    if !asks_for_root(&cs) {
        return read_requirement(text);
    }
    if let Some(dir) = root {
        let whole = put_root(&cs, dir.as_str());
        if !asks_for_root(&whole) {
            return read_requirement(string_of(&whole).as_str());
        }
    }
    Err(concat("The project root is not known\n", text))
}

/// `std::path::absolute` of `.`: the current directory, if there is one. It
/// is another in another process, so nothing is said of it.
#[verifier::external_body]
fn current_directory() -> (r: Option<String>) {
    std::path::absolute(".").ok().map(|path| path.to_string_lossy().into_owned())
}

/// The dependency specifier that a text spells, or why it spells none. The
/// project root is the current directory. What a text that refers to another
/// variable of the environment spells depends on the environment, and is left
/// open.
pub fn parse_requirement(text: &str) -> (r: Result<Requirement, String>)
    ensures
        may_be_read(text@, outcome(r)),
{
    let root = if asks_for_root(&chars_of(text)) {
        current_directory()
    } else {
        None
    };
    let r = parse_requirement_in(text, &root);
    proof {
        assert(may_read_in(text@, root.deep_view(), outcome(r)));
        if is_fixed(text@) {
            fixed_needs_no_root(text@);
        }
    }
    r
}

/// A text that refers to no variable does not refer to the project root.
proof fn fixed_needs_no_root(text: Seq<char>)
    requires
        is_fixed(text),
    ensures
        !needs_root(text),
{
    reveal_strlit("${PROJECT_ROOT}");
    reveal_strlit("${");
    let url = url_text(text);
    let word = unnamed_word(text);
    assert forall|s: Seq<char>| #[trigger] contains(s, "${PROJECT_ROOT}"@) implies contains(
        s,
        "${"@,
    ) by {
        let at = choose|at: int| holds_at(s, at, "${PROJECT_ROOT}"@);
        assert(s.subrange(at, at + 2) =~= s.subrange(at, at + 15).subrange(0, 2));
        assert("${PROJECT_ROOT}"@.subrange(0, 2) =~= "${"@);
        assert(holds_at(s, at, "${"@));
    }
}

/// What reading one requirement gave: the requirement, or why it is none.
pub type ReadView = Result<RequirementView, Seq<char>>;

/// Whether the outcomes may be those of reading the texts.
pub open spec fn are_read(texts: Seq<Seq<char>>, outcomes: Seq<ReadView>) -> bool {
    &&& outcomes.len() == texts.len()
    &&& forall|i: int| 0 <= i < texts.len() ==> may_be_read(texts[i], #[trigger] outcomes[i])
}

/// Reads every requirement.
pub fn read_all(texts: &Vec<String>) -> (r: Vec<Result<Requirement, String>>)
    ensures
        are_read(texts.deep_view(), read_views(r@)),
{
    let ghost all = texts.deep_view();
    let mut out: Vec<Result<Requirement, String>> = Vec::new();
    let mut i: usize = 0;
    while i < texts.len()
        invariant
            i <= texts.len(),
            all == texts.deep_view(),
            are_read(all.take(i as int), read_views(out@)),
        decreases texts.len() - i,
    {
        let one = parse_requirement(texts[i].as_str());
        let ghost before = read_views(out@);
        out.push(one);
        proof {
            assert(all[i as int] == texts@[i as int]@);
            let after = read_views(out@);
            assert forall|k: int| 0 <= k < i + 1 implies may_be_read(
                all.take(i + 1)[k],
                #[trigger] after[k],
            ) by {
                if k < i {
                    assert(after[k] == before[k]);
                    assert(all.take(i as int)[k] == all.take(i + 1)[k]);
                }
            }
        }
        i += 1;
    }
    assert(all.take(i as int) =~= all);
    out
}

/// A fixed text without a semicolon is read in one way only, and what it
/// spells applies everywhere.
pub proof fn unmarked_text_is_read_one_way(text: Seq<char>, a: ReadView, b: ReadView)
    requires
        is_unmarked(text),
        may_read(text, a),
        may_read(text, b),
    ensures
        a == b,
        a is Ok ==> forall|p: Platform| (#[trigger] a->Ok_0.marker.on(p)) == always_form(),
{
    if has_formless_marker(text) {
        semicolon_found(text);
    }
    if !is_wide_blank(text) && pep508_parts(text) is Ok {
        let parts = pep508_parts(text)->Ok_0;
        let (a_text, a_marker) = choose|spelled: Seq<char>, marker: MarkerView|
            may_spell(text, spelled) && #[trigger] may_be_marker(text, marker) && a
                == #[trigger] assembled(parts, spelled, marker);
        let (b_text, b_marker) = choose|spelled: Seq<char>, marker: MarkerView|
            may_spell(text, spelled) && #[trigger] may_be_marker(text, marker) && b
                == #[trigger] assembled(parts, spelled, marker);
        assert(a_text =~= b_text);
        assert(a_marker.on(Platform::NoArch) == b_marker.on(Platform::NoArch));
        assert(a_marker.on(Platform::Linux64) == b_marker.on(Platform::Linux64));
        assert(a_marker.on(Platform::LinuxAarch64) == b_marker.on(Platform::LinuxAarch64));
        assert(a_marker.on(Platform::Osx64) == b_marker.on(Platform::Osx64));
        assert(a_marker.on(Platform::OsxArm64) == b_marker.on(Platform::OsxArm64));
        assert(a_marker.on(Platform::Win64) == b_marker.on(Platform::Win64));
        assert(a_marker.on(Platform::WinArm64) == b_marker.on(Platform::WinArm64));
    }
}

/// A dependency specifier keeps its parts: the name, the extras, the marker
/// and its spelling, the URL, or the versions that their text spells. Its own
/// spelling is that of its parts and, behind a semicolon, of its marker if
/// that has one. It is refused exactly where its versions are none.
pub proof fn parts_are_kept(parts: PartsView, marker_text: Seq<char>, marker: MarkerView)
    ensures
        assembled(parts, marker_text, marker) is Err <==> parts.versions is Some
            && specifiers_outcome(parts.versions->0) is Err,
        assembled(parts, marker_text, marker) is Err ==> assembled(
            parts,
            marker_text,
            marker,
        )->Err_0 == specifiers_outcome(parts.versions->0)->Err_0,
        assembled(parts, marker_text, marker) is Ok ==> {
            let whole = assembled(parts, marker_text, marker)->Ok_0;
            &&& whole.name == parts.name
            &&& whole.extras == parts.extras
            &&& whole.marker == marker
            &&& whole.marker_text == marker_text
            &&& marker_text.len() == 0 ==> whole.text == parts.body
            &&& marker_text.len() > 0 ==> whole.text == parts.body + " ; "@ + marker_text
            &&& parts.versions is Some ==> whole.version_or_url == Some(
                SourceView::Versions(specifiers_outcome(parts.versions->0)->Ok_0),
            )
            &&& parts.versions is None && parts.url is Some ==> whole.version_or_url == Some(
                SourceView::Url(parts.url->0),
            )
            &&& parts.versions is None && parts.url is None ==> whole.version_or_url is None
        },
{
}

/// A marker says on each platform that packages are installed onto what is
/// left of it there, and all of it on any other.
pub proof fn platforms_have_their_own_form(marker: MarkerView, platform: Platform)
    ensures
        marker.on(Platform::Linux64) == marker.linux_64,
        marker.on(Platform::LinuxAarch64) == marker.linux_aarch64,
        marker.on(Platform::Osx64) == marker.osx_64,
        marker.on(Platform::OsxArm64) == marker.osx_arm64,
        marker.on(Platform::Win64) == marker.win_64,
        marker.on(Platform::WinArm64) == marker.win_arm64,
        !(platform is Linux64 || platform is LinuxAarch64 || platform is Osx64
            || platform is OsxArm64 || platform is Win64 || platform is WinArm64) ==> marker.on(
            platform,
        ) == marker.form,
{
}

/// A marker that is kept as it is written is, on every platform, one clause
/// that names it.
pub proof fn kept_marker_names_itself(marker: Seq<char>, platform: Platform)
    ensures
        ({
            let form = kept_marker(marker).on(platform);
            &&& !form.always
            &&& form.clauses.len() == 1
            &&& form.clauses[0].len() == 1
            &&& form.clauses[0][0] == LeafView::Other(marker)
        }),
{
}

/// The marker of a specifier, as it is written, is what follows its first
/// semicolon, trimmed.
pub proof fn marker_follows_the_semicolon(body: Seq<char>, marker: Seq<char>)
    requires
        crate::text::lacks(body, ';'),
    ensures
        written_marker(body.push(';') + marker) == trim(marker),
    decreases body.len(),
{
    let text = body.push(';') + marker;
    crate::text::first_of_is_first(text, ';');
    let n = first_of(text, ';');
    assert(text[body.len() as int] == ';');
    assert(n == body.len()) by {
        if n < body.len() {
            assert(body[n] == text[n]);
        }
    }
    assert(text.skip(n + 1) =~= marker);
}

/// A text of wide white space alone, and one that refers to a project root
/// that is not known, are refused with messages that quote them.
pub proof fn refusals_quote_the_text(text: Seq<char>, read: ReadView)
    ensures
        (text.len() > 0 && text[0] > '\u{7f}' && (forall|i: int|
            0 <= i < text.len() ==> crate::text::is_space(#[trigger] text[i])) && may_read(
            text,
            read,
        )) ==> read == Err::<RequirementView, Seq<char>>(
            "Empty field is not allowed for PEP508\n"@ + text + "\n^"@,
        ),
        needs_root(text) && may_read_in(text, None, read) ==> read == Err::<
            RequirementView,
            Seq<char>,
        >("The project root is not known\n"@ + text),
{
    crate::text::trim_is_the_middle(text);
}

/// What a specifier is seen as holds each of its parts.
pub proof fn requirement_view_holds_all(
    requirement: Requirement,
    parts: Parts,
    marker: Marker,
    form: NormalForm,
)
    ensures
        requirement.deep_view().name == requirement.name@,
        requirement.deep_view().extras == requirement.extras.deep_view(),
        requirement.deep_view().version_or_url == requirement.version_or_url.deep_view(),
        requirement.deep_view().marker == requirement.marker.deep_view(),
        requirement.deep_view().marker_text == requirement.marker_text@,
        requirement.deep_view().text == requirement.text@,
        parts.deep_view().name == parts.name@,
        parts.deep_view().extras == parts.extras.deep_view(),
        parts.deep_view().versions == parts.versions.deep_view(),
        parts.deep_view().url == parts.url.deep_view(),
        parts.deep_view().body == parts.body@,
        marker.deep_view().form == marker.form.deep_view(),
        marker.deep_view().linux_64 == marker.linux_64.deep_view(),
        marker.deep_view().linux_aarch64 == marker.linux_aarch64.deep_view(),
        marker.deep_view().osx_64 == marker.osx_64.deep_view(),
        marker.deep_view().osx_arm64 == marker.osx_arm64.deep_view(),
        marker.deep_view().win_64 == marker.win_64.deep_view(),
        marker.deep_view().win_arm64 == marker.win_arm64.deep_view(),
        form.deep_view().always == form.always,
        form.deep_view().clauses == form.clauses.deep_view(),
{
}

} // verus!
