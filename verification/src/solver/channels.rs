//! The channels that channel names stand for. The name `defaults` stands for
//! several: the main and R channels, and on Windows the MSYS2 one.

use crate::conda::names_no_path;
use crate::pep440::outcome;
use crate::platform::Platform;
use crate::solver::error::Error;
use crate::text::{begins, concat3, contains, same};
use rattler_conda_types::ChannelConfig;
use std::path::PathBuf;
use vstd::prelude::*;
use vstd::string::*;

verus! {

/// The name that stands for the default channels.
pub const DEFAULTS_ALIAS: &'static str = "defaults";

/// Where the default channels are.
pub const DEFAULTS_BASE_URL: &'static str = "https://repo.anaconda.com/pkgs";

/// A channel: where it is, its name, and the platforms it is limited to.
#[derive(Debug, Clone, PartialEq, Eq)]
pub struct Channel {
    pub base_url: String,
    pub name: Option<String>,
    pub platforms: Option<Vec<String>>,
}

/// A channel as mathematical values.
pub struct ChannelView {
    pub base_url: Seq<char>,
    pub name: Option<Seq<char>>,
    pub platforms: Option<Seq<Seq<char>>>,
}

impl DeepView for Channel {
    type V = ChannelView;

    open spec fn deep_view(&self) -> ChannelView {
        ChannelView {
            base_url: self.base_url@,
            name: self.name.deep_view(),
            platforms: self.platforms.deep_view(),
        }
    }
}

/// The channel that a name or URL that is no path stands for, or why it
/// stands for none.
pub uninterp spec fn named_channel(name: Seq<char>) -> Result<ChannelView, Seq<char>>;

/// The channel that a name stands for which may be a path, but none in the
/// home directory, where paths start at a root directory, or why it stands
/// for none.
pub uninterp spec fn local_channel(name: Seq<char>, root_dir: Seq<char>) -> Result<
    ChannelView,
    Seq<char>,
>;

/// The channel at a URL, or why it is none.
pub uninterp spec fn channel_at(url: Seq<char>) -> Result<ChannelView, Seq<char>>;

/// Whether what a channel's name stands for does not depend on the file
/// system: it is a URL, or names no path.
pub open spec fn is_not_local(name: Seq<char>) -> bool {
    contains(name, "://"@) || names_no_path(name)
}

/// `rattler_conda_types::Channel::from_str` with the default alias and a
/// root directory: the channel that a name stands for, or the rendered
/// error. A path is joined to the root directory. One that starts with `~/`
/// is joined to the home directory, so nothing is said of such a name.
#[verifier::external_body]
fn channel_named(name: &str, root_dir: &str) -> (r: Result<Channel, String>)
    ensures
        is_not_local(name@) ==> outcome(r) == named_channel(name@),
        !is_not_local(name@) && !begins(name@, "~/"@) ==> outcome(r) == local_channel(
            name@,
            root_dir@,
        ),
{
    let config = ChannelConfig::default_with_root_dir(PathBuf::from(root_dir));
    rattler_conda_types::Channel::from_str(name, &config)
        .map(|c| Channel {
            base_url: c.base_url.as_str().to_owned(),
            name: c.name,
            platforms: c.platforms.map(|list| list.iter().map(|p| p.to_string()).collect()),
        })
        .map_err(|e| e.to_string())
}

/// `url::Url::parse`, and `rattler_conda_types::Channel::from_url`: the
/// channel at a URL, or the rendered error.
#[verifier::external_body]
fn channel_from_url(url: &str) -> (r: Result<Channel, String>)
    ensures
        outcome(r) == channel_at(url@),
{
    url::Url::parse(url)
        .map(rattler_conda_types::Channel::from_url)
        .map(|c| Channel {
            base_url: c.base_url.as_str().to_owned(),
            name: c.name,
            platforms: c.platforms.map(|list| list.iter().map(|p| p.to_string()).collect()),
        })
        .map_err(|e| e.to_string())
}

/// Whether a platform is a Windows one.
pub open spec fn is_windows(platform: Platform) -> bool {
    platform is Win32 || platform is Win64 || platform is WinArm64
}

/// The names of the default channels for a platform.
pub open spec fn default_names(platform: Platform) -> Seq<Seq<char>> {
    if is_windows(platform) {
        seq!["main"@, "r"@, "msys2"@]
    } else {
        seq!["main"@, "r"@]
    }
}

/// The names of the default channels for a platform.
pub fn defaults_subchannels(platform: Platform) -> (r: Vec<String>)
    ensures
        r.deep_view() == default_names(platform),
{
    let mut out: Vec<String> = Vec::new();
    out.push("main".to_owned());
    out.push("r".to_owned());
    match platform {
        Platform::Win32 | Platform::Win64 | Platform::WinArm64 => {
            out.push("msys2".to_owned());
        },
        _ => {},
    }
    assert(out.deep_view() =~= default_names(platform));
    out
}

/// Where a default channel is.
pub open spec fn default_url(name: Seq<char>) -> Seq<char> {
    DEFAULTS_BASE_URL@ + "/"@ + name
}

/// What to find one channel by: one of the defaults by its URL, or any other
/// by its name.
#[derive(Debug)]
pub enum Lookup {
    Default(String),
    Named(String),
}

/// What to find one channel by, as mathematical values.
pub enum LookupView {
    Default(Seq<char>),
    Named(Seq<char>),
}

impl DeepView for Lookup {
    type V = LookupView;

    open spec fn deep_view(&self) -> LookupView {
        match self {
            Lookup::Default(name) => LookupView::Default(name@),
            Lookup::Named(name) => LookupView::Named(name@),
        }
    }
}

/// The default channels with the given names.
pub open spec fn default_lookups(names: Seq<Seq<char>>) -> Seq<LookupView> {
    names.map_values(|n: Seq<char>| LookupView::Default(n))
}

/// What a name asks for.
pub open spec fn lookups_of(name: Seq<char>, platform: Platform) -> Seq<LookupView> {
    if name == DEFAULTS_ALIAS@ {
        default_lookups(default_names(platform))
    } else {
        seq![LookupView::Named(name)]
    }
}

/// What names ask for, in order.
pub open spec fn all_lookups(names: Seq<Seq<char>>, platform: Platform) -> Seq<LookupView>
    decreases names.len(),
{
    if names.len() == 0 {
        Seq::empty()
    } else {
        all_lookups(names.drop_last(), platform) + lookups_of(names.last(), platform)
    }
}

fn push_defaults(out: &mut Vec<Lookup>, names: Vec<String>)
    ensures
        final(out).deep_view() == old(out).deep_view() + default_lookups(names.deep_view()),
{
    let ghost before = out.deep_view();
    let ghost more = default_lookups(names.deep_view());
    let mut i: usize = 0;
    assert(out.deep_view() =~= before + more.take(0));
    while i < names.len()
        invariant
            i <= names.len(),
            more == default_lookups(names.deep_view()),
            out.deep_view() == before + more.take(i as int),
        decreases names.len() - i,
    {
        let ghost done = out.deep_view();
        let one = Lookup::Default(names[i].clone());
        assert(more[i as int] == one.deep_view());
        out.push(one);
        i += 1;
        assert(out.deep_view() =~= done.push(one.deep_view()));
        assert(out.deep_view() =~= before + more.take(i as int));
    }
    assert(more.take(i as int) =~= more);
}

/// What names ask for, in order.
pub fn plan_lookups(names: &Vec<String>, platform: Platform) -> (r: Vec<Lookup>)
    ensures
        r.deep_view() == all_lookups(names.deep_view(), platform),
{
    let ghost all = names.deep_view();
    let mut out: Vec<Lookup> = Vec::new();
    let mut i: usize = 0;
    assert(out.deep_view() =~= all_lookups(all.take(0), platform));
    while i < names.len()
        invariant
            i <= names.len(),
            all == names.deep_view(),
            out.deep_view() == all_lookups(all.take(i as int), platform),
        decreases names.len() - i,
    {
        assert(all.take(i + 1).drop_last() =~= all.take(i as int));
        assert(all.take(i + 1).last() == names@[i as int]@);
        if same(names[i].as_str(), DEFAULTS_ALIAS) {
            push_defaults(&mut out, defaults_subchannels(platform));
        } else {
            let ghost done = out.deep_view();
            let one = Lookup::Named(names[i].clone());
            out.push(one);
            assert(out.deep_view() =~= done + seq![one.deep_view()]);
        }
        i += 1;
    }
    assert(all.take(i as int) =~= all);
    out
}

/// What finding a channel gave: the channel, or why there is none.
pub type FoundView = Result<ChannelView, Seq<char>>;

/// Whether `found` is what a lookup gives. What a path in the home directory
/// gives is left open.
pub open spec fn answers(lookup: LookupView, root_dir: Seq<char>, found: FoundView) -> bool {
    match lookup {
        LookupView::Default(name) => found == channel_at(default_url(name)),
        LookupView::Named(name) => if is_not_local(name) {
            found == named_channel(name)
        } else {
            begins(name, "~/"@) || found == local_channel(name, root_dir)
        },
    }
}

/// Whether the results are those of the lookups.
pub open spec fn all_answered(
    lookups: Seq<LookupView>,
    root_dir: Seq<char>,
    found: Seq<FoundView>,
) -> bool {
    found.len() == lookups.len() && forall|i: int|
        0 <= i < lookups.len() ==> answers(lookups[i], root_dir, #[trigger] found[i])
}

/// Some result that a lookup may give.
spec fn some_answer(lookup: LookupView, root_dir: Seq<char>) -> FoundView {
    match lookup {
        LookupView::Default(name) => channel_at(default_url(name)),
        LookupView::Named(name) => if is_not_local(name) {
            named_channel(name)
        } else {
            local_channel(name, root_dir)
        },
    }
}

/// The name that a lookup is reported under.
pub open spec fn lookup_name(lookup: LookupView) -> Seq<char> {
    match lookup {
        LookupView::Default(name) => name,
        LookupView::Named(name) => name,
    }
}

/// All channels found, or the name and the reason of the first that was not.
pub open spec fn collected(lookups: Seq<LookupView>, found: Seq<FoundView>) -> Result<
    Seq<ChannelView>,
    (Seq<char>, Seq<char>),
>
    decreases found.len(),
{
    if found.len() == 0 {
        Ok(Seq::empty())
    } else {
        match (collected(lookups, found.drop_last()), found.last()) {
            (Ok(before), Ok(channel)) => Ok(before.push(channel)),
            (Ok(_), Err(source)) => Err((lookup_name(lookups[found.len() - 1]), source)),
            (Err(error), _) => Err(error),
        }
    }
}

proof fn collected_error_first(lookups: Seq<LookupView>, found: Seq<FoundView>, n: int)
    requires
        0 <= n <= found.len(),
        collected(lookups, found.take(n)) is Err,
    ensures
        collected(lookups, found) == collected(lookups, found.take(n)),
    decreases found.len() - n,
{
    if n < found.len() {
        assert(found.take(n + 1).drop_last() =~= found.take(n));
        collected_error_first(lookups, found, n + 1);
    } else {
        assert(found.take(n) =~= found);
    }
}

/// The view of what names stand for.
pub open spec fn resolved_view(r: Result<Vec<Channel>, Error>) -> Option<
    Result<Seq<ChannelView>, (Seq<char>, Seq<char>)>,
> {
    match r {
        Ok(channels) => Some(Ok(channels.deep_view())),
        Err(Error::Channel { name, source }) => Some(Err((name@, source@))),
        Err(_) => None,
    }
}

fn find(lookup: &Lookup, root_dir: &str) -> (r: Result<Channel, String>)
    ensures
        answers(lookup.deep_view(), root_dir@, outcome(r)),
{
    match lookup {
        Lookup::Default(name) => {
            let url = concat3(DEFAULTS_BASE_URL, "/", name.as_str());
            channel_from_url(url.as_str())
        },
        Lookup::Named(name) => channel_named(name.as_str(), root_dir),
    }
}

/// The channels that names stand for on a platform, in order, or why the
/// first that stands for none does not.
pub fn resolve(names: &Vec<String>, root_dir: &str, platform: Platform) -> (r: Result<
    Vec<Channel>,
    Error,
>)
    ensures
        exists|found: Seq<FoundView>|
            #![trigger all_answered(all_lookups(names.deep_view(), platform), root_dir@, found)]
            all_answered(all_lookups(names.deep_view(), platform), root_dir@, found)
                && resolved_view(r) == Some(
                collected(all_lookups(names.deep_view(), platform), found),
            ),
{
    let lookups = plan_lookups(names, platform);
    let ghost all = lookups.deep_view();
    let ghost mut found: Seq<FoundView> = Seq::empty();
    let mut channels: Vec<Channel> = Vec::new();
    let mut i: usize = 0;
    assert(channels.deep_view() =~= Seq::empty());
    while i < lookups.len()
        invariant
            i <= lookups.len(),
            all == lookups.deep_view(),
            all == all_lookups(names.deep_view(), platform),
            found.len() == i,
            forall|k: int| 0 <= k < i ==> answers(all[k], root_dir@, #[trigger] found[k]),
            collected(all, found) == Ok::<Seq<ChannelView>, (Seq<char>, Seq<char>)>(
                channels.deep_view(),
            ),
        decreases lookups.len() - i,
    {
        assert(all[i as int] == lookups@[i as int].deep_view());
        let one = find(&lookups[i], root_dir);
        let ghost longer = found.push(outcome(one));
        assert(longer.drop_last() =~= found);
        match one {
            Ok(channel) => {
                let ghost done = channels.deep_view();
                channels.push(channel);
                assert(channels.deep_view() =~= done.push(channel.deep_view()));
            },
            Err(source) => {
                let name = match &lookups[i] {
                    Lookup::Default(name) => name.clone(),
                    Lookup::Named(name) => name.clone(),
                };
                proof {
                    let whole = longer + Seq::new(
                        (all.len() - longer.len()) as nat,
                        |k: int| some_answer(all[longer.len() + k], root_dir@),
                    );
                    assert(whole.take(i + 1) =~= longer);
                    collected_error_first(all, whole, i + 1);
                    assert forall|k: int| 0 <= k < all.len() implies answers(
                        all[k],
                        root_dir@,
                        #[trigger] whole[k],
                    ) by {
                        if k < longer.len() {
                            assert(whole[k] == longer[k]);
                            if k < i {
                                assert(longer[k] == found[k]);
                            }
                        }
                    }
                    assert(all_answered(all, root_dir@, whole));
                }
                return Err(Error::Channel { name, source });
            },
        }
        proof {
            found = longer;
        }
        i += 1;
    }
    assert(all_answered(all, root_dir@, found));
    Ok(channels)
}

/// Names are looked up one after the other, each on its own.
pub proof fn lookups_append(names: Seq<Seq<char>>, more: Seq<Seq<char>>, platform: Platform)
    ensures
        all_lookups(names + more, platform) == all_lookups(names, platform) + all_lookups(
            more,
            platform,
        ),
    decreases more.len(),
{
    if more.len() == 0 {
        assert(names + more =~= names);
    } else {
        lookups_append(names, more.drop_last(), platform);
        assert((names + more).drop_last() =~= names + more.drop_last());
    }
}

proof fn collected_channels(lookups: Seq<LookupView>, found: Seq<FoundView>)
    requires
        collected(lookups, found) is Ok,
    ensures
        collected(lookups, found)->Ok_0.len() == found.len(),
        forall|i: int|
            0 <= i < found.len() ==> found[i] == Ok::<ChannelView, Seq<char>>(
                #[trigger] collected(lookups, found)->Ok_0[i],
            ),
    decreases found.len(),
{
    if found.len() > 0 {
        let rest = found.drop_last();
        collected_channels(lookups, rest);
        let all = collected(lookups, found)->Ok_0;
        let front = collected(lookups, rest)->Ok_0;
        assert forall|i: int| 0 <= i < found.len() implies found[i] == Ok::<
            ChannelView,
            Seq<char>,
        >(#[trigger] all[i]) by {
            if i < rest.len() {
                assert(all[i] == front[i]);
                assert(rest[i] == found[i]);
            }
        }
    }
}

/// Where every lookup gives a channel, the channels are those, in order.
pub proof fn channels_in_order(
    lookups: Seq<LookupView>,
    root_dir: Seq<char>,
    found: Seq<FoundView>,
)
    requires
        all_answered(lookups, root_dir, found),
        collected(lookups, found) is Ok,
    ensures
        collected(lookups, found)->Ok_0.len() == lookups.len(),
        forall|i: int|
            0 <= i < found.len() ==> found[i] == Ok::<ChannelView, Seq<char>>(
                #[trigger] collected(lookups, found)->Ok_0[i],
            ),
{
    collected_channels(lookups, found);
}

/// The name `defaults` asks for the main and R channels and, on Windows, the
/// MSYS2 one; any other name asks for itself.
pub proof fn names_ask_for(names: Seq<Seq<char>>, name: Seq<char>, platform: Platform)
    ensures
        name == "defaults"@ && (platform is Win32 || platform is Win64 || platform is WinArm64)
            ==> all_lookups(names.push(name), platform) == all_lookups(names, platform) + seq![
            LookupView::Default("main"@),
            LookupView::Default("r"@),
            LookupView::Default("msys2"@),
        ],
        name == "defaults"@ && !(platform is Win32 || platform is Win64 || platform is WinArm64)
            ==> all_lookups(names.push(name), platform) == all_lookups(names, platform) + seq![
            LookupView::Default("main"@),
            LookupView::Default("r"@),
        ],
        name != "defaults"@ ==> all_lookups(names.push(name), platform) == all_lookups(
            names,
            platform,
        ).push(LookupView::Named(name)),
        all_lookups(Seq::empty(), platform).len() == 0,
{
    assert(names.push(name).drop_last() =~= names);
    let windows = platform is Win32 || platform is Win64 || platform is WinArm64;
    if name == "defaults"@ {
        if windows {
            assert(lookups_of(name, platform) =~= seq![
                LookupView::Default("main"@),
                LookupView::Default("r"@),
                LookupView::Default("msys2"@),
            ]);
        } else {
            assert(lookups_of(name, platform) =~= seq![
                LookupView::Default("main"@),
                LookupView::Default("r"@),
            ]);
        }
    } else {
        assert(all_lookups(names.push(name), platform) =~= all_lookups(names, platform).push(
            LookupView::Named(name),
        ));
    }
}

/// A default channel is found under its name in the default repository, and
/// any other by its name, or by its path from the root directory where it is
/// one.
pub proof fn channels_are_found(name: Seq<char>, root_dir: Seq<char>, found: FoundView)
    ensures
        answers(LookupView::Default(name), root_dir, found) <==> found == channel_at(
            "https://repo.anaconda.com/pkgs/"@ + name,
        ),
        (!name.contains('/') && !name.contains('\\') && !(exists|i: int|
            0 < i < name.len() && name[i - 1] == '.' && #[trigger] name[i] == '.')) ==> (answers(
            LookupView::Named(name),
            root_dir,
            found,
        ) <==> found == named_channel(name)),
        (exists|i: int|
            0 <= i && i + 2 < name.len() && #[trigger] name[i] == ':' && name[i + 1] == '/'
                && name[i + 2] == '/') ==> (answers(LookupView::Named(name), root_dir, found)
            <==> found == named_channel(name)),
        (name.contains('/') || name.contains('\\')) && !name.contains(':') && !(name.len() > 0
            && name[0] == '~') ==> (answers(LookupView::Named(name), root_dir, found) <==> found
            == local_channel(name, root_dir)),
{
    reveal_strlit("https://repo.anaconda.com/pkgs");
    reveal_strlit("https://repo.anaconda.com/pkgs/");
    reveal_strlit("/");
    reveal_strlit("://");
    reveal_strlit("..");
    reveal_strlit("~/");
    assert("https://repo.anaconda.com/pkgs"@ + "/"@ =~= "https://repo.anaconda.com/pkgs/"@);
    if contains(name, ".."@) {
        let at = choose|at: int| crate::text::holds_at(name, at, ".."@);
        assert(name.subrange(at, at + 2)[0] == '.');
        assert(name.subrange(at, at + 2)[1] == '.');
        assert(name[at + 1] == '.');
    }
    if exists|i: int|
        0 <= i && i + 2 < name.len() && #[trigger] name[i] == ':' && name[i + 1] == '/' && name[i
            + 2] == '/' {
        let i = choose|i: int|
            0 <= i && i + 2 < name.len() && #[trigger] name[i] == ':' && name[i + 1] == '/'
                && name[i + 2] == '/';
        assert(name.subrange(i, i + 3) =~= "://"@);
        assert(crate::text::holds_at(name, i, "://"@));
    }
    if contains(name, "://"@) {
        let at = choose|at: int| crate::text::holds_at(name, at, "://"@);
        assert(name.subrange(at, at + 3)[0] == ':');
        assert(name[at] == ':');
    }
    if begins(name, "~/"@) {
        assert(name.subrange(0, 2)[0] == '~');
    }
}

/// Where every lookup gives a channel, there are channels; otherwise the
/// first that gives none is reported, by the name it was asked for under.
pub proof fn first_missing_channel_is_named(
    lookups: Seq<LookupView>,
    found: Seq<FoundView>,
    n: int,
)
    requires
        0 <= n <= found.len(),
        forall|i: int| 0 <= i < n ==> (#[trigger] found[i]) is Ok,
        n < found.len() ==> found[n] is Err,
    ensures
        n == found.len() ==> collected(lookups, found) is Ok,
        n < found.len() ==> collected(lookups, found) is Err && collected(lookups, found)->Err_0.1
            == found[n]->Err_0 && match lookups[n] {
            LookupView::Default(name) => collected(lookups, found)->Err_0.0 == name,
            LookupView::Named(name) => collected(lookups, found)->Err_0.0 == name,
        },
    decreases found.len(),
{
    if found.len() > 0 {
        let rest = found.drop_last();
        if n < found.len() {
            if n < rest.len() {
                assert(rest[n] == found[n]);
            }
            assert forall|i: int| 0 <= i < n implies (#[trigger] rest[i]) is Ok by {
                assert(rest[i] == found[i]);
            }
            first_missing_channel_is_named(lookups, rest, n);
        } else {
            assert forall|i: int| 0 <= i < rest.len() implies (#[trigger] rest[i]) is Ok by {
                assert(rest[i] == found[i]);
            }
            first_missing_channel_is_named(lookups, rest, n - 1);
            assert(found[n - 1] is Ok);
        }
    }
}

} // verus!
