//! When the cached mapping is used as it is, refreshed in the background or
//! refreshed at once, and what a refresh does with the answers it gets.

use crate::conda_map::envelope::{CacheEnvelope, EnvelopeView, SCHEMA_VERSION};
use crate::conda_map::error::{FetchError, FetchErrorView};
use crate::conda_map::fetch::{fetched_view, FetchedMapping, FetchedView};
use crate::conda_map::http::{HeadResponse, HttpError, HttpErrorView};
use crate::data::Duplicate;
use vstd::prelude::*;
use vstd::string::*;

verus! {

/// How many attempts may fail in a row before the next has to wait.
pub const BACKOFF_BUDGET: u32 = 10;

/// How long it has to wait, in seconds.
pub const BACKOFF_COOLDOWN: u64 = 3_600;

/// How long a mapping is used without asking for a newer one, in seconds.
pub const FRESH_WINDOW: u64 = 86_400;

/// How long a mapping is used while asking for a newer one, in seconds.
pub const STALE_WINDOW: u64 = 604_800;

/// What to do about the cached mapping.
#[derive(Debug, Clone, Copy, PartialEq, Eq, Structural)]
pub enum Action {
    /// Use it.
    UseCached,
    /// Use it, and refresh it in the background.
    UseCachedAndRefreshInBackground,
    /// Refresh it before anything else.
    BlockingRefresh,
}

/// How many seconds lie between two times; none where the first is later.
pub open spec fn elapsed(since: u64, now: u64) -> int {
    if now >= since {
        now - since
    } else {
        0
    }
}

/// Whether so many attempts have failed that the next has to wait still.
pub open spec fn is_backed_off(env: EnvelopeView, now: u64) -> bool {
    env.consecutive_failures >= BACKOFF_BUDGET && elapsed(
        match env.last_attempt_at {
            Some(at) => at,
            None => 0,
        },
        now,
    ) < BACKOFF_COOLDOWN
}

/// What to do about the cached mapping. A mapping that was never known to
/// be current is as good as none.
pub open spec fn action_for(
    env: Option<EnvelopeView>,
    now: u64,
    allow_stale_mapping: bool,
    force_refresh: bool,
) -> Action {
    if force_refresh || env is None || env->0.last_checked_at is None {
        Action::BlockingRefresh
    } else {
        let age = elapsed(env->0.last_checked_at->0, now);
        if age < FRESH_WINDOW {
            Action::UseCached
        } else if age < STALE_WINDOW || allow_stale_mapping {
            if is_backed_off(env->0, now) {
                Action::UseCached
            } else {
                Action::UseCachedAndRefreshInBackground
            }
        } else {
            Action::BlockingRefresh
        }
    }
}

/// The view of an optional envelope.
pub open spec fn envelope_view(env: Option<&CacheEnvelope>) -> Option<EnvelopeView> {
    match env {
        Some(e) => Some(e.deep_view()),
        None => None,
    }
}

fn backed_off(env: &CacheEnvelope, now: u64) -> (r: bool)
    ensures
        r == is_backed_off(env.deep_view(), now),
{
    if env.consecutive_failures < BACKOFF_BUDGET {
        return false;
    }
    let last_attempt: u64 = match env.last_attempt_at {
        Some(at) => at,
        None => 0,
    };
    now.saturating_sub(last_attempt) < BACKOFF_COOLDOWN
}

/// Decides what to do about the cached mapping.
pub fn decide(
    envelope: Option<&CacheEnvelope>,
    now: u64,
    allow_stale_mapping: bool,
    force_refresh: bool,
) -> (r: Action)
    ensures
        r == action_for(envelope_view(envelope), now, allow_stale_mapping, force_refresh),
{
    if force_refresh {
        return Action::BlockingRefresh;
    }
    let env = match envelope {
        Some(env) => env,
        None => return Action::BlockingRefresh,
    };
    let last_checked_at: u64 = match env.last_checked_at {
        Some(at) => at,
        None => return Action::BlockingRefresh,
    };
    let age: u64 = now.saturating_sub(last_checked_at);
    if age < FRESH_WINDOW {
        return Action::UseCached;
    }
    if age < STALE_WINDOW || allow_stale_mapping {
        if backed_off(env, now) {
            return Action::UseCached;
        }
        return Action::UseCachedAndRefreshInBackground;
    }
    Action::BlockingRefresh
}

/// What a refresh that succeeded did.
#[derive(Debug, Clone, Copy, PartialEq, Eq, Structural)]
pub enum RefreshSuccess {
    /// The cached mapping is current.
    ConfirmedFresh,
    /// A newer mapping was downloaded.
    Updated,
}

/// Why a refresh failed.
#[derive(Debug, Clone, PartialEq, Eq)]
pub enum RefreshFailure {
    /// The cache lock could not be taken, and why.
    LockFailed(String),
    /// The cached mapping could not be checked.
    CheckFailed(FetchError),
    /// The newer mapping could not be downloaded.
    DownloadFailed(FetchError),
}

/// Why a refresh failed, as mathematical values.
pub enum RefreshFailureView {
    LockFailed(Seq<char>),
    CheckFailed(FetchErrorView),
    DownloadFailed(FetchErrorView),
}

impl DeepView for RefreshFailure {
    type V = RefreshFailureView;

    open spec fn deep_view(&self) -> RefreshFailureView {
        match self {
            RefreshFailure::LockFailed(message) => RefreshFailureView::LockFailed(message@),
            RefreshFailure::CheckFailed(error) => RefreshFailureView::CheckFailed(
                error.deep_view(),
            ),
            RefreshFailure::DownloadFailed(error) => RefreshFailureView::DownloadFailed(
                error.deep_view(),
            ),
        }
    }
}

/// What a refresh did, in short.
#[derive(Debug, Clone, Copy, PartialEq, Eq, Structural)]
pub enum RefreshOutcome {
    /// There was none.
    NotNeeded,
    ConfirmedFresh,
    Updated,
    LockFailed,
    CheckFailed,
    DownloadFailed,
}

/// How a refresh ended.
pub type RefreshResult = Result<(CacheEnvelope, RefreshSuccess), RefreshFailure>;

/// What a refresh did, in short.
pub fn summarize(result: &RefreshResult) -> (r: RefreshOutcome)
    ensures
        r == match *result {
            Ok((_, RefreshSuccess::ConfirmedFresh)) => RefreshOutcome::ConfirmedFresh,
            Ok((_, RefreshSuccess::Updated)) => RefreshOutcome::Updated,
            Err(RefreshFailure::LockFailed(_)) => RefreshOutcome::LockFailed,
            Err(RefreshFailure::CheckFailed(_)) => RefreshOutcome::CheckFailed,
            Err(RefreshFailure::DownloadFailed(_)) => RefreshOutcome::DownloadFailed,
        },
{
    match result {
        Ok((_, RefreshSuccess::ConfirmedFresh)) => RefreshOutcome::ConfirmedFresh,
        Ok((_, RefreshSuccess::Updated)) => RefreshOutcome::Updated,
        Err(RefreshFailure::LockFailed(_)) => RefreshOutcome::LockFailed,
        Err(RefreshFailure::CheckFailed(_)) => RefreshOutcome::CheckFailed,
        Err(RefreshFailure::DownloadFailed(_)) => RefreshOutcome::DownloadFailed,
    }
}

/// Where a refresh stands: which request comes next, or how it ended.
#[derive(Debug)]
pub enum RefreshState {
    /// Ask by HEAD whether the cached mapping is current.
    Checking(CacheEnvelope),
    /// Ask the same by GET, as the server does not answer HEAD.
    CheckingByGet(CacheEnvelope),
    /// Download the mapping.
    Downloading(Option<CacheEnvelope>),
    /// It is over.
    Done(RefreshResult),
}

/// Where a refresh stands, as mathematical values.
pub enum StateView {
    Checking(EnvelopeView),
    CheckingByGet(EnvelopeView),
    Downloading(Option<EnvelopeView>),
    Succeeded(EnvelopeView, RefreshSuccess),
    Failed(RefreshFailureView),
}

impl DeepView for RefreshState {
    type V = StateView;

    open spec fn deep_view(&self) -> StateView {
        match self {
            RefreshState::Checking(env) => StateView::Checking(env.deep_view()),
            RefreshState::CheckingByGet(env) => StateView::CheckingByGet(env.deep_view()),
            RefreshState::Downloading(env) => StateView::Downloading(env.deep_view()),
            RefreshState::Done(Ok((env, success))) => StateView::Succeeded(
                env.deep_view(),
                *success,
            ),
            RefreshState::Done(Err(failure)) => StateView::Failed(failure.deep_view()),
        }
    }
}

/// What came back from a request.
#[derive(Debug)]
pub enum Reply {
    Head(Result<HeadResponse, HttpError>),
    Get(Result<Option<FetchedMapping>, FetchError>),
}

/// What came back from a request, as mathematical values.
pub enum ReplyView {
    Head(Result<HeadResponse, HttpErrorView>),
    Get(Result<Option<FetchedView>, FetchErrorView>),
}

impl DeepView for Reply {
    type V = ReplyView;

    open spec fn deep_view(&self) -> ReplyView {
        match self {
            Reply::Head(Ok(response)) => ReplyView::Head(Ok(*response)),
            Reply::Head(Err(error)) => ReplyView::Head(Err(error.deep_view())),
            Reply::Get(response) => ReplyView::Get(fetched_view(*response)),
        }
    }
}

/// An envelope whose budget of failures is not used up.
pub open spec fn within_budget(env: EnvelopeView) -> bool {
    env.consecutive_failures < BACKOFF_BUDGET
}

impl StateView {
    /// The budget of failures is not used up while a refresh goes on.
    pub open spec fn wf(self) -> bool {
        match self {
            StateView::Checking(env) => within_budget(env),
            StateView::CheckingByGet(env) => within_budget(env),
            StateView::Downloading(Some(env)) => within_budget(env),
            _ => true,
        }
    }
}

/// An envelope at the start of a refresh: a used-up budget of failures is
/// given back.
pub open spec fn with_budget(env: EnvelopeView) -> EnvelopeView {
    if env.consecutive_failures >= BACKOFF_BUDGET {
        EnvelopeView { consecutive_failures: 0, ..env }
    } else {
        env
    }
}

/// Where a refresh starts: with a check, unless there is nothing cached or
/// there is known to be a newer mapping.
pub open spec fn first_state(current: Option<EnvelopeView>) -> StateView {
    match current {
        Some(env) => if env.known_stale {
            StateView::Downloading(Some(with_budget(env)))
        } else {
            StateView::Checking(with_budget(env))
        },
        None => StateView::Downloading(None),
    }
}

/// Starts a refresh of what is cached.
pub fn begin(current: Option<CacheEnvelope>) -> (r: RefreshState)
    ensures
        r.deep_view() == first_state(current.deep_view()),
        r.deep_view().wf(),
{
    match current {
        Some(env) => {
            let mut env = env;
            if env.consecutive_failures >= BACKOFF_BUDGET {
                env.consecutive_failures = 0;
            }
            if env.known_stale {
                RefreshState::Downloading(Some(env))
            } else {
                RefreshState::Checking(env)
            }
        },
        None => RefreshState::Downloading(None),
    }
}

/// A request that a refresh makes: whether by HEAD, and what it sends for
/// the server to tell whether there is a newer mapping.
#[derive(Debug, Clone, PartialEq, Eq)]
pub struct Request {
    pub head: bool,
    pub etag: Option<String>,
    pub last_modified: Option<String>,
}

/// A request as mathematical values.
pub struct RequestView {
    pub head: bool,
    pub etag: Option<Seq<char>>,
    pub last_modified: Option<Seq<char>>,
}

impl DeepView for Request {
    type V = RequestView;

    open spec fn deep_view(&self) -> RequestView {
        RequestView {
            head: self.head,
            etag: self.etag.deep_view(),
            last_modified: self.last_modified.deep_view(),
        }
    }
}

/// The request that comes next, if any does.
pub open spec fn next_request(state: StateView) -> Option<RequestView> {
    match state {
        StateView::Checking(env) => Some(
            RequestView { head: true, etag: env.etag, last_modified: env.last_modified },
        ),
        StateView::CheckingByGet(env) => Some(
            RequestView { head: false, etag: env.etag, last_modified: env.last_modified },
        ),
        StateView::Downloading(Some(env)) => Some(
            RequestView { head: false, etag: env.etag, last_modified: env.last_modified },
        ),
        StateView::Downloading(None) => Some(
            RequestView { head: false, etag: None, last_modified: None },
        ),
        _ => None,
    }
}

impl RefreshState {
    /// The request that comes next, if any does.
    pub fn request(&self) -> (r: Option<Request>)
        ensures
            r.deep_view() == next_request(self.deep_view()),
    {
        match self {
            RefreshState::Checking(env) => Some(
                Request {
                    head: true,
                    etag: env.etag.duplicate(),
                    last_modified: env.last_modified.duplicate(),
                },
            ),
            RefreshState::CheckingByGet(env) => Some(
                Request {
                    head: false,
                    etag: env.etag.duplicate(),
                    last_modified: env.last_modified.duplicate(),
                },
            ),
            RefreshState::Downloading(Some(env)) => Some(
                Request {
                    head: false,
                    etag: env.etag.duplicate(),
                    last_modified: env.last_modified.duplicate(),
                },
            ),
            RefreshState::Downloading(None) => Some(
                Request { head: false, etag: None, last_modified: None },
            ),
            RefreshState::Done(Ok(_)) => None,
            RefreshState::Done(Err(_)) => None,
        }
    }
}

/// An envelope whose mapping has just turned out to be current.
pub open spec fn confirmed(env: EnvelopeView, now: u64) -> EnvelopeView {
    EnvelopeView {
        known_stale: false,
        last_checked_at: Some(now),
        last_attempt_at: Some(now),
        consecutive_failures: 0,
        ..env
    }
}

/// An envelope for which there has just turned out to be a newer mapping.
pub open spec fn marked_stale(env: EnvelopeView, now: u64) -> EnvelopeView {
    EnvelopeView {
        known_stale: true,
        last_attempt_at: Some(now),
        consecutive_failures: 0,
        ..env
    }
}

/// An envelope after an attempt that has just failed.
pub open spec fn failed(env: EnvelopeView, now: u64) -> EnvelopeView {
    EnvelopeView {
        consecutive_failures: (env.consecutive_failures + 1) as u32,
        last_attempt_at: Some(now),
        ..env
    }
}

/// An envelope for a mapping that has just been downloaded.
pub open spec fn downloaded(fetched: FetchedView, url: Seq<char>, now: u64) -> EnvelopeView {
    EnvelopeView {
        schema_version: SCHEMA_VERSION,
        url,
        etag: fetched.etag,
        last_modified: fetched.last_modified,
        fetched_at: Some(now),
        last_checked_at: Some(now),
        known_stale: false,
        consecutive_failures: 0,
        last_attempt_at: Some(now),
        mapping: fetched.mapping,
    }
}

/// An envelope for a mapping that has just been downloaded.
pub fn envelope_from_fetch(fetched: FetchedMapping, url: &str, now: u64) -> (r: CacheEnvelope)
    ensures
        r.deep_view() == downloaded(fetched.deep_view(), url@, now),
{
    CacheEnvelope {
        schema_version: SCHEMA_VERSION,
        url: url.to_owned(),
        etag: fetched.etag,
        last_modified: fetched.last_modified,
        fetched_at: Some(now),
        last_checked_at: Some(now),
        known_stale: false,
        consecutive_failures: 0,
        last_attempt_at: Some(now),
        mapping: fetched.mapping,
    }
}

/// Where a refresh stands after a reply, and the envelope to store before
/// anything else happens, if there is one. A reply to a request that was
/// not made changes nothing.
pub open spec fn after_reply(state: StateView, reply: ReplyView, url: Seq<char>, now: u64) -> (
    StateView,
    Option<EnvelopeView>,
) {
    match (state, reply) {
        (StateView::Checking(env), ReplyView::Head(Ok(HeadResponse::NotModified))) => (
            StateView::Succeeded(confirmed(env, now), RefreshSuccess::ConfirmedFresh),
            Some(confirmed(env, now)),
        ),
        (StateView::Checking(env), ReplyView::Head(Ok(HeadResponse::Changed))) => (
            StateView::Downloading(Some(marked_stale(env, now))),
            Some(marked_stale(env, now)),
        ),
        (StateView::Checking(env), ReplyView::Head(Ok(HeadResponse::Unsupported))) => (
            StateView::CheckingByGet(env),
            None,
        ),
        (StateView::Checking(env), ReplyView::Head(Err(error))) => (
            StateView::Failed(RefreshFailureView::CheckFailed(FetchErrorView::Http(error))),
            Some(failed(env, now)),
        ),
        (StateView::CheckingByGet(env), ReplyView::Get(Ok(None))) => (
            StateView::Succeeded(confirmed(env, now), RefreshSuccess::ConfirmedFresh),
            Some(confirmed(env, now)),
        ),
        (StateView::CheckingByGet(env), ReplyView::Get(Ok(Some(fetched)))) => (
            StateView::Succeeded(downloaded(fetched, url, now), RefreshSuccess::Updated),
            Some(downloaded(fetched, url, now)),
        ),
        (StateView::CheckingByGet(env), ReplyView::Get(Err(error))) => (
            StateView::Failed(RefreshFailureView::CheckFailed(error)),
            Some(failed(env, now)),
        ),
        (StateView::Downloading(env), ReplyView::Get(Ok(Some(fetched)))) => (
            StateView::Succeeded(downloaded(fetched, url, now), RefreshSuccess::Updated),
            Some(downloaded(fetched, url, now)),
        ),
        (StateView::Downloading(env), ReplyView::Get(Ok(None))) => (
            StateView::Succeeded(
                confirmed(or_empty(env, url), now),
                RefreshSuccess::ConfirmedFresh,
            ),
            Some(confirmed(or_empty(env, url), now)),
        ),
        (StateView::Downloading(env), ReplyView::Get(Err(error))) => (
            StateView::Failed(RefreshFailureView::DownloadFailed(error)),
            Some(failed(or_empty(env, url), now)),
        ),
        _ => (state, None),
    }
}

/// The envelope, or one without a mapping, for where it is downloaded from.
pub open spec fn or_empty(env: Option<EnvelopeView>, url: Seq<char>) -> EnvelopeView {
    match env {
        Some(e) => e,
        None => EnvelopeView { url, ..EnvelopeView::new_empty() },
    }
}

fn confirm(env: CacheEnvelope, now: u64) -> (r: (RefreshState, Option<CacheEnvelope>))
    ensures
        (r.0.deep_view(), r.1.deep_view()) == (
            StateView::Succeeded(
                confirmed(env.deep_view(), now),
                RefreshSuccess::ConfirmedFresh,
            ),
            Some(confirmed(env.deep_view(), now)),
        ),
{
    let mut env = env;
    env.known_stale = false;
    env.last_checked_at = Some(now);
    env.last_attempt_at = Some(now);
    env.consecutive_failures = 0;
    let stored = env.duplicate();
    (RefreshState::Done(Ok((env, RefreshSuccess::ConfirmedFresh))), Some(stored))
}

fn update(fetched: FetchedMapping, url: &str, now: u64) -> (r: (
    RefreshState,
    Option<CacheEnvelope>,
))
    ensures
        (r.0.deep_view(), r.1.deep_view()) == (
            StateView::Succeeded(
                downloaded(fetched.deep_view(), url@, now),
                RefreshSuccess::Updated,
            ),
            Some(downloaded(fetched.deep_view(), url@, now)),
        ),
{
    let env = envelope_from_fetch(fetched, url, now);
    let stored = env.duplicate();
    (RefreshState::Done(Ok((env, RefreshSuccess::Updated))), Some(stored))
}

fn fail(env: CacheEnvelope, failure: RefreshFailure, now: u64) -> (r: (
    RefreshState,
    Option<CacheEnvelope>,
))
    requires
        within_budget(env.deep_view()),
    ensures
        (r.0.deep_view(), r.1.deep_view()) == (
            StateView::Failed(failure.deep_view()),
            Some(failed(env.deep_view(), now)),
        ),
{
    let mut env = env;
    env.consecutive_failures = env.consecutive_failures + 1;
    env.last_attempt_at = Some(now);
    (RefreshState::Done(Err(failure)), Some(env))
}

fn mark_stale(env: CacheEnvelope, now: u64) -> (r: (RefreshState, Option<CacheEnvelope>))
    ensures
        (r.0.deep_view(), r.1.deep_view()) == (
            StateView::Downloading(Some(marked_stale(env.deep_view(), now))),
            Some(marked_stale(env.deep_view(), now)),
        ),
{
    let mut env = env;
    env.known_stale = true;
    env.last_attempt_at = Some(now);
    env.consecutive_failures = 0;
    let stored = env.duplicate();
    (RefreshState::Downloading(Some(env)), Some(stored))
}

fn env_or_empty(env: Option<CacheEnvelope>, url: &str) -> (r: CacheEnvelope)
    ensures
        r.deep_view() == or_empty(env.deep_view(), url@),
{
    match env {
        Some(e) => e,
        None => {
            let mut e = CacheEnvelope::new_empty();
            e.url = url.to_owned();
            e
        },
    }
}

/// Takes a reply: gives where the refresh stands then, and the envelope to
/// store before anything else happens, if there is one. Every way a refresh
/// can end stores one, and so does finding that there is a newer mapping,
/// before it is downloaded.
pub fn advance(state: RefreshState, reply: Reply, url: &str, now: u64) -> (r: (
    RefreshState,
    Option<CacheEnvelope>,
))
    requires
        state.deep_view().wf(),
    ensures
        (r.0.deep_view(), r.1.deep_view()) == after_reply(
            state.deep_view(),
            reply.deep_view(),
            url@,
            now,
        ),
        r.0.deep_view().wf(),
{
    match (state, reply) {
        (RefreshState::Checking(env), Reply::Head(Ok(HeadResponse::NotModified))) => confirm(
            env,
            now,
        ),
        (RefreshState::Checking(env), Reply::Head(Ok(HeadResponse::Changed))) => mark_stale(
            env,
            now,
        ),
        (RefreshState::Checking(env), Reply::Head(Ok(HeadResponse::Unsupported))) => (
            RefreshState::CheckingByGet(env),
            None,
        ),
        (RefreshState::Checking(env), Reply::Head(Err(error))) => fail(
            env,
            RefreshFailure::CheckFailed(FetchError::Http(error)),
            now,
        ),
        (RefreshState::CheckingByGet(env), Reply::Get(Ok(None))) => confirm(env, now),
        (RefreshState::CheckingByGet(env), Reply::Get(Ok(Some(fetched)))) => update(
            fetched,
            url,
            now,
        ),
        (RefreshState::CheckingByGet(env), Reply::Get(Err(error))) => fail(
            env,
            RefreshFailure::CheckFailed(error),
            now,
        ),
        (RefreshState::Downloading(env), Reply::Get(Ok(Some(fetched)))) => update(
            fetched,
            url,
            now,
        ),
        (RefreshState::Downloading(env), Reply::Get(Ok(None))) => confirm(env_or_empty(env, url), now),
        (RefreshState::Downloading(env), Reply::Get(Err(error))) => fail(
            env_or_empty(env, url),
            RefreshFailure::DownloadFailed(error),
            now,
        ),
        (state, _) => (state, None),
    }
}

/// How many more requests a refresh may make at most.
pub open spec fn requests_left(state: StateView) -> nat {
    match state {
        StateView::Checking(_) => 2,
        StateView::CheckingByGet(_) => 1,
        StateView::Downloading(_) => 1,
        _ => 0,
    }
}

/// A refresh ends: every reply to its request leaves fewer to make.
pub proof fn refresh_ends(state: StateView, reply: ReplyView, url: Seq<char>, now: u64)
    requires
        match next_request(state) {
            Some(request) => request.head == (reply is Head),
            None => false,
        },
    ensures
        requests_left(after_reply(state, reply, url, now).0) < requests_left(state),
{
}

/// A refresh that ends well has just confirmed what it ends with: the
/// mapping is used without asking again.
pub proof fn success_is_fresh(state: StateView, reply: ReplyView, url: Seq<char>, now: u64)
    requires
        !(state is Succeeded),
        after_reply(state, reply, url, now).0 is Succeeded,
    ensures
        action_for(
            Some(after_reply(state, reply, url, now).0->Succeeded_0),
            now,
            false,
            false,
        ) == Action::UseCached,
        after_reply(state, reply, url, now).1 == Some(
            after_reply(state, reply, url, now).0->Succeeded_0,
        ),
{
}

/// A refresh that fails keeps the mapping it started with, and how current
/// that is known to be.
pub proof fn failure_keeps_the_mapping(state: StateView, reply: ReplyView, url: Seq<char>, now: u64)
    requires
        !(state is Failed),
        after_reply(state, reply, url, now).0 is Failed,
    ensures
        after_reply(state, reply, url, now).1 is Some,
        match state {
            StateView::Checking(env) | StateView::CheckingByGet(env)
            | StateView::Downloading(Some(env)) => {
                let stored = after_reply(state, reply, url, now).1->0;
                &&& stored.mapping == env.mapping
                &&& stored.last_checked_at == env.last_checked_at
                &&& stored.known_stale == env.known_stale
            },
            _ => true,
        },
{
}

/// Whether what a refresh goes by, if anything, is for the given address.
pub open spec fn is_for(state: StateView, url: Seq<char>) -> bool {
    match state {
        StateView::Checking(env) | StateView::CheckingByGet(env)
        | StateView::Downloading(Some(env)) | StateView::Succeeded(env, _) => env.url == url,
        _ => true,
    }
}

/// Every envelope that a refresh stores carries the address that it is
/// downloaded from, so the next refresh goes on from it: a first download
/// that fails counts as a failure then.
pub proof fn stored_envelopes_carry_the_address(
    state: StateView,
    reply: ReplyView,
    url: Seq<char>,
    now: u64,
)
    requires
        is_for(state, url),
    ensures
        is_for(after_reply(state, reply, url, now).0, url),
        match after_reply(state, reply, url, now).1 {
            Some(stored) => stored.url == url,
            None => true,
        },
        state == StateView::Downloading(None) && reply is Get && reply->Get_0 is Err
            ==> after_reply(state, reply, url, now).1->0.consecutive_failures == 1,
{
}

/// A check that was cut short after it found a newer mapping is not made
/// again: the next refresh downloads it.
pub proof fn interrupted_refresh_resumes(env: EnvelopeView, url: Seq<char>, now: u64)
    ensures
        ({
            let (state, stored) = after_reply(
                StateView::Checking(env),
                ReplyView::Head(Ok(HeadResponse::Changed)),
                url,
                now,
            );
            first_state(stored) == state
        }),
{
}

/// A mapping is used without waiting for the network only where it has been
/// known to be current, and no refresh is forced.
pub proof fn cached_mapping_was_confirmed(
    env: Option<EnvelopeView>,
    now: u64,
    allow_stale_mapping: bool,
    force_refresh: bool,
)
    requires
        action_for(env, now, allow_stale_mapping, force_refresh) != Action::BlockingRefresh,
    ensures
        !force_refresh,
        env is Some,
        env->0.last_checked_at is Some,
        allow_stale_mapping || elapsed(env->0.last_checked_at->0, now) < STALE_WINDOW,
{
}

/// Once as many attempts have failed in a row as may, no refresh in the
/// background is made until the cooldown has passed; then the failures are
/// counted anew.
pub proof fn backoff_pauses_then_resets(env: EnvelopeView, now: u64, allow_stale_mapping: bool)
    requires
        env.consecutive_failures >= BACKOFF_BUDGET,
        env.last_attempt_at is Some,
    ensures
        elapsed(env.last_attempt_at->0, now) < BACKOFF_COOLDOWN ==> action_for(
            Some(env),
            now,
            allow_stale_mapping,
            false,
        ) != Action::UseCachedAndRefreshInBackground,
        match first_state(Some(env)) {
            StateView::Checking(e) => e.consecutive_failures == 0,
            StateView::Downloading(Some(e)) => e.consecutive_failures == 0,
            _ => false,
        },
{
}

/// A mapping that is not forced to be refreshed is used for a day from when
/// it was last known to be current. Up to a week, or however old where that
/// is allowed, it is used and refreshed in the background, unless ten or
/// more attempts in a row have failed and the last was less than an hour
/// ago. Otherwise the refresh is waited for.
pub proof fn age_decides(
    env: EnvelopeView,
    checked: u64,
    now: u64,
    allow_stale_mapping: bool,
)
    requires
        env.last_checked_at == Some(checked),
    ensures
        action_for(Some(env), now, allow_stale_mapping, true) == Action::BlockingRefresh,
        action_for(None, now, allow_stale_mapping, false) == Action::BlockingRefresh,
        now < checked + 86400 ==> action_for(Some(env), now, allow_stale_mapping, false)
            == Action::UseCached,
        now >= checked + 604800 && !allow_stale_mapping ==> action_for(
            Some(env),
            now,
            allow_stale_mapping,
            false,
        ) == Action::BlockingRefresh,
        now >= checked + 86400 && (now < checked + 604800 || allow_stale_mapping) ==> {
            let attempted: int = if env.last_attempt_at is Some {
                env.last_attempt_at->0 as int
            } else {
                0
            };
            action_for(Some(env), now, allow_stale_mapping, false) == if env.consecutive_failures
                >= 10 && now < attempted + 3600 {
                Action::UseCached
            } else {
                Action::UseCachedAndRefreshInBackground
            }
        },
{
}

/// A mapping that was never known to be current is refreshed before it is
/// used.
pub proof fn unconfirmed_mapping_is_not_used(
    env: EnvelopeView,
    now: u64,
    allow_stale_mapping: bool,
    force_refresh: bool,
)
    requires
        env.last_checked_at is None,
    ensures
        action_for(Some(env), now, allow_stale_mapping, force_refresh) == Action::BlockingRefresh,
{
}

/// What is stored after a reply: a confirmed mapping keeps everything but
/// when it was known to be current and tried for; a newer one carries what
/// came with it; a failure counts one more, and nothing else but when it was
/// tried for changes; a mapping that turned out to be stale is marked so.
pub proof fn replies_are_recorded(
    env: EnvelopeView,
    fetched: FetchedView,
    error: FetchErrorView,
    failed_head: HttpErrorView,
    url: Seq<char>,
    now: u64,
)
    requires
        env.consecutive_failures < 10,
    ensures
        ({
            let fresh = EnvelopeView {
                known_stale: false,
                last_checked_at: Some(now),
                last_attempt_at: Some(now),
                consecutive_failures: 0,
                ..env
            };
            let stale = EnvelopeView {
                known_stale: true,
                last_attempt_at: Some(now),
                consecutive_failures: 0,
                ..env
            };
            let tried = EnvelopeView {
                consecutive_failures: (env.consecutive_failures + 1) as u32,
                last_attempt_at: Some(now),
                ..env
            };
            let newer = EnvelopeView {
                schema_version: 2,
                url,
                etag: fetched.etag,
                last_modified: fetched.last_modified,
                fetched_at: Some(now),
                last_checked_at: Some(now),
                known_stale: false,
                consecutive_failures: 0,
                last_attempt_at: Some(now),
                mapping: fetched.mapping,
            };
            &&& after_reply(
                StateView::Checking(env),
                ReplyView::Head(Ok(HeadResponse::NotModified)),
                url,
                now,
            ) == (StateView::Succeeded(fresh, RefreshSuccess::ConfirmedFresh), Some(fresh))
            &&& after_reply(
                StateView::Checking(env),
                ReplyView::Head(Ok(HeadResponse::Changed)),
                url,
                now,
            ) == (StateView::Downloading(Some(stale)), Some(stale))
            &&& after_reply(
                StateView::Checking(env),
                ReplyView::Head(Ok(HeadResponse::Unsupported)),
                url,
                now,
            ) == (StateView::CheckingByGet(env), None::<EnvelopeView>)
            &&& after_reply(
                StateView::Checking(env),
                ReplyView::Head(Err(failed_head)),
                url,
                now,
            ).1 == Some(tried)
            &&& after_reply(StateView::CheckingByGet(env), ReplyView::Get(Ok(None)), url, now) == (
                StateView::Succeeded(fresh, RefreshSuccess::ConfirmedFresh),
                Some(fresh),
            )
            &&& after_reply(
                StateView::CheckingByGet(env),
                ReplyView::Get(Ok(Some(fetched))),
                url,
                now,
            ) == (StateView::Succeeded(newer, RefreshSuccess::Updated), Some(newer))
            &&& after_reply(
                StateView::CheckingByGet(env),
                ReplyView::Get(Err(error)),
                url,
                now,
            ) == (StateView::Failed(RefreshFailureView::CheckFailed(error)), Some(tried))
            &&& after_reply(
                StateView::Downloading(Some(env)),
                ReplyView::Get(Ok(None)),
                url,
                now,
            ) == (StateView::Succeeded(fresh, RefreshSuccess::ConfirmedFresh), Some(fresh))
            &&& after_reply(
                StateView::Downloading(Some(env)),
                ReplyView::Get(Ok(Some(fetched))),
                url,
                now,
            ) == (StateView::Succeeded(newer, RefreshSuccess::Updated), Some(newer))
            &&& after_reply(
                StateView::Downloading(None),
                ReplyView::Get(Ok(Some(fetched))),
                url,
                now,
            ) == (StateView::Succeeded(newer, RefreshSuccess::Updated), Some(newer))
            &&& after_reply(
                StateView::Downloading(Some(env)),
                ReplyView::Get(Err(error)),
                url,
                now,
            ) == (StateView::Failed(RefreshFailureView::DownloadFailed(error)), Some(tried))
        }),
{
}

/// A refresh starts with what is cached, its failures counted anew once ten
/// have been: by a check, unless there is known to be a newer mapping or
/// nothing is cached, which is downloaded. Every request tells the server
/// which mapping is cached.
pub proof fn refresh_starts_with_what_is_cached(env: EnvelopeView)
    ensures
        first_state(None) == StateView::Downloading(None),
        ({
            let budgeted = EnvelopeView {
                consecutive_failures: if env.consecutive_failures >= 10 {
                    0
                } else {
                    env.consecutive_failures
                },
                ..env
            };
            first_state(Some(env)) == if env.known_stale {
                StateView::Downloading(Some(budgeted))
            } else {
                StateView::Checking(budgeted)
            }
        }),
        next_request(StateView::Checking(env)) == Some(
            RequestView { head: true, etag: env.etag, last_modified: env.last_modified },
        ),
        next_request(StateView::CheckingByGet(env)) == Some(
            RequestView { head: false, etag: env.etag, last_modified: env.last_modified },
        ),
        next_request(StateView::Downloading(Some(env))) == Some(
            RequestView { head: false, etag: env.etag, last_modified: env.last_modified },
        ),
        next_request(StateView::Downloading(None)) == Some(
            RequestView { head: false, etag: None, last_modified: None },
        ),
{
}

} // verus!
