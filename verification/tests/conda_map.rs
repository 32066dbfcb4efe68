use ana::conda_map::envelope::{CacheEnvelope, SCHEMA_VERSION};
use ana::conda_map::error::{FetchError, InvalidMappedName, MappingError};
use ana::conda_map::fetch::{normalize_and_filter, read_response, FetchedMapping};
use ana::conda_map::http::{
    exceeds_response_cap, get_status, head_status, GetResponse, HeadResponse, HttpError,
    ResponseBody, MAX_RESPONSE_BODY_BYTES,
};
use ana::conda_map::load::{check_url, plan, refreshed, LoadOptions, LoadPlan, MappingHandle};
use ana::conda_map::refresh::{
    advance, begin, decide, summarize, Action, RefreshFailure, RefreshOutcome, RefreshState,
    RefreshSuccess, Reply, BACKOFF_BUDGET, BACKOFF_COOLDOWN, FRESH_WINDOW, STALE_WINDOW,
};
use ana::table::Table;

fn table(entries: &[(&str, &str)]) -> Table<String> {
    let mut table = Table::new();
    for (key, value) in entries {
        table.put(key.to_string(), value.to_string());
    }
    table
}

fn pairs(entries: &[(&str, &str)]) -> Vec<(String, String)> {
    entries
        .iter()
        .map(|(a, b)| (a.to_string(), b.to_string()))
        .collect()
}

fn lookup<'a>(table: &'a Table<String>, key: &str) -> Option<&'a str> {
    table.get(key).map(|value| value.as_str())
}

#[test]
fn exceeds_response_cap_is_false_strictly_under_the_limit() {
    assert!(!exceeds_response_cap(0, MAX_RESPONSE_BODY_BYTES - 1));
}

#[test]
fn exceeds_response_cap_is_false_exactly_at_the_limit() {
    assert!(!exceeds_response_cap(MAX_RESPONSE_BODY_BYTES - 1, 1));
}

#[test]
fn exceeds_response_cap_is_true_one_byte_over_the_limit() {
    assert!(exceeds_response_cap(MAX_RESPONSE_BODY_BYTES, 1));
}

#[test]
fn exceeds_response_cap_does_not_overflow_on_huge_inputs() {
    assert!(exceeds_response_cap(u64::MAX, u64::MAX));
}

#[test]
fn get_rejects_a_response_whose_content_length_header_exceeds_the_cap() {
    let over_the_cap = MAX_RESPONSE_BODY_BYTES + 1;
    let result = ResponseBody::start(Some(over_the_cap));
    assert!(matches!(result, Err(HttpError::ResponseTooLarge)));
}

#[test]
fn get_accepts_a_response_under_the_cap() {
    let body = b"{\"opencv-python\":\"py-opencv\"}";
    assert_eq!(get_status(200), Ok(true));
    let got = ResponseBody::start(Some(body.len() as u64))
        .unwrap()
        .accept(&body[..5])
        .unwrap()
        .accept(&body[5..])
        .unwrap()
        .into_bytes();
    assert_eq!(got, body);
}

#[test]
fn a_body_that_grows_past_the_cap_is_rejected_whatever_was_announced() {
    let chunk = vec![0u8; MAX_RESPONSE_BODY_BYTES as usize];
    let body = ResponseBody::start(None).unwrap().accept(&chunk).unwrap();
    assert!(matches!(
        body.accept(&[0]),
        Err(HttpError::ResponseTooLarge)
    ));
}

#[test]
fn statuses_mean_what_they_say() {
    assert_eq!(head_status(304), Ok(HeadResponse::NotModified));
    assert_eq!(head_status(200), Ok(HeadResponse::Changed));
    assert_eq!(head_status(405), Ok(HeadResponse::Unsupported));
    assert_eq!(head_status(501), Ok(HeadResponse::Unsupported));
    assert_eq!(head_status(404), Err(HttpError::UnexpectedStatus(404)));
    assert_eq!(get_status(304), Ok(false));
    assert_eq!(get_status(500), Err(HttpError::UnexpectedStatus(500)));
}

#[test]
fn errors_are_rendered() {
    assert_eq!(
        HttpError::Transport("reset".to_string()).to_string(),
        "request failed: reset"
    );
    assert_eq!(
        HttpError::UnexpectedStatus(404).to_string(),
        "unexpected HTTP status 404"
    );
    assert_eq!(
        HttpError::ResponseTooLarge.to_string(),
        "response body exceeds the 52428800-byte limit"
    );
    assert_eq!(
        MappingError::Fetch(FetchError::Http(HttpError::UnexpectedStatus(500))).to_string(),
        "failed to download the pypi/conda name mapping: request failed: unexpected HTTP status 500"
    );
    assert_eq!(
        FetchError::Json("bad".to_string()).to_string(),
        "failed to parse mapping response as JSON: bad"
    );
    assert_eq!(
        MappingError::Lock("busy".to_string()).to_string(),
        "could not acquire the ana-pypi-conda-map cache lock: busy"
    );
    assert_eq!(
        MappingError::CacheDir.to_string(),
        "could not determine or create the ana cache directory"
    );
    assert_eq!(
        MappingError::UrlNotConfigured.to_string(),
        "no pypi-to-conda mapping URL is configured; set pypi_to_conda_uri (see `ana config`)"
    );
    assert_eq!(
        InvalidMappedName {
            pypi_name: "some-pkg".to_string(),
            conda_name: "not a \"name\"".to_string(),
        }
        .to_string(),
        "mapped conda name \"not a \\\"name\\\"\" for pypi package \"some-pkg\" is not a valid conda package name"
    );
}

#[test]
fn keeps_only_differing_normalized_names() {
    let raw = pairs(&[
        ("Foo-Bar", "foo-bar"),               // same after normalization
        ("beautifulsoup4", "beautifulsoup4"), // identical
        ("PyYAML", "pyyaml"),                 // same after normalization
        ("opencv-python", "py-opencv"),       // genuinely differs
    ]);
    let filtered = normalize_and_filter(&raw);
    assert_eq!(filtered.len(), 1);
    assert_eq!(lookup(&filtered, "opencv-python"), Some("py-opencv"));
}

#[test]
fn skips_entries_that_fail_normalization() {
    let raw = pairs(&[
        ("-leading-punctuation", "conda-name"),
        ("valid-name", "also valid but has a space"),
    ]);
    let filtered = normalize_and_filter(&raw);
    assert_eq!(filtered.len(), 0);
}

#[test]
fn skips_entries_with_an_empty_name_on_either_side() {
    let raw = pairs(&[("", "conda-name"), ("pypi-name", "")]);
    let filtered = normalize_and_filter(&raw);
    assert_eq!(filtered.len(), 0, "{filtered:?}");
}

#[test]
fn names_are_stored_normalized_and_lookups_of_a_fresh_mapping_succeed() {
    let filtered = normalize_and_filter(&pairs(&[("A__b.C", "X.Y"), ("a-b-c", "Z")]));
    assert_eq!(filtered.len(), 1);
    assert_eq!(lookup(&filtered, "a-b-c"), Some("z"));
    assert_eq!(MappingHandle::from_map(filtered).get("a-b-c"), Ok("z"));
}

#[test]
fn a_response_is_read_as_a_json_object_of_strings() {
    let fetched = read_response(GetResponse::Full {
        body: sample_body(),
        etag: Some("v1".to_string()),
        last_modified: Some("yesterday".to_string()),
    })
    .unwrap()
    .unwrap();
    assert_eq!(lookup(&fetched.mapping, "opencv-python"), Some("py-opencv"));
    assert_eq!(fetched.etag.as_deref(), Some("v1"));
    assert_eq!(fetched.last_modified.as_deref(), Some("yesterday"));
    assert!(matches!(read_response(GetResponse::NotModified), Ok(None)));
    let bad = read_response(GetResponse::Full {
        body: b"[1]".to_vec(),
        etag: None,
        last_modified: None,
    });
    assert!(matches!(bad, Err(FetchError::Json(_))));
}

/// What reading the bytes of an envelope and keeping it for a URL gives.
fn read_for_url(envelope: CacheEnvelope, url: &str) -> Option<CacheEnvelope> {
    envelope.of_current_schema().and_then(|env| env.for_url(url))
}

#[test]
fn schema_version_mismatch_is_no_cache() {
    let mut envelope = CacheEnvelope::new_empty();
    envelope.schema_version = SCHEMA_VERSION + 1;
    assert!(envelope.of_current_schema().is_none());
    assert!(CacheEnvelope::new_empty().of_current_schema().is_some());
}

#[test]
fn read_for_url_returns_the_envelope_when_the_url_matches() {
    let mut envelope = CacheEnvelope::new_empty();
    envelope.url = "https://example.invalid/mapping.json".to_string();
    envelope
        .mapping
        .put("opencv-python".to_string(), "py-opencv".to_string());
    let read_back = read_for_url(envelope, "https://example.invalid/mapping.json")
        .expect("same URL should still be usable");
    assert_eq!(read_back.url, "https://example.invalid/mapping.json");
    assert_eq!(
        lookup(&read_back.mapping, "opencv-python"),
        Some("py-opencv")
    );
}

#[test]
fn evict_if_mismatched_discards_and_deletes_a_cache_for_a_different_url() {
    let mut envelope = CacheEnvelope::new_empty();
    envelope.url = "https://old.invalid/mapping.json".to_string();
    envelope.etag = Some("\"old-etag\"".to_string());
    envelope.last_checked_at = Some(1_000);
    assert!(
        read_for_url(envelope, "https://new.invalid/mapping.json").is_none(),
        "a cache built for a different URL must never be usable"
    );
}

#[test]
fn empty_url_is_rejected_before_any_io() {
    for url in ["", "   "] {
        let result = check_url(url);
        assert!(matches!(result, Err(MappingError::UrlNotConfigured)));
    }
    assert_eq!(check_url("https://example.invalid"), Ok(()));
}

#[test]
fn get_of_an_absent_name_returns_the_name_unchanged() {
    let handle = MappingHandle::from_map(table(&[("opencv-python", "py-opencv")]));
    assert_eq!(handle.get("requests"), Ok("requests"));
}

#[test]
fn get_of_a_present_valid_entry_returns_the_mapped_name() {
    let handle = MappingHandle::from_map(table(&[("opencv-python", "py-opencv")]));
    assert_eq!(handle.get("opencv-python"), Ok("py-opencv"));
}

#[test]
fn get_of_a_present_invalid_entry_is_an_error() {
    let handle = MappingHandle::from_map(table(&[("some-pkg", "not a valid name")]));
    let err = handle.get("some-pkg").unwrap_err();
    assert_eq!(err.pypi_name, "some-pkg");
    assert_eq!(err.conda_name, "not a valid name");
}

#[test]
fn finish_reports_the_background_refresh() {
    let idle = MappingHandle::from_map(table(&[]));
    assert_eq!(
        idle.finish(Some(RefreshOutcome::Updated)),
        RefreshOutcome::NotNeeded
    );
    let busy = MappingHandle::refreshing(table(&[]));
    assert_eq!(
        busy.finish(Some(RefreshOutcome::Updated)),
        RefreshOutcome::Updated
    );
    let lost = MappingHandle::refreshing(table(&[]));
    assert_eq!(lost.finish(None), RefreshOutcome::CheckFailed);
}

#[test]
fn a_plan_hands_out_the_cached_mapping() {
    let mut env = envelope_with_age(100_000, 60);
    env.mapping.put("a".to_string(), "b".to_string());
    let LoadPlan::Use(handle) = plan(Some(env), 100_000, LoadOptions::default()) else {
        panic!("a fresh mapping is used");
    };
    assert_eq!(handle.get("a"), Ok("b"));
    assert!(matches!(
        plan(None, 100_000, LoadOptions::default()),
        LoadPlan::Refresh
    ));
    let options = LoadOptions {
        allow_stale_mapping: true,
        force_refresh: false,
    };
    let old = envelope_with_age(10_000_000, STALE_WINDOW + 1);
    let LoadPlan::Use(handle) = plan(Some(old), 10_000_000, options) else {
        panic!("a stale mapping is used where that is allowed");
    };
    assert_eq!(
        handle.finish(Some(RefreshOutcome::LockFailed)),
        RefreshOutcome::LockFailed
    );
}

#[test]
fn a_failed_refresh_becomes_an_error() {
    assert_eq!(
        refreshed(Err(RefreshFailure::LockFailed("no".to_string()))).unwrap_err(),
        MappingError::Lock("no".to_string())
    );
    let inner = FetchError::Http(HttpError::UnexpectedStatus(500));
    assert_eq!(
        refreshed(Err(RefreshFailure::CheckFailed(inner.clone()))).unwrap_err(),
        MappingError::Fetch(inner.clone())
    );
    assert_eq!(
        refreshed(Err(RefreshFailure::DownloadFailed(inner.clone()))).unwrap_err(),
        MappingError::Fetch(inner)
    );
    let mut env = CacheEnvelope::new_empty();
    env.mapping.put("a".to_string(), "b".to_string());
    let handle = refreshed(Ok((env, RefreshSuccess::Updated))).unwrap();
    assert_eq!(handle.get("a"), Ok("b"));
}

#[test]
fn outcomes_are_summarized() {
    let error = || FetchError::Json("x".to_string());
    assert_eq!(
        summarize(&Ok((
            CacheEnvelope::new_empty(),
            RefreshSuccess::ConfirmedFresh
        ))),
        RefreshOutcome::ConfirmedFresh
    );
    assert_eq!(
        summarize(&Ok((CacheEnvelope::new_empty(), RefreshSuccess::Updated))),
        RefreshOutcome::Updated
    );
    assert_eq!(
        summarize(&Err(RefreshFailure::LockFailed(String::new()))),
        RefreshOutcome::LockFailed
    );
    assert_eq!(
        summarize(&Err(RefreshFailure::CheckFailed(error()))),
        RefreshOutcome::CheckFailed
    );
    assert_eq!(
        summarize(&Err(RefreshFailure::DownloadFailed(error()))),
        RefreshOutcome::DownloadFailed
    );
}

fn envelope_with_age(now: u64, age_secs: u64) -> CacheEnvelope {
    let mut env = CacheEnvelope::new_empty();
    env.last_checked_at = Some(now.saturating_sub(age_secs));
    env
}

#[test]
fn no_cache_blocks() {
    assert_eq!(decide(None, 1_000, false, false), Action::BlockingRefresh);
}

#[test]
fn never_confirmed_cache_is_treated_as_no_cache() {
    let mut env = CacheEnvelope::new_empty();
    env.last_checked_at = None;
    env.consecutive_failures = 3;
    assert_eq!(
        decide(Some(&env), 1_000, false, false),
        Action::BlockingRefresh
    );
}

#[test]
fn fresh_cache_does_nothing() {
    let env = envelope_with_age(100_000, 60);
    assert_eq!(decide(Some(&env), 100_000, false, false), Action::UseCached);
}

#[test]
fn moderately_stale_cache_refreshes_in_background() {
    let env = envelope_with_age(1_000_000, FRESH_WINDOW + 1);
    assert_eq!(
        decide(Some(&env), 1_000_000, false, false),
        Action::UseCachedAndRefreshInBackground
    );
}

#[test]
fn week_stale_cache_blocks_without_the_flag() {
    let env = envelope_with_age(10_000_000, STALE_WINDOW + 1);
    assert_eq!(
        decide(Some(&env), 10_000_000, false, false),
        Action::BlockingRefresh
    );
}

#[test]
fn week_stale_cache_refreshes_in_background_with_the_flag() {
    let env = envelope_with_age(10_000_000, STALE_WINDOW + 1);
    assert_eq!(
        decide(Some(&env), 10_000_000, true, false),
        Action::UseCachedAndRefreshInBackground
    );
}

#[test]
fn force_refresh_always_blocks_even_when_fresh() {
    let env = envelope_with_age(100_000, 60);
    assert_eq!(
        decide(Some(&env), 100_000, false, true),
        Action::BlockingRefresh
    );
}

#[test]
fn backoff_suppresses_background_refresh_until_cooldown_elapses() {
    let now = 1_000_000;
    let mut env = envelope_with_age(now, FRESH_WINDOW + 1);
    env.consecutive_failures = BACKOFF_BUDGET;
    env.last_attempt_at = Some(now - 10); // just tried, well within cooldown

    assert_eq!(decide(Some(&env), now, false, false), Action::UseCached);

    env.last_attempt_at = Some(now - BACKOFF_COOLDOWN - 1); // cooldown elapsed
    assert_eq!(
        decide(Some(&env), now, false, false),
        Action::UseCachedAndRefreshInBackground
    );
}

#[test]
fn under_budget_failures_never_backoff() {
    let now = 1_000_000;
    let mut env = envelope_with_age(now, FRESH_WINDOW + 1);
    env.consecutive_failures = BACKOFF_BUDGET - 1;
    env.last_attempt_at = Some(now); // just attempted, but under budget

    assert_eq!(
        decide(Some(&env), now, false, false),
        Action::UseCachedAndRefreshInBackground
    );
}

#[test]
fn windows_are_half_open() {
    let now = 10_000_000;
    let fresh = envelope_with_age(now, FRESH_WINDOW - 1);
    assert_eq!(decide(Some(&fresh), now, false, false), Action::UseCached);
    let day = envelope_with_age(now, FRESH_WINDOW);
    assert_eq!(
        decide(Some(&day), now, false, false),
        Action::UseCachedAndRefreshInBackground
    );
    let week = envelope_with_age(now, STALE_WINDOW);
    assert_eq!(
        decide(Some(&week), now, false, false),
        Action::BlockingRefresh
    );
    let future = envelope_with_age(now + 50, 0);
    assert_eq!(decide(Some(&future), now, false, false), Action::UseCached);
}

fn sample_body() -> Vec<u8> {
    b"{\"opencv-python\":\"py-opencv\"}".to_vec()
}

/// Replies to the requests of a refresh, in order.
struct FakeHttpClient {
    head_responses: Vec<Result<HeadResponse, HttpError>>,
    get_responses: Vec<Result<GetResponse, HttpError>>,
}

impl FakeHttpClient {
    fn new() -> Self {
        Self {
            head_responses: Vec::new(),
            get_responses: Vec::new(),
        }
    }

    fn then_head(mut self, response: Result<HeadResponse, HttpError>) -> Self {
        self.head_responses.push(response);
        self
    }

    fn then_get(mut self, response: Result<GetResponse, HttpError>) -> Self {
        self.get_responses.push(response);
        self
    }

    fn get(&mut self) -> Result<Option<FetchedMapping>, FetchError> {
        match self.get_responses.remove(0) {
            Ok(response) => read_response(response),
            Err(error) => Err(FetchError::Http(error)),
        }
    }
}

const NOW: u64 = 1_700_000_000;

type Refreshed = (
    Result<(CacheEnvelope, RefreshSuccess), RefreshFailure>,
    Vec<CacheEnvelope>,
);

/// Runs a refresh to its end: its result, and every envelope it stores.
fn perform_refresh(mut client: FakeHttpClient, prior: Option<CacheEnvelope>) -> Refreshed {
    let mut state = begin(prior);
    let mut stored = Vec::new();
    loop {
        let reply = match state.request() {
            Some(request) if request.head => Reply::Head(client.head_responses.remove(0)),
            Some(_) => Reply::Get(client.get()),
            None => break,
        };
        let (next, envelope) = advance(state, reply, "http://example.invalid", NOW);
        state = next;
        stored.extend(envelope);
    }
    match state {
        RefreshState::Done(result) => (result, stored),
        other => panic!("a refresh without a request is over: {other:?}"),
    }
}

#[test]
fn no_prior_cache_downloads_directly_without_a_head_check() {
    let client = FakeHttpClient::new().then_get(Ok(GetResponse::Full {
        body: sample_body(),
        etag: Some("v1".to_string()),
        last_modified: None,
    }));

    let (result, stored) = perform_refresh(client, None);
    let (env, success) = result.unwrap();

    assert_eq!(success, RefreshSuccess::Updated);
    assert_eq!(lookup(&env.mapping, "opencv-python"), Some("py-opencv"));
    assert!(!env.known_stale);
    assert_eq!(env.consecutive_failures, 0);
    assert_eq!(env.url, "http://example.invalid");
    assert_eq!(env.fetched_at, Some(NOW));
    assert_eq!(stored.len(), 1);
    assert_eq!(lookup(&stored[0].mapping, "opencv-python"), Some("py-opencv"));
}

#[test]
fn head_confirms_fresh_resets_the_clock_without_downloading() {
    let mut prior = CacheEnvelope::new_empty();
    prior.etag = Some("v1".to_string());
    prior.last_checked_at = Some(1);
    prior.mapping.put("a".to_string(), "b".to_string());

    let client = FakeHttpClient::new().then_head(Ok(HeadResponse::NotModified));
    let (result, stored) = perform_refresh(client, Some(prior));
    let (env, success) = result.unwrap();

    assert_eq!(success, RefreshSuccess::ConfirmedFresh);
    assert_eq!(env.mapping.len(), 1); // untouched
    assert_eq!(lookup(&env.mapping, "a"), Some("b"));
    assert!(env.last_checked_at.unwrap() > 1);
    assert_eq!(stored[0].last_checked_at, env.last_checked_at);
    assert_eq!(decide(Some(&env), NOW, false, false), Action::UseCached);
}

#[test]
fn head_confirms_stale_marks_known_stale_before_downloading() {
    let mut prior = CacheEnvelope::new_empty();
    prior.etag = Some("v1".to_string());
    prior.last_checked_at = Some(1);

    let client = FakeHttpClient::new()
        .then_head(Ok(HeadResponse::Changed))
        .then_get(Ok(GetResponse::Full {
            body: sample_body(),
            etag: Some("v2".to_string()),
            last_modified: None,
        }));
    let (result, stored) = perform_refresh(client, Some(prior));
    let (env, success) = result.unwrap();

    assert_eq!(success, RefreshSuccess::Updated);
    assert_eq!(env.etag, Some("v2".to_string()));
    assert!(!env.known_stale);
    assert_eq!(stored.len(), 2);
    assert!(stored[0].known_stale);
    assert_eq!(stored[0].etag, Some("v1".to_string()));
}

#[test]
fn known_stale_envelope_skips_the_head_check() {
    let mut prior = CacheEnvelope::new_empty();
    prior.known_stale = true;
    prior.etag = Some("v1".to_string());

    // Only a GET response is queued: a HEAD request would panic.
    let client = FakeHttpClient::new().then_get(Ok(GetResponse::Full {
        body: sample_body(),
        etag: Some("v2".to_string()),
        last_modified: None,
    }));
    let (result, _) = perform_refresh(client, Some(prior));

    assert_eq!(result.unwrap().1, RefreshSuccess::Updated);
}

#[test]
fn head_unsupported_falls_back_to_conditional_get_and_uses_its_body_directly() {
    let mut prior = CacheEnvelope::new_empty();
    prior.etag = Some("v1".to_string());

    let client = FakeHttpClient::new()
        .then_head(Ok(HeadResponse::Unsupported))
        .then_get(Ok(GetResponse::Full {
            body: sample_body(),
            etag: Some("v2".to_string()),
            last_modified: None,
        }));
    let (result, _) = perform_refresh(client, Some(prior));
    let (env, success) = result.unwrap();

    assert_eq!(success, RefreshSuccess::Updated);
    assert_eq!(env.etag, Some("v2".to_string()));
}

#[test]
fn network_failure_during_check_bumps_failure_counters_and_preserves_mapping() {
    let mut prior = CacheEnvelope::new_empty();
    prior.etag = Some("v1".to_string());
    prior.mapping.put("a".to_string(), "b".to_string());
    prior.consecutive_failures = 2;

    let client = FakeHttpClient::new().then_head(Err(HttpError::UnexpectedStatus(500)));
    let (result, stored) = perform_refresh(client, Some(prior));

    assert!(matches!(
        result.unwrap_err(),
        RefreshFailure::CheckFailed(_)
    ));
    let persisted = stored.last().unwrap();
    assert_eq!(persisted.consecutive_failures, 3);
    assert_eq!(lookup(&persisted.mapping, "a"), Some("b"));
}

#[test]
fn post_cooldown_attempt_resets_the_budget_for_a_fresh_burst() {
    let mut prior = CacheEnvelope::new_empty();
    prior.etag = Some("v1".to_string());
    prior.consecutive_failures = BACKOFF_BUDGET + 5;

    // The fresh attempt itself fails again.
    let client = FakeHttpClient::new().then_head(Err(HttpError::UnexpectedStatus(500)));
    let (result, stored) = perform_refresh(client, Some(prior));

    assert!(matches!(
        result.unwrap_err(),
        RefreshFailure::CheckFailed(_)
    ));
    // The budget was given back before this attempt, then used once.
    assert_eq!(stored.last().unwrap().consecutive_failures, 1);
}

#[test]
fn network_failure_during_download_preserves_known_stale_for_next_attempt() {
    let mut prior = CacheEnvelope::new_empty();
    prior.known_stale = true;
    prior.etag = Some("v1".to_string());

    let client = FakeHttpClient::new().then_get(Err(HttpError::UnexpectedStatus(500)));
    let (result, stored) = perform_refresh(client, Some(prior));

    assert!(matches!(
        result.unwrap_err(),
        RefreshFailure::DownloadFailed(_)
    ));
    let persisted = stored.last().unwrap();
    assert!(persisted.known_stale);
    assert_eq!(persisted.consecutive_failures, 1);
}

#[test]
fn a_download_that_turns_out_current_clears_known_stale() {
    let mut prior = CacheEnvelope::new_empty();
    prior.known_stale = true;
    prior.mapping.put("a".to_string(), "b".to_string());

    let client = FakeHttpClient::new().then_get(Ok(GetResponse::NotModified));
    let (result, _) = perform_refresh(client, Some(prior));
    let (env, success) = result.unwrap();

    assert_eq!(success, RefreshSuccess::ConfirmedFresh);
    assert!(!env.known_stale);
    assert_eq!(lookup(&env.mapping, "a"), Some("b"));
}

#[test]
fn a_failed_first_download_is_counted() {
    let client = FakeHttpClient::new().then_get(Err(HttpError::ResponseTooLarge));
    let (result, stored) = perform_refresh(client, None);
    assert!(result.is_err());
    assert_eq!(stored[0].consecutive_failures, 1);
    assert_eq!(stored[0].last_attempt_at, Some(NOW));
    assert_eq!(stored[0].last_checked_at, None);
}

#[test]
fn requests_carry_the_validators() {
    let mut prior = CacheEnvelope::new_empty();
    prior.etag = Some("v1".to_string());
    prior.last_modified = Some("monday".to_string());
    let request = begin(Some(prior)).request().unwrap();
    assert!(request.head);
    assert_eq!(request.etag.as_deref(), Some("v1"));
    assert_eq!(request.last_modified.as_deref(), Some("monday"));
    let request = begin(None).request().unwrap();
    assert!(!request.head);
    assert_eq!(request.etag, None);
}

#[test]
fn an_interrupted_refresh_resumes_with_the_download() {
    let mut prior = CacheEnvelope::new_empty();
    prior.etag = Some("v1".to_string());
    let (_, stored) = advance(
        begin(Some(prior)),
        Reply::Head(Ok(HeadResponse::Changed)),
        "http://example.invalid",
        NOW,
    );
    assert!(matches!(begin(stored), RefreshState::Downloading(Some(_))));
}

#[test]
fn a_reply_to_another_request_changes_nothing() {
    let (state, stored) = advance(
        begin(None),
        Reply::Head(Ok(HeadResponse::NotModified)),
        "http://example.invalid",
        NOW,
    );
    assert!(matches!(state, RefreshState::Downloading(None)));
    assert!(stored.is_none());
}

#[test]
fn a_failed_first_download_is_kept_under_its_address() {
    let client = FakeHttpClient::new().then_get(Err(HttpError::UnexpectedStatus(500)));
    let (result, stored) = perform_refresh(client, None);

    assert!(result.is_err());
    assert_eq!(stored.len(), 1);
    assert_eq!(stored[0].url, "http://example.invalid");
    assert_eq!(stored[0].consecutive_failures, 1);
    assert_eq!(stored[0].last_attempt_at, Some(NOW));
    assert_eq!(stored[0].last_checked_at, None);
}

#[test]
fn a_first_download_without_news_is_kept_under_its_address() {
    let client = FakeHttpClient::new().then_get(Ok(GetResponse::NotModified));
    let (result, stored) = perform_refresh(client, None);
    let (env, success) = result.unwrap();

    assert_eq!(success, RefreshSuccess::ConfirmedFresh);
    assert_eq!(env.url, "http://example.invalid");
    assert_eq!(stored[0].url, "http://example.invalid");
    assert_eq!(stored[0].last_checked_at, Some(NOW));
}
