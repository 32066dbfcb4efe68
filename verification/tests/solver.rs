use ana::platform::Platform;
use ana::solver::channels::{defaults_subchannels, resolve};
use ana::solver::error::{classify, ChannelQueryError, Error};
use ana::solver::plan::{
    build_excluded_candidates, contains_url, favored, fetch_platforms, identity_key, plan_fetch,
    plan_solve, reason, Record, Restriction,
};

fn urls(names: &[&str], platform: Platform) -> Vec<String> {
    resolve(
        &names.iter().map(ToString::to_string).collect::<Vec<_>>(),
        "",
        platform,
    )
    .unwrap()
    .into_iter()
    .map(|channel| channel.base_url)
    .collect()
}

#[test]
fn defaults_expands_to_main_and_r_on_non_windows() {
    assert_eq!(
        urls(&["defaults"], Platform::Linux64),
        vec![
            "https://repo.anaconda.com/pkgs/main/",
            "https://repo.anaconda.com/pkgs/r/",
        ]
    );
}

#[test]
fn defaults_expands_to_main_r_and_msys2_on_windows() {
    assert_eq!(
        urls(&["defaults"], Platform::Win64),
        vec![
            "https://repo.anaconda.com/pkgs/main/",
            "https://repo.anaconda.com/pkgs/r/",
            "https://repo.anaconda.com/pkgs/msys2/",
        ]
    );
}

#[test]
fn a_non_defaults_name_resolves_generically() {
    assert_eq!(
        urls(&["conda-forge"], Platform::Linux64),
        vec!["https://conda.anaconda.org/conda-forge/"]
    );
}

#[test]
fn defaults_can_combine_with_an_ordinary_channel_name() {
    assert_eq!(
        urls(&["defaults", "conda-forge"], Platform::Linux64),
        vec![
            "https://repo.anaconda.com/pkgs/main/",
            "https://repo.anaconda.com/pkgs/r/",
            "https://conda.anaconda.org/conda-forge/",
        ]
    );
}

#[test]
fn an_invalid_channel_name_is_a_channel_error() {
    // A relative path cannot be resolved against an empty root directory.
    let err = resolve(
        &vec!["./not-a-real-channel".to_string()],
        "",
        Platform::Linux64,
    )
    .unwrap_err();
    assert!(matches!(err, Error::Channel { .. }));
}

#[test]
fn a_channel_keeps_its_name_and_platforms() {
    let channels = resolve(
        &vec![
            "conda-forge[linux-64,noarch]".to_string(),
            "https://example.com/x".to_string(),
        ],
        "",
        Platform::Linux64,
    )
    .unwrap();
    assert_eq!(channels[0].name.as_deref(), Some("conda-forge"));
    assert_eq!(
        channels[0].platforms,
        Some(vec!["linux-64".to_string(), "noarch".to_string()])
    );
    assert_eq!(channels[1].base_url, "https://example.com/x/");
    assert_eq!(channels[1].name.as_deref(), Some("x"));
}

#[test]
fn the_first_channel_that_is_none_is_named() {
    let err = resolve(
        &vec!["ok".to_string(), "a:b".to_string(), "c:d".to_string()],
        "",
        Platform::Linux64,
    )
    .unwrap_err();
    let Error::Channel { name, .. } = &err else {
        panic!("{err:?}");
    };
    assert_eq!(name, "a:b");
    assert!(err.to_string().starts_with("invalid channel \"a:b\": "));
}

#[test]
fn every_windows_platform_has_the_third_default() {
    for platform in [Platform::Win32, Platform::Win64, Platform::WinArm64] {
        assert_eq!(defaults_subchannels(platform), vec!["main", "r", "msys2"]);
    }
    assert_eq!(defaults_subchannels(Platform::NoArch), vec!["main", "r"]);
}

fn record(name: &str, url: &str) -> Record {
    Record {
        name: name.to_string(),
        version: "1.0.0".to_string(),
        build: "0".to_string(),
        url: url.to_string(),
    }
}

fn restrict(name: &str, url: &str) -> Restriction {
    Restriction {
        name: name.to_string(),
        channel_url: url.to_string(),
        channel_shown: "main".to_string(),
    }
}

#[test]
fn a_record_outside_the_required_channel_is_excluded_one_inside_is_not() {
    let main = record(
        "conda",
        "https://repo.anaconda.com/pkgs/main/linux-64/conda-1.0.0-0.conda",
    );
    let forge = record(
        "conda",
        "https://conda.anaconda.org/conda-forge/linux-64/conda-1.0.0-0.conda",
    );
    let available = vec![main.clone(), forge.clone()];
    let restrictions = vec![restrict("conda", "https://repo.anaconda.com/pkgs/main")];

    let excluded = build_excluded_candidates(&available, &restrictions);

    assert!(excluded.get(&main.url).is_none());
    assert!(excluded.get(&forge.url).is_some());
}

#[test]
fn the_exclusion_reason_is_shared_across_every_record_of_one_restriction() {
    let forge_linux = record(
        "conda",
        "https://conda.anaconda.org/conda-forge/linux-64/conda-1.0.0-0.conda",
    );
    let forge_noarch = record(
        "conda",
        "https://conda.anaconda.org/conda-forge/noarch/conda-1.0.0-0.conda",
    );
    let available = vec![forge_linux.clone(), forge_noarch.clone()];
    let restrictions = vec![restrict("conda", "https://repo.anaconda.com/pkgs/main")];

    let task = plan_solve(&available, &vec![], &restrictions);

    assert_eq!(task.excluded.len(), 2);
    assert_eq!(task.reasons.len(), 1);
    assert_eq!(
        task.excluded.get(&forge_linux.url),
        task.excluded.get(&forge_noarch.url)
    );
    assert_eq!(
        task.reasons[0],
        "conda is restricted to main (https://repo.anaconda.com/pkgs/main)"
    );
}

#[test]
fn a_restriction_never_applies_to_a_differently_named_package() {
    let unrelated = record(
        "numpy",
        "https://conda.anaconda.org/conda-forge/linux-64/numpy-1.0.0-0.conda",
    );
    let restrictions = vec![restrict("conda", "https://repo.anaconda.com/pkgs/main")];

    let excluded = build_excluded_candidates(&vec![unrelated], &restrictions);

    assert_eq!(excluded.len(), 0);
}

#[test]
fn a_tokened_channel_restriction_matches_by_url_regardless_of_record_channel() {
    let right_token = record(
        "conda",
        "https://conda.example/t/secret/main/linux-64/conda-1.0.0-0.conda",
    );
    let wrong_token = record(
        "conda",
        "https://conda.example/t/other/main/linux-64/conda-1.0.0-0.conda",
    );
    let available = vec![right_token.clone(), wrong_token.clone()];
    let restrictions = vec![restrict("conda", "https://conda.example/t/secret/main")];

    let excluded = build_excluded_candidates(&available, &restrictions);

    assert!(excluded.get(&right_token.url).is_none());
    assert!(excluded.get(&wrong_token.url).is_some());
}

#[test]
fn no_restrictions_excludes_nothing() {
    let any = record(
        "conda",
        "https://conda.anaconda.org/conda-forge/linux-64/conda-1.0.0-0.conda",
    );
    let excluded = build_excluded_candidates(&vec![any], &vec![]);
    assert_eq!(excluded.len(), 0);
}

#[test]
fn a_channel_ends_at_a_slash() {
    assert!(contains_url("https://h/main", "https://h/main/x"));
    assert!(contains_url("https://h/main/", "https://h/main/x"));
    assert!(!contains_url("https://h/main", "https://h/mainline/x"));
    assert!(!contains_url("https://h/main", "https://h/main"));
}

#[test]
fn each_restriction_has_its_own_reason() {
    assert_eq!(
        reason(&restrict("x", "https://h/y")),
        "x is restricted to main (https://h/y)"
    );
}

#[test]
fn preferred_records_are_found_again_by_identity() {
    let mut old = record("a", "https://old/a");
    let available = vec![
        record("b", "https://new/b"),
        record("a", "https://new/a"),
        record("a", "https://newer/a"),
    ];
    assert_eq!(identity_key(&old), "a-1.0.0-0");
    let gone = record("c", "https://old/c");
    let preferred = vec![gone, old.clone(), record("b", "https://old/b")];
    assert_eq!(favored(&available, &preferred), vec![2, 0]);
    old.version = "2.0".to_string();
    assert_eq!(favored(&available, &vec![old]), Vec::<usize>::new());
}

#[test]
fn records_are_fetched_for_the_platform_and_for_all() {
    assert_eq!(
        fetch_platforms(Platform::Linux64),
        vec![Platform::Linux64, Platform::NoArch]
    );
    assert_eq!(fetch_platforms(Platform::NoArch), vec![Platform::NoArch]);
    assert_eq!(plan_fetch(3, Platform::Linux64).expected_fetches, 6);
    assert_eq!(plan_fetch(3, Platform::NoArch).expected_fetches, 3);
}

#[test]
fn query_failures_are_classified() {
    assert_eq!(
        classify(Some("noarch".to_string()), "gone".to_string()),
        ChannelQueryError::SubdirNotFound("noarch".to_string())
    );
    assert_eq!(
        classify(None, "gone".to_string()),
        ChannelQueryError::Fetch("gone".to_string())
    );
    assert_eq!(
        ChannelQueryError::SubdirNotFound("noarch".to_string()).to_string(),
        "no \"noarch\" subdir"
    );
    assert_eq!(
        ChannelQueryError::Fetch("gone".to_string()).to_string(),
        "gone"
    );
}

#[test]
fn solve_failures_are_rendered() {
    let text = |s: &str| s.to_string();
    assert_eq!(
        Error::Gateway(text("x")).to_string(),
        "failed to fetch repodata: x"
    );
    assert_eq!(
        Error::VirtualPackages(text("x")).to_string(),
        "failed to detect virtual packages: x"
    );
    assert_eq!(Error::Solve(text("x")).to_string(), "x");
    assert!(Error::Unsolvable(text("x")).is_unsolvable());
    assert!(!Error::Solve(text("x")).is_unsolvable());
}

#[test]
fn a_path_is_joined_to_the_root_directory() {
    let names = vec!["./local".to_string(), "/srv/channel".to_string()];
    let channels = resolve(&names, "/home/me", Platform::Linux64).unwrap();
    assert_eq!(channels[0].base_url, "file:///home/me/local/");
    assert_eq!(channels[1].base_url, "file:///srv/channel/");
    let elsewhere = resolve(&names, "/opt", Platform::Linux64).unwrap();
    assert_eq!(elsewhere[0].base_url, "file:///opt/local/");
    assert_eq!(elsewhere[1].base_url, "file:///srv/channel/");
}
