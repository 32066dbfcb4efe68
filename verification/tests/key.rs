use ana::paths::key::EnvironmentKey;

#[test]
fn symbolic_names_match_documented_legacy_vectors() {
    // Worked examples, pinned so the implementation can't silently
    // drift from existing projects' `.ana/<hash>/` directories.
    assert_eq!(
        EnvironmentKey::from_symbolic_names(&["dev"]).as_str(),
        "ef260e9a"
    );
    assert_eq!(
        EnvironmentKey::from_symbolic_names(&["dev", "doc"]).as_str(),
        "e62119cb"
    );
    assert_eq!(
        EnvironmentKey::from_symbolic_names(&["doc", "other"]).as_str(),
        "4a091557"
    );
}

#[test]
fn symbolic_names_are_order_and_repeat_invariant() {
    assert_eq!(
        EnvironmentKey::from_symbolic_names(&["doc", "dev"]),
        EnvironmentKey::from_symbolic_names(&["dev", "doc"]),
    );
    assert_eq!(
        EnvironmentKey::from_symbolic_names(&["dev", "dev"]),
        EnvironmentKey::from_symbolic_names(&["dev"]),
    );
}

#[test]
fn content_keys_are_order_invariant_but_not_dedupe_invariant() {
    assert_eq!(
        EnvironmentKey::from_content(&["numpy", "ruff"]),
        EnvironmentKey::from_content(&["ruff", "numpy"]),
    );
    assert_ne!(
        EnvironmentKey::from_content(&["ruff", "ruff"]),
        EnvironmentKey::from_content(&["ruff"]),
        "content keys sort but do not dedupe"
    );
}

#[test]
fn content_keys_are_64_hex_characters() {
    assert_eq!(EnvironmentKey::from_content(&["numpy"]).as_str().len(), 64);
    assert_eq!(
        EnvironmentKey::from_names_and_content(&["dev"], &["numpy"])
            .as_str()
            .len(),
        64
    );
    assert_eq!(
        EnvironmentKey::from_identity_path("/tmp/script.py")
            .as_str()
            .len(),
        64
    );
}

#[test]
fn names_and_content_differs_from_either_alone() {
    let names_and_content = EnvironmentKey::from_names_and_content(&["dev"], &["numpy"]);
    assert_ne!(names_and_content, EnvironmentKey::from_content(&["numpy"]));
    assert_ne!(
        names_and_content.as_str(),
        EnvironmentKey::from_symbolic_names(&["dev"]).as_str()
    );
}

#[test]
fn identity_path_is_deterministic_and_path_sensitive() {
    let a = EnvironmentKey::from_identity_path("/tmp/a.py");
    let b = EnvironmentKey::from_identity_path("/tmp/b.py");
    assert_eq!(
        a,
        EnvironmentKey::from_identity_path("/tmp/a.py")
    );
    assert_ne!(a, b);
}

#[test]
fn from_raw_wraps_verbatim() {
    assert_eq!(EnvironmentKey::from_raw("abcd1234".to_string()).as_str(), "abcd1234");
}

#[test]
fn names_and_content_ignore_order() {
    assert_eq!(
        EnvironmentKey::from_names_and_content(&["b", "a"], &["y", "x"]),
        EnvironmentKey::from_names_and_content(&["a", "b"], &["x", "y"])
    );
}

#[test]
fn identity_key_is_the_whole_digest() {
    assert_eq!(
        EnvironmentKey::from_identity_path("abc").as_str(),
        "ba7816bf8f01cfea414140de5dae2223b00361a396177a9cb410ff61f20015ad"
    );
}
