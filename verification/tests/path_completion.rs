use e_tui::path_completion::{finalize_candidates, PathCandidate, PathCompletionRequest, PathNameMatcher};

fn candidate(path: &str, label: &str) -> PathCandidate {
    PathCandidate { path: path.into(), label: label.into() }
}

#[test]
fn candidate_policy_matches_case_insensitive_substrings() {
    let matcher = PathNameMatcher::new("eA");
    assert!(matcher.matches("readme"));
    assert!(matcher.matches("README.md"));
    assert!(!matcher.matches("rm"));
    assert!(!matcher.matches("read\"me"));
    assert!(!matcher.matches("read\u{0000}me"));
    assert!(PathNameMatcher::new("").matches("anything"));
}

#[test]
fn candidate_policy_preserves_spelling_orders_directories_and_limits_results() {
    let candidates = finalize_candidates(vec![
        candidate("README.md", "README.md"),
        candidate("z-file", "z-file"),
        candidate("readme/", "readme/"),
        candidate("Bridge/", "Bridge/"),
        candidate("alpha/", "alpha/"),
    ]);
    assert_eq!(
        candidates.iter().map(|candidate| candidate.path.as_str()).collect::<Vec<_>>(),
        ["Bridge/", "alpha/", "readme/", "README.md", "z-file"]
    );

    let limited = finalize_candidates(
        (0..101)
            .map(|index| candidate(&format!("file-{index:03}"), &format!("file-{index:03}")))
            .collect(),
    );
    assert_eq!(limited.len(), 100);
    assert_eq!(limited.first().unwrap().path, "file-000");
    assert_eq!(limited.last().unwrap().path, "file-099");
}

#[test]
fn tokens_preserve_unicode_surroundings_and_quote_spaces() {
    let request = PathCompletionRequest::new("root", "看 @fo 后面", 5).unwrap();
    assert_eq!(request.query, "fo");
    assert_eq!(request.fill("foo/a.rs"), ("看 @foo/a.rs 后面".into(), 11));
    let (buffer, cursor) = request.fill("foo bar/");
    let quoted = PathCompletionRequest::new("root", &buffer, cursor).unwrap();
    assert_eq!(quoted.query, "foo bar/");
    assert_eq!(quoted.fill("foo bar/a.rs").0, "看 @\"foo bar/a.rs\" 后面");
    assert!(PathCompletionRequest::new("root", "mail@foo", 8).is_none());
    assert!(PathCompletionRequest::new("root", "@foo done", 9).is_none());
}

#[test]
fn requests_need_a_directory_and_normalize_backslashes() {
    assert!(PathCompletionRequest::new("", "@a", 2).is_none());
    assert!(PathCompletionRequest::new("root", "@a", 3).is_none());
    let request = PathCompletionRequest::new("root", "@src\\lib", 8).unwrap();
    assert_eq!(request.query, "src/lib");
    assert_eq!((request.token_start, request.token_end), (0, 8));
}
