use e_tui::display::DisplayId;
use e_tui::link_copy::{
    bound_groups, candidate_group, classify, relative_path, resolve_group, scan_text, trim_token, CandidateGroupValidation, LinkCandidate, LinkCandidateGroup, LinkCopyState, LinkTargetKind,
    LinkValidationRequest, PathConfidence, PathValidation,
};

fn uri(target: &str) -> LinkCandidate {
    LinkCandidate {
        target: target.into(),
        kind: LinkTargetKind::Uri,
        confidence: PathConfidence::High,
        retain_missing: false,
    }
}

fn relative(target: &str, retain_missing: bool) -> LinkCandidate {
    LinkCandidate {
        target: target.into(),
        kind: LinkTargetKind::WorkspaceRelative { normalized: target.trim_start_matches("./").into() },
        confidence: PathConfidence::High,
        retain_missing,
    }
}

fn group(alternatives: Vec<LinkCandidate>) -> LinkCandidateGroup {
    LinkCandidateGroup { alternatives, require_existing: false }
}

fn validation(alternatives: &[PathValidation]) -> CandidateGroupValidation {
    CandidateGroupValidation { alternatives: alternatives.to_vec() }
}

#[test]
fn groups_resolve_to_the_first_accepted_alternative() {
    let g = group(vec![relative("a/b.rs", false), relative("a", false)]);
    let v = validation(&[PathValidation::Missing, PathValidation::Exists]);
    assert_eq!(resolve_group(&g, &v).map(|c| c.target.as_str()), Some("a"));
    let mismatched = validation(&[PathValidation::Exists]);
    assert!(resolve_group(&g, &mismatched).is_none());
    let kept = group(vec![relative("./missing.txt", true)]);
    assert_eq!(
        resolve_group(&kept, &validation(&[PathValidation::Missing])).map(|c| c.target.as_str()),
        Some("./missing.txt")
    );
    let dropped = group(vec![relative("README", false)]);
    assert!(resolve_group(&dropped, &validation(&[PathValidation::Missing])).is_none());
    assert!(resolve_group(&group(vec![uri("https://x")]), &validation(&[PathValidation::Exists])).is_none());
}

#[test]
fn completion_tags_unique_targets_and_refuses_stale_requests() {
    let mut state = LinkCopyState::default();
    state.owner = Some(DisplayId::event(1, "answer"));
    let groups: Vec<LinkCandidateGroup> =
        (0..40).map(|i| group(vec![uri(&format!("https://example.com/{}", i % 38))])).collect();
    let validations: Vec<CandidateGroupValidation> =
        groups.iter().map(|_| validation(&[PathValidation::NotRequired])).collect();
    let request = LinkValidationRequest { generation: 0, cwd: String::new(), groups };
    assert!(state.complete(&request, &validations));
    assert_eq!(state.links.len(), 36);
    assert_eq!(state.links[0].tag, '1');
    assert_eq!(state.links[9].tag, '0');
    assert_eq!(state.links[35].tag, 'z');
    assert_eq!(state.target('a'), Some("https://example.com/10".to_string()));
    assert_eq!(state.target('!'), None);
    state.clear();
    assert!(state.links.is_empty());
    assert!(!state.complete(&request, &validations), "a cleared selection refuses the old request");
}

#[test]
fn relative_paths_resolve_parent_parts_inside_the_workspace() {
    assert_eq!(relative_path("src/../README").as_deref(), Some("README"));
    assert_eq!(relative_path("src/../../outside"), None);
    assert_eq!(relative_path(r".\src\lib.rs").as_deref(), Some("src/lib.rs"));
    assert_eq!(relative_path("a//b/./c/").as_deref(), Some("a/b/c"));
    assert_eq!(relative_path("./"), None);
    assert_eq!(relative_path("std::array/x"), None);
}

#[test]
fn prose_with_a_colon_is_not_a_uri() {
    for text in [
        "feat: refine skill reads, preview and link targets",
        "note:some ordinary prose",
        "note:\u{a0}prose",
        "note:\u{3000}prose",
    ] {
        assert!(classify(text, true).is_none(), "target: {text:?}");
    }
}

#[test]
fn classification_kinds_and_confidence() {
    for text in ["/", "//", r"\", "", "   ", "a\u{7}b"] {
        assert!(classify(text, true).is_none(), "target: {text:?}");
    }
    for text in ["/tmp/file", "//server/share", r"\\server\share", r"C:\src\main.cpp"] {
        let c = classify(text, false).unwrap();
        assert_eq!(c.kind, LinkTargetKind::AbsolutePath, "target: {text:?}");
        assert_eq!(c.confidence, PathConfidence::High);
        assert!(!c.retain_missing);
    }
    for text in ["https://example.com", "mailto:a@example.com", "custom:resource", "custom+app.v1:resource%20name"] {
        assert_eq!(classify(text, false).unwrap().kind, LinkTargetKind::Uri, "target: {text:?}");
    }
    assert!(classify("std::array", true).is_none());
    assert!(classify("1http:x", false).is_none());
    assert!(classify("a=b.rs", true).is_none());
    assert!(classify("ordinary", false).is_none());
    let delimited = classify("ordinary", true).unwrap();
    assert_eq!(delimited.confidence, PathConfidence::Medium);
    assert!(!delimited.retain_missing);
    let readme = classify("README", false).unwrap();
    assert_eq!(readme.kind, LinkTargetKind::WorkspaceRelative { normalized: "README".into() });
    assert_eq!(readme.confidence, PathConfidence::Medium);
    assert_eq!(classify("TODO_LIST", false).unwrap().confidence, PathConfidence::Medium);
    let source = classify("src/main.rs", false).unwrap();
    assert_eq!(source.confidence, PathConfidence::High);
    assert!(source.retain_missing);
    let bare = classify("main.rs", false).unwrap();
    assert_eq!(bare.confidence, PathConfidence::High);
    assert!(!bare.retain_missing);
    assert!(classify("v1.2", false).is_none());
    let dotfile = classify(".gitignore", false).unwrap();
    assert!(dotfile.retain_missing);
    let dir = classify("foo/", false).unwrap();
    assert_eq!(dir.kind, LinkTargetKind::WorkspaceRelative { normalized: "foo".into() });
    assert!(dir.retain_missing);
    assert!(classify("../x/a.rs", false).is_none());
    assert_eq!(
        classify("./x/../a.rs", false).unwrap().kind,
        LinkTargetKind::WorkspaceRelative { normalized: "a.rs".into() }
    );
}

#[test]
fn tokens_lose_surrounding_punctuation() {
    assert_eq!(trim_token("(src/main.rs),"), "src/main.rs");
    assert_eq!(trim_token("https://example.com/a(b)."), "https://example.com/a(b)");
    assert_eq!(trim_token("[[x]]]"), "x");
    assert_eq!(trim_token("路径。"), "路径");
    assert_eq!(trim_token("((("), "");
    assert_eq!(trim_token("f(a)"), "f(a)");
}

#[test]
fn wrapper_brackets_give_cut_readings_that_must_exist() {
    let group = candidate_group("final-report/2_virtual_geometry_demo.html（+340/−7", false).unwrap();
    assert!(group.require_existing);
    assert_eq!(
        group.alternatives.iter().map(|c| c.target.as_str()).collect::<Vec<_>>(),
        ["final-report/2_virtual_geometry_demo.html（+340/−7", "final-report/2_virtual_geometry_demo.html"]
    );
    let uri = candidate_group("https://example.com/（x", false).unwrap();
    assert!(!uri.require_existing);
    assert_eq!(uri.alternatives.len(), 1);
    assert_eq!(uri.alternatives[0].kind, LinkTargetKind::Uri);
    let plain = candidate_group("src/main.rs", false).unwrap();
    assert!(!plain.require_existing);
    assert_eq!(plain.alternatives.len(), 1);
    assert!(candidate_group("ordinary", false).is_none());
    let capped = candidate_group("a.md（b.md（c.md（d.md（e.md", false).unwrap();
    assert!(capped.require_existing);
    assert_eq!(
        capped.alternatives.iter().map(|c| c.target.as_str()).collect::<Vec<_>>(),
        ["a.md（b.md（c.md（d.md（e.md", "a.md（b.md（c.md（d.md", "a.md（b.md（c.md", "a.md（b.md"]
    );
}

#[test]
fn filesystem_hypotheses_are_bounded_in_total() {
    let groups: Vec<LinkCandidateGroup> =
        (0..300).map(|index| candidate_group(&format!("path/{index}.rs（note"), false).unwrap()).collect();
    assert!(groups.iter().all(|group| group.alternatives.len() == 2));
    let bounded = bound_groups(groups);
    assert_eq!(bounded.len(), 128);
    assert_eq!(bounded[127].alternatives[1].target, "path/127.rs");
    let probes = bounded
        .iter()
        .flat_map(|group| &group.alternatives)
        .filter(|candidate| !matches!(candidate.kind, LinkTargetKind::Uri))
        .count();
    assert_eq!(probes, e_tui::link_copy::MAX_CANDIDATES);

    let mut mixed = vec![group(vec![relative("a.rs", false); 255])];
    mixed.push(group(vec![relative("b.rs", false), relative("c.rs", false)]));
    mixed.push(group(vec![uri("https://example.com")]));
    let bounded = bound_groups(mixed);
    assert_eq!(bounded.len(), 3);
    assert_eq!(bounded[1].alternatives.len(), 1);
    assert_eq!(bounded[1].alternatives[0].target, "b.rs");
    assert_eq!(bounded[2].alternatives[0].kind, LinkTargetKind::Uri);

    let uris: Vec<LinkCandidateGroup> = (0..300).map(|i| group(vec![uri(&format!("https://e.com/{i}"))])).collect();
    assert_eq!(bound_groups(uris).len(), 256);
}

fn scanned(text: &str, base: usize) -> Vec<(String, bool, usize)> {
    scan_text(text, base)
}

#[test]
fn scanning_splits_running_text_at_hard_boundaries() {
    assert_eq!(
        scanned("See https://example.com/docs, and", 0),
        [("See".to_string(), false, 0), ("https://example.com/docs".to_string(), false, 4), ("and".to_string(), false, 30)]
    );
    assert_eq!(
        scanned("\"a b/file.rs\" x", 0),
        [("a b/file.rs".to_string(), true, 1), ("x".to_string(), false, 14)]
    );
    assert_eq!(scanned("/opsx-apply <other>", 0), [("other".to_string(), false, 13)]);
    assert_eq!(
        scanned("路径：src/a.rs", 0),
        [("路径".to_string(), false, 0), ("src/a.rs".to_string(), false, 9)]
    );
    assert_eq!(scanned("x", 5), [("x".to_string(), false, 5)]);
    assert_eq!(scanned("(src/main.rs),", 2), [("src/main.rs".to_string(), false, 3)]);
    assert_eq!(scanned("'unclosed it", 0), [("unclosed".to_string(), false, 1), ("it".to_string(), false, 10)]);
    assert!(scanned("  \n ", 0).is_empty());
}

#[test]
fn separator_only_targets_are_rejected() {
    for target in ["/", "//", "///", r"\", r"\\", r"/\/"] {
        assert!(classify(target, true).is_none(), "target: {target:?}");
        assert!(candidate_group(target, true).is_none(), "target: {target:?}");
        assert!(candidate_group(target, false).is_none(), "target: {target:?}");
    }
}
