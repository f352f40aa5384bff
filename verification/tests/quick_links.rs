use e_tui::display::DisplayId;
use e_tui::link_copy::{
    annotate, discover, StyledSpan, TaggedLink, CandidateGroupValidation, LinkCandidate, LinkCandidateGroup, LinkCopyState, LinkTargetKind,
    LinkValidationRequest, PathValidation, MAX_ALTERNATIVES_PER_GROUP, MAX_CANDIDATES,
};

fn candidates(groups: &[LinkCandidateGroup]) -> impl Iterator<Item = &LinkCandidate> {
    groups.iter().flat_map(|group| group.alternatives.iter())
}

fn targets(source: &str) -> Vec<String> {
    candidates(&discover(source)).map(|candidate| candidate.target.clone()).collect()
}

fn raw(text: &str) -> StyledSpan {
    StyledSpan { content: text.to_string(), style: 0, copyable: true }
}

fn text_of(spans: &[StyledSpan]) -> String {
    spans.iter().map(|span| span.content.as_str()).collect()
}

fn validation(alternatives: &[PathValidation]) -> CandidateGroupValidation {
    CandidateGroupValidation { alternatives: alternatives.to_vec() }
}

fn uri_validations(request: &LinkValidationRequest) -> Vec<CandidateGroupValidation> {
    request
        .groups
        .iter()
        .map(|group| CandidateGroupValidation {
            alternatives: vec![PathValidation::NotRequired; group.alternatives.len()],
        })
        .collect()
}

#[test]
fn quick_links_after_chinese_colon_are_discovered_and_tagged() {
    let examples = [
        ("项目主页", "https://github.com/earendil-works/pi"),
        ("文档站", "https://doc.rust-lang.org/std/string/struct.String.html"),
        ("邮箱式", "mailto:dev@example.com"),
    ];
    let source = examples.iter().map(|(label, target)| format!("- {label}：{target}")).collect::<Vec<_>>().join("\n");
    let groups = discover(&source);
    assert_eq!(
        candidates(&groups).map(|candidate| candidate.target.as_str()).collect::<Vec<_>>(),
        examples.map(|(_, target)| target)
    );
    assert!(candidates(&groups).all(|candidate| matches!(candidate.kind, LinkTargetKind::Uri)));
    let tags = "1234567890abcdefghijklmnopqrstuvwxyz".chars();
    let links: Vec<_> = candidates(&groups)
        .zip(tags)
        .map(|(candidate, tag)| TaggedLink { target: candidate.target.clone(), tag })
        .collect();
    for ((label, target), link) in examples.iter().zip(&links) {
        let line = vec![raw(&format!("◦ {label}：{target}"))];
        let line = annotate(line, &links, 0);
        assert_eq!(text_of(&line), format!("◦ {label}：{target}~{}", link.tag));
    }
}

#[test]
fn quick_links_reject_bare_slash() {
    for source in ["/", "left / right", "(/), /.", "`/`", "\"/\" '/'", "```text\n/\n```", "[root](/)", "![root](/)"] {
        assert!(discover(source).is_empty(), "source: {source:?}");
    }
    assert_eq!(targets("/ /tmp /tmp/ https://example.com/ src/main"), ["/tmp", "/tmp/", "https://example.com/", "src/main"]);
}

#[test]
fn quick_links_reject_separator_only_targets_in_all_contexts() {
    for target in ["/", "//", "///", r"\", r"\\", r"/\/"] {
        for source in [
            target.to_owned(),
            format!("left ({target}), right"),
            format!("`{target}`"),
            format!("\"{target}\""),
            format!("```text\n{target}\n```"),
            format!("[root]({target})"),
            format!("![root]({target})"),
        ] {
            assert!(discover(&source).is_empty(), "source: {source:?}");
        }
    }
}

#[test]
fn quick_links_reject_cpp_scopes_but_keep_real_targets() {
    let code = "std::array<WorldEmitterArchetype, PARTICLE_SYSTEM_MAX_EMITTERS> slots = {};\n\
                std::array<uint32_t, PARTICLE_SYSTEM_MAX_EMITTERS> entrypoints = {};\n\
                const uint32_t entrypoint = drh1::work_graph_entrypoint_index(\n\
                lookup.program->entrypoints, L\"prepare_by_behavior\", group.behavior_index);\n\
                // comment";
    for source in [code.to_owned(), format!("```cpp\n{code}\n```")] {
        let groups = discover(&source);
        assert!(
            candidates(&groups).all(|candidate| matches!(candidate.kind, LinkTargetKind::WorkspaceRelative { .. })),
            "false URI/absolute path: {groups:?}"
        );
    }
    for target in ["std::array", "drh1::work_graph_entrypoint_index()"] {
        for source in [target.to_owned(), format!("`{target}`")] {
            assert!(discover(&source).is_empty(), "source: {source:?}");
        }
    }
    let expected = [
        "https://example.com",
        "mailto:a@example.com",
        "custom:resource",
        "https://[::1]/",
        "https://example.com/std::array",
        "/tmp/file",
        "//server/share",
        r"\\server\share",
        r"C:\src\main.cpp",
    ];
    for source in [
        expected.map(|target| format!("`{target}`")).join(" "),
        format!("```text\n{}\n```", expected.join(" ")),
    ] {
        assert_eq!(targets(&source), expected);
    }
}

#[test]
fn quick_links_reject_uri_whitespace_but_keep_paths_and_encoded_uris() {
    for text in [
        "feat: refine skill reads, preview and link targets",
        "note:some ordinary prose",
        "note:\u{a0}prose",
        "note:\u{3000}prose",
    ] {
        for source in [text.to_owned(), format!("`{text}`"), format!("\"{text}\""), format!("```text\n{text}\n```")] {
            assert!(targets(&source).iter().all(|candidate| candidate != text), "false URI: {source:?}");
        }
        assert!(e_tui::link_copy::classify(text, true).is_none(), "target: {text:?}");
    }
    let expected = [
        "custom:resource",
        "custom+app.v1:resource%20name",
        "https://example.com/a%20b",
        "mailto:a@example.com",
        r"C:\Program Files\app.exe",
        "/tmp/my file.txt",
        "src/my file.rs",
    ];
    for source in [
        expected.map(|target| format!("`{target}`")).join(" "),
        expected.map(|target| format!("\"{target}\"")).join(" "),
    ] {
        assert_eq!(targets(&source), expected);
    }
    assert!(discover("`feat: refine skill reads, preview and link targets`").is_empty());
}

#[test]
fn quick_links_do_not_join_space_separated_command_syntax() {
    assert_eq!(targets("/opsx-apply <other>"), Vec::<&str>::new());
    assert_eq!(targets(r#""/opsx-apply <other>""#), ["/opsx-apply <other>"]);
}

#[test]
fn quick_links_discover_mixed_paths_without_probing_prose() {
    let groups = discover(
        r"See https://example.com/docs, C:\Users\test\README.md and /tmp/session.jsonl. `src/main` README Makefile .gitignore foo/ src\lib.rs ../escape `a b/file.rs` [guide](https://example.com/docs)",
    );
    let values: Vec<_> = candidates(&groups).map(|candidate| candidate.target.as_str()).collect();
    assert_eq!(
        values,
        [
            "https://example.com/docs",
            r"C:\Users\test\README.md",
            "/tmp/session.jsonl",
            "src/main",
            "README",
            "Makefile",
            ".gitignore",
            "foo/",
            r"src\lib.rs",
            "a b/file.rs"
        ]
    );
    assert!(discover("ordinary lowercase prose without paths").is_empty());
    assert_eq!(targets("[src/first.rs](src/second.rs)"), ["src/first.rs", "src/second.rs"]);
    assert_eq!(targets(r#""C:\Program Files\app.exe" "src/a b.rs""#), [r"C:\Program Files\app.exe", "src/a b.rs"]);
    assert_eq!(e_tui::link_copy::relative_path("src/../README").as_deref(), Some("README"));
    assert_eq!(e_tui::link_copy::relative_path("src/../../outside"), None);
    assert_eq!(
        discover("mailto:a@example.com https://example.com/a(b).")[1].alternatives[0].target,
        "https://example.com/a(b)"
    );
}

#[test]
fn quick_links_group_chinese_wrapper_hypotheses_and_require_existence() {
    let source = "final-report/2_virtual_geometry_demo.html（+340/−7 行）";
    let groups = discover(source);
    assert_eq!(groups.len(), 1);
    assert!(groups[0].require_existing);
    assert_eq!(
        groups[0].alternatives.iter().map(|candidate| candidate.target.as_str()).collect::<Vec<_>>(),
        ["final-report/2_virtual_geometry_demo.html（+340/−7", "final-report/2_virtual_geometry_demo.html",]
    );

    let resolve = |statuses: &[PathValidation]| {
        let mut state = LinkCopyState::default();
        let request = state.select(DisplayId::event(1, "answer"), source, "root").unwrap();
        assert!(state.complete(&request, &[validation(statuses)]));
        state.links.first().map(|link| link.target.clone())
    };
    assert_eq!(
        resolve(&[PathValidation::Missing, PathValidation::Exists]).as_deref(),
        Some("final-report/2_virtual_geometry_demo.html")
    );
    assert_eq!(
        resolve(&[PathValidation::Exists, PathValidation::Exists]).as_deref(),
        Some("final-report/2_virtual_geometry_demo.html（+340/−7")
    );
    assert_eq!(
        resolve(&[PathValidation::Exists, PathValidation::Missing]).as_deref(),
        Some("final-report/2_virtual_geometry_demo.html（+340/−7")
    );
    assert_eq!(resolve(&[PathValidation::Missing, PathValidation::Missing]), None);
}

#[test]
fn quick_links_bound_total_filesystem_hypotheses() {
    let source = (0..300).map(|index| format!("path/{index}.rs（note")).collect::<Vec<_>>().join(" ");
    let groups = discover(&source);
    assert!(groups.len() <= MAX_CANDIDATES);
    assert!(groups.iter().all(|group| group.alternatives.len() <= MAX_ALTERNATIVES_PER_GROUP));
    assert!(
        groups
            .iter()
            .flat_map(|group| &group.alternatives)
            .filter(|candidate| !matches!(candidate.kind, LinkTargetKind::Uri))
            .count()
            <= MAX_CANDIDATES
    );
}

#[test]
fn quick_links_capacity_validation_and_stale_generation() {
    let mut state = LinkCopyState::default();
    let source = (0..40).map(|i| format!("https://example.com/{i}")).collect::<Vec<_>>().join(" ");
    let request = state.select(DisplayId::event(1, "answer"), &source, "root").unwrap();
    let validations = uri_validations(&request);
    assert!(state.complete(&request, &validations));
    assert_eq!(state.links.len(), 36);
    assert_eq!(state.links[0].tag, '1');
    assert_eq!(state.links[9].tag, '0');
    assert_eq!(state.links[35].tag, 'z');
    state.clear();
    assert!(!state.complete(&request, &validations));
    let request = state.select(DisplayId::event(2, "answer"), "src/main ./missing.txt ./escape.txt README", "root").unwrap();
    assert!(state.complete(
        &request,
        &[
            validation(&[PathValidation::Exists]),
            validation(&[PathValidation::Missing]),
            validation(&[PathValidation::Rejected]),
            validation(&[PathValidation::Missing]),
        ]
    ));
    assert_eq!(state.links.iter().map(|link| link.target.as_str()).collect::<Vec<_>>(), ["src/main", "./missing.txt"]);
}

#[test]
fn reselecting_the_same_item_asks_nothing() {
    let mut state = LinkCopyState::default();
    assert!(state.select(DisplayId::event(1, "answer"), "src/main.rs", "root").is_some());
    assert!(state.select(DisplayId::event(1, "answer"), "src/main.rs", "root").is_none());
    assert!(state.select(DisplayId::event(1, "answer"), "src/main.rs", "other").is_some());
}

#[test]
fn quick_links_soft_boundaries_annotate_and_longest_overlap_wins() {
    let wrappers = ['（', '【', '〔', '《', '〈', '［', '｛'];
    let line = vec![raw(&wrappers.iter().map(|wrapper| format!("src/main.rs{wrapper}note")).collect::<Vec<_>>().join(" "))];
    let line = annotate(line, &[TaggedLink { target: "src/main.rs".into(), tag: '1' }], 0);
    for wrapper in wrappers {
        assert!(text_of(&line).contains(&format!("src/main.rs~1{wrapper}")));
    }

    let line = vec![raw("path（note） path")];
    let line = annotate(
        line,
        &[TaggedLink { target: "path".into(), tag: '1' }, TaggedLink { target: "path（note）".into(), tag: '2' }],
        0,
    );
    assert_eq!(text_of(&line), "path（note）~2 path~1");
}

#[test]
fn quick_links_suffix_crosses_styles_without_changing_source_text() {
    let line = vec![raw("see src/"), raw("main and src/mainly")];
    let line = annotate(line, &[TaggedLink { target: "src/main".into(), tag: '1' }], 0);
    assert_eq!(text_of(&line), "see src/main~1 and src/mainly");
}

#[test]
fn suffix_spans_keep_neighbouring_styles_and_are_not_copyable() {
    let line = vec![
        StyledSpan { content: "see src/".into(), style: 7, copyable: true },
        StyledSpan { content: "main now".into(), style: 9, copyable: true },
    ];
    let line = annotate(line, &[TaggedLink { target: "src/main".into(), tag: 'a' }], 3);
    assert_eq!(
        line,
        vec![
            StyledSpan { content: "see src/".into(), style: 7, copyable: true },
            StyledSpan { content: "main".into(), style: 9, copyable: true },
            StyledSpan { content: "~a".into(), style: 3, copyable: false },
            StyledSpan { content: " now".into(), style: 9, copyable: true },
        ]
    );
    let untouched = vec![raw("nothing here")];
    assert_eq!(annotate(untouched.clone(), &[], 3), untouched);
}
