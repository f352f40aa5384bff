use e_tui::agent::tool::{workspace_relative_path, ToolReference};
use e_tui::preview::{PreviewContent, PreviewRef, PreviewRevision};

#[test]
fn file_references_preview_the_path_inline_without_deferring() {
    let revision = PreviewRevision(1);
    for reference in [
        ToolReference::Path { path: "src/main.rs".into() },
        ToolReference::Lines { path: "src/main.rs".into(), start: 3, lines: Vec::new() },
    ] {
        let preview = reference.preview_reference("tool:1", revision).unwrap();
        assert!(
            matches!(
                &preview,
                PreviewRef::Inline { content: PreviewContent::Path(path), .. } if path == "src/main.rs"
            ),
            "file references must preview the path, never defer content: {preview:?}"
        );
    }
}

#[test]
fn relativized_rewrites_inside_paths_and_keeps_outside_absolute() {
    let workspace = Some(r"G:\workspace");
    let inside = ToolReference::Lines {
        path: r"G:\workspace\src\main.rs".into(),
        start: 1,
        lines: Vec::new(),
    };
    assert!(matches!(
        inside.relativized(workspace),
        ToolReference::Lines { path, .. } if path == "src/main.rs"
    ));
    let already_relative = ToolReference::Path { path: "src/main.rs".into() };
    assert!(matches!(
        already_relative.relativized(workspace),
        ToolReference::Path { path } if path == "src/main.rs"
    ));
    let outside = ToolReference::Path { path: r"C:\other\lib.rs".into() };
    assert!(matches!(
        outside.relativized(workspace),
        ToolReference::Path { path } if path == "C:/other/lib.rs"
    ));
}

#[test]
fn workspace_relative_path_keeps_the_workspace_root_itself() {
    assert_eq!(workspace_relative_path("/work/a/b.rs", Some("/work")), "a/b.rs");
    assert_eq!(workspace_relative_path("relative/x", None), "relative/x");
    assert_eq!(workspace_relative_path("/work/", Some("/work")), ".");
}
