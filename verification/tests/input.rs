use e_tui::action::{PromptImage, PromptInput, PromptPart};
use e_tui::config::{Config, HexRgb, PaneWidthPercent, RevealRate};
use e_tui::i18n::Language;
use e_tui::input::{match_commands, normalize_paste_text, InputAction, InputState};

fn config() -> Config {
    Config {
        spinner_style: "A".into(),
        spinner_frame_ms: 80,
        theme: "deepseek-e".into(),
        config_path_display: String::new(),
        plain_color: false,
        background_color: HexRgb::from_str("#000000").unwrap(),
        input_style: "default".into(),
        language: Language::English,
        remember_last_session: true,
        default_mode: "standard".into(),
        enter_sends: true,
        paste_placeholder_chars: 1000,
        long_content_lines: 20,
        atomic_collapse_rows: 8,
        copy_toast_secs: 2,
        history_limit: 1000,
        show_model_in_status: true,
        show_tool_duration: true,
        read_merge: true,
        thinking_display: "compact".into(),
        thinking_lines: 2,
        show_timestamps: false,
        mermaid_enabled: true,
        message_chars_per_second: RevealRate::new(0).unwrap(),
        preview_lines_per_second: RevealRate::new(0).unwrap(),
        user_input_padding: 1,
        message_pane_percent: PaneWidthPercent::default_width(),
        page_max_width: 0,
        page_align: "center".into(),
    }
}

fn state() -> InputState {
    InputState::new(&config())
}

fn image(name: &str) -> PromptImage {
    PromptImage { media_type: "image/png".into(), data: vec![1, 2, 3], name: Some(name.into()) }
}

#[test]
fn paste_text_normalizes_windows_line_endings() {
    assert_eq!(normalize_paste_text("a\r\nb\rc\n"), "a\nb\nc\n");
}

#[test]
fn fuzzy_search_ranks_prefix_then_substring_then_fuzzy() {
    // Prefix match first.
    assert_eq!(match_commands("set")[0], "/settings");
    // Substring match.
    assert_eq!(match_commands("ett"), vec!["/settings"]);
    // Fuzzy subsequence (p-l-n inside "plan").
    assert_eq!(match_commands("pln"), vec!["/plan"]);
    // All prefix results come before everything else.
    let m = match_commands("c");
    assert!(m.iter().all(|c| c.starts_with("/c")), "prefix group only: {m:?}");
    assert_eq!(m.len(), 1);
}

#[test]
fn paste_over_threshold_becomes_block() {
    let mut s = state();
    s.paste_placeholder_chars = 5;
    s.paste("123456");
    assert_eq!(s.paste_blocks.len(), 1, "paste over the threshold becomes a block");
    let display = s.display_text();
    assert_eq!(display.text, "[6 text pasted]");
    assert_eq!(display.paste_ranges.len(), 1);
    assert_eq!(display.cursor, display.text.chars().count());
    assert_eq!(s.cursor, 6, "cursor sits at the end of the block");
    // A short paste stays ordinary text.
    let mut s2 = state();
    s2.paste_placeholder_chars = 5;
    s2.paste("12345");
    assert!(s2.paste_blocks.is_empty());
    assert_eq!(s2.display_text().text, "12345");
}

#[test]
fn pastes_and_images_render_in_order_and_commit_as_parts() {
    let mut s = state();
    s.paste_placeholder_chars = 3;
    s.paste("ab ");
    s.paste_image(image("cat.png"));
    s.paste("xyzw");
    let display = s.display_text();
    assert_eq!(display.text, "ab [Image cat.png][4 text pasted]");
    assert_eq!(display.paste_ranges, vec![3..18, 18..33]);
    assert!(display.is_paste_char(3) && !display.is_paste_char(2));
    let prompt = s.prompt();
    assert_eq!(prompt.parts.len(), 3);
    match s.commit() {
        InputAction::Send(sent) => assert_eq!(sent.parts.len(), 3),
        _ => panic!("expected a send"),
    }
    assert!(s.buf.is_empty());
    assert!(s.history.is_empty(), "prompts with images stay out of history");
}

#[test]
fn commands_commit_into_history_and_newlines_are_trimmed() {
    let mut s = state();
    s.history_limit = 1;
    s.restore_text("first\n\n".into());
    assert!(matches!(s.commit(), InputAction::Send(_)));
    assert_eq!(s.history, vec!["first".to_string()]);
    s.restore_text("/plan".into());
    match s.commit() {
        InputAction::Command { line, images, original } => {
            assert_eq!(line, "/plan");
            assert!(images.is_empty());
            assert_eq!(original.parts.len(), 1);
        }
        _ => panic!("expected a command"),
    }
    assert_eq!(s.history, vec!["/plan".to_string()]);
    assert!(matches!(s.commit(), InputAction::Nothing));
}

#[test]
fn history_search_is_newest_first_and_case_blind() {
    let mut s = state();
    s.history = vec!["Hello".into(), "world".into(), "help me".into()];
    assert_eq!(s.matching_history("HE"), vec!["help me".to_string(), "Hello".to_string()]);
    assert_eq!(s.matching_history("").len(), 3);
}

#[test]
fn long_image_names_are_cut_around_an_ellipsis() {
    let mut s = state();
    s.paste_image(image("a-very-long-screenshot-name-from-the-clipboard.png"));
    let text = s.display_text().text;
    assert!(text.starts_with("[Image a-very-long-scree"), "{text}");
    assert!(text.contains('…'));
    assert!(text.ends_with("board.png]"), "{text}");
}

#[test]
fn restored_prompts_keep_their_images() {
    let mut s = state();
    s.restore_prompt(PromptInput {
        parts: vec![PromptPart::Text("see ".into()), PromptPart::Image(image("x.png")), PromptPart::Text("!".into())],
    });
    assert_eq!(s.cursor, 6);
    assert_eq!(s.image_blocks.len(), 1);
    assert_eq!(s.image_blocks[0].start, 4);
    assert_eq!(s.display_text().text, "see [Image x.png]!");
}
