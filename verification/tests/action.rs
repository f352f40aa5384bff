use e_tui::action::{
    clipboard_preview, AgentRequest, DirtyState, PromptImage, PromptInput, PromptPart, UiAction,
};
use e_tui::config::{Config, HexRgb, PaneWidthPercent, RevealRate};
use e_tui::i18n::Language;

#[test]
fn dirty_state_merges_independent_frame_classes() {
    let mut dirty = DirtyState::interaction();
    dirty.merge(DirtyState::animation());
    assert!(dirty.interaction);
    assert!(!dirty.content);
    assert!(dirty.animation);
    assert!(!dirty.is_clean());
}

#[test]
fn clipboard_preview_is_grapheme_safe_single_line_and_reports_truncation() {
    assert_eq!(clipboard_preview("A界🙂éZ\nmore", 6), ("A界🙂éZ ".into(), true));
    assert_eq!(clipboard_preview("short", 6), ("short".into(), false));
}

#[test]
fn persist_config_action_owns_a_complete_snapshot() {
    let mut config = sample_config();
    config.theme = "ferra".into();
    let action = UiAction::PersistConfig(config.clone());
    config.theme = "dracula".into();
    assert!(matches!(
        action,
        UiAction::PersistConfig(snapshot) if snapshot.theme == "ferra"
    ));
}

fn sample_config() -> Config {
    Config {
        spinner_style: "A".into(),
        spinner_frame_ms: 80,
        theme: "deepseek-e".into(),
        config_path_display: String::new(),
        plain_color: false,
        background_color: HexRgb::from_str("#000000").unwrap(),
        input_style: "default".into(),
        language: Language::English,
        remember_last_session: true,
        default_mode: "standard".into(),
        enter_sends: true,
        paste_placeholder_chars: 1000,
        long_content_lines: 20,
        atomic_collapse_rows: 8,
        copy_toast_secs: 2,
        history_limit: 1000,
        show_model_in_status: true,
        show_tool_duration: true,
        read_merge: true,
        thinking_display: "compact".into(),
        thinking_lines: 2,
        show_timestamps: false,
        mermaid_enabled: true,
        message_chars_per_second: RevealRate::new(0).unwrap(),
        preview_lines_per_second: RevealRate::new(0).unwrap(),
        user_input_padding: 1,
        message_pane_percent: PaneWidthPercent::default_width(),
        page_max_width: 0,
        page_align: "center".into(),
    }
}

#[test]
fn skill_name_reads_colon_and_space_forms() {
    assert_eq!(PromptInput::text("  /skill:audit now ".into()).skill_name(), Some("audit"));
    assert_eq!(PromptInput::text("/skill imagegen".into()).skill_name(), Some("imagegen"));
    assert_eq!(PromptInput::text("/skill:".into()).skill_name(), None);
    assert_eq!(PromptInput::text("/skills x".into()).skill_name(), None);
}

#[test]
fn display_text_labels_images_and_emptiness_ignores_blank_text() {
    let image = PromptImage { media_type: "image/png".into(), data: vec![1, 2], name: None };
    let prompt = PromptInput {
        parts: vec![PromptPart::Text("x".into()), PromptPart::Image(image)],
    };
    assert_eq!(prompt.display_text(), "x[Image clipboard.png]");
    assert!(prompt.has_images());
    assert!(!prompt.is_empty());
    assert!(prompt.plain_text().is_none());
    assert!(PromptInput { parts: vec![PromptPart::Text(String::new())] }.is_empty());
}

#[test]
fn request_diagnostics_redact_credentials() {
    let request = AgentRequest::LoginSetApiKey { provider: "openai".into(), value: "sk-secret".into() };
    let text = request.debug_string();
    assert_eq!(text, "LoginSetApiKey { provider: \"openai\", value: \"<redacted>\" }");
    assert!(!text.contains("sk-secret"));
    let history = AgentRequest::History { before_sequence: 12, limit: 50 };
    assert_eq!(history.debug_string(), "History { before_sequence: 12, limit: 50 }");
    assert_eq!(AgentRequest::Ping.debug_string(), "Ping");
    let input = AgentRequest::Input { prompt: PromptInput::text("hi".into()) };
    assert_eq!(input.debug_string(), "Input(PromptInput { parts: [Text(\"hi\")] })");
}
