use e_tui::action::{PromptImage, PromptInput, PromptPart};
use e_tui::agent::Skill;
use e_tui::catalog::CatalogModel;
use e_tui::command_catalog::{builtin_commands, CommandDescriptor, NewMode};
use e_tui::config::{Config, HexRgb, PaneWidthPercent, RevealRate};
use e_tui::i18n::Language;
use e_tui::input::keys::{KeyCode, KeyPress};
use e_tui::input::{InputAction, InputState, PasteBlock, SuggestionKind};

fn config() -> Config {
    Config {
        spinner_style: "A".into(),
        spinner_frame_ms: 80,
        theme: "deepseek-e".into(),
        config_path_display: String::new(),
        plain_color: false,
        background_color: HexRgb::from_str("#000000").unwrap(),
        input_style: "default".into(),
        language: Language::English,
        remember_last_session: true,
        default_mode: "standard".into(),
        enter_sends: true,
        paste_placeholder_chars: 1000,
        long_content_lines: 20,
        atomic_collapse_rows: 8,
        copy_toast_secs: 2,
        history_limit: 1000,
        show_model_in_status: true,
        show_tool_duration: true,
        read_merge: true,
        thinking_display: "compact".into(),
        thinking_lines: 2,
        show_timestamps: false,
        mermaid_enabled: true,
        message_chars_per_second: RevealRate::new(0).unwrap(),
        preview_lines_per_second: RevealRate::new(0).unwrap(),
        user_input_padding: 1,
        message_pane_percent: PaneWidthPercent::default_width(),
        page_max_width: 0,
        page_align: "center".into(),
    }
}

fn state() -> InputState {
    InputState::new(&config())
}

fn key(code: KeyCode) -> KeyPress {
    KeyPress { code, ctrl: false, shift: false, alt: false }
}

fn ctrl(c: char) -> KeyPress {
    KeyPress { code: KeyCode::Char(c), ctrl: true, shift: false, alt: false }
}

fn with(code: KeyCode, ctrl: bool, shift: bool, alt: bool) -> KeyPress {
    KeyPress { code, ctrl, shift, alt }
}

fn image(name: &str) -> PromptImage {
    PromptImage { media_type: "image/png".into(), data: vec![1, 2, 3], name: Some(name.into()) }
}

fn text_of(prompt: &PromptInput) -> Option<String> {
    match prompt.parts.as_slice() {
        [PromptPart::Text(t)] => Some(t.clone()),
        _ => None,
    }
}

fn sent_text(action: &InputAction) -> Option<String> {
    match action {
        InputAction::Send(p) => text_of(p),
        _ => None,
    }
}

fn type_str(s: &mut InputState, text: &str, catalogs: &CatalogModel) {
    for c in text.chars() {
        s.handle_key_with_catalog(key(KeyCode::Char(c)), true, catalogs);
    }
}

fn typed(s: &mut InputState, text: &str) {
    type_str(s, text, &CatalogModel::new());
}

fn press(s: &mut InputState, k: KeyPress) -> InputAction {
    s.handle_key(k, true)
}

#[test]
fn image_blocks_render_atomically_and_truncate_long_names() {
    let mut input = state();
    input.paste_image(image("very-long-图片-capture-filename-that-keeps-going.png"));
    let display = input.display_text();
    assert!(display.text.starts_with("[Image "));
    assert!(display.text.ends_with(".png]"));
    assert!(display.text.contains('…'));
    assert_eq!(input.buf, '\u{fffc}'.to_string());
    press(&mut input, key(KeyCode::Left));
    assert_eq!(input.cursor, 0, "Left skips the complete image block");
    press(&mut input, key(KeyCode::Right));
    assert_eq!(input.cursor, 1, "Right skips the complete image block");
    press(&mut input, key(KeyCode::Backspace));
    assert!(input.buf.is_empty());
    assert!(input.image_blocks.is_empty());
    input.paste_image(image("delete.png"));
    press(&mut input, key(KeyCode::Left));
    press(&mut input, key(KeyCode::Delete));
    assert!(input.buf.is_empty());
    assert!(input.image_blocks.is_empty());
}

#[test]
fn mixed_and_image_only_commits_preserve_order_without_marker_text() {
    let mut input = state();
    input.paste("before ");
    input.paste_image(image("clip.png"));
    input.paste(" after");
    match press(&mut input, key(KeyCode::Enter)) {
        InputAction::Send(p) => {
            assert_eq!(p.parts.len(), 3);
            assert!(matches!(&p.parts[0], PromptPart::Text(t) if t == "before "));
            assert!(matches!(&p.parts[1], PromptPart::Image(i) if i.name.as_deref() == Some("clip.png")));
            assert!(matches!(&p.parts[2], PromptPart::Text(t) if t == " after"));
        }
        _ => panic!("expected a send"),
    }
    input.paste_image(image("clip.png"));
    match press(&mut input, key(KeyCode::Enter)) {
        InputAction::Send(p) => {
            assert_eq!(p.parts.len(), 1);
            assert!(matches!(&p.parts[0], PromptPart::Image(_)));
        }
        _ => panic!("expected a send"),
    }
    input.restore_prompt(PromptInput {
        parts: vec![PromptPart::Text("x".into()), PromptPart::Image(image("clip.png"))],
    });
    assert_eq!(input.display_text().text, "x[Image clip.png]");
}

#[test]
fn history_search_filters_and_loads() {
    let mut s = state();
    s.history = vec!["hello".into(), "world".into(), "help me".into()];
    press(&mut s, ctrl('r'));
    assert!(s.search.is_some());
    typed(&mut s, "he");
    press(&mut s, key(KeyCode::Enter));
    assert_eq!(s.buf, "help me");
    assert!(s.search.is_none());
}

#[test]
fn tab_completes_commands() {
    let mut s = state();
    typed(&mut s, "/set");
    press(&mut s, key(KeyCode::Tab));
    assert_eq!(s.buf, "/settings");
}

#[test]
fn ctrl_c_clears_input_when_non_empty() {
    let mut s = state();
    typed(&mut s, "abc");
    assert!(!s.buf.is_empty());
    let action = press(&mut s, ctrl('c'));
    assert!(matches!(action, InputAction::Nothing));
    assert!(s.buf.is_empty(), "Ctrl+C clears the input bar");
}

#[test]
fn ctrl_c_quits_only_when_idle_and_empty() {
    let mut s = state();
    assert!(matches!(s.handle_key(ctrl('c'), false), InputAction::Nothing));
    assert!(matches!(s.handle_key(ctrl('c'), true), InputAction::Quit));
}

#[test]
fn ctrl_p_is_reserved_for_preview_toggle() {
    let mut s = state();
    assert!(matches!(press(&mut s, ctrl('p')), InputAction::PreviewToggle));
    assert!(matches!(press(&mut s, ctrl('y')), InputAction::ReadingToggle));
}

#[test]
fn esc_interrupts_while_running() {
    let mut s = state();
    assert!(matches!(s.handle_key(key(KeyCode::Esc), false), InputAction::Interrupt));
    assert!(matches!(s.handle_key(key(KeyCode::Esc), true), InputAction::Nothing));
}

#[test]
fn exit_commands_are_slash_commands() {
    let mut s = state();
    typed(&mut s, "/quit");
    let action = press(&mut s, key(KeyCode::Enter));
    assert!(matches!(action, InputAction::Command { line, images, .. } if line == "/quit" && images.is_empty()));
}

#[test]
fn slash_opens_full_command_list() {
    let mut s = state();
    press(&mut s, key(KeyCode::Char('/')));
    let suggest = s.suggest.as_ref().expect("popup opens on /");
    assert_eq!(suggest.matches.len(), builtin_commands().len());
    assert_eq!(suggest.query, "/");
    assert_eq!(suggest.sel, 0);
}

#[test]
fn live_directory_change_refreshes_an_open_popup() {
    let mut s = state();
    press(&mut s, key(KeyCode::Char('/')));
    let catalogs = CatalogModel {
        integrated_commands: vec![CommandDescriptor {
            name: "feedback".into(),
            description: "record feedback".into(),
            input_hint: None,
        }],
        ..CatalogModel::new()
    };
    s.catalog_changed(&catalogs);
    assert!(s.suggest.as_ref().unwrap().matches.iter().any(|item| item == "/feedback"));
}

#[test]
fn up_down_navigate_and_fill_buffer() {
    let mut s = state();
    press(&mut s, key(KeyCode::Char('/')));
    let list = s.suggest.as_ref().unwrap().matches.to_vec();
    press(&mut s, key(KeyCode::Down));
    assert_eq!(s.buf, list[1], "Down fills the next command");
    assert_eq!(s.suggest.as_ref().unwrap().sel, 1);
    assert_eq!(s.suggest.as_ref().unwrap().matches.len(), list.len(), "list stays open");
    press(&mut s, key(KeyCode::Up));
    assert_eq!(s.buf, list[0]);
    assert_eq!(s.cursor, s.buf.chars().count());
}

#[test]
fn up_at_popup_top_recalls_previous_prompt() {
    let mut s = state();
    s.history = vec!["a previous prompt".into()];
    typed(&mut s, "/set");
    assert!(s.suggest.is_some());
    press(&mut s, key(KeyCode::Up));
    assert_eq!(s.buf, "a previous prompt");
    assert!(s.suggest.is_none(), "popup closes at the boundary");
}

#[test]
fn down_at_popup_bottom_restores_draft_instead_of_wrapping() {
    let mut s = state();
    s.history = vec!["/compact".into()];
    press(&mut s, key(KeyCode::Char('/')));
    press(&mut s, key(KeyCode::Up));
    assert_eq!(s.buf, "/compact");
    assert_eq!(s.suggest.as_ref().unwrap().matches.len(), 1);
    press(&mut s, key(KeyCode::Down));
    assert_eq!(s.buf, "/");
    assert!(s.hist_idx.is_none());
}

#[test]
fn tab_completes_partial_row_before_advancing() {
    let mut s = state();
    typed(&mut s, "/res");
    press(&mut s, key(KeyCode::Tab));
    assert_eq!(s.buf, "/resume", "first Tab completes the row");
    let sel = s.suggest.as_ref().unwrap().sel;
    assert_eq!(s.suggest.as_ref().unwrap().matches[sel], "/resume");
    let mut s2 = state();
    typed(&mut s2, "/r");
    press(&mut s2, key(KeyCode::Tab));
    assert_eq!(s2.buf, "/read", "first Tab completes");
    press(&mut s2, key(KeyCode::Tab));
    assert_eq!(s2.buf, "/reload", "second Tab advances to the next row");
    assert_eq!(s2.suggest.as_ref().unwrap().sel, 1);
}

#[test]
fn esc_restores_typed_query() {
    let mut s = state();
    typed(&mut s, "/r");
    assert!(s.suggest.is_some());
    press(&mut s, key(KeyCode::Down));
    assert_eq!(s.buf, "/reload");
    press(&mut s, key(KeyCode::Esc));
    assert_eq!(s.buf, "/r", "Esc restores what was typed");
    assert!(s.suggest.is_none());
}

#[test]
fn enter_sends_selected_command() {
    let mut s = state();
    press(&mut s, key(KeyCode::Char('/')));
    let list = s.suggest.as_ref().unwrap().matches.to_vec();
    press(&mut s, key(KeyCode::Down));
    let action = press(&mut s, key(KeyCode::Enter));
    assert!(matches!(action, InputAction::Command { line, images, .. } if line == list[1] && images.is_empty()));
    assert!(s.buf.is_empty());
    assert!(s.suggest.is_none());
}

#[test]
fn enter_sends_highlight_even_without_navigation() {
    let mut s = state();
    typed(&mut s, "/set");
    let action = press(&mut s, key(KeyCode::Enter));
    assert!(matches!(action, InputAction::Command { line, images, .. } if line == "/settings" && images.is_empty()));
}

#[test]
fn space_closes_suggestions() {
    let mut s = state();
    press(&mut s, key(KeyCode::Char('/')));
    assert!(s.suggest.is_some());
    press(&mut s, key(KeyCode::Char('s')));
    assert!(s.suggest.is_some());
    press(&mut s, key(KeyCode::Char(' ')));
    assert!(s.suggest.is_none());
}

fn sample_skills() -> Vec<Skill> {
    vec![
        Skill { name: "brooks-audit".into(), description: "Audit architecture".into() },
        Skill { name: "code-review".into(), description: "Review a change".into() },
        Skill { name: "imagegen".into(), description: "Generate an image".into() },
    ]
}

fn skill_catalogs() -> CatalogModel {
    CatalogModel { skills: sample_skills(), ..CatalogModel::new() }
}

#[test]
fn skill_command_immediately_opens_skill_completion() {
    let mut s = state();
    type_str(&mut s, "/skill", &skill_catalogs());
    let suggest = s.suggest.as_ref().expect("skill roster opens at /skill");
    assert_eq!(suggest.kind, SuggestionKind::Skills);
    assert_eq!(suggest.matches, vec!["/skill:brooks-audit", "/skill:code-review", "/skill:imagegen"]);
    assert_eq!(suggest.descriptions[0], "Audit architecture");
}

#[test]
fn skill_completion_filters_colon_and_space_forms_to_canonical_colon() {
    let mut colon = state();
    type_str(&mut colon, "/skill:aud", &skill_catalogs());
    assert_eq!(colon.suggest.as_ref().unwrap().matches, vec!["/skill:brooks-audit"]);
    let mut space = state();
    type_str(&mut space, "/skill image", &skill_catalogs());
    assert_eq!(space.suggest.as_ref().unwrap().matches, vec!["/skill:imagegen"]);
}

#[test]
fn skill_directory_change_refreshes_an_open_popup() {
    let mut s = state();
    typed(&mut s, "/skill");
    assert!(s.suggest.is_none());
    s.catalog_changed(&skill_catalogs());
    assert_eq!(s.suggest.as_ref().unwrap().kind, SuggestionKind::Skills);
}

fn sample_modes() -> Vec<NewMode> {
    vec![
        NewMode { id: "standard".into(), name: Some("标准模式".into()), description: Some("功能完整".into()) },
        NewMode { id: "code".into(), name: Some("PTC 模式".into()), description: None },
        NewMode { id: "minimal".into(), name: Some("极简模式".into()), description: Some("双工具".into()) },
        NewMode { id: "cordis".into(), name: Some("创造模式".into()), description: None },
    ]
}

fn mode_catalogs() -> CatalogModel {
    CatalogModel { new_modes: sample_modes(), ..CatalogModel::new() }
}

#[test]
fn new_space_opens_mode_popup() {
    let mut s = state();
    type_str(&mut s, "/new ", &mode_catalogs());
    let suggest = s.suggest.as_ref().expect("mode popup opens after /new<space>");
    assert_eq!(suggest.kind, SuggestionKind::Modes);
    assert_eq!(suggest.matches.len(), 4, "empty query lists every mode");
    assert_eq!(suggest.matches[0], "/new standard", "roster order is kept");
    assert_eq!(suggest.descriptions[0], "标准模式");
    assert_eq!(suggest.query, "/new ");
    assert_eq!(suggest.sel, 0);
}

#[test]
fn new_mode_query_filters_by_id_and_name() {
    let mut s = state();
    type_str(&mut s, "/new m", &mode_catalogs());
    let suggest = s.suggest.as_ref().expect("popup stays for a partial mode");
    assert_eq!(suggest.matches, vec!["/new minimal"], "id prefix match");
    assert_eq!(suggest.descriptions, vec!["极简模式"]);
    let mut s2 = state();
    type_str(&mut s2, "/new 创造", &mode_catalogs());
    let suggest2 = s2.suggest.as_ref().expect("name match opens the popup");
    assert_eq!(suggest2.matches, vec!["/new cordis"]);
}

#[test]
fn new_mode_popup_closes_without_roster_or_on_second_space() {
    let mut s = state();
    typed(&mut s, "/new ");
    assert!(s.suggest.is_none(), "no popup until the bridge sends the presets roster");
    s.handle_key_with_catalog(key(KeyCode::Char('m')), true, &mode_catalogs());
    assert!(s.suggest.is_some());
    s.handle_key_with_catalog(key(KeyCode::Char(' ')), true, &mode_catalogs());
    assert!(s.suggest.is_none(), "a second space leaves the command line");
}

#[test]
fn new_mode_navigation_and_enter_send_the_mode() {
    let mut s = state();
    let c = mode_catalogs();
    type_str(&mut s, "/new ", &c);
    s.handle_key_with_catalog(key(KeyCode::Down), true, &c);
    assert_eq!(s.buf, "/new code", "Down fills the next mode");
    let action = s.handle_key_with_catalog(key(KeyCode::Enter), true, &c);
    assert!(matches!(action, InputAction::Command { line, images, .. } if line == "/new code" && images.is_empty()));
    assert!(s.buf.is_empty());
    assert!(s.suggest.is_none());
}

#[test]
fn new_mode_tab_cycles_and_esc_restores_query() {
    let mut s = state();
    let c = mode_catalogs();
    type_str(&mut s, "/new m", &c);
    assert!(s.suggest.is_some());
    s.handle_key_with_catalog(key(KeyCode::Tab), true, &c);
    assert_eq!(s.buf, "/new minimal");
    s.handle_key_with_catalog(key(KeyCode::Esc), true, &c);
    assert_eq!(s.buf, "/new m", "Esc restores the typed query");
    assert!(s.suggest.is_none());
}

#[test]
fn new_tab_fills_first_mode_when_popup_is_closed() {
    let mut s = state();
    let c = mode_catalogs();
    type_str(&mut s, "/new ", &c);
    assert!(s.suggest.is_some(), "popup opens on the space");
    s.handle_key_with_catalog(key(KeyCode::Esc), true, &c);
    s.handle_key_with_catalog(key(KeyCode::Tab), true, &c);
    assert_eq!(s.buf, "/new standard", "Tab fills the first mode");
}

#[test]
fn enter_always_sends_even_with_legacy_config_false() {
    let mut cfg = config();
    cfg.enter_sends = false;
    let mut s = InputState::new(&cfg);
    press(&mut s, key(KeyCode::Char('a')));
    assert_eq!(sent_text(&press(&mut s, key(KeyCode::Enter))), Some("a".to_string()));
    assert!(s.buf.is_empty());
}

#[test]
fn ctrl_enter_marks_an_ordinary_prompt_for_after_turn_delivery() {
    let mut s = state();
    s.handle_key(key(KeyCode::Char('a')), false);
    match s.handle_key(with(KeyCode::Enter, true, false, false), false) {
        InputAction::SendAfterTurn(p) => assert_eq!(text_of(&p), Some("a".to_string())),
        _ => panic!("expected an after-turn send"),
    }
}

#[test]
fn shift_enter_inserts_newline() {
    let mut s = state();
    press(&mut s, key(KeyCode::Char('a')));
    let action = press(&mut s, with(KeyCode::Enter, false, true, false));
    assert!(matches!(action, InputAction::Nothing), "Shift+Enter must not send");
    assert_eq!(s.buf, "a\n");
    assert!(s.multiline);
    press(&mut s, with(KeyCode::Enter, false, true, false));
    assert_eq!(s.buf, "a\n\n");
    let action = press(&mut s, key(KeyCode::Enter));
    assert_eq!(sent_text(&action), Some("a".to_string()));
    assert!(!s.multiline);
    assert!(s.buf.is_empty());
}

#[test]
fn enter_after_newline_sends_multiline_content() {
    let mut s = state();
    press(&mut s, key(KeyCode::Char('a')));
    press(&mut s, with(KeyCode::Enter, false, true, false));
    press(&mut s, key(KeyCode::Char('b')));
    let action = press(&mut s, key(KeyCode::Enter));
    assert_eq!(sent_text(&action), Some("a\nb".to_string()));
    assert!(!s.multiline);
}

#[test]
fn shift_enter_closes_suggestion_and_breaks() {
    let mut s = state();
    press(&mut s, key(KeyCode::Char('/')));
    assert!(s.suggest.is_some());
    let action = press(&mut s, with(KeyCode::Enter, false, true, false));
    assert!(matches!(action, InputAction::Nothing), "popup Enter must not fire on Shift+Enter");
    assert!(s.suggest.is_none());
    assert_eq!(s.buf, "/\n");
}

#[test]
fn alt_enter_toggles_multiline() {
    let mut s = state();
    press(&mut s, key(KeyCode::Char('a')));
    let action = press(&mut s, with(KeyCode::Enter, false, false, true));
    assert!(matches!(action, InputAction::ToggleMultiline));
    assert!(s.multiline);
    let action = press(&mut s, with(KeyCode::Enter, false, false, true));
    assert!(matches!(action, InputAction::ToggleMultiline));
    assert!(!s.multiline);
}

#[test]
fn paste_block_cursor_is_atomic() {
    let mut s = state();
    s.paste_placeholder_chars = 5;
    typed(&mut s, "ab");
    s.paste("123456");
    typed(&mut s, "cd");
    assert_eq!(s.buf, "ab123456cd");
    press(&mut s, key(KeyCode::Left));
    assert_eq!(s.cursor, 9, "Left moves before 'd'");
    press(&mut s, key(KeyCode::Left));
    assert_eq!(s.cursor, 8, "Left stops at the block end");
    press(&mut s, key(KeyCode::Left));
    assert_eq!(s.cursor, 2, "Left skips across the block");
    press(&mut s, key(KeyCode::Right));
    assert_eq!(s.cursor, 8, "Right skips across the block");
    press(&mut s, key(KeyCode::Backspace));
    assert_eq!(s.buf, "abcd");
    assert!(s.paste_blocks.is_empty());
    assert_eq!(s.cursor, 2);
    s.paste("123456");
    press(&mut s, key(KeyCode::Left));
    press(&mut s, key(KeyCode::Delete));
    assert_eq!(s.buf, "abcd");
    assert!(s.paste_blocks.is_empty());
}

#[test]
fn ctrl_backspace_deletes_word_with_whitespace() {
    let ctrl_bs = with(KeyCode::Backspace, true, false, false);
    let mut s = state();
    typed(&mut s, "hello world");
    press(&mut s, ctrl_bs);
    assert_eq!(s.buf, "hello");
    assert_eq!(s.cursor, 5);
    press(&mut s, ctrl_bs);
    assert_eq!(s.buf, "");
    let mut s = state();
    typed(&mut s, "a   b");
    press(&mut s, ctrl_bs);
    assert_eq!(s.buf, "a");
    let mut s = state();
    typed(&mut s, "a   ");
    press(&mut s, ctrl_bs);
    assert_eq!(s.buf, "");
    let mut s = state();
    typed(&mut s, "hello");
    press(&mut s, key(KeyCode::Left));
    press(&mut s, key(KeyCode::Left));
    press(&mut s, ctrl_bs);
    assert_eq!(s.buf, "lo");
    assert_eq!(s.cursor, 0);
}

#[test]
fn ctrl_backspace_word_units() {
    let ctrl_bs = with(KeyCode::Backspace, true, false, false);
    let mut s = state();
    typed(&mut s, "你好世界");
    press(&mut s, ctrl_bs);
    assert_eq!(s.buf, "你好世");
    let mut s = state();
    typed(&mut s, "hello你好");
    press(&mut s, ctrl_bs);
    assert_eq!(s.buf, "hello你");
    press(&mut s, ctrl_bs);
    assert_eq!(s.buf, "hello");
    let mut s = state();
    typed(&mut s, "foo_bar");
    press(&mut s, ctrl_bs);
    assert_eq!(s.buf, "");
    let mut s = state();
    typed(&mut s, "foo ...");
    press(&mut s, ctrl_bs);
    assert_eq!(s.buf, "foo");
    let mut s = state();
    typed(&mut s, "cafe\u{301}");
    press(&mut s, ctrl_bs);
    assert_eq!(s.buf, "");
    let mut s = state();
    typed(&mut s, "ｶﾅ");
    press(&mut s, ctrl_bs);
    assert_eq!(s.buf, "ｶ");
    let mut s = state();
    typed(&mut s, "\u{1aff0}\u{1aff1}");
    press(&mut s, ctrl_bs);
    assert_eq!(s.buf, "\u{1aff0}");
    let mut s = state();
    typed(&mut s, "\u{2ebf0}\u{2ebf1}");
    press(&mut s, ctrl_bs);
    assert_eq!(s.buf, "\u{2ebf0}");
}

#[test]
fn alt_backspace_deletes_word() {
    let mut s = state();
    typed(&mut s, "hello world");
    press(&mut s, with(KeyCode::Backspace, false, false, true));
    assert_eq!(s.buf, "hello");
}

#[test]
fn ctrl_w_deletes_word() {
    let mut s = state();
    typed(&mut s, "hello world");
    press(&mut s, ctrl('w'));
    assert_eq!(s.buf, "hello");
    press(&mut s, key(KeyCode::Char('w')));
    assert_eq!(s.buf, "hellow");
}

#[test]
fn ctrl_backspace_deletes_paste_block_whole() {
    let ctrl_bs = with(KeyCode::Backspace, true, false, false);
    let mut s = state();
    s.paste_placeholder_chars = 5;
    typed(&mut s, "ab");
    s.paste("123456");
    typed(&mut s, "cd");
    press(&mut s, ctrl_bs);
    assert_eq!(s.buf, "ab123456");
    assert_eq!(s.paste_blocks.len(), 1);
    press(&mut s, ctrl_bs);
    assert_eq!(s.buf, "ab");
    assert!(s.paste_blocks.is_empty());
    assert_eq!(s.cursor, 2);
    let mut s = state();
    s.paste_placeholder_chars = 5;
    s.paste("123456");
    press(&mut s, key(KeyCode::Char(' ')));
    press(&mut s, ctrl_bs);
    assert_eq!(s.buf, "");
    assert!(s.paste_blocks.is_empty());
    let mut s = state();
    s.paste_placeholder_chars = 5;
    s.paste("foo bar ");
    press(&mut s, ctrl_bs);
    assert_eq!(s.buf, "");
    assert!(s.paste_blocks.is_empty());
    let mut s = state();
    s.paste_placeholder_chars = 5;
    s.paste("123456 ");
    typed(&mut s, "word");
    press(&mut s, ctrl_bs);
    assert_eq!(s.buf, "123456 ");
    assert_eq!(s.paste_blocks, vec![PasteBlock { start: 0, end: 7 }]);
    press(&mut s, ctrl_bs);
    assert_eq!(s.buf, "");
    assert!(s.paste_blocks.is_empty());
}

#[test]
fn multiple_paste_blocks_are_independent() {
    let mut s = state();
    s.paste_placeholder_chars = 5;
    s.paste("AAAAAA");
    typed(&mut s, "xy");
    s.paste("BBBBBB");
    assert_eq!(s.buf, "AAAAAAxyBBBBBB");
    assert_eq!(s.paste_blocks.len(), 2);
    let display = s.display_text();
    assert_eq!(display.text, "[6 text pasted]xy[6 text pasted]");
    assert_eq!(display.paste_ranges.len(), 2);
    press(&mut s, key(KeyCode::Backspace));
    assert_eq!(s.buf, "AAAAAAxy");
    assert_eq!(s.paste_blocks.len(), 1);
    assert_eq!(s.paste_blocks[0].end, 6);
    let action = press(&mut s, key(KeyCode::Enter));
    assert_eq!(sent_text(&action), Some("AAAAAAxy".to_string()));
}

#[test]
fn multiline_navigation_maps_through_paste_block() {
    let mut s = state();
    s.paste_placeholder_chars = 5;
    typed(&mut s, "ab");
    press(&mut s, with(KeyCode::Enter, false, true, false));
    s.paste("123456");
    press(&mut s, with(KeyCode::Enter, false, true, false));
    typed(&mut s, "cd");
    assert_eq!(s.buf, "ab\n123456\ncd");
    assert_eq!(s.cursor, 12);
    press(&mut s, key(KeyCode::Up));
    assert_eq!(s.cursor, 3, "cursor snaps to the block start");
    press(&mut s, key(KeyCode::Up));
    assert_eq!(s.cursor, 0);
    press(&mut s, key(KeyCode::Down));
    assert_eq!(s.cursor, 3);
    press(&mut s, key(KeyCode::Down));
    assert_eq!(s.cursor, 10);
}

#[test]
fn typed_long_text_is_not_a_block() {
    let mut s = state();
    s.paste_placeholder_chars = 5;
    typed(&mut s, "123456");
    assert!(s.paste_blocks.is_empty());
    assert_eq!(s.display_text().text, "123456");
    assert_eq!(s.cursor, 6);
}

#[test]
fn multiline_up_down_move_between_lines() {
    let mut s = state();
    typed(&mut s, "ab");
    press(&mut s, with(KeyCode::Enter, false, true, false));
    typed(&mut s, "cd");
    assert_eq!(s.buf, "ab\ncd");
    assert_eq!(s.cursor, 5);
    press(&mut s, key(KeyCode::Up));
    assert_eq!(s.cursor, 2);
    press(&mut s, key(KeyCode::Up));
    assert_eq!(s.cursor, 2);
    press(&mut s, key(KeyCode::Down));
    assert_eq!(s.cursor, 5);
    press(&mut s, key(KeyCode::Down));
    assert_eq!(s.cursor, 5);
    s.history = vec!["old".into()];
    press(&mut s, key(KeyCode::Up));
    assert_eq!(s.cursor, 2);
    assert_eq!(s.buf, "ab\ncd", "Up moves lines, not history");
}

#[test]
fn multiline_boundaries_switch_prompt_history() {
    let mut s = state();
    s.history = vec!["older".into(), "newer".into()];
    s.buf = "ab\ncd".into();
    s.cursor = 1;
    s.multiline = true;
    press(&mut s, key(KeyCode::Up));
    assert_eq!(s.buf, "newer", "Up on the first line recalls history");
    press(&mut s, key(KeyCode::Down));
    assert_eq!(s.buf, "ab\ncd", "Down at the history end restores the draft");
}

#[test]
fn cjk_insert_and_delete_are_char_boundary_safe() {
    let mut s = state();
    typed(&mut s, "你好");
    assert_eq!(s.buf, "你好");
    assert_eq!(s.cursor, 2);
    press(&mut s, key(KeyCode::Left));
    press(&mut s, key(KeyCode::Char('中')));
    assert_eq!(s.buf, "你中好");
    assert_eq!(s.cursor, 2);
    press(&mut s, key(KeyCode::Backspace));
    assert_eq!(s.buf, "你好");
    assert_eq!(s.cursor, 1);
    press(&mut s, key(KeyCode::Delete));
    assert_eq!(s.buf, "你");
    assert_eq!(s.cursor, 1);
}

#[test]
fn history_search_wraps_and_edits_its_query() {
    let mut s = state();
    s.history = vec!["alpha".into(), "beta".into()];
    press(&mut s, ctrl('r'));
    press(&mut s, key(KeyCode::Up));
    assert_eq!(s.search.as_ref().unwrap().sel, 1, "Up wraps to the last match");
    press(&mut s, key(KeyCode::Down));
    assert_eq!(s.search.as_ref().unwrap().sel, 0);
    typed(&mut s, "xz");
    press(&mut s, key(KeyCode::Backspace));
    assert_eq!(s.search.as_ref().unwrap().query, "x");
    press(&mut s, key(KeyCode::Esc));
    assert!(s.search.is_none());
    assert!(s.buf.is_empty());
}

#[test]
fn home_and_end_jump_to_the_bar_edges() {
    let mut s = state();
    typed(&mut s, "abc");
    press(&mut s, key(KeyCode::Home));
    assert_eq!(s.cursor, 0);
    press(&mut s, key(KeyCode::End));
    assert_eq!(s.cursor, 3);
    assert!(matches!(press(&mut s, ctrl('x')), InputAction::Nothing));
    assert_eq!(s.buf, "abc", "other Ctrl+characters do not type");
}

#[test]
fn checked_keys_run_on_an_ordinary_bar() {
    let mut s = state();
    let catalogs = CatalogModel::new();
    assert!(s.display_fits_now());
    assert!(matches!(s.handle_key_checked(key(KeyCode::Char('x')), true, &catalogs), Some(InputAction::Nothing)));
    assert_eq!(s.buf, "x");
}

#[test]
fn config_errors_carry_their_messages() {
    assert_eq!(RevealRate::new(1025).err(), Some("reveal rate must be between 0 and 1024".to_string()));
    assert_eq!(HexRgb::from_str("#12345").err(), Some("expected #RRGGBB".to_string()));
    assert_eq!(HexRgb::from_str("#12345g").err(), Some("expected #RRGGBB".to_string()));
}
