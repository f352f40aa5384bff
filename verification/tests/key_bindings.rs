use e_tui::key_mapping::{
    text_character, Action, Binding, Chord, ChordKey, ChordModifiers, ChordPress, KeyMapping, MappedKey, Platform, Scope,
};

fn chord(s: &str) -> Chord {
    Chord::parse(s, Platform::Other).unwrap()
}

fn bind(scope: Scope, action: Action, keys: &[&str]) -> Binding {
    Binding { scope, action, chords: keys.iter().map(|k| chord(k)).collect() }
}

fn press(code: ChordKey, ctrl: bool, shift: bool) -> ChordPress {
    ChordPress {
        code,
        modifiers: ChordModifiers { ctrl, alt: false, shift, super_key: false },
        other_modifier: false,
        release: false,
    }
}

fn mapping(platform: Platform) -> KeyMapping {
    KeyMapping::from_bindings(
        vec![
            bind(Scope::Global, Action::EnterReadMode, &["ctrl-r"]),
            bind(Scope::Message, Action::CancelOrInterrupt, &["esc"]),
            bind(Scope::Message, Action::Paste, &["ctrl-v"]),
            bind(Scope::MessageEdit, Action::MoveUp, &["up"]),
            bind(Scope::MessageEdit, Action::MoveLeft, &["left"]),
            bind(Scope::MessageIdle, Action::Send, &["enter"]),
            bind(Scope::MessageSuggest, Action::Accept, &["tab"]),
            bind(Scope::MessageSearch, Action::Accept, &["enter"]),
            bind(Scope::ReadMode, Action::EnterItems, &["enter"]),
            bind(Scope::ReadMode, Action::CopyBlock, &["c", "y"]),
            bind(Scope::ReadModeItem, Action::Exit, &["esc"]),
            bind(Scope::Approval, Action::Allow, &["y", "Y"]),
            bind(Scope::Approval, Action::Deny, &["n"]),
            bind(Scope::Approval, Action::Deny, &["super-alt-n"]),
        ],
        platform,
    )
}

#[test]
fn presses_resolve_through_the_scope_chain() {
    let map = mapping(Platform::Other);
    assert_eq!(map.resolve(Scope::Global, press(ChordKey::Char('r'), true, false)), Some(Action::EnterReadMode));
    assert_eq!(map.resolve(Scope::Global, press(ChordKey::Char('r'), true, true)), None);
    assert_eq!(map.resolve(Scope::MessageIdle, press(ChordKey::Enter, false, false)), Some(Action::Send));
    assert_eq!(map.resolve(Scope::MessageIdle, press(ChordKey::Up, false, false)), Some(Action::MoveUp));
    assert_eq!(map.resolve(Scope::MessageIdle, press(ChordKey::Esc, false, false)), Some(Action::CancelOrInterrupt));
    assert_eq!(map.resolve(Scope::MessageSuggest, press(ChordKey::Up, false, false)), None);
    assert_eq!(map.resolve(Scope::MessageSuggest, press(ChordKey::Left, false, false)), Some(Action::MoveLeft));
    assert_eq!(map.resolve(Scope::MessageSuggest, press(ChordKey::Esc, false, false)), None);
    assert_eq!(map.resolve(Scope::MessageSearch, press(ChordKey::Char('v'), true, false)), Some(Action::Paste));
    assert_eq!(map.resolve(Scope::ReadModeItem, press(ChordKey::Enter, false, false)), None);
    assert_eq!(map.resolve(Scope::ReadModeItem, press(ChordKey::Char('y'), false, false)), Some(Action::CopyBlock));
    assert_eq!(map.resolve(Scope::Approval, press(ChordKey::Char('Y'), false, false)), Some(Action::Allow));
    let mut release = press(ChordKey::Char('y'), false, false);
    release.release = true;
    assert_eq!(map.resolve(Scope::Approval, release), None);
}

#[test]
fn input_falls_back_to_text_then_unbound() {
    let map = mapping(Platform::Other);
    assert_eq!(map.input(Scope::Approval, press(ChordKey::Char('y'), false, false)), MappedKey::Command(Action::Allow));
    assert_eq!(map.input(Scope::Approval, press(ChordKey::Char('q'), false, false)), MappedKey::Text('q'));
    assert_eq!(map.input(Scope::Approval, press(ChordKey::Char('q'), true, false)), MappedKey::Unbound);
    assert_eq!(map.input(Scope::Approval, press(ChordKey::Home, false, false)), MappedKey::Unbound);
    assert_eq!(text_character(press(ChordKey::Char('\u{7}'), false, false)), None);
    assert_eq!(text_character(press(ChordKey::Char('Q'), false, true)), Some('Q'));
}

#[test]
fn labels_join_keys_and_use_platform_symbols() {
    let map = mapping(Platform::Other);
    assert_eq!(map.label(Scope::ReadMode, Action::CopyBlock), "c / y");
    assert_eq!(map.label(Scope::ReadModeItem, Action::CopyBlock), "c / y");
    assert_eq!(map.label(Scope::Approval, Action::Deny), "Alt+Super+N");
    assert_eq!(map.label(Scope::Help, Action::Close), "—");
    let mac = mapping(Platform::Mac);
    assert_eq!(mac.label(Scope::Approval, Action::Deny), "⌥⌘N");
    assert_eq!(mac.label(Scope::Global, Action::EnterReadMode), "Ctrl+R");
}

#[test]
fn entries_follow_scope_then_action_order() {
    let map = mapping(Platform::Other);
    let entries = map.entries();
    assert_eq!(entries.len(), 13);
    assert_eq!(entries[0], (Scope::Global, Action::EnterReadMode));
    assert_eq!(entries[1], (Scope::Message, Action::Paste));
    assert_eq!(entries[2], (Scope::Message, Action::CancelOrInterrupt));
    assert_eq!(entries[12], (Scope::Approval, Action::Deny));
}

#[test]
fn back_tab_is_shift_tab() {
    let map = KeyMapping::from_bindings(vec![bind(Scope::Page, Action::Previous, &["shift-tab"])], Platform::Other);
    assert_eq!(map.resolve(Scope::Page, press(ChordKey::BackTab, false, false)), Some(Action::Previous));
}

#[test]
fn validation_reports_the_first_conflict_with_editable_paths() {
    let ok = KeyMapping::from_bindings(
        vec![
            bind(Scope::Global, Action::PrintHelp, &["f1"]),
            bind(Scope::Global, Action::PageUp, &["pageup"]),
            bind(Scope::ReadMode, Action::Previous, &["pageup"]),
            bind(Scope::Help, Action::Close, &["f1"]),
        ],
        Platform::Other,
    );
    assert_eq!(ok.validate(), Ok(()));
    let twice = KeyMapping::from_bindings(
        vec![bind(Scope::Message, Action::Paste, &["ctrl-v"]), bind(Scope::MessageIdle, Action::Send, &["ctrl-v"])],
        Platform::Other,
    );
    assert_eq!(twice.validate(), Err("message.idle.send conflicts with message.paste: Ctrl+V".to_string()));
    let global = KeyMapping::from_bindings(
        vec![bind(Scope::Global, Action::EnterReadMode, &["ctrl-r"]), bind(Scope::Page, Action::Confirm, &["ctrl-r"])],
        Platform::Other,
    );
    assert_eq!(global.validate(), Err("page.confirm conflicts with global.enter_read_mode: Ctrl+R".to_string()));
    let paged = KeyMapping::from_bindings(
        vec![bind(Scope::Global, Action::PageUp, &["pageup"]), bind(Scope::Page, Action::Previous, &["pageup"])],
        Platform::Other,
    );
    assert_eq!(paged.validate(), Err("page.previous conflicts with global.page_up: PageUp".to_string()));
}
