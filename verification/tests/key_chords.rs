use e_tui::key_mapping::{Chord, ChordKey, ChordModifiers, Platform};

fn mods(ctrl: bool, alt: bool, shift: bool, super_key: bool) -> ChordModifiers {
    ChordModifiers { ctrl, alt, shift, super_key }
}

#[test]
fn chords_parse_modifiers_and_keys() {
    assert!(Chord::parse("ctrl-ctrl-a", Platform::Other).is_err());
    assert!(Chord::parse("g g", Platform::Other).is_err());
    assert!(Chord::parse("ctrl-minus", Platform::Other).is_ok());
    assert_eq!(
        Chord::parse("ctrl-minus", Platform::Other).unwrap(),
        Chord { code: ChordKey::Char('-'), modifiers: mods(true, false, false, false) }
    );
    assert_eq!(
        Chord::parse("osmain-r", Platform::Mac).unwrap(),
        Chord { code: ChordKey::Char('r'), modifiers: mods(false, false, false, true) }
    );
    assert_eq!(
        Chord::parse("OSMain-r", Platform::Other).unwrap(),
        Chord { code: ChordKey::Char('r'), modifiers: mods(true, false, false, false) }
    );
    assert_eq!(Chord::parse("ctrl-K", Platform::Other), Chord::parse("ctrl-shift-k", Platform::Other));
    assert_eq!(
        Chord::parse("Y", Platform::Other).unwrap(),
        Chord { code: ChordKey::Char('y'), modifiers: mods(false, false, true, false) }
    );
    assert_eq!(
        Chord::parse("F", Platform::Mac).unwrap(),
        Chord { code: ChordKey::Char('f'), modifiers: mods(false, false, true, false) }
    );
    assert_eq!(Chord::parse("F12", Platform::Other).unwrap().code, ChordKey::F(12));
    assert_eq!(Chord::parse("f+1", Platform::Other).unwrap().code, ChordKey::F(1));
    assert_eq!(Chord::parse("f007", Platform::Other).unwrap().code, ChordKey::F(7));
    assert!(Chord::parse("f13", Platform::Other).is_err());
    assert!(Chord::parse("f300", Platform::Other).is_err());
    assert_eq!(Chord::parse("f", Platform::Other).unwrap().code, ChordKey::Char('f'));
    assert_eq!(Chord::parse("PageDown", Platform::Other).unwrap().code, ChordKey::PageDown);
    assert_eq!(Chord::parse("space", Platform::Other).unwrap().code, ChordKey::Char(' '));
    assert_eq!(Chord::parse("路", Platform::Other).unwrap().code, ChordKey::Char('路'));
}

#[test]
fn chord_errors_name_the_offending_part() {
    assert_eq!(Chord::parse("hyper-a", Platform::Other), Err("unknown modifier \"hyper\"".to_string()));
    assert_eq!(Chord::parse("alt-Alt-a", Platform::Other), Err("duplicate modifier \"Alt\"".to_string()));
    assert_eq!(Chord::parse("ctrl-", Platform::Other), Err("unknown key \"\"".to_string()));
    assert_eq!(Chord::parse("", Platform::Other), Err("unknown key \"\"".to_string()));
    assert_eq!(Chord::parse("ctrl--", Platform::Other), Err("unknown modifier \"\"".to_string()));
    assert_eq!(Chord::parse("\u{7}", Platform::Other), Err("unknown key \"\\u{7}\"".to_string()));
}

#[test]
fn chords_are_labelled_for_help() {
    let label = |s: &str| Chord::parse(s, Platform::Other).unwrap().label();
    assert_eq!(label("ctrl-shift-k"), "Ctrl+Shift+K");
    assert_eq!(label("k"), "k");
    assert_eq!(label("space"), "Space");
    assert_eq!(label("alt-f5"), "Alt+F5");
    assert_eq!(label("super-left"), "Super+←");
    assert_eq!(label("pageup"), "PageUp");
    assert_eq!(label("ctrl-alt-shift-super-enter"), "Ctrl+Alt+Shift+Super+Enter");
}
