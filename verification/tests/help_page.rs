use e_tui::help::{help_markdown, HelpTexts};
use e_tui::key_mapping::{Action, Binding, Chord, KeyMapping, Platform, Scope};

fn bind(scope: Scope, action: Action, keys: &[&str]) -> Binding {
    Binding { scope, action, chords: keys.iter().map(|k| Chord::parse(k, Platform::Other).unwrap()).collect() }
}

#[test]
fn help_lists_bound_scopes_with_their_keys_and_tips() {
    let mapping = KeyMapping::from_bindings(
        vec![
            bind(Scope::Global, Action::EnterReadMode, &["ctrl-r"]),
            bind(Scope::Approval, Action::Allow, &["y"]),
            bind(Scope::Help, Action::Close, &["`"]),
        ],
        Platform::Other,
    );
    let mut actions: Vec<String> = (0..48).map(|i| format!("label {i}")).collect();
    actions[40] = "a | b\n c".into();
    let texts = HelpTexts {
        body: "Help  \n".into(),
        sections: ["G", "M", "C", "R", "P", "H", "T"].iter().map(|s| s.to_string()).collect(),
        contexts: (0..15).map(|i| format!("c{i}")).collect(),
        key_header: "Key".into(),
        action_header: "Action".into(),
        actions,
        tips: vec!["one".into(), "two".into()],
    };
    let table = "\n| Key | Action |\n| --- | --- |\n";
    let expected = format!(
        "Help\n\n## G\n{table}| `Ctrl+R` | label 1 |\n\n\n## P\n\n### c14\n{table}| `y` | label 46 |\n\n\n## H\n{table}| `` ` `` | a \\| b c |\n\n\n## T\n\n- one\n- two\n"
    );
    assert_eq!(help_markdown(&mapping, &texts), expected);
}

#[test]
fn help_without_bindings_keeps_body_and_tips() {
    let mapping = KeyMapping::from_bindings(Vec::new(), Platform::Mac);
    let texts = HelpTexts {
        body: "Body".into(),
        sections: Vec::new(),
        contexts: Vec::new(),
        key_header: String::new(),
        action_header: String::new(),
        actions: Vec::new(),
        tips: Vec::new(),
    };
    assert_eq!(help_markdown(&mapping, &texts), "Body\n\n## \n\n");
}
