use e_tui::command_catalog::{
    builtin_command, builtin_commands, completion_context, match_command_catalog, CommandAction,
    CommandDescriptor, CommandSource, CommandText, CompletionKind,
};

#[test]
fn builtins_shadow_integrated_commands_and_keep_hints() {
    let integrated = vec![
        CommandDescriptor {
            name: "feedback".into(),
            description: "record feedback".into(),
            input_hint: Some("<text>".into()),
        },
        CommandDescriptor { name: "plan".into(), description: "host plan".into(), input_hint: None },
    ];
    let all = match_command_catalog("", &integrated);
    assert_eq!(all.iter().filter(|item| item.line == "/plan").count(), 1);
    let feedback = all.iter().find(|item| item.line == "/feedback").unwrap();
    assert_eq!(feedback.source, CommandSource::Integrated);
    assert!(matches!(
        &feedback.text,
        CommandText::Integrated { input_hint: Some(hint), .. } if hint == "<text>"
    ));
}

#[test]
fn one_entry_owns_completion_and_action() {
    let new = builtin_command("new").unwrap();
    assert_eq!(new.completion, CompletionKind::NewMode);
    assert_eq!(new.action, CommandAction::New);
    assert_eq!(completion_context("/new m").unwrap().1, "m");
    assert_eq!(completion_context("/model ").unwrap().1, "");
    assert_eq!(completion_context("/skill").unwrap().1, "");
}

#[test]
fn fuzzy_order_is_prefix_then_substring_then_subsequence() {
    assert_eq!(match_command_catalog("set", &[])[0].line, "/settings");
    assert_eq!(match_command_catalog("ett", &[])[0].line, "/settings");
    assert_eq!(match_command_catalog("pln", &[])[0].line, "/plan");
}

#[test]
fn completion_context_covers_skill_forms_and_refuses_plain_commands() {
    assert_eq!(completion_context("/skill:aud").unwrap().1, "aud");
    assert_eq!(completion_context("/skill image").unwrap().1, "image");
    assert!(completion_context("/help me").is_none());
    assert!(completion_context("new m").is_none());
    assert!(completion_context("/model").is_none());
}

#[test]
fn empty_query_lists_every_builtin_in_name_order() {
    let all = match_command_catalog("", &[]);
    assert_eq!(all.len(), builtin_commands().len());
    let lines: Vec<&str> = all.iter().map(|item| item.line.as_str()).collect();
    let mut sorted = lines.clone();
    sorted.sort();
    assert_eq!(lines, sorted);
    assert!(match_command_catalog("zzzz", &[]).is_empty());
}
