use e_tui::agent::{Question, QuestionOption};
use e_tui::question::QuestionBatch;

fn option(label: &str) -> QuestionOption {
    QuestionOption { label: label.into(), description: None }
}

fn question(id: &str, options: Option<Vec<QuestionOption>>, multi_select: bool) -> Question {
    Question { id: id.into(), question: "?".into(), header: None, options, multi_select }
}

#[test]
fn answers_are_retained_across_questions_and_submitted_together() {
    let mut batch = QuestionBatch::new(
        "rpc".into(),
        "s".into(),
        vec![
            question("pick", Some(vec![option("a"), option("b"), option("c")]), false),
            question("many", Some(vec![option("x"), option("y"), option("z")]), true),
            question("free", None, false),
        ],
    );
    batch.step(5);
    assert_eq!(batch.sel, 2);
    batch.step(-1);
    assert_eq!(batch.sel, 1);
    assert!(batch.enter().is_none());
    assert_eq!(batch.current, 1);
    batch.toggle_selection();
    batch.step(2);
    batch.toggle_selection();
    assert!(batch.is_option_selected(0));
    assert!(batch.is_option_selected(2));
    batch.toggle_selection();
    assert!(!batch.is_option_selected(2));
    batch.toggle_selection();
    batch.step_question(-1);
    assert_eq!(batch.sel, 1);
    batch.step_question(1);
    assert_eq!(batch.sel, 2);
    assert!(batch.enter().is_none());
    assert!(batch.is_free_text());
    for c in "  hi ".chars() {
        batch.push_char(c);
    }
    batch.backspace();
    let answers = batch.enter().unwrap();
    assert_eq!(answers.len(), 3);
    assert_eq!(answers[0].selected, vec!["b".to_string()]);
    assert_eq!(answers[1].selected, vec!["x".to_string(), "z".to_string()]);
    assert_eq!(answers[2].custom.as_deref(), Some("hi"));
    assert!(answers[2].selected.is_empty());
}

#[test]
fn empty_batches_submit_nothing_and_free_text_ignores_option_keys() {
    let mut empty = QuestionBatch::new("rpc".into(), "s".into(), Vec::new());
    assert_eq!(empty.enter().unwrap().len(), 0);
    let mut free = QuestionBatch::new("rpc".into(), "s".into(), vec![question("q", None, false)]);
    free.step(1);
    free.toggle_selection();
    assert_eq!(free.sel, 0);
    let answers = free.enter().unwrap();
    assert_eq!(answers[0].custom, None);
}
