use e_tui::key_mapping::{Action, MappedKey};
use e_tui::page_core::{
    direction_from_input, handle_text_input, Direction, FocusId, FocusNode, FocusState, PageEffect,
    PageOutcome, TextEditResult, TextEditor, ViewportState,
};

fn id(value: &str) -> FocusId {
    FocusId::new(value.into())
}

#[test]
fn focus_reconciles_stable_ids_and_skips_disabled_nodes() {
    let a = id("a");
    let b = id("b");
    let c = id("c");
    let mut first = FocusNode::new(a.clone());
    first.down = Some(b.clone());
    let mut disabled = FocusNode::new(b);
    disabled.enabled = false;
    disabled.down = Some(c.clone());
    let last = FocusNode::new(c.clone());
    let mut focus = FocusState::default();
    focus.replace(vec![first, disabled, last]);
    assert!(focus.move_in(Direction::Down));
    assert!(focus.is(&c));
    focus.replace(vec![FocusNode::new(c.clone()), FocusNode::new(a)]);
    assert!(focus.is(&c));
}

#[test]
fn viewport_stays_bounded() {
    let mut viewport = ViewportState::default();
    viewport.ensure_visible(9, 3, 10);
    assert_eq!(viewport.start, 7);
    viewport.ensure_visible(1, 3, 10);
    assert_eq!(viewport.start, 1);
    viewport.ensure_visible(99, 0, 0);
    assert_eq!(viewport.start, 0);
}

#[test]
fn focus_reconciles_by_stable_id() {
    let a = id("a");
    let b = id("b");
    let mut first = FocusNode::new(a.clone());
    first.down = Some(b.clone());
    let mut second = FocusNode::new(b.clone());
    second.up = Some(a.clone());
    let mut focus = FocusState::default();
    focus.replace(vec![first, second]);
    focus.move_in(Direction::Down);
    assert!(focus.is(&b));
    focus.replace(vec![FocusNode::new(b.clone()), FocusNode::new(a)]);
    assert!(focus.is(&b), "stable id survives reordering");
    focus.replace(vec![FocusNode::new(id("c"))]);
    assert!(focus.is(&id("c")), "missing focus falls back safely");
}

#[test]
fn directional_move_skips_disabled_targets() {
    let a = id("a");
    let b = id("b");
    let c = id("c");
    let mut first = FocusNode::new(a.clone());
    first.down = Some(b.clone());
    let mut disabled = FocusNode::new(b);
    disabled.enabled = false;
    disabled.down = Some(c.clone());
    let last = FocusNode::new(c.clone());
    let mut focus = FocusState::default();
    focus.replace(vec![first, disabled, last]);
    focus.move_in(Direction::Down);
    assert!(focus.is(&c));
}

#[test]
fn viewport_is_bounded() {
    let mut viewport = ViewportState::default();
    viewport.ensure_visible(9, 3, 10);
    assert_eq!(viewport.start, 7);
    viewport.ensure_visible(1, 3, 10);
    assert_eq!(viewport.start, 1);
    viewport.ensure_visible(99, 0, 0);
    assert_eq!(viewport.start, 0);
}

#[test]
fn viewport_keeps_a_visible_index_and_clamps_to_the_end() {
    let mut viewport = ViewportState { start: 4 };
    viewport.ensure_visible(5, 3, 10);
    assert_eq!(viewport.start, 4);
    viewport.ensure_visible(2, 20, 10);
    assert_eq!(viewport.start, 0);
    let mut far = ViewportState { start: usize::MAX - 1 };
    far.ensure_visible(usize::MAX, 5, usize::MAX);
    assert_eq!(far.start, usize::MAX - 5);
}

#[test]
fn text_editor_keeps_vim_letters_as_text() {
    let mut editor = TextEditor { buf: String::new(), secret: false };
    for character in "hjkl".chars() {
        assert_eq!(handle_text_input(&mut editor, MappedKey::Text(character)), TextEditResult::Continue);
    }
    assert_eq!(editor.buf, "hjkl");
    assert_eq!(
        handle_text_input(&mut editor, MappedKey::Command(Action::Confirm)),
        TextEditResult::Confirm("hjkl".into())
    );
    assert!(editor.buf.is_empty());
}

#[test]
fn text_editor_backspace_cancel_and_unbound_keys() {
    let mut editor = TextEditor { buf: "draft€".into(), secret: true };
    assert_eq!(
        handle_text_input(&mut editor, MappedKey::Command(Action::DeleteBackward)),
        TextEditResult::Continue
    );
    assert_eq!(editor.buf, "draft");
    assert_eq!(handle_text_input(&mut editor, MappedKey::Command(Action::Paste)), TextEditResult::Continue);
    assert_eq!(handle_text_input(&mut editor, MappedKey::Unbound), TextEditResult::Continue);
    assert_eq!(editor.buf, "draft");
    assert_eq!(handle_text_input(&mut editor, MappedKey::Command(Action::Cancel)), TextEditResult::Cancel);
    assert_eq!(editor.buf, "draft");
    assert!(editor.secret);
    let mut empty = TextEditor { buf: String::new(), secret: false };
    handle_text_input(&mut empty, MappedKey::Command(Action::DeleteBackward));
    assert_eq!(empty.buf, "");
}

#[test]
fn only_movement_commands_are_focus_directions() {
    assert_eq!(direction_from_input(MappedKey::Command(Action::MoveLeft)), Some(Direction::Left));
    assert_eq!(direction_from_input(MappedKey::Command(Action::MoveRight)), Some(Direction::Right));
    assert_eq!(direction_from_input(MappedKey::Command(Action::MoveUp)), Some(Direction::Up));
    assert_eq!(direction_from_input(MappedKey::Command(Action::MoveDown)), Some(Direction::Down));
    assert_eq!(direction_from_input(MappedKey::Text('h')), None);
    assert_eq!(direction_from_input(MappedKey::Command(Action::Paste)), None);
}

#[test]
fn focus_set_ignores_disabled_and_unknown_targets() {
    let a = id("a");
    let mut disabled = FocusNode::new(id("b"));
    disabled.enabled = false;
    let mut focus = FocusState::default();
    assert!(!focus.move_in(Direction::Down));
    focus.replace(vec![FocusNode::new(a.clone()), disabled]);
    assert!(focus.is(&a));
    focus.set(id("b"));
    assert!(focus.is(&a));
    focus.set(id("zzz"));
    assert!(focus.is(&a));
    assert!(!focus.move_in(Direction::Right));
    focus.replace(Vec::new());
    assert!(focus.current.is_none());
    assert!(!focus.move_in(Direction::Up));
}

#[test]
fn page_outcomes_carry_close_and_effects() {
    let none = PageOutcome::none();
    assert!(!none.close && none.effects.is_empty());
    let close = PageOutcome::close();
    assert!(close.close && close.effects.is_empty());
    let sent = PageOutcome::send(e_tui::action::AgentRequest::ListSessions, true);
    assert!(sent.close);
    assert_eq!(sent.effects.len(), 1);
    assert!(matches!(sent.effects[0], PageEffect::Send(_)));
}
