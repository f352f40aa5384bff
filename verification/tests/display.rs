use e_tui::display::{
    allocate_accessories, ActivityRow, ActivityState, CardRole, ContentCard, DisplayId,
    DisplayItem, DisplayTone, InputAccessory, InputAccessoryKind,
};

#[test]
fn activity_contract_supports_stable_parented_lifecycle() {
    let parent = DisplayId::correlated("tool", "root");
    let mut child = ActivityRow::root(DisplayId::correlated("tool", "child"), "read".into());
    child.parent_id = Some(parent.clone());
    child.depth = 1;
    assert!(child.state.is_active());
    child.state = ActivityState::Success;
    child.duration_ms = Some(25);
    assert!(!child.state.is_active());
    assert_eq!(child.parent_id, Some(parent));
}

#[test]
fn input_accessories_prioritize_one_blocking_focus_and_collapse_info() {
    let items = vec![
        InputAccessory {
            kind: InputAccessoryKind::Queue,
            priority: 10,
            desired_rows: 4,
            minimum_rows: 1,
            blocking: false,
            insertion_order: 2,
        },
        InputAccessory {
            kind: InputAccessoryKind::Approval,
            priority: 90,
            desired_rows: 3,
            minimum_rows: 3,
            blocking: true,
            insertion_order: 1,
        },
    ];
    let plan = allocate_accessories(&items, 4);
    assert_eq!(plan.iter().filter(|item| item.focused).count(), 1);
    assert!(plan.iter().any(|item| item.kind == InputAccessoryKind::Approval && item.focused));
    assert!(plan.iter().any(|item| item.kind == InputAccessoryKind::Queue && item.rows == 1));
    let small = allocate_accessories(&items, 3);
    assert_eq!(small.len(), 1);
    assert_eq!(small[0].kind, InputAccessoryKind::Approval);
    assert!(small[0].focused);
}

#[test]
fn rich_event_composes_existing_surfaces() {
    let activity = ActivityRow::root(DisplayId::correlated("compaction", "c1"), "compact".into());
    let detail = ContentCard {
        id: DisplayId::correlated("compaction-detail", "c1"),
        unit: None,
        header: Some("Summary".into()),
        content: "bounded".into(),
        role: CardRole::Detail,
        tone: DisplayTone::Dim,
        horizontal_padding: 2,
        copy_source: "bounded".into(),
    };
    let item = DisplayItem::Composite { activity, detail };
    assert!(item.is_activity());
    assert_eq!(item.id().0, "compaction:c1");
}

#[test]
fn display_ids_have_stable_textual_forms() {
    assert_eq!(DisplayId::event(42, "user").0, "event:42:user");
    assert_eq!(DisplayId::legacy(3, "assistant").0, "legacy:3:assistant");
}

#[test]
fn strip_is_in_visual_order_and_within_budget() {
    let items = vec![
        InputAccessory {
            kind: InputAccessoryKind::Queue,
            priority: 50,
            desired_rows: 2,
            minimum_rows: 1,
            blocking: false,
            insertion_order: 1,
        },
        InputAccessory {
            kind: InputAccessoryKind::Goal,
            priority: 10,
            desired_rows: 5,
            minimum_rows: 2,
            blocking: false,
            insertion_order: 2,
        },
    ];
    let plan = allocate_accessories(&items, 5);
    assert_eq!(plan.len(), 2);
    assert_eq!(plan[0].kind, InputAccessoryKind::Goal);
    assert_eq!(plan[0].rows, 3);
    assert_eq!(plan[1].kind, InputAccessoryKind::Queue);
    assert_eq!(plan[1].rows, 2);
    assert!(plan.iter().all(|item| !item.focused));
    assert!(allocate_accessories(&items, 0).is_empty());
}
