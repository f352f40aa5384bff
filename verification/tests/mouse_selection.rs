use e_tui::event::PointerEvent;
use e_tui::mouse_selection::{MouseSelection, SelectionCellRange, SelectionFrame};
use unicode_segmentation::UnicodeSegmentation;
use unicode_width::UnicodeWidthStr;

fn frame(lines: &[&str]) -> SelectionFrame {
    let mut frame = SelectionFrame::for_viewport(20, lines.len() as u16);
    frame.set_epoch(1);
    for (row, line) in lines.iter().enumerate() {
        let mut column = 0;
        for glyph in line.graphemes(true) {
            let width = glyph.width() as u16;
            frame.put_glyph(column, row as u16, glyph, width);
            column += width;
        }
    }
    frame
}

fn drag(frame: &SelectionFrame, start: (u16, u16), end: (u16, u16)) -> (MouseSelection, Option<String>) {
    let mut selection = MouseSelection::default();
    selection.handle(PointerEvent::PrimaryPress { column: start.0, row: start.1 }, frame);
    let copied = selection
        .handle(PointerEvent::PrimaryRelease { column: end.0, row: end.1 }, frame)
        .copy;
    (selection, copied)
}

#[test]
fn screen_ranges_include_adjacent_panes_in_both_directions() {
    let frame = frame(&["left  │ right", "bottom"]);
    let forward = drag(&frame, (1, 0), (2, 1)).1;
    assert_eq!(forward.as_deref(), Some("eft  │ right\nbot"));
    assert_eq!(drag(&frame, (2, 1), (1, 0)).1, forward);
}

#[test]
fn split_pane_rows_exclude_neighboring_text_and_clamp_crossing_drags() {
    let mut frame = frame(&["left  | right", "bottom| next"]);
    frame.set_pane_separator(Some(6));
    assert_eq!(drag(&frame, (1, 0), (2, 1)).1.as_deref(), Some("eft\nbot"));
    assert_eq!(drag(&frame, (2, 1), (1, 0)).1.as_deref(), Some("eft\nbot"));
    assert_eq!(drag(&frame, (1, 0), (18, 1)).1.as_deref(), Some("eft\nbottom"));
    assert_eq!(drag(&frame, (8, 0), (10, 1)).1.as_deref(), Some("right\n nex"));
    assert_eq!(drag(&frame, (10, 1), (8, 0)).1.as_deref(), Some("right\n nex"));
    let (selection, copied) = drag(&frame, (8, 0), (0, 1));
    assert_eq!(copied.as_deref(), Some("right\n"));
    assert!(frame.selected_cell_ranges(&selection).iter().all(|range| range.x > 6));
    assert!(drag(&frame, (6, 0), (10, 1)).1.is_none());
    let mut other = frame.clone();
    other.set_pane_separator(Some(7));
    assert!(!frame.same_geometry(&other));
}

#[test]
fn wide_combining_and_zwj_graphemes_are_emitted_once() {
    let frame = frame(&["A界🙂e\u{301}👩‍💻Z"]);
    let (selection, copied) = drag(&frame, (2, 0), (7, 0));
    assert_eq!(copied.as_deref(), Some("界🙂e\u{301}👩‍💻"));
    assert_eq!(
        frame.selected_cell_ranges(&selection),
        vec![SelectionCellRange { x: 1, y: 0, width: 7 }]
    );
    assert_eq!(drag(&frame, (1, 0), (2, 0)).1.as_deref(), Some("界"));
}

#[test]
fn visual_spaces_and_blank_rows_have_one_policy() {
    let frame = frame(&["  a  b\u{a0}  ", "", "  end "]);
    assert_eq!(drag(&frame, (0, 0), (8, 2)).1.as_deref(), Some("  a  b\u{a0}\n\n  end"));
    assert_eq!(drag(&frame, (0, 0), (2, 0)).1.as_deref(), Some("  a"));
    assert!(drag(&frame, (15, 0), (19, 1)).1.is_none());
}

#[test]
fn drag_clamps_to_viewport_not_to_text() {
    let frame = frame(&["first", "last"]);
    assert_eq!(drag(&frame, (0, 0), (200, 200)).1.as_deref(), Some("first\nlast"));
    assert!(drag(&frame, (200, 0), (0, 0)).1.is_none());
}

#[test]
fn click_unmatched_reports_and_cancel_do_not_copy() {
    let frame = frame(&["text"]);
    assert!(drag(&frame, (0, 0), (0, 0)).1.is_none());
    for cancel in [PointerEvent::FocusLost, PointerEvent::Wheel { up: true }] {
        let mut selection = MouseSelection::default();
        selection.handle(PointerEvent::PrimaryPress { column: 0, row: 0 }, &frame);
        selection.handle(cancel, &frame);
        selection.handle(PointerEvent::PrimaryDrag { column: 3, row: 0 }, &frame);
        assert!(selection
            .handle(PointerEvent::PrimaryRelease { column: 3, row: 0 }, &frame)
            .copy
            .is_none());
        assert!(!selection.is_dragging());
    }
}

#[test]
fn only_committed_compatible_epochs_can_copy() {
    let first = frame(&["text"]);
    let mut next = first.clone();
    next.set_epoch(2);
    assert!(first.same_geometry(&next));
    next.set_context(3);
    assert!(!first.same_geometry(&next));
    assert!(!first.same_geometry(&SelectionFrame::for_viewport(21, 1)));
    let mut selection = MouseSelection::default();
    selection.handle(PointerEvent::PrimaryPress { column: 0, row: 0 }, &first);
    assert!(selection
        .handle(PointerEvent::PrimaryRelease { column: 3, row: 0 }, &next)
        .copy
        .is_none());
    next.set_epoch(0);
    assert!(drag(&next, (0, 0), (3, 0)).1.is_none());
}

#[test]
fn a_press_reports_a_change_and_holds_its_frame() {
    let frame = frame(&["abc"]);
    let mut selection = MouseSelection::default();
    let update = selection.handle(PointerEvent::PrimaryPress { column: 1, row: 0 }, &frame);
    assert!(update.changed);
    assert!(update.copy.is_none());
    assert!(selection.holds(&frame));
    let again = selection.handle(PointerEvent::PrimaryDrag { column: 1, row: 0 }, &frame);
    assert!(!again.changed);
}
