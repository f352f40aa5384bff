use e_tui::display::{DisplayId, DisplayItem, DisplayTone, TranscriptBlock, TranscriptFormat};
use e_tui::projection::TranscriptStore;

fn block(id: &str, unit: u64) -> DisplayItem {
    DisplayItem::Block(TranscriptBlock {
        id: DisplayId(id.into()),
        unit: Some(unit),
        content: id.into(),
        format: TranscriptFormat::Markdown,
        tone: DisplayTone::Normal,
        copy_source: id.into(),
        streaming: false,
    })
}

#[test]
fn indexes_identity_unit_surface_and_generation() {
    let mut store = TranscriptStore::default();
    store.append(block("a", 1), Some(10));
    store.prepend(block("b", 2), Some(9));
    assert_eq!(store.position(&DisplayId("b".into())), Some(0));
    assert_eq!(store.unit_owner(1), Some(&DisplayId("a".into())));
    assert_eq!(store.surface_owner(9), Some(&DisplayId("b".into())));
    assert_eq!(store.generation(), 2);
}

#[test]
fn node_revision_changes_only_when_that_node_changes() {
    let mut store = TranscriptStore::default();
    store.append(block("a", 1), None);
    let initial = store.get(&DisplayId("a".into())).unwrap().revision();

    store.append(block("b", 2), None);
    assert_eq!(store.get(&DisplayId("a".into())).unwrap().revision(), initial);

    store.touch(&DisplayId("a".into()));
    assert_ne!(store.get(&DisplayId("a".into())).unwrap().revision(), initial);
}

#[test]
fn replacement_and_removal_preserve_consistent_indexes() {
    let mut store = TranscriptStore::default();
    store.append(block("a", 1), Some(1));
    store.append(block("b", 2), Some(2));
    store.replace(&DisplayId("a".into()), block("c", 3), Some(3));
    assert!(store.get(&DisplayId("a".into())).is_none());
    assert_eq!(store.position(&DisplayId("c".into())), Some(0));
    store.remove_indices(&[0]);
    assert_eq!(store.position(&DisplayId("b".into())), Some(0));
    assert!(store.surface_owner(3).is_none());
}

#[test]
fn reinserting_an_id_moves_it_and_surfaces_are_removed_by_range() {
    let mut store = TranscriptStore::default();
    store.append(block("a", 1), Some(5));
    store.append(block("b", 2), Some(6));
    store.append(block("c", 3), Some(7));
    assert_eq!(store.insert(0, block("c", 4), Some(8)), 0);
    assert_eq!(store.len(), 3);
    assert_eq!(store.position(&DisplayId("c".into())), Some(0));
    assert_eq!(store.unit_owner(4), Some(&DisplayId("c".into())));
    assert!(store.unit_owner(3).is_none());
    assert_eq!(store.first_surface_position(&[], 5, 6), Some(1));
    assert_eq!(store.first_surface_position(&[7], 0, 0), None);
    let generation = store.generation();
    assert_eq!(store.remove_surfaces(&[], 5, 6), 2);
    assert_eq!(store.generation(), generation + 1);
    assert_eq!(store.len(), 1);
    assert_eq!(store.remove_surfaces(&[99], 0, 0), 0);
    assert_eq!(store.generation(), generation + 1);
    assert!(store.remove(5).is_none());
    assert_eq!(store.remove_indices(&[0, 0, 9]).len(), 1);
    assert!(store.is_empty());
    let generation = store.generation();
    store.clear();
    assert_eq!(store.generation(), generation);
}

#[test]
fn touch_takes_back_a_shared_unit() {
    let mut store = TranscriptStore::default();
    store.append(block("a", 1), None);
    store.append(block("b", 1), None);
    assert_eq!(store.unit_owner(1), Some(&DisplayId("b".into())));
    assert!(store.touch(&DisplayId("a".into())));
    assert_eq!(store.unit_owner(1), Some(&DisplayId("a".into())));
    assert!(!store.touch(&DisplayId("zzz".into())));
    assert_eq!(store.nodes().len(), 2);
}
