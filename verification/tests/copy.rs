use e_tui::copy::{block_payload, block_text};
use e_tui::display::DisplayId;
use e_tui::preview::{PreviewContent, PreviewKey, PreviewRef, PreviewRevision};
use e_tui::reading::{BlockId, ReadingBlock, ReadingBlockKind, ReadingCopyPayload, ReadingDocument};

#[test]
fn semantic_copy_returns_complete_atomic_source() {
    let id = BlockId("code".into());
    let source = "```rust\nfn main() {}\n```";
    let document = ReadingDocument {
        blocks: vec![ReadingBlock {
            id: id.clone(),
            owner: DisplayId("assistant".into()),
            unit: Some(1),
            kind: ReadingBlockKind::Code,
            copy: ReadingCopyPayload { text: source.into(), atomic: true },
            preview: PreviewRef::Inline {
                key: PreviewKey("code".into()),
                revision: PreviewRevision(1),
                content: PreviewContent::Markdown(source.into()),
            },
            items: Vec::new(),
        }],
    };
    assert_eq!(block_text(&document, &id).as_deref(), Some(source));
    assert!(block_payload(&document, &id).unwrap().atomic);
    assert!(block_text(&document, &BlockId("missing".into())).is_none());
}
