//! Semantic Reading copy selection: complete source from the Reading
//! document, never rendered cells.
use vstd::prelude::*;

use crate::reading::{block_named, BlockId, ReadingCopyPayload, ReadingDocument};

verus! {

pub fn block_payload<'a>(document: &'a ReadingDocument, block: &BlockId) -> (r: Option<&'a ReadingCopyPayload>)
    ensures
        match block_named(document.blocks@, block.0@) {
            Some(b) => r == Some(&b.copy),
            None => r is None,
        },
{
    match document.block(block) {
        Some(b) => Some(&b.copy),
        None => None,
    }
}

pub fn block_text(document: &ReadingDocument, block: &BlockId) -> (r: Option<String>)
    ensures
        match block_named(document.blocks@, block.0@) {
            Some(b) => r matches Some(t) && t@ == b.copy.text@,
            None => r is None,
        },
{
    match block_payload(document, block) {
        Some(payload) => Some(payload.text.clone()),
        None => None,
    }
}

} // verus!
