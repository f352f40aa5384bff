//! The width-independent Reading document: blocks of complete source with
//! their copy payloads.
use vstd::prelude::*;

use crate::display::DisplayId;
use crate::preview::PreviewRef;
use crate::text::str_eq;

verus! {

#[derive(Debug, Clone, PartialEq, Eq, Hash, PartialOrd, Ord)]
pub struct BlockId(pub String);

#[derive(Debug, Clone, PartialEq, Eq, Hash, PartialOrd, Ord)]
pub struct ItemId(pub String);

#[derive(Debug, Clone, Copy, PartialEq, Eq, Structural)]
pub enum ReadingBlockKind {
    Code,
    Notice,
}

/// What copying a block yields.
#[derive(Debug, Clone, PartialEq, Eq)]
pub struct ReadingCopyPayload {
    pub text: String,
    /// The block is copied whole or not at all.
    pub atomic: bool,
}

/// One addressable item inside a block.
#[derive(Debug, Clone, PartialEq, Eq)]
pub struct ReadingItem {
    pub id: ItemId,
    pub text: String,
}

#[derive(Debug, Clone, PartialEq, Eq)]
pub struct ReadingBlock {
    pub id: BlockId,
    pub owner: DisplayId,
    pub unit: Option<u64>,
    pub kind: ReadingBlockKind,
    pub copy: ReadingCopyPayload,
    pub preview: PreviewRef,
    pub items: Vec<ReadingItem>,
}

#[derive(Debug, Clone, PartialEq, Eq)]
pub struct ReadingDocument {
    pub blocks: Vec<ReadingBlock>,
}

/// The first block with this id.
pub open spec fn block_named(blocks: Seq<ReadingBlock>, id: Seq<char>) -> Option<ReadingBlock>
    decreases blocks.len(),
{
    if blocks.len() == 0 {
        None
    } else if blocks[0].id.0@ == id {
        Some(blocks[0])
    } else {
        block_named(blocks.drop_first(), id)
    }
}

impl ReadingDocument {
    pub fn block(&self, id: &BlockId) -> (r: Option<&ReadingBlock>)
        ensures
            match block_named(self.blocks@, id.0@) {
                Some(b) => r == Some(&b),
                None => r is None,
            },
    {
        let mut i: usize = 0;
        proof {
            assert(self.blocks@.skip(0) =~= self.blocks@);
        }
        while i < self.blocks.len()
            invariant
                i <= self.blocks@.len(),
                block_named(self.blocks@, id.0@) == block_named(self.blocks@.skip(i as int), id.0@),
            decreases self.blocks.len() - i,
        {
            proof {
                assert(self.blocks@.skip(i as int).drop_first() =~= self.blocks@.skip(i + 1));
            }
            if str_eq(self.blocks[i].id.0.as_str(), id.0.as_str()) {
                return Some(&self.blocks[i]);
            }
            i = i + 1;
        }
        None
    }
}

} // verus!
