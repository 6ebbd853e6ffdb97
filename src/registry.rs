//! The registry of blocks.

use vstd::prelude::*;

use crate::block::Block;

verus! {

/// Every block of the sequence lies in the world.
pub open spec fn all_in_world(s: Seq<Block>) -> bool {
    forall|i: int| 0 <= i < s.len() ==> (#[trigger] s[i]).in_world()
}

/// The blocks of the world, in no particular order. Overlapping blocks are
/// allowed; a block is addressed by its position in the sequence.
pub struct BlockRegistry {
    blocks: Vec<Block>,
}

impl View for BlockRegistry {
    type V = Seq<Block>;

    closed spec fn view(&self) -> Seq<Block> {
        self.blocks@
    }
}

impl BlockRegistry {
    pub open spec fn wf(&self) -> bool {
        all_in_world(self@)
    }

    pub fn new() -> (r: BlockRegistry)
        ensures
            r@ == Seq::<Block>::empty(),
            r.wf(),
    {
        BlockRegistry { blocks: Vec::new() }
    }

    pub fn from_blocks(blocks: Vec<Block>) -> (r: BlockRegistry)
        requires
            all_in_world(blocks@),
        ensures
            r@ == blocks@,
            r.wf(),
    {
        BlockRegistry { blocks }
    }

    pub fn len(&self) -> (r: usize)
        ensures
            r == self@.len(),
    {
        self.blocks.len()
    }

    /// All blocks, in registry order.
    pub fn list(&self) -> (r: &Vec<Block>)
        ensures
            r@ == self@,
    {
        &self.blocks
    }

    pub fn insert(&mut self, block: Block)
        requires
            old(self).wf(),
            block.in_world(),
        ensures
            final(self)@ == old(self)@.push(block),
            final(self).wf(),
    {
        self.blocks.push(block);
    }

    /// Removes the block at `index`; the blocks after it move down by one.
    pub fn remove(&mut self, index: usize) -> (r: Block)
        requires
            old(self).wf(),
            index < old(self)@.len(),
        ensures
            r == old(self)@[index as int],
            final(self)@ == old(self)@.remove(index as int),
            final(self).wf(),
    {
        self.blocks.remove(index)
    }
}

} // verus!
