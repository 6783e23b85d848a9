use vstd::prelude::*;

use super::blocks::{blocks_html, blocks_view, Block, BlockV};

verus! {

/// State shared by the whole parse; it holds nothing yet.
pub struct DocContext {}

/// A parsed document: its top-level blocks, in order.
pub struct Document {
    blocks: Vec<Block>,
    pub context: DocContext,
}

impl View for Document {
    type V = Seq<BlockV>;

    closed spec fn view(&self) -> Seq<BlockV> {
        blocks_view(self.blocks@)
    }
}

impl Document {
    /// An empty document.
    pub fn new() -> (r: Self)
        ensures
            r@ == Seq::<BlockV>::empty(),
    {
        let r = Self { blocks: Vec::new(), context: DocContext {} };
        assert(r@ =~= Seq::<BlockV>::empty());
        r
    }

    /// A document of the given blocks.
    pub fn from_blocks(blocks: Vec<Block>, context: DocContext) -> (r: Self)
        ensures
            r@ == blocks_view(blocks@),
    {
        Self { blocks, context }
    }

    /// The HTML of the document: its blocks', one per line.
    pub fn as_html(&self) -> (r: String)
        ensures
            r@ == blocks_html(self@, true),
    {
        Block::vec_as_html(&self.blocks, true)
    }

    /// Appends a block.
    pub fn add_block(&mut self, block: Block)
        ensures
            final(self)@ == old(self)@.push(block@),
    {
        self.blocks.push(block);
        assert(self@ =~= old(self)@.push(block@));
    }
}

} // verus!
