//! A script: a block that takes no arguments and returns nothing, ending
//! in a placeholder so the cursor always has somewhere to land.

use vstd::prelude::*;

use crate::code_generation::IdGen;
use crate::env::null_type;
use crate::lang::{node_views, Block, CodeNode, NodeView, ID};

verus! {

/// A standalone script body.
pub struct Script {
    pub code: Block,
}

impl Script {
    /// A fresh script: one block holding a single null-typed placeholder.
    pub fn new(id_gen: &mut IdGen) -> (r: Script)
        ensures
            r.code.id == old(id_gen).next,
            r.code.expressions@.len() == 1,
            node_views(r.code.expressions@)[0] is Placeholder,
    {
        let block_id = id_gen.fresh();
        let placeholder = crate::code_generation::new_placeholder(
            "End of script".to_owned(), null_type(), id_gen);
        let mut expressions: Vec<CodeNode> = Vec::new();
        expressions.push(placeholder);
        let r = Script { code: Block { id: block_id, expressions } };
        proof {
            crate::lang::lemma_node_views(r.code.expressions@);
        }
        r
    }

    /// The script as a tree.
    pub fn code(&self) -> (r: CodeNode)
        ensures
            r@ == (NodeView::Block {
                id: self.code.id,
                expressions: node_views(self.code.expressions@),
            }),
    {
        let b = CodeNode::Block(Block {
            id: self.code.id,
            expressions: crate::lang::duplicate_nodes_public(&self.code.expressions),
        });
        proof {
            crate::lang::lemma_node_views_ext(b->Block_0.expressions@,
                self.code.expressions@);
        }
        b
    }

    /// The script's id: its block's id.
    pub fn id(&self) -> (r: ID)
        ensures
            r == self.code.id,
    {
        self.code.id
    }
}

} // verus!
