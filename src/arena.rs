use vstd::prelude::*;

use crate::cfg::{GAllocBlock, GAllocControlFlowGraph, GAllocInstruction, GAllocVariable};
use crate::TypeClass;

verus! {

/// A variable named by a number, with its storage class.
#[derive(PartialEq, Eq, Structural, Debug, Clone, Copy)]
pub struct ArenaVariable {
    pub id: u32,
    pub class: TypeClass,
}

impl GAllocVariable for ArenaVariable {
    open spec fn same_spec(&self, other: &Self) -> bool {
        *self == *other
    }

    fn type_class(&self) -> (r: TypeClass)
        ensures
            r == self.class,
    {
        self.class
    }

    fn is_same_variable(&self, other: &Self) -> (r: bool) {
        *self == *other
    }
}

/// An instruction, known by the variables that it reads.
#[derive(Debug)]
pub struct ArenaInstruction {
    pub reads: Vec<ArenaVariable>,
}

impl GAllocInstruction for ArenaInstruction {
    type Variable = ArenaVariable;

    open spec fn reads_spec(&self) -> Seq<ArenaVariable> {
        self.reads@
    }

    fn variables_read_by_instruction(&self) -> (r: &Vec<ArenaVariable>) {
        &self.reads
    }
}

/// A block of instructions.
#[derive(Debug)]
pub struct ArenaBlock {
    pub instructions: Vec<ArenaInstruction>,
}

/// The handle of a block: its position in the graph's arena.
#[derive(PartialEq, Eq, Structural, Debug, Clone, Copy)]
pub struct BlockId {
    pub index: usize,
}

impl GAllocBlock for ArenaBlock {
    type Instruction = ArenaInstruction;

    type Handle = BlockId;

    open spec fn instructions_spec(&self) -> Seq<ArenaInstruction> {
        self.instructions@
    }

    fn instructions(&self) -> (r: &Vec<ArenaInstruction>) {
        &self.instructions
    }
}

/// A control flow graph whose blocks live in an append-only arena: `edges[i]` lists
/// the successors of block `i`, in edge order.
#[derive(Debug)]
pub struct ArenaCfg {
    pub blocks: Vec<ArenaBlock>,
    pub edges: Vec<Vec<BlockId>>,
}

impl ArenaCfg {
    /// Every block has a list of successors, and every successor is a block.
    pub open spec fn wf(&self) -> bool {
        &&& self.edges@.len() == self.blocks@.len()
        &&& forall|i: int, k: int|
            0 <= i < self.edges@.len() && 0 <= k < self.edges@[i]@.len() ==> (
            #[trigger] self.edges@[i]@[k]).index < self.blocks@.len()
    }
}

impl GAllocControlFlowGraph for ArenaCfg {
    type Block = ArenaBlock;

    open spec fn has_block(&self, handle: BlockId) -> bool {
        self.wf() && handle.index < self.blocks@.len()
    }

    open spec fn block_spec(&self, handle: BlockId) -> ArenaBlock {
        self.blocks@[handle.index as int]
    }

    open spec fn edges_spec(&self, handle: BlockId) -> Seq<BlockId> {
        self.edges@[handle.index as int]@
    }

    fn block_get(&self, handle: BlockId) -> (r: &ArenaBlock) {
        &self.blocks[handle.index]
    }

    fn block_edges(&self, handle: BlockId) -> (r: Vec<BlockId>) {
        let succ = &self.edges[handle.index];
        let mut r: Vec<BlockId> = Vec::new();
        let mut k: usize = 0;
        while k < succ.len()
            invariant
                k <= succ@.len(),
                r@ == succ@.subrange(0, k as int),
            decreases succ@.len() - k,
        {
            r.push(succ[k]);
            proof {
                assert(succ@.subrange(0, k + 1) =~= succ@.subrange(0, k as int).push(succ@[k as int]));
            }
            k = k + 1;
        }
        proof {
            assert(succ@.subrange(0, k as int) =~= succ@);
        }
        r
    }
}

} // verus!
