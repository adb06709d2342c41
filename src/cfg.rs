use vstd::prelude::*;

use crate::TypeClass;

verus! {

pub type BlockOf<T> = <T as GAllocControlFlowGraph>::Block;

pub type BlockHandleOf<T> = <BlockOf<T> as GAllocBlock>::Handle;

pub type InstructionTypeOf<T> = <BlockOf<T> as GAllocBlock>::Instruction;

pub type VariableTypeOf<T> = <InstructionTypeOf<T> as GAllocInstruction>::Variable;

/// A variable of the program, as seen by the allocator.
pub trait GAllocVariable: Sized {
    /// The two values denote the same variable.
    spec fn same_spec(&self, other: &Self) -> bool;

    /// The storage class of this variable.
    fn type_class(&self) -> TypeClass;

    /// Checks whether `self` and `other` denote the same variable.
    fn is_same_variable(&self, other: &Self) -> (r: bool)
        ensures
            r == self.same_spec(other),
    ;
}

/// An instruction of a block.
pub trait GAllocInstruction: Sized {
    type Variable: GAllocVariable;

    /// The variables that the instruction reads, in order.
    spec fn reads_spec(&self) -> Seq<Self::Variable>;

    /// Returns the variables read by this instruction (not necessarily those written to).
    fn variables_read_by_instruction(&self) -> (r: &Vec<Self::Variable>)
        ensures
            r@ == self.reads_spec(),
    ;
}

/// A basic block of a control flow graph: a straight sequence of instructions.
pub trait GAllocBlock: Sized {
    type Instruction: GAllocInstruction;

    type Handle: Copy;

    /// The instructions of the block, in order.
    spec fn instructions_spec(&self) -> Seq<Self::Instruction>;

    /// Returns the instructions of the block, in order and indexable.
    fn instructions(&self) -> (r: &Vec<Self::Instruction>)
        ensures
            r@ == self.instructions_spec(),
    ;
}

/// A control flow graph (CFG) made of blocks joined by directed edges.
pub trait GAllocControlFlowGraph: Sized {
    type Block: GAllocBlock;

    /// The handle names a block of this graph.
    spec fn has_block(&self, handle: BlockHandleOf<Self>) -> bool;

    /// The block that a handle names.
    spec fn block_spec(&self, handle: BlockHandleOf<Self>) -> Self::Block;

    /// The successors of a block, in edge order.
    spec fn edges_spec(&self, handle: BlockHandleOf<Self>) -> Seq<BlockHandleOf<Self>>;

    /// Returns the block that `handle` names.
    fn block_get(&self, handle: BlockHandleOf<Self>) -> (r: &Self::Block)
        requires
            self.has_block(handle),
        ensures
            *r == self.block_spec(handle),
    ;

    /// Returns the successors of the block that `handle` names, in edge order.
    fn block_edges(&self, handle: BlockHandleOf<Self>) -> (r: Vec<BlockHandleOf<Self>>)
        requires
            self.has_block(handle),
        ensures
            r@ == self.edges_spec(handle),
            forall|i: int| 0 <= i < r@.len() ==> self.has_block(#[trigger] r@[i]),
    ;
}

} // verus!
