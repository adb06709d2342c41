use galloc::arena::{ArenaBlock, ArenaCfg, ArenaInstruction, ArenaVariable, BlockId};
use galloc::liveness::{search_final_branch_uses, Location};
use galloc::marking::{mark_live_before, variable_liveness};
use galloc::{Liveness, TypeClass};

fn var(id: u32) -> ArenaVariable {
    ArenaVariable { id, class: TypeClass::Int64 }
}

fn block(len: usize, v: ArenaVariable, read_at: &[usize]) -> ArenaBlock {
    let mut instructions = Vec::new();
    for i in 0..len {
        let reads = if read_at.contains(&i) { vec![v] } else { vec![] };
        instructions.push(ArenaInstruction { reads });
    }
    ArenaBlock { instructions }
}

fn id(index: usize) -> BlockId {
    BlockId { index }
}

fn live_indices(l: &Liveness, upto: usize) -> Vec<usize> {
    (0..upto).filter(|i| l.is_live_at(*i)).collect()
}

/// A(4 instructions, no reads) -> B(3, reads at 0 and 2) -> C(5, reads at 1 and 3).
fn chain(v: ArenaVariable) -> ArenaCfg {
    ArenaCfg {
        blocks: vec![block(4, v, &[]), block(3, v, &[0, 2]), block(5, v, &[1, 3])],
        edges: vec![vec![id(1)], vec![id(2)], vec![]],
    }
}

#[test]
fn chain_marks_tail_middle_and_head() {
    let v = var(1);
    let cfg = chain(v);
    let uses = search_final_branch_uses(&v, id(0), &cfg);
    assert_eq!(uses.len(), 1);
    assert_eq!(*uses[0].block_handle(), id(2));
    assert_eq!(uses[0].block_relative_index(), 3);
    let mut live = Liveness::new();
    mark_live_before(&cfg, &Location::new(id(0), 1), &uses[0], &mut live);
    assert_eq!(live_indices(&live, 12), vec![1, 2, 3, 4, 5, 6, 7, 8, 9]);
}

#[test]
fn same_block_marks_one_range() {
    let v = var(1);
    let cfg = chain(v);
    let mut live = Liveness::new();
    mark_live_before(&cfg, &Location::new(id(1), 0), &Location::new(id(1), 2), &mut live);
    assert_eq!(live_indices(&live, 12), vec![4, 5]);
}

#[test]
fn same_block_read_right_after_definition() {
    let v = var(1);
    let cfg = chain(v);
    let mut live = Liveness::new();
    mark_live_before(&cfg, &Location::new(id(2), 3), &Location::new(id(2), 3), &mut live);
    assert!(live_indices(&live, 12).is_empty());
}

#[test]
fn join_marks_both_paths() {
    let v = var(1);
    // A(2) -> {B(2), C(3)} -> D(4)
    let cfg = ArenaCfg {
        blocks: vec![block(2, v, &[]), block(2, v, &[]), block(3, v, &[]), block(4, v, &[2])],
        edges: vec![vec![id(1), id(2)], vec![id(3)], vec![id(3)], vec![]],
    };
    let mut live = Liveness::new();
    mark_live_before(&cfg, &Location::new(id(0), 1), &Location::new(id(3), 2), &mut live);
    assert_eq!(live_indices(&live, 11), vec![1, 2, 3, 4, 5, 6, 7, 8]);
}

#[test]
fn variable_liveness_of_chain() {
    let v = var(1);
    let cfg = chain(v);
    let live = variable_liveness(&cfg, &v, &Location::new(id(0), 1));
    assert_eq!(live_indices(&live, 12), vec![1, 2, 3, 4, 5, 6, 7, 8, 9]);
}

#[test]
fn variable_liveness_of_two_branches() {
    let v = var(1);
    // A(3, def at 0) -> {B(2, read at 0), C(3, read at 2)}
    let cfg = ArenaCfg {
        blocks: vec![block(3, v, &[]), block(2, v, &[0]), block(3, v, &[2])],
        edges: vec![vec![id(1), id(2)], vec![], vec![]],
    };
    let live = variable_liveness(&cfg, &v, &Location::new(id(0), 0));
    assert_eq!(live_indices(&live, 8), vec![0, 1, 2, 5, 6]);
    let other = variable_liveness(&cfg, &var(2), &Location::new(id(0), 0));
    assert!(live_indices(&other, 8).is_empty());
    assert!(!live.interferes_with(&other));
}
