use galloc::arena::{ArenaBlock, ArenaCfg, ArenaInstruction, ArenaVariable, BlockId};
use galloc::cfg::GAllocVariable;
use galloc::liveness::{search_final_branch_uses, try_search_final_branch_uses};
use galloc::{IFRGraph, Liveness, ProgramRange, TypeClass};

fn var(id: u32) -> ArenaVariable {
    ArenaVariable { id, class: TypeClass::Int32 }
}

/// A block of `len` instructions where those at `read_at` read `v`.
fn block(len: usize, v: ArenaVariable, read_at: &[usize]) -> ArenaBlock {
    let mut instructions = Vec::new();
    for i in 0..len {
        let reads = if read_at.contains(&i) { vec![var(99), v] } else { vec![var(98)] };
        instructions.push(ArenaInstruction { reads });
    }
    ArenaBlock { instructions }
}

fn id(index: usize) -> BlockId {
    BlockId { index }
}

fn range(begin: usize, end: usize) -> ProgramRange {
    ProgramRange { begin, end }
}

fn liveness(indices: &[usize]) -> Liveness {
    let mut l = Liveness::new();
    for i in indices {
        l.mark_live(*i);
    }
    l
}

#[test]
fn range_adjacent_do_not_interfere() {
    assert!(!range(0, 3).interferes_with(&range(3, 6)));
    assert!(!range(3, 6).interferes_with(&range(0, 3)));
}

#[test]
fn range_interference_is_symmetric() {
    let cases = [(0, 10, 2, 5), (2, 5, 0, 10), (0, 4, 3, 8), (1, 2, 5, 9), (4, 4, 0, 9), (0, 0, 0, 0)];
    for (a, b, c, d) in cases {
        assert_eq!(range(a, b).interferes_with(&range(c, d)), range(c, d).interferes_with(&range(a, b)));
    }
    assert!(range(0, 10).interferes_with(&range(2, 5)));
    assert!(range(2, 5).interferes_with(&range(0, 10)));
    assert!(range(0, 4).interferes_with(&range(3, 8)));
    assert!(!range(1, 2).interferes_with(&range(5, 9)));
}

#[test]
fn range_self_interference_iff_non_empty() {
    assert!(range(2, 3).interferes_with(&range(2, 3)));
    assert!(!range(3, 3).interferes_with(&range(3, 3)));
    assert!(!range(4, 4).interferes_with(&range(0, 9)));
}

#[test]
fn liveness_interference_is_symmetric() {
    let a = liveness(&[1, 5, 9]);
    let b = liveness(&[2, 9]);
    let c = liveness(&[3, 4]);
    assert!(a.interferes_with(&b));
    assert!(b.interferes_with(&a));
    assert!(!a.interferes_with(&c));
    assert!(!c.interferes_with(&a));
}

#[test]
fn empty_liveness_never_interferes() {
    let e = Liveness::new();
    let a = liveness(&[0, 1, 2]);
    assert!(!e.interferes_with(&a));
    assert!(!a.interferes_with(&e));
    assert!(!e.interferes_with(&Liveness::new()));
}

#[test]
fn liveness_marks() {
    let a = liveness(&[7, 3, 7]);
    assert!(a.is_live_at(7));
    assert!(a.is_live_at(3));
    assert!(!a.is_live_at(4));
}

#[test]
fn single_block_last_read_wins() {
    let v = var(1);
    let cfg = ArenaCfg { blocks: vec![block(7, v, &[2, 5])], edges: vec![vec![]] };
    let uses = search_final_branch_uses(&v, id(0), &cfg);
    assert_eq!(uses.len(), 1);
    assert_eq!(*uses[0].block_handle(), id(0));
    assert_eq!(uses[0].block_relative_index(), 5);
}

#[test]
fn no_read_gives_no_entry() {
    let v = var(1);
    let cfg = ArenaCfg { blocks: vec![block(4, var(2), &[0, 1])], edges: vec![vec![]] };
    assert!(search_final_branch_uses(&v, id(0), &cfg).is_empty());
}

#[test]
fn diamond_branch_without_read_has_no_entry() {
    let v = var(1);
    let cfg = ArenaCfg {
        blocks: vec![block(2, v, &[]), block(3, v, &[1]), block(3, v, &[])],
        edges: vec![vec![id(1), id(2)], vec![], vec![]],
    };
    let uses = search_final_branch_uses(&v, id(0), &cfg);
    assert_eq!(uses.len(), 1);
    assert_eq!(*uses[0].block_handle(), id(1));
    assert_eq!(uses[0].block_relative_index(), 1);
}

#[test]
fn both_branches_recorded_in_edge_order() {
    let v = var(1);
    let cfg = ArenaCfg {
        blocks: vec![block(2, v, &[0]), block(3, v, &[2]), block(3, v, &[0, 1])],
        edges: vec![vec![id(1), id(2)], vec![], vec![]],
    };
    let uses = search_final_branch_uses(&v, id(0), &cfg);
    assert_eq!(uses.len(), 2);
    assert_eq!((*uses[0].block_handle(), uses[0].block_relative_index()), (id(1), 2));
    assert_eq!((*uses[1].block_handle(), uses[1].block_relative_index()), (id(2), 1));
}

#[test]
fn skipped_branch_id_fails_the_search() {
    let v = var(1);
    let cfg = ArenaCfg {
        blocks: vec![block(2, v, &[]), block(3, v, &[]), block(3, v, &[2])],
        edges: vec![vec![id(1), id(2)], vec![], vec![]],
    };
    assert!(try_search_final_branch_uses(&v, id(0), &cfg).is_none());
}

#[test]
fn linear_chain_final_use_in_last_block() {
    let v = var(1);
    let cfg = ArenaCfg {
        blocks: vec![block(4, v, &[]), block(3, v, &[0, 2]), block(5, v, &[1, 3])],
        edges: vec![vec![id(1)], vec![id(2)], vec![]],
    };
    let uses = try_search_final_branch_uses(&v, id(0), &cfg).unwrap();
    assert_eq!(uses.len(), 1);
    assert_eq!(*uses[0].block_handle(), id(2));
    assert_eq!(uses[0].block_relative_index(), 3);
}

#[test]
fn graph_push_nodes_and_edge() {
    let mut g: IFRGraph<ArenaVariable> = IFRGraph::new();
    let a = g.push_node(var(1));
    let b = g.push_node(var(2));
    g.push_edge(a, b);
    assert_eq!(g.node_count(), 2);
    assert_eq!(g.edge_count(), 1);
    assert_ne!(a.index(), b.index());
    assert_eq!(g.edge(0).a().index(), a.index());
    assert_eq!(g.edge(0).b().index(), b.index());
    let c = g.push_node(var(3));
    assert_eq!(c.index(), 2);
    assert_eq!(*g.node(a), var(1));
    assert_eq!(*g.node(b), var(2));
    assert_eq!(*g.node(c), var(3));
    assert_eq!(g.edge_count(), 1);
}

#[test]
fn graph_default_is_empty() {
    let g: IFRGraph<ArenaVariable> = IFRGraph::default();
    assert_eq!(g.node_count(), 0);
    assert_eq!(g.edge_count(), 0);
}

#[test]
fn variable_type_class() {
    let v = ArenaVariable { id: 4, class: TypeClass::Huge };
    assert_eq!(v.type_class(), TypeClass::Huge);
    assert!(v.is_same_variable(&ArenaVariable { id: 4, class: TypeClass::Huge }));
    assert!(!v.is_same_variable(&var(4)));
}

#[test]
fn graph_keeps_duplicate_edges_and_self_loops() {
    let mut g: IFRGraph<ArenaVariable> = IFRGraph::new();
    let a = g.push_node(var(1));
    let b = g.push_node(var(2));
    g.push_edge(a, b);
    g.push_edge(a, b);
    g.push_edge(b, b);
    assert_eq!(g.edge_count(), 3);
    assert_eq!(g.edge(2).a().index(), 1);
    assert_eq!(g.edge(2).b().index(), 1);
}
