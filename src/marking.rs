use vstd::prelude::*;

use crate::arena::{ArenaCfg, ArenaVariable, BlockId};
use crate::cfg::GAllocControlFlowGraph;
use crate::liveness::{
    bounded_descent, descend_spec, final_branch_uses_spec, insert_use_spec, scan_block_spec,
    search_final_branch_uses, search_terminates, Location,
};
use crate::Liveness;

verus! {

/// The number of instructions of block `b`.
pub open spec fn len_of(g: ArenaCfg, b: nat) -> nat {
    g.blocks@[b as int].instructions@.len()
}

/// The global index of the first instruction of block `b`: blocks are numbered one
/// after another in arena order.
pub open spec fn block_offset(g: ArenaCfg, b: nat) -> nat
    decreases b,
{
    if b == 0 {
        0
    } else {
        block_offset(g, (b - 1) as nat) + len_of(g, (b - 1) as nat)
    }
}

/// The total number of instructions of the graph.
pub open spec fn total_len(g: ArenaCfg) -> nat {
    block_offset(g, g.blocks@.len())
}

/// `x` is the global index of an instruction `i` of block `b` with `from <= i < to`.
pub open spec fn in_block_range(g: ArenaCfg, b: nat, from: nat, to: nat, x: nat) -> bool {
    block_offset(g, b) + from <= x < block_offset(g, b) + to
}

/// The graph has an edge from block `p` to block `b`.
pub open spec fn is_edge(g: ArenaCfg, p: nat, b: nat) -> bool {
    p < g.edges@.len() && exists|k: int| 0 <= k < g.edges@[p as int]@.len() && (#[trigger] g.edges@[p as int]@[k]).index == b
}

/// The walk backward from block `b` toward the definition block `d` ends within
/// `fuel` levels.
pub open spec fn back_bounded(g: ArenaCfg, d: nat, b: nat, fuel: nat) -> bool
    decreases fuel,
{
    if fuel == 0 {
        false
    } else {
        b == d || forall|p: nat| #[trigger] is_edge(g, p, b) ==> back_bounded(g, d, p, (fuel - 1) as nat)
    }
}

/// `x` is marked when the backward walk crosses block `b`: in the definition block
/// from the definition index `di` onward, in any other block the whole block and
/// then, from each predecessor, what the walk marks there.
pub open spec fn back_marks(g: ArenaCfg, d: nat, di: nat, b: nat, fuel: nat, x: nat) -> bool
    decreases fuel,
{
    if fuel == 0 {
        false
    } else if b == d {
        in_block_range(g, d, di, len_of(g, d), x)
    } else {
        in_block_range(g, b, 0, len_of(g, b), x) || exists|p: nat|
            #[trigger] is_edge(g, p, b) && back_marks(g, d, di, p, (fuel - 1) as nat, x)
    }
}

/// The walk backward from the death block `e` reaches the definition block `d` on
/// every path, within `fuel` levels above `e`.
pub open spec fn death_bounded(g: ArenaCfg, d: nat, e: nat, fuel: nat) -> bool {
    forall|p: nat| #[trigger] is_edge(g, p, e) ==> back_bounded(g, d, p, fuel)
}

/// The walk backward from `death` toward `definition` ends.
pub open spec fn backward_terminates(g: ArenaCfg, definition: (BlockId, nat), death: (BlockId, nat)) -> bool {
    definition.0 == death.0 || exists|n: nat| death_bounded(g, definition.0.index as nat, death.0.index as nat, n)
}

/// `x` is a global index at which the variable defined at `definition` is live on
/// the way to `death`: in a shared block, from the definition up to the death;
/// otherwise the death's block up to the death, and what the walk back over the
/// predecessors marks.
pub open spec fn live_before_spec(g: ArenaCfg, definition: (BlockId, nat), death: (BlockId, nat), x: nat) -> bool {
    let d = definition.0.index as nat;
    let e = death.0.index as nat;
    if d == e {
        in_block_range(g, d, definition.1, death.1, x)
    } else {
        let n = choose|n: nat| death_bounded(g, d, e, n);
        in_block_range(g, e, 0, death.1, x) || exists|p: nat|
            #[trigger] is_edge(g, p, e) && back_marks(g, d, definition.1, p, n, x)
    }
}

/// The location is an instruction of the graph, or the end of its block.
pub open spec fn valid_point(g: ArenaCfg, l: (BlockId, nat)) -> bool {
    l.0.index < g.blocks@.len() && l.1 <= len_of(g, l.0.index as nat)
}

proof fn lemma_offset_monotonic(g: ArenaCfg, a: nat, b: nat)
    requires
        a <= b,
    ensures
        block_offset(g, a) <= block_offset(g, b),
    decreases b,
{
    if a < b {
        lemma_offset_monotonic(g, a, (b - 1) as nat);
    }
}

/// Returns the global index of the first instruction of block `b`.
fn offset_of(g: &ArenaCfg, b: usize) -> (r: usize)
    requires
        b < g.blocks@.len(),
        total_len(*g) <= usize::MAX,
    ensures
        r == block_offset(*g, b as nat),
        r + len_of(*g, b as nat) <= total_len(*g),
{
    let mut sum: usize = 0;
    let mut k: usize = 0;
    while k < b
        invariant
            k <= b < g.blocks@.len(),
            total_len(*g) <= usize::MAX,
            sum == block_offset(*g, k as nat),
        decreases b - k,
    {
        proof {
            lemma_offset_monotonic(*g, (k + 1) as nat, g.blocks@.len());
        }
        sum = sum + g.blocks[k].instructions.len();
        k = k + 1;
    }
    proof {
        lemma_offset_monotonic(*g, (b + 1) as nat, g.blocks@.len());
    }
    sum
}

/// Marks live the instructions `from..to` of block `b`.
fn mark_block_range(g: &ArenaCfg, b: usize, from: usize, to: usize, live: &mut Liveness)
    requires
        b < g.blocks@.len(),
        to <= len_of(*g, b as nat),
        total_len(*g) <= usize::MAX,
    ensures
        forall|x: usize|
            #[trigger] final(live)@.contains(x) <==> old(live)@.contains(x) || in_block_range(
                *g,
                b as nat,
                from as nat,
                to as nat,
                x as nat,
            ),
{
    let base = offset_of(g, b);
    let mut i: usize = from;
    while i < to
        invariant
            from <= i,
            i <= to || i == from,
            base == block_offset(*g, b as nat),
            base + to <= total_len(*g) <= usize::MAX,
            forall|x: usize|
                #[trigger] live@.contains(x) <==> old(live)@.contains(x) || in_block_range(
                    *g,
                    b as nat,
                    from as nat,
                    i as nat,
                    x as nat,
                ),
        decreases to - i,
    {
        let ghost before = live@;
        live.mark_live(base + i);
        proof {
            assert forall|x: usize|
                #[trigger] live@.contains(x) <==> old(live)@.contains(x) || in_block_range(
                    *g,
                    b as nat,
                    from as nat,
                    (i + 1) as nat,
                    x as nat,
                ) by {
                assert(before.contains(x) <==> old(live)@.contains(x) || in_block_range(*g, b as nat, from as nat, i as nat, x as nat));
            }
        }
        i = i + 1;
    }
    proof {
        assert forall|x: usize|
            in_block_range(*g, b as nat, from as nat, i as nat, x as nat) == in_block_range(
                *g,
                b as nat,
                from as nat,
                to as nat,
                x as nat,
            ) by {}
    }
}

/// Checks whether the graph has an edge from block `p` to block `b`.
fn has_edge(g: &ArenaCfg, p: usize, b: usize) -> (r: bool)
    requires
        p < g.edges@.len(),
    ensures
        r == is_edge(*g, p as nat, b as nat),
{
    let succ = &g.edges[p];
    let mut k: usize = 0;
    while k < succ.len()
        invariant
            p < g.edges@.len(),
            succ@ == g.edges@[p as int]@,
            k <= succ@.len(),
            forall|j: int| 0 <= j < k ==> (#[trigger] succ@[j]).index != b,
        decreases succ@.len() - k,
    {
        if succ[k].index == b {
            proof {
                assert(g.edges@[p as int]@[k as int].index == b);
            }
            return true;
        }
        k = k + 1;
    }
    false
}

/// Walks backward from block `b` toward the definition block `d`, marking live what
/// [`back_marks`] describes.
fn mark_from_block(g: &ArenaCfg, d: usize, di: usize, b: usize, live: &mut Liveness, Ghost(fuel): Ghost<nat>)
    requires
        g.wf(),
        d < g.blocks@.len(),
        b < g.blocks@.len(),
        di <= len_of(*g, d as nat),
        total_len(*g) <= usize::MAX,
        back_bounded(*g, d as nat, b as nat, fuel),
    ensures
        forall|x: usize|
            #[trigger] final(live)@.contains(x) <==> old(live)@.contains(x) || back_marks(
                *g,
                d as nat,
                di as nat,
                b as nat,
                fuel,
                x as nat,
            ),
    decreases fuel, 0nat,
{
    if b == d {
        mark_block_range(g, d, di, g.blocks[d].instructions.len(), live);
        return;
    }
    mark_block_range(g, b, 0, g.blocks[b].instructions.len(), live);
    let ghost middle = live@;
    mark_from_predecessors(g, d, di, b, live, Ghost((fuel - 1) as nat));
    proof {
        assert forall|x: usize|
            #[trigger] live@.contains(x) <==> old(live)@.contains(x) || back_marks(
                *g,
                d as nat,
                di as nat,
                b as nat,
                fuel,
                x as nat,
            ) by {
            assert(middle.contains(x) <==> old(live)@.contains(x) || in_block_range(*g, b as nat, 0, len_of(*g, b as nat), x as nat));
        }
    }
}

/// Walks backward from every predecessor of block `b` toward the definition block `d`.
fn mark_from_predecessors(
    g: &ArenaCfg,
    d: usize,
    di: usize,
    b: usize,
    live: &mut Liveness,
    Ghost(fuel): Ghost<nat>,
)
    requires
        g.wf(),
        d < g.blocks@.len(),
        di <= len_of(*g, d as nat),
        total_len(*g) <= usize::MAX,
        death_bounded(*g, d as nat, b as nat, fuel),
    ensures
        forall|x: usize|
            #[trigger] final(live)@.contains(x) <==> old(live)@.contains(x) || exists|p: nat|
                #[trigger] is_edge(*g, p, b as nat) && back_marks(*g, d as nat, di as nat, p, fuel, x as nat),
    decreases fuel, 1nat,
{
    let mut p: usize = 0;
    while p < g.blocks.len()
        invariant
            g.wf(),
            d < g.blocks@.len(),
            di <= len_of(*g, d as nat),
            total_len(*g) <= usize::MAX,
            death_bounded(*g, d as nat, b as nat, fuel),
            p <= g.blocks@.len(),
            forall|x: usize|
                #[trigger] live@.contains(x) <==> old(live)@.contains(x) || exists|q: nat|
                    q < p && #[trigger] is_edge(*g, q, b as nat) && back_marks(
                        *g,
                        d as nat,
                        di as nat,
                        q,
                        fuel,
                        x as nat,
                    ),
        decreases g.blocks@.len() - p,
    {
        let ghost before = live@;
        if has_edge(g, p, b) {
            mark_from_block(g, d, di, p, live, Ghost(fuel));
        }
        proof {
            assert forall|x: usize|
                #[trigger] live@.contains(x) <==> old(live)@.contains(x) || exists|q: nat|
                    q < p + 1 && #[trigger] is_edge(*g, q, b as nat) && back_marks(
                        *g,
                        d as nat,
                        di as nat,
                        q,
                        fuel,
                        x as nat,
                    ) by {
                if exists|q: nat| q < p + 1 && #[trigger] is_edge(*g, q, b as nat) && back_marks(*g, d as nat, di as nat, q, fuel, x as nat) {
                    let q = choose|q: nat| q < p + 1 && #[trigger] is_edge(*g, q, b as nat) && back_marks(*g, d as nat, di as nat, q, fuel, x as nat);
                    if q < p {
                        assert(before.contains(x));
                    }
                }
            }
        }
        p = p + 1;
    }
    proof {
        assert forall|x: usize|
            #[trigger] live@.contains(x) <==> old(live)@.contains(x) || exists|q: nat|
                #[trigger] is_edge(*g, q, b as nat) && back_marks(*g, d as nat, di as nat, q, fuel, x as nat) by {
            if exists|q: nat| #[trigger] is_edge(*g, q, b as nat) && back_marks(*g, d as nat, di as nat, q, fuel, x as nat) {
                let q = choose|q: nat| #[trigger] is_edge(*g, q, b as nat) && back_marks(*g, d as nat, di as nat, q, fuel, x as nat);
                assert(q < p);
            }
        }
    }
}

/// Marks in `live` every instruction at which the variable defined at `definition`
/// is live on its way to `death`, its final use on one branch.
///
/// Where both lie in one block this is the single range from the definition up to
/// (not including) the death. Otherwise it is the death's block up to the death,
/// every block that the walk back over predecessor edges crosses, and the
/// definition's block from the definition onward; the walk stops at the
/// definition's block.
pub fn mark_live_before(
    g: &ArenaCfg,
    definition: &Location<BlockId>,
    death: &Location<BlockId>,
    live: &mut Liveness,
)
    requires
        g.wf(),
        valid_point(*g, definition.model()),
        valid_point(*g, death.model()),
        total_len(*g) <= usize::MAX,
        backward_terminates(*g, definition.model(), death.model()),
    ensures
        forall|x: usize|
            #[trigger] final(live)@.contains(x) <==> old(live)@.contains(x) || live_before_spec(
                *g,
                definition.model(),
                death.model(),
                x as nat,
            ),
{
    let d = definition.block_handle().index;
    let di = definition.block_relative_index();
    let e = death.block_handle().index;
    let ei = death.block_relative_index();
    if d == e {
        mark_block_range(g, d, di, ei, live);
        return;
    }
    let ghost n = choose|n: nat| death_bounded(*g, d as nat, e as nat, n);
    mark_block_range(g, e, 0, ei, live);
    let ghost middle = live@;
    mark_from_predecessors(g, d, di, e, live, Ghost(n));
    proof {
        assert forall|x: usize|
            #[trigger] live@.contains(x) <==> old(live)@.contains(x) || live_before_spec(
                *g,
                definition.model(),
                death.model(),
                x as nat,
            ) by {
            assert(middle.contains(x) <==> old(live)@.contains(x) || in_block_range(*g, e as nat, 0, ei as nat, x as nat));
        }
    }
}

/// On a chain of blocks `a -> b -> c` (the only edge into `b` comes from `a`, the
/// only edge into `c` from `b`), a variable defined in `a` at `di` whose final use is
/// at `k` in `c` is live on the tail of `a` from the definition, on all of `b`, and
/// on `c` up to (not including) `k`. Where definition and death share a block, it
/// is live on the one range between them.
pub proof fn lemma_chain_liveness(g: ArenaCfg, a: BlockId, b: BlockId, c: BlockId, di: nat, k: nat, x: nat)
    requires
        a.index != b.index,
        b.index != c.index,
        a.index != c.index,
        forall|p: nat| #[trigger] is_edge(g, p, b.index as nat) <==> p == a.index,
        forall|p: nat| #[trigger] is_edge(g, p, c.index as nat) <==> p == b.index,
    ensures
        backward_terminates(g, (a, di), (c, k)),
        live_before_spec(g, (a, di), (c, k), x) <==> {
            ||| in_block_range(g, a.index as nat, di, len_of(g, a.index as nat), x)
            ||| in_block_range(g, b.index as nat, 0, len_of(g, b.index as nat), x)
            ||| in_block_range(g, c.index as nat, 0, k, x)
        },
        live_before_spec(g, (a, di), (a, k), x) <==> in_block_range(g, a.index as nat, di, k, x),
{
    let (an, bn, cn) = (a.index as nat, b.index as nat, c.index as nat);
    assert(back_bounded(g, an, an, 1));
    assert(back_bounded(g, an, bn, 2)) by {
        assert forall|p: nat| #[trigger] is_edge(g, p, bn) implies back_bounded(g, an, p, 1) by {
            assert(p == an);
        }
    }
    assert(death_bounded(g, an, cn, 2)) by {
        assert forall|p: nat| #[trigger] is_edge(g, p, cn) implies back_bounded(g, an, p, 2) by {
            assert(p == bn);
        }
    }
    let n = choose|n: nat| death_bounded(g, an, cn, n);
    assert(is_edge(g, bn, cn));
    assert(is_edge(g, an, bn));
    assert(back_bounded(g, an, bn, n));
    assert(back_bounded(g, an, an, (n - 1) as nat));
    assert(back_marks(g, an, di, bn, n, x) <==> in_block_range(g, bn, 0, len_of(g, bn), x) || back_marks(
        g,
        an,
        di,
        an,
        (n - 1) as nat,
        x,
    ));
}

/// Every location of the sequence is a valid point of the graph.
pub open spec fn all_valid(g: ArenaCfg, s: Seq<(BlockId, nat)>) -> bool {
    forall|i: int| 0 <= i < s.len() ==> valid_point(g, #[trigger] s[i])
}

proof fn lemma_scan_valid(
    g: ArenaCfg,
    var: ArenaVariable,
    h: BlockId,
    k: nat,
    branch_id: nat,
    acc: Option<Seq<(BlockId, nat)>>,
)
    requires
        h.index < g.blocks@.len(),
        k <= len_of(g, h.index as nat),
        acc matches Some(s) ==> all_valid(g, s),
    ensures
        scan_block_spec(g, var, h, k, branch_id, acc) matches Some(s) ==> all_valid(g, s),
    decreases k,
{
    if k > 0 {
        lemma_scan_valid(g, var, h, (k - 1) as nat, branch_id, acc);
        let prev = scan_block_spec(g, var, h, (k - 1) as nat, branch_id, acc);
        let r = insert_use_spec(prev, branch_id, (h, (k - 1) as nat));
        if r is Some {
            let s = r->Some_0;
            assert forall|i: int| 0 <= i < s.len() implies valid_point(g, #[trigger] s[i]) by {
                let ps = prev->Some_0;
                if i < ps.len() && i != branch_id {
                    assert(s[i] == ps[i]);
                }
            }
        }
    }
}

proof fn lemma_descend_valid(
    g: ArenaCfg,
    var: ArenaVariable,
    h: BlockId,
    j: nat,
    branch_id: nat,
    acc: Option<Seq<(BlockId, nat)>>,
    fuel: nat,
)
    requires
        bounded_descent(g, h, branch_id, fuel),
        j <= g.edges_spec(h).len(),
        acc matches Some(s) ==> all_valid(g, s),
    ensures
        descend_spec(g, var, h, j, branch_id, acc, fuel) matches Some(s) ==> all_valid(g, s),
    decreases fuel, j,
{
    if j == 0 {
        lemma_scan_valid(g, var, h, len_of(g, h.index as nat), branch_id, acc);
    } else {
        lemma_descend_valid(g, var, h, (j - 1) as nat, branch_id, acc, fuel);
        let prev = descend_spec(g, var, h, (j - 1) as nat, branch_id, acc, fuel);
        let s = g.edges_spec(h)[j - 1];
        assert(bounded_descent(g, s, (branch_id + (j - 1)) as nat, (fuel - 1) as nat));
        lemma_descend_valid(g, var, s, g.edges_spec(s).len(), (branch_id + j - 1) as nat, prev, (fuel - 1) as nat);
    }
}

/// The final uses of `var` defined at `definition`, one for each branch.
pub open spec fn deaths_of(g: ArenaCfg, var: ArenaVariable, definition: (BlockId, nat)) -> Seq<(BlockId, nat)> {
    final_branch_uses_spec(g, var, definition.0)->Some_0
}

/// Computes the liveness of `var`, defined at `definition`: the search finds its
/// final use on each branch, and from each of them the walk back to the definition
/// marks where it is live.
pub fn variable_liveness(g: &ArenaCfg, var: &ArenaVariable, definition: &Location<BlockId>) -> (r: Liveness)
    requires
        g.wf(),
        valid_point(*g, definition.model()),
        total_len(*g) <= usize::MAX,
        search_terminates(*g, definition.model().0),
        final_branch_uses_spec(*g, *var, definition.model().0) is Some,
        forall|i: int|
            0 <= i < deaths_of(*g, *var, definition.model()).len() ==> backward_terminates(
                *g,
                definition.model(),
                #[trigger] deaths_of(*g, *var, definition.model())[i],
            ),
    ensures
        forall|x: usize|
            #[trigger] r@.contains(x) <==> exists|i: int|
                0 <= i < deaths_of(*g, *var, definition.model()).len() && live_before_spec(
                    *g,
                    definition.model(),
                    #[trigger] deaths_of(*g, *var, definition.model())[i],
                    x as nat,
                ),
{
    let ghost def = definition.model();
    let ghost deaths = deaths_of(*g, *var, def);
    let deaths_found = search_final_branch_uses(var, *definition.block_handle(), g);
    proof {
        let n = choose|n: nat| bounded_descent(*g, def.0, 0, n);
        lemma_descend_valid(*g, *var, def.0, g.edges_spec(def.0).len(), 0, Some(Seq::empty()), n);
        assert(deaths.len() == deaths_found@.len());
    }
    let mut live = Liveness::new();
    let mut i: usize = 0;
    while i < deaths_found.len()
        invariant
            g.wf(),
            valid_point(*g, def),
            def == definition.model(),
            total_len(*g) <= usize::MAX,
            deaths == deaths_of(*g, *var, def),
            all_valid(*g, deaths),
            deaths.len() == deaths_found@.len(),
            forall|k: int| 0 <= k < deaths.len() ==> deaths[k] == (#[trigger] deaths_found@[k]).model(),
            forall|k: int| 0 <= k < deaths.len() ==> backward_terminates(*g, def, #[trigger] deaths[k]),
            i <= deaths.len(),
            forall|x: usize|
                #[trigger] live@.contains(x) <==> exists|k: int|
                    0 <= k < i && live_before_spec(*g, def, #[trigger] deaths[k], x as nat),
        decreases deaths.len() - i,
    {
        let ghost before = live@;
        proof {
            assert(deaths[i as int] == deaths_found@[i as int].model());
            assert(valid_point(*g, deaths[i as int]));
            assert(backward_terminates(*g, def, deaths[i as int]));
        }
        mark_live_before(g, definition, &deaths_found[i], &mut live);
        proof {
            assert forall|x: usize|
                #[trigger] live@.contains(x) <==> exists|k: int|
                    0 <= k < i + 1 && live_before_spec(*g, def, #[trigger] deaths[k], x as nat) by {
                if exists|k: int| 0 <= k < i + 1 && live_before_spec(*g, def, #[trigger] deaths[k], x as nat) {
                    let k = choose|k: int| 0 <= k < i + 1 && live_before_spec(*g, def, #[trigger] deaths[k], x as nat);
                    if k < i {
                        assert(before.contains(x));
                    }
                }
            }
        }
        i = i + 1;
    }
    live
}

} // verus!
