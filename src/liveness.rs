use vstd::prelude::*;

use crate::cfg::{
    BlockHandleOf, GAllocBlock, GAllocControlFlowGraph, GAllocInstruction, GAllocVariable,
    InstructionTypeOf, VariableTypeOf,
};

verus! {

/// A location in the program: a block and an instruction index relative to that block.
#[derive(Debug)]
pub struct Location<H> {
    /// The handle to the block
    block: H,
    /// The instruction index relative to the block
    block_relative_index: usize,
}

impl<H> Location<H> {
    /// The block of the location.
    pub closed spec fn block_spec(&self) -> H {
        self.block
    }

    /// The instruction index of the location, relative to its block.
    pub closed spec fn index_spec(&self) -> nat {
        self.block_relative_index as nat
    }

    /// The location as a pair of block and relative index.
    pub open spec fn model(&self) -> (H, nat) {
        (self.block_spec(), self.index_spec())
    }

    /// Creates the location of instruction `block_relative_index` of `block`.
    pub fn new(block: H, block_relative_index: usize) -> (r: Location<H>)
        ensures
            r.model() == (block, block_relative_index as nat),
    {
        Location { block, block_relative_index }
    }

    /// Returns the block handle of this location.
    pub fn block_handle(&self) -> (r: &H)
        ensures
            *r == self.block_spec(),
    {
        &self.block
    }

    /// Returns the instruction index relative to [`Location::block_handle`].
    pub fn block_relative_index(&self) -> (r: usize)
        ensures
            r == self.index_spec(),
    {
        self.block_relative_index
    }
}

/// A sequence of locations as pairs of block and relative index.
pub open spec fn locations_model<H>(s: Seq<Location<H>>) -> Seq<(H, nat)> {
    s.map_values(|l: Location<H>| l.model())
}

/// The instruction reads the variable.
pub open spec fn instruction_reads<I: GAllocInstruction>(ins: I, var: I::Variable) -> bool {
    exists|j: int| 0 <= j < ins.reads_spec().len() && (#[trigger] ins.reads_spec()[j]).same_spec(&var)
}

/// Records a use for a branch in the list of final uses: a known branch is overwritten,
/// the next new branch is appended, and a branch beyond that breaks the density of
/// branch ids, which fails the search (`None`, and failure stays failure).
pub open spec fn insert_use_spec<H>(acc: Option<Seq<(H, nat)>>, branch_id: nat, loc: (H, nat)) -> Option<Seq<(H, nat)>> {
    match acc {
        Some(s) => if branch_id < s.len() {
            Some(s.update(branch_id as int, loc))
        } else if branch_id == s.len() {
            Some(s.push(loc))
        } else {
            None
        },
        None => None,
    }
}

/// The final uses after scanning the first `k` instructions of block `h` for reads
/// of `var`, each read recorded for `branch_id`.
pub open spec fn scan_block_spec<C: GAllocControlFlowGraph>(
    g: C,
    var: VariableTypeOf<C>,
    h: BlockHandleOf<C>,
    k: nat,
    branch_id: nat,
    acc: Option<Seq<(BlockHandleOf<C>, nat)>>,
) -> Option<Seq<(BlockHandleOf<C>, nat)>>
    decreases k,
{
    if k == 0 {
        acc
    } else {
        let prev = scan_block_spec(g, var, h, (k - 1) as nat, branch_id, acc);
        let ins = g.block_spec(h).instructions_spec()[k - 1];
        if instruction_reads::<InstructionTypeOf<C>>(ins, var) {
            insert_use_spec(prev, branch_id, (h, (k - 1) as nat))
        } else {
            prev
        }
    }
}

/// The number of instructions of block `h`.
pub open spec fn block_len<C: GAllocControlFlowGraph>(g: C, h: BlockHandleOf<C>) -> nat {
    g.block_spec(h).instructions_spec().len()
}

/// The final uses after the depth-first descent from block `h` under `branch_id`:
/// the whole block is scanned, then the first `j` successors are visited in edge
/// order, successor `i` under `branch_id + i`. `fuel` bounds the depth.
pub open spec fn descend_spec<C: GAllocControlFlowGraph>(
    g: C,
    var: VariableTypeOf<C>,
    h: BlockHandleOf<C>,
    j: nat,
    branch_id: nat,
    acc: Option<Seq<(BlockHandleOf<C>, nat)>>,
    fuel: nat,
) -> Option<Seq<(BlockHandleOf<C>, nat)>>
    decreases fuel, j,
{
    if j == 0 {
        scan_block_spec(g, var, h, block_len(g, h), branch_id, acc)
    } else if fuel == 0 {
        acc
    } else {
        let prev = descend_spec(g, var, h, (j - 1) as nat, branch_id, acc, fuel);
        let s = g.edges_spec(h)[j - 1];
        descend_spec(g, var, s, g.edges_spec(s).len(), (branch_id + j - 1) as nat, prev, (fuel - 1) as nat)
    }
}

/// The descent from block `h` under `branch_id` ends within `fuel` levels (no cycle is
/// reachable), and every branch id that it hands out fits in a `usize`.
pub open spec fn bounded_descent<C: GAllocControlFlowGraph>(
    g: C,
    h: BlockHandleOf<C>,
    branch_id: nat,
    fuel: nat,
) -> bool
    decreases fuel,
{
    if fuel == 0 {
        false
    } else {
        &&& g.has_block(h)
        &&& branch_id <= usize::MAX
        &&& forall|i: int|
            0 <= i < g.edges_spec(h).len() ==> bounded_descent(
                g,
                #[trigger] g.edges_spec(h)[i],
                (branch_id + i) as nat,
                (fuel - 1) as nat,
            )
    }
}

/// The descent from the definition block `def` ends and its branch ids fit a `usize`.
pub open spec fn search_terminates<C: GAllocControlFlowGraph>(g: C, def: BlockHandleOf<C>) -> bool {
    exists|n: nat| bounded_descent(g, def, 0, n)
}

/// The final use of `var` on each branch leaving block `def`, indexed by branch id;
/// `None` where the branch ids would not stay dense.
pub open spec fn final_branch_uses_spec<C: GAllocControlFlowGraph>(
    g: C,
    var: VariableTypeOf<C>,
    def: BlockHandleOf<C>,
) -> Option<Seq<(BlockHandleOf<C>, nat)>> {
    let n = choose|n: nat| bounded_descent(g, def, 0, n);
    descend_spec(g, var, def, g.edges_spec(def).len(), 0, Some(Seq::empty()), n)
}

/// Once the density of branch ids is broken, scanning more instructions keeps the
/// search failed.
proof fn lemma_scan_stays_failed<C: GAllocControlFlowGraph>(
    g: C,
    var: VariableTypeOf<C>,
    h: BlockHandleOf<C>,
    i: nat,
    k: nat,
    branch_id: nat,
    acc: Option<Seq<(BlockHandleOf<C>, nat)>>,
)
    requires
        i <= k,
        scan_block_spec(g, var, h, i, branch_id, acc) is None,
    ensures
        scan_block_spec(g, var, h, k, branch_id, acc) is None,
    decreases k,
{
    if i < k {
        lemma_scan_stays_failed(g, var, h, i, (k - 1) as nat, branch_id, acc);
    }
}

/// A descent that starts from a failed search stays failed.
pub proof fn lemma_descend_from_failed<C: GAllocControlFlowGraph>(
    g: C,
    var: VariableTypeOf<C>,
    h: BlockHandleOf<C>,
    j: nat,
    branch_id: nat,
    fuel: nat,
)
    ensures
        descend_spec(g, var, h, j, branch_id, None, fuel) is None,
    decreases fuel, j,
{
    if j == 0 {
        lemma_scan_stays_failed(g, var, h, 0, block_len(g, h), branch_id, None);
    } else if fuel > 0 {
        lemma_descend_from_failed(g, var, h, (j - 1) as nat, branch_id, fuel);
        let s = g.edges_spec(h)[j - 1];
        lemma_descend_from_failed(g, var, s, g.edges_spec(s).len(), (branch_id + j - 1) as nat, (fuel - 1) as nat);
    }
}

/// Once visiting the first `i` successors fails, visiting more keeps the search failed.
proof fn lemma_descend_stays_failed<C: GAllocControlFlowGraph>(
    g: C,
    var: VariableTypeOf<C>,
    h: BlockHandleOf<C>,
    i: nat,
    j: nat,
    branch_id: nat,
    acc: Option<Seq<(BlockHandleOf<C>, nat)>>,
    fuel: nat,
)
    requires
        i <= j,
        fuel > 0,
        descend_spec(g, var, h, i, branch_id, acc, fuel) is None,
    ensures
        descend_spec(g, var, h, j, branch_id, acc, fuel) is None,
    decreases j,
{
    if i < j {
        lemma_descend_stays_failed(g, var, h, i, (j - 1) as nat, branch_id, acc, fuel);
        let s = g.edges_spec(h)[j - 1];
        lemma_descend_from_failed(g, var, s, g.edges_spec(s).len(), (branch_id + j - 1) as nat, (fuel - 1) as nat);
    }
}

/// Records `location` as the use of branch `branch_id`: overwrites a known branch,
/// appends the next new one, and refuses (returns `false`) a branch beyond that.
fn insert_use<H>(list: &mut Vec<Location<H>>, branch_id: usize, location: Location<H>) -> (ok: bool)
    ensures
        insert_use_spec(Some(locations_model(old(list)@)), branch_id as nat, location.model())
            == (if ok {
            Some(locations_model(final(list)@))
        } else {
            None::<Seq<(H, nat)>>
        }),
{
    let ghost loc = location.model();
    if branch_id < list.len() {
        list.set(branch_id, location);
        proof {
            assert(locations_model(list@) =~= locations_model(old(list)@).update(branch_id as int, loc));
        }
        true
    } else if branch_id == list.len() {
        list.push(location);
        proof {
            assert(locations_model(list@) =~= locations_model(old(list)@).push(loc));
        }
        true
    } else {
        false
    }
}

/// Checks whether the instruction reads `var`.
fn reads_variable<I: GAllocInstruction>(ins: &I, var: &I::Variable) -> (r: bool)
    ensures
        r == instruction_reads(*ins, *var),
{
    let reads = ins.variables_read_by_instruction();
    let mut j: usize = 0;
    while j < reads.len()
        invariant
            reads@ == ins.reads_spec(),
            j <= reads@.len(),
            forall|k: int| 0 <= k < j ==> !(#[trigger] reads@[k]).same_spec(var),
        decreases reads@.len() - j,
    {
        if reads[j].is_same_variable(var) {
            return true;
        }
        j = j + 1;
    }
    false
}

/// Searches the final use of `var` on each branch below `current_block`, whose
/// branch id is `branch_id`; returns `false` where the branch ids would not stay dense.
fn internal_search_final_branch_uses<C: GAllocControlFlowGraph>(
    var: &VariableTypeOf<C>,
    graph: &C,
    current_block: BlockHandleOf<C>,
    branch_id: usize,
    final_uses: &mut Vec<Location<BlockHandleOf<C>>>,
    Ghost(fuel): Ghost<nat>,
) -> (ok: bool)
    requires
        bounded_descent(*graph, current_block, branch_id as nat, fuel),
    ensures
        descend_spec(
            *graph,
            *var,
            current_block,
            graph.edges_spec(current_block).len(),
            branch_id as nat,
            Some(locations_model(old(final_uses)@)),
            fuel,
        ) == (if ok {
            Some(locations_model(final(final_uses)@))
        } else {
            None::<Seq<(BlockHandleOf<C>, nat)>>
        }),
    decreases fuel,
{
    let ghost g = *graph;
    let ghost start = Some(locations_model(old(final_uses)@));
    let block = graph.block_get(current_block);
    let instructions = block.instructions();
    let mut i: usize = 0;
    while i < instructions.len()
        invariant
            g == *graph,
            start == Some(locations_model(old(final_uses)@)),
            fuel > 0,
            g.has_block(current_block),
            instructions@ == g.block_spec(current_block).instructions_spec(),
            i <= instructions@.len(),
            scan_block_spec(g, *var, current_block, i as nat, branch_id as nat, start)
                == Some(locations_model(final_uses@)),
        decreases instructions@.len() - i,
    {
        if reads_variable(&instructions[i], var) {
            let ok = insert_use(final_uses, branch_id, Location { block: current_block, block_relative_index: i });
            if !ok {
                proof {
                    lemma_scan_stays_failed(g, *var, current_block, (i + 1) as nat, block_len(g, current_block), branch_id as nat, start);
                    lemma_descend_stays_failed(g, *var, current_block, 0, g.edges_spec(current_block).len(), branch_id as nat, start, fuel);
                }
                return false;
            }
        }
        i = i + 1;
    }
    let edges = graph.block_edges(current_block);
    let mut j: usize = 0;
    while j < edges.len()
        invariant
            g == *graph,
            start == Some(locations_model(old(final_uses)@)),
            bounded_descent(g, current_block, branch_id as nat, fuel),
            edges@ == g.edges_spec(current_block),
            j <= edges@.len(),
            descend_spec(g, *var, current_block, j as nat, branch_id as nat, start, fuel)
                == Some(locations_model(final_uses@)),
        decreases edges@.len() - j,
    {
        let descendant = edges[j];
        proof {
            assert(bounded_descent(g, edges@[j as int], (branch_id + j) as nat, (fuel - 1) as nat));
        }
        let ok = internal_search_final_branch_uses(
            var,
            graph,
            descendant,
            branch_id + j,
            final_uses,
            Ghost((fuel - 1) as nat),
        );
        if !ok {
            proof {
                assert(descend_spec(g, *var, current_block, (j + 1) as nat, branch_id as nat, start, fuel) is None);
                lemma_descend_stays_failed(g, *var, current_block, (j + 1) as nat, edges@.len(), branch_id as nat, start, fuel);
            }
            return false;
        }
        j = j + 1;
    }
    true
}

/// Searches the final use of `var` on each branch leaving `var_definition_block`.
///
/// Returns the final uses indexed by branch id (a branch with no read of `var` and
/// no later branch has no entry), or `None` where the branch ids would not stay dense.
pub fn try_search_final_branch_uses<C: GAllocControlFlowGraph>(
    var: &VariableTypeOf<C>,
    var_definition_block: BlockHandleOf<C>,
    graph: &C,
) -> (r: Option<Vec<Location<BlockHandleOf<C>>>>)
    requires
        search_terminates(*graph, var_definition_block),
    ensures
        match r {
            Some(v) => final_branch_uses_spec(*graph, *var, var_definition_block) == Some(locations_model(v@)),
            None => final_branch_uses_spec(*graph, *var, var_definition_block) is None,
        },
{
    let ghost n = choose|n: nat| bounded_descent(*graph, var_definition_block, 0, n);
    let mut final_uses: Vec<Location<BlockHandleOf<C>>> = Vec::new();
    proof {
        assert(locations_model(final_uses@) =~= Seq::<(BlockHandleOf<C>, nat)>::empty());
    }
    let ok = internal_search_final_branch_uses(var, graph, var_definition_block, 0, &mut final_uses, Ghost(n));
    if ok {
        Some(final_uses)
    } else {
        None
    }
}

/// Searches the final use of `var` on each branch leaving `var_definition_block`,
/// indexed by branch id; a branch with no read of `var` and no later branch has no
/// entry.
pub fn search_final_branch_uses<C: GAllocControlFlowGraph>(
    var: &VariableTypeOf<C>,
    var_definition_block: BlockHandleOf<C>,
    graph: &C,
) -> (r: Vec<Location<BlockHandleOf<C>>>)
    requires
        search_terminates(*graph, var_definition_block),
        final_branch_uses_spec(*graph, *var, var_definition_block) is Some,
    ensures
        final_branch_uses_spec(*graph, *var, var_definition_block) == Some(locations_model(r@)),
{
    match try_search_final_branch_uses(var, var_definition_block, graph) {
        Some(v) => v,
        None => Vec::new(),
    }
}

/// Density of branch ids: recording a use for a branch beyond the next new one fails
/// the search, and a failed search stays failed through the rest of the descent, so
/// the search as a whole reports the failure.
pub proof fn lemma_density_guard<C: GAllocControlFlowGraph>(
    g: C,
    var: VariableTypeOf<C>,
    uses: Seq<(BlockHandleOf<C>, nat)>,
    branch_id: nat,
    loc: (BlockHandleOf<C>, nat),
    h: BlockHandleOf<C>,
    j: nat,
    next_branch_id: nat,
    fuel: nat,
)
    requires
        branch_id > uses.len(),
    ensures
        insert_use_spec(Some(uses), branch_id, loc) is None,
        descend_spec(g, var, h, j, next_branch_id, insert_use_spec(Some(uses), branch_id, loc), fuel) is None,
{
    lemma_descend_from_failed(g, var, h, j, next_branch_id, fuel);
}

/// Instruction `i` of block `h` reads `var`.
pub open spec fn reads_at<C: GAllocControlFlowGraph>(g: C, var: VariableTypeOf<C>, h: BlockHandleOf<C>, i: int) -> bool {
    instruction_reads::<InstructionTypeOf<C>>(g.block_spec(h).instructions_spec()[i], var)
}

/// The uses `s` with `loc` recorded for branch `branch_id`, which is known or next.
pub open spec fn put_use<H>(s: Seq<(H, nat)>, branch_id: nat, loc: (H, nat)) -> Seq<(H, nat)> {
    if branch_id < s.len() {
        s.update(branch_id as int, loc)
    } else {
        s.push(loc)
    }
}

/// Scanning a block for a known or next branch never fails, leaves the uses as they
/// were where nothing reads `var`, and records the last read otherwise.
proof fn lemma_scan_records_last_read<C: GAllocControlFlowGraph>(
    g: C,
    var: VariableTypeOf<C>,
    h: BlockHandleOf<C>,
    k: nat,
    branch_id: nat,
    s: Seq<(BlockHandleOf<C>, nat)>,
)
    requires
        branch_id <= s.len(),
    ensures
        scan_block_spec(g, var, h, k, branch_id, Some(s)) == Some(s) || exists|x: (BlockHandleOf<C>, nat)|
            scan_block_spec(g, var, h, k, branch_id, Some(s)) == Some(put_use(s, branch_id, x)),
        (forall|i: int| 0 <= i < k ==> !reads_at(g, var, h, i)) ==> scan_block_spec(
            g,
            var,
            h,
            k,
            branch_id,
            Some(s),
        ) == Some(s),
        forall|j: nat|
            #![trigger reads_at(g, var, h, j as int)]
            j < k && reads_at(g, var, h, j as int) && (forall|i: int|
                j < i < k ==> !reads_at(g, var, h, i)) ==> scan_block_spec(g, var, h, k, branch_id, Some(s))
                == Some(put_use(s, branch_id, (h, j))),
    decreases k,
{
    if k > 0 {
        lemma_scan_records_last_read(g, var, h, (k - 1) as nat, branch_id, s);
        let prev = scan_block_spec(g, var, h, (k - 1) as nat, branch_id, Some(s));
        let loc = (h, (k - 1) as nat);
        if reads_at(g, var, h, k - 1) {
            if prev != Some(s) {
                let x = choose|x: (BlockHandleOf<C>, nat)| prev == Some(put_use(s, branch_id, x));
                assert(put_use(put_use(s, branch_id, x), branch_id, loc) =~= put_use(s, branch_id, loc));
            }
            assert(scan_block_spec(g, var, h, k, branch_id, Some(s)) == Some(put_use(s, branch_id, loc)));
        } else {
            assert forall|j: nat|
                #![trigger reads_at(g, var, h, j as int)]
                j < k && reads_at(g, var, h, j as int) && (forall|i: int|
                    j < i < k ==> !reads_at(g, var, h, i)) implies scan_block_spec(g, var, h, k, branch_id, Some(s))
                == Some(put_use(s, branch_id, (h, j))) by {
                assert(j != k - 1);
            }
        }
    }
}

/// On a chain of blocks `a -> b -> c`, a variable defined in `a` (which does not read
/// it) and read in `b` has one final use: the last read `k` in `c`.
pub proof fn lemma_chain_final_use<C: GAllocControlFlowGraph>(
    g: C,
    var: VariableTypeOf<C>,
    a: BlockHandleOf<C>,
    b: BlockHandleOf<C>,
    c: BlockHandleOf<C>,
    jb: nat,
    k: nat,
)
    requires
        g.has_block(a),
        g.has_block(b),
        g.has_block(c),
        g.edges_spec(a) == seq![b],
        g.edges_spec(b) == seq![c],
        g.edges_spec(c) == Seq::<BlockHandleOf<C>>::empty(),
        forall|i: int| 0 <= i < block_len(g, a) ==> !reads_at(g, var, a, i),
        jb < block_len(g, b),
        reads_at(g, var, b, jb as int),
        k < block_len(g, c),
        reads_at(g, var, c, k as int),
        forall|i: int| k < i < block_len(g, c) ==> !reads_at(g, var, c, i),
    ensures
        search_terminates(g, a),
        final_branch_uses_spec(g, var, a) == Some(seq![(c, k)]),
{
    let empty = Seq::<(BlockHandleOf<C>, nat)>::empty();
    assert(bounded_descent(g, c, 0, 1));
    assert(bounded_descent(g, b, 0, 2)) by {
        assert(g.edges_spec(b)[0] == c);
    }
    assert(bounded_descent(g, a, 0, 3)) by {
        assert(g.edges_spec(a)[0] == b);
    }
    let n = choose|n: nat| bounded_descent(g, a, 0, n);
    assert(g.edges_spec(a)[0] == b);
    assert(g.edges_spec(b)[0] == c);
    assert(bounded_descent(g, b, 0, (n - 1) as nat));
    assert(bounded_descent(g, c, 0, (n - 2) as nat));
    lemma_scan_records_last_read(g, var, a, block_len(g, a), 0, empty);
    let sa = scan_block_spec(g, var, a, block_len(g, a), 0, Some(empty));
    assert(sa == Some(empty));
    lemma_scan_records_last_read(g, var, b, block_len(g, b), 0, empty);
    let sb = scan_block_spec(g, var, b, block_len(g, b), 0, Some(empty));
    let s1 = sb->Some_0;
    assert(s1.len() <= 1) by {
        if sb != Some(empty) {
            let x = choose|x: (BlockHandleOf<C>, nat)| sb == Some(put_use(empty, 0, x));
        }
    }
    lemma_scan_records_last_read(g, var, c, block_len(g, c), 0, s1);
    assert(reads_at(g, var, c, k as int));
    assert(put_use(s1, 0, (c, k)) =~= seq![(c, k)]);
    assert(descend_spec(g, var, c, 0, 0, sb, (n - 2) as nat) == Some(seq![(c, k)]));
    assert(descend_spec(g, var, b, 0, 0, sa, (n - 1) as nat) == sb);
    assert(descend_spec(g, var, b, 1, 0, sa, (n - 1) as nat) == Some(seq![(c, k)]));
    assert(descend_spec(g, var, a, 0, 0, Some(empty), n) == sa);
}

} // verus!
