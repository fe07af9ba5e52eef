//! Block-level liveness analysis: classical use/def dataflow over the
//! control-flow graph. Per block, `use` holds the registers read before any
//! definition in the block (terminator reads included) and `def` the
//! registers written; the fixed point of
//! `live_out(B) = ⋃ live_in(S)` over successors and
//! `live_in(B) = use(B) ∪ (live_out(B) ∖ def(B))`
//! is reached by iterating from empty sets until nothing changes.

use vstd::prelude::*;
use crate::cfg::{cfg_targets_valid, BasicBlock, BlockId, Terminator, CFG};
use crate::ir::{Instruction, VirtualRegister};

verus! {

/// A set of virtual registers, by id.
#[derive(Debug)]
pub struct VRegSet {
    pub elems: Vec<usize>,
}

impl View for VRegSet {
    type V = Set<int>;

    open spec fn view(&self) -> Set<int> {
        Set::new(
            |x: int|
                exists|i: int| 0 <= i < self.elems@.len() && (#[trigger] self.elems@[i]) == x,
        )
    }
}

impl VRegSet {
    pub fn new() -> (r: Self)
        ensures
            r@ =~= Set::<int>::empty(),
            r.elems@.len() == 0,
    {
        let r = VRegSet { elems: Vec::new() };
        proof {
            assert(r@ =~= Set::<int>::empty());
        }
        r
    }

    pub fn contains(&self, r: &VirtualRegister) -> (b: bool)
        ensures
            b == self@.contains(r.id as int),
    {
        self.contains_id(r.id)
    }

    pub fn contains_id(&self, id: usize) -> (b: bool)
        ensures
            b == self@.contains(id as int),
    {
        let mut i: usize = 0;
        while i < self.elems.len()
            invariant
                i <= self.elems@.len(),
                forall|j: int| 0 <= j < i ==> (#[trigger] self.elems@[j]) != id,
            decreases self.elems@.len() - i,
        {
            if self.elems[i] == id {
                proof {
                    assert(self@.contains(id as int));
                }
                return true;
            }
            i = i + 1;
        }
        proof {
            assert(!self@.contains(id as int));
        }
        false
    }

    /// Adds an id that is not yet present; the backing vector grows by one.
    pub fn insert_new(&mut self, id: usize)
        requires
            !old(self)@.contains(id as int),
        ensures
            final(self)@ =~= old(self)@.insert(id as int),
            final(self).elems@.len() == old(self).elems@.len() + 1,
    {
        self.elems.push(id);
        proof {
            let n0 = old(self).elems@.len() as int;
            assert forall|x: int| final(self)@.contains(x) implies old(self)@.insert(
                id as int,
            ).contains(x) by {
                let i = choose|i: int|
                    0 <= i < final(self).elems@.len() && (#[trigger] final(self).elems@[i]) == x;
                if i < n0 {
                    assert(old(self).elems@[i] == x);
                }
            }
            assert forall|x: int|
                old(self)@.insert(id as int).contains(x) implies final(self)@.contains(x) by {
                if old(self)@.contains(x) {
                    let i = choose|i: int|
                        0 <= i < old(self).elems@.len() && (#[trigger] old(self).elems@[i]) == x;
                    assert(final(self).elems@[i] == x);
                } else {
                    assert(final(self).elems@[n0] == x);
                }
            }
            assert(final(self)@ =~= old(self)@.insert(id as int));
        }
    }

    /// An independent copy with the same contents and size.
    pub fn duplicate(&self) -> (r: Self)
        ensures
            r@ =~= self@,
            r.elems@.len() == self.elems@.len(),
    {
        let mut elems: Vec<usize> = Vec::new();
        let mut i: usize = 0;
        while i < self.elems.len()
            invariant
                i <= self.elems@.len(),
                elems@ =~= self.elems@.subrange(0, i as int),
            decreases self.elems@.len() - i,
        {
            elems.push(self.elems[i]);
            proof {
                assert(elems@ =~= self.elems@.subrange(0, i + 1));
            }
            i = i + 1;
        }
        proof {
            assert(elems@ =~= self.elems@);
        }
        let r = VRegSet { elems };
        proof {
            assert(r@ =~= self@);
        }
        r
    }

    /// The number of ids stored.
    pub fn size(&self) -> (n: usize)
        ensures
            n == self.elems@.len(),
    {
        self.elems.len()
    }

    /// The ids stored, for iteration.
    pub fn id_at(&self, i: usize) -> (id: usize)
        requires
            i < self.elems@.len(),
        ensures
            id == self.elems@[i as int],
            self@.contains(id as int),
    {
        self.elems[i]
    }
}

/// The per-block result of the analysis.
#[derive(Debug)]
pub struct BlockLiveness {
    /// Registers live at the start of the block.
    pub live_in: VRegSet,
    /// Registers live at the end of the block.
    pub live_out: VRegSet,
    /// Registers read before any definition in the block.
    pub use_set: VRegSet,
    /// Registers defined in the block.
    pub def_set: VRegSet,
}

/// Whether instruction `i` writes register id `x`.
pub open spec fn instr_defines(i: Instruction, x: int) -> bool {
    match i.destination {
        Some(d) => d.id == x,
        None => false,
    }
}

/// Whether instruction `i` reads register id `x` as an argument.
pub open spec fn instr_uses(i: Instruction, x: int) -> bool {
    exists|j: int| 0 <= j < i.args@.len() && (#[trigger] i.args@[j]).id == x
}

/// The registers defined by the first `n` instructions.
pub open spec fn spec_def_upto(instrs: Seq<Instruction>, n: int) -> Set<int> {
    Set::new(|x: int| exists|i: int| 0 <= i < n && instr_defines(#[trigger] instrs[i], x))
}

/// Whether the terminator reads register id `x`: a branch condition or a
/// returned value.
pub open spec fn term_reads(t: Terminator, x: int) -> bool {
    match t {
        Terminator::Branch { cond, .. } => cond.id == x,
        Terminator::Return(Some(r)) => r.id == x,
        _ => false,
    }
}

/// The block's `def` set: every register written in it.
pub open spec fn spec_def(b: BasicBlock) -> Set<int> {
    spec_def_upto(b.instructions@, b.instructions@.len() as int)
}

/// The block's `use` set: every register read (by an instruction, or by the
/// terminator) before being defined in the block.
pub open spec fn spec_use(b: BasicBlock) -> Set<int> {
    Set::new(
        |x: int|
            (exists|i: int|
                0 <= i < b.instructions@.len() && instr_uses(#[trigger] b.instructions@[i], x)
                    && !spec_def_upto(b.instructions@, i).contains(x)) || (term_reads(
                b.terminator,
                x,
            ) && !spec_def(b).contains(x)),
    )
}

/// The successors a terminator names, in order.
pub open spec fn spec_successors(t: Terminator) -> Seq<BlockId> {
    match t {
        Terminator::Jump(target) => seq![target],
        Terminator::Branch { cond: _, then_block, else_block } => seq![then_block, else_block],
        Terminator::Fallthrough(target) => seq![target],
        Terminator::Return(_) => Seq::empty(),
        Terminator::Unset => Seq::empty(),
    }
}

/// The block ids control can transfer to from this terminator.
pub fn get_successors(term: &Terminator) -> (r: Vec<BlockId>)
    ensures
        r@ == spec_successors(*term),
{
    match term {
        Terminator::Jump(target) => vec![*target],
        Terminator::Branch { cond: _, then_block, else_block } => vec![*then_block, *else_block],
        Terminator::Fallthrough(target) => vec![*target],
        Terminator::Return(_) => vec![],
        Terminator::Unset => vec![],
    }
}

/// The union of the live-in sets of the listed blocks.
pub open spec fn spec_union_in(r: Seq<BlockLiveness>, succs: Seq<BlockId>) -> Set<int> {
    Set::new(
        |x: int|
            exists|k: int|
                0 <= k < succs.len() && (#[trigger] succs[k]) < r.len() && r[succs[k] as int].live_in@.contains(
                    x,
                ),
    )
}

} // verus!

verus! {

/// The registers read (before definition) among the first `n` instructions.
pub open spec fn spec_use_upto(instrs: Seq<Instruction>, n: int) -> Set<int> {
    Set::new(
        |x: int|
            exists|i: int|
                0 <= i < n && instr_uses(#[trigger] instrs[i], x) && !spec_def_upto(
                    instrs,
                    i,
                ).contains(x),
    )
}

/// Computes a block's `use` and `def` sets exactly.
pub fn block_use_def(b: &BasicBlock) -> (r: (VRegSet, VRegSet))
    ensures
        r.0@ == spec_use(*b),
        r.1@ == spec_def(*b),
{
    let mut use_set = VRegSet::new();
    let mut def_set = VRegSet::new();
    let mut i: usize = 0;
    while i < b.instructions.len()
        invariant
            i <= b.instructions@.len(),
            def_set@ =~= spec_def_upto(b.instructions@, i as int),
            use_set@ =~= spec_use_upto(b.instructions@, i as int),
        decreases b.instructions@.len() - i,
    {
        let instr = &b.instructions[i];
        let ghost def_i: Set<int> = spec_def_upto(b.instructions@, i as int);
        let ghost use_i: Set<int> = spec_use_upto(b.instructions@, i as int);
        let mut j: usize = 0;
        while j < instr.args.len()
            invariant
                j <= instr.args@.len(),
                i < b.instructions@.len(),
                *instr == b.instructions@[i as int],
                def_set@ =~= def_i,
                def_i == spec_def_upto(b.instructions@, i as int),
                use_i == spec_use_upto(b.instructions@, i as int),
                use_set@ =~= use_i.union(
                    Set::new(
                        |x: int|
                            (exists|l: int|
                                0 <= l < j && (#[trigger] instr.args@[l]).id == x) && !def_i.contains(
                                x,
                            ),
                    ),
                ),
            decreases instr.args@.len() - j,
        {
            let arg = instr.args[j];
            let in_def = def_set.contains(&arg);
            let in_use = use_set.contains(&arg);
            if !in_def && !in_use {
                use_set.insert_new(arg.id);
            }
            proof {
                assert(use_set@ =~= use_i.union(
                    Set::new(
                        |x: int|
                            (exists|l: int|
                                0 <= l < j + 1 && (#[trigger] instr.args@[l]).id == x)
                                && !def_i.contains(x),
                    ),
                ));
            }
            j = j + 1;
        }
        proof {
            assert forall|x: int|
                spec_use_upto(b.instructions@, i + 1).contains(x) implies use_set@.contains(x) by {
                let w = choose|w: int|
                    0 <= w < i + 1 && instr_uses(#[trigger] b.instructions@[w], x)
                        && !spec_def_upto(b.instructions@, w).contains(x);
                if w < i {
                    assert(use_i.contains(x));
                } else {
                    assert(instr_uses(b.instructions@[i as int], x));
                    let l = choose|l: int|
                        0 <= l < instr.args@.len() && (#[trigger] instr.args@[l]).id == x;
                    assert(!def_i.contains(x));
                }
            }
            assert forall|x: int| use_set@.contains(x) implies spec_use_upto(
                b.instructions@,
                i + 1,
            ).contains(x) by {
                if use_i.contains(x) {
                    let w = choose|w: int|
                        0 <= w < i && instr_uses(#[trigger] b.instructions@[w], x)
                            && !spec_def_upto(b.instructions@, w).contains(x);
                    assert(instr_uses(b.instructions@[w], x));
                } else {
                    assert(instr_uses(b.instructions@[i as int], x));
                }
            }
            assert(use_set@ =~= spec_use_upto(b.instructions@, i + 1));
        }
        match &instr.destination {
            Some(d) => {
                if !def_set.contains(d) {
                    def_set.insert_new(d.id);
                }
            },
            None => {},
        }
        proof {
            assert forall|x: int|
                spec_def_upto(b.instructions@, i + 1).contains(x) implies def_set@.contains(x) by {
                let w = choose|w: int|
                    0 <= w < i + 1 && instr_defines(#[trigger] b.instructions@[w], x);
                if w < i {
                    assert(def_i.contains(x));
                }
            }
            assert forall|x: int| def_set@.contains(x) implies spec_def_upto(
                b.instructions@,
                i + 1,
            ).contains(x) by {
                if def_i.contains(x) {
                    let w = choose|w: int|
                        0 <= w < i && instr_defines(#[trigger] b.instructions@[w], x);
                    assert(instr_defines(b.instructions@[w], x));
                } else {
                    assert(instr_defines(b.instructions@[i as int], x));
                }
            }
            assert(def_set@ =~= spec_def_upto(b.instructions@, i + 1));
        }
        i = i + 1;
    }

    let term_read: Option<VirtualRegister> = match &b.terminator {
        Terminator::Branch { cond, .. } => Some(*cond),
        Terminator::Return(Some(r)) => Some(*r),
        _ => None,
    };
    match term_read {
        Some(reg) => {
            let in_def = def_set.contains(&reg);
            let in_use = use_set.contains(&reg);
            if !in_def && !in_use {
                use_set.insert_new(reg.id);
            }
        },
        None => {},
    }
    proof {
        assert(def_set@ =~= spec_def(*b));
        assert forall|x: int| spec_use(*b).contains(x) implies use_set@.contains(x) by {
            if spec_use_upto(b.instructions@, b.instructions@.len() as int).contains(x) {
            } else {
                assert(term_reads(b.terminator, x) && !spec_def(*b).contains(x));
            }
        }
        assert forall|x: int| use_set@.contains(x) implies spec_use(*b).contains(x) by {
            if spec_use_upto(b.instructions@, b.instructions@.len() as int).contains(x) {
                let w = choose|w: int|
                    0 <= w < b.instructions@.len() && instr_uses(#[trigger] b.instructions@[w], x)
                        && !spec_def_upto(b.instructions@, w).contains(x);
                assert(instr_uses(b.instructions@[w], x));
            }
        }
        assert(use_set@ =~= spec_use(*b));
    }
    (use_set, def_set)
}

} // verus!

verus! {

/// The lengths the liveness vectors store, summed; the fixed-point loop's
/// progress measure.
pub open spec fn sum_lens(s: Seq<BlockLiveness>) -> int
    decreases s.len(),
{
    if s.len() == 0 {
        0
    } else {
        s[0].live_in.elems@.len() + s[0].live_out.elems@.len() + sum_lens(s.drop_first())
    }
}

proof fn lemma_sum_lens_update(s: Seq<BlockLiveness>, i: int, v: BlockLiveness)
    requires
        0 <= i < s.len(),
    ensures
        sum_lens(s.update(i, v)) == sum_lens(s) + v.live_in.elems@.len()
            + v.live_out.elems@.len() - s[i].live_in.elems@.len() - s[i].live_out.elems@.len(),
    decreases i,
{
    if i == 0 {
        assert(s.update(0, v).drop_first() =~= s.drop_first());
    } else {
        assert(s.update(i, v).drop_first() =~= s.drop_first().update(i - 1, v));
        lemma_sum_lens_update(s.drop_first(), i - 1, v);
    }
}

proof fn lemma_sum_lens_bound(s: Seq<BlockLiveness>)
    ensures
        0 <= sum_lens(s) <= s.len() * (2 * (usize::MAX as int)),
    decreases s.len(),
{
    if s.len() == 0 {
    } else {
        lemma_sum_lens_bound(s.drop_first());
        assert(s[0].live_in.elems@.len() <= usize::MAX) by {
            assert(s[0].live_in.elems@.len() == vstd::std_specs::vec::spec_vec_len(
                &s[0].live_in.elems,
            ));
        }
        assert(s[0].live_out.elems@.len() <= usize::MAX) by {
            assert(s[0].live_out.elems@.len() == vstd::std_specs::vec::spec_vec_len(
                &s[0].live_out.elems,
            ));
        }
        assert((s.len() - 1) * (2 * (usize::MAX as int)) + 2 * (usize::MAX as int) == s.len() * (2
            * (usize::MAX as int))) by (nonlinear_arith);
    }
}

/// The ascent invariant: every stored set stays below its transfer value.
pub open spec fn ascending(r: Seq<BlockLiveness>, c: CFG) -> bool {
    forall|b: int|
        0 <= b < c.blocks@.len() ==> {
            &&& (#[trigger] r[b]).live_out@.subset_of(
                spec_union_in(r, spec_successors(c.blocks@[b].terminator)),
            )
            &&& r[b].live_in@.subset_of(
                spec_use(c.blocks@[b]).union(r[b].live_out@.difference(spec_def(c.blocks@[b]))),
            )
        }
}

/// Saturation: every stored set also dominates its transfer value.
pub open spec fn saturated(r: Seq<BlockLiveness>, c: CFG, b: int) -> bool {
    let succs = spec_successors(c.blocks@[b].terminator);
    &&& forall|k: int|
        0 <= k < succs.len() ==> (#[trigger] r[succs[k] as int]).live_in@.subset_of(
            r[b].live_out@,
        )
    &&& spec_use(c.blocks@[b]).subset_of(r[b].live_in@)
    &&& r[b].live_out@.difference(spec_def(c.blocks@[b])).subset_of(r[b].live_in@)
}

/// The union of the given live-in sets over the listed successors.
pub open spec fn spec_union_in_sets(fin: Seq<Set<int>>, succs: Seq<BlockId>) -> Set<int> {
    Set::new(
        |x: int|
            exists|k: int|
                0 <= k < succs.len() && (#[trigger] succs[k]) < fin.len() && fin[succs[k] as int].contains(
                    x,
                ),
    )
}

/// `fin`/`fout` are closed under the dataflow transfer functions: each
/// block's live-out covers the union of its successors' live-ins, and its
/// live-in covers its uses and whatever flows through it. Every solution of
/// the equations is closed.
pub open spec fn is_closed_solution(c: CFG, fin: Seq<Set<int>>, fout: Seq<Set<int>>) -> bool {
    &&& fin.len() == c.blocks@.len()
    &&& fout.len() == c.blocks@.len()
    &&& forall|b: int|
        0 <= b < c.blocks@.len() ==> {
            &&& spec_union_in_sets(fin, spec_successors(c.blocks@[b].terminator)).subset_of(
                #[trigger] fout[b],
            )
            &&& spec_use(c.blocks@[b]).subset_of(fin[b])
            &&& fout[b].difference(spec_def(c.blocks@[b])).subset_of(fin[b])
        }
}

/// The result lies below every closed assignment: it is the least solution.
pub open spec fn below_solutions(r: Seq<BlockLiveness>, c: CFG) -> bool {
    forall|fin: Seq<Set<int>>, fout: Seq<Set<int>>|
        #[trigger] is_closed_solution(c, fin, fout) ==> (forall|b: int|
            0 <= b < r.len() ==> (#[trigger] r[b]).live_in@.subset_of(fin[b])
                && r[b].live_out@.subset_of(fout[b]))
}

/// Exact use/def recorded for every block.
pub open spec fn use_def_exact(r: Seq<BlockLiveness>, c: CFG) -> bool {
    forall|b: int|
        0 <= b < c.blocks@.len() ==> (#[trigger] r[b]).use_set@ == spec_use(c.blocks@[b])
            && r[b].def_set@ == spec_def(c.blocks@[b])
}

/// Liveness analysis over the whole graph: per-block `use`/`def` are exact,
/// the returned `live_in`/`live_out` sets satisfy the dataflow equations,
/// and they form the least solution — iteration starts from empty sets and
/// only ever adds a register some closed assignment is forced to hold.
pub fn analyse(c: &CFG) -> (r: Vec<BlockLiveness>)
    requires
        cfg_targets_valid(*c),
    ensures
        r@.len() == c.blocks@.len(),
        use_def_exact(r@, *c),
        forall|b: int|
            0 <= b < c.blocks@.len() ==> {
                &&& (#[trigger] r@[b]).live_out@ == spec_union_in(
                    r@,
                    spec_successors(c.blocks@[b].terminator),
                )
                &&& r@[b].live_in@ == spec_use(c.blocks@[b]).union(
                    r@[b].live_out@.difference(spec_def(c.blocks@[b])),
                )
            },
        below_solutions(r@, *c),
{
    let mut result: Vec<BlockLiveness> = Vec::new();
    let mut i: usize = 0;
    while i < c.blocks.len()
        invariant
            i <= c.blocks@.len(),
            result@.len() == i,
            forall|b: int|
                0 <= b < i ==> {
                    &&& (#[trigger] result@[b]).use_set@ == spec_use(c.blocks@[b])
                    &&& result@[b].def_set@ == spec_def(c.blocks@[b])
                    &&& result@[b].live_in@ =~= Set::<int>::empty()
                    &&& result@[b].live_out@ =~= Set::<int>::empty()
                },
        decreases c.blocks@.len() - i,
    {
        let (use_set, def_set) = block_use_def(&c.blocks[i]);
        result.push(
            BlockLiveness { live_in: VRegSet::new(), live_out: VRegSet::new(), use_set, def_set },
        );
        i = i + 1;
    }

    proof {
        assert(ascending(result@, *c));
        assert(use_def_exact(result@, *c));
        assert(below_solutions(result@, *c));
    }

    loop
        invariant
            cfg_targets_valid(*c),
            result@.len() == c.blocks@.len(),
            use_def_exact(result@, *c),
            ascending(result@, *c),
            below_solutions(result@, *c),
        ensures
            forall|b: int| 0 <= b < c.blocks@.len() ==> saturated(result@, *c, b),
            below_solutions(result@, *c),
        decreases c.blocks@.len() * (2 * (usize::MAX as int)) - sum_lens(result@),
    {
        let ghost sum0: int = sum_lens(result@);
        let mut changed = false;
        let ghost pass0: Seq<BlockLiveness> = result@;

        let mut b: usize = 0;
        while b < result.len()
            invariant
                cfg_targets_valid(*c),
                result@.len() == c.blocks@.len(),
                b <= result@.len(),
                use_def_exact(result@, *c),
                ascending(result@, *c),
                below_solutions(result@, *c),
                !changed ==> result@ == pass0 && sum_lens(result@) == sum0,
                !changed ==> forall|b2: int| 0 <= b2 < b ==> saturated(result@, *c, b2),
                changed ==> sum_lens(result@) > sum0,
            decreases result@.len() - b,
        {
            let ghost before: Seq<BlockLiveness> = result@;
            let ghost changed_before: bool = changed;
            let succs = get_successors(&c.block(b).terminator);
            let mut new_out = result[b].live_out.duplicate();
            let ghost old_out: Set<int> = result@[b as int].live_out@;

            let mut k: usize = 0;
            while k < succs.len()
                invariant
                    k <= succs@.len(),
                    b < result@.len(),
                    result@ == before,
                    result@.len() == c.blocks@.len(),
                    succs@ == spec_successors(c.blocks@[b as int].terminator),
                    terminator_targets_ok(succs@, c.blocks@.len() as nat),
                    old_out == result@[b as int].live_out@,
                    old_out.subset_of(new_out@),
                    new_out@.subset_of(spec_union_in(result@, succs@)),
                    new_out.elems@.len() >= result@[b as int].live_out.elems@.len(),
                    new_out@ != old_out ==> new_out.elems@.len() > result@[b as int].live_out.elems@.len(),
                    below_solutions(result@, *c),
                    forall|fin: Seq<Set<int>>, fout: Seq<Set<int>>|
                        #[trigger] is_closed_solution(*c, fin, fout) ==> new_out@.subset_of(
                            fout[b as int],
                        ),
                    forall|k2: int|
                        0 <= k2 < k ==> (#[trigger] result@[succs@[k2] as int]).live_in@.subset_of(
                            new_out@,
                        ),
                decreases succs@.len() - k,
            {
                let s = succs[k];
                let src = result[s].live_in.duplicate();
                let mut m: usize = 0;
                while m < src.size()
                    invariant
                        m <= src.elems@.len(),
                        b < result@.len(),
                        k < succs@.len(),
                        result@ == before,
                        result@.len() == c.blocks@.len(),
                        succs@ == spec_successors(c.blocks@[b as int].terminator),
                        s == succs@[k as int],
                        s < result@.len(),
                        src@ == result@[s as int].live_in@,
                        old_out == result@[b as int].live_out@,
                        old_out.subset_of(new_out@),
                        new_out@.subset_of(spec_union_in(result@, succs@)),
                        new_out.elems@.len() >= result@[b as int].live_out.elems@.len(),
                        new_out@ != old_out ==> new_out.elems@.len() > result@[b as int].live_out.elems@.len(),
                        below_solutions(result@, *c),
                        forall|fin: Seq<Set<int>>, fout: Seq<Set<int>>|
                            #[trigger] is_closed_solution(*c, fin, fout) ==> new_out@.subset_of(
                                fout[b as int],
                            ),
                        forall|k2: int|
                            0 <= k2 < k ==> (#[trigger] result@[succs@[k2] as int]).live_in@.subset_of(
                                new_out@,
                            ),
                        forall|m2: int|
                            0 <= m2 < m ==> new_out@.contains(#[trigger] src.elems@[m2] as int),
                    decreases src.elems@.len() - m,
                {
                    let id = src.id_at(m);
                    if !new_out.contains_id(id) {
                        proof {
                            assert(spec_union_in(result@, succs@).contains(id as int));
                            assert(!old_out.contains(id as int));
                            assert forall|fin: Seq<Set<int>>, fout: Seq<Set<int>>|
                                #[trigger] is_closed_solution(*c, fin, fout) implies new_out@.insert(
                                id as int,
                            ).subset_of(fout[b as int]) by {
                                assert(result@[s as int].live_in@.subset_of(fin[s as int]));
                                assert(fin[s as int].contains(id as int));
                                assert(spec_union_in_sets(
                                    fin,
                                    spec_successors(c.blocks@[b as int].terminator),
                                ).contains(id as int));
                            }
                        }
                        new_out.insert_new(id);
                    }
                    m = m + 1;
                }
                proof {
                    assert forall|x: int| result@[s as int].live_in@.contains(x) implies new_out@.contains(
                        x,
                    ) by {
                        let w = choose|w: int|
                            0 <= w < src.elems@.len() && (#[trigger] src.elems@[w]) == x;
                        assert(new_out@.contains(src.elems@[w] as int));
                    }
                }
                k = k + 1;
            }

            let out_grew = new_out.size() > result[b].live_out.size();
            let mut new_in = result[b].live_in.duplicate();
            let ghost old_in: Set<int> = result@[b as int].live_in@;
            let use_src = result[b].use_set.duplicate();
            let mut m: usize = 0;
            while m < use_src.size()
                invariant
                    m <= use_src.elems@.len(),
                    b < result@.len(),
                    result@ == before,
                    result@.len() == c.blocks@.len(),
                    use_src@ == spec_use(c.blocks@[b as int]),
                    old_in == result@[b as int].live_in@,
                    old_in.subset_of(new_in@),
                    new_in@.subset_of(use_src@.union(new_out@.difference(spec_def(c.blocks@[b as int])))),
                    new_in.elems@.len() >= result@[b as int].live_in.elems@.len(),
                    new_in@ != old_in ==> new_in.elems@.len() > result@[b as int].live_in.elems@.len(),
                    below_solutions(result@, *c),
                    forall|fin: Seq<Set<int>>, fout: Seq<Set<int>>|
                        #[trigger] is_closed_solution(*c, fin, fout) ==> new_out@.subset_of(
                            fout[b as int],
                        ) && new_in@.subset_of(fin[b as int]),
                    forall|m2: int|
                        0 <= m2 < m ==> new_in@.contains(#[trigger] use_src.elems@[m2] as int),
                decreases use_src.elems@.len() - m,
            {
                let id = use_src.id_at(m);
                if !new_in.contains_id(id) {
                    proof {
                        assert(use_src@.contains(id as int));
                        assert(!old_in.contains(id as int));
                        assert forall|fin: Seq<Set<int>>, fout: Seq<Set<int>>|
                            #[trigger] is_closed_solution(*c, fin, fout) implies new_in@.insert(
                            id as int,
                        ).subset_of(fin[b as int]) by {
                            assert(spec_use(c.blocks@[b as int]).subset_of(fin[b as int]));
                        }
                    }
                    new_in.insert_new(id);
                }
                m = m + 1;
            }
            proof {
                assert forall|x: int| spec_use(c.blocks@[b as int]).contains(x) implies new_in@.contains(
                    x,
                ) by {
                    let w = choose|w: int|
                        0 <= w < use_src.elems@.len() && (#[trigger] use_src.elems@[w]) == x;
                    assert(new_in@.contains(use_src.elems@[w] as int));
                }
            }

            let mut m2i: usize = 0;
            while m2i < new_out.size()
                invariant
                    m2i <= new_out.elems@.len(),
                    b < result@.len(),
                    result@ == before,
                    result@.len() == c.blocks@.len(),
                    use_src@ == spec_use(c.blocks@[b as int]),
                    use_def_exact(result@, *c),
                    old_in == result@[b as int].live_in@,
                    old_in.subset_of(new_in@),
                    spec_use(c.blocks@[b as int]).subset_of(new_in@),
                    new_in@.subset_of(use_src@.union(new_out@.difference(spec_def(c.blocks@[b as int])))),
                    new_in.elems@.len() >= result@[b as int].live_in.elems@.len(),
                    new_in@ != old_in ==> new_in.elems@.len() > result@[b as int].live_in.elems@.len(),
                    below_solutions(result@, *c),
                    forall|fin: Seq<Set<int>>, fout: Seq<Set<int>>|
                        #[trigger] is_closed_solution(*c, fin, fout) ==> new_out@.subset_of(
                            fout[b as int],
                        ) && new_in@.subset_of(fin[b as int]),
                    forall|m2: int|
                        0 <= m2 < m2i ==> (new_out@.contains(#[trigger] new_out.elems@[m2] as int)
                            && (spec_def(c.blocks@[b as int]).contains(new_out.elems@[m2] as int)
                            || new_in@.contains(new_out.elems@[m2] as int))),
                decreases new_out.elems@.len() - m2i,
            {
                let id = new_out.id_at(m2i);
                let in_def = result[b].def_set.contains_id(id);
                if !in_def {
                    if !new_in.contains_id(id) {
                        proof {
                            assert(new_out@.contains(id as int));
                            assert(!spec_def(c.blocks@[b as int]).contains(id as int));
                            assert(!old_in.contains(id as int));
                            assert forall|fin: Seq<Set<int>>, fout: Seq<Set<int>>|
                                #[trigger] is_closed_solution(*c, fin, fout) implies new_in@.insert(
                                id as int,
                            ).subset_of(fin[b as int]) by {
                                assert(fout[b as int].difference(
                                    spec_def(c.blocks@[b as int]),
                                ).subset_of(fin[b as int]));
                                assert(fout[b as int].contains(id as int));
                            }
                        }
                        new_in.insert_new(id);
                    }
                }
                m2i = m2i + 1;
            }
            proof {
                assert forall|x: int|
                    new_out@.difference(spec_def(c.blocks@[b as int])).contains(x) implies new_in@.contains(
                    x,
                ) by {
                    let w = choose|w: int|
                        0 <= w < new_out.elems@.len() && (#[trigger] new_out.elems@[w]) == x;
                    assert(spec_def(c.blocks@[b as int]).contains(new_out.elems@[w] as int)
                        || new_in@.contains(new_out.elems@[w] as int));
                }
            }

            let in_grew = new_in.size() > result[b].live_in.size();

            let ghost new_out_v: Set<int> = new_out@;
            let ghost new_in_v: Set<int> = new_in@;
            let ghost new_lens: int = new_in.elems@.len() as int + new_out.elems@.len() as int;
            let ghost old_lens: int = result@[b as int].live_in.elems@.len() as int + result@[b as int].live_out.elems@.len() as int;

            if out_grew || in_grew {
                changed = true;
                let use_dup = result[b].use_set.duplicate();
                let def_dup = result[b].def_set.duplicate();
                let replacement = BlockLiveness {
                    live_in: new_in,
                    live_out: new_out,
                    use_set: use_dup,
                    def_set: def_dup,
                };
                result.set(b, replacement);

                proof {
                    lemma_sum_lens_update(before, b as int, result@[b as int]);
                    assert(sum_lens(result@) == sum_lens(before) + new_lens - old_lens);
                    assert(new_lens > old_lens);
                    assert forall|b2: int| 0 <= b2 < c.blocks@.len() implies (#[trigger] result@[b2]).use_set@
                        == spec_use(c.blocks@[b2]) && result@[b2].def_set@ == spec_def(c.blocks@[b2]) by {
                        if b2 != b {
                            assert(result@[b2] == before[b2]);
                        }
                    }
                    assert forall|b2: int| 0 <= b2 < c.blocks@.len() implies ((#[trigger] result@[b2]).live_out@.subset_of(
                        spec_union_in(result@, spec_successors(c.blocks@[b2].terminator)),
                    ) && result@[b2].live_in@.subset_of(
                        spec_use(c.blocks@[b2]).union(
                            result@[b2].live_out@.difference(spec_def(c.blocks@[b2])),
                        ),
                    )) by {
                        let succs2 = spec_successors(c.blocks@[b2].terminator);
                        assert forall|x: int|
                            spec_union_in(before, succs2).contains(x) implies spec_union_in(
                            result@,
                            succs2,
                        ).contains(x) by {
                            let w = choose|w: int|
                                0 <= w < succs2.len() && (#[trigger] succs2[w]) < before.len()
                                    && before[succs2[w] as int].live_in@.contains(x);
                            if succs2[w] == b {
                                assert(old_in.subset_of(new_in_v));
                                assert(result@[succs2[w] as int].live_in@.contains(x));
                            } else {
                                assert(result@[succs2[w] as int].live_in@.contains(x));
                            }
                        }
                        if b2 == b {
                            assert(result@[b2].live_out@ == new_out_v);
                            assert(new_out_v.subset_of(spec_union_in(before, succs2)));
                            assert(result@[b2].live_in@ == new_in_v);
                        } else {
                            assert(result@[b2] == before[b2]);
                            assert(before[b2].live_out@.subset_of(spec_union_in(before, succs2)));
                            assert(result@[b2].live_in@.subset_of(
                                spec_use(c.blocks@[b2]).union(
                                    result@[b2].live_out@.difference(spec_def(c.blocks@[b2])),
                                ),
                            ));
                        }
                    }
                    assert(ascending(result@, *c));
                    assert forall|fin: Seq<Set<int>>, fout: Seq<Set<int>>|
                        #[trigger] is_closed_solution(*c, fin, fout) implies (forall|b2: int|
                        0 <= b2 < result@.len() ==> (#[trigger] result@[b2]).live_in@.subset_of(
                            fin[b2],
                        ) && result@[b2].live_out@.subset_of(fout[b2])) by {
                        assert forall|b2: int| 0 <= b2 < result@.len() implies (#[trigger] result@[
                        b2]).live_in@.subset_of(fin[b2]) && result@[b2].live_out@.subset_of(
                            fout[b2],
                        ) by {
                            if b2 != b {
                                assert(result@[b2] == before[b2]);
                                assert(before[b2].live_in@.subset_of(fin[b2]));
                                assert(before[b2].live_out@.subset_of(fout[b2]));
                            } else {
                                assert(new_in_v.subset_of(fin[b2]));
                                assert(new_out_v.subset_of(fout[b2]));
                            }
                        }
                    }
                    assert(below_solutions(result@, *c));
                    if changed_before {
                        assert(sum_lens(before) > sum0);
                        assert(sum_lens(result@) > sum0);
                    } else {
                        assert(sum_lens(before) == sum0);
                        assert(sum_lens(result@) > sum0);
                    }
                }
            } else {
                proof {
                    assert(new_out.elems@.len() == before[b as int].live_out.elems@.len());
                    assert(new_in.elems@.len() == before[b as int].live_in.elems@.len());
                    assert(new_out_v =~= old_out);
                    assert(new_in_v =~= old_in);
                    if !changed {
                        assert forall|b2: int| 0 <= b2 < b + 1 implies saturated(result@, *c, b2)
                        by {
                            if b2 < b {
                                assert(saturated(result@, *c, b2));
                            } else {
                                let succs2 = spec_successors(c.blocks@[b2].terminator);
                                assert forall|k2: int| 0 <= k2 < succs2.len() implies (
                                #[trigger] result@[succs2[k2] as int]).live_in@.subset_of(
                                    result@[b2].live_out@,
                                ) by {
                                    assert(result@[succs2[k2] as int].live_in@.subset_of(
                                        new_out@,
                                    ));
                                    assert(new_out@ == result@[b2].live_out@);
                                }
                                assert(spec_use(c.blocks@[b2]).subset_of(new_in@));
                                assert(new_in@ == result@[b2].live_in@);
                                assert(result@[b2].live_out@.difference(
                                    spec_def(c.blocks@[b2]),
                                ).subset_of(result@[b2].live_in@));
                            }
                        }
                    }
                }
            }
            b = b + 1;
        }

        if !changed {
            break ;
        }
        proof {
            lemma_sum_lens_bound(result@);
        }
    }

    proof {
        assert forall|b: int| 0 <= b < c.blocks@.len() implies {
            &&& (#[trigger] result@[b]).live_out@ == spec_union_in(
                result@,
                spec_successors(c.blocks@[b].terminator),
            )
            &&& result@[b].live_in@ == spec_use(c.blocks@[b]).union(
                result@[b].live_out@.difference(spec_def(c.blocks@[b])),
            )
        } by {
            let succs = spec_successors(c.blocks@[b].terminator);
            assert(saturated(result@, *c, b));
            assert forall|x: int| spec_union_in(result@, succs).contains(x) implies result@[b].live_out@.contains(
                x,
            ) by {
                let w = choose|w: int|
                    0 <= w < succs.len() && (#[trigger] succs[w]) < result@.len()
                        && result@[succs[w] as int].live_in@.contains(x);
                assert(result@[succs[w] as int].live_in@.subset_of(result@[b].live_out@));
            }
            assert(result@[b].live_out@ =~= spec_union_in(result@, succs));
            assert(result@[b].live_in@ =~= spec_use(c.blocks@[b]).union(
                result@[b].live_out@.difference(spec_def(c.blocks@[b])),
            ));
        }
    }
    result
}

/// Every successor named in the list is a valid block id.
pub open spec fn terminator_targets_ok(succs: Seq<BlockId>, n: nat) -> bool {
    forall|k: int| 0 <= k < succs.len() ==> (#[trigger] succs[k]) < n
}

} // verus!
