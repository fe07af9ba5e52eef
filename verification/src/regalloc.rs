//! Linear-scan register allocation over live intervals. Program points are
//! assigned to instructions in block order; each virtual register's
//! interval runs from its first point of liveness to its last, widened at
//! block boundaries by its presence in the block's live-in and live-out
//! sets. Intervals are processed in order of start (first touch); a fixed
//! pool of seven scratch registers is recycled as intervals expire. Under
//! register pressure the allocator falls back to a deterministic modulo
//! assignment for the spilled interval — real spilling to stack slots is a
//! known gap.

use vstd::prelude::*;
use crate::cfg::{BasicBlock, Terminator, CFG};
use crate::ir::{Instruction, VirtualRegister};
use crate::liveness::{instr_defines, instr_uses, term_reads, BlockLiveness};

verus! {

/// The number of physical scratch registers (`t0` to `t6`).
pub open spec fn pool_size() -> int {
    7
}

/// The physical register mapped to the first occurrence of virtual register
/// id `k`, if any.
pub open spec fn id_find(s: Seq<(usize, usize)>, k: usize) -> Option<usize>
    decreases s.len(),
{
    if s.len() == 0 {
        None
    } else if s[0].0 == k {
        Some(s[0].1)
    } else {
        id_find(s.drop_first(), k)
    }
}

proof fn lemma_id_find_skip(s: Seq<(usize, usize)>, k: usize, i: int)
    requires
        0 <= i <= s.len(),
        forall|j: int| 0 <= j < i ==> (#[trigger] s[j]).0 != k,
    ensures
        id_find(s, k) == id_find(s.skip(i), k),
    decreases i,
{
    if i > 0 {
        assert(s.drop_first().skip(i - 1) =~= s.skip(i));
        lemma_id_find_skip(s.drop_first(), k, i - 1);
    } else {
        assert(s.skip(0) =~= s);
    }
}

proof fn lemma_id_find_update(s: Seq<(usize, usize)>, k: usize, v: usize, i: int)
    requires
        0 <= i < s.len(),
        s[i].0 == k,
        forall|j: int| 0 <= j < i ==> (#[trigger] s[j]).0 != k,
    ensures
        id_find(s.update(i, (k, v)), k) == Some(v),
        forall|k2: usize| k2 != k ==> id_find(s.update(i, (k, v)), k2) == id_find(s, k2),
    decreases i,
{
    if i == 0 {
        assert(s.update(0, (k, v)).drop_first() =~= s.drop_first());
        assert forall|k2: usize| k2 != k implies id_find(s.update(0, (k, v)), k2) == id_find(
            s,
            k2,
        ) by {
            assert(s.update(0, (k, v))[0] == (k, v));
        }
    } else {
        assert(s.update(i, (k, v)).drop_first() =~= s.drop_first().update(i - 1, (k, v)));
        lemma_id_find_update(s.drop_first(), k, v, i - 1);
        assert forall|k2: usize| k2 != k implies id_find(s.update(i, (k, v)), k2) == id_find(
            s,
            k2,
        ) by {
            assert(s.update(i, (k, v))[0] == s[0]);
            if s[0].0 == k2 {
            } else {
                assert(id_find(s.drop_first().update(i - 1, (k, v)), k2) == id_find(
                    s.drop_first(),
                    k2,
                ));
            }
        }
    }
}

proof fn lemma_id_find_push(s: Seq<(usize, usize)>, k: usize, v: usize)
    requires
        forall|j: int| 0 <= j < s.len() ==> (#[trigger] s[j]).0 != k,
    ensures
        id_find(s.push((k, v)), k) == Some(v),
        forall|k2: usize| k2 != k ==> id_find(s.push((k, v)), k2) == id_find(s, k2),
    decreases s.len(),
{
    if s.len() == 0 {
        assert(s.push((k, v)).drop_first() =~= Seq::<(usize, usize)>::empty());
        assert forall|k2: usize| k2 != k implies id_find(s.push((k, v)), k2) == id_find(
            s,
            k2,
        ) by {
            assert(s.push((k, v))[0] == (k, v));
            assert(id_find(s.push((k, v)), k2) == id_find(s.push((k, v)).drop_first(), k2));
            assert(id_find(s.push((k, v)).drop_first(), k2) == id_find(
                Seq::<(usize, usize)>::empty(),
                k2,
            ));
        }
    } else {
        assert(s.push((k, v)).drop_first() =~= s.drop_first().push((k, v)));
        lemma_id_find_push(s.drop_first(), k, v);
        assert forall|k2: usize| k2 != k implies id_find(s.push((k, v)), k2) == id_find(
            s,
            k2,
        ) by {
            assert(s.push((k, v))[0] == s[0]);
            if s[0].0 == k2 {
            } else {
                assert(id_find(s.drop_first().push((k, v)), k2) == id_find(s.drop_first(), k2));
            }
        }
    }
}

/// The result of allocation: virtual register id to physical register
/// index, every mapped index below the pool size.
#[derive(Debug)]
pub struct Allocation {
    pub pairs: Vec<(usize, usize)>,
}

impl View for Allocation {
    type V = Seq<(usize, usize)>;

    open spec fn view(&self) -> Seq<(usize, usize)> {
        self.pairs@
    }
}

impl Allocation {
    pub fn new() -> (r: Self)
        ensures
            r@ =~= Seq::<(usize, usize)>::empty(),
    {
        Allocation { pairs: Vec::new() }
    }

    /// The physical register assigned to `r`, if any.
    pub fn get(&self, r: &VirtualRegister) -> (res: Option<usize>)
        ensures
            res == id_find(self@, r.id),
    {
        self.get_id(r.id)
    }

    pub fn get_id(&self, id: usize) -> (res: Option<usize>)
        ensures
            res == id_find(self@, id),
    {
        let mut i: usize = 0;
        while i < self.pairs.len()
            invariant
                i <= self@.len(),
                forall|j: int| 0 <= j < i ==> (#[trigger] self@[j]).0 != id,
            decreases self@.len() - i,
        {
            if self.pairs[i].0 == id {
                proof {
                    lemma_id_find_skip(self@, id, i as int);
                    assert(self@.skip(i as int)[0] == self@[i as int]);
                }
                return Some(self.pairs[i].1);
            }
            i = i + 1;
        }
        proof {
            lemma_id_find_skip(self@, id, self@.len() as int);
        }
        None
    }

    /// Maps `id` to `phys`, replacing an earlier assignment.
    pub fn set(&mut self, id: usize, phys: usize)
        ensures
            id_find(final(self)@, id) == Some(phys),
            forall|k2: usize| k2 != id ==> id_find(final(self)@, k2) == id_find(old(self)@, k2),
            final(self)@.len() >= old(self)@.len(),
            forall|j: int|
                0 <= j < final(self)@.len() ==> ((j < old(self)@.len() && #[trigger] final(self)@[j] == old(self)@[j]) || final(self)@[j] == ((id, phys))),
    {
        let mut i: usize = 0;
        while i < self.pairs.len()
            invariant
                i <= self@.len(),
                self@ == old(self)@,
                forall|j: int| 0 <= j < i ==> (#[trigger] self@[j]).0 != id,
            decreases self@.len() - i,
        {
            if self.pairs[i].0 == id {
                self.pairs.set(i, (id, phys));
                proof {
                    lemma_id_find_update(old(self)@, id, phys, i as int);
                    assert(final(self)@ =~= old(self)@.update(i as int, (id, phys)));
                }
                return ;
            }
            i = i + 1;
        }
        self.pairs.push((id, phys));
        proof {
            lemma_id_find_push(old(self)@, id, phys);
            assert(final(self)@ =~= old(self)@.push((id, phys)));
        }
    }
}

/// Every physical index an allocation hands out is inside the pool.
pub open spec fn alloc_in_pool(a: Seq<(usize, usize)>) -> bool {
    forall|j: int| 0 <= j < a.len() ==> (#[trigger] a[j]).1 < pool_size()
}

/// A virtual register id the graph mentions anywhere: as a destination, an
/// argument, or a terminator read.
pub open spec fn spec_referenced(c: CFG, x: int) -> bool {
    ||| exists|i: int, j: int|
        0 <= i < c.blocks@.len() && 0 <= j < c.blocks@[i].instructions@.len() && (instr_uses(
            #[trigger] c.blocks@[i].instructions@[j],
            x,
        ) || instr_defines(c.blocks@[i].instructions@[j], x))
    ||| exists|i: int|
        0 <= i < c.blocks@.len() && term_reads((#[trigger] c.blocks@[i]).terminator, x)
}

/// Whether some interval covers id `x`.
pub open spec fn has_interval(ivs: Seq<(usize, usize, usize)>, x: int) -> bool {
    exists|j: int| 0 <= j < ivs.len() && (#[trigger] ivs[j]).0 == x
}

/// Extends `id`'s interval to point `p`, creating it at `[p, p]` on first
/// touch.
fn touch(intervals: &mut Vec<(usize, usize, usize)>, id: usize, p: usize)
    ensures
        has_interval(final(intervals)@, id as int),
        forall|y: int| has_interval(old(intervals)@, y) ==> has_interval(final(intervals)@, y),
{
    let mut i: usize = 0;
    while i < intervals.len()
        invariant
            i <= intervals@.len(),
            intervals@ == old(intervals)@,
        decreases intervals@.len() - i,
    {
        if intervals[i].0 == id {
            let entry = intervals[i];
            intervals.set(i, (entry.0, entry.1, p));
            proof {
                assert(final(intervals)@[i as int].0 == id);
                assert forall|y: int|
                    has_interval(old(intervals)@, y) implies has_interval(
                    final(intervals)@,
                    y,
                ) by {
                    let w = choose|w: int|
                        0 <= w < old(intervals)@.len() && (#[trigger] old(intervals)@[w]).0 == y;
                    if w == i {
                        assert(final(intervals)@[w].0 == y);
                    } else {
                        assert(final(intervals)@[w].0 == y);
                    }
                }
            }
            return ;
        }
        i = i + 1;
    }
    intervals.push((id, p, p));
    proof {
        assert(final(intervals)@[old(intervals)@.len() as int].0 == id);
        assert forall|y: int|
            has_interval(old(intervals)@, y) implies has_interval(final(intervals)@, y) by {
            let w = choose|w: int|
                0 <= w < old(intervals)@.len() && (#[trigger] old(intervals)@[w]).0 == y;
            assert(final(intervals)@[w].0 == y);
        }
    }
}

} // verus!

verus! {

/// Collects live intervals in order of first touch (so the list is ordered
/// by interval start): program points run through the blocks in id order;
/// each block's live-in registers are touched at its first point, each
/// instruction touches its arguments and destination, the terminator's
/// reads are touched, and the block's live-out registers are touched at its
/// last point. Every register the graph references gets an interval.
fn collect_intervals(c: &CFG, liveness: &Vec<BlockLiveness>) -> (r: Vec<(usize, usize, usize)>)
    requires
        liveness@.len() == c.blocks@.len(),
    ensures
        forall|x: int| spec_referenced(*c, x) ==> has_interval(r@, x),
{
    let mut intervals: Vec<(usize, usize, usize)> = Vec::new();
    let mut point: usize = 0;
    let mut i: usize = 0;
    while i < c.blocks.len()
        invariant
            i <= c.blocks@.len(),
            liveness@.len() == c.blocks@.len(),
            forall|i2: int, j2: int|
                0 <= i2 < i && 0 <= j2 < c.blocks@[i2].instructions@.len() ==> (forall|x: int|
                    (instr_uses(#[trigger] c.blocks@[i2].instructions@[j2], x) || instr_defines(
                        c.blocks@[i2].instructions@[j2],
                        x,
                    )) ==> has_interval(intervals@, x)),
            forall|i2: int, x: int|
                0 <= i2 < i && #[trigger] term_reads(c.blocks@[i2].terminator, x)
                    ==> has_interval(intervals@, x),
        decreases c.blocks@.len() - i,
    {
        let block = &c.blocks[i];
        let live_in = &liveness[i].live_in;
        let mut m: usize = 0;
        while m < live_in.size()
            invariant
                m <= live_in.elems@.len(),
                i < c.blocks@.len(),
                liveness@.len() == c.blocks@.len(),
                forall|i2: int, j2: int|
                    0 <= i2 < i && 0 <= j2 < c.blocks@[i2].instructions@.len() ==> (forall|x: int|
                        (instr_uses(#[trigger] c.blocks@[i2].instructions@[j2], x) || instr_defines(
                            c.blocks@[i2].instructions@[j2],
                            x,
                        )) ==> has_interval(intervals@, x)),
                forall|i2: int, x: int|
                    0 <= i2 < i && #[trigger] term_reads(c.blocks@[i2].terminator, x)
                        ==> has_interval(intervals@, x),
            decreases live_in.elems@.len() - m,
        {
            let id = live_in.id_at(m);
            touch(&mut intervals, id, point);
            m = m + 1;
        }
        let mut j: usize = 0;
        while j < block.instructions.len()
            invariant
                j <= block.instructions@.len(),
                i < c.blocks@.len(),
                *block == c.blocks@[i as int],
                liveness@.len() == c.blocks@.len(),
                forall|i2: int, j2: int|
                    0 <= i2 < i && 0 <= j2 < c.blocks@[i2].instructions@.len() ==> (forall|x: int|
                        (instr_uses(#[trigger] c.blocks@[i2].instructions@[j2], x) || instr_defines(
                            c.blocks@[i2].instructions@[j2],
                            x,
                        )) ==> has_interval(intervals@, x)),
                forall|i2: int, x: int|
                    0 <= i2 < i && #[trigger] term_reads(c.blocks@[i2].terminator, x)
                        ==> has_interval(intervals@, x),
                forall|j2: int|
                    0 <= j2 < j ==> (forall|x: int|
                        (instr_uses(#[trigger] c.blocks@[i as int].instructions@[j2], x)
                            || instr_defines(c.blocks@[i as int].instructions@[j2], x))
                            ==> has_interval(intervals@, x)),
            decreases block.instructions@.len() - j,
        {
            let instr = &block.instructions[j];
            let mut a: usize = 0;
            while a < instr.args.len()
                invariant
                    a <= instr.args@.len(),
                    i < c.blocks@.len(),
                    j < block.instructions@.len(),
                    *block == c.blocks@[i as int],
                    *instr == c.blocks@[i as int].instructions@[j as int],
                    liveness@.len() == c.blocks@.len(),
                    forall|i2: int, j2: int|
                        0 <= i2 < i && 0 <= j2 < c.blocks@[i2].instructions@.len() ==> (forall|
                            x: int,
                        |
                            (instr_uses(#[trigger] c.blocks@[i2].instructions@[j2], x)
                                || instr_defines(c.blocks@[i2].instructions@[j2], x))
                                ==> has_interval(intervals@, x)),
                    forall|i2: int, x: int|
                        0 <= i2 < i && #[trigger] term_reads(c.blocks@[i2].terminator, x)
                            ==> has_interval(intervals@, x),
                    forall|j2: int|
                        0 <= j2 < j ==> (forall|x: int|
                            (instr_uses(#[trigger] c.blocks@[i as int].instructions@[j2], x)
                                || instr_defines(c.blocks@[i as int].instructions@[j2], x))
                                ==> has_interval(intervals@, x)),
                    forall|a2: int|
                        0 <= a2 < a ==> has_interval(
                            intervals@,
                            (#[trigger] instr.args@[a2]).id as int,
                        ),
                decreases instr.args@.len() - a,
            {
                let arg = instr.args[a];
                touch(&mut intervals, arg.id, point);
                a = a + 1;
            }
            match &instr.destination {
                Some(d) => {
                    touch(&mut intervals, d.id, point);
                },
                None => {},
            }
            proof {
                assert forall|x: int|
                    instr_uses(c.blocks@[i as int].instructions@[j as int], x) || instr_defines(
                        c.blocks@[i as int].instructions@[j as int],
                        x,
                    ) implies has_interval(intervals@, x) by {
                    if instr_uses(c.blocks@[i as int].instructions@[j as int], x) {
                        let w = choose|w: int|
                            0 <= w < instr.args@.len() && (#[trigger] instr.args@[w]).id == x;
                        assert(has_interval(intervals@, instr.args@[w].id as int));
                    }
                }
            }
            if point < usize::MAX {
                point = point + 1;
            }
            j = j + 1;
        }
        let term_read: Option<VirtualRegister> = match &block.terminator {
            Terminator::Branch { cond, .. } => Some(*cond),
            Terminator::Return(Some(r)) => Some(*r),
            _ => None,
        };
        match term_read {
            Some(reg) => {
                touch(&mut intervals, reg.id, point);
            },
            None => {},
        }
        let live_out = &liveness[i].live_out;
        let mut m2: usize = 0;
        while m2 < live_out.size()
            invariant
                m2 <= live_out.elems@.len(),
                i < c.blocks@.len(),
                liveness@.len() == c.blocks@.len(),
                forall|i2: int, j2: int|
                    0 <= i2 < i + 1 && 0 <= j2 < c.blocks@[i2].instructions@.len() ==> (forall|
                        x: int,
                    |
                        (instr_uses(#[trigger] c.blocks@[i2].instructions@[j2], x) || instr_defines(
                            c.blocks@[i2].instructions@[j2],
                            x,
                        )) ==> has_interval(intervals@, x)),
                forall|i2: int, x: int|
                    0 <= i2 < i + 1 && #[trigger] term_reads(c.blocks@[i2].terminator, x)
                        ==> has_interval(intervals@, x),
            decreases live_out.elems@.len() - m2,
        {
            let id = live_out.id_at(m2);
            touch(&mut intervals, id, point);
            m2 = m2 + 1;
        }
        if point < usize::MAX {
            point = point + 1;
        }
        i = i + 1;
    }
    intervals
}

/// Linear-scan allocation. Every virtual register the graph references is
/// mapped to a physical register of the seven-slot pool; under pressure a
/// spilled interval falls back to the deterministic `id mod 7` choice, the
/// known gap of this allocator.
pub fn allocate(c: &CFG, liveness: &Vec<BlockLiveness>) -> (r: Allocation)
    requires
        liveness@.len() == c.blocks@.len(),
    ensures
        alloc_in_pool(r@),
        forall|x: usize| spec_referenced(*c, x as int) ==> id_find(r@, x) is Some,
{
    let intervals = collect_intervals(c, liveness);
    let mut alloc = Allocation::new();
    // active intervals: (end point, virtual register id, physical register)
    let mut active: Vec<(usize, usize, usize)> = Vec::new();
    let mut free: Vec<usize> = Vec::new();
    let mut f: usize = 0;
    while f < 7
        invariant
            f <= 7,
            free@.len() == f,
            forall|q: int| 0 <= q < f ==> (#[trigger] free@[q]) < 7,
        decreases 7 - f,
    {
        free.push(f);
        f = f + 1;
    }

    let mut idx: usize = 0;
    while idx < intervals.len()
        invariant
            idx <= intervals@.len(),
            alloc_in_pool(alloc@),
            forall|q: int| 0 <= q < free@.len() ==> (#[trigger] free@[q]) < 7,
            forall|q: int| 0 <= q < active@.len() ==> (#[trigger] active@[q]).2 < 7,
            forall|j: int|
                0 <= j < idx ==> id_find(alloc@, (#[trigger] intervals@[j]).0) is Some,
        decreases intervals@.len() - idx,
    {
        let (vreg, start, end) = intervals[idx];

        // expire: return to the pool every active interval ending before
        // this start
        let mut kept: Vec<(usize, usize, usize)> = Vec::new();
        let mut a: usize = 0;
        while a < active.len()
            invariant
                a <= active@.len(),
                forall|q: int| 0 <= q < free@.len() ==> (#[trigger] free@[q]) < 7,
                forall|q: int| 0 <= q < active@.len() ==> (#[trigger] active@[q]).2 < 7,
                forall|q: int| 0 <= q < kept@.len() ==> (#[trigger] kept@[q]).2 < 7,
            decreases active@.len() - a,
        {
            let entry = active[a];
            if entry.0 < start {
                free.push(entry.2);
            } else {
                kept.push(entry);
            }
            a = a + 1;
        }
        active = kept;

        if free.len() > 0 {
            let phys = free[0];
            free.remove(0);
            proof {
                assert forall|q: int| 0 <= q < free@.len() implies (#[trigger] free@[q]) < 7 by {}
            }
            alloc.set(vreg, phys);
            active.push((end, vreg, phys));
        } else {
            // register pressure: find the active interval with the latest
            // end
            let mut latest: usize = 0;
            let mut a2: usize = 1;
            if active.len() == 0 {
                // no active interval to steal from: modulo fallback
                alloc.set(vreg, vreg % 7);
            } else {
                while a2 < active.len()
                    invariant
                        active@.len() > 0,
                        1 <= a2 <= active@.len(),
                        latest < active@.len(),
                        forall|q: int| 0 <= q < active@.len() ==> (#[trigger] active@[q]).2 < 7,
                    decreases active@.len() - a2,
                {
                    if active[a2].0 > active[latest].0 {
                        latest = a2;
                    }
                    a2 = a2 + 1;
                }
                let victim = active[latest];
                if victim.0 > end {
                    // steal the victim's register; the victim falls back to
                    // the modulo assignment (spill gap)
                    alloc.set(victim.1, victim.1 % 7);
                    alloc.set(vreg, victim.2);
                    let mut rebuilt: Vec<(usize, usize, usize)> = Vec::new();
                    let mut a3: usize = 0;
                    while a3 < active.len()
                        invariant
                            a3 <= active@.len(),
                            latest < active@.len(),
                            forall|q: int| 0 <= q < active@.len() ==> (#[trigger] active@[q]).2 < 7,
                            forall|q: int| 0 <= q < rebuilt@.len() ==> (#[trigger] rebuilt@[q]).2 < 7,
                        decreases active@.len() - a3,
                    {
                        if a3 != latest {
                            rebuilt.push(active[a3]);
                        }
                        a3 = a3 + 1;
                    }
                    active = rebuilt;
                    active.push((end, vreg, victim.2));
                } else {
                    // the current interval is the spill candidate
                    alloc.set(vreg, vreg % 7);
                }
            }
        }
        proof {
            assert(id_find(alloc@, intervals@[idx as int].0) is Some);
            assert forall|j: int|
                0 <= j < idx + 1 implies id_find(alloc@, (#[trigger] intervals@[j]).0) is Some by {
            }
        }
        idx = idx + 1;
    }

    proof {
        assert forall|x: usize| spec_referenced(*c, x as int) implies id_find(alloc@, x)
            is Some by {
            assert(has_interval(intervals@, x as int));
            let w = choose|w: int|
                0 <= w < intervals@.len() && (#[trigger] intervals@[w]).0 == x as int;
            assert(id_find(alloc@, intervals@[w].0) is Some);
        }
    }
    alloc
}

} // verus!
