//! The control-flow graph: basic blocks carrying twin streams (semantic
//! statements for the typestate verifier, machine instructions for codegen)
//! and a terminator, plus the flattening of a graph back into one linear
//! labeled instruction stream.

use vstd::prelude::*;
use vstd::string::StringExecFns;
use crate::ast;
use crate::decimal::{dec_usize_string, spec_dec_nat};
use crate::ir::{Instruction, Op, VirtualRegister};

verus! {

pub type BlockId = usize;

/// A semantic statement: the verifier's view of one surface statement.
/// A call whose callee has a typestate signature is recorded as a resolved
/// `PeripheralDriverCall`; only those (and signed calls inside `Expr`)
/// change the abstract peripheral state.
#[derive(Debug)]
pub enum Statement {
    Let { var_name: String, value: ast::Expr },
    Assign { var_name: String, value: ast::Expr },
    Expr { expr: ast::Expr },
    PeripheralDriverCall {
        function: String,
        peripheral: String,
        from_state: String,
        to_state: String,
    },
    PeripheralWrite { peripheral: String, register: String },
}

/// How a basic block ends. Blocks are created with `Unset` and receive
/// their terminator exactly once during lowering; a well-formed graph
/// contains no `Unset` terminator.
#[derive(Debug, Clone, Copy)]
pub enum Terminator {
    Jump(BlockId),
    Branch { cond: VirtualRegister, then_block: BlockId, else_block: BlockId },
    Return(Option<VirtualRegister>),
    Fallthrough(BlockId),
    Unset,
}

/// A maximal straight-line run of statements and instructions, ended by a
/// control transfer.
#[derive(Debug)]
pub struct BasicBlock {
    pub id: BlockId,
    pub statements: Vec<Statement>,
    pub instructions: Vec<Instruction>,
    pub terminator: Terminator,
}

impl BasicBlock {
    pub fn new(id: BlockId) -> (r: Self)
        ensures
            r.id == id,
            r.statements@.len() == 0,
            r.instructions@.len() == 0,
            r.terminator is Unset,
    {
        BasicBlock { id, statements: Vec::new(), instructions: Vec::new(), terminator: Terminator::Unset }
    }

    pub fn push(&mut self, instr: Instruction)
        ensures
            final(self).id == old(self).id,
            final(self).statements@ == old(self).statements@,
            final(self).instructions@ == old(self).instructions@.push(instr),
            final(self).terminator == old(self).terminator,
    {
        self.instructions.push(instr);
    }

    pub fn push_statement(&mut self, stmt: Statement)
        ensures
            final(self).id == old(self).id,
            final(self).statements@ == old(self).statements@.push(stmt),
            final(self).instructions@ == old(self).instructions@,
            final(self).terminator == old(self).terminator,
    {
        self.statements.push(stmt);
    }

    pub fn set_terminator(&mut self, term: Terminator)
        ensures
            final(self).id == old(self).id,
            final(self).statements@ == old(self).statements@,
            final(self).instructions@ == old(self).instructions@,
            final(self).terminator == term,
    {
        self.terminator = term;
    }
}

/// A function's control-flow graph: blocks with dense ids, entered at
/// `entry` (block 0 after lowering).
#[derive(Debug)]
pub struct CFG {
    pub blocks: Vec<BasicBlock>,
    pub entry: BlockId,
}

/// Block ids name their own position: `blocks[i].id == i`.
pub open spec fn cfg_ids_dense(c: CFG) -> bool {
    forall|i: int| 0 <= i < c.blocks@.len() ==> #[trigger] c.blocks@[i].id == i
}

/// Every successor named by the terminator is a valid block id.
pub open spec fn terminator_targets_valid(t: Terminator, n: nat) -> bool {
    match t {
        Terminator::Jump(target) => target < n,
        Terminator::Branch { cond: _, then_block, else_block } => then_block < n && else_block < n,
        Terminator::Return(_) => true,
        Terminator::Fallthrough(target) => target < n,
        Terminator::Unset => true,
    }
}

/// Every jump, branch and fallthrough in the graph names a valid block id.
pub open spec fn cfg_targets_valid(c: CFG) -> bool {
    forall|i: int|
        0 <= i < c.blocks@.len() ==> terminator_targets_valid(
            (#[trigger] c.blocks@[i]).terminator,
            c.blocks@.len(),
        )
}

/// No block is left with an unset terminator.
pub open spec fn cfg_terminators_set(c: CFG) -> bool {
    forall|i: int| 0 <= i < c.blocks@.len() ==> !((#[trigger] c.blocks@[i]).terminator is Unset)
}

/// A well-formed graph, as lowering leaves it: non-empty, entered at block
/// 0, ids dense, every terminator set and every target valid.
pub open spec fn cfg_wf(c: CFG) -> bool {
    &&& c.blocks@.len() > 0
    &&& c.entry == 0
    &&& cfg_ids_dense(c)
    &&& cfg_targets_valid(c)
    &&& cfg_terminators_set(c)
}

/// The label written before a non-entry block with this id.
pub open spec fn spec_label(id: nat) -> Seq<char> {
    ".LBB"@ + spec_dec_nat(id)
}

/// Builds the label string `.LBB{id}`.
pub fn make_label(id: usize) -> (r: String)
    ensures
        r@ == spec_label(id as nat),
{
    let mut s: String = ".LBB".to_owned();
    s.append(dec_usize_string(id).as_str());
    s
}

pub open spec fn is_label_instr(i: Instruction, id: nat) -> bool {
    &&& i.operation matches Op::Label(s) && s@ == spec_label(id)
    &&& i.destination is None
    &&& i.args@.len() == 0
}

pub open spec fn is_jump_instr(i: Instruction, target: nat) -> bool {
    &&& i.operation matches Op::Jump(s) && s@ == spec_label(target)
    &&& i.destination is None
    &&& i.args@.len() == 0
}

pub open spec fn is_branch_if_false_instr(i: Instruction, target: nat, cond: VirtualRegister) -> bool {
    &&& i.operation matches Op::BranchIfFalse(s) && s@ == spec_label(target)
    &&& i.destination is None
    &&& i.args@ =~= seq![cond]
}

pub open spec fn is_ret_instr(i: Instruction, val: Option<VirtualRegister>) -> bool {
    &&& i.operation matches Op::Ret(v) && v == val
    &&& i.destination is None
    &&& match val {
        Some(r) => i.args@ =~= seq![r],
        None => i.args@.len() == 0,
    }
}

/// How many instructions flattening derives from a block's terminator:
/// one for `Jump` and `Return`; one or two for `Branch` (the `Jump` to the
/// then-block is elided when it is the next block); none or one for
/// `Fallthrough`; none for `Unset`.
pub open spec fn spec_term_flat_len(b: BasicBlock) -> nat {
    match b.terminator {
        Terminator::Jump(_) => 1,
        Terminator::Branch { then_block, .. } => if then_block == b.id + 1 { 1nat } else { 2nat },
        Terminator::Return(_) => 1,
        Terminator::Fallthrough(t) => if t == b.id + 1 { 0nat } else { 1nat },
        Terminator::Unset => 0,
    }
}

pub open spec fn spec_term_flat_matches(s: Seq<Instruction>, b: BasicBlock) -> bool {
    &&& s.len() == spec_term_flat_len(b)
    &&& match b.terminator {
        Terminator::Jump(t) => is_jump_instr(s[0], t as nat),
        Terminator::Branch { cond, then_block, else_block } => {
            &&& is_branch_if_false_instr(s[0], else_block as nat, cond)
            &&& (then_block != b.id + 1 ==> is_jump_instr(s[1], then_block as nat))
        },
        Terminator::Return(v) => is_ret_instr(s[0], v),
        Terminator::Fallthrough(t) => t != b.id + 1 ==> is_jump_instr(s[0], t as nat),
        Terminator::Unset => true,
    }
}

/// How many instructions flattening emits for one block: a label unless it
/// is the entry, then the block's instructions, then the terminator's.
pub open spec fn spec_block_flat_len(b: BasicBlock, entry: nat) -> nat {
    (if b.id == entry { 0nat } else { 1nat }) + b.instructions@.len() + spec_term_flat_len(b)
}

/// The segment `s` is exactly the flattening of block `b`: the label (for a
/// non-entry block), the block's instructions (compared by their models),
/// then the terminator-derived instructions.
pub open spec fn spec_block_flat_matches(s: Seq<Instruction>, b: BasicBlock, entry: nat) -> bool {
    &&& s.len() == spec_block_flat_len(b, entry)
    &&& (b.id != entry ==> is_label_instr(s[0], b.id as nat))
    &&& forall|m: int|
        0 <= m < b.instructions@.len() ==> (#[trigger] s[spec_lab_len(b.id as nat, entry) + m])@
            == b.instructions@[m]@
    &&& spec_term_flat_matches(
        s.subrange(
            spec_lab_len(b.id as nat, entry) + b.instructions@.len(),
            s.len() as int,
        ),
        b,
    )
}

/// Where block `k`'s segment starts in the flattened stream: the sum of the
/// segment lengths of the blocks before it.
pub open spec fn spec_flat_offset(blocks: Seq<BasicBlock>, k: int, entry: nat) -> nat
    decreases k,
{
    if k <= 0 {
        0
    } else {
        spec_flat_offset(blocks, k - 1, entry) + spec_block_flat_len(blocks[k - 1], entry)
    }
}

/// The number of label instructions before a block's own instructions in
/// its flattened segment: none for the entry block, one otherwise.
pub open spec fn spec_lab_len(id: nat, entry: nat) -> int {
    if id == entry {
        0
    } else {
        1
    }
}

/// Offsets into the flattened stream grow with the block index.
pub proof fn lemma_flat_offset_mono(blocks: Seq<BasicBlock>, i: int, j: int, entry: nat)
    requires
        0 <= i <= j,
    ensures
        spec_flat_offset(blocks, i, entry) <= spec_flat_offset(blocks, j, entry),
    decreases j - i,
{
    if i < j {
        lemma_flat_offset_mono(blocks, i, j - 1, entry);
    }
}

/// `flat` is exactly the flattening of `c`: the per-block segments in
/// block order, as `flatten` produces them.
pub open spec fn spec_flattened(c: CFG, flat: Seq<Instruction>) -> bool {
    &&& flat.len() == spec_flat_offset(c.blocks@, c.blocks@.len() as int, c.entry as nat)
    &&& forall|k: int|
        0 <= k < c.blocks@.len() ==> spec_block_flat_matches(
            #[trigger] flat.subrange(
                spec_flat_offset(c.blocks@, k, c.entry as nat) as int,
                spec_flat_offset(c.blocks@, k + 1, c.entry as nat) as int,
            ),
            c.blocks@[k],
            c.entry as nat,
        )
}

impl CFG {
    pub fn new() -> (r: Self)
        ensures
            r.blocks@.len() == 0,
            r.entry == 0,
    {
        CFG { blocks: Vec::new(), entry: 0 }
    }

    /// Appends a fresh, empty block and returns its id (its position).
    pub fn add_block(&mut self) -> (id: BlockId)
        ensures
            id == old(self).blocks@.len(),
            final(self).entry == old(self).entry,
            final(self).blocks@.len() == old(self).blocks@.len() + 1,
            final(self).blocks@.subrange(0, old(self).blocks@.len() as int) == old(self).blocks@,
            final(self).blocks@[id as int].id == id,
            final(self).blocks@[id as int].statements@.len() == 0,
            final(self).blocks@[id as int].instructions@.len() == 0,
            final(self).blocks@[id as int].terminator is Unset,
    {
        let id = self.blocks.len();
        self.blocks.push(BasicBlock::new(id));
        proof {
            assert(final(self).blocks@.subrange(0, old(self).blocks@.len() as int) =~= old(
                self,
            ).blocks@);
        }
        id
    }

    pub fn block(&self, id: BlockId) -> (r: &BasicBlock)
        requires
            id < self.blocks@.len(),
        ensures
            *r == self.blocks@[id as int],
    {
        &self.blocks[id]
    }

    /// A mutable borrow of one block; the graph afterwards is the old graph
    /// with that block replaced by whatever the caller left behind.
    pub fn block_mut(&mut self, id: BlockId) -> (r: &mut BasicBlock)
        requires
            id < old(self).blocks@.len(),
        ensures
            *r == old(self).blocks@[id as int],
            final(self).blocks@ == old(self).blocks@.update(id as int, *final(r)),
            final(self).entry == old(self).entry,
    {
        &mut self.blocks[id]
    }

    /// Linearizes the graph in block order: a `.LBB{id}` label before each
    /// non-entry block, the block's instructions, then the instructions its
    /// terminator stands for.
    pub fn flatten(&self) -> (r: Vec<Instruction>)
        ensures
            spec_flattened(*self, r@),
            r@.len() == spec_flat_offset(self.blocks@, self.blocks@.len() as int, self.entry as nat),
            forall|k: int|
                0 <= k < self.blocks@.len() ==> spec_block_flat_matches(
                    #[trigger] r@.subrange(
                        spec_flat_offset(self.blocks@, k, self.entry as nat) as int,
                        spec_flat_offset(self.blocks@, k + 1, self.entry as nat) as int,
                    ),
                    self.blocks@[k],
                    self.entry as nat,
                ),
    {
        let ghost entry_g: nat = self.entry as nat;
        let mut r: Vec<Instruction> = Vec::new();
        let mut k: usize = 0;
        while k < self.blocks.len()
            invariant
                entry_g == self.entry as nat,
                k <= self.blocks@.len(),
                r@.len() == spec_flat_offset(self.blocks@, k as int, entry_g),
                forall|j: int|
                    0 <= j < k ==> spec_block_flat_matches(
                        #[trigger] r@.subrange(
                            spec_flat_offset(self.blocks@, j, entry_g) as int,
                            spec_flat_offset(self.blocks@, j + 1, entry_g) as int,
                        ),
                        self.blocks@[j],
                        entry_g,
                    ),
            decreases self.blocks@.len() - k,
        {
            let ghost r_before: Seq<Instruction> = r@;
            let ghost start: int = r@.len() as int;
            let block = &self.blocks[k];

            if block.id != self.entry {
                r.push(Instruction::new(Op::Label(make_label(block.id)), None, vec![]));
            }

            let ghost r_mid: Seq<Instruction> = r@;
            let ghost lab: int = spec_lab_len(block.id as nat, entry_g);
            proof {
                assert(r_mid.len() == start + lab);
                assert(r_mid.subrange(0, start) =~= r_before);
            }

            let mut i: usize = 0;
            while i < block.instructions.len()
                invariant
                    i <= block.instructions@.len(),
                    r@.len() == r_mid.len() + i,
                    r@.subrange(0, r_mid.len() as int) == r_mid,
                    forall|m: int|
                        0 <= m < i ==> (#[trigger] r@[r_mid.len() + m])@
                            == block.instructions@[m]@,
                decreases block.instructions@.len() - i,
            {
                r.push(clone_instruction(&block.instructions[i]));
                proof {
                    assert(r@.subrange(0, r_mid.len() as int) =~= r_mid);
                }
                i = i + 1;
            }

            let ghost body_end: int = r@.len() as int;
            let ghost r_after_body: Seq<Instruction> = r@;

            match &block.terminator {
                Terminator::Jump(target) => {
                    r.push(Instruction::new(Op::Jump(make_label(*target)), None, vec![]));
                },
                Terminator::Branch { cond, then_block, else_block } => {
                    r.push(
                        Instruction::new(
                            Op::BranchIfFalse(make_label(*else_block)),
                            None,
                            vec![*cond],
                        ),
                    );
                    if !(block.id < usize::MAX && *then_block == block.id + 1) {
                        r.push(Instruction::new(Op::Jump(make_label(*then_block)), None, vec![]));
                    }
                },
                Terminator::Return(val) => {
                    let args: Vec<VirtualRegister> = match val {
                        Some(v) => vec![*v],
                        None => vec![],
                    };
                    r.push(Instruction::new(Op::Ret(*val), None, args));
                },
                Terminator::Fallthrough(target) => {
                    if !(block.id < usize::MAX && *target == block.id + 1) {
                        r.push(Instruction::new(Op::Jump(make_label(*target)), None, vec![]));
                    }
                },
                Terminator::Unset => {},
            }

            proof {
                assert(r@.subrange(0, body_end) =~= r_after_body);
                assert(r@.subrange(0, r_mid.len() as int) =~= r_mid);
                assert(r@.subrange(0, start) =~= r_before);
                assert forall|m: int| 0 <= m < block.instructions@.len() implies (
                #[trigger] r@[r_mid.len() + m])@ == block.instructions@[m]@ by {
                    assert(r@[r_mid.len() + m] == r_after_body[r_mid.len() + m]);
                }
                if block.id != entry_g {
                    assert(r@[start] == r_mid[start]);
                    assert(is_label_instr(r@[start], block.id as nat));
                }
                assert(spec_term_flat_matches(
                    r@.subrange(body_end, r@.len() as int),
                    self.blocks@[k as int],
                ));
                let seg = r@.subrange(start, r@.len() as int);
                assert(body_end == start + lab + block.instructions@.len());
                assert forall|m: int| 0 <= m < block.instructions@.len() implies (#[trigger] seg[lab
                    + m])@ == block.instructions@[m]@ by {
                    assert(seg[lab + m] == r@[start + lab + m]);
                    assert(r@[r_mid.len() + m] == r@[start + lab + m]);
                }
                assert(seg.subrange(lab + self.blocks@[k as int].instructions@.len(), seg.len() as int)
                    =~= r@.subrange(body_end, r@.len() as int));
                assert(spec_block_flat_matches(seg, self.blocks@[k as int], entry_g));
                assert forall|j: int| 0 <= j < k + 1 implies spec_block_flat_matches(
                    #[trigger] r@.subrange(
                        spec_flat_offset(self.blocks@, j, entry_g) as int,
                        spec_flat_offset(self.blocks@, j + 1, entry_g) as int,
                    ),
                    self.blocks@[j],
                    entry_g,
                ) by {
                    if j < k {
                        lemma_flat_offset_mono(self.blocks@, j + 1, k as int, entry_g);
                        assert(r@.subrange(
                            spec_flat_offset(self.blocks@, j, entry_g) as int,
                            spec_flat_offset(self.blocks@, j + 1, entry_g) as int,
                        ) =~= r_before.subrange(
                            spec_flat_offset(self.blocks@, j, entry_g) as int,
                            spec_flat_offset(self.blocks@, j + 1, entry_g) as int,
                        ));
                    } else {
                        assert(r@.subrange(
                            spec_flat_offset(self.blocks@, j, entry_g) as int,
                            spec_flat_offset(self.blocks@, j + 1, entry_g) as int,
                        ) =~= seg);
                    }
                }
            }
            k = k + 1;
        }
        r
    }
}

/// Copies one instruction; the copy equals the original.
pub fn clone_instruction(i: &Instruction) -> (r: Instruction)
    ensures
        r@ == i@,
{
    let operation = match &i.operation {
        Op::LoadImm(v) => Op::LoadImm(*v),
        Op::LoadAddr(a) => Op::LoadAddr(*a),
        Op::LoadWord => Op::LoadWord,
        Op::StoreWord => Op::StoreWord,
        Op::Mov => Op::Mov,
        Op::MovArg(n) => Op::MovArg(*n),
        Op::Call(s) => Op::Call(s.clone()),
        Op::Ret(v) => Op::Ret(*v),
        Op::Label(s) => Op::Label(s.clone()),
        Op::Jump(s) => Op::Jump(s.clone()),
        Op::BranchIfFalse(s) => Op::BranchIfFalse(s.clone()),
        Op::Add => Op::Add,
        Op::Sub => Op::Sub,
        Op::Mul => Op::Mul,
        Op::Div => Op::Div,
        Op::Rem => Op::Rem,
        Op::And => Op::And,
        Op::Or => Op::Or,
        Op::Xor => Op::Xor,
        Op::Sll => Op::Sll,
        Op::Srl => Op::Srl,
        Op::Neg => Op::Neg,
        Op::Not => Op::Not,
        Op::CmpEq => Op::CmpEq,
        Op::CmpNe => Op::CmpNe,
        Op::CmpLt => Op::CmpLt,
        Op::CmpLe => Op::CmpLe,
        Op::CmpGt => Op::CmpGt,
        Op::CmpGe => Op::CmpGe,
    };
    let mut args: Vec<VirtualRegister> = Vec::new();
    let mut j: usize = 0;
    while j < i.args.len()
        invariant
            j <= i.args@.len(),
            args@ =~= i.args@.subrange(0, j as int),
        decreases i.args@.len() - j,
    {
        args.push(i.args[j]);
        j = j + 1;
    }
    proof {
        assert(args@ =~= i.args@);
    }
    Instruction { operation, destination: i.destination, args }
}

} // verus!

verus! {

/// How many label pseudo-instructions a stream holds.
pub open spec fn count_labels(s: Seq<Instruction>) -> int
    decreases s.len(),
{
    if s.len() == 0 {
        0
    } else {
        (if s[0].operation is Label {
            1int
        } else {
            0int
        }) + count_labels(s.drop_first())
    }
}

/// Label counting distributes over concatenation.
pub proof fn lemma_count_labels_add(a: Seq<Instruction>, b: Seq<Instruction>)
    ensures
        count_labels(a + b) == count_labels(a) + count_labels(b),
    decreases a.len(),
{
    if a.len() == 0 {
        assert(a + b =~= b);
    } else {
        assert((a + b).drop_first() =~= a.drop_first() + b);
        lemma_count_labels_add(a.drop_first(), b);
    }
}

/// A stream with no label instruction counts zero.
pub proof fn lemma_count_labels_none(s: Seq<Instruction>)
    requires
        forall|i: int| 0 <= i < s.len() ==> !((#[trigger] s[i]).operation is Label),
    ensures
        count_labels(s) == 0,
    decreases s.len(),
{
    if s.len() > 0 {
        assert(forall|i: int|
            0 <= i < s.drop_first().len() ==> s.drop_first()[i] == s[i + 1]);
        lemma_count_labels_none(s.drop_first());
    }
}

/// No block body holds a label pseudo-instruction; lowering only ever
/// introduces labels during flattening.
pub open spec fn cfg_no_inline_labels(c: CFG) -> bool {
    forall|i: int, j: int|
        0 <= i < c.blocks@.len() && 0 <= j < c.blocks@[i].instructions@.len() ==> !((
        #[trigger] c.blocks@[i].instructions@[j]).operation is Label)
}

/// One block's flattened segment holds exactly one label when the block is
/// not the entry, none when it is.
proof fn lemma_segment_label_count(s: Seq<Instruction>, b: BasicBlock, entry: nat)
    requires
        spec_block_flat_matches(s, b, entry),
        forall|j: int|
            0 <= j < b.instructions@.len() ==> !((#[trigger] b.instructions@[j]).operation
                is Label),
    ensures
        count_labels(s) == if b.id == entry {
            0int
        } else {
            1int
        },
{
    let lab: int = spec_lab_len(b.id as nat, entry);
    let n = b.instructions@.len() as int;
    let term = s.subrange(lab + n, s.len() as int);
    assert(s.len() == spec_block_flat_len(b, entry));
    assert(b.id != entry ==> is_label_instr(s[0], b.id as nat));
    assert(forall|m: int|
        0 <= m < b.instructions@.len() ==> (#[trigger] s[lab + m])@ == b.instructions@[m]@);
    assert(spec_term_flat_matches(term, b));
    assert forall|i: int| 0 <= i < s.len() implies (s[i].operation is Label <==> (i == 0 && lab
        == 1)) by {
        if lab <= i < lab + n {
            let m = i - lab;
            assert(s[lab + m]@ == b.instructions@[m]@);
            assert(!(b.instructions@[m].operation is Label));
            assert(s[i]@.operation == b.instructions@[m]@.operation);
            match s[i].operation {
                Op::Label(_) => {
                    assert(s[i]@.operation is Label);
                    assert(b.instructions@[m]@.operation is Label);
                    assert(false);
                },
                _ => {},
            }
        } else if i >= lab + n {
            assert(term[i - (lab + n)] == s[i]);
            assert(spec_term_flat_matches(term, b));
            match b.terminator {
                Terminator::Jump(t) => {
                    assert(is_jump_instr(term[0], t as nat));
                },
                Terminator::Branch { cond, then_block, else_block } => {
                    assert(is_branch_if_false_instr(term[0], else_block as nat, cond));
                    if term.len() == 2 {
                        assert(is_jump_instr(term[1], then_block as nat));
                    }
                },
                Terminator::Return(v) => {
                    assert(is_ret_instr(term[0], v));
                },
                Terminator::Fallthrough(t) => {
                    if term.len() == 1 {
                        assert(is_jump_instr(term[0], t as nat));
                    }
                },
                Terminator::Unset => {},
            }
        } else {
            assert(i == 0 && lab == 1);
            assert(is_label_instr(s[0], b.id as nat));
        }
    }
    if lab == 1 {
        assert(s.len() >= 1);
        assert(forall|i: int|
            0 <= i < s.drop_first().len() ==> s.drop_first()[i] == s[i + 1]);
        lemma_count_labels_none(s.drop_first());
        assert(count_labels(s) == 1);
    } else {
        lemma_count_labels_none(s);
    }
}

/// The round-trip shape of flattening: for a graph as lowering builds it
/// (dense ids, entered at block 0, no label instruction inside any block
/// body), the flattened stream holds exactly one `.LBB{id}` label per
/// non-entry block — and, by `spec_block_flat_matches`, that label is the
/// block's own. The instructions a terminator contributes are pinned per
/// terminator by `spec_term_flat_len`.
pub proof fn lemma_flatten_label_count(c: CFG, r: Seq<Instruction>)
    requires
        c.blocks@.len() > 0,
        c.entry == 0,
        cfg_ids_dense(c),
        cfg_no_inline_labels(c),
        r.len() == spec_flat_offset(c.blocks@, c.blocks@.len() as int, c.entry as nat),
        forall|k: int|
            0 <= k < c.blocks@.len() ==> spec_block_flat_matches(
                #[trigger] r.subrange(
                    spec_flat_offset(c.blocks@, k, c.entry as nat) as int,
                    spec_flat_offset(c.blocks@, k + 1, c.entry as nat) as int,
                ),
                c.blocks@[k],
                c.entry as nat,
            ),
    ensures
        count_labels(r) == c.blocks@.len() - 1,
{
    lemma_flatten_label_count_upto(c, r, c.blocks@.len() as int);
    assert(r.subrange(0, spec_flat_offset(c.blocks@, c.blocks@.len() as int, c.entry as nat) as int)
        =~= r);
}

proof fn lemma_flatten_label_count_upto(c: CFG, r: Seq<Instruction>, k: int)
    requires
        c.blocks@.len() > 0,
        c.entry == 0,
        cfg_ids_dense(c),
        cfg_no_inline_labels(c),
        0 <= k <= c.blocks@.len(),
        r.len() == spec_flat_offset(c.blocks@, c.blocks@.len() as int, c.entry as nat),
        forall|k2: int|
            0 <= k2 < c.blocks@.len() ==> spec_block_flat_matches(
                #[trigger] r.subrange(
                    spec_flat_offset(c.blocks@, k2, c.entry as nat) as int,
                    spec_flat_offset(c.blocks@, k2 + 1, c.entry as nat) as int,
                ),
                c.blocks@[k2],
                c.entry as nat,
            ),
    ensures
        count_labels(r.subrange(0, spec_flat_offset(c.blocks@, k, c.entry as nat) as int)) == (if k
            == 0 {
            0int
        } else {
            k - 1
        }),
    decreases k,
{
    let entry = c.entry as nat;
    if k == 0 {
        assert(r.subrange(0, 0) =~= Seq::<Instruction>::empty());
    } else {
        lemma_flatten_label_count_upto(c, r, k - 1);
        lemma_flat_offset_mono(c.blocks@, k - 1, k, entry);
        lemma_flat_offset_mono(c.blocks@, k, c.blocks@.len() as int, entry);
        let off_prev = spec_flat_offset(c.blocks@, k - 1, entry) as int;
        let off_k = spec_flat_offset(c.blocks@, k, entry) as int;
        let prefix = r.subrange(0, off_prev);
        let seg = r.subrange(off_prev, off_k);
        assert(r.subrange(0, off_k) =~= prefix + seg);
        lemma_count_labels_add(prefix, seg);
        let seg2 = r.subrange(
            spec_flat_offset(c.blocks@, k - 1, entry) as int,
            spec_flat_offset(c.blocks@, (k - 1) + 1, entry) as int,
        );
        assert(spec_block_flat_matches(seg2, c.blocks@[k - 1], entry));
        assert(seg2 =~= seg);
        assert(spec_block_flat_matches(seg, c.blocks@[k - 1], entry));
        assert(forall|j: int|
            0 <= j < c.blocks@[k - 1].instructions@.len() ==> !((#[trigger] c.blocks@[k
                - 1].instructions@[j]).operation is Label));
        lemma_segment_label_count(seg, c.blocks@[k - 1], entry);
        assert(c.blocks@[k - 1].id == k - 1);
        if k - 1 == 0 {
            assert(c.blocks@[k - 1].id == entry);
        } else {
            assert(c.blocks@[k - 1].id != entry);
        }
    }
}

} // verus!
