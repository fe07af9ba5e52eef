//! Lowering of the surface AST to control-flow graphs: one graph per
//! function, entered at block 0, with twin streams — every surface statement
//! appends a semantic statement for the typestate verifier and machine
//! instructions for codegen. A call whose callee declares a typestate
//! signature is recorded as a resolved `PeripheralDriverCall`.
//!
//! Structured control lowers as the design prescribes: `if` creates then,
//! else and merge blocks and branches on the condition register; `while`
//! creates header, body and exit blocks with a back edge from the body to
//! the header; a block still open when its function ends receives an
//! implicit `Return(None)`.

use vstd::prelude::*;
use vstd::seq_lib::*;
use vstd::string::StringExecFns;
use crate::ast;
use crate::cfg::{cfg_ids_dense, cfg_targets_valid, cfg_terminators_set, cfg_wf,
    terminator_targets_valid, BasicBlock, BlockId, Statement, Terminator, CFG};
use crate::env::assoc_find;
use crate::ir::{Instruction, Op, VirtualRegister};
use crate::typestate::{spec_build_sigs, SignatureMap, SigsV, SigV};

verus! {

/// An error that stops lowering: a peripheral access that cannot be
/// resolved to an address, an unbound variable, or register exhaustion.
#[derive(Debug)]
pub enum LowerError {
    /// A `PeripheralRead`/`PeripheralWrite` names a peripheral declared
    /// without a base address.
    MissingBaseAddress { peripheral: String },
    /// A peripheral access names no declared peripheral.
    UnknownPeripheral { name: String },
    /// A peripheral access names no register of that peripheral.
    UnknownRegister { peripheral: String, register: String },
    /// A variable is read or assigned with no binding in sight.
    UnboundVariable { name: String },
    /// The virtual register counter is exhausted.
    TooManyRegisters,
}

/// The model of a lowering error.
pub enum LowErrV {
    MissingBaseAddress { peripheral: Seq<char> },
    UnknownPeripheral { name: Seq<char> },
    UnknownRegister { peripheral: Seq<char>, register: Seq<char> },
    UnboundVariable { name: Seq<char> },
    TooManyRegisters,
}

impl View for LowerError {
    type V = LowErrV;

    open spec fn view(&self) -> LowErrV {
        match self {
            LowerError::MissingBaseAddress { peripheral } => LowErrV::MissingBaseAddress {
                peripheral: peripheral@,
            },
            LowerError::UnknownPeripheral { name } => LowErrV::UnknownPeripheral { name: name@ },
            LowerError::UnknownRegister { peripheral, register } => LowErrV::UnknownRegister {
                peripheral: peripheral@,
                register: register@,
            },
            LowerError::UnboundVariable { name } => LowErrV::UnboundVariable { name: name@ },
            LowerError::TooManyRegisters => LowErrV::TooManyRegisters,
        }
    }
}

/// The one-line rendering of a lowering error.
pub open spec fn spec_render_low_err(e: LowErrV) -> Seq<char> {
    match e {
        LowErrV::MissingBaseAddress { peripheral } => "Peripheral '"@ + peripheral
            + "' has no base address"@,
        LowErrV::UnknownPeripheral { name } => "Unknown peripheral '"@ + name + "'"@,
        LowErrV::UnknownRegister { peripheral, register } => "Unknown register '"@ + register
            + "' on peripheral '"@ + peripheral + "'"@,
        LowErrV::UnboundVariable { name } => "Unbound variable '"@ + name + "'"@,
        LowErrV::TooManyRegisters => "Too many virtual registers"@,
    }
}

impl LowerError {
    /// Renders the error as the compiler's one-line diagnostic.
    pub fn render(&self) -> (r: String)
        ensures
            r@ == spec_render_low_err(self@),
    {
        match self {
            LowerError::MissingBaseAddress { peripheral } => {
                let mut s: String = "Peripheral '".to_owned();
                s.append(peripheral.as_str());
                s.append("' has no base address");
                s
            },
            LowerError::UnknownPeripheral { name } => {
                let mut s: String = "Unknown peripheral '".to_owned();
                s.append(name.as_str());
                s.append("'");
                s
            },
            LowerError::UnknownRegister { peripheral, register } => {
                let mut s: String = "Unknown register '".to_owned();
                s.append(register.as_str());
                s.append("' on peripheral '");
                s.append(peripheral.as_str());
                s.append("'");
                s
            },
            LowerError::UnboundVariable { name } => {
                let mut s: String = "Unbound variable '".to_owned();
                s.append(name.as_str());
                s.append("'");
                s
            },
            LowerError::TooManyRegisters => "Too many virtual registers".to_owned(),
        }
    }
}

/// The first declared peripheral with this name.
pub open spec fn spec_find_peripheral(ps: Seq<ast::Peripheral>, name: Seq<char>) -> Option<
    ast::Peripheral,
>
    decreases ps.len(),
{
    if ps.len() == 0 {
        None
    } else if ps[0].name@ == name {
        Some(ps[0])
    } else {
        spec_find_peripheral(ps.drop_first(), name)
    }
}

/// The offset of the first register with this name in a register block.
pub open spec fn spec_find_offset_in_block(regs: Seq<ast::RegisterDef>, name: Seq<char>) -> Option<
    u32,
>
    decreases regs.len(),
{
    if regs.len() == 0 {
        None
    } else if regs[0].name@ == name {
        Some(regs[0].offset)
    } else {
        spec_find_offset_in_block(regs.drop_first(), name)
    }
}

/// The offset of the first register with this name across the blocks.
pub open spec fn spec_find_offset(blocks: Seq<ast::RegisterBlock>, name: Seq<char>) -> Option<u32>
    decreases blocks.len(),
{
    if blocks.len() == 0 {
        None
    } else {
        match spec_find_offset_in_block(blocks[0].registers@, name) {
            Some(off) => Some(off),
            None => spec_find_offset(blocks.drop_first(), name),
        }
    }
}

/// The address a peripheral register access resolves to: the peripheral's
/// base plus the register's offset, modulo the 32-bit address space. An
/// unknown peripheral or register is an error; so is a peripheral declared
/// without a base address.
pub open spec fn spec_resolve_address(
    ps: Seq<ast::Peripheral>,
    pname: Seq<char>,
    rname: Seq<char>,
) -> Result<u32, LowErrV> {
    match spec_find_peripheral(ps, pname) {
        None => Err(LowErrV::UnknownPeripheral { name: pname }),
        Some(p) => match p.base_address {
            None => Err(LowErrV::MissingBaseAddress { peripheral: pname }),
            Some(base) => match spec_find_offset(p.register_blocks@, rname) {
                None => Err(LowErrV::UnknownRegister { peripheral: pname, register: rname }),
                Some(off) => Ok(((base + off) % 0x1_0000_0000) as u32),
            },
        },
    }
}

/// Resolves a peripheral register access to its address.
pub fn resolve_address(
    peripherals: &Vec<ast::Peripheral>,
    pname: &String,
    rname: &String,
) -> (r: Result<u32, LowerError>)
    ensures
        match r {
            Ok(addr) => spec_resolve_address(peripherals@, pname@, rname@) == Ok::<u32, LowErrV>(
                addr,
            ),
            Err(e) => spec_resolve_address(peripherals@, pname@, rname@) == Err::<u32, LowErrV>(e@),
        },
{
    proof {
        assert(peripherals@.skip(0) =~= peripherals@);
    }
    let mut i: usize = 0;
    while i < peripherals.len()
        invariant
            i <= peripherals@.len(),
            forall|j: int| 0 <= j < i ==> (#[trigger] peripherals@[j]).name@ != pname@,
            spec_find_peripheral(peripherals@, pname@) == spec_find_peripheral(
                peripherals@.skip(i as int),
                pname@,
            ),
        decreases peripherals@.len() - i,
    {
        proof {
            assert(peripherals@.skip(i as int)[0] == peripherals@[i as int]);
            assert(peripherals@.skip(i as int).drop_first() =~= peripherals@.skip(i + 1));
        }
        let p = &peripherals[i];
        if p.name == *pname {
            let base = match &p.base_address {
                None => {
                    return Err(LowerError::MissingBaseAddress { peripheral: pname.clone() });
                },
                Some(b) => *b,
            };
            proof {
                assert(p.register_blocks@.skip(0) =~= p.register_blocks@);
            }
            let mut bi: usize = 0;
            while bi < p.register_blocks.len()
                invariant
                    bi <= p.register_blocks@.len(),
                    i < peripherals@.len(),
                    *p == peripherals@[i as int],
                    p.name@ == pname@,
                    p.base_address == Some(base),
                    spec_find_peripheral(peripherals@, pname@) == Some(*p),
                    spec_find_offset(p.register_blocks@, rname@) == spec_find_offset(
                        p.register_blocks@.skip(bi as int),
                        rname@,
                    ),
                decreases p.register_blocks@.len() - bi,
            {
                proof {
                    assert(p.register_blocks@.skip(bi as int)[0]
                        == p.register_blocks@[bi as int]);
                    assert(p.register_blocks@.skip(bi as int).drop_first()
                        =~= p.register_blocks@.skip(bi + 1));
                }
                let block = &p.register_blocks[bi];
                proof {
                    assert(block.registers@.skip(0) =~= block.registers@);
                }
                let mut ri: usize = 0;
                while ri < block.registers.len()
                    invariant
                        ri <= block.registers@.len(),
                        bi < p.register_blocks@.len(),
                        i < peripherals@.len(),
                        *p == peripherals@[i as int],
                        p.name@ == pname@,
                        p.base_address == Some(base),
                        spec_find_peripheral(peripherals@, pname@) == Some(*p),
                        *block == p.register_blocks@[bi as int],
                        spec_find_offset(p.register_blocks@, rname@) == spec_find_offset(
                            p.register_blocks@.skip(bi as int),
                            rname@,
                        ),
                        spec_find_offset_in_block(block.registers@, rname@)
                            == spec_find_offset_in_block(
                            block.registers@.skip(ri as int),
                            rname@,
                        ),
                    decreases block.registers@.len() - ri,
                {
                    proof {
                        assert(block.registers@.skip(ri as int)[0]
                            == block.registers@[ri as int]);
                        assert(block.registers@.skip(ri as int).drop_first()
                            =~= block.registers@.skip(ri + 1));
                    }
                    let reg = &block.registers[ri];
                    if reg.name == *rname {
                        proof {
                            assert(spec_find_offset_in_block(
                                block.registers@.skip(ri as int),
                                rname@,
                            ) == Some(reg.offset));
                            assert(spec_find_offset(
                                p.register_blocks@.skip(bi as int),
                                rname@,
                            ) == Some(reg.offset));
                        }
                        let addr = base.wrapping_add(reg.offset);
                        proof {
                            let s: int = base + reg.offset;
                            let m: int = 0x1_0000_0000;
                            if s <= u32::MAX {
                                vstd::arithmetic::div_mod::lemma_small_mod(s as nat, m as nat);
                            } else {
                                vstd::arithmetic::div_mod::lemma_mod_multiples_vanish(
                                    1,
                                    s - m,
                                    m,
                                );
                                vstd::arithmetic::div_mod::lemma_small_mod(
                                    (s - m) as nat,
                                    m as nat,
                                );
                            }
                            assert(addr == ((base + reg.offset) % 0x1_0000_0000) as u32);
                        }
                        return Ok(addr);
                    }
                    ri = ri + 1;
                }
                proof {
                    assert(block.registers@.skip(block.registers@.len() as int)
                        =~= Seq::<ast::RegisterDef>::empty());
                }
                bi = bi + 1;
            }
            proof {
                assert(p.register_blocks@.skip(p.register_blocks@.len() as int) =~= Seq::<
                    ast::RegisterBlock,
                >::empty());
            }
            return Err(
                LowerError::UnknownRegister { peripheral: pname.clone(), register: rname.clone() },
            );
        }
        i = i + 1;
    }
    proof {
        assert(peripherals@.skip(peripherals@.len() as int) =~= Seq::<ast::Peripheral>::empty());
    }
    Err(LowerError::UnknownPeripheral { name: pname.clone() })
}

/// The callee name of an expression that is a call at its top level.
pub open spec fn expr_fncall_name(e: ast::Expr) -> Option<Seq<char>> {
    match e {
        ast::Expr::FnCall { name, .. } => Some(name@),
        _ => None,
    }
}

/// Copies an expression. The copy has the same top-level call shape, which
/// is all the typestate verifier reads from a stored expression.
pub fn clone_expr(e: &ast::Expr) -> (r: ast::Expr)
    ensures
        expr_fncall_name(r) == expr_fncall_name(*e),
    decreases *e,
{
    match e {
        ast::Expr::IntLit { value } => ast::Expr::IntLit { value: *value },
        ast::Expr::Variable { name } => ast::Expr::Variable { name: name.clone() },
        ast::Expr::FnCall { name, args } => ast::Expr::FnCall {
            name: name.clone(),
            args: clone_exprs(args),
        },
        ast::Expr::Binary { op, left, right } => ast::Expr::Binary {
            op: *op,
            left: Box::new(clone_expr(left)),
            right: Box::new(clone_expr(right)),
        },
        ast::Expr::Unary { op, operand } => ast::Expr::Unary {
            op: *op,
            operand: Box::new(clone_expr(operand)),
        },
        ast::Expr::PeripheralRead { peripheral, register } => ast::Expr::PeripheralRead {
            peripheral: peripheral.clone(),
            register: register.clone(),
        },
    }
}

/// Copies a sequence of expressions.
pub fn clone_exprs(es: &Vec<ast::Expr>) -> (r: Vec<ast::Expr>)
    decreases *es,
{
    let mut cloned: Vec<ast::Expr> = Vec::new();
    let mut i: usize = 0;
    while i < es.len()
        invariant
            i <= es@.len(),
        decreases es@.len() - i,
    {
        cloned.push(clone_expr(&es[i]));
        i = i + 1;
    }
    cloned
}

/// What one semantic statement means to the typestate verifier and the
/// scope: the verifier's statement rules read nothing else of a statement.
pub enum SemAct {
    /// A resolved driver call: requires `from_state`, establishes
    /// `to_state`.
    DriverCall {
        function: Seq<char>,
        peripheral: Seq<char>,
        from_state: Seq<char>,
        to_state: Seq<char>,
    },
    /// A call whose callee has no signature: no typestate effect.
    PlainCall { name: Seq<char> },
    /// A `let` binding.
    Bind { name: Seq<char> },
    /// An assignment to an existing binding.
    Rebind { name: Seq<char> },
    /// A register write: no typestate effect.
    Write { peripheral: Seq<char>, register: Seq<char> },
    /// An expression statement that is not a call.
    Inert,
}

/// The action a stored semantic statement denotes.
pub open spec fn sem_act(s: Statement) -> SemAct {
    match s {
        Statement::PeripheralDriverCall { function, peripheral, from_state, to_state } => SemAct::DriverCall {
            function: function@,
            peripheral: peripheral@,
            from_state: from_state@,
            to_state: to_state@,
        },
        Statement::Expr { expr } => match expr {
            ast::Expr::FnCall { name, .. } => SemAct::PlainCall { name: name@ },
            _ => SemAct::Inert,
        },
        Statement::Let { var_name, .. } => SemAct::Bind { name: var_name@ },
        Statement::Assign { var_name, .. } => SemAct::Rebind { name: var_name@ },
        Statement::PeripheralWrite { peripheral, register } => SemAct::Write {
            peripheral: peripheral@,
            register: register@,
        },
    }
}

/// The action a surface statement must be recorded as, under the program's
/// signature map: a call statement whose callee is signed becomes the
/// resolved driver call carrying exactly the declared signature; control
/// statements (`return`, `if`, `while`) record no semantic statement of
/// their own.
pub open spec fn expected_sem_act(stmt: ast::Statement, sigs: SigsV) -> Option<SemAct> {
    match stmt {
        ast::Statement::Let { var_name, .. } => Some(SemAct::Bind { name: var_name@ }),
        ast::Statement::Assign { var_name, .. } => Some(SemAct::Rebind { name: var_name@ }),
        ast::Statement::Expr { expr } => Some(
            match expr {
                ast::Expr::FnCall { name, .. } => match assoc_find(sigs, name@) {
                    Some(sig) => SemAct::DriverCall {
                        function: name@,
                        peripheral: sig.peripheral,
                        from_state: sig.input_state,
                        to_state: sig.output_state,
                    },
                    None => SemAct::PlainCall { name: name@ },
                },
                _ => SemAct::Inert,
            },
        ),
        ast::Statement::PeripheralWrite { peripheral, register, .. } => Some(
            SemAct::Write { peripheral: peripheral@, register: register@ },
        ),
        ast::Statement::Return { .. } => None,
        ast::Statement::If { .. } => None,
        ast::Statement::While { .. } => None,
    }
}

/// A statement that records exactly one semantic statement and transfers
/// no control: anything but `return`, `if` and `while`.
pub open spec fn stmt_plain(stmt: ast::Statement) -> bool {
    match stmt {
        ast::Statement::Return { .. } => false,
        ast::Statement::If { .. } => false,
        ast::Statement::While { .. } => false,
        _ => true,
    }
}

/// Every statement of the sequence is plain.
pub open spec fn all_plain(stmts: Seq<ast::Statement>) -> bool {
    forall|j: int| 0 <= j < stmts.len() ==> stmt_plain(#[trigger] stmts[j])
}

/// The semantic actions a plain statement sequence must be recorded as, in
/// order.
pub open spec fn plain_acts(stmts: Seq<ast::Statement>, sigs: SigsV) -> Seq<SemAct> {
    stmts.map_values(|st: ast::Statement| expected_sem_act(st, sigs)->Some_0)
}

/// The actions a stored semantic stream denotes, in order.
pub open spec fn sem_acts(stmts: Seq<Statement>) -> Seq<SemAct> {
    stmts.map_values(|s: Statement| sem_act(s))
}

/// A semantic statement is faithful to the signature map: a resolved driver
/// call records exactly the callee's declared signature, and a plain call
/// statement's callee is unsigned.
pub open spec fn stmt_faithful(s: Statement, sigs: SigsV) -> bool {
    match s {
        Statement::PeripheralDriverCall { function, peripheral, from_state, to_state } => {
            assoc_find(sigs, function@) == Some(
                SigV {
                    peripheral: peripheral@,
                    input_state: from_state@,
                    output_state: to_state@,
                },
            )
        },
        Statement::Expr { expr } => match expr {
            ast::Expr::FnCall { name, .. } => assoc_find(sigs, name@) is None,
            _ => true,
        },
        _ => true,
    }
}

/// Every semantic statement in the graph is faithful to the signature map.
pub open spec fn cfg_driver_faithful(c: CFG, sigs: SigsV) -> bool {
    forall|i: int, j: int|
        0 <= i < c.blocks@.len() && 0 <= j < c.blocks@[i].statements@.len() ==> stmt_faithful(
            #[trigger] c.blocks@[i].statements@[j],
            sigs,
        )
}

/// The invariant lowering maintains while a graph is under construction:
/// entered at a block 0 that exists, ids dense, targets valid, and the
/// semantic stream faithful to the signature map. Terminators may still be
/// unset.
pub open spec fn lower_inv(c: CFG, sigs: SigsV) -> bool {
    &&& c.blocks@.len() > 0
    &&& c.entry == 0
    &&& cfg_ids_dense(c)
    &&& cfg_targets_valid(c)
    &&& cfg_driver_faithful(c, sigs)
}

/// The new graph only extends the old: same entry, blocks only added, and
/// each old block's streams only appended to; a terminator, once set, is
/// never changed.
pub open spec fn blocks_extended(a: CFG, b: CFG) -> bool {
    &&& b.blocks@.len() >= a.blocks@.len()
    &&& b.entry == a.entry
    &&& forall|i: int|
        0 <= i < a.blocks@.len() ==> {
            &&& (#[trigger] b.blocks@[i]).id == a.blocks@[i].id
            &&& a.blocks@[i].instructions@.is_prefix_of(b.blocks@[i].instructions@)
            &&& a.blocks@[i].statements@.is_prefix_of(b.blocks@[i].statements@)
            &&& (a.blocks@[i].terminator is Unset || b.blocks@[i].terminator
                == a.blocks@[i].terminator)
        }
}

/// Chains two extension steps.
pub proof fn lemma_blocks_extended_trans(a: CFG, b: CFG, c: CFG)
    requires
        blocks_extended(a, b),
        blocks_extended(b, c),
    ensures
        blocks_extended(a, c),
{
    assert forall|i: int| 0 <= i < a.blocks@.len() implies {
        &&& (#[trigger] c.blocks@[i]).id == a.blocks@[i].id
        &&& a.blocks@[i].instructions@.is_prefix_of(c.blocks@[i].instructions@)
        &&& a.blocks@[i].statements@.is_prefix_of(c.blocks@[i].statements@)
        &&& (a.blocks@[i].terminator is Unset || c.blocks@[i].terminator
            == a.blocks@[i].terminator)
    } by {
        let ai = a.blocks@[i];
        let bi = b.blocks@[i];
        let ci = c.blocks@[i];
        assert(ai.instructions@ =~= ci.instructions@.subrange(0, ai.instructions@.len() as int));
        assert(ai.statements@ =~= ci.statements@.subrange(0, ai.statements@.len() as int));
    }
}

/// Appends one machine instruction to block `cur`: everything else in the
/// graph, and every semantic stream, stays as it was.
fn emit(c: &mut CFG, cur: BlockId, instr: Instruction, Ghost(sigs): Ghost<SigsV>)
    requires
        cur < old(c).blocks@.len(),
        lower_inv(*old(c), sigs),
    ensures
        lower_inv(*final(c), sigs),
        blocks_extended(*old(c), *final(c)),
        final(c).blocks@.len() == old(c).blocks@.len(),
        forall|i: int|
            0 <= i < old(c).blocks@.len() ==> (#[trigger] final(c).blocks@[i]).terminator == old(c).blocks@[i].terminator && final(c).blocks@[i].statements@ == old(c).blocks@[i].statements@,
        forall|i: int|
            0 <= i < old(c).blocks@.len() && i != cur ==> (#[trigger] final(c).blocks@[i]).instructions@
                == old(c).blocks@[i].instructions@,
        final(c).blocks@[cur as int].instructions@ == old(c).blocks@[cur as int].instructions@.push(
            instr,
        ),
{
    let b = c.block_mut(cur);
    b.push(instr);
    proof {
        assert(blocks_extended(*old(c), *final(c)));
        assert forall|i: int, j: int|
            0 <= i < final(c).blocks@.len() && 0 <= j < final(c).blocks@[i].statements@.len()
            implies stmt_faithful(#[trigger] final(c).blocks@[i].statements@[j], sigs) by {
            assert(final(c).blocks@[i].statements@ == old(c).blocks@[i].statements@);
        }
    }
}

/// Appends one semantic statement, itself faithful, to block `cur`.
fn push_sem(c: &mut CFG, cur: BlockId, stmt: Statement, Ghost(sigs): Ghost<SigsV>)
    requires
        cur < old(c).blocks@.len(),
        lower_inv(*old(c), sigs),
        stmt_faithful(stmt, sigs),
    ensures
        lower_inv(*final(c), sigs),
        blocks_extended(*old(c), *final(c)),
        final(c).blocks@.len() == old(c).blocks@.len(),
        forall|i: int|
            0 <= i < old(c).blocks@.len() ==> (#[trigger] final(c).blocks@[i]).terminator == old(c).blocks@[i].terminator,
        forall|i: int|
            0 <= i < old(c).blocks@.len() && i != cur ==> (#[trigger] final(c).blocks@[i]).statements@
                == old(c).blocks@[i].statements@,
        final(c).blocks@[cur as int].statements@ == old(c).blocks@[cur as int].statements@.push(
            stmt,
        ),
{
    let ghost stmt_g: Statement = stmt;
    let b = c.block_mut(cur);
    b.push_statement(stmt);
    proof {
        assert(blocks_extended(*old(c), *final(c)));
        assert forall|i: int, j: int|
            0 <= i < final(c).blocks@.len() && 0 <= j < final(c).blocks@[i].statements@.len()
            implies stmt_faithful(#[trigger] final(c).blocks@[i].statements@[j], sigs) by {
            if i == cur as int && j == final(c).blocks@[i].statements@.len() - 1 {
                assert(final(c).blocks@[i].statements@[j] == stmt_g);
            } else {
                assert(final(c).blocks@[i].statements@[j] == old(c).blocks@[i].statements@[j]);
            }
        }
    }
}

/// Sets block `cur`'s terminator; its targets must be valid block ids.
fn set_term(c: &mut CFG, cur: BlockId, t: Terminator, Ghost(sigs): Ghost<SigsV>)
    requires
        cur < old(c).blocks@.len(),
        lower_inv(*old(c), sigs),
        old(c).blocks@[cur as int].terminator is Unset,
        terminator_targets_valid(t, old(c).blocks@.len() as nat),
    ensures
        lower_inv(*final(c), sigs),
        blocks_extended(*old(c), *final(c)),
        final(c).blocks@.len() == old(c).blocks@.len(),
        final(c).blocks@[cur as int].terminator == t,
        forall|i: int|
            0 <= i < old(c).blocks@.len() && i != cur ==> (#[trigger] final(c).blocks@[i]).terminator == old(c).blocks@[i].terminator,
        forall|i: int|
            0 <= i < old(c).blocks@.len() ==> (#[trigger] final(c).blocks@[i]).statements@ == old(c).blocks@[i].statements@ && final(c).blocks@[i].instructions@ == old(c).blocks@[i].instructions@,
{
    let b = c.block_mut(cur);
    b.set_terminator(t);
    proof {
        assert(blocks_extended(*old(c), *final(c)));
        assert forall|i: int, j: int|
            0 <= i < final(c).blocks@.len() && 0 <= j < final(c).blocks@[i].statements@.len()
            implies stmt_faithful(#[trigger] final(c).blocks@[i].statements@[j], sigs) by {
            assert(final(c).blocks@[i].statements@ == old(c).blocks@[i].statements@);
        }
        assert forall|i: int| 0 <= i < final(c).blocks@.len() implies terminator_targets_valid(
            (#[trigger] final(c).blocks@[i]).terminator,
            final(c).blocks@.len() as nat,
        ) by {
            if i != cur {
                assert(final(c).blocks@[i].terminator == old(c).blocks@[i].terminator);
            }
        }
    }
}

/// Appends a fresh empty block, keeping the lowering invariant.
fn fresh_block(c: &mut CFG, Ghost(sigs): Ghost<SigsV>) -> (id: BlockId)
    requires
        lower_inv(*old(c), sigs),
    ensures
        lower_inv(*final(c), sigs),
        blocks_extended(*old(c), *final(c)),
        id == old(c).blocks@.len(),
        final(c).blocks@.len() == old(c).blocks@.len() + 1,
        final(c).blocks@[id as int].terminator is Unset,
        final(c).blocks@[id as int].statements@.len() == 0,
        final(c).blocks@[id as int].instructions@.len() == 0,
        forall|i: int|
            0 <= i < old(c).blocks@.len() ==> (#[trigger] final(c).blocks@[i]).terminator == old(c).blocks@[i].terminator,
        forall|i: int|
            0 <= i < old(c).blocks@.len() ==> (#[trigger] final(c).blocks@[i]).statements@ == old(c).blocks@[i].statements@ && final(c).blocks@[i].instructions@ == old(c).blocks@[i].instructions@,
{
    let id = c.add_block();
    proof {
        assert forall|i: int| 0 <= i < old(c).blocks@.len() implies #[trigger] final(c).blocks@[i]
            == old(c).blocks@[i] by {
            assert(final(c).blocks@.subrange(0, old(c).blocks@.len() as int)[i] == final(c).blocks@[i]);
        }
        assert(blocks_extended(*old(c), *final(c)));
        assert forall|i: int, j: int|
            0 <= i < final(c).blocks@.len() && 0 <= j < final(c).blocks@[i].statements@.len()
            implies stmt_faithful(#[trigger] final(c).blocks@[i].statements@[j], sigs) by {
            assert(i < old(c).blocks@.len());
            assert(final(c).blocks@[i].statements@ == old(c).blocks@[i].statements@);
        }
        assert forall|i: int| 0 <= i < final(c).blocks@.len() implies terminator_targets_valid(
            (#[trigger] final(c).blocks@[i]).terminator,
            final(c).blocks@.len() as nat,
        ) by {
            if i < old(c).blocks@.len() {
                assert(final(c).blocks@[i] == old(c).blocks@[i]);
                assert(terminator_targets_valid(
                    old(c).blocks@[i].terminator,
                    old(c).blocks@.len() as nat,
                ));
            }
        }
        assert(lower_inv(*final(c), sigs));
    }
    id
}

/// Names bound so far to virtual registers, and the fresh-register counter.
#[derive(Debug)]
pub struct Context {
    pub vars: Vec<(String, VirtualRegister)>,
    pub next_register: usize,
}

impl Context {
    pub open spec fn vars_view(&self) -> Seq<(Seq<char>, VirtualRegister)> {
        self.vars@.map_values(|p: (String, VirtualRegister)| (p.0@, p.1))
    }

    pub fn new() -> (r: Self)
        ensures
            r.vars_view() =~= Seq::<(Seq<char>, VirtualRegister)>::empty(),
            r.next_register == 0,
    {
        Context { vars: Vec::new(), next_register: 0 }
    }

    /// A fresh virtual register, or an error when the counter is exhausted.
    pub fn new_register(&mut self) -> (r: Result<VirtualRegister, LowerError>)
        ensures
            final(self).vars == old(self).vars,
            match r {
                Ok(reg) => reg.id == old(self).next_register && final(self).next_register == old(self).next_register + 1,
                Err(e) => *final(self) == *old(self) && e@ == LowErrV::TooManyRegisters,
            },
    {
        if self.next_register == usize::MAX {
            return Err(LowerError::TooManyRegisters);
        }
        let r = VirtualRegister { id: self.next_register };
        self.next_register = self.next_register + 1;
        Ok(r)
    }

    /// The register bound to `name`, if any.
    pub fn get_register(&self, name: &String) -> (r: Option<VirtualRegister>)
        ensures
            r == assoc_find(self.vars_view(), name@),
    {
        let mut i: usize = 0;
        while i < self.vars.len()
            invariant
                i <= self.vars_view().len(),
                forall|j: int| 0 <= j < i ==> (#[trigger] self.vars_view()[j]).0 != name@,
            decreases self.vars_view().len() - i,
        {
            if self.vars[i].0 == *name {
                proof {
                    crate::env::lemma_assoc_find_skip(self.vars_view(), name@, i as int);
                    assert(self.vars_view().skip(i as int)[0] == self.vars_view()[i as int]);
                }
                return Some(self.vars[i].1);
            }
            i = i + 1;
        }
        proof {
            crate::env::lemma_assoc_find_skip(self.vars_view(), name@, self.vars_view().len() as int);
        }
        None
    }

    /// Binds `name` to `reg`, replacing an existing binding in place.
    pub fn bind_register(&mut self, name: &String, reg: VirtualRegister)
        ensures
            final(self).vars_view() =~= crate::env::assoc_set(
                old(self).vars_view(),
                name@,
                reg,
            ),
            final(self).next_register == old(self).next_register,
    {
        let mut i: usize = 0;
        while i < self.vars.len()
            invariant
                i <= self.vars_view().len(),
                self.vars == old(self).vars,
                self.next_register == old(self).next_register,
                forall|j: int| 0 <= j < i ==> (#[trigger] self.vars_view()[j]).0 != name@,
            decreases self.vars_view().len() - i,
        {
            if self.vars[i].0 == *name {
                self.vars.set(i, (name.clone(), reg));
                proof {
                    crate::env::lemma_assoc_set_at(old(self).vars_view(), name@, reg, i as int);
                    assert(final(self).vars_view() =~= old(self).vars_view().update(
                        i as int,
                        (name@, reg),
                    ));
                }
                return ;
            }
            i = i + 1;
        }
        self.vars.push((name.clone(), reg));
        proof {
            crate::env::lemma_assoc_set_absent(old(self).vars_view(), name@, reg);
            assert(final(self).vars_view() =~= old(self).vars_view().push((name@, reg)));
        }
    }
}

} // verus!

verus! {

/// The machine operation a binary operator lowers to. The logical operators
/// lower to the bitwise operations; short-circuit evaluation is a known gap.
pub open spec fn spec_bin_op(op: ast::BinOp) -> Op {
    match op {
        ast::BinOp::Mul => Op::Mul,
        ast::BinOp::Div => Op::Div,
        ast::BinOp::Rem => Op::Rem,
        ast::BinOp::Add => Op::Add,
        ast::BinOp::Sub => Op::Sub,
        ast::BinOp::Shl => Op::Sll,
        ast::BinOp::Shr => Op::Srl,
        ast::BinOp::Lt => Op::CmpLt,
        ast::BinOp::Le => Op::CmpLe,
        ast::BinOp::Gt => Op::CmpGt,
        ast::BinOp::Ge => Op::CmpGe,
        ast::BinOp::EqEq => Op::CmpEq,
        ast::BinOp::NotEq => Op::CmpNe,
        ast::BinOp::BitAnd => Op::And,
        ast::BinOp::BitXor => Op::Xor,
        ast::BinOp::BitOr => Op::Or,
        ast::BinOp::LogicalAnd => Op::And,
        ast::BinOp::LogicalOr => Op::Or,
    }
}

/// What the suffix appended to the block for one expression ends in, and
/// which register carries the value: a literal loads itself into the result
/// register; a variable emits nothing and yields its binding; a call names
/// the callee with the result as destination; operators end in their
/// machine operation writing the result; a peripheral read ends in a
/// `LoadWord` from the resolved address.
pub open spec fn expr_emission(
    e: ast::Expr,
    old_instrs: Seq<Instruction>,
    instrs: Seq<Instruction>,
    reg: VirtualRegister,
    vars: Seq<(Seq<char>, VirtualRegister)>,
    ps: Seq<ast::Peripheral>,
) -> bool {
    match e {
        ast::Expr::IntLit { value } => {
            &&& instrs.len() == old_instrs.len() + 1
            &&& instrs.last().operation == Op::LoadImm(value)
            &&& instrs.last().destination == Some(reg)
            &&& instrs.last().args@.len() == 0
        },
        ast::Expr::Variable { name } => {
            &&& instrs == old_instrs
            &&& assoc_find(vars, name@) == Some(reg)
        },
        ast::Expr::FnCall { name, .. } => {
            &&& instrs.len() >= old_instrs.len() + 1
            &&& instrs.last().operation matches Op::Call(callee) && callee@ == name@
            &&& instrs.last().destination == Some(reg)
        },
        ast::Expr::Binary { op, .. } => {
            &&& instrs.len() >= old_instrs.len() + 1
            &&& instrs.last().operation == spec_bin_op(op)
            &&& instrs.last().destination == Some(reg)
            &&& instrs.last().args@.len() == 2
        },
        ast::Expr::Unary { op, .. } => {
            &&& instrs.len() >= old_instrs.len() + 1
            &&& instrs.last().destination == Some(reg)
            &&& match op {
                ast::UnOp::Neg => instrs.last().operation == Op::Neg
                    && instrs.last().args@.len() == 1,
                ast::UnOp::BitNot => instrs.last().operation == Op::Not
                    && instrs.last().args@.len() == 1,
                ast::UnOp::LogicalNot => instrs.last().operation == Op::CmpEq
                    && instrs.last().args@.len() == 2,
            }
        },
        ast::Expr::PeripheralRead { peripheral, register } => {
            &&& instrs.len() >= old_instrs.len() + 2
            &&& instrs.last().operation == Op::LoadWord
            &&& instrs.last().destination == Some(reg)
            &&& instrs.last().args@.len() == 1
            &&& spec_resolve_address(ps, peripheral@, register@) matches Ok(addr)
                && instrs[instrs.len() - 2].operation == Op::LoadAddr(addr)
        },
    }
}

/// Lowers one expression into block `cur`, appending instructions only: a
/// post-order walk producing a fresh destination register per node.
pub fn lower_expression(
    ctx: &mut Context,
    c: &mut CFG,
    cur: BlockId,
    e: &ast::Expr,
    peripherals: &Vec<ast::Peripheral>,
    Ghost(sigs): Ghost<SigsV>,
) -> (r: Result<VirtualRegister, LowerError>)
    requires
        cur < old(c).blocks@.len(),
        lower_inv(*old(c), sigs),
    ensures
        lower_inv(*final(c), sigs),
        blocks_extended(*old(c), *final(c)),
        final(c).blocks@.len() == old(c).blocks@.len(),
        forall|i: int|
            0 <= i < old(c).blocks@.len() ==> (#[trigger] final(c).blocks@[i]).terminator == old(c).blocks@[i].terminator
                && final(c).blocks@[i].statements@ == old(c).blocks@[i].statements@,
        forall|i: int|
            0 <= i < old(c).blocks@.len() && i != cur ==> (#[trigger] final(c).blocks@[i]).instructions@
                == old(c).blocks@[i].instructions@,
        final(ctx).vars_view() == old(ctx).vars_view(),
        final(ctx).next_register >= old(ctx).next_register,
        match r {
            Ok(reg) => expr_emission(
                *e,
                old(c).blocks@[cur as int].instructions@,
                final(c).blocks@[cur as int].instructions@,
                reg,
                old(ctx).vars_view(),
                peripherals@,
            ),
            Err(_) => true,
        },
    decreases *e,
{
    match e {
        ast::Expr::IntLit { value } => {
            let dest = match ctx.new_register() {
                Ok(d) => d,
                Err(err) => {
                    return Err(err);
                },
            };
            emit(c, cur, Instruction::new(Op::LoadImm(*value), Some(dest), vec![]), Ghost(sigs));
            Ok(dest)
        },
        ast::Expr::Variable { name } => {
            match ctx.get_register(name) {
                Some(reg) => Ok(reg),
                None => Err(LowerError::UnboundVariable { name: name.clone() }),
            }
        },
        ast::Expr::FnCall { name, args } => {
            let arg_regs = match lower_exprs(ctx, c, cur, args, peripherals, Ghost(sigs)) {
                Ok(v) => v,
                Err(err) => {
                    return Err(err);
                },
            };
            let dest = match ctx.new_register() {
                Ok(d) => d,
                Err(err) => {
                    return Err(err);
                },
            };
            emit(c, cur, Instruction::new(Op::Call(name.clone()), Some(dest), arg_regs), Ghost(sigs));
            Ok(dest)
        },
        ast::Expr::Binary { op, left, right } => {
            let ghost c0: CFG = *c;
            let l = match lower_expression(ctx, c, cur, left, peripherals, Ghost(sigs)) {
                Ok(v) => v,
                Err(err) => {
                    return Err(err);
                },
            };
            let ghost c1: CFG = *c;
            let rr = match lower_expression(ctx, c, cur, right, peripherals, Ghost(sigs)) {
                Ok(v) => v,
                Err(err) => {
                    proof {
                        lemma_blocks_extended_trans(c0, c1, *c);
                    }
                    return Err(err);
                },
            };
            proof {
                lemma_blocks_extended_trans(c0, c1, *c);
            }
            let ghost c2: CFG = *c;
            let dest = match ctx.new_register() {
                Ok(d) => d,
                Err(err) => {
                    return Err(err);
                },
            };
            let machine_op = match op {
                ast::BinOp::Mul => Op::Mul,
                ast::BinOp::Div => Op::Div,
                ast::BinOp::Rem => Op::Rem,
                ast::BinOp::Add => Op::Add,
                ast::BinOp::Sub => Op::Sub,
                ast::BinOp::Shl => Op::Sll,
                ast::BinOp::Shr => Op::Srl,
                ast::BinOp::Lt => Op::CmpLt,
                ast::BinOp::Le => Op::CmpLe,
                ast::BinOp::Gt => Op::CmpGt,
                ast::BinOp::Ge => Op::CmpGe,
                ast::BinOp::EqEq => Op::CmpEq,
                ast::BinOp::NotEq => Op::CmpNe,
                ast::BinOp::BitAnd => Op::And,
                ast::BinOp::BitXor => Op::Xor,
                ast::BinOp::BitOr => Op::Or,
                ast::BinOp::LogicalAnd => Op::And,
                ast::BinOp::LogicalOr => Op::Or,
            };
            emit(c, cur, Instruction::new(machine_op, Some(dest), vec![l, rr]), Ghost(sigs));
            proof {
                lemma_blocks_extended_trans(c0, c2, *c);
            }
            Ok(dest)
        },
        ast::Expr::Unary { op, operand } => {
            let ghost c0: CFG = *c;
            let o = match lower_expression(ctx, c, cur, operand, peripherals, Ghost(sigs)) {
                Ok(v) => v,
                Err(err) => {
                    return Err(err);
                },
            };
            let ghost c1: CFG = *c;
            match op {
                ast::UnOp::Neg => {
                    let dest = match ctx.new_register() {
                        Ok(d) => d,
                        Err(err) => {
                            return Err(err);
                        },
                    };
                    emit(c, cur, Instruction::new(Op::Neg, Some(dest), vec![o]), Ghost(sigs));
                    proof {
                        lemma_blocks_extended_trans(c0, c1, *c);
                    }
                    Ok(dest)
                },
                ast::UnOp::BitNot => {
                    let dest = match ctx.new_register() {
                        Ok(d) => d,
                        Err(err) => {
                            return Err(err);
                        },
                    };
                    emit(c, cur, Instruction::new(Op::Not, Some(dest), vec![o]), Ghost(sigs));
                    proof {
                        lemma_blocks_extended_trans(c0, c1, *c);
                    }
                    Ok(dest)
                },
                ast::UnOp::LogicalNot => {
                    let zero = match ctx.new_register() {
                        Ok(d) => d,
                        Err(err) => {
                            return Err(err);
                        },
                    };
                    emit(c, cur, Instruction::new(Op::LoadImm(0), Some(zero), vec![]), Ghost(sigs));
                    let ghost c2: CFG = *c;
                    let dest = match ctx.new_register() {
                        Ok(d) => d,
                        Err(err) => {
                            proof {
                                lemma_blocks_extended_trans(c0, c1, *c);
                            }
                            return Err(err);
                        },
                    };
                    emit(c, cur, Instruction::new(Op::CmpEq, Some(dest), vec![o, zero]), Ghost(sigs));
                    proof {
                        lemma_blocks_extended_trans(c1, c2, *c);
                        lemma_blocks_extended_trans(c0, c1, *c);
                    }
                    Ok(dest)
                },
            }
        },
        ast::Expr::PeripheralRead { peripheral, register } => {
            let addr = match resolve_address(peripherals, peripheral, register) {
                Ok(a) => a,
                Err(err) => {
                    return Err(err);
                },
            };
            let a = match ctx.new_register() {
                Ok(d) => d,
                Err(err) => {
                    return Err(err);
                },
            };
            emit(c, cur, Instruction::new(Op::LoadAddr(addr), Some(a), vec![]), Ghost(sigs));
            let ghost c1: CFG = *c;
            let dest = match ctx.new_register() {
                Ok(d) => d,
                Err(err) => {
                    return Err(err);
                },
            };
            emit(c, cur, Instruction::new(Op::LoadWord, Some(dest), vec![a]), Ghost(sigs));
            proof {
                lemma_blocks_extended_trans(*old(c), c1, *c);
            }
            Ok(dest)
        },
    }
}

/// Lowers a call's arguments left to right, returning their registers.
pub fn lower_exprs(
    ctx: &mut Context,
    c: &mut CFG,
    cur: BlockId,
    es: &Vec<ast::Expr>,
    peripherals: &Vec<ast::Peripheral>,
    Ghost(sigs): Ghost<SigsV>,
) -> (r: Result<Vec<VirtualRegister>, LowerError>)
    requires
        cur < old(c).blocks@.len(),
        lower_inv(*old(c), sigs),
    ensures
        lower_inv(*final(c), sigs),
        blocks_extended(*old(c), *final(c)),
        final(c).blocks@.len() == old(c).blocks@.len(),
        forall|i: int|
            0 <= i < old(c).blocks@.len() ==> (#[trigger] final(c).blocks@[i]).terminator == old(c).blocks@[i].terminator
                && final(c).blocks@[i].statements@ == old(c).blocks@[i].statements@,
        forall|i: int|
            0 <= i < old(c).blocks@.len() && i != cur ==> (#[trigger] final(c).blocks@[i]).instructions@
                == old(c).blocks@[i].instructions@,
        final(ctx).vars_view() == old(ctx).vars_view(),
        final(ctx).next_register >= old(ctx).next_register,
    decreases *es,
{
    let mut regs: Vec<VirtualRegister> = Vec::new();
    let ghost c0: CFG = *c;
    let mut i: usize = 0;
    while i < es.len()
        invariant
            i <= es@.len(),
            cur < c.blocks@.len(),
            lower_inv(*c, sigs),
            blocks_extended(c0, *c),
            c.blocks@.len() == c0.blocks@.len(),
            c0 == *old(c),
            forall|k: int|
                0 <= k < c0.blocks@.len() ==> (#[trigger] c.blocks@[k]).terminator == c0.blocks@[k].terminator
                    && c.blocks@[k].statements@ == c0.blocks@[k].statements@,
            forall|k: int|
                0 <= k < c0.blocks@.len() && k != cur ==> (#[trigger] c.blocks@[k]).instructions@
                    == c0.blocks@[k].instructions@,
            ctx.vars_view() == old(ctx).vars_view(),
            ctx.next_register >= old(ctx).next_register,
        decreases es@.len() - i,
    {
        let ghost cpre: CFG = *c;
        match lower_expression(ctx, c, cur, &es[i], peripherals, Ghost(sigs)) {
            Ok(reg) => {
                regs.push(reg);
            },
            Err(err) => {
                proof {
                    lemma_blocks_extended_trans(c0, cpre, *c);
                }
                return Err(err);
            },
        }
        proof {
            lemma_blocks_extended_trans(c0, cpre, *c);
        }
        i = i + 1;
    }
    Ok(regs)
}

} // verus!

verus! {

/// One machine instruction materialising parameter `k` into the register
/// with the same index.
pub open spec fn is_movarg_instr(i: Instruction, k: int) -> bool {
    &&& i.operation matches Op::MovArg(n) && n == k
    &&& i.destination == Some(VirtualRegister { id: k as usize })
    &&& i.args@.len() == 0
}

/// Lowers one surface statement into the open block `cur`, returning the
/// block in which lowering continues. Among the blocks that already
/// existed, only `cur`'s terminator may be set; the continuation block is
/// open.
pub fn lower_statement(
    ctx: &mut Context,
    c: &mut CFG,
    cur: BlockId,
    stmt: &ast::Statement,
    signatures: &SignatureMap,
    peripherals: &Vec<ast::Peripheral>,
) -> (r: Result<Option<BlockId>, LowerError>)
    requires
        cur < old(c).blocks@.len(),
        lower_inv(*old(c), signatures@),
        old(c).blocks@[cur as int].terminator is Unset,
    ensures
        lower_inv(*final(c), signatures@),
        blocks_extended(*old(c), *final(c)),
        forall|i: int|
            0 <= i < old(c).blocks@.len() && i != cur ==> (#[trigger] final(c).blocks@[i]).terminator
                == old(c).blocks@[i].terminator,
        match r {
            Ok(cont) => match cont {
                Some(cur2) => cur2 < final(c).blocks@.len() && final(c).blocks@[cur2 as int].terminator is Unset && (cur2 == cur || cur2 >= old(c).blocks@.len()),
                None => !(final(c).blocks@[cur as int].terminator is Unset),
            },
            Err(_) => true,
        },
        (stmt matches ast::Statement::If { .. } && r is Ok) ==> {
            &&& final(c).blocks@.len() >= old(c).blocks@.len() + 3
            &&& final(c).blocks@[cur as int].terminator matches Terminator::Branch {
                cond: _,
                then_block,
                else_block,
            } && then_block == old(c).blocks@.len() && else_block == old(c).blocks@.len() + 1
            &&& r matches Ok(cont) && cont matches Some(m) && m == old(c).blocks@.len() + 2
        },
        (stmt matches ast::Statement::While { .. } && r is Ok) ==> {
            &&& final(c).blocks@.len() >= old(c).blocks@.len() + 3
            &&& final(c).blocks@[cur as int].terminator matches Terminator::Jump(h) && h == old(c).blocks@.len()
            &&& final(c).blocks@[old(c).blocks@.len() as int].terminator
                matches Terminator::Branch { cond: _, then_block, else_block } && then_block == old(c).blocks@.len() + 1 && else_block == old(c).blocks@.len() + 2
            &&& r matches Ok(cont) && cont matches Some(m) && m == old(c).blocks@.len() + 2
        },
        r is Ok ==> (forall|i: int|
            0 <= i < old(c).blocks@.len() && i != cur ==> (#[trigger] final(c).blocks@[i]).statements@
                == old(c).blocks@[i].statements@),
        r is Ok ==> match expected_sem_act(*stmt, signatures@) {
            Some(act) => final(c).blocks@[cur as int].statements@.len() == old(c).blocks@[cur as int].statements@.len() + 1
                && sem_act(final(c).blocks@[cur as int].statements@.last()) == act,
            None => final(c).blocks@[cur as int].statements@ == old(c).blocks@[cur as int].statements@,
        },
        (stmt_plain(*stmt) && r is Ok) ==> (r matches Ok(cont) && cont == Some(cur))
            && final(c).blocks@.len() == old(c).blocks@.len(),
    decreases *stmt,
{
    match stmt {
        ast::Statement::Let { var_name, value } => {
            let v = match lower_expression(ctx, c, cur, value, peripherals, Ghost(signatures@)) {
                Ok(v) => v,
                Err(err) => {
                    return Err(err);
                },
            };
            let ghost c1: CFG = *c;
            ctx.bind_register(var_name, v);
            push_sem(
                c,
                cur,
                Statement::Let { var_name: var_name.clone(), value: clone_expr(value) },
                Ghost(signatures@),
            );
            proof {
                lemma_blocks_extended_trans(*old(c), c1, *c);
            }
            Ok(Some(cur))
        },
        ast::Statement::Assign { var_name, value } => {
            let v = match lower_expression(ctx, c, cur, value, peripherals, Ghost(signatures@)) {
                Ok(v) => v,
                Err(err) => {
                    return Err(err);
                },
            };
            let ghost c1: CFG = *c;
            let target = match ctx.get_register(var_name) {
                Some(t) => t,
                None => {
                    return Err(LowerError::UnboundVariable { name: var_name.clone() });
                },
            };
            emit(c, cur, Instruction::new(Op::Mov, Some(target), vec![v]), Ghost(signatures@));
            let ghost c2: CFG = *c;
            push_sem(
                c,
                cur,
                Statement::Assign { var_name: var_name.clone(), value: clone_expr(value) },
                Ghost(signatures@),
            );
            proof {
                lemma_blocks_extended_trans(c1, c2, *c);
                lemma_blocks_extended_trans(*old(c), c1, *c);
            }
            Ok(Some(cur))
        },
        ast::Statement::Expr { expr } => {
            match lower_expression(ctx, c, cur, expr, peripherals, Ghost(signatures@)) {
                Ok(_) => {},
                Err(err) => {
                    return Err(err);
                },
            }
            let ghost c1: CFG = *c;
            let sem: Statement = match expr {
                ast::Expr::FnCall { name, args: _ } => {
                    match signatures.get(name) {
                        Some(sig) => Statement::PeripheralDriverCall {
                            function: name.clone(),
                            peripheral: sig.peripheral.clone(),
                            from_state: sig.input_state.clone(),
                            to_state: sig.output_state.clone(),
                        },
                        None => Statement::Expr { expr: clone_expr(expr) },
                    }
                },
                _ => Statement::Expr { expr: clone_expr(expr) },
            };
            proof {
                assert(expected_sem_act(*stmt, signatures@) == Some(sem_act(sem))) by {
                    match expr {
                        ast::Expr::FnCall { name, args: _ } => {
                            match sem {
                                Statement::Expr { expr: cloned } => {
                                    assert(expr_fncall_name(cloned) == Some(name@));
                                    match cloned {
                                        ast::Expr::FnCall { .. } => {},
                                        _ => {
                                            assert(false);
                                        },
                                    }
                                },
                                _ => {},
                            }
                        },
                        _ => {
                            match sem {
                                Statement::Expr { expr: cloned } => {
                                    assert(expr_fncall_name(cloned) == expr_fncall_name(*expr));
                                    match cloned {
                                        ast::Expr::FnCall { .. } => {
                                            assert(false);
                                        },
                                        _ => {},
                                    }
                                },
                                _ => {
                                    assert(false);
                                },
                            }
                        },
                    }
                }
            }
            push_sem(c, cur, sem, Ghost(signatures@));
            proof {
                lemma_blocks_extended_trans(*old(c), c1, *c);
            }
            Ok(Some(cur))
        },
        ast::Statement::Return { expr } => {
            match expr {
                Some(e) => {
                    let v = match lower_expression(ctx, c, cur, e, peripherals, Ghost(signatures@)) {
                        Ok(v) => v,
                        Err(err) => {
                            return Err(err);
                        },
                    };
                    let ghost c1: CFG = *c;
                    set_term(c, cur, Terminator::Return(Some(v)), Ghost(signatures@));
                    proof {
                        lemma_blocks_extended_trans(*old(c), c1, *c);
                    }
                },
                None => {
                    set_term(c, cur, Terminator::Return(None), Ghost(signatures@));
                },
            }
            Ok(None)
        },
        ast::Statement::If { cond, then_block, else_block } => {
            let cond_reg = match lower_expression(ctx, c, cur, cond, peripherals, Ghost(signatures@)) {
                Ok(v) => v,
                Err(err) => {
                    return Err(err);
                },
            };
            let ghost c1: CFG = *c;
            let then_bb = fresh_block(c, Ghost(signatures@));
            let ghost c1a: CFG = *c;
            let else_bb = fresh_block(c, Ghost(signatures@));
            let ghost c1b: CFG = *c;
            let merge_bb = fresh_block(c, Ghost(signatures@));
            let ghost c2: CFG = *c;
            set_term(
                c,
                cur,
                Terminator::Branch { cond: cond_reg, then_block: then_bb, else_block: else_bb },
                Ghost(signatures@),
            );
            let ghost c3: CFG = *c;
            let t_end = match lower_block(ctx, c, then_bb, then_block, signatures, peripherals) {
                Ok(b) => b,
                Err(err) => {
                    proof {
                        lemma_blocks_extended_trans(c2, c3, *c);
                        lemma_blocks_extended_trans(c1b, c2, *c);
                        lemma_blocks_extended_trans(c1a, c1b, *c);
                        lemma_blocks_extended_trans(c1, c1a, *c);
                        lemma_blocks_extended_trans(*old(c), c1, *c);
                        assert forall|i: int|
                            0 <= i < old(c).blocks@.len() && i != cur implies (#[trigger] c.blocks@[
                            i]).terminator == old(c).blocks@[i].terminator by {
                            assert(c3.blocks@[i].terminator == c2.blocks@[i].terminator);
                            assert(c.blocks@[i].terminator == c3.blocks@[i].terminator);
                        }
                    }
                    return Err(err);
                },
            };
            let ghost c4: CFG = *c;
            match t_end {
                Some(t) => {
                    set_term(c, t, Terminator::Jump(merge_bb), Ghost(signatures@));
                },
                None => {},
            }
            let ghost c5: CFG = *c;
            let e_end = match lower_block(ctx, c, else_bb, else_block, signatures, peripherals) {
                Ok(b) => b,
                Err(err) => {
                    proof {
                        lemma_blocks_extended_trans(c4, c5, *c);
                        lemma_blocks_extended_trans(c3, c4, *c);
                        lemma_blocks_extended_trans(c2, c3, *c);
                        lemma_blocks_extended_trans(c1b, c2, *c);
                        lemma_blocks_extended_trans(c1a, c1b, *c);
                        lemma_blocks_extended_trans(c1, c1a, *c);
                        lemma_blocks_extended_trans(*old(c), c1, *c);
                        assert forall|i: int|
                            0 <= i < old(c).blocks@.len() && i != cur implies (#[trigger] c.blocks@[
                            i]).terminator == old(c).blocks@[i].terminator by {
                            assert(c3.blocks@[i].terminator == c2.blocks@[i].terminator);
                            assert(c4.blocks@[i].terminator == c3.blocks@[i].terminator);
                            assert(c5.blocks@[i].terminator == c4.blocks@[i].terminator);
                            assert(c.blocks@[i].terminator == c5.blocks@[i].terminator);
                        }
                    }
                    return Err(err);
                },
            };
            let ghost c6: CFG = *c;
            match e_end {
                Some(t) => {
                    set_term(c, t, Terminator::Jump(merge_bb), Ghost(signatures@));
                },
                None => {},
            }
            proof {
                lemma_blocks_extended_trans(c5, c6, *c);
                lemma_blocks_extended_trans(c4, c5, *c);
                lemma_blocks_extended_trans(c3, c4, *c);
                lemma_blocks_extended_trans(c2, c3, *c);
                lemma_blocks_extended_trans(c1b, c2, *c);
                lemma_blocks_extended_trans(c1a, c1b, *c);
                lemma_blocks_extended_trans(c1, c1a, *c);
                lemma_blocks_extended_trans(*old(c), c1, *c);
                assert forall|i: int|
                    0 <= i < old(c).blocks@.len() && i != cur implies (#[trigger] c.blocks@[
                    i]).terminator == old(c).blocks@[i].terminator by {
                    assert(c3.blocks@[i].terminator == c2.blocks@[i].terminator);
                    assert(c4.blocks@[i].terminator == c3.blocks@[i].terminator);
                    assert(c5.blocks@[i].terminator == c4.blocks@[i].terminator);
                    assert(c6.blocks@[i].terminator == c5.blocks@[i].terminator);
                    assert(c.blocks@[i].terminator == c6.blocks@[i].terminator);
                }
                assert forall|i: int|
                    0 <= i < old(c).blocks@.len() implies (#[trigger] c.blocks@[i]).statements@
                    == old(c).blocks@[i].statements@ by {
                    assert(c1.blocks@[i].statements@ == old(c).blocks@[i].statements@);
                    assert(c1a.blocks@[i].statements@ == c1.blocks@[i].statements@);
                    assert(c1b.blocks@[i].statements@ == c1a.blocks@[i].statements@);
                    assert(c2.blocks@[i].statements@ == c1b.blocks@[i].statements@);
                    assert(c3.blocks@[i].statements@ == c2.blocks@[i].statements@);
                    assert(c4.blocks@[i].statements@ == c3.blocks@[i].statements@);
                    assert(c5.blocks@[i].statements@ == c4.blocks@[i].statements@);
                    assert(c6.blocks@[i].statements@ == c5.blocks@[i].statements@);
                    assert(c.blocks@[i].statements@ == c6.blocks@[i].statements@);
                }
                assert(c.blocks@[cur as int].terminator == (Terminator::Branch {
                    cond: cond_reg,
                    then_block: then_bb,
                    else_block: else_bb,
                })) by {
                    assert(c4.blocks@[cur as int].terminator == c3.blocks@[cur as int].terminator);
                    assert(c5.blocks@[cur as int].terminator == c4.blocks@[cur as int].terminator);
                    assert(c6.blocks@[cur as int].terminator == c5.blocks@[cur as int].terminator);
                    assert(c.blocks@[cur as int].terminator == c6.blocks@[cur as int].terminator);
                }
                assert(c.blocks@[merge_bb as int].terminator == c2.blocks@[merge_bb as int].terminator
                    || c.blocks@[merge_bb as int].terminator is Unset) by {
                    assert(c3.blocks@[merge_bb as int].terminator == c2.blocks@[
                    merge_bb as int].terminator);
                    assert(c4.blocks@[merge_bb as int].terminator == c3.blocks@[
                    merge_bb as int].terminator);
                    assert(c5.blocks@[merge_bb as int].terminator == c4.blocks@[
                    merge_bb as int].terminator);
                    assert(c6.blocks@[merge_bb as int].terminator == c5.blocks@[
                    merge_bb as int].terminator);
                    assert(c.blocks@[merge_bb as int].terminator == c6.blocks@[
                    merge_bb as int].terminator);
                }
            }
            Ok(Some(merge_bb))
        },
        ast::Statement::While { cond, body } => {
            let header = fresh_block(c, Ghost(signatures@));
            let ghost ca: CFG = *c;
            let body_bb = fresh_block(c, Ghost(signatures@));
            let ghost cb: CFG = *c;
            let exit_bb = fresh_block(c, Ghost(signatures@));
            let ghost c1: CFG = *c;
            set_term(c, cur, Terminator::Jump(header), Ghost(signatures@));
            let ghost c2: CFG = *c;
            let cond_reg = match lower_expression(ctx, c, header, cond, peripherals, Ghost(signatures@)) {
                Ok(v) => v,
                Err(err) => {
                    proof {
                        lemma_blocks_extended_trans(c1, c2, *c);
                        lemma_blocks_extended_trans(cb, c1, *c);
                        lemma_blocks_extended_trans(ca, cb, *c);
                        lemma_blocks_extended_trans(*old(c), ca, *c);
                        assert forall|i: int|
                            0 <= i < old(c).blocks@.len() && i != cur implies (#[trigger] c.blocks@[
                            i]).terminator == old(c).blocks@[i].terminator by {
                            assert(c2.blocks@[i].terminator == c1.blocks@[i].terminator);
                            assert(c.blocks@[i].terminator == c2.blocks@[i].terminator);
                        }
                    }
                    return Err(err);
                },
            };
            let ghost c3: CFG = *c;
            set_term(
                c,
                header,
                Terminator::Branch { cond: cond_reg, then_block: body_bb, else_block: exit_bb },
                Ghost(signatures@),
            );
            let ghost c4: CFG = *c;
            let b_end = match lower_block(ctx, c, body_bb, body, signatures, peripherals) {
                Ok(b) => b,
                Err(err) => {
                    proof {
                        lemma_blocks_extended_trans(c3, c4, *c);
                        lemma_blocks_extended_trans(c2, c3, *c);
                        lemma_blocks_extended_trans(c1, c2, *c);
                        lemma_blocks_extended_trans(cb, c1, *c);
                        lemma_blocks_extended_trans(ca, cb, *c);
                        lemma_blocks_extended_trans(*old(c), ca, *c);
                        assert forall|i: int|
                            0 <= i < old(c).blocks@.len() && i != cur implies (#[trigger] c.blocks@[
                            i]).terminator == old(c).blocks@[i].terminator by {
                            assert(c2.blocks@[i].terminator == c1.blocks@[i].terminator);
                            assert(c3.blocks@[i].terminator == c2.blocks@[i].terminator);
                            assert(c4.blocks@[i].terminator == c3.blocks@[i].terminator);
                            assert(c.blocks@[i].terminator == c4.blocks@[i].terminator);
                        }
                    }
                    return Err(err);
                },
            };
            let ghost c5: CFG = *c;
            match b_end {
                Some(b) => {
                    set_term(c, b, Terminator::Jump(header), Ghost(signatures@));
                },
                None => {},
            }
            proof {
                lemma_blocks_extended_trans(c4, c5, *c);
                lemma_blocks_extended_trans(c3, c4, *c);
                lemma_blocks_extended_trans(c2, c3, *c);
                lemma_blocks_extended_trans(c1, c2, *c);
                lemma_blocks_extended_trans(cb, c1, *c);
                lemma_blocks_extended_trans(ca, cb, *c);
                lemma_blocks_extended_trans(*old(c), ca, *c);
                assert forall|i: int|
                    0 <= i < old(c).blocks@.len() && i != cur implies (#[trigger] c.blocks@[
                    i]).terminator == old(c).blocks@[i].terminator by {
                    assert(c2.blocks@[i].terminator == c1.blocks@[i].terminator);
                    assert(c3.blocks@[i].terminator == c2.blocks@[i].terminator);
                    assert(c4.blocks@[i].terminator == c3.blocks@[i].terminator);
                    assert(c5.blocks@[i].terminator == c4.blocks@[i].terminator);
                    assert(c.blocks@[i].terminator == c5.blocks@[i].terminator);
                }
                assert forall|i: int|
                    0 <= i < old(c).blocks@.len() implies (#[trigger] c.blocks@[i]).statements@
                    == old(c).blocks@[i].statements@ by {
                    assert(ca.blocks@[i].statements@ == old(c).blocks@[i].statements@);
                    assert(cb.blocks@[i].statements@ == ca.blocks@[i].statements@);
                    assert(c1.blocks@[i].statements@ == cb.blocks@[i].statements@);
                    assert(c2.blocks@[i].statements@ == c1.blocks@[i].statements@);
                    assert(c3.blocks@[i].statements@ == c2.blocks@[i].statements@);
                    assert(c4.blocks@[i].statements@ == c3.blocks@[i].statements@);
                    assert(c5.blocks@[i].statements@ == c4.blocks@[i].statements@);
                    assert(c.blocks@[i].statements@ == c5.blocks@[i].statements@);
                }
                assert(c.blocks@[cur as int].terminator == Terminator::Jump(header)) by {
                    assert(c3.blocks@[cur as int].terminator == c2.blocks@[cur as int].terminator);
                    assert(c4.blocks@[cur as int].terminator == c3.blocks@[cur as int].terminator);
                    assert(c5.blocks@[cur as int].terminator == c4.blocks@[cur as int].terminator);
                    assert(c.blocks@[cur as int].terminator == c5.blocks@[cur as int].terminator);
                }
                assert(c.blocks@[header as int].terminator == (Terminator::Branch {
                    cond: cond_reg,
                    then_block: body_bb,
                    else_block: exit_bb,
                })) by {
                    assert(c5.blocks@[header as int].terminator == c4.blocks@[
                    header as int].terminator);
                    assert(c.blocks@[header as int].terminator == c5.blocks@[
                    header as int].terminator);
                }
                assert(c.blocks@[exit_bb as int].terminator is Unset) by {
                    assert(c2.blocks@[exit_bb as int].terminator == c1.blocks@[
                    exit_bb as int].terminator);
                    assert(c3.blocks@[exit_bb as int].terminator == c2.blocks@[
                    exit_bb as int].terminator);
                    assert(c4.blocks@[exit_bb as int].terminator == c3.blocks@[
                    exit_bb as int].terminator);
                    assert(c5.blocks@[exit_bb as int].terminator == c4.blocks@[
                    exit_bb as int].terminator);
                    assert(c.blocks@[exit_bb as int].terminator == c5.blocks@[
                    exit_bb as int].terminator);
                }
            }
            Ok(Some(exit_bb))
        },
        ast::Statement::PeripheralWrite { peripheral, register, value } => {
            let v = match lower_expression(ctx, c, cur, value, peripherals, Ghost(signatures@)) {
                Ok(v) => v,
                Err(err) => {
                    return Err(err);
                },
            };
            let ghost c1: CFG = *c;
            let addr = match resolve_address(peripherals, peripheral, register) {
                Ok(a) => a,
                Err(err) => {
                    return Err(err);
                },
            };
            let a = match ctx.new_register() {
                Ok(d) => d,
                Err(err) => {
                    return Err(err);
                },
            };
            emit(c, cur, Instruction::new(Op::LoadAddr(addr), Some(a), vec![]), Ghost(signatures@));
            let ghost c2: CFG = *c;
            emit(c, cur, Instruction::new(Op::StoreWord, None, vec![a, v]), Ghost(signatures@));
            let ghost c3: CFG = *c;
            push_sem(
                c,
                cur,
                Statement::PeripheralWrite {
                    peripheral: peripheral.clone(),
                    register: register.clone(),
                },
                Ghost(signatures@),
            );
            proof {
                lemma_blocks_extended_trans(c2, c3, *c);
                lemma_blocks_extended_trans(c1, c2, *c);
                lemma_blocks_extended_trans(*old(c), c1, *c);
            }
            Ok(Some(cur))
        },
    }
}

/// Lowers a statement sequence in order, threading the open block. A
/// statement that ends every path (a `return`) closes the block; statements
/// after it, being unreachable, are lowered into a fresh container block so
/// their names and calls are still checked.
pub fn lower_block(
    ctx: &mut Context,
    c: &mut CFG,
    cur: BlockId,
    stmts: &Vec<ast::Statement>,
    signatures: &SignatureMap,
    peripherals: &Vec<ast::Peripheral>,
) -> (r: Result<Option<BlockId>, LowerError>)
    requires
        cur < old(c).blocks@.len(),
        lower_inv(*old(c), signatures@),
        old(c).blocks@[cur as int].terminator is Unset,
    ensures
        lower_inv(*final(c), signatures@),
        blocks_extended(*old(c), *final(c)),
        forall|i: int|
            0 <= i < old(c).blocks@.len() && i != cur ==> (#[trigger] final(c).blocks@[i]).terminator
                == old(c).blocks@[i].terminator,
        stmts@.len() == 0 ==> *final(c) == *old(c) && (r matches Ok(cont) && cont == Some(cur)),
        match r {
            Ok(cont) => match cont {
                Some(cur2) => cur2 < final(c).blocks@.len() && final(c).blocks@[cur2 as int].terminator is Unset && (cur2 == cur || cur2 >= old(c).blocks@.len()),
                None => true,
            },
            Err(_) => true,
        },
        r is Ok ==> (forall|i: int|
            0 <= i < old(c).blocks@.len() && i != cur ==> (#[trigger] final(c).blocks@[i]).statements@
                == old(c).blocks@[i].statements@),
        (all_plain(stmts@) && r is Ok) ==> (r matches Ok(cont) && cont == Some(cur))
            && final(c).blocks@.len() == old(c).blocks@.len() && sem_acts(
            final(c).blocks@[cur as int].statements@,
        ) == sem_acts(old(c).blocks@[cur as int].statements@) + plain_acts(stmts@, signatures@),
    decreases *stmts,
{
    let ghost c0: CFG = *c;
    proof {
        assert(plain_acts(stmts@.take(0), signatures@) =~= Seq::<SemAct>::empty());
        assert(sem_acts(c.blocks@[cur as int].statements@) + Seq::<SemAct>::empty() =~= sem_acts(
            c.blocks@[cur as int].statements@,
        ));
    }
    let mut cur_opt: Option<BlockId> = Some(cur);
    let mut i: usize = 0;
    while i < stmts.len()
        invariant
            i <= stmts@.len(),
            i == 0 ==> *c == c0 && cur_opt == Some(cur),
            lower_inv(*c, signatures@),
            blocks_extended(c0, *c),
            c0 == *old(c),
            cur < c0.blocks@.len(),
            match cur_opt {
                Some(b) => b < c.blocks@.len() && c.blocks@[b as int].terminator is Unset && (b
                    == cur || b >= c0.blocks@.len()),
                None => true,
            },
            forall|k: int|
                0 <= k < c0.blocks@.len() && k != cur ==> (#[trigger] c.blocks@[k]).terminator
                    == c0.blocks@[k].terminator,
            forall|k: int|
                0 <= k < c0.blocks@.len() && k != cur ==> (#[trigger] c.blocks@[k]).statements@
                    == c0.blocks@[k].statements@,
            all_plain(stmts@) ==> cur_opt == Some(cur) && c.blocks@.len() == c0.blocks@.len()
                && sem_acts(c.blocks@[cur as int].statements@) == sem_acts(
                c0.blocks@[cur as int].statements@,
            ) + plain_acts(stmts@.take(i as int), signatures@),
        decreases stmts@.len() - i,
    {
        let ghost cpre: CFG = *c;
        let current: BlockId = match cur_opt {
            Some(b) => b,
            None => {
                // dead code after a terminated path: give it its own block
                fresh_block(c, Ghost(signatures@))
            },
        };
        let ghost cmid: CFG = *c;
        proof {
            lemma_blocks_extended_trans(c0, cpre, *c);
        }
        match lower_statement(ctx, c, current, &stmts[i], signatures, peripherals) {
            Ok(next) => {
                cur_opt = next;
            },
            Err(err) => {
                proof {
                    lemma_blocks_extended_trans(cpre, cmid, *c);
                    lemma_blocks_extended_trans(c0, cpre, *c);
                    assert forall|k: int|
                        0 <= k < c0.blocks@.len() && k != cur implies (#[trigger] c.blocks@[
                    k]).terminator == c0.blocks@[k].terminator by {
                        assert(cmid.blocks@[k].terminator == cpre.blocks@[k].terminator);
                        if k != current {
                            assert(c.blocks@[k].terminator == cmid.blocks@[k].terminator);
                        }
                    }
                }
                return Err(err);
            },
        }
        proof {
            lemma_blocks_extended_trans(cpre, cmid, *c);
            lemma_blocks_extended_trans(c0, cpre, *c);
            assert forall|k: int|
                0 <= k < c0.blocks@.len() && k != cur implies (#[trigger] c.blocks@[k]).terminator
                == c0.blocks@[k].terminator by {
                assert(cmid.blocks@[k].terminator == cpre.blocks@[k].terminator);
                if k != current {
                    assert(c.blocks@[k].terminator == cmid.blocks@[k].terminator);
                }
            }
            assert forall|k: int|
                0 <= k < c0.blocks@.len() && k != cur implies (#[trigger] c.blocks@[k]).statements@
                == c0.blocks@[k].statements@ by {
                assert(cmid.blocks@[k].statements@ == cpre.blocks@[k].statements@);
                if k != current {
                    assert(c.blocks@[k].statements@ == cmid.blocks@[k].statements@);
                }
            }
            if all_plain(stmts@) {
                assert(stmt_plain(stmts@[i as int]));
                assert(current == cur);
                assert(cmid == cpre);
                let act = expected_sem_act(stmts@[i as int], signatures@)->Some_0;
                let s_old = cpre.blocks@[cur as int].statements@;
                let s_new = c.blocks@[cur as int].statements@;
                assert(s_new.len() == s_old.len() + 1);
                assert(sem_act(s_new.last()) == act);
                assert(s_old.is_prefix_of(s_new));
                assert forall|j: int| 0 <= j < s_old.len() implies #[trigger] s_new[j]
                    == s_old[j] by {
                    assert(s_new.subrange(0, s_old.len() as int)[j] == s_new[j]);
                }
                assert(sem_acts(s_new) =~= sem_acts(s_old).push(act));
                assert(plain_acts(stmts@.take(i + 1), signatures@) =~= plain_acts(
                    stmts@.take(i as int),
                    signatures@,
                ).push(act)) by {
                    assert(forall|j: int|
                        0 <= j < i ==> #[trigger] stmts@.take(i + 1)[j] == stmts@.take(i as int)[j]);
                    assert(stmts@.take(i + 1)[i as int] == stmts@[i as int]);
                }
                assert(sem_acts(s_old) == sem_acts(c0.blocks@[cur as int].statements@)
                    + plain_acts(stmts@.take(i as int), signatures@));
                assert(sem_acts(c.blocks@[cur as int].statements@) =~= sem_acts(
                    c0.blocks@[cur as int].statements@,
                ) + plain_acts(stmts@.take(i + 1), signatures@));
            }
        }
        i = i + 1;
    }
    proof {
        if all_plain(stmts@) {
            assert(stmts@.take(stmts@.len() as int) =~= stmts@);
        }
    }
    Ok(cur_opt)
}

} // verus!

verus! {

/// Lowers one function to a well-formed control-flow graph entered at block
/// 0: the parameters are materialised first (`MovArg(k)` into register `k`),
/// the body is lowered with twin emission, and any block still open at the
/// end receives the implicit `Return(None)` — in particular, an empty body
/// yields the single entry block terminated by `Return(None)`.
pub fn lower_function(
    func: &ast::Function,
    signatures: &SignatureMap,
    peripherals: &Vec<ast::Peripheral>,
) -> (r: Result<CFG, LowerError>)
    ensures
        match r {
            Ok(c) => {
                &&& cfg_wf(c)
                &&& cfg_driver_faithful(c, signatures@)
                &&& (func.body@.len() == 0 ==> c.blocks@.len() == 1 && c.blocks@[0].terminator
                    == Terminator::Return(None) && c.blocks@[0].statements@.len() == 0)
                &&& (all_plain(func.body@) ==> c.blocks@.len() == 1 && sem_acts(
                    c.blocks@[0].statements@,
                ) == plain_acts(func.body@, signatures@))
                &&& func.args@.len() <= c.blocks@[0].instructions@.len()
                &&& forall|k: int|
                    0 <= k < func.args@.len() ==> is_movarg_instr(
                        #[trigger] c.blocks@[0].instructions@[k],
                        k,
                    )
            },
            Err(_) => true,
        },
{
    let mut c = CFG::new();
    let mut ctx = Context::new();
    let entry = c.add_block();
    proof {
        assert(lower_inv(c, signatures@));
    }

    let mut k: usize = 0;
    while k < func.args.len()
        invariant
            k <= func.args@.len(),
            lower_inv(c, signatures@),
            c.blocks@.len() == 1,
            ctx.next_register == k,
            c.blocks@[0].terminator is Unset,
            c.blocks@[0].statements@.len() == 0,
            c.blocks@[0].instructions@.len() == k,
            forall|m: int|
                0 <= m < k ==> is_movarg_instr(#[trigger] c.blocks@[0].instructions@[m], m),
        decreases func.args@.len() - k,
    {
        let reg = match ctx.new_register() {
            Ok(d) => d,
            Err(err) => {
                return Err(err);
            },
        };
        ctx.bind_register(&func.args[k].0, reg);
        emit(&mut c, 0, Instruction::new(Op::MovArg(k), Some(reg), vec![]), Ghost(signatures@));
        k = k + 1;
    }

    let ghost c_params: CFG = c;
    match lower_block(&mut ctx, &mut c, entry, &func.body, signatures, peripherals) {
        Ok(_) => {},
        Err(err) => {
            return Err(err);
        },
    }

    let ghost c_body: CFG = c;
    let mut b: usize = 0;
    while b < c.blocks.len()
        invariant
            b <= c.blocks@.len(),
            lower_inv(c, signatures@),
            blocks_extended(c_body, c),
            c.blocks@.len() == c_body.blocks@.len(),
            forall|i: int| 0 <= i < b ==> !((#[trigger] c.blocks@[i]).terminator is Unset),
            forall|i: int|
                0 <= i < c.blocks@.len() ==> ((#[trigger] c.blocks@[i]).terminator
                    == c_body.blocks@[i].terminator || c.blocks@[i].terminator
                    == Terminator::Return(None)),
            forall|i: int|
                0 <= i < c.blocks@.len() ==> (#[trigger] c.blocks@[i]).statements@
                    == c_body.blocks@[i].statements@,
        decreases c.blocks@.len() - b,
    {
        let ghost cpre: CFG = c;
        let is_unset = matches!(c.block(b).terminator, Terminator::Unset);
        if is_unset {
            set_term(&mut c, b, Terminator::Return(None), Ghost(signatures@));
        }
        proof {
            lemma_blocks_extended_trans(c_body, cpre, c);
            assert forall|i: int| 0 <= i < b + 1 implies !((#[trigger] c.blocks@[i]).terminator
                is Unset) by {
                if i < b {
                    assert(c.blocks@[i].terminator == cpre.blocks@[i].terminator);
                }
            }
            assert forall|i: int| 0 <= i < c.blocks@.len() implies ((#[trigger] c.blocks@[
            i]).terminator == c_body.blocks@[i].terminator || c.blocks@[i].terminator
                == Terminator::Return(None)) by {
                if i != b {
                    assert(c.blocks@[i].terminator == cpre.blocks@[i].terminator);
                }
            }
            assert forall|i: int| 0 <= i < c.blocks@.len() implies (#[trigger] c.blocks@[
            i]).statements@ == c_body.blocks@[i].statements@ by {
                assert(c.blocks@[i].statements@ == cpre.blocks@[i].statements@);
            }
        }
        b = b + 1;
    }

    proof {
        assert(cfg_terminators_set(c));
        assert(cfg_wf(c));
        if func.body@.len() == 0 {
            assert(c.blocks@.len() == 1);
            assert(c.blocks@[0].terminator == Terminator::Return(None));
            assert(c.blocks@[0].statements@.len() == 0);
        }
        if all_plain(func.body@) {
            assert(c_params.blocks@[0].statements@.len() == 0);
            assert(sem_acts(c_params.blocks@[0].statements@) + plain_acts(
                func.body@,
                signatures@,
            ) =~= plain_acts(func.body@, signatures@));
            assert(c.blocks@[0].statements@ == c_body.blocks@[0].statements@);
            assert(sem_acts(c.blocks@[0].statements@) =~= plain_acts(func.body@, signatures@));
        }
        assert(c_params.blocks@[0].instructions@.is_prefix_of(c_body.blocks@[0].instructions@));
        assert(c_body.blocks@[0].instructions@.is_prefix_of(c.blocks@[0].instructions@));
        assert forall|m: int| 0 <= m < func.args@.len() implies is_movarg_instr(
            #[trigger] c.blocks@[0].instructions@[m],
            m,
        ) by {
            assert(c_body.blocks@[0].instructions@[m] == c_params.blocks@[0].instructions@[m]);
            assert(c.blocks@[0].instructions@[m] == c_body.blocks@[0].instructions@[m]);
        }
    }
    Ok(c)
}

/// Lowers every function of a program, in order, to its graph under its
/// name. All graphs are well-formed and their semantic streams faithful to
/// the program's signature map.
pub fn lower(prog: &ast::Program) -> (r: Result<Vec<(String, CFG)>, LowerError>)
    ensures
        match r {
            Ok(v) => {
                &&& v@.len() == prog.functions@.len()
                &&& forall|i: int|
                    0 <= i < v@.len() ==> {
                        &&& (#[trigger] v@[i]).0@ == prog.functions@[i].name@
                        &&& cfg_wf(v@[i].1)
                        &&& cfg_driver_faithful(v@[i].1, spec_build_sigs(prog.functions@))
                        &&& (prog.functions@[i].body@.len() == 0 ==> v@[i].1.blocks@.len() == 1
                            && v@[i].1.blocks@[0].terminator == Terminator::Return(None)
                            && v@[i].1.blocks@[0].statements@.len() == 0)
                        &&& (all_plain(prog.functions@[i].body@) ==> v@[i].1.blocks@.len() == 1
                            && sem_acts(v@[i].1.blocks@[0].statements@) == plain_acts(
                            prog.functions@[i].body@,
                            spec_build_sigs(prog.functions@),
                        ))
                        &&& prog.functions@[i].args@.len() <= v@[i].1.blocks@[0].instructions@.len()
                        &&& forall|m: int|
                            0 <= m < prog.functions@[i].args@.len() ==> is_movarg_instr(
                                #[trigger] v@[i].1.blocks@[0].instructions@[m],
                                m,
                            )
                    }
            },
            Err(_) => true,
        },
{
    let signatures = crate::typestate::build_signature_map(prog);
    let mut out: Vec<(String, CFG)> = Vec::new();
    let mut i: usize = 0;
    while i < prog.functions.len()
        invariant
            i <= prog.functions@.len(),
            out@.len() == i,
            signatures@ == spec_build_sigs(prog.functions@),
            forall|j: int|
                0 <= j < i ==> {
                    &&& (#[trigger] out@[j]).0@ == prog.functions@[j].name@
                    &&& cfg_wf(out@[j].1)
                    &&& cfg_driver_faithful(out@[j].1, spec_build_sigs(prog.functions@))
                    &&& (prog.functions@[j].body@.len() == 0 ==> out@[j].1.blocks@.len() == 1
                        && out@[j].1.blocks@[0].terminator == Terminator::Return(None)
                        && out@[j].1.blocks@[0].statements@.len() == 0)
                    &&& (all_plain(prog.functions@[j].body@) ==> out@[j].1.blocks@.len() == 1
                        && sem_acts(out@[j].1.blocks@[0].statements@) == plain_acts(
                        prog.functions@[j].body@,
                        spec_build_sigs(prog.functions@),
                    ))
                    &&& prog.functions@[j].args@.len() <= out@[j].1.blocks@[0].instructions@.len()
                    &&& forall|m: int|
                        0 <= m < prog.functions@[j].args@.len() ==> is_movarg_instr(
                            #[trigger] out@[j].1.blocks@[0].instructions@[m],
                            m,
                        )
                },
        decreases prog.functions@.len() - i,
    {
        let func = &prog.functions[i];
        let c = match lower_function(func, &signatures, &prog.peripherals) {
            Ok(c) => c,
            Err(err) => {
                return Err(err);
            },
        };
        out.push((func.name.clone(), c));
        i = i + 1;
    }
    Ok(out)
}

} // verus!
