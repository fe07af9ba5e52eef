//! The typestate verifier: an abstract interpretation over each function's
//! control-flow graph that tracks the state environment (peripheral name to
//! current state) and rejects any driver call made outside its declared
//! input state, any branch whose arms disagree on a peripheral's state, and
//! any driver whose body does not establish its declared output state.
//!
//! Loops are handled through the visitation set: a back edge into a block
//! already on the current path ends that path with Σ unchanged, an
//! approximation that does not check that a loop body preserves Σ. The
//! `LoopChangesState` error is reserved for a fixed-point refinement of the
//! walk.
//!
//! The whole algorithm is mirrored by spec functions (`spec_walk` and the
//! functions around it); every executable function is proved to return
//! exactly what its mirror computes. `lemma_walk_path_sound` states what
//! acceptance means: along every duplicate-free path from the entry, every
//! driver call site is reached with its peripheral in the declared input
//! state.

use vstd::prelude::*;
use vstd::string::StringExecFns;
use crate::ast;
use crate::cfg::{cfg_targets_valid, BlockId, CFG, Statement, Terminator};
use crate::liveness::spec_successors;
use crate::env::{assoc_find, assoc_set, StateEnv, IdSet};

verus! {

/// The model of a typestate signature.
pub struct SigV {
    pub peripheral: Seq<char>,
    pub input_state: Seq<char>,
    pub output_state: Seq<char>,
}

impl View for ast::TypeState {
    type V = SigV;

    open spec fn view(&self) -> SigV {
        SigV {
            peripheral: self.peripheral@,
            input_state: self.input_state@,
            output_state: self.output_state@,
        }
    }
}

/// An error found by the typestate verifier.
#[derive(Debug)]
pub enum TypestateError {
    /// A driver was called while its peripheral was not in the declared
    /// input state.
    InvalidTransition {
        func_name: String,
        called_from: String,
        peripheral: String,
        expected_state: String,
        actual_state: String,
    },
    /// The two arms of a branch leave a peripheral in different states.
    BranchStateMismatch {
        func_name: String,
        peripheral: String,
        then_state: String,
        else_state: String,
    },
    /// A loop body changes a peripheral's state.
    LoopChangesState { func_name: String, peripheral: String, before: String, after: String },
    /// A driver's body derives an output state other than the declared one.
    WrongExitState { func_name: String, peripheral: String, expected: String, actual: String },
    /// A name was used where a declared peripheral was expected.
    UnknownPeripheral { func_name: String, name: String },
}

/// The model of a typestate error.
pub enum TsErrV {
    InvalidTransition {
        func_name: Seq<char>,
        called_from: Seq<char>,
        peripheral: Seq<char>,
        expected_state: Seq<char>,
        actual_state: Seq<char>,
    },
    BranchStateMismatch {
        func_name: Seq<char>,
        peripheral: Seq<char>,
        then_state: Seq<char>,
        else_state: Seq<char>,
    },
    LoopChangesState {
        func_name: Seq<char>,
        peripheral: Seq<char>,
        before: Seq<char>,
        after: Seq<char>,
    },
    WrongExitState {
        func_name: Seq<char>,
        peripheral: Seq<char>,
        expected: Seq<char>,
        actual: Seq<char>,
    },
    UnknownPeripheral { func_name: Seq<char>, name: Seq<char> },
}

impl View for TypestateError {
    type V = TsErrV;

    open spec fn view(&self) -> TsErrV {
        match self {
            TypestateError::InvalidTransition {
                func_name,
                called_from,
                peripheral,
                expected_state,
                actual_state,
            } => TsErrV::InvalidTransition {
                func_name: func_name@,
                called_from: called_from@,
                peripheral: peripheral@,
                expected_state: expected_state@,
                actual_state: actual_state@,
            },
            TypestateError::BranchStateMismatch { func_name, peripheral, then_state, else_state } => TsErrV::BranchStateMismatch {
                func_name: func_name@,
                peripheral: peripheral@,
                then_state: then_state@,
                else_state: else_state@,
            },
            TypestateError::LoopChangesState { func_name, peripheral, before, after } => TsErrV::LoopChangesState {
                func_name: func_name@,
                peripheral: peripheral@,
                before: before@,
                after: after@,
            },
            TypestateError::WrongExitState { func_name, peripheral, expected, actual } => TsErrV::WrongExitState {
                func_name: func_name@,
                peripheral: peripheral@,
                expected: expected@,
                actual: actual@,
            },
            TypestateError::UnknownPeripheral { func_name, name } => TsErrV::UnknownPeripheral {
                func_name: func_name@,
                name: name@,
            },
        }
    }
}

/// The one-line rendering of a typestate error.
pub open spec fn spec_render_ts_err(e: TsErrV) -> Seq<char> {
    match e {
        TsErrV::InvalidTransition {
            func_name,
            called_from,
            peripheral,
            expected_state,
            actual_state,
        } => "Call to '"@ + func_name + "' requires '"@ + peripheral + "' in state '"@
            + expected_state + "', but found '"@ + actual_state + "', called from '"@ + called_from
            + "'"@,
        TsErrV::BranchStateMismatch { func_name, peripheral, then_state, else_state } => "Branch in "@
            + func_name + " leaves '"@ + peripheral + "' in different states: then = '"@
            + then_state + "', else = '"@ + else_state + "'"@,
        TsErrV::LoopChangesState { func_name, peripheral, before, after } => "Loop in "@ + func_name
            + " changes state of '"@ + peripheral + "' from '"@ + before + "' to '"@ + after
            + "'"@,
        TsErrV::WrongExitState { func_name, peripheral, expected, actual } => "Function '"@
            + func_name + "' declares output state '"@ + expected + "' for '"@ + peripheral
            + "', but body produces '"@ + actual + "'"@,
        TsErrV::UnknownPeripheral { func_name, name } => "Unknown peripheral '"@ + name
            + "' in function '"@ + func_name + "'"@,
    }
}

impl TypestateError {
    /// Renders the error as the compiler's one-line diagnostic.
    pub fn render(&self) -> (r: String)
        ensures
            r@ == spec_render_ts_err(self@),
    {
        match self {
            TypestateError::InvalidTransition {
                func_name,
                called_from,
                peripheral,
                expected_state,
                actual_state,
            } => {
                let mut s: String = "Call to '".to_owned();
                s.append(func_name.as_str());
                s.append("' requires '");
                s.append(peripheral.as_str());
                s.append("' in state '");
                s.append(expected_state.as_str());
                s.append("', but found '");
                s.append(actual_state.as_str());
                s.append("', called from '");
                s.append(called_from.as_str());
                s.append("'");
                s
            },
            TypestateError::BranchStateMismatch { func_name, peripheral, then_state, else_state } => {
                let mut s: String = "Branch in ".to_owned();
                s.append(func_name.as_str());
                s.append(" leaves '");
                s.append(peripheral.as_str());
                s.append("' in different states: then = '");
                s.append(then_state.as_str());
                s.append("', else = '");
                s.append(else_state.as_str());
                s.append("'");
                s
            },
            TypestateError::LoopChangesState { func_name, peripheral, before, after } => {
                let mut s: String = "Loop in ".to_owned();
                s.append(func_name.as_str());
                s.append(" changes state of '");
                s.append(peripheral.as_str());
                s.append("' from '");
                s.append(before.as_str());
                s.append("' to '");
                s.append(after.as_str());
                s.append("'");
                s
            },
            TypestateError::WrongExitState { func_name, peripheral, expected, actual } => {
                let mut s: String = "Function '".to_owned();
                s.append(func_name.as_str());
                s.append("' declares output state '");
                s.append(expected.as_str());
                s.append("' for '");
                s.append(peripheral.as_str());
                s.append("', but body produces '");
                s.append(actual.as_str());
                s.append("'");
                s
            },
            TypestateError::UnknownPeripheral { func_name, name } => {
                let mut s: String = "Unknown peripheral '".to_owned();
                s.append(name.as_str());
                s.append("' in function '");
                s.append(func_name.as_str());
                s.append("'");
                s
            },
        }
    }
}

/// Σ at the model level: peripheral name to current state name.
pub type EnvV = Seq<(Seq<char>, Seq<char>)>;

/// The signature map at the model level: function name to signature.
pub type SigsV = Seq<(Seq<char>, SigV)>;

/// The signatures declared by a program's functions: function name to
/// `P<Sin> -> P<Sout>`, in declaration order.
pub struct SignatureMap {
    pub entries: Vec<(String, ast::TypeState)>,
}

impl View for SignatureMap {
    type V = SigsV;

    open spec fn view(&self) -> SigsV {
        self.entries@.map_values(|p: (String, ast::TypeState)| (p.0@, p.1@))
    }
}

impl SignatureMap {
    /// The signature of the named function, if it declares one.
    pub fn get(&self, name: &String) -> (r: Option<&ast::TypeState>)
        ensures
            match r {
                Some(sig) => assoc_find(self@, name@) == Some(sig@),
                None => assoc_find(self@, name@) is None,
            },
    {
        let mut i: usize = 0;
        while i < self.entries.len()
            invariant
                i <= self@.len(),
                forall|j: int| 0 <= j < i ==> (#[trigger] self@[j]).0 != name@,
            decreases self@.len() - i,
        {
            if self.entries[i].0 == *name {
                proof {
                    crate::env::lemma_assoc_find_skip(self@, name@, i as int);
                    assert(self@.skip(i as int)[0] == self@[i as int]);
                }
                return Some(&self.entries[i].1);
            }
            i = i + 1;
        }
        proof {
            crate::env::lemma_assoc_find_skip(self@, name@, self@.len() as int);
        }
        None
    }

    /// Binds `name` to `sig`, replacing an existing binding in place.
    pub fn insert(&mut self, name: &String, sig: &ast::TypeState)
        ensures
            final(self)@ =~= assoc_set(old(self)@, name@, sig@),
    {
        let mut i: usize = 0;
        while i < self.entries.len()
            invariant
                i <= self@.len(),
                self@ == old(self)@,
                forall|j: int| 0 <= j < i ==> (#[trigger] self@[j]).0 != name@,
            decreases self@.len() - i,
        {
            if self.entries[i].0 == *name {
                self.entries.set(i, (name.clone(), sig.clone()));
                proof {
                    crate::env::lemma_assoc_set_at(old(self)@, name@, sig@, i as int);
                    assert(final(self)@ =~= old(self)@.update(i as int, (name@, sig@)));
                }
                return ;
            }
            i = i + 1;
        }
        self.entries.push((name.clone(), sig.clone()));
        proof {
            crate::env::lemma_assoc_set_absent(old(self)@, name@, sig@);
            assert(final(self)@ =~= old(self)@.push((name@, sig@)));
        }
    }
}

/// The signature map a program gives rise to, in declaration order; under
/// a duplicated name (rejected by the semantic check, but legal here) the
/// later definition's signature overwrites the earlier one's.
pub open spec fn spec_build_sigs(funcs: Seq<ast::Function>) -> SigsV
    decreases funcs.len(),
{
    if funcs.len() == 0 {
        Seq::empty()
    } else {
        match funcs.last().signature {
            Some(sig) => assoc_set(spec_build_sigs(funcs.drop_last()), funcs.last().name@, sig@),
            None => spec_build_sigs(funcs.drop_last()),
        }
    }
}

/// The initial Σ: every declared peripheral bound to its initial state.
pub open spec fn spec_init_env(ps: Seq<ast::Peripheral>) -> EnvV
    decreases ps.len(),
{
    if ps.len() == 0 {
        Seq::empty()
    } else {
        assoc_set(spec_init_env(ps.drop_last()), ps.last().name@, ps.last().initial@)
    }
}

/// Whether a semantic statement refers to a signed (driver) function: a
/// resolved driver call, or a call expression whose callee has a signature.
pub open spec fn spec_stmt_refs_driver(stmt: Statement, sigs: SigsV) -> bool {
    match stmt {
        Statement::PeripheralDriverCall { .. } => true,
        Statement::Expr { expr } => match expr {
            ast::Expr::FnCall { name, .. } => assoc_find(sigs, name@) is Some,
            _ => false,
        },
        _ => false,
    }
}

/// Whether any statement in the graph refers to a driver.
pub open spec fn spec_calls_drivers(c: CFG, sigs: SigsV) -> bool {
    exists|i: int, j: int|
        0 <= i < c.blocks@.len() && 0 <= j < c.blocks@[i].statements@.len()
            && spec_stmt_refs_driver(#[trigger] c.blocks@[i].statements@[j], sigs)
}

/// The effect of one semantic statement on Σ. `Let`, `Assign` and
/// `PeripheralWrite` leave Σ unchanged; a driver call (resolved, or a call
/// expression whose callee is signed) requires Σ(P) to equal the declared
/// input state and rebinds P to the declared output state.
pub open spec fn spec_stmt_effect(
    stmt: Statement,
    env: EnvV,
    sigs: SigsV,
    func_name: Seq<char>,
) -> Result<EnvV, TsErrV> {
    match stmt {
        Statement::PeripheralDriverCall { function, peripheral, from_state, to_state } => {
            match assoc_find(env, peripheral@) {
                None => Err(
                    TsErrV::UnknownPeripheral { func_name: func_name, name: peripheral@ },
                ),
                Some(current) => {
                    if current != from_state@ {
                        Err(
                            TsErrV::InvalidTransition {
                                func_name: function@,
                                called_from: func_name,
                                peripheral: peripheral@,
                                expected_state: from_state@,
                                actual_state: current,
                            },
                        )
                    } else {
                        Ok(assoc_set(env, peripheral@, to_state@))
                    }
                },
            }
        },
        Statement::Expr { expr } => match expr {
            ast::Expr::FnCall { name, .. } => match assoc_find(sigs, name@) {
                Some(sig) => match assoc_find(env, sig.peripheral) {
                    None => Err(
                        TsErrV::UnknownPeripheral { func_name: func_name, name: sig.peripheral },
                    ),
                    Some(current) => {
                        if current != sig.input_state {
                            Err(
                                TsErrV::InvalidTransition {
                                    func_name: name@,
                                    called_from: func_name,
                                    peripheral: sig.peripheral,
                                    expected_state: sig.input_state,
                                    actual_state: current,
                                },
                            )
                        } else {
                            Ok(assoc_set(env, sig.peripheral, sig.output_state))
                        }
                    },
                },
                None => Ok(env),
            },
            _ => Ok(env),
        },
        _ => Ok(env),
    }
}

/// The effect of a statement sequence on Σ: the statements in order, stopped
/// at the first error.
pub open spec fn spec_stmts_effect(
    stmts: Seq<Statement>,
    env: EnvV,
    sigs: SigsV,
    func_name: Seq<char>,
) -> Result<EnvV, TsErrV>
    decreases stmts.len(),
{
    if stmts.len() == 0 {
        Ok(env)
    } else {
        match spec_stmt_effect(stmts[0], env, sigs, func_name) {
            Err(e) => Err(e),
            Ok(env1) => spec_stmts_effect(stmts.drop_first(), env1, sigs, func_name),
        }
    }
}

/// The first peripheral, in the order of the then-environment, that the
/// else-environment also binds but to a different state; with both states.
pub open spec fn spec_first_mismatch(then_env: EnvV, else_env: EnvV) -> Option<
    (Seq<char>, Seq<char>, Seq<char>),
>
    decreases then_env.len(),
{
    if then_env.len() == 0 {
        None
    } else {
        match assoc_find(else_env, then_env[0].0) {
            Some(else_state) => {
                if else_state != then_env[0].1 {
                    Some((then_env[0].0, then_env[0].1, else_state))
                } else {
                    spec_first_mismatch(then_env.drop_first(), else_env)
                }
            },
            None => spec_first_mismatch(then_env.drop_first(), else_env),
        }
    }
}

/// The walk of the graph from block `id`. A block already on the visitation
/// set ends the path with Σ unchanged; otherwise the block's statements are
/// applied in order, and the terminator decides how to continue: `Jump` and
/// `Fallthrough` carry Σ into the target; `Branch` walks both arms from
/// independent copies of Σ and the visitation set, demands that the two
/// resulting environments agree on every peripheral bound in both, and
/// continues with the then-environment; `Return` and an unset terminator end
/// the path.
pub open spec fn spec_walk(
    c: CFG,
    id: int,
    env: EnvV,
    visited: Set<int>,
    sigs: SigsV,
    func_name: Seq<char>,
) -> Result<(EnvV, Set<int>), TsErrV>
    decreases c.blocks@.len() - visited.len()
        when visited.finite() && visited.subset_of(
        vstd::set_lib::set_int_range(0, c.blocks@.len() as int),
    ) && 0 <= id < c.blocks@.len()
    via spec_walk_decreases
{
    if visited.contains(id) {
        Ok((env, visited))
    } else {
        let visited1 = visited.insert(id);
        let block = c.blocks@[id];
        match spec_stmts_effect(block.statements@, env, sigs, func_name) {
            Err(e) => Err(e),
            Ok(env1) => match block.terminator {
                Terminator::Jump(t) => {
                    if t < c.blocks@.len() {
                        spec_walk(c, t as int, env1, visited1, sigs, func_name)
                    } else {
                        Ok((env1, visited1))
                    }
                },
                Terminator::Fallthrough(t) => {
                    if t < c.blocks@.len() {
                        spec_walk(c, t as int, env1, visited1, sigs, func_name)
                    } else {
                        Ok((env1, visited1))
                    }
                },
                Terminator::Branch { cond: _, then_block, else_block } => {
                    if then_block < c.blocks@.len() && else_block < c.blocks@.len() {
                        match spec_walk(c, then_block as int, env1, visited1, sigs, func_name) {
                            Err(e) => Err(e),
                            Ok((then_env, _)) => match spec_walk(
                                c,
                                else_block as int,
                                env1,
                                visited1,
                                sigs,
                                func_name,
                            ) {
                                Err(e) => Err(e),
                                Ok((else_env, _)) => match spec_first_mismatch(
                                    then_env,
                                    else_env,
                                ) {
                                    Some(m) => Err(
                                        TsErrV::BranchStateMismatch {
                                            func_name: func_name,
                                            peripheral: m.0,
                                            then_state: m.1,
                                            else_state: m.2,
                                        },
                                    ),
                                    None => Ok((then_env, visited1)),
                                },
                            },
                        }
                    } else {
                        Ok((env1, visited1))
                    }
                },
                Terminator::Return(_) => Ok((env1, visited1)),
                Terminator::Unset => Ok((env1, visited1)),
            },
        }
    }
}

#[via_fn]
proof fn spec_walk_decreases(
    c: CFG,
    id: int,
    env: EnvV,
    visited: Set<int>,
    sigs: SigsV,
    func_name: Seq<char>,
) {
    if !visited.contains(id) {
        let rng = vstd::set_lib::set_int_range(0, c.blocks@.len() as int);
        vstd::set_lib::lemma_int_range(0, c.blocks@.len() as int);
        assert(visited.insert(id).subset_of(rng));
        vstd::set_lib::lemma_len_subset(visited.insert(id), rng);
        assert(visited.insert(id).len() == visited.len() + 1);
    }
}

/// The outcome of walking a whole graph from its entry with a fresh
/// visitation set: the final Σ, or the first error.
pub open spec fn spec_verify_cfg(c: CFG, env: EnvV, sigs: SigsV, func_name: Seq<char>) -> Result<
    EnvV,
    TsErrV,
> {
    match spec_walk(c, c.entry as int, env, Set::empty(), sigs, func_name) {
        Ok(r) => Ok(r.0),
        Err(e) => Err(e),
    }
}

/// The verdict on one function: `None` when it verifies. A leaf driver (a
/// signed function whose graph refers to no driver) is an axiom and always
/// verifies; a composite driver is walked from the initial Σ overlaid with
/// its declared input state and must derive its declared output state; an
/// orchestration function (no signature) is walked from the initial Σ with
/// no exit-state obligation.
pub open spec fn spec_verify_function(
    func: ast::Function,
    c: CFG,
    peripherals: Seq<ast::Peripheral>,
    sigs: SigsV,
) -> Option<TsErrV> {
    match func.signature {
        Some(sig) => {
            if !spec_calls_drivers(c, sigs) {
                None
            } else {
                let env0 = assoc_set(spec_init_env(peripherals), sig.peripheral@, sig.input_state@);
                match spec_verify_cfg(c, env0, sigs, func.name@) {
                    Err(e) => Some(e),
                    Ok(env_final) => match assoc_find(env_final, sig.peripheral@) {
                        None => Some(
                            TsErrV::UnknownPeripheral {
                                func_name: func.name@,
                                name: sig.peripheral@,
                            },
                        ),
                        Some(actual) => {
                            if actual != sig.output_state@ {
                                Some(
                                    TsErrV::WrongExitState {
                                        func_name: func.name@,
                                        peripheral: sig.peripheral@,
                                        expected: sig.output_state@,
                                        actual: actual,
                                    },
                                )
                            } else {
                                None
                            }
                        },
                    },
                }
            }
        },
        None => match spec_verify_cfg(c, spec_init_env(peripherals), sigs, func.name@) {
            Err(e) => Some(e),
            Ok(_) => None,
        },
    }
}

/// The verdict on a whole program, one graph per function in order: the
/// first failing function's error.
pub open spec fn spec_check_from(
    program: ast::Program,
    ir: Seq<(String, CFG)>,
    i: int,
) -> Option<TsErrV>
    decreases ir.len() - i,
{
    if i < 0 || i >= ir.len() {
        None
    } else {
        match spec_verify_function(
            program.functions@[i],
            ir[i].1,
            program.peripherals@,
            spec_build_sigs(program.functions@),
        ) {
            Some(e) => Some(e),
            None => spec_check_from(program, ir, i + 1),
        }
    }
}

/// Function classification: which typing rule applies.
#[derive(Debug, PartialEq, Eq, Structural)]
pub enum FunctionKind {
    /// Signed, refers to no driver: its signature is trusted axiomatically.
    LeafDriver,
    /// Signed and refers to drivers: derived, then held to its signature.
    CompositeDriver,
    /// Unsigned: derived, with no exit-state obligation.
    Orchestration,
}

/// Collects each function's declared signature under the function's name,
/// in declaration order; a later definition under a duplicated name
/// overwrites the earlier one's signature.
pub fn build_signature_map(program: &ast::Program) -> (r: SignatureMap)
    ensures
        r@ =~= spec_build_sigs(program.functions@),
{
    let mut signatures = SignatureMap { entries: Vec::new() };
    let mut i: usize = 0;
    while i < program.functions.len()
        invariant
            i <= program.functions@.len(),
            signatures@ =~= spec_build_sigs(program.functions@.take(i as int)),
        decreases program.functions@.len() - i,
    {
        let func = &program.functions[i];
        match &func.signature {
            Some(sig) => {
                signatures.insert(&func.name, sig);
            },
            None => {},
        }
        proof {
            assert(program.functions@.take(i + 1).drop_last() =~= program.functions@.take(
                i as int,
            ));
            assert(program.functions@.take(i + 1).last() == program.functions@[i as int]);
        }
        i = i + 1;
    }
    proof {
        assert(program.functions@.take(program.functions@.len() as int) =~= program.functions@);
    }
    signatures
}

/// The initial Σ: every declared peripheral bound to its initial state, in
/// declaration order.
pub fn init_state_env(peripherals: &Vec<ast::Peripheral>) -> (r: StateEnv)
    ensures
        r@ =~= spec_init_env(peripherals@),
{
    let mut env = StateEnv::new();
    let mut i: usize = 0;
    while i < peripherals.len()
        invariant
            i <= peripherals@.len(),
            env@ =~= spec_init_env(peripherals@.take(i as int)),
        decreases peripherals@.len() - i,
    {
        let p = &peripherals[i];
        env.set(&p.name, &p.initial);
        proof {
            assert(peripherals@.take(i + 1).drop_last() =~= peripherals@.take(i as int));
            assert(peripherals@.take(i + 1).last() == peripherals@[i as int]);
        }
        i = i + 1;
    }
    proof {
        assert(peripherals@.take(peripherals@.len() as int) =~= peripherals@);
    }
    env
}

/// Whether any statement in the graph refers to a signed function.
pub fn cfg_calls_drivers(c: &CFG, signatures: &SignatureMap) -> (r: bool)
    ensures
        r == spec_calls_drivers(*c, signatures@),
{
    let mut i: usize = 0;
    while i < c.blocks.len()
        invariant
            i <= c.blocks@.len(),
            forall|i2: int, j2: int|
                0 <= i2 < i && 0 <= j2 < c.blocks@[i2].statements@.len()
                    ==> !spec_stmt_refs_driver(#[trigger] c.blocks@[i2].statements@[j2], signatures@),
        decreases c.blocks@.len() - i,
    {
        let block = &c.blocks[i];
        let mut j: usize = 0;
        while j < block.statements.len()
            invariant
                j <= block.statements@.len(),
                *block == c.blocks@[i as int],
                i < c.blocks@.len(),
                forall|j2: int|
                    0 <= j2 < j ==> !spec_stmt_refs_driver(
                        #[trigger] c.blocks@[i as int].statements@[j2],
                        signatures@,
                    ),
            decreases block.statements@.len() - j,
        {
            match &block.statements[j] {
                Statement::PeripheralDriverCall { .. } => {
                    return true;
                },
                Statement::Expr { expr } => {
                    match expr {
                        ast::Expr::FnCall { name, .. } => {
                            match signatures.get(name) {
                                Some(_) => {
                                    return true;
                                },
                                None => {},
                            }
                        },
                        _ => {},
                    }
                },
                _ => {},
            }
            j = j + 1;
        }
        i = i + 1;
    }
    false
}

/// Classifies a function for the verifier.
pub fn classify_function(func: &ast::Function, c: &CFG, signatures: &SignatureMap) -> (k:
    FunctionKind)
    ensures
        k is LeafDriver <==> (func.signature is Some && !spec_calls_drivers(*c, signatures@)),
        k is CompositeDriver <==> (func.signature is Some && spec_calls_drivers(*c, signatures@)),
        k is Orchestration <==> func.signature is None,
{
    let has_signature = func.signature.is_some();
    let calls_drivers = cfg_calls_drivers(c, signatures);
    if has_signature && !calls_drivers {
        FunctionKind::LeafDriver
    } else if has_signature {
        FunctionKind::CompositeDriver
    } else {
        FunctionKind::Orchestration
    }
}

/// Applies one semantic statement to Σ, or reports the first failure.
pub fn verify_statement(
    stmt: &Statement,
    state_env: &mut StateEnv,
    signatures: &SignatureMap,
    func_name: &String,
) -> (r: Result<(), TypestateError>)
    ensures
        match r {
            Ok(()) => spec_stmt_effect(*stmt, old(state_env)@, signatures@, func_name@) == Ok::<
                EnvV,
                TsErrV,
            >(final(state_env)@),
            Err(e) => spec_stmt_effect(*stmt, old(state_env)@, signatures@, func_name@) == Err::<
                EnvV,
                TsErrV,
            >(e@) && final(state_env)@ == old(state_env)@,
        },
{
    match stmt {
        Statement::PeripheralDriverCall { function, peripheral, from_state, to_state } => {
            let current = match state_env.get(peripheral) {
                None => {
                    return Err(
                        TypestateError::UnknownPeripheral {
                            func_name: func_name.clone(),
                            name: peripheral.clone(),
                        },
                    );
                },
                Some(c) => c.clone(),
            };
            if current != *from_state {
                return Err(
                    TypestateError::InvalidTransition {
                        func_name: function.clone(),
                        called_from: func_name.clone(),
                        peripheral: peripheral.clone(),
                        expected_state: from_state.clone(),
                        actual_state: current,
                    },
                );
            }
            state_env.set(peripheral, to_state);
            Ok(())
        },
        Statement::Expr { expr } => {
            match expr {
                ast::Expr::FnCall { name, .. } => {
                    let sig = match signatures.get(name) {
                        Some(s) => s,
                        None => {
                            return Ok(());
                        },
                    };
                    let current = match state_env.get(&sig.peripheral) {
                        None => {
                            return Err(
                                TypestateError::UnknownPeripheral {
                                    func_name: func_name.clone(),
                                    name: sig.peripheral.clone(),
                                },
                            );
                        },
                        Some(c) => c.clone(),
                    };
                    if current != sig.input_state {
                        return Err(
                            TypestateError::InvalidTransition {
                                func_name: name.clone(),
                                called_from: func_name.clone(),
                                peripheral: sig.peripheral.clone(),
                                expected_state: sig.input_state.clone(),
                                actual_state: current,
                            },
                        );
                    }
                    state_env.set(&sig.peripheral, &sig.output_state);
                    Ok(())
                },
                _ => Ok(()),
            }
        },
        _ => Ok(()),
    }
}

/// Walks the graph from `block_id`, threading Σ and the visitation set.
pub fn verify_block_recursive(
    c: &CFG,
    block_id: usize,
    state_env: &mut StateEnv,
    signatures: &SignatureMap,
    visited: &mut IdSet,
    func_name: &String,
) -> (r: Result<(), TypestateError>)
    requires
        cfg_targets_valid(*c),
        block_id < c.blocks@.len(),
        old(visited).wf(),
        old(visited).capacity() == c.blocks@.len(),
    ensures
        final(visited).wf(),
        final(visited).capacity() == old(visited).capacity(),
        match r {
            Ok(()) => spec_walk(
                *c,
                block_id as int,
                old(state_env)@,
                old(visited)@,
                signatures@,
                func_name@,
            ) == Ok::<(EnvV, Set<int>), TsErrV>((final(state_env)@, final(visited)@)),
            Err(e) => spec_walk(
                *c,
                block_id as int,
                old(state_env)@,
                old(visited)@,
                signatures@,
                func_name@,
            ) == Err::<(EnvV, Set<int>), TsErrV>(e@),
        },
    decreases c.blocks@.len() - visited.count,
{
    proof {
        vstd::set_lib::lemma_int_range(0, c.blocks@.len() as int);
        assert(old(visited)@.subset_of(
            vstd::set_lib::set_int_range(0, c.blocks@.len() as int),
        ));
    }
    if visited.contains(block_id) {
        return Ok(());
    }
    visited.insert(block_id);

    let ghost vis1: Set<int> = visited@;
    let block = c.block(block_id);

    let ghost env0: EnvV = state_env@;
    proof {
        assert(block.statements@.skip(0) =~= block.statements@);
    }
    let mut j: usize = 0;
    while j < block.statements.len()
        invariant
            j <= block.statements@.len(),
            *block == c.blocks@[block_id as int],
            block_id < c.blocks@.len(),
            visited.wf(),
            visited@ == vis1,
            visited.capacity() == c.blocks@.len(),
            env0 == old(state_env)@,
            !old(visited)@.contains(block_id as int),
            vis1 == old(visited)@.insert(block_id as int),
            old(visited).wf(),
            old(visited).capacity() == c.blocks@.len(),
            spec_stmts_effect(block.statements@, env0, signatures@, func_name@)
                == spec_stmts_effect(
                block.statements@.skip(j as int),
                state_env@,
                signatures@,
                func_name@,
            ),
        decreases block.statements@.len() - j,
    {
        let ghost pre: Seq<Statement> = block.statements@.skip(j as int);
        proof {
            assert(pre[0] == block.statements@[j as int]);
            assert(pre.drop_first() =~= block.statements@.skip(j + 1));
        }
        match verify_statement(&block.statements[j], state_env, signatures, func_name) {
            Ok(()) => {},
            Err(e) => {
                return Err(e);
            },
        }
        j = j + 1;
    }
    proof {
        assert(block.statements@.skip(block.statements@.len() as int)
            =~= Seq::<Statement>::empty());
    }
    let ghost env1: EnvV = state_env@;

    match &block.terminator {
        Terminator::Jump(target) => {
            let t = *target;
            verify_block_recursive(c, t, state_env, signatures, visited, func_name)
        },
        Terminator::Fallthrough(target) => {
            let t = *target;
            verify_block_recursive(c, t, state_env, signatures, visited, func_name)
        },
        Terminator::Branch { cond, then_block, else_block } => {
            let mut then_env = state_env.duplicate();
            let mut else_env = state_env.duplicate();
            let mut visited_then = visited.duplicate();
            let mut visited_else = visited.duplicate();
            match verify_block_recursive(
                c,
                *then_block,
                &mut then_env,
                signatures,
                &mut visited_then,
                func_name,
            ) {
                Ok(()) => {},
                Err(e) => {
                    return Err(e);
                },
            }
            match verify_block_recursive(
                c,
                *else_block,
                &mut else_env,
                signatures,
                &mut visited_else,
                func_name,
            ) {
                Ok(()) => {},
                Err(e) => {
                    return Err(e);
                },
            }
            proof {
                assert(then_env@.skip(0) =~= then_env@);
            }
            let mut i: usize = 0;
            while i < then_env.len()
                invariant
                    i <= then_env@.len(),
                    block_id < c.blocks@.len(),
                    c.blocks@[block_id as int].terminator == (Terminator::Branch {
                        cond: *cond,
                        then_block: *then_block,
                        else_block: *else_block,
                    }),
                    *then_block < c.blocks@.len(),
                    *else_block < c.blocks@.len(),
                    visited.wf(),
                    visited@ == vis1,
                    visited.capacity() == c.blocks@.len(),
                    env0 == old(state_env)@,
                    !old(visited)@.contains(block_id as int),
                    vis1 == old(visited)@.insert(block_id as int),
                    old(visited).wf(),
                    old(visited).capacity() == c.blocks@.len(),
                    spec_stmts_effect(
                        c.blocks@[block_id as int].statements@,
                        env0,
                        signatures@,
                        func_name@,
                    ) == Ok::<EnvV, TsErrV>(env1),
                    spec_walk(*c, *then_block as int, env1, vis1, signatures@, func_name@)
                        == Ok::<(EnvV, Set<int>), TsErrV>((then_env@, visited_then@)),
                    spec_walk(*c, *else_block as int, env1, vis1, signatures@, func_name@)
                        == Ok::<(EnvV, Set<int>), TsErrV>((else_env@, visited_else@)),
                    spec_first_mismatch(then_env@, else_env@) == spec_first_mismatch(
                        then_env@.skip(i as int),
                        else_env@,
                    ),
                decreases then_env@.len() - i,
            {
                let ghost pre: EnvV = then_env@.skip(i as int);
                proof {
                    assert(pre[0] == then_env@[i as int]);
                    assert(pre.drop_first() =~= then_env@.skip(i + 1));
                }
                let peripheral = then_env.key_at(i);
                let then_state = then_env.value_at(i);
                match else_env.get(peripheral) {
                    Some(else_state) => {
                        if *then_state != *else_state {
                            return Err(
                                TypestateError::BranchStateMismatch {
                                    func_name: func_name.clone(),
                                    peripheral: peripheral.clone(),
                                    then_state: then_state.clone(),
                                    else_state: else_state.clone(),
                                },
                            );
                        }
                    },
                    None => {},
                }
                i = i + 1;
            }
            proof {
                assert(then_env@.skip(then_env@.len() as int) =~= Seq::<(
                    Seq<char>,
                    Seq<char>,
                )>::empty());
            }
            *state_env = then_env;
            Ok(())
        },
        Terminator::Return(_) => Ok(()),
        Terminator::Unset => Ok(()),
    }
}

/// Walks a whole graph from its entry block with a fresh visitation set.
pub fn verify_cfg(
    c: &CFG,
    state_env: &mut StateEnv,
    signatures: &SignatureMap,
    func_name: &String,
) -> (r: Result<(), TypestateError>)
    requires
        cfg_targets_valid(*c),
        c.entry < c.blocks@.len(),
    ensures
        match r {
            Ok(()) => spec_verify_cfg(*c, old(state_env)@, signatures@, func_name@) == Ok::<
                EnvV,
                TsErrV,
            >(final(state_env)@),
            Err(e) => spec_verify_cfg(*c, old(state_env)@, signatures@, func_name@) == Err::<
                EnvV,
                TsErrV,
            >(e@),
        },
{
    let mut visited = IdSet::new(c.blocks.len());
    proof {
        assert(visited@ =~= Set::<int>::empty());
    }
    verify_block_recursive(c, c.entry, state_env, signatures, &mut visited, func_name)
}

/// Verifies one function against the typing rules its classification
/// selects.
pub fn verify_function(
    func: &ast::Function,
    c: &CFG,
    peripherals: &Vec<ast::Peripheral>,
    signatures: &SignatureMap,
) -> (r: Result<(), TypestateError>)
    requires
        cfg_targets_valid(*c),
        c.entry < c.blocks@.len(),
    ensures
        match r {
            Ok(()) => spec_verify_function(*func, *c, peripherals@, signatures@) is None,
            Err(e) => spec_verify_function(*func, *c, peripherals@, signatures@) == Some(e@),
        },
{
    let kind = classify_function(func, c, signatures);
    match kind {
        FunctionKind::LeafDriver => Ok(()),
        FunctionKind::CompositeDriver => {
            match &func.signature {
                Some(sig) => {
                    let mut state_env = init_state_env(peripherals);
                    state_env.set(&sig.peripheral, &sig.input_state);
                    match verify_cfg(c, &mut state_env, signatures, &func.name) {
                        Err(e) => Err(e),
                        Ok(()) => {
                            match state_env.get(&sig.peripheral) {
                                None => Err(
                                    TypestateError::UnknownPeripheral {
                                        func_name: func.name.clone(),
                                        name: sig.peripheral.clone(),
                                    },
                                ),
                                Some(actual) => {
                                    if *actual != sig.output_state {
                                        Err(
                                            TypestateError::WrongExitState {
                                                func_name: func.name.clone(),
                                                peripheral: sig.peripheral.clone(),
                                                expected: sig.output_state.clone(),
                                                actual: actual.clone(),
                                            },
                                        )
                                    } else {
                                        Ok(())
                                    }
                                },
                            }
                        },
                    }
                },
                None => {
                    // a composite driver always carries a signature
                    proof {
                        assert(false);
                    }
                    Ok(())
                },
            }
        },
        FunctionKind::Orchestration => {
            let mut state_env = init_state_env(peripherals);
            match verify_cfg(c, &mut state_env, signatures, &func.name) {
                Err(e) => Err(e),
                Ok(()) => Ok(()),
            }
        },
    }
}

/// Checks a whole program: one graph per function, in order. Returns the
/// first failing function's rendered diagnostic; functions after the first
/// failure are not examined.
pub fn check(program: &ast::Program, ir: &Vec<(String, CFG)>) -> (r: Result<(), String>)
    requires
        ir@.len() == program.functions@.len(),
        forall|i: int|
            0 <= i < ir@.len() ==> cfg_targets_valid((#[trigger] ir@[i]).1) && ir@[i].1.entry
                < ir@[i].1.blocks@.len(),
    ensures
        match r {
            Ok(()) => spec_check_from(*program, ir@, 0) is None,
            Err(s) => spec_check_from(*program, ir@, 0) matches Some(e) && s@
                == spec_render_ts_err(e),
        },
{
    let signatures = build_signature_map(program);
    let mut i: usize = 0;
    while i < ir.len()
        invariant
            i <= ir@.len(),
            ir@.len() == program.functions@.len(),
            forall|k: int|
                0 <= k < ir@.len() ==> cfg_targets_valid((#[trigger] ir@[k]).1) && ir@[k].1.entry
                    < ir@[k].1.blocks@.len(),
            signatures@ == spec_build_sigs(program.functions@),
            spec_check_from(*program, ir@, 0) == spec_check_from(*program, ir@, i as int),
        decreases ir@.len() - i,
    {
        let func = &program.functions[i];
        match verify_function(func, &ir[i].1, &program.peripherals, &signatures) {
            Ok(()) => {},
            Err(e) => {
                return Err(e.render());
            },
        }
        i = i + 1;
    }
    Ok(())
}

} // verus!

verus! {

/// Σ at the end of running the blocks of `path` in order, starting from
/// `env`: each block's semantic statements are applied in sequence; the
/// first failure (a driver call outside its declared input state, or an
/// unknown peripheral) stops the path.
pub open spec fn spec_env_along(
    c: CFG,
    path: Seq<int>,
    env: EnvV,
    sigs: SigsV,
    func_name: Seq<char>,
) -> Result<EnvV, TsErrV>
    decreases path.len(),
{
    if path.len() == 0 {
        Ok(env)
    } else if !(0 <= path[0] < c.blocks@.len()) {
        Err(TsErrV::UnknownPeripheral { func_name: func_name, name: Seq::empty() })
    } else {
        match spec_stmts_effect(c.blocks@[path[0]].statements@, env, sigs, func_name) {
            Err(e) => Err(e),
            Ok(env1) => spec_env_along(c, path.drop_first(), env1, sigs, func_name),
        }
    }
}

/// `path` follows the graph: every element is a valid block id, and each
/// step continues at a successor of the block before it.
pub open spec fn spec_path_follows(c: CFG, path: Seq<int>) -> bool {
    &&& forall|k: int| 0 <= k < path.len() ==> 0 <= #[trigger] path[k] < c.blocks@.len()
    &&& forall|k: int|
        0 <= k < path.len() - 1 ==> spec_successors(
            c.blocks@[#[trigger] path[k]].terminator,
        ).contains((path[k + 1]) as BlockId as usize)
}

/// Soundness of the walk, per path: when the walk from `id` accepts, then
/// along every duplicate-free path from `id` that avoids the visitation
/// set, every statement applies cleanly — in particular, every driver call
/// site is reached with its peripheral in exactly the declared input state.
pub proof fn lemma_walk_path_sound(
    c: CFG,
    id: int,
    env: EnvV,
    visited: Set<int>,
    sigs: SigsV,
    func_name: Seq<char>,
    path: Seq<int>,
)
    requires
        cfg_targets_valid(c),
        visited.finite(),
        visited.subset_of(vstd::set_lib::set_int_range(0, c.blocks@.len() as int)),
        0 <= id < c.blocks@.len(),
        spec_walk(c, id, env, visited, sigs, func_name) is Ok,
        path.len() > 0,
        path[0] == id,
        spec_path_follows(c, path),
        path.no_duplicates(),
        forall|k: int| 0 <= k < path.len() ==> !visited.contains(#[trigger] path[k]),
    ensures
        spec_env_along(c, path, env, sigs, func_name) is Ok,
    decreases path.len(),
{
    let block = c.blocks@[id];
    let visited1 = visited.insert(id);
    assert(!visited.contains(id));
    match spec_stmts_effect(block.statements@, env, sigs, func_name) {
        Err(e) => {
            assert(spec_walk(c, id, env, visited, sigs, func_name) is Err);
        },
        Ok(env1) => {
            if path.len() == 1 {
                assert(path.drop_first().len() == 0);
                assert(spec_env_along(c, path.drop_first(), env1, sigs, func_name) is Ok);
                assert(spec_env_along(c, path, env, sigs, func_name) is Ok);
            } else {
                let next = path[1];
                let rest = path.drop_first();
                assert(rest[0] == next);
                assert(rest.no_duplicates()) by {
                    assert(forall|i: int, j: int|
                        0 <= i < rest.len() && 0 <= j < rest.len() && i != j ==> rest[i] != rest[j])
                        by {
                        assert(forall|i: int| 0 <= i < rest.len() ==> rest[i] == path[i + 1]);
                    }
                }
                assert(spec_path_follows(c, rest)) by {
                    assert(forall|k: int| 0 <= k < rest.len() ==> rest[k] == path[k + 1]);
                }
                assert(forall|k: int| 0 <= k < rest.len() ==> !visited1.contains(#[trigger] rest[k]))
                    by {
                    assert(forall|k: int| 0 <= k < rest.len() ==> rest[k] == path[k + 1]);
                }
                assert(visited1.finite());
                assert(visited1.subset_of(
                    vstd::set_lib::set_int_range(0, c.blocks@.len() as int),
                )) by {
                    vstd::set_lib::lemma_int_range(0, c.blocks@.len() as int);
                }
                assert(spec_successors(block.terminator).contains(next as BlockId as usize));
                assert(0 <= next < c.blocks@.len());
                assert(c.blocks@.len() == vstd::std_specs::vec::spec_vec_len(&c.blocks));
                assert(0 <= next <= usize::MAX);
                let su = spec_successors(block.terminator);
                let w = choose|w: int| 0 <= w < su.len() && su[w] == next as BlockId as usize;
                assert(su[w] == next as BlockId as usize);
                assert(su[w] as int == next);
                match block.terminator {
                    Terminator::Jump(t) => {
                        assert(su =~= seq![t]);
                        assert(su[w] == t);
                        assert(next == t);
                        assert(spec_walk(c, t as int, env1, visited1, sigs, func_name) is Ok);
                        lemma_walk_path_sound(c, t as int, env1, visited1, sigs, func_name, rest);
                    },
                    Terminator::Fallthrough(t) => {
                        assert(su =~= seq![t]);
                        assert(su[w] == t);
                        assert(next == t);
                        assert(spec_walk(c, t as int, env1, visited1, sigs, func_name) is Ok);
                        lemma_walk_path_sound(c, t as int, env1, visited1, sigs, func_name, rest);
                    },
                    Terminator::Branch { cond: _, then_block, else_block } => {
                        assert(su =~= seq![then_block, else_block]);
                        assert(su[w] == then_block || su[w] == else_block);
                        assert(next == then_block || next == else_block);
                        assert(crate::cfg::terminator_targets_valid(
                            block.terminator,
                            c.blocks@.len() as nat,
                        ));
                        assert(then_block < c.blocks@.len() && else_block < c.blocks@.len());
                        assert(spec_walk(
                            c,
                            then_block as int,
                            env1,
                            visited1,
                            sigs,
                            func_name,
                        ) is Ok);
                        assert(spec_walk(
                            c,
                            else_block as int,
                            env1,
                            visited1,
                            sigs,
                            func_name,
                        ) is Ok);
                        lemma_walk_path_sound(
                            c,
                            next,
                            env1,
                            visited1,
                            sigs,
                            func_name,
                            rest,
                        );
                    },
                    Terminator::Return(_) => {
                        assert(spec_successors(block.terminator).len() == 0);
                        assert(false);
                    },
                    Terminator::Unset => {
                        assert(spec_successors(block.terminator).len() == 0);
                        assert(false);
                    },
                }
                assert(spec_env_along(c, rest, env1, sigs, func_name) is Ok);
                assert(spec_env_along(c, path, env, sigs, func_name) == spec_env_along(
                    c,
                    rest,
                    env1,
                    sigs,
                    func_name,
                ));
            }
        },
    }
}

/// Soundness of typestate for a verified function: when the verifier
/// accepts a non-leaf function, then along every duplicate-free path from
/// the entry block, starting from the initial Σ (overlaid with the declared
/// input state for a driver), every driver call site is reached with its
/// peripheral in exactly the declared input state — no path produces a
/// transition error.
pub proof fn lemma_typestate_sound(
    func: ast::Function,
    c: CFG,
    peripherals: Seq<ast::Peripheral>,
    sigs: SigsV,
    path: Seq<int>,
)
    requires
        cfg_targets_valid(c),
        spec_verify_function(func, c, peripherals, sigs) is None,
        func.signature is None || spec_calls_drivers(c, sigs),
        0 <= c.entry < c.blocks@.len(),
        path.len() > 0,
        path[0] == c.entry,
        spec_path_follows(c, path),
        path.no_duplicates(),
    ensures
        spec_env_along(
            c,
            path,
            match func.signature {
                Some(sig) => assoc_set(spec_init_env(peripherals), sig.peripheral@, sig.input_state@),
                None => spec_init_env(peripherals),
            },
            sigs,
            func.name@,
        ) is Ok,
{
    let env0 = match func.signature {
        Some(sig) => assoc_set(spec_init_env(peripherals), sig.peripheral@, sig.input_state@),
        None => spec_init_env(peripherals),
    };
    assert(spec_walk(c, c.entry as int, env0, Set::empty(), sigs, func.name@) is Ok);
    assert(Set::<int>::empty().subset_of(
        vstd::set_lib::set_int_range(0, c.blocks@.len() as int),
    ));
    lemma_walk_path_sound(c, c.entry as int, env0, Set::empty(), sigs, func.name@, path);
}

/// When the walk accepts a block that branches, the two arm walks agree on
/// every peripheral bound in both resulting environments.
pub proof fn lemma_branch_envs_agree(
    c: CFG,
    id: int,
    env: EnvV,
    visited: Set<int>,
    sigs: SigsV,
    func_name: Seq<char>,
    then_env: EnvV,
    else_env: EnvV,
)
    requires
        visited.finite(),
        visited.subset_of(vstd::set_lib::set_int_range(0, c.blocks@.len() as int)),
        0 <= id < c.blocks@.len(),
        !visited.contains(id),
        spec_walk(c, id, env, visited, sigs, func_name) is Ok,
        c.blocks@[id].terminator matches Terminator::Branch { cond: _, then_block, else_block }
            && then_block < c.blocks@.len() && else_block < c.blocks@.len() && {
            let env1 = spec_stmts_effect(c.blocks@[id].statements@, env, sigs, func_name)->Ok_0;
            &&& spec_walk(c, then_block as int, env1, visited.insert(id), sigs, func_name)
                == Ok::<(EnvV, Set<int>), TsErrV>((then_env, spec_walk(
                c,
                then_block as int,
                env1,
                visited.insert(id),
                sigs,
                func_name,
            )->Ok_0.1))
            &&& spec_walk(c, else_block as int, env1, visited.insert(id), sigs, func_name)
                == Ok::<(EnvV, Set<int>), TsErrV>((else_env, spec_walk(
                c,
                else_block as int,
                env1,
                visited.insert(id),
                sigs,
                func_name,
            )->Ok_0.1))
        },
    ensures
        forall|j: int|
            0 <= j < then_env.len() ==> match assoc_find(else_env, (#[trigger] then_env[j]).0) {
                Some(else_state) => else_state == then_env[j].1,
                None => true,
            },
{
    assert(spec_first_mismatch(then_env, else_env) is None);
    lemma_no_mismatch_pointwise(then_env, else_env);
}

/// A mismatch-free pair of environments agrees pointwise on shared keys.
proof fn lemma_no_mismatch_pointwise(then_env: EnvV, else_env: EnvV)
    requires
        spec_first_mismatch(then_env, else_env) is None,
    ensures
        forall|j: int|
            0 <= j < then_env.len() ==> match assoc_find(else_env, (#[trigger] then_env[j]).0) {
                Some(else_state) => else_state == then_env[j].1,
                None => true,
            },
    decreases then_env.len(),
{
    if then_env.len() > 0 {
        lemma_no_mismatch_pointwise(then_env.drop_first(), else_env);
        assert forall|j: int| 0 <= j < then_env.len() implies match assoc_find(
            else_env,
            (#[trigger] then_env[j]).0,
        ) {
            Some(else_state) => else_state == then_env[j].1,
            None => true,
        } by {
            if j > 0 {
                assert(then_env.drop_first()[j - 1] == then_env[j]);
            }
        }
    }
}

} // verus!
