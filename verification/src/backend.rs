//! The compilation pipeline: semantic check, lowering to control-flow
//! graphs, typestate verification, liveness analysis and register
//! allocation per function, flattening, and assembly emission. A program is
//! rejected by the first failing gate; no partial output is produced.

use vstd::prelude::*;
use vstd::string::StringExecFns;
use crate::ast;
use crate::cfg::{cfg_wf, spec_flattened, CFG};
use crate::generator::{generate, spec_generate, CodegenError};
use crate::ir::Instruction;
use crate::liveness::analyse;
use crate::lower::{cfg_driver_faithful, lower, LowerError, spec_render_low_err};
use crate::regalloc::{alloc_in_pool, allocate, id_find, spec_referenced};
use crate::semantic::{errs_view, spec_check_program, spec_render_sem_err, SemanticError, SemErrV};
use crate::typestate::{spec_build_sigs, spec_check_from, spec_render_ts_err};
use crate::typestate;

verus! {

/// Why a compilation was rejected.
#[derive(Debug)]
pub enum CompileError {
    /// Name resolution, arity or duplicate-function errors, in source
    /// order.
    Semantic(Vec<SemanticError>),
    /// A peripheral access could not be lowered.
    Lowering(LowerError),
    /// The typestate verifier's diagnostic line.
    Typestate(String),
    /// Assembly emission failed (effectively unreachable).
    Codegen(CodegenError),
}

/// `ir` is a lowering of the program: one well-formed graph per function,
/// in order, under the function's name, with a semantic stream faithful to
/// the program's signature map.
pub open spec fn lowered_for(prog: ast::Program, ir: Seq<(String, CFG)>) -> bool {
    &&& ir.len() == prog.functions@.len()
    &&& forall|i: int|
        0 <= i < ir.len() ==> {
            &&& (#[trigger] ir[i]).0@ == prog.functions@[i].name@
            &&& cfg_wf(ir[i].1)
            &&& cfg_driver_faithful(ir[i].1, spec_build_sigs(prog.functions@))
        }
}

/// The per-function assembly texts, concatenated in order.
pub open spec fn spec_concat(outs: Seq<Seq<char>>) -> Seq<char>
    decreases outs.len(),
{
    if outs.len() == 0 {
        Seq::empty()
    } else {
        outs[0] + spec_concat(outs.drop_first())
    }
}

proof fn lemma_spec_concat_push(outs: Seq<Seq<char>>, o: Seq<char>)
    ensures
        spec_concat(outs.push(o)) == spec_concat(outs) + o,
    decreases outs.len(),
{
    if outs.len() == 0 {
        assert(outs.push(o).drop_first() =~= Seq::<Seq<char>>::empty());
        assert(outs.push(o)[0] == o);
        assert(o + Seq::<char>::empty() =~= o);
        assert(Seq::<char>::empty() + o =~= o);
        assert(spec_concat(Seq::<Seq<char>>::empty()) == Seq::<char>::empty());
        assert(spec_concat(outs.push(o).drop_first()) == Seq::<char>::empty());
        assert(spec_concat(outs.push(o)) == o + Seq::<char>::empty());
        assert(spec_concat(outs) == Seq::<char>::empty());
        assert(spec_concat(outs.push(o)) =~= spec_concat(outs) + o);
    } else {
        assert(outs.push(o).drop_first() =~= outs.drop_first().push(o));
        lemma_spec_concat_push(outs.drop_first(), o);
        assert(outs.push(o)[0] == outs[0]);
        assert(outs[0] + (spec_concat(outs.drop_first()) + o) =~= (outs[0] + spec_concat(
            outs.drop_first(),
        )) + o);
        assert(spec_concat(outs.push(o)) =~= spec_concat(outs) + o);
    }
}

/// The whole backend run over one lowering: an allocation, a flattened
/// stream and an emitted text per function, composed exactly as the
/// pipeline composes them.
pub open spec fn backend_outputs(
    prog: ast::Program,
    ir: Seq<(String, CFG)>,
    allocs: Seq<Seq<(usize, usize)>>,
    flats: Seq<Seq<Instruction>>,
    outs: Seq<Seq<char>>,
) -> bool {
    &&& allocs.len() == ir.len()
    &&& flats.len() == ir.len()
    &&& outs.len() == ir.len()
    &&& forall|i: int|
        0 <= i < ir.len() ==> {
            &&& alloc_in_pool(#[trigger] allocs[i])
            &&& (forall|x: usize|
                spec_referenced(ir[i].1, x as int) ==> id_find(allocs[i], x) is Some)
            &&& spec_flattened(ir[i].1, flats[i])
            &&& spec_generate(prog.functions@[i].name@, flats[i], allocs[i]) == Ok::<Seq<char>, ()>(
                outs[i],
            )
        }
}

/// Semantic diagnostics joined one per line.
pub open spec fn spec_render_sem_errs(errs: Seq<SemErrV>) -> Seq<char>
    decreases errs.len(),
{
    if errs.len() == 0 {
        Seq::empty()
    } else if errs.len() == 1 {
        spec_render_sem_err(errs[0])
    } else {
        spec_render_sem_err(errs[0]) + "\n"@ + spec_render_sem_errs(errs.drop_first())
    }
}

impl CompileError {
    /// Renders the rejection as the compiler's diagnostic text: semantic
    /// errors one per line, anything else a single line.
    pub fn render(&self) -> (r: String)
        ensures
            match self {
                CompileError::Semantic(v) => r@ == spec_render_sem_errs(errs_view(v@)),
                CompileError::Lowering(e) => r@ == spec_render_low_err(e@),
                CompileError::Typestate(s) => r@ == s@,
                CompileError::Codegen(_) => true,
            },
    {
        match self {
            CompileError::Semantic(v) => {
                let mut s = String::new();
                let mut i: usize = 0;
                proof {
                    assert(errs_view(v@).skip(0) =~= errs_view(v@));
                }
                while i < v.len()
                    invariant
                        i <= v@.len(),
                        spec_render_sem_errs(errs_view(v@)) == (if i < v@.len() {
                            s@ + spec_render_sem_errs(errs_view(v@).skip(i as int))
                        } else {
                            s@
                        }),
                    decreases v@.len() - i,
                {
                    let ghost s0: Seq<char> = s@;
                    s.append(v[i].render().as_str());
                    if i + 1 < v.len() {
                        s.append("\n");
                    }
                    proof {
                        let rest = errs_view(v@).skip(i as int);
                        assert(rest[0] == errs_view(v@)[i as int]);
                        assert(rest.drop_first() =~= errs_view(v@).skip(i + 1));
                        if i + 1 < v@.len() {
                            assert(s@ =~= s0 + spec_render_sem_err(errs_view(v@)[i as int])
                                + "\n"@);
                        } else {
                            assert(rest.len() == 1);
                            assert(s@ =~= s0 + spec_render_sem_err(errs_view(v@)[i as int]));
                        }
                    }
                    i = i + 1;
                }
                s
            },
            CompileError::Lowering(e) => e.render(),
            CompileError::Typestate(s) => {
                let mut out = String::new();
                out.append(s.as_str());
                out
            },
            CompileError::Codegen(_) => "Code generation failed".to_owned(),
        }
    }
}

/// Runs the whole pipeline on a parsed program. On success, the result is
/// exactly the concatenation, in declaration order, of the emitted text of
/// each function of a lowering of the program — a lowering that is
/// well-formed, faithful to the signature map, and accepted by the
/// typestate verifier; each function's text comes from the exactly
/// specified emitter over its flattened stream and its total, in-pool
/// register allocation.
pub fn compile(prog: &ast::Program) -> (r: Result<String, CompileError>)
    ensures
        match r {
            Ok(s) => spec_check_program(*prog).len() == 0 && (exists|
                ir: Seq<(String, CFG)>,
                allocs: Seq<Seq<(usize, usize)>>,
                flats: Seq<Seq<Instruction>>,
                outs: Seq<Seq<char>>,
            |
                {
                    &&& lowered_for(*prog, ir)
                    &&& spec_check_from(*prog, ir, 0) is None
                    &&& #[trigger] backend_outputs(*prog, ir, allocs, flats, outs)
                    &&& s@ == spec_concat(outs)
                }),
            Err(e) => match e {
                CompileError::Semantic(v) => errs_view(v@) =~= spec_check_program(*prog)
                    && v@.len() > 0,
                CompileError::Typestate(s) => spec_check_program(*prog).len() == 0 && (exists|
                    ir: Seq<(String, CFG)>,
                |
                    {
                        &&& #[trigger] lowered_for(*prog, ir)
                        &&& spec_check_from(*prog, ir, 0) matches Some(err) && s@
                            == spec_render_ts_err(err)
                    }),
                _ => spec_check_program(*prog).len() == 0,
            },
        },
{
    match crate::semantic::check(prog) {
        Err(v) => {
            return Err(CompileError::Semantic(v));
        },
        Ok(()) => {},
    }

    let ir = match lower(prog) {
        Ok(v) => v,
        Err(e) => {
            return Err(CompileError::Lowering(e));
        },
    };

    match typestate::check(prog, &ir) {
        Err(s) => {
            proof {
                assert(lowered_for(*prog, ir@));
            }
            return Err(CompileError::Typestate(s));
        },
        Ok(()) => {},
    }

    let mut assembly = String::new();
    let ghost mut g_allocs: Seq<Seq<(usize, usize)>> = Seq::empty();
    let ghost mut g_flats: Seq<Seq<Instruction>> = Seq::empty();
    let ghost mut g_outs: Seq<Seq<char>> = Seq::empty();
    let mut i: usize = 0;
    while i < ir.len()
        invariant
            i <= ir@.len(),
            spec_check_program(*prog).len() == 0,
            lowered_for(*prog, ir@),
            spec_check_from(*prog, ir@, 0) is None,
            forall|j: int|
                0 <= j < ir@.len() ==> crate::cfg::cfg_wf((#[trigger] ir@[j]).1),
            g_allocs.len() == i,
            g_flats.len() == i,
            g_outs.len() == i,
            assembly@ == spec_concat(g_outs),
            forall|j: int|
                0 <= j < i ==> {
                    &&& alloc_in_pool(#[trigger] g_allocs[j])
                    &&& (forall|x: usize|
                        spec_referenced(ir@[j].1, x as int) ==> id_find(g_allocs[j], x) is Some)
                    &&& spec_flattened(ir@[j].1, g_flats[j])
                    &&& spec_generate(prog.functions@[j].name@, g_flats[j], g_allocs[j]) == Ok::<
                        Seq<char>,
                        (),
                    >(g_outs[j])
                },
        decreases ir@.len() - i,
    {
        let (func_name, c) = &ir[i];
        let liveness = analyse(c);
        let allocation = allocate(c, &liveness);
        let instructions = c.flatten();
        match generate(func_name, &instructions, &allocation) {
            Ok(text) => {
                let ghost outs_pre: Seq<Seq<char>> = g_outs;
                assembly.append(text.as_str());
                proof {
                    g_allocs = g_allocs.push(allocation@);
                    g_flats = g_flats.push(instructions@);
                    g_outs = g_outs.push(text@);
                    lemma_spec_concat_push(outs_pre, text@);
                }
            },
            Err(e) => {
                return Err(CompileError::Codegen(e));
            },
        }
        i = i + 1;
    }

    proof {
        assert(lowered_for(*prog, ir@) && spec_check_from(*prog, ir@, 0) is None
            && backend_outputs(*prog, ir@, g_allocs, g_flats, g_outs) && assembly@ == spec_concat(
            g_outs,
        ));
    }
    Ok(assembly)
}

} // verus!
