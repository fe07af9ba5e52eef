//! Assembly emission: one RISC-V text line per instruction, under a fixed
//! prologue (16-byte frame, return address saved at offset 12) and an
//! epilogue emitted at every `Ret`. Arguments move left-to-right into
//! `a0..a7` (more than eight is a known gap); the return value travels in
//! `a0`. The exact emitted text is specified character for character.

use vstd::prelude::*;
use vstd::string::StringExecFns;
use crate::decimal::{dec_i32_string, dec_usize_string, spec_dec_int, spec_dec_nat};
use crate::ir::{Instruction, Op, VirtualRegister};
use crate::regalloc::{id_find, Allocation};

verus! {

/// Emission fails only on a malformed instruction: a register with no
/// allocation, a missing destination or argument, or a call passing more
/// arguments than the eight argument registers hold. The pipeline never
/// produces one.
#[derive(Debug)]
pub enum CodegenError {
    UnmappedRegister,
    MissingDestination,
    MissingArgument,
    TooManyArguments,
}

/// The name of physical scratch register `p`.
pub open spec fn spec_phys_name(p: int) -> Seq<char> {
    if p == 0 {
        "t0"@
    } else if p == 1 {
        "t1"@
    } else if p == 2 {
        "t2"@
    } else if p == 3 {
        "t3"@
    } else if p == 4 {
        "t4"@
    } else if p == 5 {
        "t5"@
    } else {
        "t6"@
    }
}

/// The scratch register pool, `t0` to `t6`.
pub fn phys_name(p: usize) -> (r: &'static str)
    requires
        p < 7,
    ensures
        r@ == spec_phys_name(p as int),
{
    match p {
        0 => "t0",
        1 => "t1",
        2 => "t2",
        3 => "t3",
        4 => "t4",
        5 => "t5",
        _ => "t6",
    }
}

/// The rendered name of the physical register allocated to `r`.
pub open spec fn spec_reg_of(a: Seq<(usize, usize)>, r: VirtualRegister) -> Result<Seq<char>, ()> {
    match id_find(a, r.id) {
        Some(p) => if p < 7 {
            Ok(spec_phys_name(p as int))
        } else {
            Err(())
        },
        None => Err(()),
    }
}

pub open spec fn spec_dest_of(a: Seq<(usize, usize)>, i: Instruction) -> Result<Seq<char>, ()> {
    match i.destination {
        Some(d) => spec_reg_of(a, d),
        None => Err(()),
    }
}

pub open spec fn spec_arg_of(a: Seq<(usize, usize)>, i: Instruction, k: int) -> Result<
    Seq<char>,
    (),
> {
    if 0 <= k < i.args@.len() {
        spec_reg_of(a, i.args@[k])
    } else {
        Err(())
    }
}

/// The mnemonic of a three-address or two-address operation.
pub open spec fn spec_mnemonic(op: Op) -> Seq<char> {
    match op {
        Op::Add => "add"@,
        Op::Sub => "sub"@,
        Op::Mul => "mul"@,
        Op::Div => "div"@,
        Op::Rem => "rem"@,
        Op::And => "and"@,
        Op::Or => "or"@,
        Op::Xor => "xor"@,
        Op::Sll => "sll"@,
        Op::Srl => "srl"@,
        Op::CmpEq => "seq"@,
        Op::CmpNe => "sne"@,
        Op::CmpLt => "slt"@,
        Op::CmpLe => "sle"@,
        Op::CmpGt => "sgt"@,
        Op::CmpGe => "sge"@,
        Op::Neg => "neg"@,
        Op::Not => "not"@,
        _ => Seq::empty(),
    }
}

/// The argument moves before a call: `mv a{k}, {arg}` for each argument.
pub open spec fn spec_call_moves(a: Seq<(usize, usize)>, i: Instruction, k: int) -> Result<
    Seq<char>,
    (),
>
    decreases i.args@.len() - k,
{
    if k < 0 || k >= i.args@.len() {
        Ok(Seq::empty())
    } else {
        match spec_reg_of(a, i.args@[k]) {
            Err(e) => Err(e),
            Ok(rs) => match spec_call_moves(a, i, k + 1) {
                Err(e) => Err(e),
                Ok(rest) => Ok("    mv a"@ + spec_dec_nat(k as nat) + ", "@ + rs + "\n"@ + rest),
            },
        }
    }
}

/// The exact text one instruction emits.
pub open spec fn spec_render_instr(a: Seq<(usize, usize)>, i: Instruction) -> Result<
    Seq<char>,
    (),
> {
    match i.operation {
        Op::LoadImm(v) => match spec_dest_of(a, i) {
            Err(e) => Err(e),
            Ok(rd) => Ok("    li "@ + rd + ", "@ + spec_dec_int(v as int) + "\n"@),
        },
        Op::LoadAddr(addr) => match spec_dest_of(a, i) {
            Err(e) => Err(e),
            Ok(rd) => Ok("    li "@ + rd + ", "@ + spec_dec_nat(addr as nat) + "\n"@),
        },
        Op::LoadWord => match (spec_dest_of(a, i), spec_arg_of(a, i, 0)) {
            (Ok(rd), Ok(rs)) => Ok("    lw "@ + rd + ", 0("@ + rs + ")\n"@),
            _ => Err(()),
        },
        Op::StoreWord => match (spec_arg_of(a, i, 0), spec_arg_of(a, i, 1)) {
            (Ok(addr_reg), Ok(val_reg)) => Ok("    sw "@ + val_reg + ", 0("@ + addr_reg + ")\n"@),
            _ => Err(()),
        },
        Op::Mov => match (spec_dest_of(a, i), spec_arg_of(a, i, 0)) {
            (Ok(rd), Ok(rs)) => Ok("    mv "@ + rd + ", "@ + rs + "\n"@),
            _ => Err(()),
        },
        Op::MovArg(n) => if n < 8 {
            match spec_dest_of(a, i) {
                Err(e) => Err(e),
                Ok(rd) => Ok("    mv "@ + rd + ", a"@ + spec_dec_nat(n as nat) + "\n"@),
            }
        } else {
            Err(())
        },
        Op::Call(target) => if i.args@.len() > 8 {
            Err(())
        } else {
            match spec_call_moves(a, i, 0) {
                Err(e) => Err(e),
                Ok(moves) => match i.destination {
                    Some(d) => match spec_reg_of(a, d) {
                        Err(e) => Err(e),
                        Ok(rd) => Ok(
                            moves + "    call "@ + target@ + "\n"@ + "    mv "@ + rd + ", a0\n"@,
                        ),
                    },
                    None => Ok(moves + "    call "@ + target@ + "\n"@),
                },
            }
        },
        Op::Ret(v) => match v {
            Some(r) => match spec_reg_of(a, r) {
                Err(e) => Err(e),
                Ok(rs) => Ok(
                    "    mv a0, "@ + rs + "\n"@
                        + "    lw ra, 12(sp)\n    addi sp, sp, 16\n    ret\n\n"@,
                ),
            },
            None => Ok("    lw ra, 12(sp)\n    addi sp, sp, 16\n    ret\n\n"@),
        },
        Op::Label(l) => Ok(l@ + ":\n"@),
        Op::Jump(target) => Ok("    j "@ + target@ + "\n"@),
        Op::BranchIfFalse(target) => match spec_arg_of(a, i, 0) {
            Err(e) => Err(e),
            Ok(rs) => Ok("    beqz "@ + rs + ", "@ + target@ + "\n"@),
        },
        Op::Neg => match (spec_dest_of(a, i), spec_arg_of(a, i, 0)) {
            (Ok(rd), Ok(rs)) => Ok(
                "    "@ + spec_mnemonic(i.operation) + " "@ + rd + ", "@ + rs + "\n"@,
            ),
            _ => Err(()),
        },
        Op::Not => match (spec_dest_of(a, i), spec_arg_of(a, i, 0)) {
            (Ok(rd), Ok(rs)) => Ok(
                "    "@ + spec_mnemonic(i.operation) + " "@ + rd + ", "@ + rs + "\n"@,
            ),
            _ => Err(()),
        },
        _ => match (spec_dest_of(a, i), spec_arg_of(a, i, 0), spec_arg_of(a, i, 1)) {
            (Ok(rd), Ok(r1), Ok(r2)) => Ok(
                "    "@ + spec_mnemonic(i.operation) + " "@ + rd + ", "@ + r1 + ", "@ + r2 + "\n"@,
            ),
            _ => Err(()),
        },
    }
}

/// The text the instructions from index `k` on emit, stopped at the first
/// malformed instruction.
pub open spec fn spec_render_from(
    a: Seq<(usize, usize)>,
    instrs: Seq<Instruction>,
    k: int,
) -> Result<Seq<char>, ()>
    decreases instrs.len() - k,
{
    if k < 0 || k >= instrs.len() {
        Ok(Seq::empty())
    } else {
        match spec_render_instr(a, instrs[k]) {
            Err(e) => Err(e),
            Ok(line) => match spec_render_from(a, instrs, k + 1) {
                Err(e) => Err(e),
                Ok(rest) => Ok(line + rest),
            },
        }
    }
}

/// The fixed per-function prologue: section and symbol directives, frame
/// adjustment and return-address save.
pub open spec fn spec_prologue(name: Seq<char>) -> Seq<char> {
    ".section .text\n"@ + ".global "@ + name + "\n"@ + name + ":\n"@ + "    addi sp, sp, -16\n"@
        + "    sw ra, 12(sp)\n"@
}

/// The whole text one function emits.
pub open spec fn spec_generate(
    name: Seq<char>,
    instrs: Seq<Instruction>,
    a: Seq<(usize, usize)>,
) -> Result<Seq<char>, ()> {
    match spec_render_from(a, instrs, 0) {
        Err(e) => Err(e),
        Ok(body) => Ok(spec_prologue(name) + body),
    }
}

/// The allocated register's name, or the emission error.
fn reg_str(a: &Allocation, r: &VirtualRegister) -> (res: Result<&'static str, CodegenError>)
    ensures
        match res {
            Ok(s) => spec_reg_of(a@, *r) == Ok::<Seq<char>, ()>(s@),
            Err(_) => spec_reg_of(a@, *r) is Err,
        },
{
    match a.get(r) {
        Some(p) => {
            if p < 7 {
                Ok(phys_name(p))
            } else {
                Err(CodegenError::UnmappedRegister)
            }
        },
        None => Err(CodegenError::UnmappedRegister),
    }
}

fn dest_str(a: &Allocation, i: &Instruction) -> (res: Result<&'static str, CodegenError>)
    ensures
        match res {
            Ok(s) => spec_dest_of(a@, *i) == Ok::<Seq<char>, ()>(s@),
            Err(_) => spec_dest_of(a@, *i) is Err,
        },
{
    match &i.destination {
        Some(d) => reg_str(a, d),
        None => Err(CodegenError::MissingDestination),
    }
}

fn arg_str(a: &Allocation, i: &Instruction, k: usize) -> (res: Result<&'static str, CodegenError>)
    ensures
        match res {
            Ok(s) => spec_arg_of(a@, *i, k as int) == Ok::<Seq<char>, ()>(s@),
            Err(_) => spec_arg_of(a@, *i, k as int) is Err,
        },
{
    if k < i.args.len() {
        reg_str(a, &i.args[k])
    } else {
        Err(CodegenError::MissingArgument)
    }
}

/// The mnemonic of a three-address or two-address operation.
fn mnemonic(op: &Op) -> (r: &'static str)
    ensures
        r@ == spec_mnemonic(*op),
{
    match op {
        Op::Add => "add",
        Op::Sub => "sub",
        Op::Mul => "mul",
        Op::Div => "div",
        Op::Rem => "rem",
        Op::And => "and",
        Op::Or => "or",
        Op::Xor => "xor",
        Op::Sll => "sll",
        Op::Srl => "srl",
        Op::CmpEq => "seq",
        Op::CmpNe => "sne",
        Op::CmpLt => "slt",
        Op::CmpLe => "sle",
        Op::CmpGt => "sgt",
        Op::CmpGe => "sge",
        Op::Neg => "neg",
        Op::Not => "not",
        _ => {
            proof {
                reveal_strlit("");
            }
            ""
        },
    }
}

/// Renders one instruction exactly as its model prescribes.
#[verifier::rlimit(20)]
fn render_instr(a: &Allocation, i: &Instruction) -> (res: Result<String, CodegenError>)
    ensures
        match res {
            Ok(s) => spec_render_instr(a@, *i) == Ok::<Seq<char>, ()>(s@),
            Err(_) => spec_render_instr(a@, *i) is Err,
        },
{
    match &i.operation {
        Op::LoadImm(v) => {
            let rd = match dest_str(a, i) {
                Ok(s) => s,
                Err(e) => {
                    return Err(e);
                },
            };
            let mut s: String = "    li ".to_owned();
            s.append(rd);
            s.append(", ");
            s.append(dec_i32_string(*v).as_str());
            s.append("\n");
            Ok(s)
        },
        Op::LoadAddr(addr) => {
            let rd = match dest_str(a, i) {
                Ok(s) => s,
                Err(e) => {
                    return Err(e);
                },
            };
            let addr_usize: usize = (*addr) as usize;
            let mut s: String = "    li ".to_owned();
            s.append(rd);
            s.append(", ");
            s.append(dec_usize_string(addr_usize).as_str());
            s.append("\n");
            Ok(s)
        },
        Op::LoadWord => {
            let rd = match dest_str(a, i) {
                Ok(s) => s,
                Err(e) => {
                    return Err(e);
                },
            };
            let rs = match arg_str(a, i, 0) {
                Ok(s) => s,
                Err(e) => {
                    return Err(e);
                },
            };
            let mut s: String = "    lw ".to_owned();
            s.append(rd);
            s.append(", 0(");
            s.append(rs);
            s.append(")\n");
            Ok(s)
        },
        Op::StoreWord => {
            let addr_reg = match arg_str(a, i, 0) {
                Ok(s) => s,
                Err(e) => {
                    return Err(e);
                },
            };
            let val_reg = match arg_str(a, i, 1) {
                Ok(s) => s,
                Err(e) => {
                    return Err(e);
                },
            };
            let mut s: String = "    sw ".to_owned();
            s.append(val_reg);
            s.append(", 0(");
            s.append(addr_reg);
            s.append(")\n");
            Ok(s)
        },
        Op::Mov => {
            let rd = match dest_str(a, i) {
                Ok(s) => s,
                Err(e) => {
                    return Err(e);
                },
            };
            let rs = match arg_str(a, i, 0) {
                Ok(s) => s,
                Err(e) => {
                    return Err(e);
                },
            };
            let mut s: String = "    mv ".to_owned();
            s.append(rd);
            s.append(", ");
            s.append(rs);
            s.append("\n");
            Ok(s)
        },
        Op::MovArg(n) => {
            if *n >= 8 {
                return Err(CodegenError::TooManyArguments);
            }
            let rd = match dest_str(a, i) {
                Ok(s) => s,
                Err(e) => {
                    return Err(e);
                },
            };
            let mut s: String = "    mv ".to_owned();
            s.append(rd);
            s.append(", a");
            s.append(dec_usize_string(*n).as_str());
            s.append("\n");
            Ok(s)
        },
        Op::Call(target) => {
            if i.args.len() > 8 {
                return Err(CodegenError::TooManyArguments);
            }
            let mut s = String::new();
            proof {
                match spec_call_moves(a@, *i, 0) {
                    Ok(rest) => {
                        assert(Seq::<char>::empty() + rest =~= rest);
                    },
                    Err(_) => {},
                }
            }
            let mut k: usize = 0;
            while k < i.args.len()
                invariant
                    k <= i.args@.len(),
                    i.args@.len() <= 8,
                    i.operation is Call,
                    spec_call_moves(a@, *i, 0) == (match spec_call_moves(a@, *i, k as int) {
                        Err(e) => Err::<Seq<char>, ()>(e),
                        Ok(rest) => Ok::<Seq<char>, ()>(s@ + rest),
                    }),
                decreases i.args@.len() - k,
            {
                let ghost s0: Seq<char> = s@;
                let rs = match arg_str(a, i, k) {
                    Ok(r) => r,
                    Err(e) => {
                        return Err(e);
                    },
                };
                s.append("    mv a");
                s.append(dec_usize_string(k).as_str());
                s.append(", ");
                s.append(rs);
                s.append("\n");
                proof {
                    let move_k = "    mv a"@ + spec_dec_nat(k as nat) + ", "@ + rs@ + "\n"@;
                    assert(s@ =~= s0 + move_k);
                    match spec_call_moves(a@, *i, k + 1) {
                        Ok(rest) => {
                            assert(s0 + (move_k + rest) =~= (s0 + move_k) + rest);
                        },
                        Err(_) => {},
                    }
                }
                k = k + 1;
            }
            s.append("    call ");
            s.append(target.as_str());
            s.append("\n");
            match &i.destination {
                Some(d) => {
                    let rd = match reg_str(a, d) {
                        Ok(r) => r,
                        Err(e) => {
                            return Err(e);
                        },
                    };
                    s.append("    mv ");
                    s.append(rd);
                    s.append(", a0\n");
                },
                None => {},
            }
            Ok(s)
        },
        Op::Ret(v) => {
            let mut s = String::new();
            match v {
                Some(r) => {
                    let rs = match reg_str(a, r) {
                        Ok(x) => x,
                        Err(e) => {
                            return Err(e);
                        },
                    };
                    s.append("    mv a0, ");
                    s.append(rs);
                    s.append("\n");
                },
                None => {},
            }
            s.append("    lw ra, 12(sp)\n    addi sp, sp, 16\n    ret\n\n");
            Ok(s)
        },
        Op::Label(l) => {
            let mut s = l.clone();
            s.append(":\n");
            Ok(s)
        },
        Op::Jump(target) => {
            let mut s: String = "    j ".to_owned();
            s.append(target.as_str());
            s.append("\n");
            Ok(s)
        },
        Op::BranchIfFalse(target) => {
            let rs = match arg_str(a, i, 0) {
                Ok(s) => s,
                Err(e) => {
                    return Err(e);
                },
            };
            let mut s: String = "    beqz ".to_owned();
            s.append(rs);
            s.append(", ");
            s.append(target.as_str());
            s.append("\n");
            Ok(s)
        },
        Op::Neg => {
            let rd = match dest_str(a, i) {
                Ok(s) => s,
                Err(e) => {
                    return Err(e);
                },
            };
            let rs = match arg_str(a, i, 0) {
                Ok(s) => s,
                Err(e) => {
                    return Err(e);
                },
            };
            let mut s: String = "    ".to_owned();
            s.append(mnemonic(&i.operation));
            s.append(" ");
            s.append(rd);
            s.append(", ");
            s.append(rs);
            s.append("\n");
            Ok(s)
        },
        Op::Not => {
            let rd = match dest_str(a, i) {
                Ok(s) => s,
                Err(e) => {
                    return Err(e);
                },
            };
            let rs = match arg_str(a, i, 0) {
                Ok(s) => s,
                Err(e) => {
                    return Err(e);
                },
            };
            let mut s: String = "    ".to_owned();
            s.append(mnemonic(&i.operation));
            s.append(" ");
            s.append(rd);
            s.append(", ");
            s.append(rs);
            s.append("\n");
            Ok(s)
        },
        _ => {
            let rd = match dest_str(a, i) {
                Ok(s) => s,
                Err(e) => {
                    return Err(e);
                },
            };
            let r1 = match arg_str(a, i, 0) {
                Ok(s) => s,
                Err(e) => {
                    return Err(e);
                },
            };
            let r2 = match arg_str(a, i, 1) {
                Ok(s) => s,
                Err(e) => {
                    return Err(e);
                },
            };
            let mut s: String = "    ".to_owned();
            s.append(mnemonic(&i.operation));
            s.append(" ");
            s.append(rd);
            s.append(", ");
            s.append(r1);
            s.append(", ");
            s.append(r2);
            s.append("\n");
            Ok(s)
        },
    }
}

/// Emits a function's assembly: the fixed prologue, then one rendering per
/// instruction of the linear stream, exactly as the model prescribes.
pub fn generate(func_name: &String, instructions: &Vec<Instruction>, allocation: &Allocation) -> (r:
    Result<String, CodegenError>)
    ensures
        match r {
            Ok(s) => spec_generate(func_name@, instructions@, allocation@) == Ok::<Seq<char>, ()>(
                s@,
            ),
            Err(_) => spec_generate(func_name@, instructions@, allocation@) is Err,
        },
{
    let mut out: String = ".section .text\n".to_owned();
    out.append(".global ");
    out.append(func_name.as_str());
    out.append("\n");
    out.append(func_name.as_str());
    out.append(":\n");
    out.append("    addi sp, sp, -16\n");
    out.append("    sw ra, 12(sp)\n");
    proof {
        assert(out@ == spec_prologue(func_name@));
    }

    let ghost prologue: Seq<char> = out@;
    let mut k: usize = 0;
    while k < instructions.len()
        invariant
            k <= instructions@.len(),
            prologue == spec_prologue(func_name@),
            spec_render_from(allocation@, instructions@, 0) == (match spec_render_from(
                allocation@,
                instructions@,
                k as int,
            ) {
                Err(e) => Err::<Seq<char>, ()>(e),
                Ok(rest) => Ok::<Seq<char>, ()>(out@.skip(prologue.len() as int) + rest),
            }),
            out@.subrange(0, prologue.len() as int) == prologue,
            prologue.len() <= out@.len(),
        decreases instructions@.len() - k,
    {
        let ghost out0: Seq<char> = out@;
        let ghost acc0: Seq<char> = out@.skip(prologue.len() as int);
        let line = match render_instr(allocation, &instructions[k]) {
            Ok(l) => l,
            Err(e) => {
                return Err(e);
            },
        };
        out.append(line.as_str());
        proof {
            assert(out@.subrange(0, prologue.len() as int) =~= prologue);
            assert(out@.skip(prologue.len() as int) =~= acc0 + line@);
            match spec_render_from(allocation@, instructions@, k + 1) {
                Err(_) => {},
                Ok(rest) => {
                    assert(acc0 + (line@ + rest) =~= (acc0 + line@) + rest);
                },
            }
        }
        k = k + 1;
    }
    proof {
        assert(out@.skip(prologue.len() as int) + Seq::<char>::empty() =~= out@.skip(
            prologue.len() as int,
        ));
        assert(prologue + out@.skip(prologue.len() as int) =~= out@);
    }
    Ok(out)
}

} // verus!
