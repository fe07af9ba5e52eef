//! The machine-level intermediate representation: virtual registers and
//! instructions. Every instruction has an operation, an optional destination
//! register (written at most once) and a list of argument registers (reads).

use vstd::prelude::*;

verus! {

/// A compiler-generated register identity: a dense integer, fresh per function.
#[derive(Debug, Clone, Copy, Hash, PartialEq, Eq, Structural)]
pub struct VirtualRegister {
    pub id: usize,
}

/// A machine-level operation. Control-flow operations carry label strings;
/// `Call` carries the callee name; the arithmetic, bitwise and comparison
/// operations read their two arguments (one for the unary `Neg` and `Not`).
#[derive(Debug, Clone)]
pub enum Op {
    LoadImm(i32),
    LoadAddr(u32),
    LoadWord,
    StoreWord,
    Mov,
    MovArg(usize),
    Call(String),
    Ret(Option<VirtualRegister>),
    Label(String),
    Jump(String),
    BranchIfFalse(String),
    Add,
    Sub,
    Mul,
    Div,
    Rem,
    And,
    Or,
    Xor,
    Sll,
    Srl,
    Neg,
    Not,
    CmpEq,
    CmpNe,
    CmpLt,
    CmpLe,
    CmpGt,
    CmpGe,
}

/// One machine instruction: an operation, an optional destination virtual
/// register, and the argument virtual registers it reads.
#[derive(Debug, Clone)]
pub struct Instruction {
    pub operation: Op,
    pub destination: Option<VirtualRegister>,
    pub args: Vec<VirtualRegister>,
}

/// The mathematical model of an operation: label, target and callee names
/// as character sequences.
pub enum OpV {
    LoadImm(i32),
    LoadAddr(u32),
    LoadWord,
    StoreWord,
    Mov,
    MovArg(usize),
    Call(Seq<char>),
    Ret(Option<VirtualRegister>),
    Label(Seq<char>),
    Jump(Seq<char>),
    BranchIfFalse(Seq<char>),
    Add,
    Sub,
    Mul,
    Div,
    Rem,
    And,
    Or,
    Xor,
    Sll,
    Srl,
    Neg,
    Not,
    CmpEq,
    CmpNe,
    CmpLt,
    CmpLe,
    CmpGt,
    CmpGe,
}

/// The mathematical model of an instruction.
pub struct InstrV {
    pub operation: OpV,
    pub destination: Option<VirtualRegister>,
    pub args: Seq<VirtualRegister>,
}

impl View for Op {
    type V = OpV;

    open spec fn view(&self) -> OpV {
        match self {
            Op::LoadImm(v) => OpV::LoadImm(*v),
            Op::LoadAddr(a) => OpV::LoadAddr(*a),
            Op::LoadWord => OpV::LoadWord,
            Op::StoreWord => OpV::StoreWord,
            Op::Mov => OpV::Mov,
            Op::MovArg(n) => OpV::MovArg(*n),
            Op::Call(s) => OpV::Call(s@),
            Op::Ret(v) => OpV::Ret(*v),
            Op::Label(s) => OpV::Label(s@),
            Op::Jump(s) => OpV::Jump(s@),
            Op::BranchIfFalse(s) => OpV::BranchIfFalse(s@),
            Op::Add => OpV::Add,
            Op::Sub => OpV::Sub,
            Op::Mul => OpV::Mul,
            Op::Div => OpV::Div,
            Op::Rem => OpV::Rem,
            Op::And => OpV::And,
            Op::Or => OpV::Or,
            Op::Xor => OpV::Xor,
            Op::Sll => OpV::Sll,
            Op::Srl => OpV::Srl,
            Op::Neg => OpV::Neg,
            Op::Not => OpV::Not,
            Op::CmpEq => OpV::CmpEq,
            Op::CmpNe => OpV::CmpNe,
            Op::CmpLt => OpV::CmpLt,
            Op::CmpLe => OpV::CmpLe,
            Op::CmpGt => OpV::CmpGt,
            Op::CmpGe => OpV::CmpGe,
        }
    }
}

impl View for Instruction {
    type V = InstrV;

    open spec fn view(&self) -> InstrV {
        InstrV { operation: self.operation@, destination: self.destination, args: self.args@ }
    }
}


impl Instruction {
    pub fn new(
        operation: Op,
        destination: Option<VirtualRegister>,
        args: Vec<VirtualRegister>,
    ) -> (r: Self)
        ensures
            r == (Instruction { operation, destination, args }),
    {
        Instruction { operation, destination, args }
    }
}

} // verus!
