//! The surface abstract syntax tree: peripheral declarations and functions,
//! as the parser hands them to the compiler core.

use vstd::prelude::*;

verus! {

/// A whole source program: an ordered sequence of peripheral declarations
/// and function definitions.
#[derive(Debug)]
pub struct Program {
    pub peripherals: Vec<Peripheral>,
    pub functions: Vec<Function>,
}

/// A memory-mapped hardware peripheral: a finite, non-empty set of state
/// names, an initial state drawn from it, an optional base address, and
/// named registers grouped by width.
#[derive(Debug, Clone)]
pub struct Peripheral {
    pub name: String,
    pub base_address: Option<u32>,
    pub states: Vec<String>,
    pub initial: String,
    pub register_blocks: Vec<RegisterBlock>,
}

/// Registers of one width, each at an offset from the peripheral's base.
#[derive(Debug, Clone)]
pub struct RegisterBlock {
    pub width: RegisterWidth,
    pub registers: Vec<RegisterDef>,
}

#[derive(Debug, Clone, Copy, PartialEq, Eq, Structural)]
pub enum RegisterWidth {
    W8,
    W16,
    W32,
}

#[derive(Debug, Clone)]
pub struct RegisterDef {
    pub name: String,
    pub offset: u32,
}

/// A function definition. `signature` is the optional typestate annotation
/// `P<Sin> -> P<Sout>`; a function that has one is a driver.
#[derive(Debug)]
pub struct Function {
    pub name: String,
    pub args: Vec<(String, Type)>,
    pub signature: Option<TypeState>,
    pub body: Vec<Statement>,
}

/// A typestate signature: calling the function requires `peripheral` to be
/// in `input_state` and leaves it in `output_state`.
#[derive(Debug)]
pub struct TypeState {
    pub peripheral: String,
    pub input_state: String,
    pub output_state: String,
}

impl Clone for TypeState {
    fn clone(&self) -> (res: Self)
        ensures
            res.peripheral@ == self.peripheral@,
            res.input_state@ == self.input_state@,
            res.output_state@ == self.output_state@,
    {
        TypeState {
            peripheral: self.peripheral.clone(),
            input_state: self.input_state.clone(),
            output_state: self.output_state.clone(),
        }
    }
}

/// Parameter and expression types of the source language.
#[derive(Debug, Clone, Copy, PartialEq, Eq, Structural)]
pub enum Type {
    I32,
}

#[derive(Debug)]
pub enum Statement {
    Let { var_name: String, value: Expr },
    Assign { var_name: String, value: Expr },
    Expr { expr: Expr },
    Return { expr: Option<Expr> },
    If { cond: Expr, then_block: Vec<Statement>, else_block: Vec<Statement> },
    While { cond: Expr, body: Vec<Statement> },
    PeripheralWrite { peripheral: String, register: String, value: Expr },
}

#[derive(Debug)]
pub enum Expr {
    IntLit { value: i32 },
    Variable { name: String },
    FnCall { name: String, args: Vec<Expr> },
    Binary { op: BinOp, left: Box<Expr>, right: Box<Expr> },
    Unary { op: UnOp, operand: Box<Expr> },
    PeripheralRead { peripheral: String, register: String },
}

/// Binary operators of the surface language. Logical `&&`/`||` are lowered
/// to the bitwise operations; short-circuit evaluation is a known gap.
#[derive(Debug, Clone, Copy, PartialEq, Eq, Structural)]
pub enum BinOp {
    Mul,
    Div,
    Rem,
    Add,
    Sub,
    Shl,
    Shr,
    Lt,
    Le,
    Gt,
    Ge,
    EqEq,
    NotEq,
    BitAnd,
    BitXor,
    BitOr,
    LogicalAnd,
    LogicalOr,
}

#[derive(Debug, Clone, Copy, PartialEq, Eq, Structural)]
pub enum UnOp {
    Neg,
    LogicalNot,
    BitNot,
}

} // verus!
