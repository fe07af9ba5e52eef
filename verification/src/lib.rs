//! A compiler core for a small embedded-systems language that enforces
//! peripheral typestate: source programs declare memory-mapped peripherals
//! with a finite state set, and driver functions annotated with the
//! peripheral state they require and the state they establish. The core
//! checks names and arities, lowers structured statements to a control-flow
//! graph, verifies that every driver call happens in its declared input
//! state along every path, allocates registers, and flattens the graph into
//! a linear RISC-V instruction stream.

pub mod ast;
pub mod backend;
pub mod cfg;
pub mod decimal;
pub mod env;
pub mod generator;
pub mod ir;
pub mod liveness;
pub mod lower;
pub mod regalloc;
pub mod semantic;
pub mod typestate;
