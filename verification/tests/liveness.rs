use peric::cfg::{Terminator, CFG};
use peric::ir::{Instruction, Op, VirtualRegister};
use peric::liveness::analyse;

#[test]
fn test_simple_liveness() {
    // BB0: x = 10; return x
    let mut cfg = CFG::new();
    let bb0 = cfg.add_block();

    let x = VirtualRegister { id: 0 };
    cfg.block_mut(bb0).push(Instruction::new(Op::LoadImm(10), Some(x), vec![]));
    cfg.block_mut(bb0).set_terminator(Terminator::Return(Some(x)));

    let result = analyse(&cfg);
    let bb0_liveness = &result[bb0];

    // x is defined by the load
    assert!(bb0_liveness.def_set.contains(&x));
    // the terminator reads x only after the block defined it, so it is not
    // in `use`, and nothing is live into the block
    assert!(!bb0_liveness.use_set.contains(&x));
    assert!(!bb0_liveness.live_in.contains(&x));
}

#[test]
fn liveness_use_before_def() {
    // BB0: jump BB1;  BB1: y = x + x; return y
    let mut cfg = CFG::new();
    let bb0 = cfg.add_block();
    let bb1 = cfg.add_block();

    let x = VirtualRegister { id: 0 };
    let y = VirtualRegister { id: 1 };
    cfg.block_mut(bb0).set_terminator(Terminator::Jump(bb1));
    cfg.block_mut(bb1).push(Instruction::new(Op::Add, Some(y), vec![x, x]));
    cfg.block_mut(bb1).set_terminator(Terminator::Return(Some(y)));

    let result = analyse(&cfg);
    // x is read before any definition in BB1
    assert!(result[bb1].use_set.contains(&x));
    assert!(result[bb1].live_in.contains(&x));
    assert!(result[bb1].def_set.contains(&y));
    assert!(!result[bb1].live_in.contains(&y));
    // whatever BB1 needs is live out of, and into, BB0
    assert!(result[bb0].live_out.contains(&x));
    assert!(result[bb0].live_in.contains(&x));
}

#[test]
fn liveness_branch_union() {
    // BB0: branch c -> BB1 | BB2;  BB1 reads a;  BB2 reads b
    let mut cfg = CFG::new();
    let bb0 = cfg.add_block();
    let bb1 = cfg.add_block();
    let bb2 = cfg.add_block();

    let c = VirtualRegister { id: 0 };
    let a = VirtualRegister { id: 1 };
    let b = VirtualRegister { id: 2 };
    cfg.block_mut(bb0).set_terminator(Terminator::Branch {
        cond: c,
        then_block: bb1,
        else_block: bb2,
    });
    cfg.block_mut(bb1).set_terminator(Terminator::Return(Some(a)));
    cfg.block_mut(bb2).set_terminator(Terminator::Return(Some(b)));

    let result = analyse(&cfg);
    // the branch condition is a use of BB0
    assert!(result[bb0].use_set.contains(&c));
    // live out of BB0 is the union of the arms' needs
    assert!(result[bb0].live_out.contains(&a));
    assert!(result[bb0].live_out.contains(&b));
    assert!(!result[bb0].live_out.contains(&c));
}
