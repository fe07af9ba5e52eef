use peric::ast::{BinOp, Expr, Function, Program, Statement, Type, TypeState};
use peric::cfg::{Terminator, CFG};
use peric::decimal::{dec_i32_string, dec_usize_string};
use peric::env::StateEnv;
use peric::generator::generate;
use peric::ir::{Instruction, Op, VirtualRegister};
use peric::lower::lower;
use peric::regalloc::Allocation;
use peric::semantic::{check, SemanticError};
use peric::typestate::{build_signature_map, classify_function, FunctionKind};

fn func(name: &str, signature: Option<TypeState>, body: Vec<Statement>) -> Function {
    Function { name: name.to_string(), args: vec![], signature, body }
}

fn sig(p: &str, input: &str, output: &str) -> TypeState {
    TypeState {
        peripheral: p.to_string(),
        input_state: input.to_string(),
        output_state: output.to_string(),
    }
}

#[test]
fn decimal_rendering() {
    assert_eq!(dec_usize_string(0), "0");
    assert_eq!(dec_usize_string(7), "7");
    assert_eq!(dec_usize_string(12345), "12345");
    assert_eq!(dec_i32_string(0), "0");
    assert_eq!(dec_i32_string(-42), "-42");
    assert_eq!(dec_i32_string(i32::MIN), "-2147483648");
    assert_eq!(dec_i32_string(i32::MAX), "2147483647");
}

#[test]
fn state_env_bindings() {
    let mut env = StateEnv::new();
    let t = "T".to_string();
    let off = "Off".to_string();
    let on = "On".to_string();
    assert!(env.get(&t).is_none());
    env.set(&t, &off);
    assert_eq!(env.get(&t).unwrap(), "Off");
    env.set(&t, &on);
    assert_eq!(env.get(&t).unwrap(), "On");
    assert_eq!(env.len(), 1);

    let copy = env.duplicate();
    env.set(&t, &off);
    assert_eq!(copy.get(&t).unwrap(), "On");
    assert_eq!(env.get(&t).unwrap(), "Off");
}

#[test]
fn undefined_variable_reported() {
    let prog = Program {
        peripherals: vec![],
        functions: vec![func(
            "f",
            None,
            vec![Statement::Expr { expr: Expr::Variable { name: "x".to_string() } }],
        )],
    };
    let errs = check(&prog).unwrap_err();
    assert_eq!(errs.len(), 1);
    assert_eq!(errs[0].render(), "Undefined variable 'x' in function 'f'");
}

#[test]
fn undefined_function_reported() {
    let prog = Program {
        peripherals: vec![],
        functions: vec![func(
            "f",
            None,
            vec![Statement::Expr {
                expr: Expr::FnCall { name: "g".to_string(), args: vec![] },
            }],
        )],
    };
    let errs = check(&prog).unwrap_err();
    assert_eq!(errs[0].render(), "Undefined function 'g' called from 'f'");
}

#[test]
fn arity_mismatch_reported() {
    let prog = Program {
        peripherals: vec![],
        functions: vec![
            Function {
                name: "g".to_string(),
                args: vec![("a".to_string(), Type::I32)],
                signature: None,
                body: vec![],
            },
            func(
                "f",
                None,
                vec![Statement::Expr {
                    expr: Expr::FnCall { name: "g".to_string(), args: vec![] },
                }],
            ),
        ],
    };
    let errs = check(&prog).unwrap_err();
    assert_eq!(
        errs[0].render(),
        "Function 'g' expects 1 argument(s) but 0 provided, called from 'f'"
    );
}

#[test]
fn all_errors_accumulate_in_order() {
    // a duplicate definition and an undefined variable are both reported
    let prog = Program {
        peripherals: vec![],
        functions: vec![
            func("f", None, vec![]),
            func(
                "f",
                None,
                vec![Statement::Expr { expr: Expr::Variable { name: "y".to_string() } }],
            ),
        ],
    };
    let errs = check(&prog).unwrap_err();
    assert_eq!(errs.len(), 2);
    assert!(matches!(errs[0], SemanticError::DuplicateFunction { .. }));
    assert!(matches!(errs[1], SemanticError::UndefinedVariable { .. }));
}

#[test]
fn let_scopes_do_not_escape_branches() {
    // a let inside a branch body is not visible after the if
    let prog = Program {
        peripherals: vec![],
        functions: vec![func(
            "f",
            None,
            vec![
                Statement::If {
                    cond: Expr::IntLit { value: 1 },
                    then_block: vec![Statement::Let {
                        var_name: "x".to_string(),
                        value: Expr::IntLit { value: 2 },
                    }],
                    else_block: vec![],
                },
                Statement::Expr { expr: Expr::Variable { name: "x".to_string() } },
            ],
        )],
    };
    let errs = check(&prog).unwrap_err();
    assert_eq!(errs[0].render(), "Undefined variable 'x' in function 'f'");
}

#[test]
fn classification() {
    let prog = Program {
        peripherals: vec![],
        functions: vec![
            func("leaf", Some(sig("T", "Off", "On")), vec![]),
            func(
                "composite",
                Some(sig("T", "Off", "On")),
                vec![Statement::Expr {
                    expr: Expr::FnCall { name: "leaf".to_string(), args: vec![] },
                }],
            ),
            func(
                "orchestrate",
                None,
                vec![Statement::Expr {
                    expr: Expr::FnCall { name: "leaf".to_string(), args: vec![] },
                }],
            ),
        ],
    };
    let sigs = build_signature_map(&prog);
    let ir = lower(&prog).unwrap();
    assert_eq!(
        classify_function(&prog.functions[0], &ir[0].1, &sigs),
        FunctionKind::LeafDriver
    );
    assert_eq!(
        classify_function(&prog.functions[1], &ir[1].1, &sigs),
        FunctionKind::CompositeDriver
    );
    assert_eq!(
        classify_function(&prog.functions[2], &ir[2].1, &sigs),
        FunctionKind::Orchestration
    );
}

#[test]
fn flatten_emits_one_label_per_non_entry_block() {
    let mut cfg = CFG::new();
    let bb0 = cfg.add_block();
    let bb1 = cfg.add_block();
    cfg.block_mut(bb0).set_terminator(Terminator::Jump(bb1));
    cfg.block_mut(bb1).set_terminator(Terminator::Return(None));

    let flat = cfg.flatten();
    assert_eq!(flat.len(), 3);
    match &flat[0].operation {
        Op::Jump(l) => assert_eq!(l, ".LBB1"),
        _ => panic!("expected a jump"),
    }
    match &flat[1].operation {
        Op::Label(l) => assert_eq!(l, ".LBB1"),
        _ => panic!("expected a label"),
    }
    assert!(matches!(flat[2].operation, Op::Ret(None)));
}

#[test]
fn flatten_elides_jump_to_next_block() {
    let mut cfg = CFG::new();
    let bb0 = cfg.add_block();
    let bb1 = cfg.add_block();
    cfg.block_mut(bb0).set_terminator(Terminator::Fallthrough(bb1));
    cfg.block_mut(bb1).set_terminator(Terminator::Return(None));

    let flat = cfg.flatten();
    // the fallthrough to the next block emits nothing
    assert_eq!(flat.len(), 2);
    assert!(matches!(flat[0].operation, Op::Label(_)));
    assert!(matches!(flat[1].operation, Op::Ret(None)));
}

#[test]
fn generate_exact_text() {
    let v0 = VirtualRegister { id: 0 };
    let instructions = vec![
        Instruction::new(Op::LoadImm(7), Some(v0), vec![]),
        Instruction::new(Op::Ret(Some(v0)), None, vec![v0]),
    ];
    let mut allocation = Allocation::new();
    allocation.set(0, 0);
    let name = "f".to_string();
    let out = generate(&name, &instructions, &allocation).unwrap();
    assert_eq!(
        out,
        ".section .text\n.global f\nf:\n    addi sp, sp, -16\n    sw ra, 12(sp)\n    li t0, 7\n    mv a0, t0\n    lw ra, 12(sp)\n    addi sp, sp, 16\n    ret\n\n"
    );
}

#[test]
fn signature_map_contents() {
    let prog = Program {
        peripherals: vec![],
        functions: vec![
            func("a", Some(sig("T", "Off", "On")), vec![]),
            func("b", None, vec![]),
        ],
    };
    let sigs = build_signature_map(&prog);
    let a = "a".to_string();
    let b = "b".to_string();
    let found = sigs.get(&a).unwrap();
    assert_eq!(found.peripheral, "T");
    assert_eq!(found.input_state, "Off");
    assert_eq!(found.output_state, "On");
    assert!(sigs.get(&b).is_none());
}

#[test]
fn binary_operators_emit_mnemonics() {
    let prog = Program {
        peripherals: vec![],
        functions: vec![func(
            "f",
            None,
            vec![Statement::Return {
                expr: Some(Expr::Binary {
                    op: BinOp::Add,
                    left: Box::new(Expr::IntLit { value: 1 }),
                    right: Box::new(Expr::IntLit { value: 2 }),
                }),
            }],
        )],
    };
    let out = peric::backend::compile(&prog).unwrap();
    assert!(out.contains("li t0, 1"));
    assert!(out.contains("li t1, 2"));
    assert!(out.contains("add t2, t0, t1"));
}

#[test]
fn signature_map_keeps_last_definition() {
    // under a duplicated name (rejected by the semantic check, but the map
    // is built regardless) the later signature overwrites the earlier one
    let prog = Program {
        peripherals: vec![],
        functions: vec![
            func("d", Some(sig("T", "Off", "On")), vec![]),
            func("d", Some(sig("T", "On", "Off")), vec![]),
        ],
    };
    let sigs = build_signature_map(&prog);
    let d = "d".to_string();
    let found = sigs.get(&d).unwrap();
    assert_eq!(found.input_state, "On");
    assert_eq!(found.output_state, "Off");
}
