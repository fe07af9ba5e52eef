use peric::ast::{Expr, Function, Peripheral, Program, RegisterBlock, RegisterDef, RegisterWidth,
    Statement, TypeState};
use peric::ast::{BinOp, UnOp};
use peric::backend::{compile, CompileError};
use peric::cfg::Terminator;
use peric::lower::{lower, LowerError};

fn timer() -> Peripheral {
    Peripheral {
        name: "T".to_string(),
        base_address: None,
        states: vec!["Off".to_string(), "On".to_string()],
        initial: "Off".to_string(),
        register_blocks: vec![],
    }
}

fn sig(p: &str, input: &str, output: &str) -> TypeState {
    TypeState {
        peripheral: p.to_string(),
        input_state: input.to_string(),
        output_state: output.to_string(),
    }
}

fn func(name: &str, signature: Option<TypeState>, body: Vec<Statement>) -> Function {
    Function { name: name.to_string(), args: vec![], signature, body }
}

fn call(name: &str) -> Statement {
    Statement::Expr { expr: Expr::FnCall { name: name.to_string(), args: vec![] } }
}

fn driver_program(main_body: Vec<Statement>) -> Program {
    Program {
        peripherals: vec![timer()],
        functions: vec![
            func("enable", Some(sig("T", "Off", "On")), vec![]),
            func("use_it", Some(sig("T", "On", "On")), vec![]),
            func("main", None, main_body),
        ],
    }
}

#[test]
fn trivial_accept() {
    // fn f() { return 1; }
    let prog = Program {
        peripherals: vec![],
        functions: vec![
            func("f", None, vec![Statement::Return { expr: Some(Expr::IntLit { value: 1 }) }]),
        ],
    };
    let out = compile(&prog).unwrap();
    assert!(out.contains("li t0, 1"));
    assert!(out.contains("ret"));
}

#[test]
fn duplicate_function() {
    let prog = Program {
        peripherals: vec![],
        functions: vec![func("g", None, vec![]), func("g", None, vec![])],
    };
    match compile(&prog) {
        Err(e @ CompileError::Semantic(_)) => {
            assert!(e.render().contains("Duplicate function definition 'g'"));
        }
        _ => panic!("expected a semantic error"),
    }
}

#[test]
fn valid_driver_composition() {
    let prog = driver_program(vec![call("enable"), call("use_it")]);
    assert!(compile(&prog).is_ok());
}

#[test]
fn invalid_transition() {
    let prog = driver_program(vec![call("use_it"), call("enable")]);
    match compile(&prog) {
        Err(CompileError::Typestate(s)) => {
            assert_eq!(
                s,
                "Call to 'use_it' requires 'T' in state 'On', but found 'Off', called from 'main'"
            );
        }
        _ => panic!("expected a typestate error"),
    }
}

#[test]
fn branch_mismatch() {
    // if cond { enable(); } with no else: the arms leave T in different
    // states at the end of the function
    let prog = driver_program(vec![Statement::If {
        cond: Expr::IntLit { value: 1 },
        then_block: vec![call("enable")],
        else_block: vec![],
    }]);
    match compile(&prog) {
        Err(CompileError::Typestate(s)) => {
            assert_eq!(
                s,
                "Branch in main leaves 'T' in different states: then = 'On', else = 'Off'"
            );
        }
        _ => panic!("expected a typestate error"),
    }
}

#[test]
fn branch_then_demand() {
    // the same shape followed by a driver requiring On: the else-arm walk
    // reaches that call in state Off first, so the transition error wins
    let prog = driver_program(vec![
        Statement::If {
            cond: Expr::IntLit { value: 1 },
            then_block: vec![call("enable")],
            else_block: vec![],
        },
        call("use_it"),
    ]);
    match compile(&prog) {
        Err(CompileError::Typestate(s)) => {
            assert_eq!(
                s,
                "Call to 'use_it' requires 'T' in state 'On', but found 'Off', called from 'main'"
            );
        }
        _ => panic!("expected a typestate error"),
    }
}

#[test]
fn wrong_exit_state() {
    let prog = Program {
        peripherals: vec![timer()],
        functions: vec![
            func("enable", Some(sig("T", "Off", "On")), vec![]),
            func("d", Some(sig("T", "Off", "Off")), vec![call("enable")]),
        ],
    };
    match compile(&prog) {
        Err(CompileError::Typestate(s)) => {
            assert_eq!(
                s,
                "Function 'd' declares output state 'Off' for 'T', but body produces 'On'"
            );
        }
        _ => panic!("expected a typestate error"),
    }
}

#[test]
fn empty_body_implicit_return() {
    let prog = Program { peripherals: vec![], functions: vec![func("f", None, vec![])] };
    let lowered = lower(&prog).unwrap();
    assert_eq!(lowered[0].1.blocks.len(), 1);
    assert!(matches!(lowered[0].1.blocks[0].terminator, Terminator::Return(None)));
    let out = compile(&prog).unwrap();
    assert!(out.contains("addi sp, sp, -16"));
    assert!(out.contains("sw ra, 12(sp)"));
    assert!(out.contains("lw ra, 12(sp)"));
    assert!(out.contains("ret"));
}

#[test]
fn empty_if_creates_merge_block() {
    let prog = Program {
        peripherals: vec![],
        functions: vec![func(
            "f",
            None,
            vec![Statement::If {
                cond: Expr::IntLit { value: 1 },
                then_block: vec![],
                else_block: vec![],
            }],
        )],
    };
    let lowered = lower(&prog).unwrap();
    let cfg = &lowered[0].1;
    // entry, then, else and merge blocks; nothing dangling
    assert_eq!(cfg.blocks.len(), 4);
    for b in &cfg.blocks {
        assert!(!matches!(b.terminator, Terminator::Unset));
    }
}

#[test]
fn while_body_returns() {
    // a while whose body unconditionally returns is permitted
    let prog = Program {
        peripherals: vec![],
        functions: vec![func(
            "f",
            None,
            vec![Statement::While {
                cond: Expr::IntLit { value: 1 },
                body: vec![Statement::Return { expr: Some(Expr::IntLit { value: 2 }) }],
            }],
        )],
    };
    assert!(compile(&prog).is_ok());
}

#[test]
fn missing_base_address_is_hard_error() {
    let mut p = timer();
    p.register_blocks = vec![RegisterBlock {
        width: RegisterWidth::W32,
        registers: vec![RegisterDef { name: "CTRL".to_string(), offset: 4 }],
    }];
    let prog = Program {
        peripherals: vec![p],
        functions: vec![func(
            "f",
            None,
            vec![Statement::PeripheralWrite {
                peripheral: "T".to_string(),
                register: "CTRL".to_string(),
                value: Expr::IntLit { value: 1 },
            }],
        )],
    };
    match compile(&prog) {
        Err(CompileError::Lowering(LowerError::MissingBaseAddress { peripheral })) => {
            assert_eq!(peripheral, "T");
        }
        _ => panic!("expected a lowering error"),
    }
}

#[test]
fn peripheral_write_and_read() {
    let p = Peripheral {
        name: "P".to_string(),
        base_address: Some(0x4000),
        states: vec!["S".to_string()],
        initial: "S".to_string(),
        register_blocks: vec![RegisterBlock {
            width: RegisterWidth::W32,
            registers: vec![RegisterDef { name: "R".to_string(), offset: 0x10 }],
        }],
    };
    let prog = Program {
        peripherals: vec![p],
        functions: vec![func(
            "f",
            None,
            vec![
                Statement::PeripheralWrite {
                    peripheral: "P".to_string(),
                    register: "R".to_string(),
                    value: Expr::IntLit { value: 3 },
                },
                Statement::Let {
                    var_name: "x".to_string(),
                    value: Expr::PeripheralRead {
                        peripheral: "P".to_string(),
                        register: "R".to_string(),
                    },
                },
                Statement::Return { expr: Some(Expr::Variable { name: "x".to_string() }) },
            ],
        )],
    };
    let out = compile(&prog).unwrap();
    // base 0x4000 + offset 0x10 = 16400
    assert!(out.contains("li t1, 16400"));
    assert!(out.contains("sw t0, 0(t1)"));
    assert!(out.contains("lw "));
    assert!(out.contains("mv a0, "));
}

#[test]
fn arguments_and_labels() {
    // fn f(a) { if a { return a; } return 0; }
    let prog = Program {
        peripherals: vec![],
        functions: vec![Function {
            name: "f".to_string(),
            args: vec![("a".to_string(), peric::ast::Type::I32)],
            signature: None,
            body: vec![
                Statement::If {
                    cond: Expr::Variable { name: "a".to_string() },
                    then_block: vec![Statement::Return {
                        expr: Some(Expr::Variable { name: "a".to_string() }),
                    }],
                    else_block: vec![],
                },
                Statement::Return { expr: Some(Expr::IntLit { value: 0 }) },
            ],
        }],
    };
    let out = compile(&prog).unwrap();
    // the parameter is materialised from a0 and labels are emitted for the
    // non-entry blocks
    assert!(out.contains("mv t0, a0"));
    assert!(out.contains(".LBB1:"));
    assert!(out.contains("beqz t0, .LBB2"));
}

#[test]
fn unknown_peripheral_in_signature() {
    let prog = Program {
        peripherals: vec![],
        functions: vec![
            func("e", Some(sig("Q", "A", "B")), vec![]),
            func("main", None, vec![call("e")]),
        ],
    };
    match compile(&prog) {
        Err(CompileError::Typestate(s)) => {
            assert_eq!(s, "Unknown peripheral 'Q' in function 'main'");
        }
        _ => panic!("expected a typestate error"),
    }
}

#[test]
fn unknown_peripheral_in_write() {
    let prog = Program {
        peripherals: vec![],
        functions: vec![func(
            "f",
            None,
            vec![Statement::PeripheralWrite {
                peripheral: "Nope".to_string(),
                register: "R".to_string(),
                value: Expr::IntLit { value: 1 },
            }],
        )],
    };
    match compile(&prog) {
        Err(e @ CompileError::Lowering(LowerError::UnknownPeripheral { .. })) => {
            assert_eq!(e.render(), "Unknown peripheral 'Nope'");
        }
        _ => panic!("expected a lowering error"),
    }
}

#[test]
fn unknown_register_in_write() {
    let mut p = timer();
    p.base_address = Some(0x1000);
    let prog = Program {
        peripherals: vec![p],
        functions: vec![func(
            "f",
            None,
            vec![Statement::PeripheralWrite {
                peripheral: "T".to_string(),
                register: "R".to_string(),
                value: Expr::IntLit { value: 1 },
            }],
        )],
    };
    match compile(&prog) {
        Err(e @ CompileError::Lowering(LowerError::UnknownRegister { .. })) => {
            assert_eq!(e.render(), "Unknown register 'R' on peripheral 'T'");
        }
        _ => panic!("expected a lowering error"),
    }
}

#[test]
fn unary_operators_emit_pseudo_instructions() {
    let neg = Expr::Unary { op: UnOp::Neg, operand: Box::new(Expr::IntLit { value: 5 }) };
    let prog = Program {
        peripherals: vec![],
        functions: vec![func("f", None, vec![Statement::Return { expr: Some(neg) }])],
    };
    let out = compile(&prog).unwrap();
    assert!(out.contains("neg t1, t0"));
}

#[test]
fn logical_operators_lower_to_bitwise() {
    // the known gap: && and || lower to the bitwise operations
    let e = Expr::Binary {
        op: BinOp::LogicalAnd,
        left: Box::new(Expr::IntLit { value: 1 }),
        right: Box::new(Expr::IntLit { value: 0 }),
    };
    let prog = Program {
        peripherals: vec![],
        functions: vec![func("f", None, vec![Statement::Return { expr: Some(e) }])],
    };
    let out = compile(&prog).unwrap();
    assert!(out.contains("and t2, t0, t1"));
}

#[test]
fn call_moves_arguments_into_place() {
    let prog = Program {
        peripherals: vec![],
        functions: vec![
            Function {
                name: "g".to_string(),
                args: vec![("a".to_string(), peric::ast::Type::I32)],
                signature: None,
                body: vec![],
            },
            func(
                "f",
                None,
                vec![Statement::Expr {
                    expr: Expr::FnCall {
                        name: "g".to_string(),
                        args: vec![Expr::IntLit { value: 9 }],
                    },
                }],
            ),
        ],
    };
    let out = compile(&prog).unwrap();
    assert!(out.contains("li t0, 9"));
    assert!(out.contains("mv a0, t0"));
    assert!(out.contains("call g"));
    assert!(out.contains("mv t1, a0"));
}

#[test]
fn while_loop_shape() {
    // fn f() { let x = 3; while x { x = x - 1; } return x; }
    let prog = Program {
        peripherals: vec![],
        functions: vec![func(
            "f",
            None,
            vec![
                Statement::Let { var_name: "x".to_string(), value: Expr::IntLit { value: 3 } },
                Statement::While {
                    cond: Expr::Variable { name: "x".to_string() },
                    body: vec![Statement::Assign {
                        var_name: "x".to_string(),
                        value: Expr::Binary {
                            op: BinOp::Sub,
                            left: Box::new(Expr::Variable { name: "x".to_string() }),
                            right: Box::new(Expr::IntLit { value: 1 }),
                        },
                    }],
                },
                Statement::Return { expr: Some(Expr::Variable { name: "x".to_string() }) },
            ],
        )],
    };
    let out = compile(&prog).unwrap();
    // the loop closes with a jump back to its header
    assert!(out.contains("j .LBB1"));
    assert!(out.contains("beqz "));
    assert!(out.contains("sub "));
}

#[test]
fn trailing_return_leaves_no_orphan_block() {
    // fn f() { return 1; } closes the entry block; no unreachable
    // continuation block is created
    let prog = Program {
        peripherals: vec![],
        functions: vec![
            func("f", None, vec![Statement::Return { expr: Some(Expr::IntLit { value: 1 }) }]),
        ],
    };
    let lowered = lower(&prog).unwrap();
    assert_eq!(lowered[0].1.blocks.len(), 1);
    assert!(matches!(
        lowered[0].1.blocks[0].terminator,
        Terminator::Return(Some(_))
    ));
}
