use netlist_ir::ast::{
    AssignDecl, BinArithOp, BinBitOp, Bind, Direction, Expression, Identifier, Module, Parameter,
    Port, Range, RelOp, Statement, TranslationUnit,
};
use netlist_ir::builder::elaborate_unit;
use netlist_ir::concrete::bit_mapping;
use netlist_ir::error::ElabError;
use netlist_ir::expr::ParameterExpression;
use netlist_ir::op::GateKind;

fn ident(s: &str) -> Identifier {
    Identifier(String::from(s))
}

fn const_range(hi: i64, lo: i64) -> Range {
    Range {
        start: Box::new(Expression::ConstantInt(hi)),
        end: Some(Box::new(Expression::ConstantInt(lo))),
    }
}

fn bit_select(name: &str) -> Range {
    Range {
        start: Box::new(Expression::Identifier(ident(name))),
        end: None,
    }
}

fn port(name: &str, hi: i64, lo: i64, io: Direction) -> Port {
    Port {
        name: ident(name),
        width: Some(const_range(hi, lo)),
        io,
    }
}

fn slice_of(name: &str, index: Range) -> Expression {
    Expression::Slice(Box::new(Expression::Identifier(ident(name))), index)
}

/// `for (i = 0; i < 8; i = i + 1) begin assign c[i] = a[i] & b[i]; end`
fn and_loop() -> Statement {
    Statement::For {
        name: None,
        init: AssignDecl {
            name: ident("i"),
            width: None,
            value: Expression::ConstantInt(0),
        },
        cond: Expression::RelationalOperation(
            Box::new(Expression::Identifier(ident("i"))),
            RelOp::Lt,
            Box::new(Expression::ConstantInt(8)),
        ),
        step: AssignDecl {
            name: ident("i"),
            width: None,
            value: Expression::BinaryArithmeticOperation(
                Box::new(Expression::Identifier(ident("i"))),
                BinArithOp::Add,
                Box::new(Expression::ConstantInt(1)),
            ),
        },
        body: vec![Statement::Assign(AssignDecl {
            name: ident("c"),
            width: Some(bit_select("i")),
            value: Expression::BinaryBitOperation(
                Box::new(slice_of("a", bit_select("i"))),
                BinBitOp::And,
                Box::new(slice_of("b", bit_select("i"))),
            ),
        })],
    }
}

fn and8_module(name: &str, body: Vec<Statement>) -> Module {
    Module::with_def(
        ident(name),
        vec![Parameter {
            name: ident("WIDTH"),
            value: Some(Expression::ConstantInt(8)),
        }],
        vec![
            port("a", 7, 0, Direction::Input),
            port("b", 7, 0, Direction::Input),
            port("c", 7, 0, Direction::Output),
        ],
        body,
    )
}

#[test]
fn end_to_end_width8_and() {
    let unit = TranslationUnit {
        modules: vec![and8_module("and8", vec![Statement::Genvar(ident("i")), and_loop()])],
    };
    let reg = elaborate_unit(&unit).unwrap();
    assert_eq!(reg.modules.len(), 1);
    let m = &reg.modules[0];
    assert_eq!(m.name, "and8");
    assert_eq!(m.params.len(), 1);
    assert_eq!(m.params[0].name, "WIDTH");
    // Inputs {a, b} of shape [8], output {c} of shape [8].
    assert_eq!(m.inputs.len(), 2);
    assert_eq!(m.inputs[0].0, "a");
    assert_eq!(m.inputs[1].0, "b");
    assert_eq!(m.outputs.len(), 1);
    assert_eq!(m.outputs[0].0, "c");
    let a_t = m.inputs[0].1;
    let b_t = m.inputs[1].1;
    let c_t = m.outputs[0].1;
    for t in [a_t, b_t, c_t] {
        assert_eq!(m.tensors[t].shape.len(), 1);
        assert_eq!(
            m.exprs.nodes[m.tensors[t].shape[0]],
            ParameterExpression::Constant(8)
        );
    }
    // The operator graph is equivalent to 8 bitwise-AND applications
    // connecting bit i of a and b to bit i of c.
    let bits = bit_mapping(m).unwrap();
    assert_eq!(bits.len(), 8);
    for (k, e) in bits.iter().enumerate() {
        let k = k as i64;
        assert_eq!(e.target, c_t);
        assert_eq!(e.target_bit, k);
        assert_eq!(e.gate, Some(GateKind::And));
        assert_eq!(e.sources, vec![(a_t, k), (b_t, k)]);
    }
}

#[test]
fn unrolling_equivalence_for_constant_bound() {
    // The generate-for, elaborated without unrolling...
    let looped = TranslationUnit {
        modules: vec![and8_module("m", vec![Statement::Genvar(ident("i")), and_loop()])],
    };
    // ...against eight literal unrolled assignments with i substituted 0..8.
    let mut flat_body = vec![];
    for k in 0..8 {
        flat_body.push(Statement::Assign(AssignDecl {
            name: ident("c"),
            width: Some(Range {
                start: Box::new(Expression::ConstantInt(k)),
                end: None,
            }),
            value: Expression::BinaryBitOperation(
                Box::new(slice_of(
                    "a",
                    Range {
                        start: Box::new(Expression::ConstantInt(k)),
                        end: None,
                    },
                )),
                BinBitOp::And,
                Box::new(slice_of(
                    "b",
                    Range {
                        start: Box::new(Expression::ConstantInt(k)),
                        end: None,
                    },
                )),
            ),
        }));
    }
    let flat = TranslationUnit {
        modules: vec![and8_module("m", flat_body)],
    };
    let reg_loop = elaborate_unit(&looped).unwrap();
    let reg_flat = elaborate_unit(&flat).unwrap();
    let bits_loop = bit_mapping(&reg_loop.modules[0]).unwrap();
    let bits_flat = bit_mapping(&reg_flat.modules[0]).unwrap();
    assert_eq!(bits_loop, bits_flat);
}

#[test]
fn duplicate_module_name_aborts_unit() {
    let unit = TranslationUnit {
        modules: vec![
            and8_module("m", vec![]),
            and8_module("m", vec![]),
        ],
    };
    assert_eq!(
        elaborate_unit(&unit).err(),
        Some(ElabError::DuplicateModule { name: String::from("m") })
    );
}

#[test]
fn assign_to_undeclared_signal() {
    let unit = TranslationUnit {
        modules: vec![Module {
            name: ident("m"),
            params: vec![],
            body: vec![Statement::Assign(AssignDecl {
                name: ident("ghostly"),
                width: None,
                value: Expression::ConstantInt(0),
            })],
        }],
    };
    assert_eq!(
        elaborate_unit(&unit).err(),
        Some(ElabError::UnknownSignal { name: String::from("ghostly") })
    );
}

#[test]
fn double_whole_assignment_rejected() {
    let mut body = vec![];
    for _ in 0..2 {
        body.push(Statement::Assign(AssignDecl {
            name: ident("c"),
            width: None,
            value: Expression::Identifier(ident("a")),
        }));
    }
    let unit = TranslationUnit {
        modules: vec![Module::with_def(
            ident("m"),
            vec![],
            vec![port("a", 7, 0, Direction::Input), port("c", 7, 0, Direction::Output)],
            body,
        )],
    };
    assert_eq!(
        elaborate_unit(&unit).err(),
        Some(ElabError::AlreadyAssigned { name: String::from("c") })
    );
}

#[test]
fn instance_of_unknown_module() {
    let unit = TranslationUnit {
        modules: vec![Module {
            name: ident("top"),
            params: vec![],
            body: vec![Statement::Instance {
                name: ident("u0"),
                module: ident("missing"),
                params_set: vec![],
                ports_set: vec![],
            }],
        }],
    };
    assert_eq!(
        elaborate_unit(&unit).err(),
        Some(ElabError::UnknownModule { name: String::from("missing") })
    );
}

#[test]
fn instance_binds_ports_through_registry() {
    // A one-bit inverter, then a top module instantiating it.
    let inv = Module::with_def(
        ident("inv"),
        vec![],
        vec![
            Port { name: ident("x"), width: None, io: Direction::Input },
            Port { name: ident("y"), width: None, io: Direction::Output },
        ],
        vec![Statement::Assign(AssignDecl {
            name: ident("y"),
            width: None,
            value: Expression::UnaryBitOperation(
                netlist_ir::ast::UnBitOp::Not,
                Box::new(Expression::Identifier(ident("x"))),
            ),
        })],
    );
    let top = Module::with_def(
        ident("top"),
        vec![],
        vec![
            Port { name: ident("p"), width: None, io: Direction::Input },
            Port { name: ident("q"), width: None, io: Direction::Output },
        ],
        vec![Statement::Instance {
            name: ident("u0"),
            module: ident("inv"),
            params_set: vec![],
            ports_set: vec![
                Bind { name: ident("x"), value: Expression::Identifier(ident("p")) },
                Bind { name: ident("y"), value: Expression::Identifier(ident("q")) },
            ],
        }],
    );
    let unit = TranslationUnit { modules: vec![inv, top] };
    let reg = elaborate_unit(&unit).unwrap();
    assert_eq!(reg.modules.len(), 2);
    let top_ir = &reg.modules[1];
    // One Instantiate operator and one bind driving q.
    assert_eq!(top_ir.binds.len(), 1);
    assert_eq!(top_ir.binds[0].target, top_ir.outputs[0].1);
}

#[test]
fn instance_imports_symbolic_widths_under_overrides() {
    // A width-parameterized buffer: shapes [W] fold to [4] under W = 4.
    let bufw = Module::with_def(
        ident("bufw"),
        vec![Parameter { name: ident("W"), value: None }],
        vec![
            Port {
                name: ident("d"),
                width: Some(Range {
                    start: Box::new(Expression::BinaryArithmeticOperation(
                        Box::new(Expression::Identifier(ident("W"))),
                        BinArithOp::Sub,
                        Box::new(Expression::ConstantInt(1)),
                    )),
                    end: Some(Box::new(Expression::ConstantInt(0))),
                }),
                io: Direction::Input,
            },
            Port {
                name: ident("e"),
                width: Some(Range {
                    start: Box::new(Expression::BinaryArithmeticOperation(
                        Box::new(Expression::Identifier(ident("W"))),
                        BinArithOp::Sub,
                        Box::new(Expression::ConstantInt(1)),
                    )),
                    end: Some(Box::new(Expression::ConstantInt(0))),
                }),
                io: Direction::Output,
            },
        ],
        vec![Statement::Assign(AssignDecl {
            name: ident("e"),
            width: None,
            value: Expression::Identifier(ident("d")),
        })],
    );
    let top = Module::with_def(
        ident("top"),
        vec![],
        vec![
            port("m", 3, 0, Direction::Input),
            port("n", 3, 0, Direction::Output),
        ],
        vec![Statement::Instance {
            name: ident("u0"),
            module: ident("bufw"),
            params_set: vec![Bind { name: ident("W"), value: Expression::ConstantInt(4) }],
            ports_set: vec![
                Bind { name: ident("d"), value: Expression::Identifier(ident("m")) },
                Bind { name: ident("e"), value: Expression::Identifier(ident("n")) },
            ],
        }],
    );
    let unit = TranslationUnit { modules: vec![bufw, top] };
    let reg = elaborate_unit(&unit).unwrap();
    assert_eq!(reg.modules.len(), 2);
}

#[test]
fn instance_shape_mismatch_detected() {
    // The same buffer bound with W = 8 against 4-bit caller wires.
    let unit_src = |w: i64| {
        let bufw = Module::with_def(
            ident("bufw"),
            vec![Parameter { name: ident("W"), value: None }],
            vec![
                Port {
                    name: ident("d"),
                    width: Some(Range {
                        start: Box::new(Expression::BinaryArithmeticOperation(
                            Box::new(Expression::Identifier(ident("W"))),
                            BinArithOp::Sub,
                            Box::new(Expression::ConstantInt(1)),
                        )),
                        end: Some(Box::new(Expression::ConstantInt(0))),
                    }),
                    io: Direction::Input,
                },
            ],
            vec![],
        );
        let top = Module::with_def(
            ident("top"),
            vec![],
            vec![port("m", 3, 0, Direction::Input)],
            vec![Statement::Instance {
                name: ident("u0"),
                module: ident("bufw"),
                params_set: vec![Bind { name: ident("W"), value: Expression::ConstantInt(w) }],
                ports_set: vec![Bind {
                    name: ident("d"),
                    value: Expression::Identifier(ident("m")),
                }],
            }],
        );
        TranslationUnit { modules: vec![bufw, top] }
    };
    assert!(elaborate_unit(&unit_src(4)).is_ok());
    assert!(matches!(
        elaborate_unit(&unit_src(8)),
        Err(ElabError::ShapeMismatch { dim: 0, .. })
    ));
}

#[test]
fn generate_block_is_transparent_scope() {
    let unit = TranslationUnit {
        modules: vec![and8_module(
            "m",
            vec![Statement::Generate(vec![
                Statement::Genvar(ident("i")),
                and_loop(),
            ])],
        )],
    };
    assert!(elaborate_unit(&unit).is_ok());
}

#[test]
fn for_with_unsupported_header_rejected() {
    // `i <= 8` is not the supported `i < hi` form.
    let bad_loop = Statement::For {
        name: None,
        init: AssignDecl { name: ident("i"), width: None, value: Expression::ConstantInt(0) },
        cond: Expression::RelationalOperation(
            Box::new(Expression::Identifier(ident("i"))),
            RelOp::Le,
            Box::new(Expression::ConstantInt(8)),
        ),
        step: AssignDecl {
            name: ident("i"),
            width: None,
            value: Expression::BinaryArithmeticOperation(
                Box::new(Expression::Identifier(ident("i"))),
                BinArithOp::Add,
                Box::new(Expression::ConstantInt(1)),
            ),
        },
        body: vec![],
    };
    let unit = TranslationUnit {
        modules: vec![and8_module("m", vec![Statement::Genvar(ident("i")), bad_loop])],
    };
    assert_eq!(elaborate_unit(&unit).err(), Some(ElabError::UnsupportedGenerateForm));
}

#[test]
fn relational_assign_rejected_explicitly() {
    let unit = TranslationUnit {
        modules: vec![and8_module(
            "m",
            vec![Statement::Assign(AssignDecl {
                name: ident("c"),
                width: None,
                value: Expression::RelationalOperation(
                    Box::new(Expression::Identifier(ident("a"))),
                    RelOp::Eq,
                    Box::new(Expression::Identifier(ident("b"))),
                ),
            })],
        )],
    };
    assert_eq!(elaborate_unit(&unit).err(), Some(ElabError::UnsupportedConstruct));
}

#[test]
fn strided_loop_maps_every_second_bit() {
    // for (i = 0; i < 4; i = i + 2) assign c[i] = a[i] & b[i];
    let loop2 = Statement::For {
        name: None,
        init: AssignDecl { name: ident("i"), width: None, value: Expression::ConstantInt(0) },
        cond: Expression::RelationalOperation(
            Box::new(Expression::Identifier(ident("i"))),
            RelOp::Lt,
            Box::new(Expression::ConstantInt(4)),
        ),
        step: AssignDecl {
            name: ident("i"),
            width: None,
            value: Expression::BinaryArithmeticOperation(
                Box::new(Expression::Identifier(ident("i"))),
                BinArithOp::Add,
                Box::new(Expression::ConstantInt(2)),
            ),
        },
        body: vec![Statement::Assign(AssignDecl {
            name: ident("c"),
            width: Some(bit_select("i")),
            value: Expression::BinaryBitOperation(
                Box::new(slice_of("a", bit_select("i"))),
                BinBitOp::And,
                Box::new(slice_of("b", bit_select("i"))),
            ),
        })],
    };
    let unit = TranslationUnit {
        modules: vec![and8_module("m", vec![Statement::Genvar(ident("i")), loop2])],
    };
    let reg = elaborate_unit(&unit).unwrap();
    let m = &reg.modules[0];
    let bits = bit_mapping(m).unwrap();
    // ceil((4 - 0) / 2) = 2 applications, at bits 0 and 2.
    assert_eq!(bits.len(), 2);
    assert_eq!(bits[0].target_bit, 0);
    assert_eq!(bits[1].target_bit, 2);
    assert_eq!(bits[1].sources[0].1, 2);
}

#[test]
fn slice_of_slice_flattens_to_one_view() {
    // d = (a[5:2])[2:1] selects bits 4:3 of a through one flattened view.
    let unit = TranslationUnit {
        modules: vec![Module::with_def(
            ident("m"),
            vec![],
            vec![
                port("a", 7, 0, Direction::Input),
                port("d", 1, 0, Direction::Output),
            ],
            vec![Statement::Assign(AssignDecl {
                name: ident("d"),
                width: None,
                value: Expression::Slice(
                    Box::new(slice_of("a", const_range(5, 2))),
                    const_range(2, 1),
                ),
            })],
        )],
    };
    let reg = elaborate_unit(&unit).unwrap();
    let m = &reg.modules[0];
    let a_t = m.inputs[0].1;
    let bits = bit_mapping(m).unwrap();
    // Two bits of d, read straight off a — through the inner view's base,
    // so the sources cite the primary tensor a itself.
    assert_eq!(bits.len(), 2);
    assert_eq!(bits[0].target_bit, 0);
    assert_eq!(bits[0].sources, vec![(a_t, 3)]);
    assert_eq!(bits[1].target_bit, 1);
    assert_eq!(bits[1].sources, vec![(a_t, 4)]);
}

#[test]
fn inout_port_stands_in_both_maps() {
    let unit = TranslationUnit {
        modules: vec![Module::with_def(
            ident("m"),
            vec![],
            vec![port("x", 3, 0, Direction::InOut)],
            vec![],
        )],
    };
    let reg = elaborate_unit(&unit).unwrap();
    let m = &reg.modules[0];
    assert_eq!(m.inputs.len(), 1);
    assert_eq!(m.outputs.len(), 1);
    assert_eq!(m.inputs[0].1, m.outputs[0].1);
}
