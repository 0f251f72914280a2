use netlist_ir::error::ElabError;
use netlist_ir::expr::ParameterExpression;
use netlist_ir::ir::Module;
use netlist_ir::op::{GateKind, Op, SubModuleRef};
use netlist_ir::tensor::{check_dim_within, TensorView};

fn two_wires(m: &mut Module, extent: i64) -> (usize, usize) {
    let e = m.get_param_const(extent);
    let t1 = m.add_primary(vec![e]);
    let t2 = m.add_primary(vec![e]);
    (t1, t2)
}

#[test]
fn map_gate_over_equal_extents() {
    let mut m = Module::new("t");
    let (a, b) = two_wires(&mut m, 8);
    let t = m.map_gate(GateKind::And, vec![a, b]).unwrap();
    let e8 = m.get_param_const(8);
    assert_eq!(m.tensors[t].shape, vec![e8]);
    assert!(m.tensors[t].from.is_some());
    match &m.ops[m.tensors[t].from.unwrap()] {
        Op::Mapped(mp) => {
            assert_eq!(mp.module, SubModuleRef::Gate(GateKind::And));
            assert_eq!(mp.inputs, vec![a, b]);
        }
        _ => panic!("expected a map operator"),
    }
}

#[test]
fn map_gate_extent_mismatch() {
    let mut m = Module::new("t");
    let e8 = m.get_param_const(8);
    let e4 = m.get_param_const(4);
    let a = m.add_primary(vec![e8]);
    let b = m.add_primary(vec![e4]);
    assert_eq!(
        m.map_gate(GateKind::And, vec![a, b]),
        Err(ElabError::ShapeMismatch { dim: 0, expected: e8, actual: e4 })
    );
}

#[test]
fn instantiate_checks_shapes_per_dimension() {
    let mut m = Module::new("t");
    let e8 = m.get_param_const(8);
    let e4 = m.get_param_const(4);
    let a = m.add_primary(vec![e8]);
    let b = m.add_primary(vec![e8]);
    // Second declared input wants extent 4 but is handed extent 8.
    let expected = vec![vec![e8], vec![e4]];
    let outs = vec![vec![e8]];
    assert_eq!(
        m.instantiate(0, &expected, &outs, vec![a, b]),
        Err(ElabError::ShapeMismatch { dim: 0, expected: e4, actual: e8 })
    );
    // Matching shapes bind and create one tensor per declared output.
    let expected_ok = vec![vec![e8], vec![e8]];
    let r = m.instantiate(0, &expected_ok, &outs, vec![a, b]).unwrap();
    assert_eq!(r.len(), 1);
    assert_eq!(m.tensors[r[0]].shape, vec![e8]);
}

#[test]
fn instantiate_cites_first_mismatching_dimension() {
    let mut m = Module::new("t");
    let e2 = m.get_param_const(2);
    let e3 = m.get_param_const(3);
    let e5 = m.get_param_const(5);
    let a = m.add_primary(vec![e2, e3]);
    // Dimension 0 agrees; dimension 1 differs, so dim 1 is cited.
    let expected = vec![vec![e2, e5]];
    let outs: Vec<Vec<usize>> = vec![];
    assert_eq!(
        m.instantiate(0, &expected, &outs, vec![a]),
        Err(ElabError::ShapeMismatch { dim: 1, expected: e5, actual: e3 })
    );
    // A rank mismatch cites the shorter rank and reports the two ranks.
    let expected_rank = vec![vec![e2, e3, e5]];
    assert_eq!(
        m.instantiate(0, &expected_rank, &outs, vec![a]),
        Err(ElabError::ShapeMismatch { dim: 2, expected: 3, actual: 2 })
    );
}

#[test]
fn zip_concatenates_in_argument_order() {
    let mut m = Module::new("t");
    let e5 = m.get_param_const(5);
    let e3 = m.get_param_const(3);
    let a = m.add_primary(vec![e5]);
    let b = m.add_primary(vec![e3]);
    let t = m.zip(vec![a, b]).unwrap();
    let trailing = *m.tensors[t].shape.last().unwrap();
    // The trailing extent is Add(extent of A, extent of B), in that order.
    assert_eq!(m.exprs.nodes[trailing], ParameterExpression::Add(e5, e3));
    match &m.ops[m.tensors[t].from.unwrap()] {
        Op::Zip(z) => assert_eq!(z.inputs, vec![a, b]),
        _ => panic!("expected a zip operator"),
    }
}

#[test]
fn zip_rejects_non_trailing_mismatch() {
    let mut m = Module::new("t");
    let e2 = m.get_param_const(2);
    let e3 = m.get_param_const(3);
    let e4 = m.get_param_const(4);
    let e5 = m.get_param_const(5);
    let a = m.add_primary(vec![e2, e5]);
    let b = m.add_primary(vec![e3, e4]);
    assert_eq!(
        m.zip(vec![a, b]),
        Err(ElabError::ZipDimensionMismatch { input: 1, dim: 0 })
    );
    // Rank mismatch cites the shorter rank.
    let c = m.add_primary(vec![e2]);
    let d = m.add_primary(vec![e2, e5]);
    assert_eq!(
        m.zip(vec![c, d]),
        Err(ElabError::ZipDimensionMismatch { input: 1, dim: 1 })
    );
}

#[test]
fn reduce_folds_to_one_bit() {
    let mut m = Module::new("t");
    let e8 = m.get_param_const(8);
    let a = m.add_primary(vec![e8]);
    let t = m.reduce_gate(GateKind::Xor, a).unwrap();
    assert_eq!(m.tensors[t].shape.len(), 1);
    assert_eq!(
        m.exprs.nodes[m.tensors[t].shape[0]],
        ParameterExpression::Constant(1)
    );
    // A one-input gate cannot fold pairwise.
    let b = m.add_primary(vec![e8]);
    assert!(matches!(
        m.reduce_gate(GateKind::Not, b),
        Err(ElabError::ShapeMismatch { .. })
    ));
}

#[test]
fn view_composition_flattens() {
    let outer = TensorView {
        shape: vec![0],
        strides: vec![2],
        offsets: vec![1],
        input: 0,
    };
    let refine = TensorView {
        shape: vec![0],
        strides: vec![3],
        offsets: vec![4],
        input: 0,
    };
    let c = outer.compose(&refine).unwrap();
    assert_eq!(c.strides, vec![6]);
    assert_eq!(c.offsets, vec![9]);
    // Indexing through the flattened view equals indexing sequentially.
    for i in 0..16i64 {
        let through_both = 2 * (3 * i + 4) + 1;
        let through_composed = c.strides[0] * i + c.offsets[0];
        assert_eq!(through_composed, through_both);
    }
}

#[test]
fn view_composition_overflow() {
    let outer = TensorView {
        shape: vec![0],
        strides: vec![i64::MAX],
        offsets: vec![0],
        input: 0,
    };
    let refine = TensorView {
        shape: vec![0],
        strides: vec![2],
        offsets: vec![0],
        input: 0,
    };
    assert!(matches!(
        outer.compose(&refine),
        Err(ElabError::ArithmeticOverflow)
    ));
}

#[test]
fn dim_within_endpoints() {
    assert!(check_dim_within(8, 1, 0, 8));
    assert!(!check_dim_within(8, 1, 1, 8));
    assert!(check_dim_within(4, 2, 1, 8));
    assert!(check_dim_within(4, -1, 3, 4));
    assert!(!check_dim_within(4, -1, 2, 4));
    assert!(check_dim_within(0, 100, -50, 1));
}

#[test]
fn zip_bits_in_argument_order() {
    // Zip(A, B) with extents 2 and 3: trailing bits are A's two bits and
    // then B's three, never reordered.
    let mut m = Module::new("t");
    let e2 = m.get_param_const(2);
    let e3 = m.get_param_const(3);
    let e5 = m.get_param_const(5);
    let a = m.add_primary(vec![e2]);
    let b = m.add_primary(vec![e3]);
    let z = m.zip(vec![a, b]).unwrap();
    let d = m.add_primary(vec![e5]);
    m.add_bind(netlist_ir::ir::SignalBind {
        target: d,
        strides: vec![1],
        offsets: vec![0],
        source: z,
    });
    let bits = netlist_ir::concrete::bit_mapping(&m).unwrap();
    assert_eq!(bits.len(), 5);
    let expect = [(a, 0), (a, 1), (b, 0), (b, 1), (b, 2)];
    for (k, e) in bits.iter().enumerate() {
        assert_eq!(e.target, d);
        assert_eq!(e.target_bit, k as i64);
        assert_eq!(e.sources, vec![expect[k]]);
        assert_eq!(e.gate, None);
    }
}
