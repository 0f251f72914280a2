//! The per-module intermediate representation and its construction API.
//!
//! A `Module` owns everything reachable from its tensors: the expression
//! arena (its canonicalization table), the tensor arena, the operator
//! arena, the assignment binds, and the named input/output maps. All
//! cross-references are arena indices, and every operator reads only
//! tensors created before the tensor it produces, so the operator graph is
//! acyclic by construction.

use vstd::prelude::*;
use crate::error::ElabError;
use crate::expr::{ExprArena, ExprId, ParameterExpression};
use crate::op::{gate_arity, Apply, GateKind, MapOp, Op, Reduce, SubModuleRef, Zip};
use crate::tensor::{BitTensor, OpId, TensorId, TensorView};

verus! {

/// A module parameter: its name and the canonical handle of the expression
/// that references it.
#[derive(Debug, Clone)]
pub struct ParamDecl {
    pub name: String,
    pub expr: ExprId,
}

/// Connects a produced tensor to a declared target signal: coordinate
/// `idx` of `source` drives bit `strides[k] * idx[k] + offsets[k]` of each
/// dimension `k` of `target`.
#[derive(Debug, Clone)]
pub struct SignalBind {
    pub target: TensorId,
    pub strides: Vec<i64>,
    pub offsets: Vec<i64>,
    pub source: TensorId,
}

/// One module's finished (or under-construction) IR.
#[derive(Debug, Clone)]
pub struct Module {
    pub name: String,
    pub params: Vec<ParamDecl>,
    /// The canonicalization table owning all the module's expression nodes.
    pub exprs: ExprArena,
    pub tensors: Vec<BitTensor>,
    pub ops: Vec<Op>,
    /// Which produced tensor drives which declared signal, and through
    /// which affine map.
    pub binds: Vec<SignalBind>,
    pub inputs: Vec<(String, TensorId)>,
    pub outputs: Vec<(String, TensorId)>,
}

/// Every shape handle of `t` lies in the expression arena, the producer (if
/// any) lies in the operator arena, and the tensor has at least one
/// dimension (a scalar is one dimension of extent one).
pub open spec fn tensor_wf(t: BitTensor, nexprs: int, nops: int) -> bool {
    &&& t.shape@.len() >= 1
    &&& forall|k: int| 0 <= k < t.shape@.len() ==> ((#[trigger] t.shape@[k]) as int) < nexprs
    &&& match t.from {
        Some(o) => (o as int) < nops,
        None => true,
    }
}

/// The ids a view mentions lie in their arenas.
pub open spec fn view_ids_wf(v: TensorView, nexprs: int, ntensors: int) -> bool {
    &&& v.wf()
    &&& v.rank() >= 1
    &&& (v.input as int) < ntensors
    &&& forall|k: int| 0 <= k < v.shape@.len() ==> ((#[trigger] v.shape@[k]) as int) < nexprs
}

/// The ids an operator mentions lie in their arenas.
pub open spec fn op_wf(op: Op, nexprs: int, ntensors: int) -> bool {
    match op {
        Op::View(v) => view_ids_wf(v, nexprs, ntensors),
        Op::Mapped(m) => forall|i: int|
            0 <= i < m.inputs@.len() ==> ((#[trigger] m.inputs@[i]) as int) < ntensors,
        Op::Apply(a) => forall|i: int|
            0 <= i < a.inputs@.len() ==> ((#[trigger] a.inputs@[i]) as int) < ntensors,
        Op::Reduce(r) => forall|i: int|
            0 <= i < r.inputs@.len() ==> ((#[trigger] r.inputs@[i]) as int) < ntensors,
        Op::Zip(z) => forall|i: int|
            0 <= i < z.inputs@.len() ==> ((#[trigger] z.inputs@[i]) as int) < ntensors,
    }
}

/// A bind connects existing tensors and carries one stride and offset per
/// source dimension.
pub open spec fn bind_wf(b: SignalBind, ntensors: int) -> bool {
    &&& (b.target as int) < ntensors
    &&& (b.source as int) < ntensors
    &&& b.strides@.len() == b.offsets@.len()
}

impl Module {
    /// Well-formedness of the whole IR: the arena is canonical and every
    /// cross-reference lands inside its arena.
    pub open spec fn wf(self) -> bool {
        &&& self.exprs.wf()
        &&& forall|p: int|
            0 <= p < self.params@.len() ==> ((#[trigger] self.params@[p]).expr as int)
                < self.exprs.nodes@.len()
        &&& forall|p: int|
            0 <= p < self.params@.len() ==> (self.exprs.nodes@[(#[trigger] self.params@[p]).expr as int]
                matches ParameterExpression::Parameter(s) && s@ == self.params@[p].name@)
        &&& forall|t: int|
            0 <= t < self.tensors@.len() ==> ((#[trigger] self.tensors@[t]).from matches Some(o)
                ==> (forall|q: int|
                0 <= q < crate::op::op_inputs(self.ops@[o as int]).len()
                    ==> ((#[trigger] crate::op::op_inputs(self.ops@[o as int])[q]) as int) < t))
        &&& forall|t: int|
            0 <= t < self.tensors@.len() ==> tensor_wf(
                #[trigger] self.tensors@[t],
                self.exprs.nodes@.len() as int,
                self.ops@.len() as int,
            )
        &&& forall|o: int|
            0 <= o < self.ops@.len() ==> op_wf(
                #[trigger] self.ops@[o],
                self.exprs.nodes@.len() as int,
                self.tensors@.len() as int,
            )
        &&& forall|b: int|
            0 <= b < self.binds@.len() ==> bind_wf(
                #[trigger] self.binds@[b],
                self.tensors@.len() as int,
            )
        &&& forall|i: int|
            0 <= i < self.inputs@.len() ==> ((#[trigger] self.inputs@[i]).1 as int)
                < self.tensors@.len()
        &&& forall|i: int|
            0 <= i < self.outputs@.len() ==> ((#[trigger] self.outputs@[i]).1 as int)
                < self.tensors@.len()
    }

    /// An empty module of the given name.
    pub fn new(name: &str) -> (m: Module)
        ensures
            m.wf(),
            m.name@ == name@,
            m.params@.len() == 0,
            m.exprs.nodes@.len() == 0,
            m.tensors@.len() == 0,
            m.ops@.len() == 0,
            m.binds@.len() == 0,
            m.inputs@.len() == 0,
            m.outputs@.len() == 0,
    {
        Module {
            name: name.to_owned(),
            params: Vec::new(),
            exprs: ExprArena::new(),
            tensors: Vec::new(),
            ops: Vec::new(),
            binds: Vec::new(),
            inputs: Vec::new(),
            outputs: Vec::new(),
        }
    }

    /// The canonical handle of an integer constant in this module's table.
    pub fn get_param_const(&mut self, value: i64) -> (r: ExprId)
        requires
            old(self).wf(),
        ensures
            final(self).wf(),
            final(self).exprs.extends(old(self).exprs),
            (r as int) < final(self).exprs.nodes@.len(),
            final(self).exprs.nodes@[r as int] == ParameterExpression::Constant(value),
            (exists|k: int|
                0 <= k < old(self).exprs.nodes@.len() && #[trigger] old(self).exprs.nodes@[k]
                    == ParameterExpression::Constant(value)) ==> final(self).exprs.nodes@ == old(
                self,
            ).exprs.nodes@,
            !(exists|k: int|
                0 <= k < old(self).exprs.nodes@.len() && #[trigger] old(self).exprs.nodes@[k]
                    == ParameterExpression::Constant(value)) ==> (final(self).exprs.nodes@ == old(
                self,
            ).exprs.nodes@.push(ParameterExpression::Constant(value)) && r as int == old(
                self,
            ).exprs.nodes@.len()),
            final(self).tensors@ == old(self).tensors@,
            final(self).ops@ == old(self).ops@,
            final(self).binds@ == old(self).binds@,
            final(self).params@ == old(self).params@,
            final(self).inputs@ == old(self).inputs@,
            final(self).outputs@ == old(self).outputs@,
            final(self).name@ == old(self).name@,
    {
        let r = self.exprs.mk_constant(value);
        proof {
            assert forall|t: int| 0 <= t < self.tensors@.len() implies tensor_wf(
                #[trigger] self.tensors@[t],
                self.exprs.nodes@.len() as int,
                self.ops@.len() as int,
            ) by {
                assert(tensor_wf(
                    self.tensors@[t],
                    old(self).exprs.nodes@.len() as int,
                    self.ops@.len() as int,
                ));
            }
            assert forall|o: int| 0 <= o < self.ops@.len() implies op_wf(
                #[trigger] self.ops@[o],
                self.exprs.nodes@.len() as int,
                self.tensors@.len() as int,
            ) by {
                assert(op_wf(
                    self.ops@[o],
                    old(self).exprs.nodes@.len() as int,
                    self.tensors@.len() as int,
                ));
            }
        }
        r
    }

    /// Registers a module parameter and returns the canonical handle of the
    /// expression referencing it.
    pub fn add_param(&mut self, name: String) -> (r: ExprId)
        requires
            old(self).wf(),
        ensures
            final(self).wf(),
            final(self).exprs.extends(old(self).exprs),
            (r as int) < final(self).exprs.nodes@.len(),
            final(self).exprs.nodes@[r as int] matches ParameterExpression::Parameter(s) && s@
                == name@,
            final(self).params@.len() == old(self).params@.len() + 1,
            final(self).params@[old(self).params@.len() as int].name@ == name@,
            final(self).params@[old(self).params@.len() as int].expr == r,
            forall|p: int|
                0 <= p < old(self).params@.len() ==> final(self).params@[p] == #[trigger] old(
                    self,
                ).params@[p],
            final(self).tensors@ == old(self).tensors@,
            final(self).ops@ == old(self).ops@,
            final(self).binds@ == old(self).binds@,
            final(self).inputs@ == old(self).inputs@,
            final(self).outputs@ == old(self).outputs@,
            final(self).name@ == old(self).name@,
    {
        let pname = name.clone();
        let r = self.exprs.mk_parameter(name);
        self.params.push(ParamDecl { name: pname, expr: r });
        proof {
            assert forall|t: int| 0 <= t < self.tensors@.len() implies tensor_wf(
                #[trigger] self.tensors@[t],
                self.exprs.nodes@.len() as int,
                self.ops@.len() as int,
            ) by {
                assert(tensor_wf(
                    self.tensors@[t],
                    old(self).exprs.nodes@.len() as int,
                    self.ops@.len() as int,
                ));
            }
            assert forall|o: int| 0 <= o < self.ops@.len() implies op_wf(
                #[trigger] self.ops@[o],
                self.exprs.nodes@.len() as int,
                self.tensors@.len() as int,
            ) by {
                assert(op_wf(
                    self.ops@[o],
                    old(self).exprs.nodes@.len() as int,
                    self.tensors@.len() as int,
                ));
            }
        }
        r
    }

    /// Creates a primary tensor: a declared wire or port with no producer.
    pub fn add_primary(&mut self, shape: Vec<ExprId>) -> (t: TensorId)
        requires
            old(self).wf(),
            shape@.len() >= 1,
            forall|k: int| 0 <= k < shape@.len() ==> ((#[trigger] shape@[k]) as int) < old(
                self,
            ).exprs.nodes@.len(),
        ensures
            final(self).wf(),
            t as int == old(self).tensors@.len(),
            final(self).tensors@.len() == old(self).tensors@.len() + 1,
            forall|t2: int|
                0 <= t2 < old(self).tensors@.len() ==> final(self).tensors@[t2] == #[trigger] old(
                    self,
                ).tensors@[t2],
            final(self).tensors@[t as int].shape@ == shape@,
            final(self).tensors@[t as int].from is None,
            final(self).exprs == old(self).exprs,
            final(self).ops@ == old(self).ops@,
            final(self).binds@ == old(self).binds@,
            final(self).params@ == old(self).params@,
            final(self).inputs@ == old(self).inputs@,
            final(self).outputs@ == old(self).outputs@,
            final(self).name@ == old(self).name@,
    {
        let t = self.tensors.len();
        self.tensors.push(BitTensor { shape, from: None });
        t
    }

    /// Registers a tensor as a named input of the module signature.
    pub fn register_input(&mut self, name: String, t: TensorId)
        requires
            old(self).wf(),
            (t as int) < old(self).tensors@.len(),
        ensures
            final(self).wf(),
            final(self).inputs@ == old(self).inputs@.push((name, t)),
            final(self).outputs@ == old(self).outputs@,
            final(self).tensors@ == old(self).tensors@,
            final(self).ops@ == old(self).ops@,
            final(self).binds@ == old(self).binds@,
            final(self).params@ == old(self).params@,
            final(self).exprs == old(self).exprs,
            final(self).name@ == old(self).name@,
    {
        self.inputs.push((name, t));
    }

    /// Registers a tensor as a named output of the module signature.
    pub fn register_output(&mut self, name: String, t: TensorId)
        requires
            old(self).wf(),
            (t as int) < old(self).tensors@.len(),
        ensures
            final(self).wf(),
            final(self).outputs@ == old(self).outputs@.push((name, t)),
            final(self).inputs@ == old(self).inputs@,
            final(self).tensors@ == old(self).tensors@,
            final(self).ops@ == old(self).ops@,
            final(self).binds@ == old(self).binds@,
            final(self).params@ == old(self).params@,
            final(self).exprs == old(self).exprs,
            final(self).name@ == old(self).name@,
    {
        self.outputs.push((name, t));
    }
}

/// Whether every mapped input is a one-dimensional tensor agreeing with
/// the first input on its (leading) extent, by canonical handle.
pub open spec fn gate_map_ok(tensors: Seq<BitTensor>, inputs: Seq<TensorId>) -> bool {
    forall|i: int|
        0 <= i < inputs.len() ==> ((#[trigger] tensors[inputs[i] as int].shape@).len() == 1
            && tensors[inputs[i] as int].shape@[0] == tensors[inputs[0] as int].shape@[0])
}

/// Whether each input's shape is canonical-handle-equal, dimension by
/// dimension, to the matching declared shape.
pub open spec fn apply_inputs_ok(
    tensors: Seq<BitTensor>,
    inputs: Seq<TensorId>,
    expected: Seq<Vec<ExprId>>,
) -> bool {
    forall|i: int|
        0 <= i < inputs.len() ==> tensors[(#[trigger] inputs[i]) as int].shape@ == expected[i]@
}

/// Whether all zipped inputs share every dimension except the last, by
/// canonical handle, and agree on rank.
pub open spec fn zip_inputs_ok(tensors: Seq<BitTensor>, inputs: Seq<TensorId>) -> bool {
    forall|i: int|
        0 <= i < inputs.len() ==> ((#[trigger] tensors[inputs[i] as int].shape@).len()
            == tensors[inputs[0] as int].shape@.len() && (forall|k: int|
            0 <= k < tensors[inputs[i] as int].shape@.len() - 1 ==> #[trigger] tensors[inputs[i] as int].shape@[k]
                == tensors[inputs[0] as int].shape@[k]))
}

/// Every declared shape has at least one dimension and only valid handles.
pub open spec fn shapes_ids_wf(shapes: Seq<Vec<ExprId>>, nexprs: int) -> bool {
    forall|j: int|
        0 <= j < shapes.len() ==> ((#[trigger] shapes[j]@).len() >= 1 && (forall|k: int|
            0 <= k < shapes[j]@.len() ==> ((#[trigger] shapes[j]@[k]) as int) < nexprs))
}

/// Finds the first dimension at which `actual` differs from `expected`.
/// `None` means the shapes are canonical-handle-equal, dimension by
/// dimension. On a rank mismatch with equal common prefix, the cited
/// dimension is the shorter rank and the handles give the two ranks.
pub fn first_shape_mismatch(expected: &Vec<ExprId>, actual: &Vec<ExprId>) -> (r: Option<
    (usize, usize, usize),
>)
    ensures
        r is None <==> expected@ == actual@,
        r matches Some(t) ==> (forall|j: int| 0 <= j < t.0 ==> expected@[j] == actual@[j]) && ((
        (t.0 as int) < expected@.len() && (t.0 as int) < actual@.len() && expected@[t.0 as int]
            != actual@[t.0 as int] && t.1 == expected@[t.0 as int] && t.2
            == actual@[t.0 as int]) || ((t.0 as int) == vstd::math::min(
            expected@.len() as int,
            actual@.len() as int,
        ) && expected@.len() != actual@.len() && t.1 == expected@.len() && t.2
            == actual@.len())),
{
    let ne = expected.len();
    let na = actual.len();
    let n = if ne <= na {
        ne
    } else {
        na
    };
    let mut k: usize = 0;
    while k < n
        invariant
            n == vstd::math::min(ne as int, na as int),
            ne == expected@.len(),
            na == actual@.len(),
            k <= n,
            forall|j: int| 0 <= j < k ==> expected@[j] == actual@[j],
        decreases n - k,
    {
        if expected[k] != actual[k] {
            return Some((k, expected[k], actual[k]));
        }
        k = k + 1;
    }
    if ne == na {
        proof {
            assert(expected@ =~= actual@);
        }
        None
    } else {
        Some((n, ne, na))
    }
}

impl Module {
    /// Creates the derived tensor a view produces: records the view as an
    /// operator and a tensor of the view's shape whose producer it is.
    pub fn add_view(&mut self, v: TensorView) -> (t: TensorId)
        requires
            old(self).wf(),
            view_ids_wf(v, old(self).exprs.nodes@.len() as int, old(self).tensors@.len() as int),
        ensures
            final(self).wf(),
            t as int == old(self).tensors@.len(),
            final(self).tensors@.len() == old(self).tensors@.len() + 1,
            forall|t2: int|
                0 <= t2 < old(self).tensors@.len() ==> final(self).tensors@[t2] == #[trigger] old(
                    self,
                ).tensors@[t2],
            final(self).tensors@[t as int].shape@ == v.shape@,
            final(self).tensors@[t as int].from == Some(old(self).ops@.len() as OpId),
            final(self).ops@ == old(self).ops@.push(Op::View(v)),
            final(self).exprs == old(self).exprs,
            final(self).binds@ == old(self).binds@,
            final(self).params@ == old(self).params@,
            final(self).inputs@ == old(self).inputs@,
            final(self).outputs@ == old(self).outputs@,
            final(self).name@ == old(self).name@,
    {
        let shape = copy_ids(&v.shape);
        let o = self.ops.len();
        self.ops.push(Op::View(v));
        let t = self.tensors.len();
        self.tensors.push(BitTensor { shape, from: Some(o) });
        proof {
            assert forall|t2: int| 0 <= t2 < self.tensors@.len() implies tensor_wf(
                #[trigger] self.tensors@[t2],
                self.exprs.nodes@.len() as int,
                self.ops@.len() as int,
            ) by {
                if t2 < old(self).tensors@.len() {
                    assert(tensor_wf(
                        old(self).tensors@[t2],
                        self.exprs.nodes@.len() as int,
                        old(self).ops@.len() as int,
                    ));
                }
            }
            assert forall|o2: int| 0 <= o2 < self.ops@.len() implies op_wf(
                #[trigger] self.ops@[o2],
                self.exprs.nodes@.len() as int,
                self.tensors@.len() as int,
            ) by {
                if o2 < old(self).ops@.len() {
                    assert(op_wf(
                        old(self).ops@[o2],
                        self.exprs.nodes@.len() as int,
                        old(self).tensors@.len() as int,
                    ));
                }
            }
        }
        t
    }

    /// Broadcast-map of a built-in gate over the shared leading dimension
    /// of rank-one inputs; the result is a tensor of that same extent.
    /// Inputs that disagree on the extent, or that carry extra dimensions,
    /// fail with `ShapeMismatch`.
    pub fn map_gate(&mut self, gate: GateKind, inputs: Vec<TensorId>) -> (r: Result<
        TensorId,
        ElabError,
    >)
        requires
            old(self).wf(),
            inputs@.len() == gate_arity(gate),
            forall|i: int|
                0 <= i < inputs@.len() ==> ((#[trigger] inputs@[i]) as int) < old(
                    self,
                ).tensors@.len(),
        ensures
            final(self).wf(),
            (r matches Ok(t)) <==> gate_map_ok(old(self).tensors@, inputs@),
            gate_map_ok(old(self).tensors@, inputs@) ==> (r matches Ok(t) && t as int == old(
                self,
            ).tensors@.len() && final(self).tensors@.len() == old(self).tensors@.len() + 1 && (
            forall|t2: int|
                0 <= t2 < old(self).tensors@.len() ==> final(self).tensors@[t2] == #[trigger] old(
                    self,
                ).tensors@[t2]) && final(self).tensors@[t as int].shape@ == seq![
                old(self).tensors@[inputs@[0] as int].shape@[0],
            ] && final(self).tensors@[t as int].from == Some(old(self).ops@.len() as OpId)
                && final(self).ops@ == old(self).ops@.push(
                Op::Mapped(MapOp { module: SubModuleRef::Gate(gate), inputs }),
            )),
            !gate_map_ok(old(self).tensors@, inputs@) ==> (r matches Err(e) && (e matches
            ElabError::ShapeMismatch { dim, expected, actual }) && *final(self) == *old(self)),
            ((forall|i: int|
                0 <= i < inputs@.len() ==> (#[trigger] old(
                    self,
                ).tensors@[inputs@[i] as int].shape@).len() == 1) && !gate_map_ok(
                old(self).tensors@,
                inputs@,
            )) ==> (exists|i: int|
                0 <= i < inputs@.len() && (forall|j: int|
                    0 <= j < i ==> #[trigger] old(self).tensors@[inputs@[j] as int].shape@[0]
                        == old(self).tensors@[inputs@[0] as int].shape@[0]) && old(
                    self,
                ).tensors@[inputs@[i] as int].shape@[0] != old(
                    self,
                ).tensors@[inputs@[0] as int].shape@[0] && r == Result::<
                    TensorId,
                    ElabError,
                >::Err(
                    ElabError::ShapeMismatch {
                        dim: 0,
                        expected: old(self).tensors@[inputs@[0] as int].shape@[0],
                        actual: old(self).tensors@[inputs@[i] as int].shape@[0],
                    },
                )),
            final(self).exprs == old(self).exprs,
            final(self).binds@ == old(self).binds@,
            final(self).params@ == old(self).params@,
            final(self).inputs@ == old(self).inputs@,
            final(self).outputs@ == old(self).outputs@,
            final(self).name@ == old(self).name@,
    {
        let n = inputs.len();
        let first = inputs[0];
        if self.tensors[first].shape.len() != 1 {
            return Err(
                ElabError::ShapeMismatch {
                    dim: 1,
                    expected: 1,
                    actual: self.tensors[first].shape.len(),
                },
            );
        }
        let lead = self.tensors[first].shape[0];
        let mut i: usize = 1;
        while i < n
            invariant
                old(self).wf(),
                *self == *old(self),
                n == inputs@.len(),
                1 <= i <= n,
                forall|j: int|
                    0 <= j < inputs@.len() ==> ((#[trigger] inputs@[j]) as int) < old(
                        self,
                    ).tensors@.len(),
                first == inputs@[0],
                old(self).tensors@[first as int].shape@.len() == 1,
                lead == old(self).tensors@[first as int].shape@[0],
                forall|j: int|
                    0 <= j < i ==> (#[trigger] old(self).tensors@[inputs@[j] as int].shape@).len()
                        == 1 && old(self).tensors@[inputs@[j] as int].shape@[0] == lead,
            decreases n - i,
        {
            let ti = inputs[i];
            if self.tensors[ti].shape.len() != 1 {
                return Err(
                    ElabError::ShapeMismatch {
                        dim: 1,
                        expected: 1,
                        actual: self.tensors[ti].shape.len(),
                    },
                );
            }
            if self.tensors[ti].shape[0] != lead {
                return Err(
                    ElabError::ShapeMismatch {
                        dim: 0,
                        expected: lead,
                        actual: self.tensors[ti].shape[0],
                    },
                );
            }
            i = i + 1;
        }
        let o = self.ops.len();
        self.ops.push(Op::Mapped(MapOp { module: SubModuleRef::Gate(gate), inputs }));
        let t = self.tensors.len();
        let mut shape: Vec<ExprId> = Vec::new();
        shape.push(lead);
        self.tensors.push(BitTensor { shape, from: Some(o) });
        proof {
            assert forall|t2: int| 0 <= t2 < self.tensors@.len() implies tensor_wf(
                #[trigger] self.tensors@[t2],
                self.exprs.nodes@.len() as int,
                self.ops@.len() as int,
            ) by {
                if t2 < old(self).tensors@.len() {
                    assert(tensor_wf(
                        old(self).tensors@[t2],
                        self.exprs.nodes@.len() as int,
                        old(self).ops@.len() as int,
                    ));
                }
            }
            assert forall|o2: int| 0 <= o2 < self.ops@.len() implies op_wf(
                #[trigger] self.ops@[o2],
                self.exprs.nodes@.len() as int,
                self.tensors@.len() as int,
            ) by {
                if o2 < old(self).ops@.len() {
                    assert(op_wf(
                        old(self).ops@[o2],
                        self.exprs.nodes@.len() as int,
                        old(self).tensors@.len() as int,
                    ));
                }
            }
        }
        Ok(t)
    }
}

/// Whether the cited dimension and handles are the first mismatch between
/// a declared shape and an actual shape, as `ShapeMismatch` reports them.
pub open spec fn mismatch_cited(
    expected: Seq<ExprId>,
    actual: Seq<ExprId>,
    dim: int,
    exp_cited: int,
    act_cited: int,
) -> bool {
    &&& forall|j: int| 0 <= j < dim ==> expected[j] == actual[j]
    &&& ((dim < expected.len() && dim < actual.len() && expected[dim] != actual[dim] && exp_cited
        == expected[dim] && act_cited == actual[dim]) || (dim == vstd::math::min(
        expected.len() as int,
        actual.len() as int,
    ) && expected.len() != actual.len() && exp_cited == expected.len() && act_cited
        == actual.len()))
}

impl Module {
    /// Instantiate: binds a sub-module's inputs to caller tensors after
    /// checking each input's shape against the matching declared input
    /// shape, dimension by dimension and by canonical handle, and creates
    /// one new tensor per declared output. `sub` is the sub-module's
    /// registry index; `expected` and `out_shapes` are its declared input
    /// and output shapes imported into this module's arena. On the first
    /// input whose shape differs, fails with `ShapeMismatch` citing the
    /// first mismatching dimension.
    pub fn instantiate(
        &mut self,
        sub: usize,
        expected: &Vec<Vec<ExprId>>,
        out_shapes: &Vec<Vec<ExprId>>,
        inputs: Vec<TensorId>,
    ) -> (r: Result<Vec<TensorId>, ElabError>)
        requires
            old(self).wf(),
            inputs@.len() == expected@.len(),
            forall|i: int|
                0 <= i < inputs@.len() ==> ((#[trigger] inputs@[i]) as int) < old(
                    self,
                ).tensors@.len(),
            shapes_ids_wf(out_shapes@, old(self).exprs.nodes@.len() as int),
        ensures
            final(self).wf(),
            (r matches Ok(outs)) <==> apply_inputs_ok(old(self).tensors@, inputs@, expected@),
            apply_inputs_ok(old(self).tensors@, inputs@, expected@) ==> (r matches Ok(outs)
                && outs@.len() == out_shapes@.len() && (forall|j: int|
                0 <= j < outs@.len() ==> (#[trigger] outs@[j]) as int == old(self).tensors@.len()
                    + j) && final(self).tensors@.len() == old(self).tensors@.len()
                + out_shapes@.len() && (forall|t2: int|
                0 <= t2 < old(self).tensors@.len() ==> final(self).tensors@[t2] == #[trigger] old(
                    self,
                ).tensors@[t2]) && (forall|j: int|
                0 <= j < out_shapes@.len() ==> (#[trigger] final(self).tensors@[old(
                    self,
                ).tensors@.len() + j].shape@) == out_shapes@[j]@ && final(self).tensors@[old(
                    self,
                ).tensors@.len() + j].from == Some(old(self).ops@.len() as OpId)) && final(self).ops@ == old(self).ops@.push(
                Op::Apply(Apply { module: SubModuleRef::Named(sub), inputs }),
            )),
            !apply_inputs_ok(old(self).tensors@, inputs@, expected@) ==> (*final(self) == *old(
                self,
            ) && (exists|i: int|
                0 <= i < inputs@.len() && (forall|i2: int|
                    0 <= i2 < i ==> (#[trigger] old(self).tensors@[inputs@[i2] as int].shape@)
                        == expected@[i2]@) && old(self).tensors@[inputs@[i] as int].shape@
                    != expected@[i]@ && (r matches Err(e) && e matches ElabError::ShapeMismatch {
                    dim,
                    expected: ec,
                    actual: ac,
                } && mismatch_cited(
                    expected@[i]@,
                    old(self).tensors@[inputs@[i] as int].shape@,
                    dim as int,
                    ec as int,
                    ac as int,
                )))),
            final(self).exprs == old(self).exprs,
            final(self).binds@ == old(self).binds@,
            final(self).params@ == old(self).params@,
            final(self).inputs@ == old(self).inputs@,
            final(self).outputs@ == old(self).outputs@,
            final(self).name@ == old(self).name@,
    {
        let n = inputs.len();
        let mut i: usize = 0;
        while i < n
            invariant
                old(self).wf(),
                *self == *old(self),
                n == inputs@.len(),
                inputs@.len() == expected@.len(),
                i <= n,
                forall|j: int|
                    0 <= j < inputs@.len() ==> ((#[trigger] inputs@[j]) as int) < old(
                        self,
                    ).tensors@.len(),
                forall|i2: int|
                    0 <= i2 < i ==> (#[trigger] old(self).tensors@[inputs@[i2] as int].shape@)
                        == expected@[i2]@,
            decreases n - i,
        {
            let ti = inputs[i];
            match first_shape_mismatch(&expected[i], &self.tensors[ti].shape) {
                None => {},
                Some((d, e, a)) => {
                    return Err(ElabError::ShapeMismatch { dim: d, expected: e, actual: a });
                },
            }
            i = i + 1;
        }
        let o = self.ops.len();
        self.ops.push(Op::Apply(Apply { module: SubModuleRef::Named(sub), inputs }));
        let base = self.tensors.len();
        let mut outs: Vec<TensorId> = Vec::new();
        let nout = out_shapes.len();
        let mut j: usize = 0;
        while j < nout
            invariant
                nout == out_shapes@.len(),
                j <= nout,
                base == old(self).tensors@.len(),
                o == old(self).ops@.len(),
                self.ops@ == old(self).ops@.push(
                    Op::Apply(Apply { module: SubModuleRef::Named(sub), inputs: inputs }),
                ),
                shapes_ids_wf(out_shapes@, old(self).exprs.nodes@.len() as int),
                self.exprs == old(self).exprs,
                self.binds@ == old(self).binds@,
                self.params@ == old(self).params@,
                self.inputs@ == old(self).inputs@,
                self.outputs@ == old(self).outputs@,
                self.name@ == old(self).name@,
                outs@.len() == j,
                forall|jj: int| 0 <= jj < j ==> (#[trigger] outs@[jj]) as int == base + jj,
                self.tensors@.len() == base + j,
                forall|t2: int|
                    0 <= t2 < base ==> self.tensors@[t2] == #[trigger] old(self).tensors@[t2],
                forall|t2: int|
                    base <= t2 < self.tensors@.len() ==> (#[trigger] self.tensors@[t2].shape@)
                        == out_shapes@[t2 - base]@,
                forall|t2: int|
                    base <= t2 < self.tensors@.len() ==> (#[trigger] self.tensors@[t2].from)
                        == Some(o as OpId),
            decreases nout - j,
        {
            let shape = copy_ids(&out_shapes[j]);
            proof {
                assert(shape@ == out_shapes@[j as int]@);
            }
            let ghost pre = self.tensors@;
            let t = self.tensors.len();
            self.tensors.push(BitTensor { shape, from: Some(o) });
            outs.push(t);
            proof {
                assert forall|t2: int|
                    base <= t2 < self.tensors@.len() implies (#[trigger] self.tensors@[t2].shape@)
                    == out_shapes@[t2 - base]@ by {
                    if t2 < pre.len() {
                        assert(pre[t2].shape@ == out_shapes@[t2 - base]@);
                        assert(self.tensors@[t2] == pre[t2]);
                    } else {
                        assert(self.tensors@[t2] == (BitTensor { shape: shape, from: Some(o) }));
                        assert(t2 - base == j as int);
                    }
                }
                assert forall|t2: int|
                    base <= t2 < self.tensors@.len() implies (#[trigger] self.tensors@[t2].from)
                    == Some(o as OpId) by {
                    if t2 < pre.len() {
                        assert(pre[t2].from == Some(o as OpId));
                        assert(self.tensors@[t2] == pre[t2]);
                    } else {
                        assert(self.tensors@[t2] == (BitTensor { shape: shape, from: Some(o) }));
                    }
                }
            }
            j = j + 1;
        }
        proof {
            assert forall|t2: int| 0 <= t2 < self.tensors@.len() implies tensor_wf(
                #[trigger] self.tensors@[t2],
                self.exprs.nodes@.len() as int,
                self.ops@.len() as int,
            ) by {
                if t2 < base {
                    assert(tensor_wf(
                        old(self).tensors@[t2],
                        self.exprs.nodes@.len() as int,
                        old(self).ops@.len() as int,
                    ));
                } else {
                    assert(self.tensors@[t2].shape@ == out_shapes@[t2 - base]@);
                    assert((out_shapes@[t2 - base]@).len() >= 1 && (forall|k: int|
                        0 <= k < out_shapes@[t2 - base]@.len() ==> ((#[trigger] out_shapes@[t2
                            - base]@[k]) as int) < old(self).exprs.nodes@.len()));
                }
            }
            assert forall|o2: int| 0 <= o2 < self.ops@.len() implies op_wf(
                #[trigger] self.ops@[o2],
                self.exprs.nodes@.len() as int,
                self.tensors@.len() as int,
            ) by {
                if o2 < old(self).ops@.len() {
                    assert(op_wf(
                        old(self).ops@[o2],
                        self.exprs.nodes@.len() as int,
                        old(self).tensors@.len() as int,
                    ));
                }
            }
            assert forall|t2: int|
                0 <= t2 < self.tensors@.len() implies ((#[trigger] self.tensors@[t2]).from matches
                Some(o2) ==> (forall|q: int|
                0 <= q < crate::op::op_inputs(self.ops@[o2 as int]).len()
                    ==> ((#[trigger] crate::op::op_inputs(self.ops@[o2 as int])[q]) as int)
                    < t2)) by {
                if t2 < base {
                    assert(self.tensors@[t2] == old(self).tensors@[t2]);
                    match self.tensors@[t2].from {
                        Some(o2) => {
                            assert(tensor_wf(
                                old(self).tensors@[t2],
                                old(self).exprs.nodes@.len() as int,
                                old(self).ops@.len() as int,
                            ));
                            assert(self.ops@[o2 as int] == old(self).ops@[o2 as int]);
                        },
                        None => {},
                    }
                } else {
                    assert(self.tensors@[t2].from == Some(o as OpId));
                    assert(crate::op::op_inputs(self.ops@[o as int]) == inputs@);
                }
            }
        }
        Ok(outs)
    }
}

/// Whether input `i` agrees with input 0 on rank and on every dimension
/// but the last, by canonical handle.
pub open spec fn zip_pair_ok(tensors: Seq<BitTensor>, inputs: Seq<TensorId>, i: int) -> bool {
    let sh0 = tensors[inputs[0] as int].shape@;
    let shi = tensors[inputs[i] as int].shape@;
    shi.len() == sh0.len() && (forall|k: int| 0 <= k < shi.len() - 1 ==> shi[k] == sh0[k])
}

/// What a `ZipDimensionMismatch` cites: `i` is the first input whose shape
/// disagrees with input 0 outside the trailing dimension, and `d` the first
/// dimension at which it does (the shorter rank, when the ranks differ).
pub open spec fn zip_first_offender(
    tensors: Seq<BitTensor>,
    inputs: Seq<TensorId>,
    i: int,
    d: int,
) -> bool {
    let sh0 = tensors[inputs[0] as int].shape@;
    &&& 0 < i < inputs.len()
    &&& forall|i2: int| 1 <= i2 < i ==> zip_pair_ok(tensors, inputs, i2)
    &&& {
        let shi = tensors[inputs[i] as int].shape@;
        ((shi.len() != sh0.len() && d == vstd::math::min(shi.len() as int, sh0.len() as int)) || (
        shi.len() == sh0.len() && 0 <= d < sh0.len() - 1 && shi[d] != sh0[d] && (forall|k: int|
            0 <= k < d ==> shi[k] == sh0[k])))
    }
}

impl Module {
    /// Zip: concatenates tensors along their trailing dimension, in
    /// argument order, requiring all inputs to agree on rank and on every
    /// dimension but the last. The result's trailing extent is the
    /// left-to-right sum of the inputs' trailing extents; for two inputs it
    /// is exactly the canonical node `Add(first's extent, second's
    /// extent)`, so the first input's bits precede the second's.
    pub fn zip(&mut self, inputs: Vec<TensorId>) -> (r: Result<TensorId, ElabError>)
        requires
            old(self).wf(),
            inputs@.len() >= 1,
            forall|i: int|
                0 <= i < inputs@.len() ==> ((#[trigger] inputs@[i]) as int) < old(
                    self,
                ).tensors@.len(),
        ensures
            final(self).wf(),
            (r matches Ok(t)) <==> zip_inputs_ok(old(self).tensors@, inputs@),
            zip_inputs_ok(old(self).tensors@, inputs@) ==> (r matches Ok(t) && t as int == old(
                self,
            ).tensors@.len() && final(self).tensors@.len() == old(self).tensors@.len() + 1 && (
            forall|t2: int|
                0 <= t2 < old(self).tensors@.len() ==> final(self).tensors@[t2] == #[trigger] old(
                    self,
                ).tensors@[t2]) && final(self).tensors@[t as int].shape@.len() == old(
                self,
            ).tensors@[inputs@[0] as int].shape@.len() && (forall|k: int|
                0 <= k < old(self).tensors@[inputs@[0] as int].shape@.len() - 1 ==> #[trigger] final(self).tensors@[t as int].shape@[k] == old(self).tensors@[inputs@[0] as int].shape@[k])
                && final(self).tensors@[t as int].from == Some(old(self).ops@.len() as OpId)
                && final(self).ops@ == old(self).ops@.push(Op::Zip(Zip { inputs })) && final(self).exprs.extends(old(self).exprs)),
            (zip_inputs_ok(old(self).tensors@, inputs@) && inputs@.len() == 2) ==> (r matches Ok(t)
                && final(self).exprs.nodes@[final(self).tensors@[t as int].shape@.last() as int]
                == ParameterExpression::Add(
                old(self).tensors@[inputs@[0] as int].shape@.last(),
                old(self).tensors@[inputs@[1] as int].shape@.last(),
            )),
            !zip_inputs_ok(old(self).tensors@, inputs@) ==> (*final(self) == *old(self) && (r
                matches Err(e) && e matches ElabError::ZipDimensionMismatch { input: ei, dim: ed }
                && zip_first_offender(old(self).tensors@, inputs@, ei as int, ed as int))),
            final(self).binds@ == old(self).binds@,
            final(self).params@ == old(self).params@,
            final(self).inputs@ == old(self).inputs@,
            final(self).outputs@ == old(self).outputs@,
            final(self).name@ == old(self).name@,
    {
        let n = inputs.len();
        let t0 = inputs[0];
        let r0 = self.tensors[t0].shape.len();
        let mut i: usize = 1;
        while i < n
            invariant
                old(self).wf(),
                *self == *old(self),
                n == inputs@.len(),
                1 <= i <= n,
                forall|j: int|
                    0 <= j < inputs@.len() ==> ((#[trigger] inputs@[j]) as int) < old(
                        self,
                    ).tensors@.len(),
                t0 == inputs@[0],
                r0 == old(self).tensors@[t0 as int].shape@.len(),
                forall|i2: int|
                    0 <= i2 < i ==> ((#[trigger] old(self).tensors@[inputs@[i2] as int].shape@).len()
                        == r0 && (forall|k: int|
                        0 <= k < old(self).tensors@[inputs@[i2] as int].shape@.len() - 1
                            ==> #[trigger] old(self).tensors@[inputs@[i2] as int].shape@[k] == old(
                            self,
                        ).tensors@[inputs@[0] as int].shape@[k])),
            decreases n - i,
        {
            let ti = inputs[i];
            let ri = self.tensors[ti].shape.len();
            if ri != r0 {
                let d = if ri <= r0 {
                    ri
                } else {
                    r0
                };
                proof {
                    assert forall|i2: int| 1 <= i2 < i as int implies zip_pair_ok(
                        old(self).tensors@,
                        inputs@,
                        i2,
                    ) by {
                        assert((old(self).tensors@[inputs@[i2] as int].shape@).len() == r0);
                    }
                    assert(zip_first_offender(old(self).tensors@, inputs@, i as int, d as int));
                }
                return Err(ElabError::ZipDimensionMismatch { input: i, dim: d });
            }
            let mut k: usize = 0;
            while k < r0 - 1
                invariant
                    old(self).wf(),
                    *self == *old(self),
                    n == inputs@.len(),
                    1 <= i < n,
                    forall|j: int|
                        0 <= j < inputs@.len() ==> ((#[trigger] inputs@[j]) as int) < old(
                            self,
                        ).tensors@.len(),
                    t0 == inputs@[0],
                    ti == inputs@[i as int],
                    r0 == old(self).tensors@[t0 as int].shape@.len(),
                    ri == old(self).tensors@[ti as int].shape@.len(),
                    ri == r0,
                    1 <= r0,
                    k <= r0 - 1,
                    forall|i2: int|
                        0 <= i2 < i ==> ((#[trigger] old(
                            self,
                        ).tensors@[inputs@[i2] as int].shape@).len() == r0 && (forall|k2: int|
                            0 <= k2 < old(self).tensors@[inputs@[i2] as int].shape@.len() - 1
                                ==> #[trigger] old(self).tensors@[inputs@[i2] as int].shape@[k2]
                                == old(self).tensors@[inputs@[0] as int].shape@[k2])),
                    forall|k2: int|
                        0 <= k2 < k ==> #[trigger] old(self).tensors@[ti as int].shape@[k2] == old(
                            self,
                        ).tensors@[t0 as int].shape@[k2],
                decreases r0 - 1 - k,
            {
                if self.tensors[ti].shape[k] != self.tensors[t0].shape[k] {
                    proof {
                        assert forall|i2: int| 1 <= i2 < i as int implies zip_pair_ok(
                            old(self).tensors@,
                            inputs@,
                            i2,
                        ) by {
                            assert((old(self).tensors@[inputs@[i2] as int].shape@).len() == r0);
                        }
                        assert(zip_first_offender(old(self).tensors@, inputs@, i as int, k as int));
                    }
                    return Err(ElabError::ZipDimensionMismatch { input: i, dim: k });
                }
                k = k + 1;
            }
            i = i + 1;
        }
        let ghost lead0 = self.tensors@[t0 as int].shape@;
        let mut trailing: ExprId = self.tensors[t0].shape[r0 - 1];
        let mut i2: usize = 1;
        while i2 < n
            invariant
                old(self).wf(),
                self.tensors@ == old(self).tensors@,
                self.ops@ == old(self).ops@,
                self.binds@ == old(self).binds@,
                self.params@ == old(self).params@,
                self.inputs@ == old(self).inputs@,
                self.outputs@ == old(self).outputs@,
                self.name@ == old(self).name@,
                self.exprs.wf(),
                self.exprs.extends(old(self).exprs),
                n == inputs@.len(),
                1 <= i2 <= n,
                forall|j: int|
                    0 <= j < inputs@.len() ==> ((#[trigger] inputs@[j]) as int) < old(
                        self,
                    ).tensors@.len(),
                t0 == inputs@[0],
                r0 == old(self).tensors@[t0 as int].shape@.len(),
                1 <= r0,
                forall|i3: int|
                    0 <= i3 < inputs@.len() ==> (#[trigger] old(
                        self,
                    ).tensors@[inputs@[i3] as int].shape@).len() == r0,
                (trailing as int) < self.exprs.nodes@.len(),
                (n == 2 && i2 == 2) ==> self.exprs.nodes@[trailing as int]
                    == ParameterExpression::Add(
                    old(self).tensors@[inputs@[0] as int].shape@.last(),
                    old(self).tensors@[inputs@[1] as int].shape@.last(),
                ),
                (i2 == 1) ==> trailing == old(self).tensors@[t0 as int].shape@.last(),
            decreases n - i2,
        {
            let ti = inputs[i2];
            let lastb: ExprId = self.tensors[ti].shape[r0 - 1];
            proof {
                assert(old(self).tensors@[ti as int].shape@.len() == r0);
                assert(lastb == old(self).tensors@[ti as int].shape@.last());
            }
            trailing = self.exprs.mk_add(trailing, lastb);
            i2 = i2 + 1;
        }
        let mut shape: Vec<ExprId> = Vec::new();
        let mut k3: usize = 0;
        while k3 < r0 - 1
            invariant
                r0 == self.tensors@[t0 as int].shape@.len(),
                (t0 as int) < self.tensors@.len(),
                1 <= r0,
                k3 <= r0 - 1,
                shape@ == self.tensors@[t0 as int].shape@.take(k3 as int),
            decreases r0 - 1 - k3,
        {
            let x = self.tensors[t0].shape[k3];
            shape.push(x);
            proof {
                assert(shape@ =~= self.tensors@[t0 as int].shape@.take(k3 + 1));
            }
            k3 = k3 + 1;
        }
        shape.push(trailing);
        let o = self.ops.len();
        self.ops.push(Op::Zip(Zip { inputs }));
        let t = self.tensors.len();
        self.tensors.push(BitTensor { shape, from: Some(o) });
        proof {
            assert forall|t2: int| 0 <= t2 < self.tensors@.len() implies tensor_wf(
                #[trigger] self.tensors@[t2],
                self.exprs.nodes@.len() as int,
                self.ops@.len() as int,
            ) by {
                if t2 < old(self).tensors@.len() {
                    assert(tensor_wf(
                        old(self).tensors@[t2],
                        old(self).exprs.nodes@.len() as int,
                        old(self).ops@.len() as int,
                    ));
                } else {
                    assert(self.tensors@[t2].shape@.len() == r0);
                    assert(forall|k: int|
                        0 <= k < r0 - 1 ==> #[trigger] self.tensors@[t2].shape@[k] == old(
                            self,
                        ).tensors@[t0 as int].shape@[k]);
                    assert(tensor_wf(old(self).tensors@[t0 as int], old(self).exprs.nodes@.len() as int, old(self).ops@.len() as int));
                }
            }
            assert forall|o2: int| 0 <= o2 < self.ops@.len() implies op_wf(
                #[trigger] self.ops@[o2],
                self.exprs.nodes@.len() as int,
                self.tensors@.len() as int,
            ) by {
                if o2 < old(self).ops@.len() {
                    assert(op_wf(
                        old(self).ops@[o2],
                        old(self).exprs.nodes@.len() as int,
                        old(self).tensors@.len() as int,
                    ));
                }
            }
        }
        Ok(t)
    }

    /// Fold-reduce of a two-input, one-output gate along the leading
    /// dimension of a one-dimensional input, strictly left to right; the
    /// result is a single bit, a tensor of one dimension of extent one. A
    /// one-input gate, or an input of higher rank, fails with
    /// `ShapeMismatch`.
    pub fn reduce_gate(&mut self, gate: GateKind, input: TensorId) -> (r: Result<
        TensorId,
        ElabError,
    >)
        requires
            old(self).wf(),
            (input as int) < old(self).tensors@.len(),
        ensures
            final(self).wf(),
            (r matches Ok(t)) <==> (gate_arity(gate) == 2 && old(
                self,
            ).tensors@[input as int].shape@.len() == 1),
            gate_arity(gate) != 2 ==> r == Result::<TensorId, ElabError>::Err(
                ElabError::ShapeMismatch { dim: 0, expected: 2, actual: 1 },
            ) && *final(self) == *old(self),
            (gate_arity(gate) == 2 && old(self).tensors@[input as int].shape@.len() != 1) ==> r
                == Result::<TensorId, ElabError>::Err(
                ElabError::ShapeMismatch {
                    dim: 1,
                    expected: 1,
                    actual: old(self).tensors@[input as int].shape@.len() as usize,
                },
            ) && *final(self) == *old(self),
            r matches Ok(t) ==> (t as int == old(self).tensors@.len() && final(self).tensors@.len() == old(self).tensors@.len() + 1 && (forall|t2: int|
                0 <= t2 < old(self).tensors@.len() ==> final(self).tensors@[t2] == #[trigger] old(
                    self,
                ).tensors@[t2]) && final(self).tensors@[t as int].shape@.len() == 1 && final(self).exprs.nodes@[final(self).tensors@[t as int].shape@[0] as int]
                == ParameterExpression::Constant(1) && final(self).tensors@[t as int].from == Some(
                old(self).ops@.len() as OpId,
            ) && final(self).ops@.len() == old(self).ops@.len() + 1 && (forall|o2: int|
                0 <= o2 < old(self).ops@.len() ==> final(self).ops@[o2] == #[trigger] old(
                    self,
                ).ops@[o2]) && (final(self).ops@.last() matches Op::Reduce(rd) && rd.module
                == SubModuleRef::Gate(gate) && rd.inputs@ == seq![input]) && final(self).exprs.extends(old(self).exprs)),
            final(self).binds@ == old(self).binds@,
            final(self).params@ == old(self).params@,
            final(self).inputs@ == old(self).inputs@,
            final(self).outputs@ == old(self).outputs@,
            final(self).name@ == old(self).name@,
    {
        let two_input = match gate {
            GateKind::Not => false,
            _ => true,
        };
        if !two_input {
            return Err(ElabError::ShapeMismatch { dim: 0, expected: 2, actual: 1 });
        }
        if self.tensors[input].shape.len() != 1 {
            return Err(
                ElabError::ShapeMismatch {
                    dim: 1,
                    expected: 1,
                    actual: self.tensors[input].shape.len(),
                },
            );
        }
        let one = self.exprs.mk_constant(1);
        let mut inputs_v: Vec<TensorId> = Vec::new();
        inputs_v.push(input);
        let o = self.ops.len();
        self.ops.push(Op::Reduce(Reduce { module: SubModuleRef::Gate(gate), inputs: inputs_v }));
        let t = self.tensors.len();
        let mut shape: Vec<ExprId> = Vec::new();
        shape.push(one);
        self.tensors.push(BitTensor { shape, from: Some(o) });
        proof {
            assert forall|t2: int| 0 <= t2 < self.tensors@.len() implies tensor_wf(
                #[trigger] self.tensors@[t2],
                self.exprs.nodes@.len() as int,
                self.ops@.len() as int,
            ) by {
                if t2 < old(self).tensors@.len() {
                    assert(tensor_wf(
                        old(self).tensors@[t2],
                        old(self).exprs.nodes@.len() as int,
                        old(self).ops@.len() as int,
                    ));
                }
            }
            assert forall|o2: int| 0 <= o2 < self.ops@.len() implies op_wf(
                #[trigger] self.ops@[o2],
                self.exprs.nodes@.len() as int,
                self.tensors@.len() as int,
            ) by {
                if o2 < old(self).ops@.len() {
                    assert(op_wf(
                        old(self).ops@[o2],
                        old(self).exprs.nodes@.len() as int,
                        old(self).tensors@.len() as int,
                    ));
                }
            }
        }
        Ok(t)
    }

    /// Records that `b.source`, through the affine map `b` carries, drives
    /// the declared signal `b.target`.
    pub fn add_bind(&mut self, b: SignalBind)
        requires
            old(self).wf(),
            bind_wf(b, old(self).tensors@.len() as int),
        ensures
            final(self).wf(),
            final(self).binds@ == old(self).binds@.push(b),
            final(self).tensors@ == old(self).tensors@,
            final(self).ops@ == old(self).ops@,
            final(self).params@ == old(self).params@,
            final(self).inputs@ == old(self).inputs@,
            final(self).outputs@ == old(self).outputs@,
            final(self).exprs == old(self).exprs,
            final(self).name@ == old(self).name@,
    {
        self.binds.push(b);
    }
}

/// Copies a list of arena indices.
pub fn copy_ids(xs: &Vec<usize>) -> (r: Vec<usize>)
    ensures
        r@ == xs@,
{
    let mut r: Vec<usize> = Vec::new();
    let mut i: usize = 0;
    while i < xs.len()
        invariant
            i <= xs@.len(),
            r@ == xs@.take(i as int),
        decreases xs@.len() - i,
    {
        r.push(xs[i]);
        proof {
            assert(r@ =~= xs@.take(i + 1));
        }
        i = i + 1;
    }
    proof {
        assert(r@ =~= xs@);
    }
    r
}

} // verus!
