//! The closed set of structural operators connecting tensors.
//!
//! The set is closed by design, so it is one tagged sum (`Op`) dispatched by
//! exhaustive match. Back-references to sub-modules are registry indices and
//! tensor references are arena indices, which forbids reference cycles
//! structurally.

use vstd::prelude::*;
use crate::tensor::{TensorId, TensorView};

verus! {

/// A built-in single-bit gate usable as the sub-module of a `MapOp` or a
/// `Reduce` without registering a module for it.
#[derive(Debug, Clone, Copy, PartialEq, Eq, Structural)]
pub enum GateKind {
    And,
    Or,
    Xor,
    Xnor,
    Not,
}

/// Number of input bits a gate consumes per application.
pub open spec fn gate_arity(g: GateKind) -> int {
    match g {
        GateKind::Not => 1,
        _ => 2,
    }
}

/// The sub-module an operator applies: a built-in gate, or a module found
/// at an index of the module registry.
#[derive(Debug, Clone, Copy, PartialEq, Eq, Structural)]
pub enum SubModuleRef {
    Gate(GateKind),
    Named(usize),
}

/// Instantiate: binds a sub-module's input ports to caller tensors; the
/// sub-module's outputs come back as new tensors.
#[derive(Debug, Clone)]
pub struct Apply {
    pub module: SubModuleRef,
    pub inputs: Vec<TensorId>,
}

/// Broadcast-map: applies a sub-module once per index of a shared leading
/// dimension, producing one extra leading output dimension.
#[derive(Debug, Clone)]
pub struct MapOp {
    pub module: SubModuleRef,
    pub inputs: Vec<TensorId>,
}

/// Fold-reduce: folds a two-input, one-output sub-module pairwise along the
/// leading dimension, strictly left to right.
#[derive(Debug, Clone)]
pub struct Reduce {
    pub module: SubModuleRef,
    pub inputs: Vec<TensorId>,
}

/// Concatenation along the trailing dimension, in argument order: the first
/// input's bits precede later inputs' bits.
#[derive(Debug, Clone)]
pub struct Zip {
    pub inputs: Vec<TensorId>,
}

/// A structural operator. `View` also stands here since a derived tensor
/// records the view that produced it.
#[derive(Debug, Clone)]
pub enum Op {
    View(TensorView),
    Mapped(MapOp),
    Apply(Apply),
    Reduce(Reduce),
    Zip(Zip),
}

/// The tensors an operator reads.
pub open spec fn op_inputs(op: Op) -> Seq<TensorId> {
    match op {
        Op::View(v) => seq![v.input],
        Op::Mapped(m) => m.inputs@,
        Op::Apply(a) => a.inputs@,
        Op::Reduce(r) => r.inputs@,
        Op::Zip(z) => z.inputs@,
    }
}

} // verus!
