//! Error kinds raised while lowering a translation unit to IR.

use vstd::prelude::*;

verus! {

/// An error that aborts elaboration of the whole translation unit.
///
/// `dim` in `ShapeMismatch` is the first dimension at which the two shapes
/// differ, and `expected` and `actual` are the canonical expression handles
/// of the two extents there, in the arena of the module being elaborated.
/// When the shapes agree up to the shorter rank and differ only in rank,
/// `dim` is that shorter rank and the two fields hold the two ranks.
#[derive(Debug, Clone, PartialEq, Eq)]
pub enum ElabError {
    /// A parameter name was referenced but is absent from the bindings.
    UnboundParameter { name: String },
    /// A div/mod divisor was the literal constant zero, or evaluated to zero.
    DivisionByZero,
    /// An intermediate evaluation result fell outside the `i64` range.
    ArithmeticOverflow,
    /// A generate-for bound, step or index is not an affine form the IR can hold.
    UnsupportedGenerateForm,
    /// A tensor's shape differs from the declared shape at dimension `dim`.
    ShapeMismatch { dim: usize, expected: usize, actual: usize },
    /// Zipped tensors differ in a non-trailing dimension.
    ZipDimensionMismatch { input: usize, dim: usize },
    /// An assignment or port bind names a signal that was never declared.
    UnknownSignal { name: String },
    /// An instance references a module not yet registered.
    UnknownModule { name: String },
    /// A signal already bound to a producer was assigned again.
    AlreadyAssigned { name: String },
    /// An AST node outside the supported statement/expression set.
    UnsupportedConstruct,
    /// Two modules of one translation unit share a name.
    DuplicateModule { name: String },
}

} // verus!
