//! The tensor model of hardware signals, and affine views over tensors.
//!
//! A signal is a multi-dimensional array of single bits whose per-dimension
//! extents are canonical expression handles. A `View` re-indexes a base
//! tensor affinely: dimension coordinate `i` maps to base coordinate
//! `stride * i + offset`. Composing a view over a view flattens to one view,
//! and `lemma_view_compose` proves that indexing through the flattened view
//! equals indexing through the two originals in sequence.

use vstd::prelude::*;
use crate::error::ElabError;
use crate::expr::ExprId;

verus! {

/// A handle into a module's tensor arena.
pub type TensorId = usize;

/// A handle into a module's operator arena.
pub type OpId = usize;

/// A signal: an N-dimensional array of single bits. `shape` lists the
/// per-dimension extents, outer to inner, as canonical expression handles.
/// `from` names the structural operator that produces the tensor; a primary
/// tensor (a declared wire or port) has no producer. Identity is per
/// declaration site: two tensors of equal shape are still distinct nodes.
#[derive(Debug, Clone)]
pub struct BitTensor {
    pub shape: Vec<ExprId>,
    pub from: Option<OpId>,
}

/// A polyhedral view: an affine re-indexing of a base tensor: view coordinate `i` of dimension
/// `k` addresses base coordinate `strides[k] * i + offsets[k]` of dimension
/// `k`. `shape` lists the view's own extents as expression handles.
#[derive(Debug)]
pub struct TensorView {
    pub shape: Vec<ExprId>,
    pub strides: Vec<i64>,
    pub offsets: Vec<i64>,
    pub input: TensorId,
}

impl Clone for TensorView {
    fn clone(&self) -> (r: Self)
        ensures
            r.shape@ == self.shape@,
            r.strides@ == self.strides@,
            r.offsets@ == self.offsets@,
            r.input == self.input,
    {
        TensorView {
            shape: clone_id_list(&self.shape),
            strides: clone_i64_list(&self.strides),
            offsets: clone_i64_list(&self.offsets),
            input: self.input,
        }
    }
}

/// Copies a list of handles.
fn clone_id_list(xs: &Vec<usize>) -> (r: Vec<usize>)
    ensures
        r@ == xs@,
{
    let mut r: Vec<usize> = Vec::new();
    let mut i: usize = 0;
    while i < xs.len()
        invariant
            i <= xs@.len(),
            r@ == xs@.take(i as int),
        decreases xs@.len() - i,
    {
        r.push(xs[i]);
        proof {
            assert(r@ =~= xs@.take(i + 1));
        }
        i = i + 1;
    }
    proof {
        assert(r@ =~= xs@);
    }
    r
}

/// Copies a list of strides or offsets.
fn clone_i64_list(xs: &Vec<i64>) -> (r: Vec<i64>)
    ensures
        r@ == xs@,
{
    let mut r: Vec<i64> = Vec::new();
    let mut i: usize = 0;
    while i < xs.len()
        invariant
            i <= xs@.len(),
            r@ == xs@.take(i as int),
        decreases xs@.len() - i,
    {
        r.push(xs[i]);
        proof {
            assert(r@ =~= xs@.take(i + 1));
        }
        i = i + 1;
    }
    proof {
        assert(r@ =~= xs@);
    }
    r
}

/// The base coordinate a one-dimensional affine map sends `i` to.
pub open spec fn affine_coord(stride: int, offset: int, i: int) -> int {
    stride * i + offset
}

/// Whether each coordinate of a length-`extent` dimension lands inside a
/// base dimension of length `base_extent`.
pub open spec fn dim_within(extent: int, stride: int, offset: int, base_extent: int) -> bool {
    forall|i: int| 0 <= i < extent ==> 0 <= #[trigger] affine_coord(stride, offset, i) < base_extent
}

/// Whether composing the per-dimension maps of `outer` and `refine` stays
/// within `i64`, in the order the arithmetic is performed.
pub open spec fn compose_dim_fits(s1: int, o1: int, s2: int, o2: int) -> bool {
    &&& i64::MIN <= s1 * s2 <= i64::MAX
    &&& i64::MIN <= s1 * o2 <= i64::MAX
    &&& i64::MIN <= o1 + s1 * o2 <= i64::MAX
}

impl TensorView {
    /// The stride and offset lists cover exactly the view's dimensions.
    pub open spec fn wf(self) -> bool {
        &&& self.strides@.len() == self.shape@.len()
        &&& self.offsets@.len() == self.shape@.len()
    }

    pub open spec fn rank(self) -> int {
        self.shape@.len() as int
    }

    /// Whether every per-dimension composition of `self` over `refine`
    /// stays within `i64`.
    pub open spec fn compose_fits(self, refine: TensorView) -> bool {
        forall|k: int|
            0 <= k < refine.shape@.len() ==> compose_dim_fits(
                #[trigger] self.strides@[k] as int,
                self.offsets@[k] as int,
                refine.strides@[k] as int,
                refine.offsets@[k] as int,
            )
    }

    /// Flattens a slice of a slice: `refine` re-indexes `self`, and the
    /// result re-indexes `self`'s base tensor directly, with per-dimension
    /// stride `s1 * s2` and offset `o1 + s1 * o2` where `(s1, o1)` come from
    /// `self` and `(s2, o2)` from `refine`. No chain of nested views is
    /// left behind.
    pub fn compose(&self, refine: &TensorView) -> (r: Result<TensorView, ElabError>)
        requires
            self.wf(),
            refine.wf(),
            refine.rank() == self.rank(),
        ensures
            self.compose_fits(*refine) ==> (r matches Ok(v) && v.wf() && v.input == self.input
                && v.shape@ == refine.shape@ && v.rank() == refine.rank() && (forall|k: int|
                0 <= k < refine.rank() ==> (#[trigger] v.strides@[k]) as int == (
                self.strides@[k] as int) * (refine.strides@[k] as int)) && (forall|k: int|
                0 <= k < refine.rank() ==> (#[trigger] v.offsets@[k]) as int == (
                self.offsets@[k] as int) + (self.strides@[k] as int) * (
                refine.offsets@[k] as int))),
            !self.compose_fits(*refine) ==> r == Result::<TensorView, ElabError>::Err(
                ElabError::ArithmeticOverflow,
            ),
    {
        let n = refine.shape.len();
        let mut strides: Vec<i64> = Vec::new();
        let mut offsets: Vec<i64> = Vec::new();
        let mut k: usize = 0;
        while k < n
            invariant
                self.wf(),
                refine.wf(),
                refine.rank() == self.rank(),
                n == refine.shape@.len(),
                k <= n,
                strides@.len() == k,
                offsets@.len() == k,
                forall|j: int|
                    0 <= j < k ==> compose_dim_fits(
                        #[trigger] self.strides@[j] as int,
                        self.offsets@[j] as int,
                        refine.strides@[j] as int,
                        refine.offsets@[j] as int,
                    ),
                forall|j: int|
                    0 <= j < k ==> (#[trigger] strides@[j]) as int == (self.strides@[j] as int) * (
                    refine.strides@[j] as int),
                forall|j: int|
                    0 <= j < k ==> (#[trigger] offsets@[j]) as int == (self.offsets@[j] as int) + (
                    self.strides@[j] as int) * (refine.offsets@[j] as int),
            decreases n - k,
        {
            let s1 = self.strides[k];
            let o1 = self.offsets[k];
            let s2 = refine.strides[k];
            let o2 = refine.offsets[k];
            let s = match s1.checked_mul(s2) {
                Some(v) => v,
                None => {
                    return Err(ElabError::ArithmeticOverflow);
                },
            };
            let t = match s1.checked_mul(o2) {
                Some(v) => v,
                None => {
                    return Err(ElabError::ArithmeticOverflow);
                },
            };
            let o = match o1.checked_add(t) {
                Some(v) => v,
                None => {
                    return Err(ElabError::ArithmeticOverflow);
                },
            };
            strides.push(s);
            offsets.push(o);
            k = k + 1;
        }
        let mut shape: Vec<ExprId> = Vec::new();
        let mut k2: usize = 0;
        while k2 < n
            invariant
                n == refine.shape@.len(),
                k2 <= n,
                shape@ == refine.shape@.take(k2 as int),
            decreases n - k2,
        {
            shape.push(refine.shape[k2]);
            proof {
                assert(shape@ =~= refine.shape@.take(k2 + 1));
            }
            k2 = k2 + 1;
        }
        proof {
            assert(shape@ =~= refine.shape@);
        }
        Ok(TensorView { shape, strides, offsets, input: self.input })
    }
}

/// View-composition law: for every dimension and every index, addressing
/// through the flattened map `(s1 * s2, o1 + s1 * o2)` equals addressing
/// through `(s2, o2)` first and `(s1, o1)` second.
pub proof fn lemma_compose_index(s1: int, o1: int, s2: int, o2: int, i: int)
    ensures
        affine_coord(s1 * s2, o1 + s1 * o2, i) == affine_coord(s1, o1, affine_coord(s2, o2, i)),
{
    assert((s1 * s2) * i + (o1 + s1 * o2) == s1 * (s2 * i + o2) + o1) by (nonlinear_arith);
}

/// View-composition law at the level of `TensorView` values: if `c` is the
/// composition of `a` over `b` (as `TensorView::compose` builds it), then for
/// every dimension `k` and every index `i`, `c` sends `i` where `a` sends
/// the coordinate `b` sends `i` to.
pub proof fn lemma_view_compose(a: TensorView, b: TensorView, c: TensorView, k: int, i: int)
    requires
        a.wf(),
        b.wf(),
        c.wf(),
        b.rank() == a.rank(),
        c.rank() == b.rank(),
        0 <= k < b.rank(),
        c.strides@[k] as int == (a.strides@[k] as int) * (b.strides@[k] as int),
        c.offsets@[k] as int == (a.offsets@[k] as int) + (a.strides@[k] as int) * (
        b.offsets@[k] as int),
    ensures
        affine_coord(c.strides@[k] as int, c.offsets@[k] as int, i) == affine_coord(
            a.strides@[k] as int,
            a.offsets@[k] as int,
            affine_coord(b.strides@[k] as int, b.offsets@[k] as int, i),
        ),
{
    lemma_compose_index(
        a.strides@[k] as int,
        a.offsets@[k] as int,
        b.strides@[k] as int,
        b.offsets@[k] as int,
        i,
    );
}

/// Decides `dim_within` for one dimension with known integer extents: the
/// affine map is monotone in the index, so it is enough to test the two
/// endpoint coordinates.
pub fn check_dim_within(extent: i64, stride: i64, offset: i64, base_extent: i64) -> (r: bool)
    requires
        0 <= extent,
    ensures
        r == dim_within(extent as int, stride as int, offset as int, base_extent as int),
{
    if extent == 0 {
        return true;
    }
    proof {
        assert((stride as int) * ((extent - 1) as int) <= (0x8000_0000_0000_0000int)
            * 0x8000_0000_0000_0000 && (stride as int) * ((extent - 1) as int) >= -(
        0x8000_0000_0000_0000int) * 0x8000_0000_0000_0000) by (nonlinear_arith)
            requires
                -0x8000_0000_0000_0000 <= (stride as int) <= 0x7fff_ffff_ffff_ffff,
                0 <= ((extent - 1) as int) <= 0x7fff_ffff_ffff_ffff,
        ;
    }
    let e0: i128 = offset as i128;
    let e1: i128 = (stride as i128) * ((extent - 1) as i128) + (offset as i128);
    let lo: i128 = if e0 <= e1 {
        e0
    } else {
        e1
    };
    let hi: i128 = if e0 <= e1 {
        e1
    } else {
        e0
    };
    let r = 0 <= lo && hi < (base_extent as i128);
    proof {
        let s = stride as int;
        let o = offset as int;
        let ex = extent as int;
        let be = base_extent as int;
        if r {
            assert forall|i: int| 0 <= i < ex implies 0 <= #[trigger] affine_coord(s, o, i)
                < be by {
                if s >= 0 {
                    assert(s * 0 <= s * i && s * i <= s * (ex - 1)) by (nonlinear_arith)
                        requires
                            0 <= i <= ex - 1,
                            s >= 0,
                    ;
                } else {
                    assert(s * (ex - 1) <= s * i && s * i <= s * 0) by (nonlinear_arith)
                        requires
                            0 <= i <= ex - 1,
                            s < 0,
                    ;
                }
            }
        } else {
            assert(affine_coord(s, o, 0) == o);
            assert(affine_coord(s, o, ex - 1) == s * (ex - 1) + o);
        }
    }
    r
}

} // verus!
