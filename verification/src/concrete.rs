//! Expansion of a module's binds into per-bit assignments.
//!
//! For a module whose extents are all literal constants, every bind can be
//! enumerated bit by bit: each output bit is driven by a gate (or a plain
//! copy) over concrete bits of other tensors. Two elaborations — say, a
//! generate-for and its literal unrolling — describe the same hardware
//! exactly when they expand to the same per-bit assignments.

use vstd::prelude::*;
use crate::error::ElabError;
use crate::expr::Bindings;
use crate::ir::Module;
use crate::op::{GateKind, Op, SubModuleRef};
use crate::tensor::TensorId;

verus! {

/// One concrete bit of hardware: `gate` (or a plain copy, when `None`)
/// drives bit `target_bit` of `target` from the listed source bits.
#[derive(Debug, Clone, PartialEq, Eq)]
pub struct BitAssign {
    pub target: TensorId,
    pub target_bit: i64,
    pub gate: Option<GateKind>,
    pub sources: Vec<(TensorId, i64)>,
}

/// Every tensor the assignment mentions lies in the module's arena.
pub open spec fn bit_assign_wf(b: BitAssign, ntensors: int) -> bool {
    &&& (b.target as int) < ntensors
    &&& forall|s: int| 0 <= s < b.sources@.len() ==> ((#[trigger] b.sources@[s]).0 as int) < ntensors
}

/// The concrete bit of a primary tensor (index `k` itself) or of a view
/// over one (the view's affine map applied to `k`) that a mapped operand
/// contributes at coordinate `k`.
#[verifier::loop_isolation(false)]
fn bit_origin(m: &Module, t: TensorId, k: i64) -> (r: Result<(TensorId, i64), ElabError>)
    requires
        m.wf(),
        (t as int) < m.tensors@.len(),
    ensures
        r matches Ok(p) ==> (p.0 as int) < m.tensors@.len(),
        m.tensors@[t as int].from is None ==> r == Result::<(TensorId, i64), ElabError>::Ok(
            (t, k),
        ),
        m.tensors@[t as int].from matches Some(o) ==> (m.ops@[o as int] matches Op::View(v) ==> ((
        v.strides@.len() == 1 && v.offsets@.len() == 1 && i64::MIN <= (v.strides@[0] as int) * k
            <= i64::MAX && i64::MIN <= (v.strides@[0] as int) * k + v.offsets@[0] <= i64::MAX)
            ==> r == Result::<(TensorId, i64), ElabError>::Ok(
            (v.input, ((v.strides@[0] as int) * k + v.offsets@[0]) as i64),
        ))),
{
    match &m.tensors[t].from {
        None => Ok((t, k)),
        Some(o) => {
            proof {
                assert(crate::ir::op_wf(
                    m.ops@[*o as int],
                    m.exprs.nodes@.len() as int,
                    m.tensors@.len() as int,
                ));
            }
            match &m.ops[*o] {
                Op::View(v) => {
                    if v.strides.len() != 1 || v.offsets.len() != 1 {
                        return Err(ElabError::UnsupportedConstruct);
                    }
                    let bit = match v.strides[0].checked_mul(k) {
                        Some(x) => match x.checked_add(v.offsets[0]) {
                            Some(b) => b,
                            None => {
                                return Err(ElabError::ArithmeticOverflow);
                            },
                        },
                        None => {
                            return Err(ElabError::ArithmeticOverflow);
                        },
                    };
                    Ok((v.input, bit))
                },
                _ => Err(ElabError::UnsupportedConstruct),
            }
        },
    }
}

/// The concrete bit a zipped tensor reads at trailing coordinate `k`:
/// the first input's bits come first, then the second's, and so on, never
/// reordered. `k` is walked down the inputs' extents in argument order and
/// lands in the first input whose extent it falls under.
#[verifier::loop_isolation(false)]
fn zip_bit_origin(m: &Module, inputs: &Vec<TensorId>, k: i64) -> (r: Result<
    (TensorId, i64),
    ElabError,
>)
    requires
        m.wf(),
        forall|j: int|
            0 <= j < inputs@.len() ==> ((#[trigger] inputs@[j]) as int) < m.tensors@.len(),
        0 <= k,
    ensures
        r matches Ok(p) ==> (p.0 as int) < m.tensors@.len(),
        (inputs@.len() >= 1 && m.tensors@[inputs@[0] as int].shape@.len() == 1
            && m.tensors@[inputs@[0] as int].from is None) ==> (crate::expr::eval_node(
            m.exprs.nodes@,
            m.tensors@[inputs@[0] as int].shape@[0] as int,
            Seq::empty(),
        ) matches Ok(e0) ==> (k < e0 ==> r == Result::<(TensorId, i64), ElabError>::Ok(
            (inputs@[0], k),
        ))),
        (inputs@.len() == 2 && m.tensors@[inputs@[0] as int].shape@.len() == 1
            && m.tensors@[inputs@[1] as int].shape@.len() == 1
            && m.tensors@[inputs@[1] as int].from is None) ==> (crate::expr::eval_node(
            m.exprs.nodes@,
            m.tensors@[inputs@[0] as int].shape@[0] as int,
            Seq::empty(),
        ) matches Ok(e0) ==> (crate::expr::eval_node(
            m.exprs.nodes@,
            m.tensors@[inputs@[1] as int].shape@[0] as int,
            Seq::empty(),
        ) matches Ok(e1) ==> ((0 <= e0 && e0 <= k && k - e0 < e1) ==> r == Result::<
            (TensorId, i64),
            ElabError,
        >::Ok((inputs@[1], (k - e0) as i64))))),
{
    let mut rem: i64 = k;
    let n = inputs.len();
    let mut j: usize = 0;
    while j < n
        invariant
            n == inputs@.len(),
            j <= n,
            0 <= rem,
            j == 0 ==> rem == k,
            j == 1 ==> (crate::expr::eval_node(
                m.exprs.nodes@,
                m.tensors@[inputs@[0] as int].shape@[0] as int,
                Seq::empty(),
            ) matches Ok(e0) ==> rem == k - e0),
            j >= 1 ==> (crate::expr::eval_node(
                m.exprs.nodes@,
                m.tensors@[inputs@[0] as int].shape@[0] as int,
                Seq::empty(),
            ) matches Ok(e0) ==> rem <= k - e0),
            (inputs@.len() == 2 && j == 2) ==> (crate::expr::eval_node(
                m.exprs.nodes@,
                m.tensors@[inputs@[0] as int].shape@[0] as int,
                Seq::empty(),
            ) matches Ok(e0) ==> (crate::expr::eval_node(
                m.exprs.nodes@,
                m.tensors@[inputs@[1] as int].shape@[0] as int,
                Seq::empty(),
            ) matches Ok(e1) ==> rem == k - e0 - e1)),
        decreases n - j,
    {
        let it = inputs[j];
        if m.tensors[it].shape.len() != 1 {
            return Err(ElabError::UnsupportedConstruct);
        }
        let empty = Bindings::new();
        proof {
            assert(empty.pairs@ =~= Seq::<(String, i64)>::empty());
        }
        let ext = match m.exprs.evaluate(m.tensors[it].shape[0], &empty) {
            Ok(v) => v,
            Err(_) => {
                return Err(ElabError::UnsupportedConstruct);
            },
        };
        if ext < 0 {
            return Err(ElabError::UnsupportedConstruct);
        }
        if rem < ext {
            return bit_origin(m, it, rem);
        }
        rem = rem - ext;
        j = j + 1;
    }
    Err(ElabError::UnsupportedConstruct)
}

/// Expands every bind of a module with literal extents into its per-bit
/// assignments, in bind order and per bind in coordinate order. Fails with
/// `UnsupportedConstruct` on a module whose binds reach operators or
/// extents this enumeration does not cover (symbolic extents above all).
#[verifier::loop_isolation(false)]
pub fn bit_mapping(m: &Module) -> (r: Result<Vec<BitAssign>, ElabError>)
    requires
        m.wf(),
    ensures
        r matches Ok(v) ==> forall|e: int|
            0 <= e < v@.len() ==> bit_assign_wf(#[trigger] v@[e], m.tensors@.len() as int),
        m.binds@.len() == 0 ==> (r matches Ok(v) && v@.len() == 0),
{
    let mut out: Vec<BitAssign> = Vec::new();
    let nb = m.binds.len();
    let mut i: usize = 0;
    while i < nb
        invariant
            nb == m.binds@.len(),
            i <= nb,
            nb == 0 ==> out@.len() == 0,
            forall|e: int|
                0 <= e < out@.len() ==> bit_assign_wf(#[trigger] out@[e], m.tensors@.len() as int),
        decreases nb - i,
    {
        proof {
            assert(crate::ir::bind_wf(m.binds@[i as int], m.tensors@.len() as int));
        }
        let target = m.binds[i].target;
        let src = m.binds[i].source;
        if m.binds[i].strides.len() != 1 || m.binds[i].offsets.len() != 1 {
            return Err(ElabError::UnsupportedConstruct);
        }
        let tstride = m.binds[i].strides[0];
        let toffset = m.binds[i].offsets[0];
        proof {
            assert(crate::ir::tensor_wf(
                m.tensors@[src as int],
                m.exprs.nodes@.len() as int,
                m.ops@.len() as int,
            ));
        }
        if m.tensors[src].shape.len() != 1 {
            return Err(ElabError::UnsupportedConstruct);
        }
        let empty = Bindings::new();
        let n: i64 = match m.exprs.evaluate(m.tensors[src].shape[0], &empty) {
            Ok(v) => v,
            Err(_) => {
                return Err(ElabError::UnsupportedConstruct);
            },
        };
        if n < 0 {
            return Err(ElabError::UnsupportedConstruct);
        }
        let mut k: i64 = 0;
        while k < n
            invariant
                0 <= k <= n,
                forall|e: int|
                    0 <= e < out@.len() ==> bit_assign_wf(
                        #[trigger] out@[e],
                        m.tensors@.len() as int,
                    ),
            decreases n - k,
        {
            let target_bit = match tstride.checked_mul(k) {
                Some(x) => match x.checked_add(toffset) {
                    Some(b) => b,
                    None => {
                        return Err(ElabError::ArithmeticOverflow);
                    },
                },
                None => {
                    return Err(ElabError::ArithmeticOverflow);
                },
            };
            let mut gate: Option<GateKind> = None;
            let mut sources: Vec<(TensorId, i64)> = Vec::new();
            match &m.tensors[src].from {
                None => {
                    sources.push((src, k));
                },
                Some(o) => {
                    proof {
                        assert(crate::ir::op_wf(
                            m.ops@[*o as int],
                            m.exprs.nodes@.len() as int,
                            m.tensors@.len() as int,
                        ));
                    }
                    match &m.ops[*o] {
                        Op::View(v) => {
                            if v.strides.len() != 1 || v.offsets.len() != 1 {
                                return Err(ElabError::UnsupportedConstruct);
                            }
                            let bit = match v.strides[0].checked_mul(k) {
                                Some(x) => match x.checked_add(v.offsets[0]) {
                                    Some(b) => b,
                                    None => {
                                        return Err(ElabError::ArithmeticOverflow);
                                    },
                                },
                                None => {
                                    return Err(ElabError::ArithmeticOverflow);
                                },
                            };
                            sources.push((v.input, bit));
                        },
                        Op::Mapped(mp) => {
                            let g = match mp.module {
                                SubModuleRef::Gate(g) => g,
                                SubModuleRef::Named(_) => {
                                    return Err(ElabError::UnsupportedConstruct);
                                },
                            };
                            gate = Some(g);
                            let nin = mp.inputs.len();
                            let mut j: usize = 0;
                            while j < nin
                                invariant
                                    nin == mp.inputs@.len(),
                                    j <= nin,
                                    forall|s: int|
                                        0 <= s < sources@.len() ==> ((
                                        #[trigger] sources@[s]).0 as int) < m.tensors@.len(),
                                decreases nin - j,
                            {
                                let p = match bit_origin(m, mp.inputs[j], k) {
                                    Ok(p) => p,
                                    Err(err) => {
                                        return Err(err);
                                    },
                                };
                                sources.push(p);
                                j = j + 1;
                            }
                        },
                        Op::Zip(z) => {
                            let p = match zip_bit_origin(m, &z.inputs, k) {
                                Ok(p) => p,
                                Err(err) => {
                                    return Err(err);
                                },
                            };
                            sources.push(p);
                        },
                        _ => {
                            return Err(ElabError::UnsupportedConstruct);
                        },
                    }
                },
            }
            out.push(BitAssign { target, target_bit, gate, sources });
            k = k + 1;
        }
        i = i + 1;
    }
    Ok(out)
}

} // verus!
