//! The lowering pass: walks a parsed module's parameter list and body and
//! drives the expression, tensor, view and operator layers to build one
//! immutable `Module` IR per source module.
//!
//! Finished modules are registered by name in a `Registry`; an instance
//! statement looks its sub-module up there, so a module must be fully
//! elaborated before its first use. Any error aborts elaboration of the
//! whole translation unit and no partial module is ever registered.

use vstd::prelude::*;
use crate::ast;
use crate::error::ElabError;
use crate::expr::{ExprArena, ExprId, ParameterExpression};
use crate::ir::{Module, ParamDecl};
use crate::op::{gate_arity, GateKind};
use crate::tensor::{TensorId, TensorView};

verus! {

/// The name-keyed registry of fully elaborated modules.
pub struct Registry {
    pub modules: Vec<Module>,
}

impl Registry {
    /// All registered modules are well-formed.
    pub open spec fn wf(self) -> bool {
        forall|i: int| 0 <= i < self.modules@.len() ==> (#[trigger] self.modules@[i]).wf()
    }

    pub fn new() -> (r: Registry)
        ensures
            r.wf(),
            r.modules@.len() == 0,
    {
        Registry { modules: Vec::new() }
    }

    /// Finds a module by name; modules were registered in elaboration
    /// order, and names are unique, so the first hit is the module.
    pub fn find(&self, name: &str) -> (r: Option<usize>)
        ensures
            match r {
                Some(i) => (i as int) < self.modules@.len() && self.modules@[i as int].name@
                    == name@,
                None => forall|i: int|
                    0 <= i < self.modules@.len() ==> (#[trigger] self.modules@[i]).name@ != name@,
            },
    {
        let key: String = name.to_owned();
        let mut i: usize = 0;
        while i < self.modules.len()
            invariant
                i <= self.modules@.len(),
                key@ == name@,
                forall|j: int| 0 <= j < i ==> (#[trigger] self.modules@[j]).name@ != name@,
            decreases self.modules@.len() - i,
        {
            if self.modules[i].name == key {
                return Some(i);
            }
            i = i + 1;
        }
        None
    }
}

/// One name visible in the current scope stack. A genvar entry is an
/// elaboration-time integer, not a runtime signal, and carries no tensor.
pub struct ScopeEntry {
    pub name: String,
    pub tensor: usize,
    pub assigned: bool,
    pub genvar: bool,
}

/// Every signal entry points at a tensor of the module under construction.
pub open spec fn scope_wf(scope: Seq<ScopeEntry>, ntensors: int) -> bool {
    forall|i: int|
        0 <= i < scope.len() ==> ((#[trigger] scope[i]).genvar || (scope[i].tensor as int)
            < ntensors)
}

/// Finds the innermost scope entry of a name: the latest entry wins, so a
/// declaration in an inner scope shadows an outer one.
pub fn scope_find(scope: &Vec<ScopeEntry>, name: &str) -> (r: Option<usize>)
    ensures
        match r {
            Some(i) => (i as int) < scope@.len() && scope@[i as int].name@ == name@ && (forall|
                j: int,
            |
                i < j < scope@.len() ==> (#[trigger] scope@[j]).name@ != name@),
            None => forall|j: int| 0 <= j < scope@.len() ==> (#[trigger] scope@[j]).name@ != name@,
        },
{
    let key: String = name.to_owned();
    let mut i: usize = scope.len();
    while i > 0
        invariant
            i <= scope@.len(),
            key@ == name@,
            forall|j: int| i <= j < scope@.len() ==> (#[trigger] scope@[j]).name@ != name@,
        decreases i,
    {
        i = i - 1;
        if scope[i].name == key {
            return Some(i);
        }
    }
    None
}

/// Whether an expression is a bare reference to a declared parameter.
pub open spec fn is_declared_param_ref(e: ast::Expression, params: Seq<ParamDecl>) -> bool {
    e matches ast::Expression::Identifier(id2) && (exists|p: int|
        0 <= p < params.len() && (#[trigger] params[p]).name@ == id2.0@)
}

/// Whether a parameter-context expression mentions no name: only integer
/// literals under arithmetic. Such a subtree lowers to one literal
/// constant node.
pub open spec fn ast_param_free(e: ast::Expression) -> bool
    decreases e,
{
    match e {
        ast::Expression::ConstantInt(_) => true,
        ast::Expression::BinaryArithmeticOperation(l, _, rr) => ast_param_free(*l)
            && ast_param_free(*rr),
        ast::Expression::UnaryArithmeticOperation(_, x) => ast_param_free(*x),
        _ => false,
    }
}

/// The constant a name-free parameter expression folds to, by the same
/// left-to-right wrap-free arithmetic the lowering performs; the first
/// error met — a zero divisor or a result outside `i64` — is the result.
pub open spec fn ast_const_fold(e: ast::Expression) -> Result<i64, ElabError>
    decreases e,
{
    match e {
        ast::Expression::ConstantInt(v) => Ok(v),
        ast::Expression::BinaryArithmeticOperation(l, op, rr) => {
            let x = ast_const_fold(*l);
            let y = ast_const_fold(*rr);
            match op {
                ast::BinArithOp::Add => crate::expr::arith_add(x, y),
                ast::BinArithOp::Sub => crate::expr::arith_sub(x, y),
                ast::BinArithOp::Mul => crate::expr::arith_mul(x, y),
                ast::BinArithOp::Div => crate::expr::arith_div(x, y),
                ast::BinArithOp::Mod => crate::expr::arith_mod(x, y),
            }
        },
        ast::Expression::UnaryArithmeticOperation(op, x) => match op {
            ast::UnArithOp::Neg => crate::expr::arith_sub(Ok(0), ast_const_fold(*x)),
        },
        _ => Err(ElabError::UnsupportedConstruct),
    }
}

impl Module {
    /// The integer value of a handle, when it names a literal constant.
    pub fn const_value(&self, e: ExprId) -> (r: Option<i64>)
        requires
            (e as int) < self.exprs.nodes@.len(),
        ensures
            match r {
                Some(v) => self.exprs.nodes@[e as int] == ParameterExpression::Constant(v),
                None => !(self.exprs.nodes@[e as int] is Constant),
            },
    {
        match &self.exprs.nodes[e] {
            ParameterExpression::Constant(v) => Some(*v),
            _ => None,
        }
    }

    /// Lowers an AST expression in parameter context: integer literals,
    /// references to declared module parameters, and the five arithmetic
    /// operators, with constant operands folded. Any other node fails with
    /// `UnsupportedConstruct`; a name that is no declared parameter fails
    /// with `UnboundParameter`.
    #[verifier::loop_isolation(false)]
    pub fn lower_param_expr(&mut self, e: &ast::Expression) -> (r: Result<ExprId, ElabError>)
        requires
            old(self).wf(),
        ensures
            final(self).wf(),
            r matches Err(e2) ==> !(e2 is DuplicateModule),
            final(self).exprs.extends(old(self).exprs),
            r matches Ok(id) ==> (id as int) < final(self).exprs.nodes@.len(),
            e matches ast::Expression::ConstantInt(v) ==> (r matches Ok(id) && final(self).exprs.nodes@[id as int] == ParameterExpression::Constant(*v)),
            ast_param_free(*e) ==> match ast_const_fold(*e) {
                Ok(v) => (r matches Ok(id) && final(self).exprs.nodes@[id as int]
                    == ParameterExpression::Constant(v)),
                Err(err) => r == Result::<ExprId, ElabError>::Err(err),
            },
            e matches ast::Expression::Identifier(id2) ==> ((forall|p: int|
                0 <= p < old(self).params@.len() ==> (#[trigger] old(self).params@[p]).name@
                    != id2.0@) ==> r == Result::<ExprId, ElabError>::Err(
                ElabError::UnboundParameter { name: id2.0 },
            )),
            e matches ast::Expression::Identifier(id2) ==> ((exists|p: int|
                0 <= p < old(self).params@.len() && (#[trigger] old(self).params@[p]).name@
                    == id2.0@) <==> r is Ok),
            e matches ast::Expression::Identifier(id2) ==> (r matches Ok(id) ==> final(self).exprs.nodes@[id as int] is Parameter),
            e matches ast::Expression::Identifier(id2) ==> (forall|p: int|
                0 <= p < old(self).params@.len() && (forall|p2: int|
                    0 <= p2 < p ==> (#[trigger] old(self).params@[p2]).name@ != id2.0@) && (
                #[trigger] old(self).params@[p]).name@ == id2.0@ ==> r == Result::<
                    ExprId,
                    ElabError,
                >::Ok(old(self).params@[p].expr)),
            final(self).tensors@ == old(self).tensors@,
            final(self).ops@ == old(self).ops@,
            final(self).binds@ == old(self).binds@,
            final(self).params@ == old(self).params@,
            final(self).inputs@ == old(self).inputs@,
            final(self).outputs@ == old(self).outputs@,
            final(self).name@ == old(self).name@,
        decreases *e,
    {
        match e {
            ast::Expression::ConstantInt(v) => Ok(self.get_param_const(*v)),
            ast::Expression::Identifier(id) => {
                let mut p: usize = 0;
                let n = self.params.len();
                while p < n
                    invariant
                        self.wf(),
                        *self == *old(self),
                        n == self.params@.len(),
                        p <= n,
                        forall|k: int|
                            0 <= k < p ==> (#[trigger] self.params@[k]).name@ != id.0@,
                    decreases n - p,
                {
                    if self.params[p].name == id.0 {
                        return Ok(self.params[p].expr);
                    }
                    p = p + 1;
                }
                Err(ElabError::UnboundParameter { name: id.0.clone() })
            },
            ast::Expression::BinaryArithmeticOperation(l, op, rr) => {
                let a = match self.lower_param_expr(l) {
                    Ok(a) => a,
                    Err(err) => {
                        return Err(err);
                    },
                };
                let b = match self.lower_param_expr(rr) {
                    Ok(b) => b,
                    Err(err) => {
                        return Err(err);
                    },
                };
                self.combine_arith(*op, a, b)
            },
            ast::Expression::UnaryArithmeticOperation(op, x) => {
                let a = match self.lower_param_expr(x) {
                    Ok(a) => a,
                    Err(err) => {
                        return Err(err);
                    },
                };
                match op {
                    ast::UnArithOp::Neg => {
                        let zero = self.get_param_const(0);
                        self.combine_arith(ast::BinArithOp::Sub, zero, a)
                    },
                }
            },
            _ => Err(ElabError::UnsupportedConstruct),
        }
    }

    /// Builds the canonical node for one arithmetic operator over two
    /// handles, folding when both operands are literal constants. A
    /// divisor that is the literal constant zero is rejected with
    /// `DivisionByZero`; a constant fold outside `i64` fails with
    /// `ArithmeticOverflow`.
    pub fn combine_arith(&mut self, op: ast::BinArithOp, a: ExprId, b: ExprId) -> (r: Result<
        ExprId,
        ElabError,
    >)
        requires
            old(self).wf(),
            (a as int) < old(self).exprs.nodes@.len(),
            (b as int) < old(self).exprs.nodes@.len(),
        ensures
            final(self).wf(),
            r matches Err(e2) ==> !(e2 is DuplicateModule),
            final(self).exprs.extends(old(self).exprs),
            r matches Ok(id) ==> (id as int) < final(self).exprs.nodes@.len(),
            crate::expr::const_of(old(self).exprs.nodes@, a as int) matches Some(x)
                ==> crate::expr::const_of(old(self).exprs.nodes@, b as int) matches Some(y) ==> {
                let folded = match op {
                    ast::BinArithOp::Add => crate::expr::arith_add(Ok(x), Ok(y)),
                    ast::BinArithOp::Sub => crate::expr::arith_sub(Ok(x), Ok(y)),
                    ast::BinArithOp::Mul => crate::expr::arith_mul(Ok(x), Ok(y)),
                    ast::BinArithOp::Div => crate::expr::arith_div(Ok(x), Ok(y)),
                    ast::BinArithOp::Mod => crate::expr::arith_mod(Ok(x), Ok(y)),
                };
                match folded {
                    Ok(v) => r matches Ok(id) && final(self).exprs.nodes@[id as int]
                        == ParameterExpression::Constant(v),
                    Err(e) => r == Result::<ExprId, ElabError>::Err(e),
                }
            },
            (crate::expr::const_of(old(self).exprs.nodes@, a as int) is None
                || crate::expr::const_of(old(self).exprs.nodes@, b as int) is None) ==> match op {
                ast::BinArithOp::Add => (r matches Ok(id) && final(self).exprs.nodes@[id as int]
                    == ParameterExpression::Add(a, b)),
                ast::BinArithOp::Sub => (r matches Ok(id) && final(self).exprs.nodes@[id as int]
                    == ParameterExpression::Sub(a, b)),
                ast::BinArithOp::Mul => (r matches Ok(id) && final(self).exprs.nodes@[id as int]
                    == ParameterExpression::Mul(a, b)),
                ast::BinArithOp::Div => if crate::expr::is_zero_const(
                    old(self).exprs.nodes@,
                    b as int,
                ) {
                    r == Result::<ExprId, ElabError>::Err(ElabError::DivisionByZero)
                } else {
                    (r matches Ok(id) && final(self).exprs.nodes@[id as int]
                        == ParameterExpression::Div(a, b))
                },
                ast::BinArithOp::Mod => if crate::expr::is_zero_const(
                    old(self).exprs.nodes@,
                    b as int,
                ) {
                    r == Result::<ExprId, ElabError>::Err(ElabError::DivisionByZero)
                } else {
                    (r matches Ok(id) && final(self).exprs.nodes@[id as int]
                        == ParameterExpression::Mod(a, b))
                },
            },
            final(self).tensors@ == old(self).tensors@,
            final(self).ops@ == old(self).ops@,
            final(self).binds@ == old(self).binds@,
            final(self).params@ == old(self).params@,
            final(self).inputs@ == old(self).inputs@,
            final(self).outputs@ == old(self).outputs@,
            final(self).name@ == old(self).name@,
    {
        let va = self.const_value(a);
        let vb = self.const_value(b);
        match (va, vb) {
            (Some(x), Some(y)) => {
                let folded: Option<i64> = match op {
                    ast::BinArithOp::Add => x.checked_add(y),
                    ast::BinArithOp::Sub => x.checked_sub(y),
                    ast::BinArithOp::Mul => x.checked_mul(y),
                    ast::BinArithOp::Div => {
                        if y == 0 {
                            return Err(ElabError::DivisionByZero);
                        }
                        x.checked_div(y)
                    },
                    ast::BinArithOp::Mod => {
                        if y == 0 {
                            return Err(ElabError::DivisionByZero);
                        }
                        x.checked_rem(y)
                    },
                };
                match folded {
                    Some(v) => Ok(self.get_param_const(v)),
                    None => Err(ElabError::ArithmeticOverflow),
                }
            },
            _ => {
                match op {
                    ast::BinArithOp::Add => Ok(self.mk_arith_add(a, b)),
                    ast::BinArithOp::Sub => Ok(self.mk_arith_sub(a, b)),
                    ast::BinArithOp::Mul => Ok(self.mk_arith_mul(a, b)),
                    ast::BinArithOp::Div => self.mk_arith_div(a, b),
                    ast::BinArithOp::Mod => self.mk_arith_mod(a, b),
                }
            },
        }
    }

    /// Canonical `Add` node in this module's table.
    pub fn mk_arith_add(&mut self, a: ExprId, b: ExprId) -> (r: ExprId)
        requires
            old(self).wf(),
            (a as int) < old(self).exprs.nodes@.len(),
            (b as int) < old(self).exprs.nodes@.len(),
        ensures
            final(self).wf(),
            final(self).exprs.extends(old(self).exprs),
            (r as int) < final(self).exprs.nodes@.len(),
            final(self).exprs.nodes@[r as int] == ParameterExpression::Add(a, b),
            final(self).tensors@ == old(self).tensors@,
            final(self).ops@ == old(self).ops@,
            final(self).binds@ == old(self).binds@,
            final(self).params@ == old(self).params@,
            final(self).inputs@ == old(self).inputs@,
            final(self).outputs@ == old(self).outputs@,
            final(self).name@ == old(self).name@,
    {
        let r = self.exprs.mk_add(a, b);
        proof {
            self.lemma_exprs_only_grew(*old(self));
        }
        r
    }

    /// Canonical `Sub` node in this module's table.
    pub fn mk_arith_sub(&mut self, a: ExprId, b: ExprId) -> (r: ExprId)
        requires
            old(self).wf(),
            (a as int) < old(self).exprs.nodes@.len(),
            (b as int) < old(self).exprs.nodes@.len(),
        ensures
            final(self).wf(),
            final(self).exprs.extends(old(self).exprs),
            (r as int) < final(self).exprs.nodes@.len(),
            final(self).exprs.nodes@[r as int] == ParameterExpression::Sub(a, b),
            final(self).tensors@ == old(self).tensors@,
            final(self).ops@ == old(self).ops@,
            final(self).binds@ == old(self).binds@,
            final(self).params@ == old(self).params@,
            final(self).inputs@ == old(self).inputs@,
            final(self).outputs@ == old(self).outputs@,
            final(self).name@ == old(self).name@,
    {
        let r = self.exprs.mk_sub(a, b);
        proof {
            self.lemma_exprs_only_grew(*old(self));
        }
        r
    }

    /// Canonical `Mul` node in this module's table.
    pub fn mk_arith_mul(&mut self, a: ExprId, b: ExprId) -> (r: ExprId)
        requires
            old(self).wf(),
            (a as int) < old(self).exprs.nodes@.len(),
            (b as int) < old(self).exprs.nodes@.len(),
        ensures
            final(self).wf(),
            final(self).exprs.extends(old(self).exprs),
            (r as int) < final(self).exprs.nodes@.len(),
            final(self).exprs.nodes@[r as int] == ParameterExpression::Mul(a, b),
            final(self).tensors@ == old(self).tensors@,
            final(self).ops@ == old(self).ops@,
            final(self).binds@ == old(self).binds@,
            final(self).params@ == old(self).params@,
            final(self).inputs@ == old(self).inputs@,
            final(self).outputs@ == old(self).outputs@,
            final(self).name@ == old(self).name@,
    {
        let r = self.exprs.mk_mul(a, b);
        proof {
            self.lemma_exprs_only_grew(*old(self));
        }
        r
    }

    /// Canonical `Div` node; a literal-zero divisor fails here, at
    /// construction time, with `DivisionByZero`.
    pub fn mk_arith_div(&mut self, a: ExprId, b: ExprId) -> (r: Result<ExprId, ElabError>)
        requires
            old(self).wf(),
            (a as int) < old(self).exprs.nodes@.len(),
            (b as int) < old(self).exprs.nodes@.len(),
        ensures
            final(self).wf(),
            final(self).exprs.extends(old(self).exprs),
            r matches Ok(id) ==> (id as int) < final(self).exprs.nodes@.len() && final(self).exprs.nodes@[id as int] == ParameterExpression::Div(a, b),
            r is Err <==> crate::expr::is_zero_const(old(self).exprs.nodes@, b as int),
            r is Err ==> r == Result::<ExprId, ElabError>::Err(ElabError::DivisionByZero),
            final(self).tensors@ == old(self).tensors@,
            final(self).ops@ == old(self).ops@,
            final(self).binds@ == old(self).binds@,
            final(self).params@ == old(self).params@,
            final(self).inputs@ == old(self).inputs@,
            final(self).outputs@ == old(self).outputs@,
            final(self).name@ == old(self).name@,
    {
        let r = self.exprs.mk_div(a, b);
        proof {
            self.lemma_exprs_only_grew(*old(self));
        }
        r
    }

    /// Canonical `Mod` node; a literal-zero divisor fails here, at
    /// construction time, with `DivisionByZero`.
    pub fn mk_arith_mod(&mut self, a: ExprId, b: ExprId) -> (r: Result<ExprId, ElabError>)
        requires
            old(self).wf(),
            (a as int) < old(self).exprs.nodes@.len(),
            (b as int) < old(self).exprs.nodes@.len(),
        ensures
            final(self).wf(),
            final(self).exprs.extends(old(self).exprs),
            r matches Ok(id) ==> (id as int) < final(self).exprs.nodes@.len() && final(self).exprs.nodes@[id as int] == ParameterExpression::Mod(a, b),
            r is Err <==> crate::expr::is_zero_const(old(self).exprs.nodes@, b as int),
            r is Err ==> r == Result::<ExprId, ElabError>::Err(ElabError::DivisionByZero),
            final(self).tensors@ == old(self).tensors@,
            final(self).ops@ == old(self).ops@,
            final(self).binds@ == old(self).binds@,
            final(self).params@ == old(self).params@,
            final(self).inputs@ == old(self).inputs@,
            final(self).outputs@ == old(self).outputs@,
            final(self).name@ == old(self).name@,
    {
        let r = self.exprs.mk_mod(a, b);
        proof {
            self.lemma_exprs_only_grew(*old(self));
        }
        r
    }

    /// Growing only the expression arena keeps the whole IR well-formed.
    pub proof fn lemma_exprs_only_grew(&self, prior: Module)
        requires
            prior.wf(),
            self.exprs.wf(),
            self.exprs.extends(prior.exprs),
            self.tensors@ == prior.tensors@,
            self.ops@ == prior.ops@,
            self.binds@ == prior.binds@,
            self.params@ == prior.params@,
            self.inputs@ == prior.inputs@,
            self.outputs@ == prior.outputs@,
        ensures
            self.wf(),
    {
        assert forall|t: int| 0 <= t < self.tensors@.len() implies crate::ir::tensor_wf(
            #[trigger] self.tensors@[t],
            self.exprs.nodes@.len() as int,
            self.ops@.len() as int,
        ) by {
            assert(crate::ir::tensor_wf(
                prior.tensors@[t],
                prior.exprs.nodes@.len() as int,
                prior.ops@.len() as int,
            ));
        }
        assert forall|o: int| 0 <= o < self.ops@.len() implies crate::ir::op_wf(
            #[trigger] self.ops@[o],
            self.exprs.nodes@.len() as int,
            self.tensors@.len() as int,
        ) by {
            assert(crate::ir::op_wf(
                prior.ops@[o],
                prior.exprs.nodes@.len() as int,
                prior.tensors@.len() as int,
            ));
        }
    }

    /// Imports an expression of another module's arena into this one,
    /// substituting each parameter reference by the caller-side handle
    /// bound to its name. An unbound parameter fails with
    /// `UnboundParameter`; a divisor that becomes the literal constant
    /// zero under the substitution fails with `DivisionByZero`.
    #[verifier::loop_isolation(false)]
    pub fn import_expr(
        &mut self,
        src: &ExprArena,
        e: ExprId,
        binds: &Vec<(String, ExprId)>,
    ) -> (r: Result<ExprId, ElabError>)
        requires
            old(self).wf(),
            src.wf(),
            (e as int) < src.nodes@.len(),
            forall|i: int|
                0 <= i < binds@.len() ==> ((#[trigger] binds@[i]).1 as int) < old(
                    self,
                ).exprs.nodes@.len(),
        ensures
            final(self).wf(),
            r matches Err(e2) ==> !(e2 is DuplicateModule),
            final(self).exprs.extends(old(self).exprs),
            r matches Ok(id) ==> (id as int) < final(self).exprs.nodes@.len(),
            src.nodes@[e as int] matches ParameterExpression::Constant(v) ==> (r matches Ok(id)
                && final(self).exprs.nodes@[id as int] == ParameterExpression::Constant(v)),
            src.nodes@[e as int] matches ParameterExpression::Parameter(s) ==> ((forall|k: int|
                0 <= k < binds@.len() ==> ((#[trigger] binds@[k]).0)@ != s@) ==> r == Result::<
                ExprId,
                ElabError,
            >::Err(ElabError::UnboundParameter { name: s })),
            src.nodes@[e as int] matches ParameterExpression::Parameter(s) ==> (forall|k: int|
                0 <= k < binds@.len() && (forall|k2: int|
                    0 <= k2 < k ==> ((#[trigger] binds@[k2]).0)@ != s@) && ((
                #[trigger] binds@[k]).0)@ == s@ ==> r == Result::<ExprId, ElabError>::Ok(
                    binds@[k].1,
                )),
            final(self).tensors@ == old(self).tensors@,
            final(self).ops@ == old(self).ops@,
            final(self).binds@ == old(self).binds@,
            final(self).params@ == old(self).params@,
            final(self).inputs@ == old(self).inputs@,
            final(self).outputs@ == old(self).outputs@,
            final(self).name@ == old(self).name@,
        decreases e,
    {
        proof {
            assert(crate::expr::node_operands_lt(src.nodes@[e as int], e as int));
        }
        match &src.nodes[e] {
            ParameterExpression::Constant(v) => Ok(self.get_param_const(*v)),
            ParameterExpression::Parameter(s) => {
                let mut i: usize = 0;
                let n = binds.len();
                while i < n
                    invariant
                        self.wf(),
                        *self == *old(self),
                        n == binds@.len(),
                        i <= n,
                        forall|j: int|
                            0 <= j < binds@.len() ==> ((#[trigger] binds@[j]).1 as int) < old(
                                self,
                            ).exprs.nodes@.len(),
                        forall|k2: int| 0 <= k2 < i ==> ((#[trigger] binds@[k2]).0)@ != s@,
                    decreases n - i,
                {
                    if binds[i].0 == *s {
                        return Ok(binds[i].1);
                    }
                    i = i + 1;
                }
                Err(ElabError::UnboundParameter { name: s.clone() })
            },
            ParameterExpression::Add(a, b) => {
                let (a, b) = (*a, *b);
                let x = match self.import_expr(src, a, binds) {
                    Ok(x) => x,
                    Err(err) => {
                        return Err(err);
                    },
                };
                let y = match self.import_expr(src, b, binds) {
                    Ok(y) => y,
                    Err(err) => {
                        return Err(err);
                    },
                };
                self.combine_arith(ast::BinArithOp::Add, x, y)
            },
            ParameterExpression::Sub(a, b) => {
                let (a, b) = (*a, *b);
                let x = match self.import_expr(src, a, binds) {
                    Ok(x) => x,
                    Err(err) => {
                        return Err(err);
                    },
                };
                let y = match self.import_expr(src, b, binds) {
                    Ok(y) => y,
                    Err(err) => {
                        return Err(err);
                    },
                };
                self.combine_arith(ast::BinArithOp::Sub, x, y)
            },
            ParameterExpression::Mul(a, b) => {
                let (a, b) = (*a, *b);
                let x = match self.import_expr(src, a, binds) {
                    Ok(x) => x,
                    Err(err) => {
                        return Err(err);
                    },
                };
                let y = match self.import_expr(src, b, binds) {
                    Ok(y) => y,
                    Err(err) => {
                        return Err(err);
                    },
                };
                self.combine_arith(ast::BinArithOp::Mul, x, y)
            },
            ParameterExpression::Div(a, b) => {
                let (a, b) = (*a, *b);
                let x = match self.import_expr(src, a, binds) {
                    Ok(x) => x,
                    Err(err) => {
                        return Err(err);
                    },
                };
                let y = match self.import_expr(src, b, binds) {
                    Ok(y) => y,
                    Err(err) => {
                        return Err(err);
                    },
                };
                self.combine_arith(ast::BinArithOp::Div, x, y)
            },
            ParameterExpression::Mod(a, b) => {
                let (a, b) = (*a, *b);
                let x = match self.import_expr(src, a, binds) {
                    Ok(x) => x,
                    Err(err) => {
                        return Err(err);
                    },
                };
                let y = match self.import_expr(src, b, binds) {
                    Ok(y) => y,
                    Err(err) => {
                        return Err(err);
                    },
                };
                self.combine_arith(ast::BinArithOp::Mod, x, y)
            },
        }
    }
}

/// The names one statement contributes to the module's input map (when
/// `input` holds) or output map (when it does not), in declaration order.
/// Directed wires contribute themselves — an inout wire to both maps — and
/// a generate block contributes whatever its body declares; no other
/// statement registers a port.
pub open spec fn stmt_port_names(s: ast::Statement, input: bool) -> Seq<Seq<char>>
    decreases s,
{
    match s {
        ast::Statement::Wire { name, width: _, init: _, io } => match io {
            Some(ast::Direction::Input) => if input {
                seq![name.0@]
            } else {
                Seq::empty()
            },
            Some(ast::Direction::Output) => if input {
                Seq::empty()
            } else {
                seq![name.0@]
            },
            Some(ast::Direction::InOut) => seq![name.0@],
            None => Seq::empty(),
        },
        ast::Statement::Generate(v) => body_port_names(v@, input),
        _ => Seq::empty(),
    }
}

/// The port names a statement list contributes, in declaration order.
pub open spec fn body_port_names(ss: Seq<ast::Statement>, input: bool) -> Seq<Seq<char>>
    decreases ss,
{
    if ss.len() == 0 {
        Seq::empty()
    } else {
        stmt_port_names(ss[0], input) + body_port_names(ss.skip(1), input)
    }
}

/// Extending a statement prefix by one statement appends its port names.
pub proof fn lemma_port_names_take(ss: Seq<ast::Statement>, i: int, input: bool)
    requires
        0 <= i < ss.len(),
    ensures
        body_port_names(ss.take(i + 1), input) == body_port_names(ss.take(i), input)
            + stmt_port_names(ss[i], input),
    decreases i,
{
    if i == 0 {
        assert(ss.take(0) =~= Seq::<ast::Statement>::empty());
        assert(ss.take(1)[0] == ss[0]);
        assert(ss.take(1).skip(1) =~= Seq::<ast::Statement>::empty());
        assert(body_port_names(Seq::<ast::Statement>::empty(), input)
            == Seq::<Seq<char>>::empty());
        assert(body_port_names(ss.take(1), input) == stmt_port_names(ss[0], input)
            + Seq::<Seq<char>>::empty());
        assert(stmt_port_names(ss[0], input) + Seq::<Seq<char>>::empty() =~= stmt_port_names(
            ss[0],
            input,
        ));
        assert(body_port_names(ss.take(0), input) + stmt_port_names(ss[0], input)
            =~= stmt_port_names(ss[0], input));
    } else {
        let tail = ss.skip(1);
        lemma_port_names_take(tail, i - 1, input);
        assert(ss.take(i + 1)[0] == ss[0]);
        assert(ss.take(i + 1).skip(1) =~= tail.take(i));
        assert(ss.take(i)[0] == ss[0]);
        assert(ss.take(i).skip(1) =~= tail.take(i - 1));
        assert(tail[i - 1] == ss[i]);
        assert(body_port_names(ss.take(i + 1), input) == stmt_port_names(ss[0], input)
            + body_port_names(tail.take(i), input));
        assert(body_port_names(ss.take(i), input) == stmt_port_names(ss[0], input)
            + body_port_names(tail.take(i - 1), input));
        assert(stmt_port_names(ss[0], input) + (body_port_names(tail.take(i - 1), input)
            + stmt_port_names(ss[i], input)) =~= (stmt_port_names(ss[0], input)
            + body_port_names(tail.take(i - 1), input)) + stmt_port_names(ss[i], input));
    }
}

/// How a lowering step changes the input/output maps: existing entries
/// stay, and exactly the port names of the lowered statements are appended,
/// in order, each pointing at a tensor of the module.
pub open spec fn registers_ports(
    prior: Module,
    now: Module,
    in_names: Seq<Seq<char>>,
    out_names: Seq<Seq<char>>,
) -> bool {
    &&& now.inputs@.len() == prior.inputs@.len() + in_names.len()
    &&& forall|k: int|
        0 <= k < prior.inputs@.len() ==> now.inputs@[k] == #[trigger] prior.inputs@[k]
    &&& forall|k: int|
        0 <= k < in_names.len() ==> ((#[trigger] now.inputs@[prior.inputs@.len() + k]).0)@
            == in_names[k]
    &&& now.outputs@.len() == prior.outputs@.len() + out_names.len()
    &&& forall|k: int|
        0 <= k < prior.outputs@.len() ==> now.outputs@[k] == #[trigger] prior.outputs@[k]
    &&& forall|k: int|
        0 <= k < out_names.len() ==> ((#[trigger] now.outputs@[prior.outputs@.len() + k]).0)@
            == out_names[k]
}

/// The built-in gate a binary bitwise operator denotes.
pub fn gate_of(op: ast::BinBitOp) -> (g: GateKind)
    ensures
        gate_arity(g) == 2,
        g == (match op {
            ast::BinBitOp::And => GateKind::And,
            ast::BinBitOp::Or => GateKind::Or,
            ast::BinBitOp::Xor => GateKind::Xor,
            ast::BinBitOp::Xnor => GateKind::Xnor,
        }),
{
    match op {
        ast::BinBitOp::And => GateKind::And,
        ast::BinBitOp::Or => GateKind::Or,
        ast::BinBitOp::Xor => GateKind::Xor,
        ast::BinBitOp::Xnor => GateKind::Xnor,
    }
}

impl Module {
    /// The extent a declared bit range denotes: no range is one bit, a
    /// single-index range is one bit, and `[hi:lo]` is `hi - lo + 1` as a
    /// parameter expression, folded to a constant when `hi` and `lo` are.
    #[verifier::rlimit(60)]
    pub fn width_extent(&mut self, width: &Option<ast::Range>) -> (r: Result<ExprId, ElabError>)
        requires
            old(self).wf(),
        ensures
            final(self).wf(),
            r matches Err(e2) ==> !(e2 is DuplicateModule),
            final(self).exprs.extends(old(self).exprs),
            r matches Ok(id) ==> (id as int) < final(self).exprs.nodes@.len(),
            width is None ==> (r matches Ok(id) && final(self).exprs.nodes@[id as int]
                == ParameterExpression::Constant(1)),
            width matches Some(range) ==> ((*range.start) matches ast::Expression::ConstantInt(hi)
                ==> range.end matches Some(lo_e) ==> (*lo_e) matches ast::Expression::ConstantInt(
                lo,
            ) ==> ((i64::MIN <= hi - lo <= i64::MAX && i64::MIN <= hi - lo + 1 <= i64::MAX) ==> (r
                matches Ok(id) && final(self).exprs.nodes@[id as int]
                == ParameterExpression::Constant((hi - lo + 1) as i64)))),
            width matches Some(range) ==> (is_declared_param_ref(*range.start, old(self).params@)
                ==> (range.end matches Some(lo_e) ==> ((ast_param_free(*lo_e)
                && ast_const_fold(*lo_e) is Ok) ==> r is Ok))),
            final(self).tensors@ == old(self).tensors@,
            final(self).ops@ == old(self).ops@,
            final(self).binds@ == old(self).binds@,
            final(self).params@ == old(self).params@,
            final(self).inputs@ == old(self).inputs@,
            final(self).outputs@ == old(self).outputs@,
            final(self).name@ == old(self).name@,
    {
        match width {
            None => Ok(self.get_param_const(1)),
            Some(range) => match &range.end {
                None => Ok(self.get_param_const(1)),
                Some(lo) => {
                    let ghost symbolic_hi = is_declared_param_ref(
                        *range.start,
                        old(self).params@,
                    );
                    let hi_id = match self.lower_param_expr(&range.start) {
                        Ok(h) => h,
                        Err(err) => {
                            return Err(err);
                        },
                    };
                    let ghost m1 = *self;
                    proof {
                        if symbolic_hi {
                            assert((*range.start) is Identifier);
                            assert(m1.exprs.nodes@[hi_id as int] is Parameter);
                        }
                    }
                    let lo_id = match self.lower_param_expr(lo) {
                        Ok(l) => l,
                        Err(err) => {
                            return Err(err);
                        },
                    };
                    proof {
                        if symbolic_hi {
                            assert(self.exprs.nodes@[hi_id as int] == m1.exprs.nodes@[hi_id as int]);
                            assert(crate::expr::const_of(self.exprs.nodes@, hi_id as int) is None);
                        }
                    }
                    let ghost m2 = *self;
                    let diff = match self.combine_arith(ast::BinArithOp::Sub, hi_id, lo_id) {
                        Ok(d) => d,
                        Err(err) => {
                            proof {
                                if symbolic_hi {
                                    assert(crate::expr::const_of(m2.exprs.nodes@, hi_id as int)
                                        is None);
                                    assert(false);
                                }
                            }
                            return Err(err);
                        },
                    };
                    proof {
                        if symbolic_hi {
                            assert(self.exprs.nodes@[diff as int] matches ParameterExpression::Sub(
                                x,
                                y,
                            ));
                        }
                    }
                    let one = self.get_param_const(1);
                    proof {
                        if symbolic_hi {
                            assert(self.exprs.nodes@[diff as int] matches ParameterExpression::Sub(
                                x,
                                y,
                            ));
                            assert(crate::expr::const_of(self.exprs.nodes@, diff as int) is None);
                        }
                    }
                    self.combine_arith(ast::BinArithOp::Add, diff, one)
                },
            },
        }
    }

    /// Lowers a wire or port declaration: the declared range becomes a
    /// one-dimensional primary tensor, registered in the module's input or
    /// output map when the declaration carries a direction (an inout port
    /// stands in both). Any other statement is left alone.
    pub fn extract_ports(&mut self, statement: &ast::Statement) -> (r: Result<
        Option<TensorId>,
        ElabError,
    >)
        requires
            old(self).wf(),
        ensures
            final(self).wf(),
            r matches Err(e2) ==> !(e2 is DuplicateModule),
            final(self).exprs.extends(old(self).exprs),
            r matches Ok(Some(id)) ==> (id as int) < final(self).tensors@.len(),
            old(self).tensors@.len() <= final(self).tensors@.len(),
            forall|t2: int|
                0 <= t2 < old(self).tensors@.len() ==> final(self).tensors@[t2] == #[trigger] old(
                    self,
                ).tensors@[t2],
            final(self).ops@ == old(self).ops@,
            final(self).binds@ == old(self).binds@,
            final(self).params@ == old(self).params@,
            final(self).name@ == old(self).name@,
            !(statement is Wire) ==> *final(self) == *old(self) && r == Result::<
                Option<TensorId>,
                ElabError,
            >::Ok(None),
            statement is Wire && r is Ok ==> (r matches Ok(Some(id)) && id as int == old(
                self,
            ).tensors@.len() && final(self).tensors@.len() == old(self).tensors@.len() + 1),
            r matches Ok(Some(id)) ==> (final(self).tensors@[id as int].shape@.len() == 1
                && final(self).tensors@[id as int].from is None),
            statement matches ast::Statement::Wire { name: _, width: None, init: _, io: _ } ==> (r
                matches Ok(Some(id)) && final(self).exprs.nodes@[final(self).tensors@[id as int].shape@[0] as int] == ParameterExpression::Constant(1)),
            statement matches ast::Statement::Wire { name: _, width: Some(range), init: _, io: _ }
                ==> ((*range.start) matches ast::Expression::ConstantInt(hi)
                ==> range.end matches Some(lo_e) ==> (*lo_e) matches ast::Expression::ConstantInt(
                lo,
            ) ==> ((i64::MIN <= hi - lo <= i64::MAX && i64::MIN <= hi - lo + 1 <= i64::MAX) ==> (r
                matches Ok(Some(id)) && final(self).exprs.nodes@[final(self).tensors@[id as int].shape@[0] as int] == ParameterExpression::Constant(
                (hi - lo + 1) as i64,
            )))),
            forall|k: int|
                0 <= k < old(self).inputs@.len() ==> final(self).inputs@[k] == #[trigger] old(
                    self,
                ).inputs@[k],
            forall|k: int|
                0 <= k < old(self).outputs@.len() ==> final(self).outputs@[k] == #[trigger] old(
                    self,
                ).outputs@[k],
            statement matches ast::Statement::Wire {
                name,
                width: _,
                init: _,
                io: Some(ast::Direction::Input),
            } ==> (r is Ok ==> (final(self).outputs@ == old(self).outputs@ && final(self).inputs@.len() == old(self).inputs@.len() + 1 && final(self).inputs@.last().0@
                == name.0@ && final(self).inputs@.last().1 as int == old(self).tensors@.len())),
            statement matches ast::Statement::Wire {
                name,
                width: _,
                init: _,
                io: Some(ast::Direction::Output),
            } ==> (r is Ok ==> (final(self).inputs@ == old(self).inputs@ && final(self).outputs@.len() == old(self).outputs@.len() + 1 && final(self).outputs@.last().0@
                == name.0@ && final(self).outputs@.last().1 as int == old(self).tensors@.len())),
            statement matches ast::Statement::Wire {
                name,
                width: _,
                init: _,
                io: Some(ast::Direction::InOut),
            } ==> (r is Ok ==> (final(self).inputs@.len() == old(self).inputs@.len() + 1 && final(self).outputs@.len() == old(self).outputs@.len() + 1 && final(self).inputs@.last().0@
                == name.0@ && final(self).outputs@.last().0@ == name.0@ && final(self).inputs@.last().1 == final(self).outputs@.last().1)),
            statement matches ast::Statement::Wire { name: _, width: _, init: _, io: None } ==> (
            final(self).inputs@ == old(self).inputs@ && final(self).outputs@ == old(
                self,
            ).outputs@),
    {
        match statement {
            ast::Statement::Wire { name, width, init: _, io } => {
                let ext = match self.width_extent(width) {
                    Ok(e) => e,
                    Err(err) => {
                        return Err(err);
                    },
                };
                let mut shape: Vec<ExprId> = Vec::new();
                shape.push(ext);
                let t = self.add_primary(shape);
                match io {
                    Some(ast::Direction::Input) => {
                        self.register_input(name.0.clone(), t);
                    },
                    Some(ast::Direction::Output) => {
                        self.register_output(name.0.clone(), t);
                    },
                    Some(ast::Direction::InOut) => {
                        self.register_input(name.0.clone(), t);
                        self.register_output(name.0.clone(), t);
                    },
                    None => {},
                }
                Ok(Some(t))
            },
            _ => Ok(None),
        }
    }
}

/// Port registration composes: two steps append both name lists in order.
pub proof fn lemma_registers_ports_trans(
    a: Module,
    b: Module,
    c: Module,
    in1: Seq<Seq<char>>,
    out1: Seq<Seq<char>>,
    in2: Seq<Seq<char>>,
    out2: Seq<Seq<char>>,
)
    requires
        registers_ports(a, b, in1, out1),
        registers_ports(b, c, in2, out2),
    ensures
        registers_ports(a, c, in1 + in2, out1 + out2),
{
    assert forall|k: int| 0 <= k < a.inputs@.len() implies c.inputs@[k]
        == #[trigger] a.inputs@[k] by {
        assert(b.inputs@[k] == a.inputs@[k]);
        assert(c.inputs@[k] == b.inputs@[k]);
    }
    assert forall|k: int| 0 <= k < (in1 + in2).len() implies ((#[trigger] c.inputs@[a.inputs@.len()
        + k]).0)@ == (in1 + in2)[k] by {
        if k < in1.len() {
            assert((b.inputs@[a.inputs@.len() + k].0)@ == in1[k]);
            assert(c.inputs@[a.inputs@.len() + k] == b.inputs@[a.inputs@.len() + k]);
        } else {
            assert((c.inputs@[b.inputs@.len() + (k - in1.len())].0)@ == in2[k - in1.len()]);
        }
    }
    assert forall|k: int| 0 <= k < a.outputs@.len() implies c.outputs@[k]
        == #[trigger] a.outputs@[k] by {
        assert(b.outputs@[k] == a.outputs@[k]);
        assert(c.outputs@[k] == b.outputs@[k]);
    }
    assert forall|k: int| 0 <= k < (out1 + out2).len() implies ((
    #[trigger] c.outputs@[a.outputs@.len() + k]).0)@ == (out1 + out2)[k] by {
        if k < out1.len() {
            assert((b.outputs@[a.outputs@.len() + k].0)@ == out1[k]);
            assert(c.outputs@[a.outputs@.len() + k] == b.outputs@[a.outputs@.len() + k]);
        } else {
            assert((c.outputs@[b.outputs@.len() + (k - out1.len())].0)@ == out2[k - out1.len()]);
        }
    }
}

/// A lowering step that registers no port leaves both maps as they are.
pub open spec fn same_io(prior: Module, now: Module) -> bool {
    &&& now.inputs@ == prior.inputs@
    &&& now.outputs@ == prior.outputs@
}

/// What a lowering step may do to the module: arenas only grow and the
/// existing entries stay as they are.
pub open spec fn grows(prior: Module, now: Module) -> bool {
    &&& now.exprs.extends(prior.exprs)
    &&& prior.tensors@.len() <= now.tensors@.len()
    &&& forall|t: int|
        0 <= t < prior.tensors@.len() ==> now.tensors@[t] == #[trigger] prior.tensors@[t]
    &&& now.params@ == prior.params@
    &&& now.name@ == prior.name@
}

/// Extracts `(a, b)` such that the expression denotes `a * i + b` over the
/// genvar `ivar`, with `a` and `b` integer constants.
fn affine_of(e: &ast::Expression, ivar: &String) -> (r: Result<(i64, i64), ElabError>)
    ensures
        r matches Err(e2) ==> (e2 == ElabError::UnsupportedGenerateForm || e2
            == ElabError::ArithmeticOverflow),
    decreases *e,
{
    match e {
        ast::Expression::ConstantInt(v) => Ok((0, *v)),
        ast::Expression::Identifier(id) => {
            if id.0 == *ivar {
                Ok((1, 0))
            } else {
                Err(ElabError::UnsupportedGenerateForm)
            }
        },
        ast::Expression::BinaryArithmeticOperation(l, op, rr) => {
            let (a1, b1) = match affine_of(l, ivar) {
                Ok(p) => p,
                Err(err) => {
                    return Err(err);
                },
            };
            let (a2, b2) = match affine_of(rr, ivar) {
                Ok(p) => p,
                Err(err) => {
                    return Err(err);
                },
            };
            match op {
                ast::BinArithOp::Add => {
                    match (a1.checked_add(a2), b1.checked_add(b2)) {
                        (Some(a), Some(b)) => Ok((a, b)),
                        _ => Err(ElabError::ArithmeticOverflow),
                    }
                },
                ast::BinArithOp::Sub => {
                    match (a1.checked_sub(a2), b1.checked_sub(b2)) {
                        (Some(a), Some(b)) => Ok((a, b)),
                        _ => Err(ElabError::ArithmeticOverflow),
                    }
                },
                ast::BinArithOp::Mul => {
                    if a1 == 0 {
                        match (b1.checked_mul(a2), b1.checked_mul(b2)) {
                            (Some(a), Some(b)) => Ok((a, b)),
                            _ => Err(ElabError::ArithmeticOverflow),
                        }
                    } else if a2 == 0 {
                        match (a1.checked_mul(b2), b1.checked_mul(b2)) {
                            (Some(a), Some(b)) => Ok((a, b)),
                            _ => Err(ElabError::ArithmeticOverflow),
                        }
                    } else {
                        Err(ElabError::UnsupportedGenerateForm)
                    }
                },
                _ => Err(ElabError::UnsupportedGenerateForm),
            }
        },
        ast::Expression::UnaryArithmeticOperation(op, x) => {
            let (a, b) = match affine_of(x, ivar) {
                Ok(p) => p,
                Err(err) => {
                    return Err(err);
                },
            };
            match op {
                ast::UnArithOp::Neg => {
                    match (0i64.checked_sub(a), 0i64.checked_sub(b)) {
                        (Some(na), Some(nb)) => Ok((na, nb)),
                        _ => Err(ElabError::ArithmeticOverflow),
                    }
                },
            }
        },
        _ => Err(ElabError::UnsupportedGenerateForm),
    }
}

/// Lowers an expression in signal context into a tensor: a name denotes its
/// tensor, a slice becomes a `View`, and a bitwise operator becomes a
/// broadcast-map of the matching gate over its operands.
fn lower_signal_expr(m: &mut Module, scope: &Vec<ScopeEntry>, e: &ast::Expression) -> (r: Result<
    TensorId,
    ElabError,
>)
    requires
        old(m).wf(),
        scope_wf(scope@, old(m).tensors@.len() as int),
    ensures
        final(m).wf(),
        same_io(*old(m), *final(m)),
        r matches Err(e2) ==> !(e2 is DuplicateModule),
        grows(*old(m), *final(m)),
        r matches Ok(t) ==> (t as int) < final(m).tensors@.len(),
        (e matches ast::Expression::ConstantInt(v) || e matches
            ast::Expression::RelationalOperation(l, op, rr) || e matches
            ast::Expression::BinaryArithmeticOperation(l2, op2, rr2) || e matches
            ast::Expression::UnaryArithmeticOperation(op3, x3)) ==> r == Result::<
            TensorId,
            ElabError,
        >::Err(ElabError::UnsupportedConstruct),
        e matches ast::Expression::Identifier(id2) ==> ((forall|j: int|
            0 <= j < scope@.len() ==> (#[trigger] scope@[j]).name@ != id2.0@) ==> r == Result::<
            TensorId,
            ElabError,
        >::Err(ElabError::UnknownSignal { name: id2.0 })),
    decreases *e,
{
    match e {
        ast::Expression::Identifier(id) => match scope_find(scope, id.0.as_str()) {
            Some(i) => {
                if scope[i].genvar {
                    Err(ElabError::UnsupportedConstruct)
                } else {
                    Ok(scope[i].tensor)
                }
            },
            None => Err(ElabError::UnknownSignal { name: id.0.clone() }),
        },
        ast::Expression::Slice(base, range) => {
            let bt: TensorId = match &**base {
                ast::Expression::Identifier(id) => match scope_find(scope, id.0.as_str()) {
                    Some(i) => {
                        if scope[i].genvar {
                            return Err(ElabError::UnsupportedConstruct);
                        }
                        scope[i].tensor
                    },
                    None => {
                        return Err(ElabError::UnknownSignal { name: id.0.clone() });
                    },
                },
                ast::Expression::Slice(_, _) => {
                    match lower_signal_expr(m, scope, base) {
                        Ok(t) => t,
                        Err(err) => {
                            return Err(err);
                        },
                    }
                },
                _ => {
                    return Err(ElabError::UnsupportedConstruct);
                },
            };
            if m.tensors[bt].shape.len() != 1 {
                return Err(ElabError::UnsupportedConstruct);
            }
            let hi_id = match m.lower_param_expr(&range.start) {
                Ok(h) => h,
                Err(err) => {
                    return Err(err);
                },
            };
            let hi = match m.const_value(hi_id) {
                Some(v) => v,
                None => {
                    return Err(ElabError::UnsupportedConstruct);
                },
            };
            let lo: i64 = match &range.end {
                None => hi,
                Some(lo_e) => {
                    let lo_id = match m.lower_param_expr(lo_e) {
                        Ok(l) => l,
                        Err(err) => {
                            return Err(err);
                        },
                    };
                    match m.const_value(lo_id) {
                        Some(v) => v,
                        None => {
                            return Err(ElabError::UnsupportedConstruct);
                        },
                    }
                },
            };
            if hi < lo {
                return Err(ElabError::UnsupportedConstruct);
            }
            let extent = match hi.checked_sub(lo) {
                Some(d) => match d.checked_add(1) {
                    Some(x) => x,
                    None => {
                        return Err(ElabError::ArithmeticOverflow);
                    },
                },
                None => {
                    return Err(ElabError::ArithmeticOverflow);
                },
            };
            let base_extent_id = m.tensors[bt].shape[0];
            match m.const_value(base_extent_id) {
                Some(be) => {
                    if !crate::tensor::check_dim_within(extent, 1, lo, be) {
                        let extent_id = m.get_param_const(extent);
                        return Err(
                            ElabError::ShapeMismatch {
                                dim: 0,
                                expected: base_extent_id,
                                actual: extent_id,
                            },
                        );
                    }
                },
                None => {},
            }
            let extent_id = m.get_param_const(extent);
            // A slice of a slice flattens to one view over the inner
            // view's own base; no chain of nested views is left behind.
            let mut inner: Option<TensorView> = None;
            match &m.tensors[bt].from {
                Some(o) => {
                    proof {
                        assert(crate::ir::op_wf(
                            m.ops@[*o as int],
                            m.exprs.nodes@.len() as int,
                            m.tensors@.len() as int,
                        ));
                    }
                    match &m.ops[*o] {
                        crate::op::Op::View(v) => {
                            if v.shape.len() == 1 && v.strides.len() == 1 && v.offsets.len()
                                == 1 {
                                inner = Some(v.clone());
                            }
                        },
                        _ => {},
                    }
                },
                None => {},
            }
            let mut shape: Vec<ExprId> = Vec::new();
            shape.push(extent_id);
            let mut strides: Vec<i64> = Vec::new();
            strides.push(1);
            let mut offsets: Vec<i64> = Vec::new();
            offsets.push(lo);
            match inner {
                Some(iv) => {
                    let refine = TensorView { shape, strides, offsets, input: bt };
                    let composed = match iv.compose(&refine) {
                        Ok(v) => v,
                        Err(err) => {
                            return Err(err);
                        },
                    };
                    Ok(m.add_view(composed))
                },
                None => {
                    let v = TensorView { shape, strides, offsets, input: bt };
                    Ok(m.add_view(v))
                },
            }
        },
        ast::Expression::BinaryBitOperation(l, op, rr) => {
            let lt = match lower_signal_expr(m, scope, l) {
                Ok(t) => t,
                Err(err) => {
                    return Err(err);
                },
            };
            let rt = match lower_signal_expr(m, scope, rr) {
                Ok(t) => t,
                Err(err) => {
                    return Err(err);
                },
            };
            let mut ins: Vec<TensorId> = Vec::new();
            ins.push(lt);
            ins.push(rt);
            m.map_gate(gate_of(*op), ins)
        },
        ast::Expression::UnaryBitOperation(op, x) => {
            let xt = match lower_signal_expr(m, scope, x) {
                Ok(t) => t,
                Err(err) => {
                    return Err(err);
                },
            };
            let mut ins: Vec<TensorId> = Vec::new();
            ins.push(xt);
            match op {
                ast::UnBitOp::Not => m.map_gate(GateKind::Not, ins),
            }
        },
        _ => Err(ElabError::UnsupportedConstruct),
    }
}

/// Arena growth composes.
pub proof fn lemma_grows_trans(a: Module, b: Module, c: Module)
    requires
        grows(a, b),
        grows(b, c),
    ensures
        grows(a, c),
{
    assert forall|k: int| 0 <= k < a.exprs.nodes@.len() implies c.exprs.nodes@[k]
        == #[trigger] a.exprs.nodes@[k] by {
        assert(b.exprs.nodes@[k] == a.exprs.nodes@[k]);
    }
    assert forall|t: int| 0 <= t < a.tensors@.len() implies c.tensors@[t]
        == #[trigger] a.tensors@[t] by {
        assert(b.tensors@[t] == a.tensors@[t]);
    }
}

/// A list of `n` copies of one value.
fn repeat_i64(v: i64, n: usize) -> (r: Vec<i64>)
    ensures
        r@.len() == n,
        forall|k: int| 0 <= k < n ==> r@[k] == v,
    decreases n,
{
    let mut r: Vec<i64> = Vec::new();
    let mut i: usize = 0;
    while i < n
        invariant
            i <= n,
            r@.len() == i,
            forall|k: int| 0 <= k < i ==> r@[k] == v,
        decreases n - i,
    {
        r.push(v);
        i = i + 1;
    }
    r
}

/// Lowers one assignment: resolves the right-hand side into a tensor over
/// already-registered names, then binds it to the declared target, whole or
/// through a constant bit range. A whole-width assignment marks its target
/// assigned, and re-binding such a target fails with `AlreadyAssigned`;
/// bit-range assignments may drive one target's disjoint ranges one by one.
/// An undeclared target fails with `UnknownSignal`.
#[verifier::loop_isolation(false)]
fn lower_assign(m: &mut Module, scope: &mut Vec<ScopeEntry>, decl: &ast::AssignDecl) -> (r: Result<
    (),
    ElabError,
>)
    requires
        old(m).wf(),
        scope_wf(old(scope)@, old(m).tensors@.len() as int),
    ensures
        final(m).wf(),
        same_io(*old(m), *final(m)),
        r matches Err(e2) ==> !(e2 is DuplicateModule),
        grows(*old(m), *final(m)),
        scope_wf(final(scope)@, final(m).tensors@.len() as int),
        (forall|j: int|
            0 <= j < old(scope)@.len() ==> (#[trigger] old(scope)@[j]).name@ != decl.name.0@)
            ==> r == Result::<(), ElabError>::Err(
            ElabError::UnknownSignal { name: decl.name.0 },
        ),
        forall|j: int|
            (0 <= j < old(scope)@.len() && (forall|j2: int|
                j < j2 < old(scope)@.len() ==> (#[trigger] old(scope)@[j2]).name@ != decl.name.0@)
                && ((#[trigger] old(scope)@[j]).name@ == decl.name.0@ && !old(scope)@[j].genvar
                && old(scope)@[j].assigned)) ==> r == Result::<(), ElabError>::Err(
                ElabError::AlreadyAssigned { name: decl.name.0 },
            ),
{
    let si = match scope_find(scope, decl.name.0.as_str()) {
        Some(i) => i,
        None => {
            return Err(ElabError::UnknownSignal { name: decl.name.0.clone() });
        },
    };
    if scope[si].genvar {
        return Err(ElabError::UnsupportedConstruct);
    }
    if scope[si].assigned {
        return Err(ElabError::AlreadyAssigned { name: decl.name.0.clone() });
    }
    let target = scope[si].tensor;
    let src = match lower_signal_expr(m, scope, &decl.value) {
        Ok(t) => t,
        Err(err) => {
            return Err(err);
        },
    };
    let src_rank = m.tensors[src].shape.len();
    match &decl.width {
        None => {
            match crate::ir::first_shape_mismatch(&m.tensors[target].shape, &m.tensors[src].shape) {
                None => {},
                Some((d, e, a)) => {
                    return Err(ElabError::ShapeMismatch { dim: d, expected: e, actual: a });
                },
            }
            let strides = repeat_i64(1, src_rank);
            let offsets = repeat_i64(0, src_rank);
            m.add_bind(crate::ir::SignalBind { target, strides, offsets, source: src });
            let entry = ScopeEntry {
                name: scope[si].name.clone(),
                tensor: scope[si].tensor,
                assigned: true,
                genvar: false,
            };
            scope[si] = entry;
        },
        Some(range) => {
            if m.tensors[target].shape.len() != 1 || src_rank != 1 {
                return Err(ElabError::UnsupportedConstruct);
            }
            let hi_id = match m.lower_param_expr(&range.start) {
                Ok(h) => h,
                Err(err) => {
                    return Err(err);
                },
            };
            let hi = match m.const_value(hi_id) {
                Some(v) => v,
                None => {
                    return Err(ElabError::UnsupportedConstruct);
                },
            };
            let lo: i64 = match &range.end {
                None => hi,
                Some(lo_e) => {
                    let lo_id = match m.lower_param_expr(lo_e) {
                        Ok(l) => l,
                        Err(err) => {
                            return Err(err);
                        },
                    };
                    match m.const_value(lo_id) {
                        Some(v) => v,
                        None => {
                            return Err(ElabError::UnsupportedConstruct);
                        },
                    }
                },
            };
            if hi < lo {
                return Err(ElabError::UnsupportedConstruct);
            }
            let extent = match hi.checked_sub(lo) {
                Some(d) => match d.checked_add(1) {
                    Some(x) => x,
                    None => {
                        return Err(ElabError::ArithmeticOverflow);
                    },
                },
                None => {
                    return Err(ElabError::ArithmeticOverflow);
                },
            };
            let extent_id = m.get_param_const(extent);
            let src_extent_id = m.tensors[src].shape[0];
            if src_extent_id != extent_id {
                return Err(
                    ElabError::ShapeMismatch { dim: 0, expected: extent_id, actual: src_extent_id },
                );
            }
            match m.const_value(m.tensors[target].shape[0]) {
                Some(te) => {
                    if !crate::tensor::check_dim_within(extent, 1, lo, te) {
                        return Err(
                            ElabError::ShapeMismatch {
                                dim: 0,
                                expected: m.tensors[target].shape[0],
                                actual: extent_id,
                            },
                        );
                    }
                },
                None => {},
            }
            let mut strides: Vec<i64> = Vec::new();
            strides.push(1);
            let mut offsets: Vec<i64> = Vec::new();
            offsets.push(lo);
            m.add_bind(crate::ir::SignalBind { target, strides, offsets, source: src });
        },
    }
    Ok(())
}

/// Lowers an instance statement: looks the sub-module up in the registry,
/// binds its parameter overrides, imports its declared port shapes into the
/// caller's arena under those binds, emits an `Instantiate` operator, and
/// binds the new output tensors to the connected caller signals. A missing
/// module fails with `UnknownModule`.
#[verifier::loop_isolation(false)]
fn lower_instance(
    m: &mut Module,
    scope: &mut Vec<ScopeEntry>,
    reg: &Registry,
    module: &ast::Identifier,
    params_set: &Vec<ast::Bind>,
    ports_set: &Vec<ast::Bind>,
) -> (r: Result<(), ElabError>)
    requires
        old(m).wf(),
        reg.wf(),
        scope_wf(old(scope)@, old(m).tensors@.len() as int),
    ensures
        final(m).wf(),
        same_io(*old(m), *final(m)),
        r matches Err(e2) ==> !(e2 is DuplicateModule),
        grows(*old(m), *final(m)),
        scope_wf(final(scope)@, final(m).tensors@.len() as int),
        (forall|i: int|
            0 <= i < reg.modules@.len() ==> (#[trigger] reg.modules@[i]).name@ != module.0@) ==> r
            == Result::<(), ElabError>::Err(ElabError::UnknownModule { name: module.0 }),
{
    let midx = match reg.find(module.0.as_str()) {
        Some(i) => i,
        None => {
            return Err(ElabError::UnknownModule { name: module.0.clone() });
        },
    };
    // Parameter overrides, lowered in the caller's context.
    let mut binds: Vec<(String, ExprId)> = Vec::new();
    let mut i: usize = 0;
    let np = params_set.len();
    while i < np
        invariant
            m.wf(),
            grows(*old(m), *m),
            same_io(*old(m), *m),
            np == params_set@.len(),
            i <= np,
            forall|k: int|
                0 <= k < binds@.len() ==> ((#[trigger] binds@[k]).1 as int)
                    < m.exprs.nodes@.len(),
        decreases np - i,
    {
        let ghost m_pre = *m;
        let v = match m.lower_param_expr(&params_set[i].value) {
            Ok(v) => v,
            Err(err) => {
                return Err(err);
            },
        };
        binds.push((params_set[i].name.0.clone(), v));
        proof {
            lemma_grows_trans(*old(m), m_pre, *m);
        }
        i = i + 1;
    }
    // Declared input and output shapes, imported into the caller's arena.
    let callee = &reg.modules[midx];
    let mut expected: Vec<Vec<ExprId>> = Vec::new();
    let mut ins: Vec<TensorId> = Vec::new();
    let nin = callee.inputs.len();
    let mut j: usize = 0;
    while j < nin
        invariant
            m.wf(),
            grows(*old(m), *m),
            same_io(*old(m), *m),
            reg.wf(),
            scope_wf(scope@, m.tensors@.len() as int),
            (midx as int) < reg.modules@.len(),
            callee == reg.modules@[midx as int],
            nin == callee.inputs@.len(),
            j <= nin,
            forall|k: int|
                0 <= k < binds@.len() ==> ((#[trigger] binds@[k]).1 as int)
                    < m.exprs.nodes@.len(),
            expected@.len() == j,
            ins@.len() == j,
            forall|k: int|
                0 <= k < j ==> ((#[trigger] ins@[k]) as int) < m.tensors@.len(),
        decreases nin - j,
    {
        let ghost m_iter = *m;
        let pt = callee.inputs[j].1;
        proof {
            assert(callee.wf());
            assert(crate::ir::tensor_wf(
                callee.tensors@[pt as int],
                callee.exprs.nodes@.len() as int,
                callee.ops@.len() as int,
            ));
        }
        let nshape = callee.tensors[pt].shape.len();
        let mut imported: Vec<ExprId> = Vec::new();
        let mut k: usize = 0;
        while k < nshape
            invariant
                m.wf(),
                grows(*old(m), *m),
                same_io(*old(m), *m),
                reg.wf(),
                (midx as int) < reg.modules@.len(),
                callee == reg.modules@[midx as int],
                (pt as int) < callee.tensors@.len(),
                nshape == callee.tensors@[pt as int].shape@.len(),
                k <= nshape,
                forall|k2: int|
                    0 <= k2 < binds@.len() ==> ((#[trigger] binds@[k2]).1 as int)
                        < m.exprs.nodes@.len(),
                imported@.len() == k,
                forall|k2: int|
                    0 <= k2 < k ==> ((#[trigger] imported@[k2]) as int) < m.exprs.nodes@.len(),
                m.exprs.extends(m_iter.exprs),
                m.tensors@ == m_iter.tensors@,
            decreases nshape - k,
        {
            let ghost m_pre = *m;
            proof {
                assert(callee.wf());
                assert(crate::ir::tensor_wf(
                    callee.tensors@[pt as int],
                    callee.exprs.nodes@.len() as int,
                    callee.ops@.len() as int,
                ));
            }
            let h = callee.tensors[pt].shape[k];
            let ih = match m.import_expr(&callee.exprs, h, &binds) {
                Ok(x) => x,
                Err(err) => {
                    return Err(err);
                },
            };
            imported.push(ih);
            proof {
                lemma_grows_trans(*old(m), m_pre, *m);
            }
            k = k + 1;
        }
        expected.push(imported);
        // The caller tensor bound to this input port.
        let pname = &callee.inputs[j].0;
        let mut b: usize = 0;
        let nb = ports_set.len();
        let mut bound: Option<TensorId> = None;
        while b < nb
            invariant
                m.wf(),
                scope_wf(scope@, m.tensors@.len() as int),
                nb == ports_set@.len(),
                b <= nb,
                match bound {
                    Some(t) => (t as int) < m.tensors@.len(),
                    None => true,
                },
            decreases nb - b,
        {
            if ports_set[b].name.0 == *pname {
                match &ports_set[b].value {
                    ast::Expression::Identifier(sig) => {
                        match scope_find(scope, sig.0.as_str()) {
                            Some(sidx) => {
                                if scope[sidx].genvar {
                                    return Err(ElabError::UnsupportedConstruct);
                                }
                                bound = Some(scope[sidx].tensor);
                            },
                            None => {
                                return Err(ElabError::UnknownSignal { name: sig.0.clone() });
                            },
                        }
                    },
                    _ => {
                        return Err(ElabError::UnsupportedConstruct);
                    },
                }
            }
            b = b + 1;
        }
        match bound {
            Some(t) => {
                ins.push(t);
            },
            None => {
                return Err(ElabError::UnknownSignal { name: pname.clone() });
            },
        }
        j = j + 1;
    }
    // Output shapes, imported the same way.
    let mut out_shapes: Vec<Vec<ExprId>> = Vec::new();
    let nout = callee.outputs.len();
    let mut j2: usize = 0;
    while j2 < nout
        invariant
            m.wf(),
            grows(*old(m), *m),
            same_io(*old(m), *m),
            reg.wf(),
            (midx as int) < reg.modules@.len(),
            callee == reg.modules@[midx as int],
            nout == callee.outputs@.len(),
            j2 <= nout,
            forall|k: int|
                0 <= k < binds@.len() ==> ((#[trigger] binds@[k]).1 as int)
                    < m.exprs.nodes@.len(),
            forall|k: int|
                0 <= k < ins@.len() ==> ((#[trigger] ins@[k]) as int) < m.tensors@.len(),
            out_shapes@.len() == j2,
            crate::ir::shapes_ids_wf(out_shapes@, m.exprs.nodes@.len() as int),
            expected@.len() == ins@.len(),
        decreases nout - j2,
    {
        let ghost m_iter = *m;
        let pt = callee.outputs[j2].1;
        proof {
            assert(callee.wf());
            assert(crate::ir::tensor_wf(
                callee.tensors@[pt as int],
                callee.exprs.nodes@.len() as int,
                callee.ops@.len() as int,
            ));
        }
        let nshape = callee.tensors[pt].shape.len();
        let mut imported: Vec<ExprId> = Vec::new();
        let mut k: usize = 0;
        while k < nshape
            invariant
                m.wf(),
                grows(*old(m), *m),
                same_io(*old(m), *m),
                reg.wf(),
                (midx as int) < reg.modules@.len(),
                callee == reg.modules@[midx as int],
                (pt as int) < callee.tensors@.len(),
                nshape == callee.tensors@[pt as int].shape@.len(),
                k <= nshape,
                forall|k2: int|
                    0 <= k2 < binds@.len() ==> ((#[trigger] binds@[k2]).1 as int)
                        < m.exprs.nodes@.len(),
                imported@.len() == k,
                forall|k2: int|
                    0 <= k2 < k ==> ((#[trigger] imported@[k2]) as int) < m.exprs.nodes@.len(),
                m.exprs.extends(m_iter.exprs),
                m.tensors@ == m_iter.tensors@,
            decreases nshape - k,
        {
            let ghost m_pre = *m;
            proof {
                assert(callee.wf());
                assert(crate::ir::tensor_wf(
                    callee.tensors@[pt as int],
                    callee.exprs.nodes@.len() as int,
                    callee.ops@.len() as int,
                ));
            }
            let h = callee.tensors[pt].shape[k];
            let ih = match m.import_expr(&callee.exprs, h, &binds) {
                Ok(x) => x,
                Err(err) => {
                    return Err(err);
                },
            };
            imported.push(ih);
            proof {
                lemma_grows_trans(*old(m), m_pre, *m);
            }
            k = k + 1;
        }
        proof {
            assert(callee.tensors@[pt as int].shape@.len() >= 1);
            assert forall|jj: int| 0 <= jj < out_shapes@.len() implies ((
            #[trigger] out_shapes@[jj]@).len() >= 1 && (forall|k2: int|
                0 <= k2 < out_shapes@[jj]@.len() ==> ((#[trigger] out_shapes@[jj]@[k2]) as int)
                    < m.exprs.nodes@.len())) by {
                assert((out_shapes@[jj]@).len() >= 1 && (forall|k2: int|
                    0 <= k2 < out_shapes@[jj]@.len() ==> ((#[trigger] out_shapes@[jj]@[k2]) as int)
                        < m_iter.exprs.nodes@.len()));
            }
        }
        out_shapes.push(imported);
        j2 = j2 + 1;
    }
    let ghost m_pre2 = *m;
    let outs = match m.instantiate(midx, &expected, &out_shapes, ins) {
        Ok(o) => o,
        Err(err) => {
            return Err(err);
        },
    };
    proof {
        lemma_grows_trans(*old(m), m_pre2, *m);
    }
    // Bind each connected output port to its caller signal.
    let mut j3: usize = 0;
    while j3 < nout
        invariant
            m.wf(),
            grows(*old(m), *m),
            same_io(*old(m), *m),
            reg.wf(),
            scope_wf(scope@, m.tensors@.len() as int),
            (midx as int) < reg.modules@.len(),
            callee == reg.modules@[midx as int],
            nout == callee.outputs@.len(),
            j3 <= nout,
            outs@.len() == nout,
            forall|k: int|
                0 <= k < outs@.len() ==> ((#[trigger] outs@[k]) as int) < m.tensors@.len(),
        decreases nout - j3,
    {
        let pname = &callee.outputs[j3].0;
        let mut b: usize = 0;
        let nb = ports_set.len();
        while b < nb
            invariant
                m.wf(),
                grows(*old(m), *m),
                same_io(*old(m), *m),
                scope_wf(scope@, m.tensors@.len() as int),
                nb == ports_set@.len(),
                b <= nb,
                j3 < outs@.len(),
                forall|k: int|
                    0 <= k < outs@.len() ==> ((#[trigger] outs@[k]) as int) < m.tensors@.len(),
            decreases nb - b,
        {
            if ports_set[b].name.0 == *pname {
                match &ports_set[b].value {
                    ast::Expression::Identifier(sig) => {
                        match scope_find(scope, sig.0.as_str()) {
                            Some(sidx) => {
                                if scope[sidx].genvar {
                                    return Err(ElabError::UnsupportedConstruct);
                                }
                                if scope[sidx].assigned {
                                    return Err(
                                        ElabError::AlreadyAssigned { name: sig.0.clone() },
                                    );
                                }
                                let target = scope[sidx].tensor;
                                let out_t = outs[j3];
                                match crate::ir::first_shape_mismatch(
                                    &m.tensors[target].shape,
                                    &m.tensors[out_t].shape,
                                ) {
                                    None => {},
                                    Some((d, e, a)) => {
                                        return Err(
                                            ElabError::ShapeMismatch {
                                                dim: d,
                                                expected: e,
                                                actual: a,
                                            },
                                        );
                                    },
                                }
                                let rank = m.tensors[out_t].shape.len();
                                let strides = repeat_i64(1, rank);
                                let offsets = repeat_i64(0, rank);
                                m.add_bind(
                                    crate::ir::SignalBind { target, strides, offsets, source: out_t },
                                );
                                let entry = ScopeEntry {
                                    name: scope[sidx].name.clone(),
                                    tensor: scope[sidx].tensor,
                                    assigned: true,
                                    genvar: false,
                                };
                                scope[sidx] = entry;
                            },
                            None => {
                                return Err(ElabError::UnknownSignal { name: sig.0.clone() });
                            },
                        }
                    },
                    _ => {
                        return Err(ElabError::UnsupportedConstruct);
                    },
                }
            }
            b = b + 1;
        }
        j3 = j3 + 1;
    }
    Ok(())
}

/// Lowers one operand of a generate-for body: a bit-select whose index is
/// affine in the genvar becomes a strided view adding the loop dimension,
/// and a bitwise operator becomes a broadcast-map of its gate over that
/// dimension. Anything else fails with `UnsupportedGenerateForm`.
#[verifier::loop_isolation(false)]
fn lower_loop_expr(
    m: &mut Module,
    scope: &Vec<ScopeEntry>,
    ivar: &String,
    lo: i64,
    step: i64,
    extent_id: ExprId,
    e: &ast::Expression,
) -> (r: Result<TensorId, ElabError>)
    requires
        old(m).wf(),
        scope_wf(scope@, old(m).tensors@.len() as int),
        (extent_id as int) < old(m).exprs.nodes@.len(),
    ensures
        final(m).wf(),
        same_io(*old(m), *final(m)),
        r matches Err(e2) ==> !(e2 is DuplicateModule),
        grows(*old(m), *final(m)),
        r matches Ok(t) ==> (t as int) < final(m).tensors@.len(),
    decreases *e,
{
    match e {
        ast::Expression::Slice(base, range) => {
            let bt: TensorId = match &**base {
                ast::Expression::Identifier(id) => match scope_find(scope, id.0.as_str()) {
                    Some(i) => {
                        if scope[i].genvar {
                            return Err(ElabError::UnsupportedGenerateForm);
                        }
                        scope[i].tensor
                    },
                    None => {
                        return Err(ElabError::UnknownSignal { name: id.0.clone() });
                    },
                },
                _ => {
                    return Err(ElabError::UnsupportedGenerateForm);
                },
            };
            if m.tensors[bt].shape.len() != 1 {
                return Err(ElabError::UnsupportedGenerateForm);
            }
            match &range.end {
                None => {},
                Some(_) => {
                    return Err(ElabError::UnsupportedGenerateForm);
                },
            }
            let (a, b) = match affine_of(&range.start, ivar) {
                Ok(p) => p,
                Err(err) => {
                    return Err(err);
                },
            };
            // Loop coordinate `k` selects bit `a * (lo + k * step) + b`.
            let stride = match a.checked_mul(step) {
                Some(s) => s,
                None => {
                    return Err(ElabError::ArithmeticOverflow);
                },
            };
            let offset = match a.checked_mul(lo) {
                Some(x) => match x.checked_add(b) {
                    Some(o) => o,
                    None => {
                        return Err(ElabError::ArithmeticOverflow);
                    },
                },
                None => {
                    return Err(ElabError::ArithmeticOverflow);
                },
            };
            match (m.const_value(extent_id), m.const_value(m.tensors[bt].shape[0])) {
                (Some(ext), Some(be)) => {
                    if ext >= 0 && !crate::tensor::check_dim_within(ext, stride, offset, be) {
                        return Err(
                            ElabError::ShapeMismatch {
                                dim: 0,
                                expected: m.tensors[bt].shape[0],
                                actual: extent_id,
                            },
                        );
                    }
                },
                _ => {},
            }
            let mut shape: Vec<ExprId> = Vec::new();
            shape.push(extent_id);
            let mut strides: Vec<i64> = Vec::new();
            strides.push(stride);
            let mut offsets: Vec<i64> = Vec::new();
            offsets.push(offset);
            let v = TensorView { shape, strides, offsets, input: bt };
            Ok(m.add_view(v))
        },
        ast::Expression::BinaryBitOperation(l, op, rr) => {
            let lt = match lower_loop_expr(m, scope, ivar, lo, step, extent_id, l) {
                Ok(t) => t,
                Err(err) => {
                    return Err(err);
                },
            };
            let rt = match lower_loop_expr(m, scope, ivar, lo, step, extent_id, rr) {
                Ok(t) => t,
                Err(err) => {
                    return Err(err);
                },
            };
            let mut ins: Vec<TensorId> = Vec::new();
            ins.push(lt);
            ins.push(rt);
            m.map_gate(gate_of(*op), ins)
        },
        ast::Expression::UnaryBitOperation(op, x) => {
            let xt = match lower_loop_expr(m, scope, ivar, lo, step, extent_id, x) {
                Ok(t) => t,
                Err(err) => {
                    return Err(err);
                },
            };
            let mut ins: Vec<TensorId> = Vec::new();
            ins.push(xt);
            match op {
                ast::UnBitOp::Not => m.map_gate(GateKind::Not, ins),
            }
        },
        _ => Err(ElabError::UnsupportedGenerateForm),
    }
}

/// Lowers one assignment inside a generate-for body: the right-hand side
/// becomes a mapped tensor over the loop dimension and is bound to the
/// target through the affine map its index denotes.
#[verifier::loop_isolation(false)]
fn lower_loop_assign(
    m: &mut Module,
    scope: &mut Vec<ScopeEntry>,
    ivar: &String,
    lo: i64,
    step: i64,
    extent_id: ExprId,
    decl: &ast::AssignDecl,
) -> (r: Result<(), ElabError>)
    requires
        old(m).wf(),
        scope_wf(old(scope)@, old(m).tensors@.len() as int),
        (extent_id as int) < old(m).exprs.nodes@.len(),
    ensures
        final(m).wf(),
        same_io(*old(m), *final(m)),
        r matches Err(e2) ==> !(e2 is DuplicateModule),
        grows(*old(m), *final(m)),
        scope_wf(final(scope)@, final(m).tensors@.len() as int),
        (forall|j: int|
            0 <= j < old(scope)@.len() ==> (#[trigger] old(scope)@[j]).name@ != decl.name.0@)
            ==> r == Result::<(), ElabError>::Err(
            ElabError::UnknownSignal { name: decl.name.0 },
        ),
        forall|j: int|
            (0 <= j < old(scope)@.len() && (forall|j2: int|
                j < j2 < old(scope)@.len() ==> (#[trigger] old(scope)@[j2]).name@ != decl.name.0@)
                && ((#[trigger] old(scope)@[j]).name@ == decl.name.0@ && !old(scope)@[j].genvar
                && old(scope)@[j].assigned)) ==> r == Result::<(), ElabError>::Err(
                ElabError::AlreadyAssigned { name: decl.name.0 },
            ),
{
    let si = match scope_find(scope, decl.name.0.as_str()) {
        Some(i) => i,
        None => {
            return Err(ElabError::UnknownSignal { name: decl.name.0.clone() });
        },
    };
    if scope[si].genvar {
        return Err(ElabError::UnsupportedGenerateForm);
    }
    if scope[si].assigned {
        return Err(ElabError::AlreadyAssigned { name: decl.name.0.clone() });
    }
    let target = scope[si].tensor;
    let (ta, tb) = match &decl.width {
        Some(range) => {
            match &range.end {
                None => match affine_of(&range.start, ivar) {
                    Ok(p) => p,
                    Err(err) => {
                        return Err(err);
                    },
                },
                Some(_) => {
                    return Err(ElabError::UnsupportedGenerateForm);
                },
            }
        },
        None => {
            return Err(ElabError::UnsupportedGenerateForm);
        },
    };
    if m.tensors[target].shape.len() != 1 {
        return Err(ElabError::UnsupportedGenerateForm);
    }
    let src = match lower_loop_expr(m, scope, ivar, lo, step, extent_id, &decl.value) {
        Ok(t) => t,
        Err(err) => {
            return Err(err);
        },
    };
    if m.tensors[src].shape.len() != 1 {
        return Err(ElabError::UnsupportedGenerateForm);
    }
    let stride = match ta.checked_mul(step) {
        Some(s) => s,
        None => {
            return Err(ElabError::ArithmeticOverflow);
        },
    };
    let offset = match ta.checked_mul(lo) {
        Some(x) => match x.checked_add(tb) {
            Some(o) => o,
            None => {
                return Err(ElabError::ArithmeticOverflow);
            },
        },
        None => {
            return Err(ElabError::ArithmeticOverflow);
        },
    };
    match (m.const_value(extent_id), m.const_value(m.tensors[target].shape[0])) {
        (Some(ext), Some(te)) => {
            if ext >= 0 && !crate::tensor::check_dim_within(ext, stride, offset, te) {
                return Err(
                    ElabError::ShapeMismatch {
                        dim: 0,
                        expected: m.tensors[target].shape[0],
                        actual: extent_id,
                    },
                );
            }
        },
        _ => {},
    }
    let mut strides: Vec<i64> = Vec::new();
    strides.push(stride);
    let mut offsets: Vec<i64> = Vec::new();
    offsets.push(offset);
    m.add_bind(crate::ir::SignalBind { target, strides, offsets, source: src });
    Ok(())
}

/// Lowers a bounded generate-for without unrolling: the induction range and
/// step become parameter expressions, the body's assignments become
/// broadcast-maps over one new leading dimension of extent
/// `ceil((hi - lo) / step)`, and every reference to the genvar inside the
/// body is substituted symbolically through the affine view maps. A loop
/// whose header or body falls outside this form fails with
/// `UnsupportedGenerateForm`.
#[verifier::rlimit(60)]
#[verifier::loop_isolation(false)]
fn lower_for(
    m: &mut Module,
    scope: &mut Vec<ScopeEntry>,
    init: &ast::AssignDecl,
    cond: &ast::Expression,
    step: &ast::AssignDecl,
    body: &Vec<ast::Statement>,
) -> (r: Result<(), ElabError>)
    requires
        old(m).wf(),
        scope_wf(old(scope)@, old(m).tensors@.len() as int),
    ensures
        final(m).wf(),
        same_io(*old(m), *final(m)),
        r matches Err(e2) ==> !(e2 is DuplicateModule),
        grows(*old(m), *final(m)),
        scope_wf(final(scope)@, final(m).tensors@.len() as int),
        (forall|j: int|
            0 <= j < old(scope)@.len() ==> (#[trigger] old(scope)@[j]).name@ != init.name.0@)
            ==> r == Result::<(), ElabError>::Err(ElabError::UnsupportedGenerateForm),
{
    let ivar: &String = &init.name.0;
    match scope_find(scope, ivar.as_str()) {
        Some(i) => {
            if !scope[i].genvar {
                return Err(ElabError::UnsupportedGenerateForm);
            }
        },
        None => {
            return Err(ElabError::UnsupportedGenerateForm);
        },
    }
    // Lower bound: a constant parameter expression.
    let lo_id = match m.lower_param_expr(&init.value) {
        Ok(h) => h,
        Err(err) => {
            return Err(err);
        },
    };
    let lo = match m.const_value(lo_id) {
        Some(v) => v,
        None => {
            return Err(ElabError::UnsupportedGenerateForm);
        },
    };
    // Condition: `ivar < hi`.
    let hi_id = match cond {
        ast::Expression::RelationalOperation(l, ast::RelOp::Lt, rr) => {
            match &**l {
                ast::Expression::Identifier(id) => {
                    if !(id.0 == *ivar) {
                        return Err(ElabError::UnsupportedGenerateForm);
                    }
                },
                _ => {
                    return Err(ElabError::UnsupportedGenerateForm);
                },
            }
            match m.lower_param_expr(rr) {
                Ok(h) => h,
                Err(err) => {
                    return Err(err);
                },
            }
        },
        _ => {
            return Err(ElabError::UnsupportedGenerateForm);
        },
    };
    // Step: `ivar = ivar + c` with constant positive `c`.
    if !(step.name.0 == *ivar) {
        return Err(ElabError::UnsupportedGenerateForm);
    }
    let c: i64 = match &step.value {
        ast::Expression::BinaryArithmeticOperation(l, ast::BinArithOp::Add, rr) => {
            let l_is_ivar: bool = match &**l {
                ast::Expression::Identifier(id) => id.0 == *ivar,
                _ => false,
            };
            let r_is_ivar: bool = match &**rr {
                ast::Expression::Identifier(id) => id.0 == *ivar,
                _ => false,
            };
            let c_expr: &ast::Expression = if l_is_ivar {
                &**rr
            } else if r_is_ivar {
                &**l
            } else {
                return Err(ElabError::UnsupportedGenerateForm);
            };
            let c_id = match m.lower_param_expr(c_expr) {
                Ok(h) => h,
                Err(err) => {
                    return Err(err);
                },
            };
            match m.const_value(c_id) {
                Some(v) => v,
                None => {
                    return Err(ElabError::UnsupportedGenerateForm);
                },
            }
        },
        _ => {
            return Err(ElabError::UnsupportedGenerateForm);
        },
    };
    if c <= 0 {
        return Err(ElabError::UnsupportedGenerateForm);
    }
    // Extent: ceil((hi - lo) / c), simplified when lo = 0 and c = 1.
    let extent_id: ExprId = if lo == 0 && c == 1 {
        hi_id
    } else {
        let diff = match m.combine_arith(ast::BinArithOp::Sub, hi_id, lo_id) {
            Ok(d) => d,
            Err(err) => {
                return Err(err);
            },
        };
        if c == 1 {
            diff
        } else {
            let cm1 = m.get_param_const(c - 1);
            let num = match m.combine_arith(ast::BinArithOp::Add, diff, cm1) {
                Ok(x) => x,
                Err(err) => {
                    return Err(err);
                },
            };
            let c_id2 = m.get_param_const(c);
            match m.combine_arith(ast::BinArithOp::Div, num, c_id2) {
                Ok(x) => x,
                Err(err) => {
                    return Err(err);
                },
            }
        }
    };
    // Body: assignments only, each becoming one broadcast-map.
    let nb = body.len();
    let mut s: usize = 0;
    while s < nb
        invariant
            m.wf(),
            grows(*old(m), *m),
            same_io(*old(m), *m),
            scope_wf(scope@, m.tensors@.len() as int),
            (extent_id as int) < m.exprs.nodes@.len(),
            nb == body@.len(),
            s <= nb,
        decreases nb - s,
    {
        let ghost m_pre = *m;
        match &body[s] {
            ast::Statement::Assign(decl) => {
                match lower_loop_assign(m, scope, ivar, lo, c, extent_id, decl) {
                    Ok(()) => {},
                    Err(err) => {
                        return Err(err);
                    },
                }
            },
            _ => {
                return Err(ElabError::UnsupportedGenerateForm);
            },
        }
        proof {
            lemma_grows_trans(*old(m), m_pre, *m);
        }
        s = s + 1;
    }
    Ok(())
}

/// Lowers one body statement, dispatching by kind. Declarations extend the
/// scope; a generate block is a transparent scope with no operator of its
/// own; any statement outside the supported set fails with
/// `UnsupportedConstruct`.
#[verifier::loop_isolation(false)]
fn lower_statement(
    m: &mut Module,
    scope: &mut Vec<ScopeEntry>,
    reg: &Registry,
    stmt: &ast::Statement,
) -> (r: Result<(), ElabError>)
    requires
        old(m).wf(),
        reg.wf(),
        scope_wf(old(scope)@, old(m).tensors@.len() as int),
    ensures
        final(m).wf(),
        r matches Err(e2) ==> !(e2 is DuplicateModule),
        grows(*old(m), *final(m)),
        scope_wf(final(scope)@, final(m).tensors@.len() as int),
        r is Ok ==> registers_ports(
            *old(m),
            *final(m),
            stmt_port_names(*stmt, true),
            stmt_port_names(*stmt, false),
        ),
    decreases *stmt, 1int,
{
    match stmt {
        ast::Statement::Wire { name, width: _, init, io: _ } => {
            match init {
                Some(_) => {
                    return Err(ElabError::UnsupportedConstruct);
                },
                None => {},
            }
            let t = match m.extract_ports(stmt) {
                Ok(Some(t)) => t,
                Ok(None) => {
                    return Err(ElabError::UnsupportedConstruct);
                },
                Err(err) => {
                    return Err(err);
                },
            };
            scope.push(
                ScopeEntry { name: name.0.clone(), tensor: t, assigned: false, genvar: false },
            );
            Ok(())
        },
        ast::Statement::Assign(decl) => lower_assign(m, scope, decl),
        ast::Statement::Instance { name: _, module, params_set, ports_set } => lower_instance(
            m,
            scope,
            reg,
            module,
            params_set,
            ports_set,
        ),
        ast::Statement::Genvar(id) => {
            scope.push(ScopeEntry { name: id.0.clone(), tensor: 0, assigned: false, genvar: true });
            Ok(())
        },
        ast::Statement::Generate(stmts) => {
            let mark = scope.len();
            match lower_statements(m, scope, reg, stmts) {
                Ok(()) => {},
                Err(err) => {
                    return Err(err);
                },
            }
            scope.truncate(mark);
            Ok(())
        },
        ast::Statement::For { name: _, init, cond, step, body } => lower_for(
            m,
            scope,
            init,
            cond,
            step,
            body,
        ),
    }
}

/// Lowers a statement list in declaration order.
#[verifier::loop_isolation(false)]
fn lower_statements(
    m: &mut Module,
    scope: &mut Vec<ScopeEntry>,
    reg: &Registry,
    stmts: &Vec<ast::Statement>,
) -> (r: Result<(), ElabError>)
    requires
        old(m).wf(),
        reg.wf(),
        scope_wf(old(scope)@, old(m).tensors@.len() as int),
    ensures
        final(m).wf(),
        r matches Err(e2) ==> !(e2 is DuplicateModule),
        grows(*old(m), *final(m)),
        scope_wf(final(scope)@, final(m).tensors@.len() as int),
        r is Ok ==> registers_ports(
            *old(m),
            *final(m),
            body_port_names(stmts@, true),
            body_port_names(stmts@, false),
        ),
        stmts@.len() == 0 ==> r is Ok,
    decreases *stmts, 0int,
{
    let n = stmts.len();
    let mut i: usize = 0;
    while i < n
        invariant
            m.wf(),
            grows(*old(m), *m),
            scope_wf(scope@, m.tensors@.len() as int),
            n == stmts@.len(),
            i <= n,
            registers_ports(
                *old(m),
                *m,
                body_port_names(stmts@.take(i as int), true),
                body_port_names(stmts@.take(i as int), false),
            ),
        decreases n - i,
    {
        let ghost m_pre = *m;
        proof {
            assert(decreases_to!(*stmts => stmts@[i as int]));
        }
        match lower_statement(m, scope, reg, &stmts[i]) {
            Ok(()) => {},
            Err(err) => {
                return Err(err);
            },
        }
        proof {
            lemma_grows_trans(*old(m), m_pre, *m);
            lemma_port_names_take(stmts@, i as int, true);
            lemma_port_names_take(stmts@, i as int, false);
            lemma_registers_ports_trans(
                *old(m),
                m_pre,
                *m,
                body_port_names(stmts@.take(i as int), true),
                body_port_names(stmts@.take(i as int), false),
                stmt_port_names(stmts@[i as int], true),
                stmt_port_names(stmts@[i as int], false),
            );
        }
        i = i + 1;
    }
    proof {
        assert(stmts@.take(n as int) =~= stmts@);
    }
    Ok(())
}

impl Module {
    /// The lowering pass: registers each module parameter, then walks the
    /// body statements in declaration order, building the module's tensors,
    /// views, operators and binds. Instances are resolved against the given
    /// registry of already-elaborated modules. On success the module is
    /// well-formed, keeps the source module's name, carries one parameter,
    /// in order, per declared parameter, and its input and output maps hold
    /// exactly the names of the body's directed wire declarations, in
    /// declaration order.
    #[verifier::loop_isolation(false)]
    pub fn with_ast_module(ast_module: &ast::Module, registry: &Registry) -> (r: Result<
        Module,
        ElabError,
    >)
        requires
            registry.wf(),
        ensures
            r matches Err(e2) ==> !(e2 is DuplicateModule),
            ast_module.body@.len() == 0 ==> r is Ok,
            r matches Ok(m) ==> (m.wf() && m.name@ == ast_module.name.0@ && m.params@.len()
                == ast_module.params@.len() && (forall|p: int|
                0 <= p < m.params@.len() ==> (#[trigger] m.params@[p]).name@
                    == ast_module.params@[p].name.0@)),
            r matches Ok(m) ==> (m.inputs@.len() == body_port_names(ast_module.body@, true).len()
                && (forall|k: int|
                0 <= k < m.inputs@.len() ==> ((#[trigger] m.inputs@[k]).0)@ == body_port_names(
                    ast_module.body@,
                    true,
                )[k]) && m.outputs@.len() == body_port_names(ast_module.body@, false).len() && (
            forall|k: int|
                0 <= k < m.outputs@.len() ==> ((#[trigger] m.outputs@[k]).0)@ == body_port_names(
                    ast_module.body@,
                    false,
                )[k])),
    {
        let mut m = Module::new(ast_module.name.0.as_str());
        let np = ast_module.params.len();
        let mut p: usize = 0;
        while p < np
            invariant
                m.wf(),
                m.name@ == ast_module.name.0@,
                m.inputs@.len() == 0,
                m.outputs@.len() == 0,
                np == ast_module.params@.len(),
                p <= np,
                m.params@.len() == p,
                forall|k: int|
                    0 <= k < p ==> (#[trigger] m.params@[k]).name@
                        == ast_module.params@[k].name.0@,
            decreases np - p,
        {
            let ghost m_pre = m;
            let pr = m.add_param(ast_module.params[p].name.0.clone());
            proof {
                assert(m.params@[p as int].name@ == ast_module.params@[p as int].name.0@);
                assert forall|k: int| 0 <= k < p as int implies (#[trigger] m.params@[k]).name@
                    == ast_module.params@[k].name.0@ by {
                    assert(m.params@[k] == m_pre.params@[k]);
                    assert(m_pre.params@[k].name@ == ast_module.params@[k].name.0@);
                }
            }
            p = p + 1;
        }
        let mut scope: Vec<ScopeEntry> = Vec::new();
        let ghost m_before = m;
        match lower_statements(&mut m, &mut scope, registry, &ast_module.body) {
            Ok(()) => {},
            Err(err) => {
                return Err(err);
            },
        }
        proof {
            assert forall|k: int| 0 <= k < m.inputs@.len() implies ((#[trigger] m.inputs@[k]).0)@
                == body_port_names(ast_module.body@, true)[k] by {
                assert(((m.inputs@[m_before.inputs@.len() + k]).0)@ == body_port_names(
                    ast_module.body@,
                    true,
                )[k]);
                assert(m_before.inputs@.len() + k == k);
            }
            assert forall|k: int|
                0 <= k < m.outputs@.len() implies ((#[trigger] m.outputs@[k]).0)@
                == body_port_names(ast_module.body@, false)[k] by {
                assert(((m.outputs@[m_before.outputs@.len() + k]).0)@ == body_port_names(
                    ast_module.body@,
                    false,
                )[k]);
                assert(m_before.outputs@.len() + k == k);
            }
        }
        Ok(m)
    }
}

/// Elaborates a translation unit, module by module, in declaration order:
/// each finished module is registered by name before the next begins, so an
/// instance may only reference modules defined earlier. A second module of
/// a name already registered aborts the whole unit with `DuplicateModule`
/// before any IR is built for it; any elaboration error likewise aborts the
/// unit, and no partial registry is returned.
#[verifier::loop_isolation(false)]
pub fn elaborate_unit(unit: &ast::TranslationUnit) -> (r: Result<Registry, ElabError>)
    ensures
        r matches Ok(reg) ==> (reg.wf() && reg.modules@.len() == unit.modules@.len() && (forall|
            i: int,
        |
            0 <= i < reg.modules@.len() ==> (#[trigger] reg.modules@[i]).name@
                == unit.modules@[i].name.0@) && (forall|i: int, j: int|
            0 <= i < j < unit.modules@.len() ==> (#[trigger] unit.modules@[i].name.0)@ != (
            #[trigger] unit.modules@[j].name.0)@)),
        (exists|i: int, j: int|
            0 <= i < j < unit.modules@.len() && (#[trigger] unit.modules@[i].name.0)@ == (
            #[trigger] unit.modules@[j].name.0)@) ==> r is Err,
        r matches Err(ElabError::DuplicateModule { name }) ==> (exists|i: int, j: int|
            0 <= i < j < unit.modules@.len() && (#[trigger] unit.modules@[i].name.0)@ == (
            #[trigger] unit.modules@[j].name.0)@ && name@ == unit.modules@[j].name.0@),
        ((forall|i: int, j: int|
            0 <= i < j < unit.modules@.len() ==> (#[trigger] unit.modules@[i].name.0)@ != (
            #[trigger] unit.modules@[j].name.0)@) && (forall|i: int|
            0 <= i < unit.modules@.len() ==> (#[trigger] unit.modules@[i]).body@.len() == 0))
            ==> r is Ok,
{
    let n = unit.modules.len();
    let mut reg = Registry::new();
    let mut i: usize = 0;
    while i < n
        invariant
            reg.wf(),
            n == unit.modules@.len(),
            i <= n,
            reg.modules@.len() == i,
            forall|k: int|
                0 <= k < i ==> (#[trigger] reg.modules@[k]).name@ == unit.modules@[k].name.0@,
            forall|k1: int, k2: int|
                0 <= k1 < k2 < i ==> (#[trigger] unit.modules@[k1].name.0)@ != (
                #[trigger] unit.modules@[k2].name.0)@,
        decreases n - i,
    {
        let name = unit.modules[i].name.0.as_str();
        match reg.find(name) {
            Some(k) => {
                proof {
                    assert(reg.modules@[k as int].name@ == unit.modules@[k as int].name.0@);
                    assert((unit.modules@[k as int].name.0)@ == (unit.modules@[i as int].name.0)@);
                }
                return Err(ElabError::DuplicateModule { name: name.to_owned() });
            },
            None => {},
        }
        proof {
            assert forall|k1: int|
                0 <= k1 < i as int implies (unit.modules@[k1].name.0)@ != (unit.modules@[
                i as int].name.0)@ by {
                assert(reg.modules@[k1].name@ == unit.modules@[k1].name.0@);
                assert(reg.modules@[k1].name@ != name@);
            }
        }
        let m = match Module::with_ast_module(&unit.modules[i], &reg) {
            Ok(m) => m,
            Err(err) => {
                return Err(err);
            },
        };
        reg.modules.push(m);
        i = i + 1;
    }
    Ok(reg)
}

} // verus!
