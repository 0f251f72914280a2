//! Hash-consed symbolic arithmetic over named parameters and integers.
//!
//! Expressions live in a per-module arena (`ExprArena`), the module's
//! canonicalization table. A node's operands are handles (indices) into the
//! same arena, and construction deduplicates: building a node from the same
//! operator and the same canonical operand handles returns the existing
//! handle. Structural equality of expressions therefore coincides with
//! handle identity, which `lemma_hash_consing` states and proves.

use vstd::prelude::*;
use crate::error::ElabError;

verus! {

/// A handle into a module's expression arena.
pub type ExprId = usize;

/// One immutable symbolic term. Operands are canonical handles into the
/// arena that owns the node.
#[derive(Debug, Clone, PartialEq, Eq, Hash)]
pub enum ParameterExpression {
    Constant(i64),
    Parameter(String),
    Add(ExprId, ExprId),
    Sub(ExprId, ExprId),
    Mul(ExprId, ExprId),
    Div(ExprId, ExprId),
    Mod(ExprId, ExprId),
}

/// Structural equality of two nodes: same operator, equal payloads.
/// Since operands are canonical handles, this is full structural equality
/// of the expressions the nodes head.
pub open spec fn node_eq(a: ParameterExpression, b: ParameterExpression) -> bool {
    match (a, b) {
        (ParameterExpression::Constant(x), ParameterExpression::Constant(y)) => x == y,
        (ParameterExpression::Parameter(x), ParameterExpression::Parameter(y)) => x@ == y@,
        (ParameterExpression::Add(x1, y1), ParameterExpression::Add(x2, y2)) => x1 == x2 && y1
            == y2,
        (ParameterExpression::Sub(x1, y1), ParameterExpression::Sub(x2, y2)) => x1 == x2 && y1
            == y2,
        (ParameterExpression::Mul(x1, y1), ParameterExpression::Mul(x2, y2)) => x1 == x2 && y1
            == y2,
        (ParameterExpression::Div(x1, y1), ParameterExpression::Div(x2, y2)) => x1 == x2 && y1
            == y2,
        (ParameterExpression::Mod(x1, y1), ParameterExpression::Mod(x2, y2)) => x1 == x2 && y1
            == y2,
        _ => false,
    }
}

pub proof fn lemma_node_eq_sym(a: ParameterExpression, b: ParameterExpression)
    ensures
        node_eq(a, b) == node_eq(b, a),
{
}

/// Whether every operand handle of `n` lies below `bound`.
pub open spec fn node_operands_lt(n: ParameterExpression, bound: int) -> bool {
    match n {
        ParameterExpression::Constant(_) => true,
        ParameterExpression::Parameter(_) => true,
        ParameterExpression::Add(a, b) => (a as int) < bound && (b as int) < bound,
        ParameterExpression::Sub(a, b) => (a as int) < bound && (b as int) < bound,
        ParameterExpression::Mul(a, b) => (a as int) < bound && (b as int) < bound,
        ParameterExpression::Div(a, b) => (a as int) < bound && (b as int) < bound,
        ParameterExpression::Mod(a, b) => (a as int) < bound && (b as int) < bound,
    }
}

/// The constant a handle names, if it names one.
pub open spec fn const_of(nodes: Seq<ParameterExpression>, i: int) -> Option<i64> {
    if 0 <= i < nodes.len() {
        match nodes[i] {
            ParameterExpression::Constant(v) => Some(v),
            _ => None,
        }
    } else {
        None
    }
}

/// Whether handle `i` names the literal constant zero in `nodes`.
pub open spec fn is_zero_const(nodes: Seq<ParameterExpression>, i: int) -> bool {
    0 <= i < nodes.len() && nodes[i] == ParameterExpression::Constant(0i64)
}

/// A div/mod node never carries a divisor that is the literal constant zero;
/// such a divisor is rejected when the node is constructed.
pub open spec fn node_div_ok(n: ParameterExpression, nodes: Seq<ParameterExpression>) -> bool {
    match n {
        ParameterExpression::Div(_, b) => !is_zero_const(nodes, b as int),
        ParameterExpression::Mod(_, b) => !is_zero_const(nodes, b as int),
        _ => true,
    }
}

/// A module's expression arena: the canonicalization table that owns all of
/// the module's `ParameterExpression` nodes.
#[derive(Debug, Clone)]
pub struct ExprArena {
    pub nodes: Vec<ParameterExpression>,
}

impl ExprArena {
    /// Well-formedness: no two distinct handles hold structurally equal
    /// nodes, operands precede the nodes that use them, and no div/mod
    /// node divides by a literal constant zero.
    pub open spec fn wf(self) -> bool {
        &&& forall|i: int, j: int|
            0 <= i < self.nodes@.len() && 0 <= j < self.nodes@.len() && i != j ==> !#[trigger] node_eq(
                self.nodes@[i],
                self.nodes@[j],
            )
        &&& forall|i: int|
            0 <= i < self.nodes@.len() ==> node_operands_lt(#[trigger] self.nodes@[i], i)
        &&& forall|i: int|
            0 <= i < self.nodes@.len() ==> node_div_ok(#[trigger] self.nodes@[i], self.nodes@)
    }

    /// Whether `self` preserves every node of `prior` under the same handles.
    pub open spec fn extends(self, prior: ExprArena) -> bool {
        &&& prior.nodes@.len() <= self.nodes@.len()
        &&& forall|k: int|
            0 <= k < prior.nodes@.len() ==> self.nodes@[k] == #[trigger] prior.nodes@[k]
    }

    pub fn new() -> (r: ExprArena)
        ensures
            r.wf(),
            r.nodes@.len() == 0,
    {
        ExprArena { nodes: Vec::new() }
    }

    pub fn len(&self) -> (r: usize)
        ensures
            r == self.nodes@.len(),
    {
        self.nodes.len()
    }

    /// Looks a candidate node up by structural equality.
    pub fn find(&self, n: &ParameterExpression) -> (r: Option<ExprId>)
        ensures
            match r {
                Some(i) => (i as int) < self.nodes@.len() && node_eq(self.nodes@[i as int], *n),
                None => forall|k: int|
                    0 <= k < self.nodes@.len() ==> !node_eq(#[trigger] self.nodes@[k], *n),
            },
    {
        let mut i: usize = 0;
        while i < self.nodes.len()
            invariant
                i <= self.nodes@.len(),
                forall|k: int| 0 <= k < i ==> !node_eq(#[trigger] self.nodes@[k], *n),
            decreases self.nodes@.len() - i,
        {
            if Self::node_matches(&self.nodes[i], n) {
                return Some(i);
            }
            i = i + 1;
        }
        None
    }

    /// Structural equality of two nodes, decided at run time.
    fn node_matches(a: &ParameterExpression, b: &ParameterExpression) -> (r: bool)
        ensures
            r == node_eq(*a, *b),
    {
        match a {
            ParameterExpression::Constant(x) => match b {
                ParameterExpression::Constant(y) => *x == *y,
                _ => false,
            },
            ParameterExpression::Parameter(x) => match b {
                ParameterExpression::Parameter(y) => *x == *y,
                _ => false,
            },
            ParameterExpression::Add(x1, y1) => match b {
                ParameterExpression::Add(x2, y2) => *x1 == *x2 && *y1 == *y2,
                _ => false,
            },
            ParameterExpression::Sub(x1, y1) => match b {
                ParameterExpression::Sub(x2, y2) => *x1 == *x2 && *y1 == *y2,
                _ => false,
            },
            ParameterExpression::Mul(x1, y1) => match b {
                ParameterExpression::Mul(x2, y2) => *x1 == *x2 && *y1 == *y2,
                _ => false,
            },
            ParameterExpression::Div(x1, y1) => match b {
                ParameterExpression::Div(x2, y2) => *x1 == *x2 && *y1 == *y2,
                _ => false,
            },
            ParameterExpression::Mod(x1, y1) => match b {
                ParameterExpression::Mod(x2, y2) => *x1 == *x2 && *y1 == *y2,
                _ => false,
            },
        }
    }

    /// Returns the handle of a node structurally equal to `n`, inserting `n`
    /// only if no such node exists yet.
    fn intern(&mut self, n: ParameterExpression) -> (r: ExprId)
        requires
            old(self).wf(),
            node_operands_lt(n, old(self).nodes@.len() as int),
            node_div_ok(n, old(self).nodes@),
        ensures
            final(self).wf(),
            final(self).extends(*old(self)),
            (r as int) < final(self).nodes@.len(),
            node_eq(final(self).nodes@[r as int], n),
            (exists|k: int|
                0 <= k < old(self).nodes@.len() && node_eq(
                    #[trigger] old(self).nodes@[k],
                    n,
                )) ==> final(self).nodes@ == old(self).nodes@,
            !(exists|k: int|
                0 <= k < old(self).nodes@.len() && node_eq(#[trigger] old(self).nodes@[k], n))
                ==> final(self).nodes@ == old(self).nodes@.push(n) && r as int == old(
                self,
            ).nodes@.len(),
    {
        match self.find(&n) {
            Some(i) => i,
            None => {
                let id = self.nodes.len();
                let ghost prior = self.nodes@;
                self.nodes.push(n);
                proof {
                    assert forall|i: int, j: int|
                        0 <= i < self.nodes@.len() && 0 <= j < self.nodes@.len() && i
                            != j implies !#[trigger] node_eq(self.nodes@[i], self.nodes@[j]) by {
                        lemma_node_eq_sym(self.nodes@[i], self.nodes@[j]);
                    }
                    assert forall|i: int|
                        0 <= i < self.nodes@.len() implies node_div_ok(
                        #[trigger] self.nodes@[i],
                        self.nodes@,
                    ) by {
                        if i < prior.len() {
                            assert(node_div_ok(prior[i], prior));
                            assert(node_operands_lt(prior[i], i));
                        }
                    }
                }
                id
            },
        }
    }

    /// Canonical handle for an integer constant.
    pub fn mk_constant(&mut self, v: i64) -> (r: ExprId)
        requires
            old(self).wf(),
        ensures
            final(self).wf(),
            final(self).extends(*old(self)),
            (r as int) < final(self).nodes@.len(),
            final(self).nodes@[r as int] == ParameterExpression::Constant(v),
            (exists|k: int|
                0 <= k < old(self).nodes@.len() && #[trigger] old(self).nodes@[k]
                    == ParameterExpression::Constant(v)) ==> final(self).nodes@ == old(
                self,
            ).nodes@,
            !(exists|k: int|
                0 <= k < old(self).nodes@.len() && #[trigger] old(self).nodes@[k]
                    == ParameterExpression::Constant(v)) ==> (final(self).nodes@ == old(
                self,
            ).nodes@.push(ParameterExpression::Constant(v)) && r as int == old(
                self,
            ).nodes@.len()),
    {
        let r = self.intern(ParameterExpression::Constant(v));
        r
    }

    /// Canonical handle for a reference to a named parameter.
    pub fn mk_parameter(&mut self, name: String) -> (r: ExprId)
        requires
            old(self).wf(),
        ensures
            final(self).wf(),
            final(self).extends(*old(self)),
            (r as int) < final(self).nodes@.len(),
            final(self).nodes@[r as int] matches ParameterExpression::Parameter(s) && s@ == name@,
            (exists|k: int|
                0 <= k < old(self).nodes@.len() && ((#[trigger] old(self).nodes@[k]) matches
                    ParameterExpression::Parameter(s2) && s2@ == name@)) ==> final(self).nodes@
                == old(self).nodes@,
            !(exists|k: int|
                0 <= k < old(self).nodes@.len() && ((#[trigger] old(self).nodes@[k]) matches
                    ParameterExpression::Parameter(s2) && s2@ == name@)) ==> (final(self).nodes@
                == old(self).nodes@.push(ParameterExpression::Parameter(name)) && r as int == old(
                self,
            ).nodes@.len()),
    {
        let r = self.intern(ParameterExpression::Parameter(name));
        r
    }

    /// Canonical handle for `a + b`.
    pub fn mk_add(&mut self, a: ExprId, b: ExprId) -> (r: ExprId)
        requires
            old(self).wf(),
            (a as int) < old(self).nodes@.len(),
            (b as int) < old(self).nodes@.len(),
        ensures
            final(self).wf(),
            final(self).extends(*old(self)),
            (r as int) < final(self).nodes@.len(),
            final(self).nodes@[r as int] == ParameterExpression::Add(a, b),
            (exists|k: int|
                0 <= k < old(self).nodes@.len() && #[trigger] old(self).nodes@[k]
                    == ParameterExpression::Add(a, b)) ==> final(self).nodes@ == old(self).nodes@,
            !(exists|k: int|
                0 <= k < old(self).nodes@.len() && #[trigger] old(self).nodes@[k]
                    == ParameterExpression::Add(a, b)) ==> (final(self).nodes@ == old(
                self,
            ).nodes@.push(ParameterExpression::Add(a, b)) && r as int == old(self).nodes@.len()),
    {
        self.intern(ParameterExpression::Add(a, b))
    }

    /// Canonical handle for `a - b`.
    pub fn mk_sub(&mut self, a: ExprId, b: ExprId) -> (r: ExprId)
        requires
            old(self).wf(),
            (a as int) < old(self).nodes@.len(),
            (b as int) < old(self).nodes@.len(),
        ensures
            final(self).wf(),
            final(self).extends(*old(self)),
            (r as int) < final(self).nodes@.len(),
            final(self).nodes@[r as int] == ParameterExpression::Sub(a, b),
            (exists|k: int|
                0 <= k < old(self).nodes@.len() && #[trigger] old(self).nodes@[k]
                    == ParameterExpression::Sub(a, b)) ==> final(self).nodes@ == old(self).nodes@,
            !(exists|k: int|
                0 <= k < old(self).nodes@.len() && #[trigger] old(self).nodes@[k]
                    == ParameterExpression::Sub(a, b)) ==> (final(self).nodes@ == old(
                self,
            ).nodes@.push(ParameterExpression::Sub(a, b)) && r as int == old(self).nodes@.len()),
    {
        self.intern(ParameterExpression::Sub(a, b))
    }

    /// Canonical handle for `a * b`.
    pub fn mk_mul(&mut self, a: ExprId, b: ExprId) -> (r: ExprId)
        requires
            old(self).wf(),
            (a as int) < old(self).nodes@.len(),
            (b as int) < old(self).nodes@.len(),
        ensures
            final(self).wf(),
            final(self).extends(*old(self)),
            (r as int) < final(self).nodes@.len(),
            final(self).nodes@[r as int] == ParameterExpression::Mul(a, b),
            (exists|k: int|
                0 <= k < old(self).nodes@.len() && #[trigger] old(self).nodes@[k]
                    == ParameterExpression::Mul(a, b)) ==> final(self).nodes@ == old(self).nodes@,
            !(exists|k: int|
                0 <= k < old(self).nodes@.len() && #[trigger] old(self).nodes@[k]
                    == ParameterExpression::Mul(a, b)) ==> (final(self).nodes@ == old(
                self,
            ).nodes@.push(ParameterExpression::Mul(a, b)) && r as int == old(self).nodes@.len()),
    {
        self.intern(ParameterExpression::Mul(a, b))
    }

    /// Whether handle `e` names the literal constant zero.
    pub fn const_zero(&self, e: ExprId) -> (r: bool)
        requires
            (e as int) < self.nodes@.len(),
        ensures
            r == is_zero_const(self.nodes@, e as int),
    {
        match &self.nodes[e] {
            ParameterExpression::Constant(v) => *v == 0,
            _ => false,
        }
    }

    /// Canonical handle for `a / b`. A divisor that is the literal constant
    /// zero is rejected here, at construction time.
    pub fn mk_div(&mut self, a: ExprId, b: ExprId) -> (r: Result<ExprId, ElabError>)
        requires
            old(self).wf(),
            (a as int) < old(self).nodes@.len(),
            (b as int) < old(self).nodes@.len(),
        ensures
            final(self).wf(),
            final(self).extends(*old(self)),
            is_zero_const(old(self).nodes@, b as int) ==> r == Result::<
                ExprId,
                ElabError,
            >::Err(ElabError::DivisionByZero) && final(self).nodes@ == old(self).nodes@,
            !is_zero_const(old(self).nodes@, b as int) ==> (r matches Ok(id) && (id as int)
                < final(self).nodes@.len() && final(self).nodes@[id as int] == ParameterExpression::Div(a, b)),
            (!is_zero_const(old(self).nodes@, b as int) && (exists|k: int|
                0 <= k < old(self).nodes@.len() && #[trigger] old(self).nodes@[k]
                    == ParameterExpression::Div(a, b))) ==> final(self).nodes@ == old(self).nodes@,
            (!is_zero_const(old(self).nodes@, b as int) && !(exists|k: int|
                0 <= k < old(self).nodes@.len() && #[trigger] old(self).nodes@[k]
                    == ParameterExpression::Div(a, b))) ==> (final(self).nodes@ == old(
                self,
            ).nodes@.push(ParameterExpression::Div(a, b)) && (r matches Ok(id) && id as int == old(
                self,
            ).nodes@.len())),
    {
        if self.const_zero(b) {
            Err(ElabError::DivisionByZero)
        } else {
            Ok(self.intern(ParameterExpression::Div(a, b)))
        }
    }

    /// Canonical handle for `a % b`, with the same construction-time check
    /// as `mk_div`.
    pub fn mk_mod(&mut self, a: ExprId, b: ExprId) -> (r: Result<ExprId, ElabError>)
        requires
            old(self).wf(),
            (a as int) < old(self).nodes@.len(),
            (b as int) < old(self).nodes@.len(),
        ensures
            final(self).wf(),
            final(self).extends(*old(self)),
            is_zero_const(old(self).nodes@, b as int) ==> r == Result::<
                ExprId,
                ElabError,
            >::Err(ElabError::DivisionByZero) && final(self).nodes@ == old(self).nodes@,
            !is_zero_const(old(self).nodes@, b as int) ==> (r matches Ok(id) && (id as int)
                < final(self).nodes@.len() && final(self).nodes@[id as int] == ParameterExpression::Mod(a, b)),
            (!is_zero_const(old(self).nodes@, b as int) && (exists|k: int|
                0 <= k < old(self).nodes@.len() && #[trigger] old(self).nodes@[k]
                    == ParameterExpression::Mod(a, b))) ==> final(self).nodes@ == old(self).nodes@,
            (!is_zero_const(old(self).nodes@, b as int) && !(exists|k: int|
                0 <= k < old(self).nodes@.len() && #[trigger] old(self).nodes@[k]
                    == ParameterExpression::Mod(a, b))) ==> (final(self).nodes@ == old(
                self,
            ).nodes@.push(ParameterExpression::Mod(a, b)) && (r matches Ok(id) && id as int == old(
                self,
            ).nodes@.len())),
    {
        if self.const_zero(b) {
            Err(ElabError::DivisionByZero)
        } else {
            Ok(self.intern(ParameterExpression::Mod(a, b)))
        }
    }
}

/// Hash-consing law: in a well-formed arena, two handles holding
/// structurally equal nodes are the same handle. Together with the
/// constructors' contracts (which pin the node each returned handle holds)
/// this says that any two construction calls with the same operator and
/// structurally equal operands return identical handles.
pub proof fn lemma_hash_consing(a: ExprArena, i: ExprId, j: ExprId)
    requires
        a.wf(),
        (i as int) < a.nodes@.len(),
        (j as int) < a.nodes@.len(),
        node_eq(a.nodes@[i as int], a.nodes@[j as int]),
    ensures
        i == j,
{
}

/// The value bound to `name`, searching front to back; the frontmost
/// binding of a name wins.
pub open spec fn lookup_pairs(pairs: Seq<(String, i64)>, name: Seq<char>) -> Option<i64>
    decreases pairs.len(),
{
    if pairs.len() == 0 {
        None
    } else if pairs[0].0@ == name {
        Some(pairs[0].1)
    } else {
        lookup_pairs(pairs.skip(1), name)
    }
}

proof fn lemma_lookup_skip(pairs: Seq<(String, i64)>, name: Seq<char>, i: int)
    requires
        0 <= i <= pairs.len(),
        forall|k: int| 0 <= k < i ==> (#[trigger] pairs[k].0)@ != name,
    ensures
        lookup_pairs(pairs, name) == lookup_pairs(pairs.skip(i), name),
    decreases i,
{
    if i > 0 {
        lemma_lookup_skip(pairs, name, i - 1);
        assert(pairs[i - 1].0@ != name);
        assert(pairs.skip(i - 1)[0] == pairs[i - 1]);
        assert(pairs.skip(i - 1).skip(1) =~= pairs.skip(i));
        assert(lookup_pairs(pairs.skip(i - 1), name) == lookup_pairs(pairs.skip(i), name));
    } else {
        assert(pairs.skip(0) =~= pairs);
    }
}

/// A name-to-integer map resolving parameters at instancing time.
#[derive(Debug, Clone)]
pub struct Bindings {
    pub pairs: Vec<(String, i64)>,
}

impl Bindings {
    pub fn new() -> (r: Bindings)
        ensures
            r.pairs@.len() == 0,
            forall|n: Seq<char>| lookup_pairs(r.pairs@, n) is None,
    {
        Bindings { pairs: Vec::new() }
    }

    /// Binds `name` to `value`, shadowing any earlier binding of `name`.
    pub fn set(&mut self, name: &str, value: i64)
        ensures
            forall|n: Seq<char>|
                #[trigger] lookup_pairs(final(self).pairs@, n) == if n == name@ {
                    Some(value)
                } else {
                    lookup_pairs(old(self).pairs@, n)
                },
    {
        self.pairs.insert(0, (name.to_owned(), value));
        proof {
            assert forall|n: Seq<char>|
                #[trigger] lookup_pairs(self.pairs@, n) == (if n == name@ {
                    Some(value)
                } else {
                    lookup_pairs(old(self).pairs@, n)
                }) by {
                assert(self.pairs@.skip(1) =~= old(self).pairs@);
            }
        }
    }

    /// Looks a name up, front to back.
    pub fn get(&self, name: &str) -> (r: Option<i64>)
        ensures
            r == lookup_pairs(self.pairs@, name@),
    {
        let key: String = name.to_owned();
        let mut i: usize = 0;
        while i < self.pairs.len()
            invariant
                i <= self.pairs@.len(),
                key@ == name@,
                forall|k: int| 0 <= k < i ==> (#[trigger] self.pairs@[k].0)@ != name@,
            decreases self.pairs@.len() - i,
        {
            let p = &self.pairs[i];
            if p.0 == key {
                proof {
                    lemma_lookup_skip(self.pairs@, name@, i as int);
                    assert(self.pairs@.skip(i as int)[0] == self.pairs@[i as int]);
                }
                return Some(p.1);
            }
            i = i + 1;
        }
        proof {
            lemma_lookup_skip(self.pairs@, name@, i as int);
        }
        None
    }
}

/// Combines two evaluated operands with wrap-free addition.
pub open spec fn arith_add(x: Result<i64, ElabError>, y: Result<i64, ElabError>) -> Result<
    i64,
    ElabError,
> {
    match x {
        Err(e) => Err(e),
        Ok(xv) => match y {
            Err(e) => Err(e),
            Ok(yv) => match xv.checked_add(yv) {
                Some(v) => Ok(v),
                None => Err(ElabError::ArithmeticOverflow),
            },
        },
    }
}

/// Combines two evaluated operands with wrap-free subtraction.
pub open spec fn arith_sub(x: Result<i64, ElabError>, y: Result<i64, ElabError>) -> Result<
    i64,
    ElabError,
> {
    match x {
        Err(e) => Err(e),
        Ok(xv) => match y {
            Err(e) => Err(e),
            Ok(yv) => match xv.checked_sub(yv) {
                Some(v) => Ok(v),
                None => Err(ElabError::ArithmeticOverflow),
            },
        },
    }
}

/// Combines two evaluated operands with wrap-free multiplication.
pub open spec fn arith_mul(x: Result<i64, ElabError>, y: Result<i64, ElabError>) -> Result<
    i64,
    ElabError,
> {
    match x {
        Err(e) => Err(e),
        Ok(xv) => match y {
            Err(e) => Err(e),
            Ok(yv) => match xv.checked_mul(yv) {
                Some(v) => Ok(v),
                None => Err(ElabError::ArithmeticOverflow),
            },
        },
    }
}

/// Combines two evaluated operands with truncating division; a divisor that
/// evaluates to zero fails with `DivisionByZero`.
pub open spec fn arith_div(x: Result<i64, ElabError>, y: Result<i64, ElabError>) -> Result<
    i64,
    ElabError,
> {
    match x {
        Err(e) => Err(e),
        Ok(xv) => match y {
            Err(e) => Err(e),
            Ok(yv) => if yv == 0 {
                Err(ElabError::DivisionByZero)
            } else {
                match xv.checked_div(yv) {
                    Some(v) => Ok(v),
                    None => Err(ElabError::ArithmeticOverflow),
                }
            },
        },
    }
}

/// Combines two evaluated operands with truncating remainder; a divisor that
/// evaluates to zero fails with `DivisionByZero`.
pub open spec fn arith_mod(x: Result<i64, ElabError>, y: Result<i64, ElabError>) -> Result<
    i64,
    ElabError,
> {
    match x {
        Err(e) => Err(e),
        Ok(xv) => match y {
            Err(e) => Err(e),
            Ok(yv) => if yv == 0 {
                Err(ElabError::DivisionByZero)
            } else {
                match xv.checked_rem(yv) {
                    Some(v) => Ok(v),
                    None => Err(ElabError::ArithmeticOverflow),
                }
            },
        },
    }
}

/// The meaning of handle `e` under `pairs`: the fully evaluated integer, or
/// the first error met in a left-to-right walk. A handle outside the arena,
/// or a node whose operands do not precede it, is no expression at all and
/// maps to `UnsupportedConstruct`; a well-formed arena never holds one.
pub open spec fn eval_node(
    nodes: Seq<ParameterExpression>,
    e: int,
    pairs: Seq<(String, i64)>,
) -> Result<i64, ElabError>
    decreases e,
{
    if e < 0 || e >= nodes.len() {
        Err(ElabError::UnsupportedConstruct)
    } else {
        match nodes[e] {
            ParameterExpression::Constant(v) => Ok(v),
            ParameterExpression::Parameter(s) => match lookup_pairs(pairs, s@) {
                Some(v) => Ok(v),
                None => Err(ElabError::UnboundParameter { name: s }),
            },
            ParameterExpression::Add(a, b) => if (a as int) < e && (b as int) < e {
                arith_add(eval_node(nodes, a as int, pairs), eval_node(nodes, b as int, pairs))
            } else {
                Err(ElabError::UnsupportedConstruct)
            },
            ParameterExpression::Sub(a, b) => if (a as int) < e && (b as int) < e {
                arith_sub(eval_node(nodes, a as int, pairs), eval_node(nodes, b as int, pairs))
            } else {
                Err(ElabError::UnsupportedConstruct)
            },
            ParameterExpression::Mul(a, b) => if (a as int) < e && (b as int) < e {
                arith_mul(eval_node(nodes, a as int, pairs), eval_node(nodes, b as int, pairs))
            } else {
                Err(ElabError::UnsupportedConstruct)
            },
            ParameterExpression::Div(a, b) => if (a as int) < e && (b as int) < e {
                arith_div(eval_node(nodes, a as int, pairs), eval_node(nodes, b as int, pairs))
            } else {
                Err(ElabError::UnsupportedConstruct)
            },
            ParameterExpression::Mod(a, b) => if (a as int) < e && (b as int) < e {
                arith_mod(eval_node(nodes, a as int, pairs), eval_node(nodes, b as int, pairs))
            } else {
                Err(ElabError::UnsupportedConstruct)
            },
        }
    }
}

impl ExprArena {
    /// Resolves handle `e` against the bindings: fails with
    /// `UnboundParameter` on a name the bindings lack, `DivisionByZero` on a
    /// div/mod whose divisor evaluates to zero, and `ArithmeticOverflow` on
    /// an intermediate result outside the `i64` range; otherwise returns the
    /// value `eval_node` gives the expression.
    pub fn evaluate(&self, e: ExprId, bindings: &Bindings) -> (r: Result<i64, ElabError>)
        requires
            self.wf(),
            (e as int) < self.nodes@.len(),
        ensures
            r == eval_node(self.nodes@, e as int, bindings.pairs@),
        decreases e,
    {
        proof {
            assert(node_operands_lt(self.nodes@[e as int], e as int));
        }
        match &self.nodes[e] {
            ParameterExpression::Constant(v) => Ok(*v),
            ParameterExpression::Parameter(s) => match bindings.get(s.as_str()) {
                Some(v) => Ok(v),
                None => Err(ElabError::UnboundParameter { name: s.clone() }),
            },
            ParameterExpression::Add(a, b) => {
                let x = self.evaluate(*a, bindings);
                let y = self.evaluate(*b, bindings);
                match (x, y) {
                    (Err(err), _) => Err(err),
                    (Ok(_), Err(err)) => Err(err),
                    (Ok(xv), Ok(yv)) => match xv.checked_add(yv) {
                        Some(v) => Ok(v),
                        None => Err(ElabError::ArithmeticOverflow),
                    },
                }
            },
            ParameterExpression::Sub(a, b) => {
                let x = self.evaluate(*a, bindings);
                let y = self.evaluate(*b, bindings);
                match (x, y) {
                    (Err(err), _) => Err(err),
                    (Ok(_), Err(err)) => Err(err),
                    (Ok(xv), Ok(yv)) => match xv.checked_sub(yv) {
                        Some(v) => Ok(v),
                        None => Err(ElabError::ArithmeticOverflow),
                    },
                }
            },
            ParameterExpression::Mul(a, b) => {
                let x = self.evaluate(*a, bindings);
                let y = self.evaluate(*b, bindings);
                match (x, y) {
                    (Err(err), _) => Err(err),
                    (Ok(_), Err(err)) => Err(err),
                    (Ok(xv), Ok(yv)) => match xv.checked_mul(yv) {
                        Some(v) => Ok(v),
                        None => Err(ElabError::ArithmeticOverflow),
                    },
                }
            },
            ParameterExpression::Div(a, b) => {
                let x = self.evaluate(*a, bindings);
                let y = self.evaluate(*b, bindings);
                match (x, y) {
                    (Err(err), _) => Err(err),
                    (Ok(_), Err(err)) => Err(err),
                    (Ok(xv), Ok(yv)) => if yv == 0 {
                        Err(ElabError::DivisionByZero)
                    } else {
                        match xv.checked_div(yv) {
                            Some(v) => Ok(v),
                            None => Err(ElabError::ArithmeticOverflow),
                        }
                    },
                }
            },
            ParameterExpression::Mod(a, b) => {
                let x = self.evaluate(*a, bindings);
                let y = self.evaluate(*b, bindings);
                match (x, y) {
                    (Err(err), _) => Err(err),
                    (Ok(_), Err(err)) => Err(err),
                    (Ok(xv), Ok(yv)) => if yv == 0 {
                        Err(ElabError::DivisionByZero)
                    } else {
                        match xv.checked_rem(yv) {
                            Some(v) => Ok(v),
                            None => Err(ElabError::ArithmeticOverflow),
                        }
                    },
                }
            },
        }
    }
}

} // verus!
