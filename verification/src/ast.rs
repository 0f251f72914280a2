//! The abstract syntax the lowering pass consumes.
//!
//! A translation unit is a list of named modules; each module carries a
//! parameter list and an ordered statement body. Ports are folded into the
//! body as wire declarations with a direction.

use vstd::prelude::*;
use vstd::string::StringSliceAdditionalSpecFns;

verus! {

#[derive(Debug, PartialEq, Eq, Hash)]
pub struct TranslationUnit {
    pub modules: Vec<Module>,
}

#[derive(Debug, PartialEq, Eq, Hash)]
pub struct Module {
    pub name: Identifier,
    pub params: Vec<Parameter>,
    /// Inputs and outputs are included in the body as directed wires.
    pub body: Vec<Statement>,
}

#[derive(Debug, PartialEq, Eq, Hash)]
pub struct Identifier(pub String);

impl Clone for Identifier {
    fn clone(&self) -> (r: Self)
        ensures
            r == *self,
    {
        Identifier(self.0.clone())
    }
}

#[derive(Debug, PartialEq, Eq, Hash)]
pub struct Parameter {
    pub name: Identifier,
    pub value: Option<Expression>,
}

#[derive(Debug, PartialEq, Eq, Hash)]
pub enum Statement {
    Wire {
        name: Identifier,
        width: Option<Range>,
        init: Option<Expression>,
        io: Option<Direction>,
    },
    Assign(AssignDecl),
    Instance {
        name: Identifier,
        module: Identifier,
        params_set: Vec<Bind>,
        ports_set: Vec<Bind>,
    },
    Genvar(Identifier),
    Generate(Vec<Statement>),
    For {
        name: Option<Identifier>,
        init: AssignDecl,
        cond: Expression,
        step: AssignDecl,
        body: Vec<Statement>,
    },
}

#[derive(Debug, PartialEq, Eq, Hash)]
pub struct AssignDecl {
    pub name: Identifier,
    pub width: Option<Range>,
    pub value: Expression,
}

#[derive(Debug, Clone, Copy, PartialEq, Eq, Hash)]
pub enum Direction {
    Input,
    Output,
    InOut,
}

#[derive(Debug, PartialEq, Eq, Hash)]
pub struct Range {
    pub start: Box<Expression>,
    pub end: Option<Box<Expression>>,
}

/// Binds a parameter to an argument or a port to a wire.
#[derive(Debug, PartialEq, Eq, Hash)]
pub struct Bind {
    pub name: Identifier,
    pub value: Expression,
}

#[derive(Debug, PartialEq, Eq, Hash)]
pub enum Expression {
    Identifier(Identifier),
    ConstantInt(i64),
    BinaryBitOperation(Box<Expression>, BinBitOp, Box<Expression>),
    UnaryBitOperation(UnBitOp, Box<Expression>),
    BinaryArithmeticOperation(Box<Expression>, BinArithOp, Box<Expression>),
    UnaryArithmeticOperation(UnArithOp, Box<Expression>),
    RelationalOperation(Box<Expression>, RelOp, Box<Expression>),
    Slice(Box<Expression>, Range),
}

#[derive(Debug, Clone, Copy, PartialEq, Eq, Hash)]
pub enum BinBitOp {
    And,
    Or,
    Xor,
    Xnor,
}

#[derive(Debug, Clone, Copy, PartialEq, Eq, Hash)]
pub enum UnBitOp {
    Not,
}

#[derive(Debug, Clone, Copy, PartialEq, Eq, Hash)]
pub enum BinArithOp {
    Add,
    Sub,
    Mul,
    Div,
    Mod,
}

#[derive(Debug, Clone, Copy, PartialEq, Eq, Hash)]
pub enum UnArithOp {
    Neg,
}

#[derive(Debug, Clone, Copy, PartialEq, Eq, Hash)]
pub enum RelOp {
    Eq,
    Neq,
    Gt,
    Ge,
    Lt,
    Le,
}

/// The surface form of a port before it is folded into a module body.
#[derive(Debug, PartialEq, Eq, Hash)]
pub struct Port {
    pub name: Identifier,
    pub width: Option<Range>,
    pub io: Direction,
}

/// The body statement a declared port folds into.
pub open spec fn port_wire(p: Port) -> Statement {
    Statement::Wire { name: p.name, width: p.width, init: None, io: Some(p.io) }
}

impl Module {
    /// Builds a module from its header pieces: every port becomes a directed
    /// wire declaration at the front of the body, in declaration order, and
    /// the given body statements follow unchanged.
    pub fn with_def(
        id: Identifier,
        params: Vec<Parameter>,
        ports: Vec<Port>,
        body: Vec<Statement>,
    ) -> (m: Module)
        ensures
            m.name == id,
            m.params == params,
            m.body@.len() == ports@.len() + body@.len(),
            forall|k: int|
                0 <= k < ports@.len() ==> m.body@[k] == port_wire(ports@[k]),
            forall|k: int|
                0 <= k < body@.len() ==> m.body@[ports@.len() + k] == body@[k],
    {
        let ghost all_ports = ports@;
        let mut ports = ports;
        let mut body = body;
        let mut new_body: Vec<Statement> = Vec::new();

        while ports.len() > 0
            invariant
                new_body@.len() + ports@.len() == all_ports.len(),
                ports@ == all_ports.skip(new_body@.len() as int),
                forall|k: int|
                    0 <= k < new_body@.len() ==> new_body@[k] == port_wire(all_ports[k]),
            decreases ports@.len(),
        {
            let port = ports.remove(0);
            assert(port == all_ports[new_body@.len() as int]);
            new_body.push(Statement::Wire {
                name: port.name,
                width: port.width,
                init: None,
                io: Some(port.io),
            });
            proof {
                assert(ports@ =~= all_ports.skip(new_body@.len() as int));
            }
        }
        new_body.append(&mut body);

        Module { name: id, params, body: new_body }
    }
}

/// Whether `b` is the byte of a decimal digit.
pub open spec fn is_dec_digit(b: u8) -> bool {
    48 <= b <= 57
}

/// The value of a sequence of decimal digit bytes, most significant first.
pub open spec fn digits_value(s: Seq<u8>) -> int
    decreases s.len(),
{
    if s.len() == 0 {
        0
    } else {
        digits_value(s.drop_last()) * 10 + (s.last() - 48)
    }
}

/// Whether `s` is an optional sign followed by one or more decimal digits,
/// and the denoted value fits in `i64`.
pub open spec fn is_i64_literal(s: Seq<u8>) -> bool {
    if s.len() > 0 && s[0] == 45 {
        let d = s.skip(1);
        &&& d.len() > 0
        &&& forall|i: int| 0 <= i < d.len() ==> is_dec_digit(#[trigger] d[i])
        &&& -digits_value(d) >= i64::MIN
    } else if s.len() > 0 && s[0] == 43 {
        let d = s.skip(1);
        &&& d.len() > 0
        &&& forall|i: int| 0 <= i < d.len() ==> is_dec_digit(#[trigger] d[i])
        &&& digits_value(d) <= i64::MAX
    } else {
        &&& s.len() > 0
        &&& forall|i: int| 0 <= i < s.len() ==> is_dec_digit(#[trigger] s[i])
        &&& digits_value(s) <= i64::MAX
    }
}

/// The integer a decimal literal denotes.
pub open spec fn literal_value(s: Seq<u8>) -> int {
    if s.len() > 0 && s[0] == 45 {
        -digits_value(s.skip(1))
    } else if s.len() > 0 && s[0] == 43 {
        digits_value(s.skip(1))
    } else {
        digits_value(s)
    }
}

/// A sequence of digit bytes denotes a nonnegative value.
proof fn lemma_digits_nonneg(s: Seq<u8>)
    requires
        forall|i: int| 0 <= i < s.len() ==> is_dec_digit(#[trigger] s[i]),
    ensures
        0 <= digits_value(s),
    decreases s.len(),
{
    if s.len() > 0 {
        lemma_digits_nonneg(s.drop_last());
    }
}

/// Every prefix of a digit sequence denotes at most the whole sequence's value.
proof fn lemma_digits_prefix(s: Seq<u8>, k: int)
    requires
        forall|i: int| 0 <= i < s.len() ==> is_dec_digit(#[trigger] s[i]),
        0 <= k <= s.len(),
    ensures
        0 <= digits_value(s.take(k)) <= digits_value(s),
    decreases s.len() - k,
{
    lemma_digits_nonneg(s.take(k));
    if k == s.len() {
        assert(s.take(k) =~= s);
    } else {
        lemma_digits_prefix(s, k + 1);
        assert(s.take(k + 1).drop_last() =~= s.take(k));
        assert(s.take(k + 1).last() == s[k]);
    }
}

impl Expression {
    /// Parses a decimal integer literal into a constant expression.
    pub fn with_constant(literal: &str) -> (r: Self)
        requires
            is_i64_literal(literal.spec_bytes()),
        ensures
            r == Expression::ConstantInt(literal_value(literal.spec_bytes()) as i64),
            literal_value(literal.spec_bytes()) == (literal_value(
                literal.spec_bytes(),
            ) as i64) as int,
    {
        let bytes = literal.as_bytes();
        let ghost s = literal.spec_bytes();
        let negative = bytes[0] == 45;
        let plus = bytes[0] == 43;
        let start: usize = if negative || plus {
            1
        } else {
            0
        };
        let ghost d = s.skip(start as int);
        let mut i = start;
        let mut acc: i64 = 0;
        while i < bytes.len()
            invariant
                bytes@ == s,
                is_i64_literal(s),
                negative == (s[0] == 45),
                plus == (s[0] == 43),
                start == if negative || plus { 1int } else { 0int },
                d == s.skip(start as int),
                start <= i <= bytes@.len(),
                forall|k: int| 0 <= k < d.len() ==> is_dec_digit(#[trigger] d[k]),
                acc == if negative {
                    -digits_value(d.take(i - start))
                } else {
                    digits_value(d.take(i - start))
                },
            decreases bytes@.len() - i,
        {
            let b = bytes[i];
            assert(b == d[i - start]);
            proof {
                lemma_digits_prefix(d, i + 1 - start);
                assert(d.take(i + 1 - start).drop_last() =~= d.take(i - start));
                assert(d.take(i + 1 - start).last() == d[i - start]);
                if negative {
                    assert(-digits_value(d) >= i64::MIN);
                    assert(d.take(d.len() as int) =~= d);
                } else if plus {
                    assert(digits_value(d) <= i64::MAX);
                    assert(d.take(d.len() as int) =~= d);
                } else {
                    assert(s.take(s.len() as int) =~= s);
                    assert(d =~= s);
                }
            }
            if negative {
                acc = acc * 10 - ((b - 48) as i64);
            } else {
                acc = acc * 10 + ((b - 48) as i64);
            }
            i = i + 1;
        }
        proof {
            assert(d.take(bytes@.len() - start) =~= d);
            if !negative && !plus {
                assert(d =~= s);
            }
        }
        Expression::ConstantInt(acc)
    }
}

} // verus!
