//! Expressions over tensors, and the identities by which they may be rewritten.

use vstd::prelude::*;
use crate::text;
use crate::text::push_decimal;

verus! {

/// An operation on one tensor.
#[derive(Debug, Clone, Copy, PartialEq, Eq, Structural)]
pub enum UnaryOp {
    /// Rectified linear unit.
    ReLU,
    /// Gaussian error linear unit.
    GELU,
    /// Sigmoid.
    Sigmoid,
    /// Hyperbolic tangent.
    Tanh,
    /// Sigmoid-weighted linear unit.
    SiLU,
    /// Negation.
    Neg,
    /// Exponential.
    Exp,
    /// Absolute value.
    Abs,
    /// Square root.
    Sqrt,
    /// Reciprocal of the square root.
    Rsqrt,
}

/// An operation on two tensors.
#[derive(Debug, Clone, Copy, PartialEq, Eq, Structural)]
pub enum BinaryOp {
    /// Addition.
    Add,
    /// Element-wise multiplication.
    Mul,
    /// Subtraction.
    Sub,
    /// Element-wise division.
    Div,
    /// Matrix product.
    MatMul,
    /// Sum along an axis.
    ReduceSum,
}

/// An operation on a tensor, a scale and a bias.
#[derive(Debug, Clone, Copy, PartialEq, Eq, Structural)]
pub enum NormOp {
    /// Layer normalization.
    LayerNorm,
    /// Root mean square normalization.
    RMSNorm,
}

impl UnaryOp {
    /// Name of the operation in an expression.
    #[verifier::allow_in_spec]
    pub fn symbol(self) -> (r: &'static str)
        returns
            (match self {
                UnaryOp::ReLU => "relu",
                UnaryOp::GELU => "gelu",
                UnaryOp::Sigmoid => "sigmoid",
                UnaryOp::Tanh => "tanh",
                UnaryOp::SiLU => "silu",
                UnaryOp::Neg => "neg",
                UnaryOp::Exp => "exp",
                UnaryOp::Abs => "abs",
                UnaryOp::Sqrt => "sqrt",
                UnaryOp::Rsqrt => "rsqrt",
            }),
    {
        match self {
            UnaryOp::ReLU => "relu",
            UnaryOp::GELU => "gelu",
            UnaryOp::Sigmoid => "sigmoid",
            UnaryOp::Tanh => "tanh",
            UnaryOp::SiLU => "silu",
            UnaryOp::Neg => "neg",
            UnaryOp::Exp => "exp",
            UnaryOp::Abs => "abs",
            UnaryOp::Sqrt => "sqrt",
            UnaryOp::Rsqrt => "rsqrt",
        }
    }
}

impl BinaryOp {
    /// Name of the operation in an expression.
    #[verifier::allow_in_spec]
    pub fn symbol(self) -> (r: &'static str)
        returns
            (match self {
                BinaryOp::Add => "add",
                BinaryOp::Mul => "mul",
                BinaryOp::Sub => "sub",
                BinaryOp::Div => "div",
                BinaryOp::MatMul => "matmul",
                BinaryOp::ReduceSum => "reducesum",
            }),
    {
        match self {
            BinaryOp::Add => "add",
            BinaryOp::Mul => "mul",
            BinaryOp::Sub => "sub",
            BinaryOp::Div => "div",
            BinaryOp::MatMul => "matmul",
            BinaryOp::ReduceSum => "reducesum",
        }
    }
}

impl NormOp {
    /// Name of the operation in an expression.
    #[verifier::allow_in_spec]
    pub fn symbol(self) -> (r: &'static str)
        returns
            (match self {
                NormOp::LayerNorm => "layernorm",
                NormOp::RMSNorm => "rmsnorm",
            }),
    {
        match self {
            NormOp::LayerNorm => "layernorm",
            NormOp::RMSNorm => "rmsnorm",
        }
    }
}

/// An expression over tensors. Leaves are named operands; a numbered operand belongs to the
/// operation at that place.
#[derive(Debug)]
pub enum FusionExpr {
    /// A named operand.
    Operand(&'static str),
    /// A named operand of the operation at a place.
    Numbered(&'static str, usize),
    /// An operation on one expression.
    Unary(UnaryOp, Box<FusionExpr>),
    /// An operation on two expressions.
    Binary(BinaryOp, Box<FusionExpr>, Box<FusionExpr>),
    /// A normalization of an expression with a scale and a bias.
    Norm(NormOp, Box<FusionExpr>, Box<FusionExpr>, Box<FusionExpr>),
}

impl FusionExpr {
    /// The expression written with each operation in round brackets before its operands.
    pub open spec fn written(&self) -> Seq<char>
        decreases self,
    {
        match self {
            FusionExpr::Operand(name) => name@,
            FusionExpr::Numbered(name, i) => name@ + text::decimal(*i as nat),
            FusionExpr::Unary(op, a) => "("@ + op.symbol()@ + " "@ + a.written() + ")"@,
            FusionExpr::Binary(op, a, b) => "("@ + op.symbol()@ + " "@ + a.written() + " "@
                + b.written() + ")"@,
            FusionExpr::Norm(op, a, s, b) => "("@ + op.symbol()@ + " "@ + a.written() + " "@
                + s.written() + " "@ + b.written() + ")"@,
        }
    }

    /// Appends the written expression to `out`.
    pub fn write_to(&self, out: &mut String)
        ensures
            final(out)@ == old(out)@ + self.written(),
        decreases self,
    {
        match self {
            FusionExpr::Operand(name) => {
                out.append(name);
            },
            FusionExpr::Numbered(name, i) => {
                out.append(name);
                push_decimal(out, *i as u64);
            },
            FusionExpr::Unary(op, a) => {
                out.append("(");
                out.append(op.symbol());
                out.append(" ");
                a.write_to(out);
                out.append(")");
            },
            FusionExpr::Binary(op, a, b) => {
                out.append("(");
                out.append(op.symbol());
                out.append(" ");
                a.write_to(out);
                out.append(" ");
                b.write_to(out);
                out.append(")");
            },
            FusionExpr::Norm(op, a, s, b) => {
                out.append("(");
                out.append(op.symbol());
                out.append(" ");
                a.write_to(out);
                out.append(" ");
                s.write_to(out);
                out.append(" ");
                b.write_to(out);
                out.append(")");
            },
        }
        assert(out@ =~= old(out)@ + self.written());
    }

    /// The written expression.
    pub fn to_text(&self) -> (r: String)
        ensures
            r@ == self.written(),
    {
        let mut out = String::new();
        self.write_to(&mut out);
        assert(out@ =~= self.written());
        out
    }
}

/// What the operations of an expression compute, on numbers in place of tensors: addition,
/// subtraction, multiplication, negation and the rectifier are what they are, the rest is given.
pub struct Meaning {
    /// Value of each operand.
    pub operand: spec_fn(Seq<char>, int) -> int,
    /// Operations on one value that are not fixed.
    pub unary: spec_fn(UnaryOp, int) -> int,
    /// Matrix product.
    pub product: spec_fn(int, int) -> int,
    /// Operations on two values that are not fixed.
    pub binary: spec_fn(BinaryOp, int, int) -> int,
    /// Normalizations.
    pub norm: spec_fn(NormOp, int, int, int) -> int,
}

/// The value of an expression.
pub open spec fn value(e: FusionExpr, m: Meaning) -> int
    decreases e,
{
    match e {
        FusionExpr::Operand(name) => (m.operand)(name@, -1),
        FusionExpr::Numbered(name, i) => (m.operand)(name@, i as int),
        FusionExpr::Unary(op, a) => {
            let x = value(*a, m);
            match op {
                UnaryOp::ReLU => if x < 0 {
                    0
                } else {
                    x
                },
                UnaryOp::Neg => -x,
                _ => (m.unary)(op, x),
            }
        },
        FusionExpr::Binary(op, a, b) => {
            let x = value(*a, m);
            let y = value(*b, m);
            match op {
                BinaryOp::Add => x + y,
                BinaryOp::Mul => x * y,
                BinaryOp::Sub => x - y,
                BinaryOp::MatMul => (m.product)(x, y),
                _ => (m.binary)(op, x, y),
            }
        },
        FusionExpr::Norm(op, a, s, b) => (m.norm)(op, value(*a, m), value(*s, m), value(*b, m)),
    }
}

/// The matrix product distributes over sums on its right, the sigmoid-weighted linear unit is its
/// argument times the sigmoid of it, and dividing by a root is multiplying by its reciprocal.
pub open spec fn obeys_algebra(m: Meaning) -> bool {
    &&& forall|a: int, b: int, c: int|
        #[trigger] (m.product)(a, b + c) == (m.product)(a, b) + (m.product)(a, c)
    &&& forall|a: int|
        #[trigger] (m.unary)(UnaryOp::SiLU, a) == a * (m.unary)(UnaryOp::Sigmoid, a)
    &&& forall|a: int, b: int|
        #[trigger] (m.binary)(BinaryOp::Div, a, (m.unary)(UnaryOp::Sqrt, b)) == a * (m.unary)(
            UnaryOp::Rsqrt,
            b,
        )
}

/// An identity: an expression of the left form may be replaced by the right form.
#[derive(Debug)]
pub struct RewriteRule {
    /// Short name.
    pub name: &'static str,
    /// What the identity says.
    pub description: &'static str,
    /// Form to look for.
    pub lhs: FusionExpr,
    /// Form to replace it with.
    pub rhs: FusionExpr,
}

/// The expression of one operand.
#[verifier::allow_in_spec]
pub fn var(name: &'static str) -> (r: FusionExpr)
    returns
        FusionExpr::Operand(name),
{
    FusionExpr::Operand(name)
}

/// An operation on one expression.
#[verifier::allow_in_spec]
pub fn un(op: UnaryOp, a: FusionExpr) -> (r: FusionExpr)
    returns
        FusionExpr::Unary(op, Box::new(a)),
{
    FusionExpr::Unary(op, Box::new(a))
}

/// An operation on two expressions.
#[verifier::allow_in_spec]
pub fn bin(op: BinaryOp, a: FusionExpr, b: FusionExpr) -> (r: FusionExpr)
    returns
        FusionExpr::Binary(op, Box::new(a), Box::new(b)),
{
    FusionExpr::Binary(op, Box::new(a), Box::new(b))
}

/// The identities by which expressions are rewritten: sums and products may be reordered and
/// regrouped, products distribute over sums in both directions, and activations, signs
/// and roots simplify.
pub open spec fn standard_rules() -> Seq<RewriteRule> {
    seq![
        RewriteRule {
            name: "add-assoc",
            description: "Associativity of addition",
            lhs: bin(BinaryOp::Add, bin(BinaryOp::Add, var("?a"), var("?b")), var("?c")),
            rhs: bin(BinaryOp::Add, var("?a"), bin(BinaryOp::Add, var("?b"), var("?c"))),
        },
        RewriteRule {
            name: "add-comm",
            description: "Commutativity of addition",
            lhs: bin(BinaryOp::Add, var("?a"), var("?b")),
            rhs: bin(BinaryOp::Add, var("?b"), var("?a")),
        },
        RewriteRule {
            name: "mul-assoc",
            description: "Associativity of multiplication",
            lhs: bin(BinaryOp::Mul, bin(BinaryOp::Mul, var("?a"), var("?b")), var("?c")),
            rhs: bin(BinaryOp::Mul, var("?a"), bin(BinaryOp::Mul, var("?b"), var("?c"))),
        },
        RewriteRule {
            name: "mul-comm",
            description: "Commutativity of multiplication",
            lhs: bin(BinaryOp::Mul, var("?a"), var("?b")),
            rhs: bin(BinaryOp::Mul, var("?b"), var("?a")),
        },
        RewriteRule {
            name: "mul-dist-right",
            description: "Right distributivity of mul over add",
            lhs: bin(BinaryOp::Mul, var("?a"), bin(BinaryOp::Add, var("?b"), var("?c"))),
            rhs: bin(BinaryOp::Add, bin(BinaryOp::Mul, var("?a"), var("?b")), bin(BinaryOp::Mul, var("?a"), var("?c"))),
        },
        RewriteRule {
            name: "mul-dist-left",
            description: "Left distributivity of mul over add",
            lhs: bin(BinaryOp::Mul, bin(BinaryOp::Add, var("?a"), var("?b")), var("?c")),
            rhs: bin(BinaryOp::Add, bin(BinaryOp::Mul, var("?a"), var("?c")), bin(BinaryOp::Mul, var("?b"), var("?c"))),
        },
        RewriteRule {
            name: "matmul-factor",
            description: "MatMul factorization: A@B + A@C => A@(B+C)",
            lhs: bin(BinaryOp::Add, bin(BinaryOp::MatMul, var("?a"), var("?b")), bin(BinaryOp::MatMul, var("?a"), var("?c"))),
            rhs: bin(BinaryOp::MatMul, var("?a"), bin(BinaryOp::Add, var("?b"), var("?c"))),
        },
        RewriteRule {
            name: "matmul-dist",
            description: "MatMul distributivity: A@(B+C) => A@B + A@C",
            lhs: bin(BinaryOp::MatMul, var("?a"), bin(BinaryOp::Add, var("?b"), var("?c"))),
            rhs: bin(BinaryOp::Add, bin(BinaryOp::MatMul, var("?a"), var("?b")), bin(BinaryOp::MatMul, var("?a"), var("?c"))),
        },
        RewriteRule {
            name: "relu-idempotent",
            description: "ReLU idempotency: relu(relu(a)) => relu(a)",
            lhs: un(UnaryOp::ReLU, un(UnaryOp::ReLU, var("?a"))),
            rhs: un(UnaryOp::ReLU, var("?a")),
        },
        RewriteRule {
            name: "silu-expand",
            description: "SiLU expansion: silu(a) => a * sigmoid(a)",
            lhs: un(UnaryOp::SiLU, var("?a")),
            rhs: bin(BinaryOp::Mul, var("?a"), un(UnaryOp::Sigmoid, var("?a"))),
        },
        RewriteRule {
            name: "neg-cancel",
            description: "Double negation: -(-a) => a",
            lhs: un(UnaryOp::Neg, un(UnaryOp::Neg, var("?a"))),
            rhs: var("?a"),
        },
        RewriteRule {
            name: "sub-to-add-neg",
            description: "Subtraction as addition: a - b => a + (-b)",
            lhs: bin(BinaryOp::Sub, var("?a"), var("?b")),
            rhs: bin(BinaryOp::Add, var("?a"), un(UnaryOp::Neg, var("?b"))),
        },
        RewriteRule {
            name: "div-to-mul-rsqrt",
            description: "Division by a root: a / sqrt(b) => a * rsqrt(b)",
            lhs: bin(BinaryOp::Div, var("?a"), un(UnaryOp::Sqrt, var("?b"))),
            rhs: bin(BinaryOp::Mul, var("?a"), un(UnaryOp::Rsqrt, var("?b"))),
        },
    ]
}

/// The identities by which expressions are rewritten.
pub fn rewrite_rules() -> (r: Vec<RewriteRule>)
    ensures
        r@ == standard_rules(),
{
    let rules: Vec<RewriteRule> = vec![
        RewriteRule {
            name: "add-assoc",
            description: "Associativity of addition",
            lhs: bin(BinaryOp::Add, bin(BinaryOp::Add, var("?a"), var("?b")), var("?c")),
            rhs: bin(BinaryOp::Add, var("?a"), bin(BinaryOp::Add, var("?b"), var("?c"))),
        },
        RewriteRule {
            name: "add-comm",
            description: "Commutativity of addition",
            lhs: bin(BinaryOp::Add, var("?a"), var("?b")),
            rhs: bin(BinaryOp::Add, var("?b"), var("?a")),
        },
        RewriteRule {
            name: "mul-assoc",
            description: "Associativity of multiplication",
            lhs: bin(BinaryOp::Mul, bin(BinaryOp::Mul, var("?a"), var("?b")), var("?c")),
            rhs: bin(BinaryOp::Mul, var("?a"), bin(BinaryOp::Mul, var("?b"), var("?c"))),
        },
        RewriteRule {
            name: "mul-comm",
            description: "Commutativity of multiplication",
            lhs: bin(BinaryOp::Mul, var("?a"), var("?b")),
            rhs: bin(BinaryOp::Mul, var("?b"), var("?a")),
        },
        RewriteRule {
            name: "mul-dist-right",
            description: "Right distributivity of mul over add",
            lhs: bin(BinaryOp::Mul, var("?a"), bin(BinaryOp::Add, var("?b"), var("?c"))),
            rhs: bin(BinaryOp::Add, bin(BinaryOp::Mul, var("?a"), var("?b")), bin(BinaryOp::Mul, var("?a"), var("?c"))),
        },
        RewriteRule {
            name: "mul-dist-left",
            description: "Left distributivity of mul over add",
            lhs: bin(BinaryOp::Mul, bin(BinaryOp::Add, var("?a"), var("?b")), var("?c")),
            rhs: bin(BinaryOp::Add, bin(BinaryOp::Mul, var("?a"), var("?c")), bin(BinaryOp::Mul, var("?b"), var("?c"))),
        },
        RewriteRule {
            name: "matmul-factor",
            description: "MatMul factorization: A@B + A@C => A@(B+C)",
            lhs: bin(BinaryOp::Add, bin(BinaryOp::MatMul, var("?a"), var("?b")), bin(BinaryOp::MatMul, var("?a"), var("?c"))),
            rhs: bin(BinaryOp::MatMul, var("?a"), bin(BinaryOp::Add, var("?b"), var("?c"))),
        },
        RewriteRule {
            name: "matmul-dist",
            description: "MatMul distributivity: A@(B+C) => A@B + A@C",
            lhs: bin(BinaryOp::MatMul, var("?a"), bin(BinaryOp::Add, var("?b"), var("?c"))),
            rhs: bin(BinaryOp::Add, bin(BinaryOp::MatMul, var("?a"), var("?b")), bin(BinaryOp::MatMul, var("?a"), var("?c"))),
        },
        RewriteRule {
            name: "relu-idempotent",
            description: "ReLU idempotency: relu(relu(a)) => relu(a)",
            lhs: un(UnaryOp::ReLU, un(UnaryOp::ReLU, var("?a"))),
            rhs: un(UnaryOp::ReLU, var("?a")),
        },
        RewriteRule {
            name: "silu-expand",
            description: "SiLU expansion: silu(a) => a * sigmoid(a)",
            lhs: un(UnaryOp::SiLU, var("?a")),
            rhs: bin(BinaryOp::Mul, var("?a"), un(UnaryOp::Sigmoid, var("?a"))),
        },
        RewriteRule {
            name: "neg-cancel",
            description: "Double negation: -(-a) => a",
            lhs: un(UnaryOp::Neg, un(UnaryOp::Neg, var("?a"))),
            rhs: var("?a"),
        },
        RewriteRule {
            name: "sub-to-add-neg",
            description: "Subtraction as addition: a - b => a + (-b)",
            lhs: bin(BinaryOp::Sub, var("?a"), var("?b")),
            rhs: bin(BinaryOp::Add, var("?a"), un(UnaryOp::Neg, var("?b"))),
        },
        RewriteRule {
            name: "div-to-mul-rsqrt",
            description: "Division by a root: a / sqrt(b) => a * rsqrt(b)",
            lhs: bin(BinaryOp::Div, var("?a"), un(UnaryOp::Sqrt, var("?b"))),
            rhs: bin(BinaryOp::Mul, var("?a"), un(UnaryOp::Rsqrt, var("?b"))),
        },
    ];
    assert(rules@ =~= standard_rules());
    rules
}

proof fn lemma_rule_is_sound(m: Meaning, i: int)
    requires
        obeys_algebra(m),
        0 <= i < standard_rules().len(),
    ensures
        value(standard_rules()[i].lhs, m) == value(standard_rules()[i].rhs, m),
{
    reveal_with_fuel(value, 4);
    let a = (m.operand)("?a"@, -1);
    let b = (m.operand)("?b"@, -1);
    let c = (m.operand)("?c"@, -1);
    assert((a * b) * c == a * (b * c)) by (nonlinear_arith);
    assert(a * b == b * a) by (nonlinear_arith);
    assert(a * (b + c) == a * b + a * c) by (nonlinear_arith);
    assert((a + b) * c == a * c + b * c) by (nonlinear_arith);
    assert((m.product)(a, b + c) == (m.product)(a, b) + (m.product)(a, c));
    assert((m.unary)(UnaryOp::SiLU, a) == a * (m.unary)(UnaryOp::Sigmoid, a));
    assert((m.binary)(BinaryOp::Div, a, (m.unary)(UnaryOp::Sqrt, b)) == a * (m.unary)(
        UnaryOp::Rsqrt,
        b,
    ));
}

/// Every rule is an identity: whatever the operands are, both forms have the same value.
pub proof fn rules_are_sound(m: Meaning)
    requires
        obeys_algebra(m),
    ensures
        forall|i: int|
            0 <= i < standard_rules().len() ==> value((#[trigger] standard_rules()[i]).lhs, m)
                == value(standard_rules()[i].rhs, m),
{
    assert forall|i: int| 0 <= i < standard_rules().len() implies value(
        (#[trigger] standard_rules()[i]).lhs,
        m,
    ) == value(standard_rules()[i].rhs, m) by {
        lemma_rule_is_sound(m, i);
    }
}

} // verus!
