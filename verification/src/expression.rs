//! Constant expressions: abstract syntax and evaluation.
//!
//! The expression sub-language covers bitwise or/and, single (non-associative)
//! shifts, additive and multiplicative chains, unary negation and bitwise
//! complement, parenthesised groups, numeric literals and named variables.
//! Evaluation happens over [`Value`], a wide signed integer, so that
//! intermediate results of ordinary programs do not overflow before they are
//! narrowed at the consumer.

use vstd::prelude::*;

use crate::location::Located;
use crate::location::Span;

verus! {

/// The type every constant expression is computed in.
pub type Value = i128;

/// A child of a binary or unary expression node.
pub type ChildNode = Located<Box<Node>>;

/// One node of the expression tree.
#[derive(Debug, PartialEq)]
pub enum Node {
    /// `a | b`
    BinaryOr(ChildNode, ChildNode),
    /// `a & b`
    BinaryAnd(ChildNode, ChildNode),
    /// `a << b`
    LeftShift(ChildNode, ChildNode),
    /// `a >> b`
    RightShift(ChildNode, ChildNode),
    /// `a + b`
    Sum(ChildNode, ChildNode),
    /// `a - b`
    Substract(ChildNode, ChildNode),
    /// `a * b`
    Multiply(ChildNode, ChildNode),
    /// `a / b`
    Divide(ChildNode, ChildNode),
    /// `-a`
    Invert(ChildNode),
    /// `~a`
    BinaryNot(ChildNode),
    /// A literal value
    Literal(Value),
    /// A reference to a variable
    Variable(String),
}

/// The spec-level image of an expression tree: the same shape, with
/// variable names as character sequences and source spans dropped.
pub enum NodeView {
    BinaryOr(Box<NodeView>, Box<NodeView>),
    BinaryAnd(Box<NodeView>, Box<NodeView>),
    LeftShift(Box<NodeView>, Box<NodeView>),
    RightShift(Box<NodeView>, Box<NodeView>),
    Sum(Box<NodeView>, Box<NodeView>),
    Substract(Box<NodeView>, Box<NodeView>),
    Multiply(Box<NodeView>, Box<NodeView>),
    Divide(Box<NodeView>, Box<NodeView>),
    Invert(Box<NodeView>),
    BinaryNot(Box<NodeView>),
    Literal(Value),
    Variable(Seq<char>),
}

/// The view of an expression tree.
pub open spec fn node_view(n: Node) -> NodeView
    decreases n,
{
    match n {
        Node::BinaryOr(a, b) => NodeView::BinaryOr(
            Box::new(node_view(*a.inner)),
            Box::new(node_view(*b.inner)),
        ),
        Node::BinaryAnd(a, b) => NodeView::BinaryAnd(
            Box::new(node_view(*a.inner)),
            Box::new(node_view(*b.inner)),
        ),
        Node::LeftShift(a, b) => NodeView::LeftShift(
            Box::new(node_view(*a.inner)),
            Box::new(node_view(*b.inner)),
        ),
        Node::RightShift(a, b) => NodeView::RightShift(
            Box::new(node_view(*a.inner)),
            Box::new(node_view(*b.inner)),
        ),
        Node::Sum(a, b) => NodeView::Sum(
            Box::new(node_view(*a.inner)),
            Box::new(node_view(*b.inner)),
        ),
        Node::Substract(a, b) => NodeView::Substract(
            Box::new(node_view(*a.inner)),
            Box::new(node_view(*b.inner)),
        ),
        Node::Multiply(a, b) => NodeView::Multiply(
            Box::new(node_view(*a.inner)),
            Box::new(node_view(*b.inner)),
        ),
        Node::Divide(a, b) => NodeView::Divide(
            Box::new(node_view(*a.inner)),
            Box::new(node_view(*b.inner)),
        ),
        Node::Invert(a) => NodeView::Invert(Box::new(node_view(*a.inner))),
        Node::BinaryNot(a) => NodeView::BinaryNot(Box::new(node_view(*a.inner))),
        Node::Literal(v) => NodeView::Literal(v),
        Node::Variable(name) => NodeView::Variable(name@),
    }
}

impl View for Node {
    type V = NodeView;

    open spec fn view(&self) -> NodeView {
        node_view(*self)
    }
}

/// How `~` narrows its operand: against the full width of [`Value`], or
/// against an explicit cell width of `n` bits. The layout engine always
/// evaluates with [`WidthHint::Full`]; code generation may narrow.
#[derive(Clone, Copy, Debug, PartialEq, Eq, Structural)]
pub enum WidthHint {
    Full,
    Bits(u32),
}

/// What evaluation can fail with.
#[derive(Clone, Debug, PartialEq)]
pub enum EvaluationError {
    /// The expression refers to a name the context does not resolve.
    UndefinedVariable { variable: String },
    /// The right operand of `/` evaluated to zero.
    DivideByZero,
    /// A shift amount outside `0..=63`.
    ShiftOutOfRange,
    /// A result does not fit the evaluation or narrowing width.
    Overflow,
}

/// The spec-level image of an [`EvaluationError`], with the variable name
/// as a character sequence.
pub enum EvalErrorView {
    UndefinedVariable(Seq<char>),
    DivideByZero,
    ShiftOutOfRange,
    Overflow,
}

impl View for EvaluationError {
    type V = EvalErrorView;

    open spec fn view(&self) -> EvalErrorView {
        match self {
            EvaluationError::UndefinedVariable { variable } => EvalErrorView::UndefinedVariable(
                variable@,
            ),
            EvaluationError::DivideByZero => EvalErrorView::DivideByZero,
            EvaluationError::ShiftOutOfRange => EvalErrorView::ShiftOutOfRange,
            EvaluationError::Overflow => EvalErrorView::Overflow,
        }
    }
}

/// Resolves a variable name to a value. The spec-level environment
/// [`Context::env`] pins down exactly which names resolve, and to what.
pub trait Context {
    spec fn env(&self) -> Map<Seq<char>, Value>;

    fn resolve_variable(&self, variable: &str) -> (r: Option<Value>)
        ensures
            r == (if self.env().contains_key(variable@) {
                Some(self.env()[variable@])
            } else {
                Option::<Value>::None
            }),
    ;
}

/// The context that resolves no name at all. `.space` and `.addr` arguments
/// are evaluated against it, since no label address is final while the
/// layout pass runs.
pub struct EmptyContext;

impl Context for EmptyContext {
    open spec fn env(&self) -> Map<Seq<char>, Value> {
        Map::empty()
    }

    fn resolve_variable(&self, variable: &str) -> (r: Option<Value>) {
        None
    }
}

/// `2^n - 1`: the value whose binary form is `n` one bits.
pub open spec fn mask_bits(n: int) -> int
    decreases n,
{
    if n <= 0 {
        0
    } else {
        2 * mask_bits(n - 1) + 1
    }
}

proof fn lemma_mask_bits_increases(i: int, j: int)
    requires
        0 <= i <= j,
    ensures
        mask_bits(i) <= mask_bits(j),
    decreases j,
{
    if i < j {
        lemma_mask_bits_increases(i, j - 1);
        lemma_mask_bits_nonneg(j - 1);
    }
}

proof fn lemma_mask_bits_nonneg(i: int)
    ensures
        mask_bits(i) >= 0,
    decreases i,
{
    if i > 0 {
        lemma_mask_bits_nonneg(i - 1);
    }
}

proof fn lemma_mask_bits_is_pow2(n: nat)
    ensures
        mask_bits(n as int) == vstd::arithmetic::power2::pow2(n) - 1,
    decreases n,
{
    if n == 0 {
        assert(vstd::arithmetic::power2::pow2(0) == 1) by {
            vstd::arithmetic::power2::lemma2_to64();
        }
    } else {
        lemma_mask_bits_is_pow2((n - 1) as nat);
        vstd::arithmetic::power2::lemma_pow2_unfold(n);
    }
}

proof fn lemma_mask_bits_127()
    ensures
        mask_bits(127) == i128::MAX,
{
    lemma_mask_bits_is_pow2(127);
    vstd::arithmetic::power2::lemma_pow2_adds(64, 63);
    vstd::arithmetic::power2::lemma2_to64();
    vstd::arithmetic::power2::lemma2_to64_rest();
}

/// Truncating (round-toward-zero) division, the semantics of `/` on the
/// machine integers, expressed over unbounded integers. Meaningful for
/// `d != 0`.
pub open spec fn trunc_div(x: int, d: int) -> int {
    if x == 0 {
        0
    } else if x > 0 && d > 0 {
        x / d
    } else if x < 0 && d < 0 {
        (x * -1) / (d * -1)
    } else if x < 0 {
        ((x * -1) / d) * -1
    } else {
        (x / (d * -1)) * -1
    }
}

/// The meaning of an expression under an environment and a width hint.
///
/// Arithmetic is signed over [`Value`]; a result outside its range is an
/// `Overflow` error. Division by zero and shift amounts outside `0..=63`
/// fail with their own kinds; an unresolved name reports itself. `~x`
/// complements against the full value width under [`WidthHint::Full`]
/// (and under `Bits(n)` for `n >= 128`), and against an `n`-bit cell
/// otherwise, where the operand must fit that cell.
pub open spec fn spec_evaluate(n: NodeView, env: Map<Seq<char>, Value>, width: WidthHint) -> Result<
    Value,
    EvalErrorView,
>
    decreases n,
{
    match n {
        NodeView::Literal(v) => Ok(v),
        NodeView::Variable(name) => if env.contains_key(name) {
            Ok(env[name])
        } else {
            Err(EvalErrorView::UndefinedVariable(name))
        },
        NodeView::BinaryOr(a, b) => match (spec_evaluate(*a, env, width), spec_evaluate(*b, env, width)) {
            (Ok(l), Ok(r)) => Ok(l | r),
            (Err(e), _) => Err(e),
            (_, Err(e)) => Err(e),
        },
        NodeView::BinaryAnd(a, b) => match (spec_evaluate(*a, env, width), spec_evaluate(*b, env, width)) {
            (Ok(l), Ok(r)) => Ok(l & r),
            (Err(e), _) => Err(e),
            (_, Err(e)) => Err(e),
        },
        NodeView::LeftShift(a, b) => match (spec_evaluate(*a, env, width), spec_evaluate(*b, env, width)) {
            (Ok(l), Ok(r)) => if 0 <= r <= 63 {
                Ok(l << r)
            } else {
                Err(EvalErrorView::ShiftOutOfRange)
            },
            (Err(e), _) => Err(e),
            (_, Err(e)) => Err(e),
        },
        NodeView::RightShift(a, b) => match (spec_evaluate(*a, env, width), spec_evaluate(*b, env, width)) {
            (Ok(l), Ok(r)) => if 0 <= r <= 63 {
                Ok(l >> r)
            } else {
                Err(EvalErrorView::ShiftOutOfRange)
            },
            (Err(e), _) => Err(e),
            (_, Err(e)) => Err(e),
        },
        NodeView::Sum(a, b) => match (spec_evaluate(*a, env, width), spec_evaluate(*b, env, width)) {
            (Ok(l), Ok(r)) => if i128::MIN <= l + r <= i128::MAX {
                Ok((l + r) as i128)
            } else {
                Err(EvalErrorView::Overflow)
            },
            (Err(e), _) => Err(e),
            (_, Err(e)) => Err(e),
        },
        NodeView::Substract(a, b) => match (spec_evaluate(*a, env, width), spec_evaluate(*b, env, width)) {
            (Ok(l), Ok(r)) => if i128::MIN <= l - r <= i128::MAX {
                Ok((l - r) as i128)
            } else {
                Err(EvalErrorView::Overflow)
            },
            (Err(e), _) => Err(e),
            (_, Err(e)) => Err(e),
        },
        NodeView::Multiply(a, b) => match (spec_evaluate(*a, env, width), spec_evaluate(*b, env, width)) {
            (Ok(l), Ok(r)) => if i128::MIN <= l * r <= i128::MAX {
                Ok((l * r) as i128)
            } else {
                Err(EvalErrorView::Overflow)
            },
            (Err(e), _) => Err(e),
            (_, Err(e)) => Err(e),
        },
        NodeView::Divide(a, b) => match (spec_evaluate(*a, env, width), spec_evaluate(*b, env, width)) {
            (Ok(l), Ok(r)) => if r == 0 {
                Err(EvalErrorView::DivideByZero)
            } else if l == i128::MIN && r == -1 {
                Err(EvalErrorView::Overflow)
            } else {
                Ok(trunc_div(l as int, r as int) as i128)
            },
            (Err(e), _) => Err(e),
            (_, Err(e)) => Err(e),
        },
        NodeView::Invert(a) => match spec_evaluate(*a, env, width) {
            Ok(v) => if v == i128::MIN {
                Err(EvalErrorView::Overflow)
            } else {
                Ok((-v) as i128)
            },
            Err(e) => Err(e),
        },
        NodeView::BinaryNot(a) => match spec_evaluate(*a, env, width) {
            Ok(v) => match width {
                WidthHint::Full => Ok(!v),
                WidthHint::Bits(bits) => if bits >= 128 {
                    Ok(!v)
                } else if 0 <= v <= mask_bits(bits as int) {
                    Ok((mask_bits(bits as int) - v) as i128)
                } else {
                    Err(EvalErrorView::Overflow)
                },
            },
            Err(e) => Err(e),
        },
    }
}

/// Whether the executable result `r` is the image of the spec-level
/// result `s`.
pub open spec fn eval_result_matches(
    r: Result<Value, EvaluationError>,
    s: Result<Value, EvalErrorView>,
) -> bool {
    match r {
        Ok(v) => s == Ok::<Value, EvalErrorView>(v),
        Err(e) => s == Err::<Value, EvalErrorView>(e@),
    }
}

impl Node {
    /// Evaluate the expression against `context`, narrowing `~` per
    /// `width`. The result is exactly [`spec_evaluate`] of this node
    /// under the context's environment.
    #[verifier::spinoff_prover]
    #[verifier::rlimit(100)]
    pub fn evaluate<C: Context>(&self, context: &C, width: WidthHint) -> (r: Result<
        Value,
        EvaluationError,
    >)
        ensures
            eval_result_matches(r, spec_evaluate(self@, context.env(), width)),
        decreases *self,
    {
        match self {
            Node::Literal(v) => Ok(*v),
            Node::Variable(name) => match context.resolve_variable(name.as_str()) {
                Some(v) => Ok(v),
                None => Err(
                    EvaluationError::UndefinedVariable { variable: clone_string(name) },
                ),
            },
            Node::BinaryOr(a, b) => {
                let l = a.inner.evaluate(context, width)?;
                let r = b.inner.evaluate(context, width)?;
                Ok(l | r)
            },
            Node::BinaryAnd(a, b) => {
                let l = a.inner.evaluate(context, width)?;
                let r = b.inner.evaluate(context, width)?;
                Ok(l & r)
            },
            Node::LeftShift(a, b) => {
                let l = a.inner.evaluate(context, width)?;
                let r = b.inner.evaluate(context, width)?;
                if 0 <= r && r <= 63 {
                    Ok(l << r)
                } else {
                    Err(EvaluationError::ShiftOutOfRange)
                }
            },
            Node::RightShift(a, b) => {
                let l = a.inner.evaluate(context, width)?;
                let r = b.inner.evaluate(context, width)?;
                if 0 <= r && r <= 63 {
                    Ok(l >> r)
                } else {
                    Err(EvaluationError::ShiftOutOfRange)
                }
            },
            Node::Sum(a, b) => {
                let l = a.inner.evaluate(context, width)?;
                let r = b.inner.evaluate(context, width)?;
                match l.checked_add(r) {
                    Some(v) => Ok(v),
                    None => Err(EvaluationError::Overflow),
                }
            },
            Node::Substract(a, b) => {
                let l = a.inner.evaluate(context, width)?;
                let r = b.inner.evaluate(context, width)?;
                match l.checked_sub(r) {
                    Some(v) => Ok(v),
                    None => Err(EvaluationError::Overflow),
                }
            },
            Node::Multiply(a, b) => {
                let l = a.inner.evaluate(context, width)?;
                let r = b.inner.evaluate(context, width)?;
                match l.checked_mul(r) {
                    Some(v) => Ok(v),
                    None => Err(EvaluationError::Overflow),
                }
            },
            Node::Divide(a, b) => {
                let l = a.inner.evaluate(context, width)?;
                let r = b.inner.evaluate(context, width)?;
                if r == 0 {
                    Err(EvaluationError::DivideByZero)
                } else {
                    proof {
                        if !(l == i128::MIN && r == -1) {
                            lemma_trunc_div_in_range(l as int, r as int);
                        }
                    }
                    match l.checked_div(r) {
                        Some(v) => Ok(v),
                        None => Err(EvaluationError::Overflow),
                    }
                }
            },
            Node::Invert(a) => {
                let v = a.inner.evaluate(context, width)?;
                if v == i128::MIN {
                    Err(EvaluationError::Overflow)
                } else {
                    Ok(-v)
                }
            },
            Node::BinaryNot(a) => {
                let v = a.inner.evaluate(context, width)?;
                match width {
                    WidthHint::Full => Ok(!v),
                    WidthHint::Bits(bits) => {
                        if bits >= 128 {
                            Ok(!v)
                        } else {
                            let mask = mask_of_bits(bits);
                            if 0 <= v && v <= mask {
                                Ok(mask - v)
                            } else {
                                Err(EvaluationError::Overflow)
                            }
                        }
                    },
                }
            },
        }
    }
}

/// `2^bits - 1` as a machine value, for `bits < 128`.
fn mask_of_bits(bits: u32) -> (r: i128)
    requires
        bits < 128,
    ensures
        r == mask_bits(bits as int),
{
    let mut mask: i128 = 0;
    let mut i: u32 = 0;
    while i < bits
        invariant
            i <= bits < 128,
            mask == mask_bits(i as int),
        decreases bits - i,
    {
        proof {
            lemma_mask_bits_nonneg(i as int);
            lemma_mask_bits_increases(i as int + 1, 127);
            lemma_mask_bits_127();
        }
        mask = 2 * mask + 1;
        i = i + 1;
    }
    mask
}

proof fn lemma_trunc_div_in_range(x: int, d: int)
    requires
        i128::MIN <= x <= i128::MAX,
        i128::MIN <= d <= i128::MAX,
        d != 0,
        !(x == i128::MIN && d == -1),
    ensures
        i128::MIN <= trunc_div(x, d) <= i128::MAX,
{
    if x == 0 {
    } else if x > 0 && d > 0 {
        vstd::arithmetic::div_mod::lemma_div_pos_is_pos(x, d);
        vstd::arithmetic::div_mod::lemma_div_nonincreasing(x, d);
    } else if x < 0 && d < 0 {
        vstd::arithmetic::div_mod::lemma_div_pos_is_pos(x * -1, d * -1);
        if d == -1 {
            vstd::arithmetic::div_mod::lemma_div_nonincreasing(x * -1, 1);
        } else {
            // the magnitude of `x` may be one above `i128::MAX`, but any
            // divisor of magnitude two or more shrinks it strictly
            vstd::arithmetic::div_mod::lemma_div_decreases(x * -1, d * -1);
        }
    } else if x < 0 {
        vstd::arithmetic::div_mod::lemma_div_pos_is_pos(x * -1, d);
        vstd::arithmetic::div_mod::lemma_div_nonincreasing(x * -1, d);
    } else {
        vstd::arithmetic::div_mod::lemma_div_pos_is_pos(x, d * -1);
        vstd::arithmetic::div_mod::lemma_div_nonincreasing(x, d * -1);
    }
}

/// Clone a `String`, keeping its characters.
pub fn clone_string(s: &String) -> (r: String)
    ensures
        r == *s,
{
    s.clone()
}


// ------------------------------------------------------------------
// The expression grammar.
// ------------------------------------------------------------------
//
// Lowest to highest precedence, whitespace permitted between tokens:
//   or    := and ( '|' and )*
//   and   := shift ( '&' shift )*
//   shift := sum ( ('<<' | '>>') sum )?     (single shift, non-associative)
//   sum   := mul ( ('+' | '-') mul )*
//   mul   := unary ( ('*' | '/') unary )*
//   unary := '-' atom | '~' atom | atom
//   atom  := number | identifier | '(' or ')'
//
// The spec-level parsers carry a fuel that strictly decreases on every
// call; [`expr_fuel`] hands the entry point more fuel than any chain of
// descents and operators over the input can spend, so the executable
// parsers — which mirror the spec ones call for call, fuel included —
// never run dry on real input.

/// More fuel than parsing a tail of `rem` scalars can spend.
pub open spec fn expr_fuel(rem: int) -> nat {
    if rem < 0 {
        8
    } else if rem <= 0x00ff_ffff_ffff_ffff {
        (8 * rem + 8) as nat
    } else {
        0xffff_ffff_ffff_ffff as nat
    }
}

/// An atom: a numeric literal, a variable name, or a parenthesised
/// expression.
pub open spec fn spec_parse_atom(s: Seq<char>, pos: int, fuel: nat) -> Option<(NodeView, int)>
    decreases fuel,
{
    if fuel == 0 {
        None
    } else {
        let p = crate::literal::spec_skip_spaces(s, pos);
        if crate::literal::spec_parse_number(s, p) is Some {
            let t = crate::literal::spec_parse_number(s, p)->Some_0;
            Some((NodeView::Literal(t.0), t.1))
        } else if crate::literal::spec_parse_identifier(s, p) is Some {
            let t = crate::literal::spec_parse_identifier(s, p)->Some_0;
            Some((NodeView::Variable(t.0), t.1))
        } else if p < s.len() && crate::strings::char_at(s, p as nat) == '(' {
            match spec_parse_or(s, p + 1, (fuel - 1) as nat) {
                Some(t) => {
                    let q = crate::literal::spec_skip_spaces(s, t.1);
                    if q < s.len() && crate::strings::char_at(s, q as nat) == ')' {
                        Some((t.0, q + 1))
                    } else {
                        None
                    }
                },
                None => None,
            }
        } else {
            None
        }
    }
}

/// A unary negation or complement, or a bare atom.
pub open spec fn spec_parse_unary(s: Seq<char>, pos: int, fuel: nat) -> Option<(NodeView, int)>
    decreases fuel,
{
    if fuel == 0 {
        None
    } else {
        let p = crate::literal::spec_skip_spaces(s, pos);
        if p < s.len() && crate::strings::char_at(s, p as nat) == '-' {
            match spec_parse_atom(s, p + 1, (fuel - 1) as nat) {
                Some(t) => Some((NodeView::Invert(Box::new(t.0)), t.1)),
                None => None,
            }
        } else if p < s.len() && crate::strings::char_at(s, p as nat) == '~' {
            match spec_parse_atom(s, p + 1, (fuel - 1) as nat) {
                Some(t) => Some((NodeView::BinaryNot(Box::new(t.0)), t.1)),
                None => None,
            }
        } else {
            spec_parse_atom(s, p, (fuel - 1) as nat)
        }
    }
}

/// The multiplicative operators after a first operand `acc`.
pub open spec fn spec_parse_mul_rest(s: Seq<char>, pos: int, acc: NodeView, fuel: nat) -> Option<
    (NodeView, int),
>
    decreases fuel,
{
    if fuel == 0 {
        None
    } else {
        let p = crate::literal::spec_skip_spaces(s, pos);
        if p < s.len() && (crate::strings::char_at(s, p as nat) == '*' || crate::strings::char_at(
            s,
            p as nat,
        ) == '/') {
            match spec_parse_unary(s, p + 1, (fuel - 1) as nat) {
                Some(t) => {
                    let joined = if crate::strings::char_at(s, p as nat) == '*' {
                        NodeView::Multiply(Box::new(acc), Box::new(t.0))
                    } else {
                        NodeView::Divide(Box::new(acc), Box::new(t.0))
                    };
                    spec_parse_mul_rest(s, t.1, joined, (fuel - 1) as nat)
                },
                None => Some((acc, pos)),
            }
        } else {
            Some((acc, pos))
        }
    }
}

/// A multiplicative chain.
pub open spec fn spec_parse_mul(s: Seq<char>, pos: int, fuel: nat) -> Option<(NodeView, int)>
    decreases fuel,
{
    if fuel == 0 {
        None
    } else {
        match spec_parse_unary(s, pos, (fuel - 1) as nat) {
            Some(t) => spec_parse_mul_rest(s, t.1, t.0, (fuel - 1) as nat),
            None => None,
        }
    }
}

/// The additive operators after a first operand `acc`.
pub open spec fn spec_parse_sum_rest(s: Seq<char>, pos: int, acc: NodeView, fuel: nat) -> Option<
    (NodeView, int),
>
    decreases fuel,
{
    if fuel == 0 {
        None
    } else {
        let p = crate::literal::spec_skip_spaces(s, pos);
        if p < s.len() && (crate::strings::char_at(s, p as nat) == '+' || crate::strings::char_at(
            s,
            p as nat,
        ) == '-') {
            match spec_parse_mul(s, p + 1, (fuel - 1) as nat) {
                Some(t) => {
                    let joined = if crate::strings::char_at(s, p as nat) == '+' {
                        NodeView::Sum(Box::new(acc), Box::new(t.0))
                    } else {
                        NodeView::Substract(Box::new(acc), Box::new(t.0))
                    };
                    spec_parse_sum_rest(s, t.1, joined, (fuel - 1) as nat)
                },
                None => Some((acc, pos)),
            }
        } else {
            Some((acc, pos))
        }
    }
}

/// An additive chain.
pub open spec fn spec_parse_sum(s: Seq<char>, pos: int, fuel: nat) -> Option<(NodeView, int)>
    decreases fuel,
{
    if fuel == 0 {
        None
    } else {
        match spec_parse_mul(s, pos, (fuel - 1) as nat) {
            Some(t) => spec_parse_sum_rest(s, t.1, t.0, (fuel - 1) as nat),
            None => None,
        }
    }
}

/// A sum, shifted at most once: the shift is non-associative.
pub open spec fn spec_parse_shift(s: Seq<char>, pos: int, fuel: nat) -> Option<(NodeView, int)>
    decreases fuel,
{
    if fuel == 0 {
        None
    } else {
        match spec_parse_sum(s, pos, (fuel - 1) as nat) {
            Some(t) => {
                let p = crate::literal::spec_skip_spaces(s, t.1);
                if p + 1 < s.len() && crate::strings::char_at(s, p as nat) == '>'
                    && crate::strings::char_at(s, (p + 1) as nat) == '>' {
                    match spec_parse_sum(s, p + 2, (fuel - 1) as nat) {
                        Some(u) => Some(
                            (NodeView::RightShift(Box::new(t.0), Box::new(u.0)), u.1),
                        ),
                        None => Some(t),
                    }
                } else if p + 1 < s.len() && crate::strings::char_at(s, p as nat) == '<'
                    && crate::strings::char_at(s, (p + 1) as nat) == '<' {
                    match spec_parse_sum(s, p + 2, (fuel - 1) as nat) {
                        Some(u) => Some((NodeView::LeftShift(Box::new(t.0), Box::new(u.0)), u.1)),
                        None => Some(t),
                    }
                } else {
                    Some(t)
                }
            },
            None => None,
        }
    }
}

/// The bitwise-and operators after a first operand `acc`.
pub open spec fn spec_parse_and_rest(s: Seq<char>, pos: int, acc: NodeView, fuel: nat) -> Option<
    (NodeView, int),
>
    decreases fuel,
{
    if fuel == 0 {
        None
    } else {
        let p = crate::literal::spec_skip_spaces(s, pos);
        if p < s.len() && crate::strings::char_at(s, p as nat) == '&' {
            match spec_parse_shift(s, p + 1, (fuel - 1) as nat) {
                Some(t) => spec_parse_and_rest(
                    s,
                    t.1,
                    NodeView::BinaryAnd(Box::new(acc), Box::new(t.0)),
                    (fuel - 1) as nat,
                ),
                None => Some((acc, pos)),
            }
        } else {
            Some((acc, pos))
        }
    }
}

/// A bitwise-and chain.
pub open spec fn spec_parse_and(s: Seq<char>, pos: int, fuel: nat) -> Option<(NodeView, int)>
    decreases fuel,
{
    if fuel == 0 {
        None
    } else {
        match spec_parse_shift(s, pos, (fuel - 1) as nat) {
            Some(t) => spec_parse_and_rest(s, t.1, t.0, (fuel - 1) as nat),
            None => None,
        }
    }
}

/// The bitwise-or operators after a first operand `acc`.
pub open spec fn spec_parse_or_rest(s: Seq<char>, pos: int, acc: NodeView, fuel: nat) -> Option<
    (NodeView, int),
>
    decreases fuel,
{
    if fuel == 0 {
        None
    } else {
        let p = crate::literal::spec_skip_spaces(s, pos);
        if p < s.len() && crate::strings::char_at(s, p as nat) == '|' {
            match spec_parse_and(s, p + 1, (fuel - 1) as nat) {
                Some(t) => spec_parse_or_rest(
                    s,
                    t.1,
                    NodeView::BinaryOr(Box::new(acc), Box::new(t.0)),
                    (fuel - 1) as nat,
                ),
                None => Some((acc, pos)),
            }
        } else {
            Some((acc, pos))
        }
    }
}

/// A whole expression: a bitwise-or chain.
pub open spec fn spec_parse_or(s: Seq<char>, pos: int, fuel: nat) -> Option<(NodeView, int)>
    decreases fuel,
{
    if fuel == 0 {
        None
    } else {
        match spec_parse_and(s, pos, (fuel - 1) as nat) {
            Some(t) => spec_parse_or_rest(s, t.1, t.0, (fuel - 1) as nat),
            None => None,
        }
    }
}

/// An expression parsed at `pos`, with the entry fuel.
pub open spec fn spec_parse_expression_at(s: Seq<char>, pos: int) -> Option<(NodeView, int)> {
    spec_parse_or(s, pos, expr_fuel(s.len() - pos))
}

/// An expression parsed at the start of `s`.
pub open spec fn spec_parse_expression(s: Seq<char>) -> Option<(NodeView, int)> {
    spec_parse_expression_at(s, 0)
}

/// Wrap a node as the child of a larger node, with the empty span.
fn bare_child(n: Node) -> (r: ChildNode)
    ensures
        node_view(*r.inner) == n@,
{
    Located { inner: Box::new(n), location: Span { offset: 0, length: 0 } }
}

fn parse_atom_at(s: &Vec<char>, pos: usize, fuel: u64) -> (r: Option<(Node, usize)>)
    requires
        pos <= s@.len(),
    ensures
        r matches Some(t) ==> spec_parse_atom(s@, pos as int, fuel as nat) == Some(
            (t.0@, t.1 as int),
        ) && pos <= t.1 <= s@.len(),
        r is None ==> spec_parse_atom(s@, pos as int, fuel as nat) is None,
    decreases fuel,
{
    if fuel == 0 {
        return None;
    }
    let p = crate::literal::skip_spaces(s, pos);
    match crate::literal::parse_number(s, p) {
        Some((v, q)) => Some((Node::Literal(v), q)),
        None => match crate::literal::parse_identifier(s, p) {
            Some((name, q)) => Some((Node::Variable(name), q)),
            None => {
                if p < s.len() && s[p] == '(' {
                    match parse_or_at(s, p + 1, fuel - 1) {
                        Some((n, q0)) => {
                            let q = crate::literal::skip_spaces(s, q0);
                            if q < s.len() && s[q] == ')' {
                                Some((n, q + 1))
                            } else {
                                None
                            }
                        },
                        None => None,
                    }
                } else {
                    None
                }
            },
        },
    }
}

fn parse_unary_at(s: &Vec<char>, pos: usize, fuel: u64) -> (r: Option<(Node, usize)>)
    requires
        pos <= s@.len(),
    ensures
        r matches Some(t) ==> spec_parse_unary(s@, pos as int, fuel as nat) == Some(
            (t.0@, t.1 as int),
        ) && pos <= t.1 <= s@.len(),
        r is None ==> spec_parse_unary(s@, pos as int, fuel as nat) is None,
    decreases fuel,
{
    if fuel == 0 {
        return None;
    }
    let p = crate::literal::skip_spaces(s, pos);
    if p < s.len() && s[p] == '-' {
        match parse_atom_at(s, p + 1, fuel - 1) {
            Some((n, q)) => Some((Node::Invert(bare_child(n)), q)),
            None => None,
        }
    } else if p < s.len() && s[p] == '~' {
        match parse_atom_at(s, p + 1, fuel - 1) {
            Some((n, q)) => Some((Node::BinaryNot(bare_child(n)), q)),
            None => None,
        }
    } else {
        parse_atom_at(s, p, fuel - 1)
    }
}

fn parse_mul_rest_at(s: &Vec<char>, pos: usize, acc: Node, fuel: u64) -> (r: Option<(Node, usize)>)
    requires
        pos <= s@.len(),
    ensures
        r matches Some(t) ==> spec_parse_mul_rest(s@, pos as int, acc@, fuel as nat) == Some(
            (t.0@, t.1 as int),
        ) && pos <= t.1 <= s@.len(),
        r is None ==> spec_parse_mul_rest(s@, pos as int, acc@, fuel as nat) is None,
    decreases fuel,
{
    if fuel == 0 {
        return None;
    }
    let p = crate::literal::skip_spaces(s, pos);
    if p < s.len() && (s[p] == '*' || s[p] == '/') {
        let star = s[p] == '*';
        match parse_unary_at(s, p + 1, fuel - 1) {
            Some((rhs, q)) => {
                let joined = if star {
                    Node::Multiply(bare_child(acc), bare_child(rhs))
                } else {
                    Node::Divide(bare_child(acc), bare_child(rhs))
                };
                parse_mul_rest_at(s, q, joined, fuel - 1)
            },
            None => Some((acc, pos)),
        }
    } else {
        Some((acc, pos))
    }
}

fn parse_mul_at(s: &Vec<char>, pos: usize, fuel: u64) -> (r: Option<(Node, usize)>)
    requires
        pos <= s@.len(),
    ensures
        r matches Some(t) ==> spec_parse_mul(s@, pos as int, fuel as nat) == Some(
            (t.0@, t.1 as int),
        ) && pos <= t.1 <= s@.len(),
        r is None ==> spec_parse_mul(s@, pos as int, fuel as nat) is None,
    decreases fuel,
{
    if fuel == 0 {
        return None;
    }
    match parse_unary_at(s, pos, fuel - 1) {
        Some((n, q)) => parse_mul_rest_at(s, q, n, fuel - 1),
        None => None,
    }
}

fn parse_sum_rest_at(s: &Vec<char>, pos: usize, acc: Node, fuel: u64) -> (r: Option<(Node, usize)>)
    requires
        pos <= s@.len(),
    ensures
        r matches Some(t) ==> spec_parse_sum_rest(s@, pos as int, acc@, fuel as nat) == Some(
            (t.0@, t.1 as int),
        ) && pos <= t.1 <= s@.len(),
        r is None ==> spec_parse_sum_rest(s@, pos as int, acc@, fuel as nat) is None,
    decreases fuel,
{
    if fuel == 0 {
        return None;
    }
    let p = crate::literal::skip_spaces(s, pos);
    if p < s.len() && (s[p] == '+' || s[p] == '-') {
        let plus = s[p] == '+';
        match parse_mul_at(s, p + 1, fuel - 1) {
            Some((rhs, q)) => {
                let joined = if plus {
                    Node::Sum(bare_child(acc), bare_child(rhs))
                } else {
                    Node::Substract(bare_child(acc), bare_child(rhs))
                };
                parse_sum_rest_at(s, q, joined, fuel - 1)
            },
            None => Some((acc, pos)),
        }
    } else {
        Some((acc, pos))
    }
}

fn parse_sum_at(s: &Vec<char>, pos: usize, fuel: u64) -> (r: Option<(Node, usize)>)
    requires
        pos <= s@.len(),
    ensures
        r matches Some(t) ==> spec_parse_sum(s@, pos as int, fuel as nat) == Some(
            (t.0@, t.1 as int),
        ) && pos <= t.1 <= s@.len(),
        r is None ==> spec_parse_sum(s@, pos as int, fuel as nat) is None,
    decreases fuel,
{
    if fuel == 0 {
        return None;
    }
    match parse_mul_at(s, pos, fuel - 1) {
        Some((n, q)) => parse_sum_rest_at(s, q, n, fuel - 1),
        None => None,
    }
}

fn parse_shift_at(s: &Vec<char>, pos: usize, fuel: u64) -> (r: Option<(Node, usize)>)
    requires
        pos <= s@.len(),
    ensures
        r matches Some(t) ==> spec_parse_shift(s@, pos as int, fuel as nat) == Some(
            (t.0@, t.1 as int),
        ) && pos <= t.1 <= s@.len(),
        r is None ==> spec_parse_shift(s@, pos as int, fuel as nat) is None,
    decreases fuel,
{
    if fuel == 0 {
        return None;
    }
    match parse_sum_at(s, pos, fuel - 1) {
        Some((n, q0)) => {
            let p = crate::literal::skip_spaces(s, q0);
            if p < s.len() && p + 1 < s.len() && s[p] == '>' && s[p + 1] == '>' {
                match parse_sum_at(s, p + 2, fuel - 1) {
                    Some((rhs, q)) => Some((Node::RightShift(bare_child(n), bare_child(rhs)), q)),
                    None => Some((n, q0)),
                }
            } else if p < s.len() && p + 1 < s.len() && s[p] == '<' && s[p + 1] == '<' {
                match parse_sum_at(s, p + 2, fuel - 1) {
                    Some((rhs, q)) => Some((Node::LeftShift(bare_child(n), bare_child(rhs)), q)),
                    None => Some((n, q0)),
                }
            } else {
                Some((n, q0))
            }
        },
        None => None,
    }
}

fn parse_and_rest_at(s: &Vec<char>, pos: usize, acc: Node, fuel: u64) -> (r: Option<(Node, usize)>)
    requires
        pos <= s@.len(),
    ensures
        r matches Some(t) ==> spec_parse_and_rest(s@, pos as int, acc@, fuel as nat) == Some(
            (t.0@, t.1 as int),
        ) && pos <= t.1 <= s@.len(),
        r is None ==> spec_parse_and_rest(s@, pos as int, acc@, fuel as nat) is None,
    decreases fuel,
{
    if fuel == 0 {
        return None;
    }
    let p = crate::literal::skip_spaces(s, pos);
    if p < s.len() && s[p] == '&' {
        match parse_shift_at(s, p + 1, fuel - 1) {
            Some((rhs, q)) => parse_and_rest_at(
                s,
                q,
                Node::BinaryAnd(bare_child(acc), bare_child(rhs)),
                fuel - 1,
            ),
            None => Some((acc, pos)),
        }
    } else {
        Some((acc, pos))
    }
}

fn parse_and_at(s: &Vec<char>, pos: usize, fuel: u64) -> (r: Option<(Node, usize)>)
    requires
        pos <= s@.len(),
    ensures
        r matches Some(t) ==> spec_parse_and(s@, pos as int, fuel as nat) == Some(
            (t.0@, t.1 as int),
        ) && pos <= t.1 <= s@.len(),
        r is None ==> spec_parse_and(s@, pos as int, fuel as nat) is None,
    decreases fuel,
{
    if fuel == 0 {
        return None;
    }
    match parse_shift_at(s, pos, fuel - 1) {
        Some((n, q)) => parse_and_rest_at(s, q, n, fuel - 1),
        None => None,
    }
}

fn parse_or_rest_at(s: &Vec<char>, pos: usize, acc: Node, fuel: u64) -> (r: Option<(Node, usize)>)
    requires
        pos <= s@.len(),
    ensures
        r matches Some(t) ==> spec_parse_or_rest(s@, pos as int, acc@, fuel as nat) == Some(
            (t.0@, t.1 as int),
        ) && pos <= t.1 <= s@.len(),
        r is None ==> spec_parse_or_rest(s@, pos as int, acc@, fuel as nat) is None,
    decreases fuel,
{
    if fuel == 0 {
        return None;
    }
    let p = crate::literal::skip_spaces(s, pos);
    if p < s.len() && s[p] == '|' {
        match parse_and_at(s, p + 1, fuel - 1) {
            Some((rhs, q)) => parse_or_rest_at(
                s,
                q,
                Node::BinaryOr(bare_child(acc), bare_child(rhs)),
                fuel - 1,
            ),
            None => Some((acc, pos)),
        }
    } else {
        Some((acc, pos))
    }
}

fn parse_or_at(s: &Vec<char>, pos: usize, fuel: u64) -> (r: Option<(Node, usize)>)
    requires
        pos <= s@.len(),
    ensures
        r matches Some(t) ==> spec_parse_or(s@, pos as int, fuel as nat) == Some(
            (t.0@, t.1 as int),
        ) && pos <= t.1 <= s@.len(),
        r is None ==> spec_parse_or(s@, pos as int, fuel as nat) is None,
    decreases fuel,
{
    if fuel == 0 {
        return None;
    }
    match parse_and_at(s, pos, fuel - 1) {
        Some((n, q)) => parse_or_rest_at(s, q, n, fuel - 1),
        None => None,
    }
}

/// The entry fuel for parsing a tail that starts at `pos`.
fn entry_fuel(len: usize, pos: usize) -> (r: u64)
    requires
        pos <= len,
    ensures
        r as nat == expr_fuel(len - pos as int),
{
    let rem = (len - pos) as u64;
    if rem <= 0x00ff_ffff_ffff_ffff {
        8 * rem + 8
    } else {
        0xffff_ffff_ffff_ffff
    }
}

/// Parse an expression at `pos` of a scalar sequence.
pub fn parse_expression_at(s: &Vec<char>, pos: usize) -> (r: Option<(Node, usize)>)
    requires
        pos <= s@.len(),
    ensures
        r matches Some(t) ==> spec_parse_expression_at(s@, pos as int) == Some(
            (t.0@, t.1 as int),
        ) && pos <= t.1 <= s@.len(),
        r is None ==> spec_parse_expression_at(s@, pos as int) is None,
{
    let fuel = entry_fuel(s.len(), pos);
    parse_or_at(s, pos, fuel)
}

/// Parse an expression at the start of `input`, returning its tree and
/// the number of scalars consumed.
pub fn parse_expression(input: &str) -> (r: Option<(Node, usize)>)
    ensures
        r matches Some(t) ==> spec_parse_expression(input@) == Some((t.0@, t.1 as int)) && t.1
            <= input@.len(),
        r is None ==> spec_parse_expression(input@) is None,
{
    let chars = crate::strings::str_to_chars(input);
    parse_expression_at(&chars, 0)
}

// ------------------------------------------------------------------
// The round-trip law of literal-only expressions.
// ------------------------------------------------------------------

/// Whether an expression mentions no variable at all.
pub open spec fn literal_only(n: NodeView) -> bool
    decreases n,
{
    match n {
        NodeView::BinaryOr(a, b) => literal_only(*a) && literal_only(*b),
        NodeView::BinaryAnd(a, b) => literal_only(*a) && literal_only(*b),
        NodeView::LeftShift(a, b) => literal_only(*a) && literal_only(*b),
        NodeView::RightShift(a, b) => literal_only(*a) && literal_only(*b),
        NodeView::Sum(a, b) => literal_only(*a) && literal_only(*b),
        NodeView::Substract(a, b) => literal_only(*a) && literal_only(*b),
        NodeView::Multiply(a, b) => literal_only(*a) && literal_only(*b),
        NodeView::Divide(a, b) => literal_only(*a) && literal_only(*b),
        NodeView::Invert(a) => literal_only(*a),
        NodeView::BinaryNot(a) => literal_only(*a),
        NodeView::Literal(_) => true,
        NodeView::Variable(_) => false,
    }
}

/// Law: evaluating a literal-only expression does not depend on the
/// context. Together with the exact contracts of [`parse_expression`]
/// and [`Node::evaluate`], parsing a literal-only text and evaluating it
/// under any context yields the value of the expression under the pure
/// signed-integer semantics of [`spec_evaluate`] with the empty
/// environment.
pub proof fn lemma_literal_only_eval(
    n: NodeView,
    env: Map<Seq<char>, Value>,
    width: WidthHint,
)
    requires
        literal_only(n),
    ensures
        spec_evaluate(n, env, width) == spec_evaluate(n, Map::<Seq<char>, Value>::empty(), width),
    decreases n,
{
    match n {
        NodeView::BinaryOr(a, b) => {
            lemma_literal_only_eval(*a, env, width);
            lemma_literal_only_eval(*b, env, width);
        },
        NodeView::BinaryAnd(a, b) => {
            lemma_literal_only_eval(*a, env, width);
            lemma_literal_only_eval(*b, env, width);
        },
        NodeView::LeftShift(a, b) => {
            lemma_literal_only_eval(*a, env, width);
            lemma_literal_only_eval(*b, env, width);
        },
        NodeView::RightShift(a, b) => {
            lemma_literal_only_eval(*a, env, width);
            lemma_literal_only_eval(*b, env, width);
        },
        NodeView::Sum(a, b) => {
            lemma_literal_only_eval(*a, env, width);
            lemma_literal_only_eval(*b, env, width);
        },
        NodeView::Substract(a, b) => {
            lemma_literal_only_eval(*a, env, width);
            lemma_literal_only_eval(*b, env, width);
        },
        NodeView::Multiply(a, b) => {
            lemma_literal_only_eval(*a, env, width);
            lemma_literal_only_eval(*b, env, width);
        },
        NodeView::Divide(a, b) => {
            lemma_literal_only_eval(*a, env, width);
            lemma_literal_only_eval(*b, env, width);
        },
        NodeView::Invert(a) => {
            lemma_literal_only_eval(*a, env, width);
        },
        NodeView::BinaryNot(a) => {
            lemma_literal_only_eval(*a, env, width);
        },
        NodeView::Literal(_) => {},
        NodeView::Variable(_) => {},
    }
}

/// Law: the round trip of a literal-only expression. If a text parses to
/// a literal-only tree, evaluating that tree under any context equals
/// its value under the pure signed-integer semantics (the empty
/// environment).
pub proof fn lemma_expression_round_trip(
    s: Seq<char>,
    env: Map<Seq<char>, Value>,
    width: WidthHint,
)
    requires
        spec_parse_expression(s) is Some,
        literal_only(spec_parse_expression(s)->Some_0.0),
    ensures
        spec_evaluate(spec_parse_expression(s)->Some_0.0, env, width) == spec_evaluate(
            spec_parse_expression(s)->Some_0.0,
            Map::<Seq<char>, Value>::empty(),
            width,
        ),
{
    lemma_literal_only_eval(spec_parse_expression(s)->Some_0.0, env, width);
}


/// The spans of the children of `n`, each shifted `k` scalars to the
/// right, saturating at the top of `usize`; the children themselves are
/// unchanged.
pub open spec fn spec_offset(n: Node, k: usize) -> Node {
    match n {
        Node::BinaryOr(a, b) => Node::BinaryOr(shifted(a, k), shifted(b, k)),
        Node::BinaryAnd(a, b) => Node::BinaryAnd(shifted(a, k), shifted(b, k)),
        Node::LeftShift(a, b) => Node::LeftShift(shifted(a, k), shifted(b, k)),
        Node::RightShift(a, b) => Node::RightShift(shifted(a, k), shifted(b, k)),
        Node::Sum(a, b) => Node::Sum(shifted(a, k), shifted(b, k)),
        Node::Substract(a, b) => Node::Substract(shifted(a, k), shifted(b, k)),
        Node::Multiply(a, b) => Node::Multiply(shifted(a, k), shifted(b, k)),
        Node::Divide(a, b) => Node::Divide(shifted(a, k), shifted(b, k)),
        Node::Invert(a) => Node::Invert(shifted(a, k)),
        Node::BinaryNot(a) => Node::BinaryNot(shifted(a, k)),
        Node::Literal(v) => Node::Literal(v),
        Node::Variable(name) => Node::Variable(name),
    }
}

/// `c` with its span shifted `k` scalars to the right.
pub open spec fn shifted(c: ChildNode, k: usize) -> ChildNode {
    Located {
        inner: c.inner,
        location: c.location.spec_rebase(Span { offset: k, length: 0 }),
    }
}

/// The spans of a tree rebased from parent-relative to absolute: each
/// child's span is counted from `parent`'s start, and its own children
/// from there in turn.
pub open spec fn spec_into_absolute(n: Node, parent: Span) -> Node
    decreases n,
{
    match n {
        Node::BinaryOr(a, b) => Node::BinaryOr(
            child_into_absolute(a, parent),
            child_into_absolute(b, parent),
        ),
        Node::BinaryAnd(a, b) => Node::BinaryAnd(
            child_into_absolute(a, parent),
            child_into_absolute(b, parent),
        ),
        Node::LeftShift(a, b) => Node::LeftShift(
            child_into_absolute(a, parent),
            child_into_absolute(b, parent),
        ),
        Node::RightShift(a, b) => Node::RightShift(
            child_into_absolute(a, parent),
            child_into_absolute(b, parent),
        ),
        Node::Sum(a, b) => Node::Sum(
            child_into_absolute(a, parent),
            child_into_absolute(b, parent),
        ),
        Node::Substract(a, b) => Node::Substract(
            child_into_absolute(a, parent),
            child_into_absolute(b, parent),
        ),
        Node::Multiply(a, b) => Node::Multiply(
            child_into_absolute(a, parent),
            child_into_absolute(b, parent),
        ),
        Node::Divide(a, b) => Node::Divide(
            child_into_absolute(a, parent),
            child_into_absolute(b, parent),
        ),
        Node::Invert(a) => Node::Invert(child_into_absolute(a, parent)),
        Node::BinaryNot(a) => Node::BinaryNot(child_into_absolute(a, parent)),
        Node::Literal(v) => Node::Literal(v),
        Node::Variable(name) => Node::Variable(name),
    }
}

/// One child rebased against its parent's absolute span.
pub open spec fn child_into_absolute(c: ChildNode, parent: Span) -> ChildNode
    decreases c, 1int,
{
    let abs = c.location.spec_rebase(parent);
    Located { inner: Box::new(spec_into_absolute(*c.inner, abs)), location: abs }
}

impl Node {
    /// Shift the spans of the immediate children `k` scalars to the
    /// right, as when a parsed subexpression is re-anchored inside a
    /// longer slice.
    pub fn offset(self, k: usize) -> (r: Node)
        ensures
            r == spec_offset(self, k),
    {
        match self {
            Node::BinaryOr(a, b) => Node::BinaryOr(shift_child(a, k), shift_child(b, k)),
            Node::BinaryAnd(a, b) => Node::BinaryAnd(shift_child(a, k), shift_child(b, k)),
            Node::LeftShift(a, b) => Node::LeftShift(shift_child(a, k), shift_child(b, k)),
            Node::RightShift(a, b) => Node::RightShift(shift_child(a, k), shift_child(b, k)),
            Node::Sum(a, b) => Node::Sum(shift_child(a, k), shift_child(b, k)),
            Node::Substract(a, b) => Node::Substract(shift_child(a, k), shift_child(b, k)),
            Node::Multiply(a, b) => Node::Multiply(shift_child(a, k), shift_child(b, k)),
            Node::Divide(a, b) => Node::Divide(shift_child(a, k), shift_child(b, k)),
            Node::Invert(a) => Node::Invert(shift_child(a, k)),
            Node::BinaryNot(a) => Node::BinaryNot(shift_child(a, k)),
            Node::Literal(v) => Node::Literal(v),
            Node::Variable(name) => Node::Variable(name),
        }
    }

    /// Rebase every span in the tree from parent-relative to absolute,
    /// against the absolute span of the parent slice.
    pub fn into_absolute(self, parent: &Span) -> (r: Node)
        ensures
            r == spec_into_absolute(self, *parent),
        decreases self,
    {
        match self {
            Node::BinaryOr(a, b) => Node::BinaryOr(
                absolute_child(a, parent),
                absolute_child(b, parent),
            ),
            Node::BinaryAnd(a, b) => Node::BinaryAnd(
                absolute_child(a, parent),
                absolute_child(b, parent),
            ),
            Node::LeftShift(a, b) => Node::LeftShift(
                absolute_child(a, parent),
                absolute_child(b, parent),
            ),
            Node::RightShift(a, b) => Node::RightShift(
                absolute_child(a, parent),
                absolute_child(b, parent),
            ),
            Node::Sum(a, b) => Node::Sum(absolute_child(a, parent), absolute_child(b, parent)),
            Node::Substract(a, b) => Node::Substract(
                absolute_child(a, parent),
                absolute_child(b, parent),
            ),
            Node::Multiply(a, b) => Node::Multiply(
                absolute_child(a, parent),
                absolute_child(b, parent),
            ),
            Node::Divide(a, b) => Node::Divide(
                absolute_child(a, parent),
                absolute_child(b, parent),
            ),
            Node::Invert(a) => Node::Invert(absolute_child(a, parent)),
            Node::BinaryNot(a) => Node::BinaryNot(absolute_child(a, parent)),
            Node::Literal(v) => Node::Literal(v),
            Node::Variable(name) => Node::Variable(name),
        }
    }
}

/// Shift one child's span.
fn shift_child(c: ChildNode, k: usize) -> (r: ChildNode)
    ensures
        r == shifted(c, k),
{
    let location = c.location.rebase(&Span { offset: k, length: 0 });
    Located { inner: c.inner, location }
}

/// Rebase one child and, below it, its own children.
fn absolute_child(c: ChildNode, parent: &Span) -> (r: ChildNode)
    ensures
        r == child_into_absolute(c, *parent),
    decreases c, 1int,
{
    let abs = c.location.rebase(parent);
    let inner = (*c.inner).into_absolute(&abs);
    Located { inner: Box::new(inner), location: abs }
}

} // verus!

