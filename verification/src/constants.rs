//! Constant expressions of Miden Assembly and their folding into values.

use vstd::prelude::*;

use crate::felt::{P, add_spec, felt_add, felt_mul, felt_sub, is_felt, mul_spec, sub_spec};
use crate::felt::{felt_inv, inverse_of};

verus! {

/// A range of bytes in a source file.
#[derive(Clone, Copy, Debug, PartialEq, Eq, Structural)]
pub struct SourceSpan {
    pub start: u32,
    pub end: u32,
}

/// A name with the span it was written at.
#[derive(Clone, Debug)]
pub struct Ident {
    pub name: String,
    pub span: SourceSpan,
}

/// The binary arithmetic operators of constant expressions.
#[derive(Debug, Copy, Clone, PartialEq, Eq, Structural, Hash)]
pub enum ConstantOp {
    Add,
    Sub,
    Mul,
    Div,
    IntDiv,
}

impl ConstantOp {
    /// Returns the name of this operator.
    pub fn name(&self) -> (r: &'static str)
        ensures
            r@ == (match *self {
                ConstantOp::Add => "Add"@,
                ConstantOp::Sub => "Sub"@,
                ConstantOp::Mul => "Mul"@,
                ConstantOp::Div => "Div"@,
                ConstantOp::IntDiv => "IntDiv"@,
            }),
    {
        match self {
            ConstantOp::Add => "Add",
            ConstantOp::Sub => "Sub",
            ConstantOp::Mul => "Mul",
            ConstantOp::Div => "Div",
            ConstantOp::IntDiv => "IntDiv",
        }
    }

    /// Returns the symbol of this operator in Miden Assembly.
    pub fn symbol(&self) -> (r: &'static str)
        ensures
            r@ == (match *self {
                ConstantOp::Add => "+"@,
                ConstantOp::Sub => "-"@,
                ConstantOp::Mul => "*"@,
                ConstantOp::Div => "/"@,
                ConstantOp::IntDiv => "//"@,
            }),
    {
        match self {
            ConstantOp::Add => "+",
            ConstantOp::Sub => "-",
            ConstantOp::Mul => "*",
            ConstantOp::Div => "/",
            ConstantOp::IntDiv => "//",
        }
    }
}

/// The type of value that a string is hashed to.
#[derive(Debug, Copy, Clone, PartialEq, Eq, Structural, Hash)]
pub enum HashKind {
    /// Reduce a string to a word using the Blake3 hash function.
    Word,
    /// Reduce a string to a field element using the Blake3 hash function.
    Event,
}

impl HashKind {
    /// Returns the keyword of this kind in Miden Assembly.
    pub fn keyword(&self) -> (r: &'static str)
        ensures
            r@ == (match *self {
                HashKind::Word => "word"@,
                HashKind::Event => "event"@,
            }),
    {
        match self {
            HashKind::Word => "word",
            HashKind::Event => "event",
        }
    }
}

/// A constant expression or value of Miden Assembly.
pub enum ConstantExpr {
    /// A literal field element.
    Int { span: SourceSpan, value: u64 },
    /// A reference to another constant.
    Var(Ident),
    /// A binary arithmetic operation.
    BinaryOp { span: SourceSpan, op: ConstantOp, lhs: Box<ConstantExpr>, rhs: Box<ConstantExpr> },
    /// A string.
    String(Ident),
    /// A literal word.
    Word { span: SourceSpan, value: [u64; 4] },
    /// A string to hash to a value of the given kind.
    Hash(HashKind, Ident),
}

/// A constant definition: `const.NAME = value`, with its span and documentation.
pub struct Constant {
    /// The span of the definition.
    pub span: SourceSpan,
    /// The documentation attached to the definition.
    pub docs: Option<String>,
    /// The name of the constant.
    pub name: Ident,
    /// The expression that defines the constant.
    pub value: ConstantExpr,
}

impl Constant {
    /// Returns a constant definition without documentation.
    pub fn new(span: SourceSpan, name: Ident, value: ConstantExpr) -> (r: Self)
        ensures
            r == (Constant { span, docs: None, name, value }),
    {
        Constant { span, docs: None, name, value }
    }

    /// Returns this definition with the given documentation.
    pub fn with_docs(self, docs: Option<String>) -> (r: Self)
        ensures
            r == (Constant { docs, ..self }),
    {
        Constant { docs, ..self }
    }
}

impl Ident {
    /// Returns a copy of this name.
    pub fn duplicate(&self) -> (r: Ident)
        ensures
            r == *self,
    {
        Ident { name: self.name.clone(), span: self.span }
    }
}

impl ConstantExpr {
    /// Returns a copy of this expression.
    pub fn duplicate(&self) -> (r: ConstantExpr)
        ensures
            r == *self,
        decreases self,
    {
        match self {
            ConstantExpr::Int { span, value } => ConstantExpr::Int { span: *span, value: *value },
            ConstantExpr::Var(id) => ConstantExpr::Var(id.duplicate()),
            ConstantExpr::BinaryOp { span, op, lhs, rhs } => ConstantExpr::BinaryOp {
                span: *span,
                op: *op,
                lhs: Box::new(lhs.duplicate()),
                rhs: Box::new(rhs.duplicate()),
            },
            ConstantExpr::String(id) => ConstantExpr::String(id.duplicate()),
            ConstantExpr::Word { span, value } => ConstantExpr::Word { span: *span, value: *value },
            ConstantExpr::Hash(kind, id) => ConstantExpr::Hash(*kind, id.duplicate()),
        }
    }
}

/// Whether two names are equal: names compare by their text alone.
pub open spec fn ident_eq(a: Ident, b: Ident) -> bool {
    a.name@ == b.name@
}

/// Equality of constant expressions: spans are not compared and names and strings compare by
/// their text.
pub open spec fn expr_eq(a: ConstantExpr, b: ConstantExpr) -> bool
    decreases a,
{
    match (a, b) {
        (ConstantExpr::Int { value: x, .. }, ConstantExpr::Int { value: y, .. }) => x == y,
        (ConstantExpr::Word { value: x, .. }, ConstantExpr::Word { value: y, .. }) => x@ == y@,
        (ConstantExpr::Var(x), ConstantExpr::Var(y)) => ident_eq(x, y),
        (ConstantExpr::String(x), ConstantExpr::String(y)) => ident_eq(x, y),
        (ConstantExpr::Hash(xk, x), ConstantExpr::Hash(yk, y)) => ident_eq(x, y) && xk == yk,
        (
            ConstantExpr::BinaryOp { op: xo, lhs: xl, rhs: xr, .. },
            ConstantExpr::BinaryOp { op: yo, lhs: yl, rhs: yr, .. },
        ) => xo == yo && expr_eq(*xl, *yl) && expr_eq(*xr, *yr),
        _ => false,
    }
}

/// Whether two constant expressions are equal, as [`expr_eq`] says.
fn expr_equal(a: &ConstantExpr, b: &ConstantExpr) -> (r: bool)
    ensures
        r == expr_eq(*a, *b),
    decreases a,
{
    match (a, b) {
        (ConstantExpr::Int { value: x, .. }, ConstantExpr::Int { value: y, .. }) => *x == *y,
        (ConstantExpr::Word { value: x, .. }, ConstantExpr::Word { value: y, .. }) => {
            let same = x[0] == y[0] && x[1] == y[1] && x[2] == y[2] && x[3] == y[3];
            proof {
                if same {
                    assert(x@ =~= y@);
                }
            }
            same
        },
        (ConstantExpr::Var(x), ConstantExpr::Var(y)) => x.name == y.name,
        (ConstantExpr::String(x), ConstantExpr::String(y)) => x.name == y.name,
        (ConstantExpr::Hash(xk, x), ConstantExpr::Hash(yk, y)) => x.name == y.name && *xk == *yk,
        (
            ConstantExpr::BinaryOp { op: xo, lhs: xl, rhs: xr, .. },
            ConstantExpr::BinaryOp { op: yo, lhs: yl, rhs: yr, .. },
        ) => *xo == *yo && expr_equal(xl, yl) && expr_equal(xr, yr),
        _ => false,
    }
}

/// Equality of constant expressions is an equivalence: reflexive, symmetric and transitive.
pub proof fn lemma_expr_eq_equivalence(a: ConstantExpr, b: ConstantExpr, c: ConstantExpr)
    ensures
        expr_eq(a, a),
        expr_eq(a, b) ==> expr_eq(b, a),
        expr_eq(a, b) && expr_eq(b, c) ==> expr_eq(a, c),
    decreases a,
{
    match (a, b, c) {
        (
            ConstantExpr::BinaryOp { lhs: al, rhs: ar, .. },
            ConstantExpr::BinaryOp { lhs: bl, rhs: br, .. },
            ConstantExpr::BinaryOp { lhs: cl, rhs: cr, .. },
        ) => {
            lemma_expr_eq_equivalence(*al, *bl, *cl);
            lemma_expr_eq_equivalence(*ar, *br, *cr);
        },
        (ConstantExpr::BinaryOp { lhs: al, rhs: ar, .. }, _, _) => {
            lemma_expr_eq_equivalence(*al, *al, *al);
            lemma_expr_eq_equivalence(*ar, *ar, *ar);
            match b {
                ConstantExpr::BinaryOp { lhs: bl, rhs: br, .. } => {
                    lemma_expr_eq_equivalence(*al, *bl, *bl);
                    lemma_expr_eq_equivalence(*ar, *br, *br);
                },
                _ => {},
            }
        },
        _ => {},
    }
}

impl PartialEq for ConstantExpr {
    fn eq(&self, other: &Self) -> (r: bool) {
        expr_equal(self, other)
    }
}

impl vstd::std_specs::cmp::PartialEqSpecImpl for ConstantExpr {
    open spec fn obeys_eq_spec() -> bool {
        true
    }

    open spec fn eq_spec(&self, other: &ConstantExpr) -> bool {
        expr_eq(*self, *other)
    }
}

impl PartialEq for Constant {
    fn eq(&self, other: &Self) -> (r: bool) {
        self.name.name == other.name.name && expr_equal(&self.value, &other.value)
    }
}

impl vstd::std_specs::cmp::PartialEqSpecImpl for Constant {
    open spec fn obeys_eq_spec() -> bool {
        true
    }

    open spec fn eq_spec(&self, other: &Constant) -> bool {
        ident_eq(self.name, other.name) && expr_eq(self.value, other.value)
    }
}

impl ConstantExpr {
    /// Returns the span of this expression.
    pub fn span(&self) -> (r: SourceSpan)
        ensures
            r == (match *self {
                ConstantExpr::Int { span, .. } => span,
                ConstantExpr::Word { span, .. } => span,
                ConstantExpr::Hash(_, id) => id.span,
                ConstantExpr::Var(id) => id.span,
                ConstantExpr::String(id) => id.span,
                ConstantExpr::BinaryOp { span, .. } => span,
            }),
    {
        match self {
            ConstantExpr::Int { span, .. } => *span,
            ConstantExpr::Word { span, .. } => *span,
            ConstantExpr::Hash(_, id) => id.span,
            ConstantExpr::Var(id) => id.span,
            ConstantExpr::String(id) => id.span,
            ConstantExpr::BinaryOp { span, .. } => *span,
        }
    }

    /// Returns the integer of an integer literal.
    pub fn expect_int(&self) -> (r: u64)
        requires
            *self is Int,
        ensures
            r == self->Int_value,
    {
        match self {
            ConstantExpr::Int { value, .. } => *value,
            _ => 0,
        }
    }

    /// Returns the field element of an integer literal.
    pub fn expect_felt(&self) -> (r: u64)
        requires
            *self is Int,
        ensures
            r == self->Int_value % P,
    {
        match self {
            ConstantExpr::Int { value, .. } => *value % P,
            _ => 0,
        }
    }

    /// Returns the text of a string.
    pub fn expect_string(&self) -> (r: String)
        requires
            *self is String,
        ensures
            r@ == self->String_0.name@,
    {
        match self {
            ConstantExpr::String(id) => id.name.clone(),
            _ => String::new(),
        }
    }
}

/// Errors in folding constant expressions.
#[derive(Clone, Copy, Debug, PartialEq, Eq)]
pub enum ParsingError {
    /// A string was used as an operand of arithmetic.
    StringInArithmeticExpression { span: SourceSpan },
    /// A division by zero.
    DivisionByZero { span: SourceSpan },
}

/// Field division: `a` times the inverse of `b`.
pub open spec fn div_spec(a: u64, b: u64) -> int {
    mul_spec(a as int, inverse_of(b) as int)
}

/// The value of `op` applied to two field elements.
pub open spec fn apply_op(op: ConstantOp, a: u64, b: u64) -> int {
    match op {
        ConstantOp::Add => add_spec(a as int, b as int),
        ConstantOp::Sub => sub_spec(a as int, b as int),
        ConstantOp::Mul => mul_spec(a as int, b as int),
        ConstantOp::Div => div_spec(a, b),
        ConstantOp::IntDiv => div_spec(a, b),
    }
}

/// Whether the expression refers to no other constant.
pub open spec fn is_literal(e: ConstantExpr) -> bool
    decreases e,
{
    match e {
        ConstantExpr::Var(_) => false,
        ConstantExpr::BinaryOp { lhs, rhs, .. } => is_literal(*lhs) && is_literal(*rhs),
        _ => true,
    }
}

/// Every integer literal of the expression is a field element.
pub open spec fn ints_are_felts(e: ConstantExpr) -> bool
    decreases e,
{
    match e {
        ConstantExpr::Int { value, .. } => is_felt(value as int),
        ConstantExpr::BinaryOp { lhs, rhs, .. } => ints_are_felts(*lhs) && ints_are_felts(*rhs),
        _ => true,
    }
}

/// The result of folding an expression: operations whose operands fold to integers are
/// computed, from the right operand on, as long as the right operand refers to no constant.
pub open spec fn fold(e: ConstantExpr) -> Result<ConstantExpr, ParsingError>
    decreases e,
{
    match e {
        ConstantExpr::BinaryOp { span, op, lhs, rhs } => {
            if is_literal(*rhs) {
                match fold(*rhs) {
                    Err(err) => Err(err),
                    Ok(ConstantExpr::String(ident)) => Err(
                        ParsingError::StringInArithmeticExpression { span: ident.span },
                    ),
                    Ok(ConstantExpr::Int { span: rspan, value: b }) => match fold(*lhs) {
                        Err(err) => Err(err),
                        Ok(ConstantExpr::String(ident)) => Err(
                            ParsingError::StringInArithmeticExpression { span: ident.span },
                        ),
                        Ok(ConstantExpr::Int { value: a, .. }) => {
                            if (op == ConstantOp::Div || op == ConstantOp::IntDiv) && b == 0 {
                                Err(ParsingError::DivisionByZero { span })
                            } else {
                                Ok(ConstantExpr::Int { span, value: apply_op(op, a, b) as u64 })
                            }
                        },
                        Ok(l) => Ok(
                            ConstantExpr::BinaryOp {
                                span,
                                op,
                                lhs: Box::new(l),
                                rhs: Box::new(ConstantExpr::Int { span: rspan, value: b }),
                            },
                        ),
                    },
                    Ok(r) => match fold(*lhs) {
                        Err(err) => Err(err),
                        Ok(l) => Ok(ConstantExpr::BinaryOp { span, op, lhs: Box::new(l), rhs: Box::new(r) }),
                    },
                }
            } else {
                match fold(*lhs) {
                    Err(err) => Err(err),
                    Ok(l) => Ok(ConstantExpr::BinaryOp { span, op, lhs: Box::new(l), rhs }),
                }
            }
        },
        _ => Ok(e),
    }
}

impl ConstantExpr {
    /// Whether this expression refers to no other constant.
    pub fn is_literal(&self) -> (r: bool)
        ensures
            r == is_literal(*self),
        decreases self,
    {
        match self {
            ConstantExpr::Var(_) => false,
            ConstantExpr::BinaryOp { lhs, rhs, .. } => lhs.is_literal() && rhs.is_literal(),
            _ => true,
        }
    }

    /// Attempts to fold this expression to a single value; only parts that refer to no other
    /// constant are folded.
    ///
    /// Fails on a string used in arithmetic and on a division by zero.
    pub fn try_fold(self) -> (r: Result<ConstantExpr, ParsingError>)
        requires
            ints_are_felts(self),
        ensures
            r == fold(self),
            r matches Ok(e) ==> ints_are_felts(e),
        decreases self,
    {
        match self {
            ConstantExpr::BinaryOp { span, op, lhs, rhs } => {
                if rhs.is_literal() {
                    let rhs_folded = (*rhs).try_fold();
                    match rhs_folded {
                        Err(err) => Err(err),
                        Ok(ConstantExpr::String(ident)) => Err(
                            ParsingError::StringInArithmeticExpression { span: ident.span },
                        ),
                        Ok(ConstantExpr::Int { span: rspan, value: b }) => {
                            let lhs_folded = (*lhs).try_fold();
                            match lhs_folded {
                                Err(err) => Err(err),
                                Ok(ConstantExpr::String(ident)) => Err(
                                    ParsingError::StringInArithmeticExpression { span: ident.span },
                                ),
                                Ok(ConstantExpr::Int { value: a, .. }) => {
                                    let is_division = op == ConstantOp::Div || op == ConstantOp::IntDiv;
                                    if is_division && b == 0 {
                                        return Err(ParsingError::DivisionByZero { span });
                                    }
                                    let value = match op {
                                        ConstantOp::Add => felt_add(a, b),
                                        ConstantOp::Sub => felt_sub(a, b),
                                        ConstantOp::Mul => felt_mul(a, b),
                                        ConstantOp::Div => felt_mul(a, felt_inv(b)),
                                        ConstantOp::IntDiv => felt_mul(a, felt_inv(b)),
                                    };
                                    Ok(ConstantExpr::Int { span, value })
                                },
                                Ok(l) => Ok(
                                    ConstantExpr::BinaryOp {
                                        span,
                                        op,
                                        lhs: Box::new(l),
                                        rhs: Box::new(ConstantExpr::Int { span: rspan, value: b }),
                                    },
                                ),
                            }
                        },
                        Ok(r) => {
                            let lhs_folded = (*lhs).try_fold();
                            match lhs_folded {
                                Err(err) => Err(err),
                                Ok(l) => Ok(
                                    ConstantExpr::BinaryOp { span, op, lhs: Box::new(l), rhs: Box::new(r) },
                                ),
                            }
                        },
                    }
                } else {
                    let lhs_folded = (*lhs).try_fold();
                    match lhs_folded {
                        Err(err) => Err(err),
                        Ok(l) => Ok(ConstantExpr::BinaryOp { span, op, lhs: Box::new(l), rhs }),
                    }
                }
            },
            _ => Ok(self),
        }
    }
}

/// The value of an expression made only of integer literals and arithmetic, if no division by
/// zero occurs in it.
pub open spec fn eval(e: ConstantExpr) -> Option<int>
    decreases e,
{
    match e {
        ConstantExpr::Int { value, .. } => Some(value as int),
        ConstantExpr::BinaryOp { op, lhs, rhs, .. } => match (eval(*lhs), eval(*rhs)) {
            (Some(a), Some(b)) => if (op == ConstantOp::Div || op == ConstantOp::IntDiv) && b == 0 {
                None
            } else {
                Some(apply_op(op, a as u64, b as u64))
            },
            _ => None,
        },
        _ => None,
    }
}

/// An expression with a value refers to no other constant, and its value is a field element.
pub proof fn lemma_eval_literal(e: ConstantExpr)
    requires
        ints_are_felts(e),
        eval(e) is Some,
    ensures
        is_literal(e),
        is_felt(eval(e)->0),
    decreases e,
{
    if let ConstantExpr::BinaryOp { op, lhs, rhs, .. } = e {
        lemma_eval_literal(*lhs);
        lemma_eval_literal(*rhs);
        let a = eval(*lhs)->0;
        let b = eval(*rhs)->0;
        vstd::arithmetic::div_mod::lemma_mod_bound(a + b, P as int);
        vstd::arithmetic::div_mod::lemma_mod_bound(a - b, P as int);
        vstd::arithmetic::div_mod::lemma_mod_bound(a * b, P as int);
        vstd::arithmetic::div_mod::lemma_mod_bound(a * inverse_of(b as u64), P as int);
    }
}

/// Folding an expression that has a value gives that value as an integer literal.
pub proof fn lemma_fold_evaluates(e: ConstantExpr)
    requires
        ints_are_felts(e),
        eval(e) is Some,
    ensures
        fold(e) matches Ok(ConstantExpr::Int { value, .. }) && value == eval(e)->0,
    decreases e,
{
    lemma_eval_literal(e);
    if let ConstantExpr::BinaryOp { op, lhs, rhs, .. } = e {
        lemma_fold_evaluates(*lhs);
        lemma_fold_evaluates(*rhs);
    }
}

/// Folding keeps an expression free of references to other constants.
pub proof fn lemma_fold_keeps_literal(e: ConstantExpr)
    requires
        is_literal(e),
        fold(e) is Ok,
    ensures
        is_literal(fold(e)->Ok_0),
    decreases e,
{
    if let ConstantExpr::BinaryOp { op, lhs, rhs, .. } = e {
        lemma_fold_keeps_literal(*lhs);
        lemma_fold_keeps_literal(*rhs);
    }
}

/// Folding is idempotent: a folded expression folds to itself.
pub proof fn lemma_fold_idempotent(e: ConstantExpr)
    requires
        fold(e) is Ok,
    ensures
        fold(fold(e)->Ok_0) == fold(e),
    decreases e,
{
    if let ConstantExpr::BinaryOp { op, lhs, rhs, .. } = e {
        lemma_fold_idempotent(*lhs);
        if is_literal(*rhs) {
            lemma_fold_idempotent(*rhs);
            lemma_fold_keeps_literal(*rhs);
        }
    }
}

} // verus!
