//! The trees and the values, in memory and as mathematical values.
use vstd::prelude::*;

verus! {

/// The methods that an expression can call on a value.
#[derive(Debug, PartialEq, Eq, Clone, Copy)]
pub enum MethodName {
    Len,
    Contains,
    Pow,
}

/// A 64-bit floating-point number as this library holds it.
///
/// The library never computes with floating-point numbers itself. A literal is
/// kept as the decimal text it was written with until the host has converted
/// it; every other number is the bit pattern of an IEEE 754 binary64 value.
#[derive(Debug, PartialEq, Eq)]
pub enum Float {
    Decimal(String),
    Bits(u64),
}

/// A runtime value, and the payload of a literal leaf of the tree.
#[derive(Debug, PartialEq)]
pub enum Literal {
    I64(i64),
    F64(Float),
    Bool(bool),
    String(String),
    Bytes(Vec<u8>),
    List(Vec<Expression>),
}

/// A node of the expression tree. Every node owns its children.
#[derive(Debug, PartialEq)]
pub enum Expression {
    Eq(Box<Expression>, Box<Expression>),
    Neq(Box<Expression>, Box<Expression>),
    Lt(Box<Expression>, Box<Expression>),
    Lte(Box<Expression>, Box<Expression>),
    Gte(Box<Expression>, Box<Expression>),
    Gt(Box<Expression>, Box<Expression>),
    Add(Box<Expression>, Box<Expression>),
    Sub(Box<Expression>, Box<Expression>),
    Mul(Box<Expression>, Box<Expression>),
    Div(Box<Expression>, Box<Expression>),
    Mod(Box<Expression>, Box<Expression>),
    Neg(Box<Expression>),
    Not(Box<Expression>),
    Method(Box<Expression>, MethodName, Vec<Expression>),
    Lit(Literal),
}

/// The mathematical value of a [`Float`].
pub enum FloatView {
    Decimal(Seq<char>),
    Bits(u64),
}

/// The mathematical value of a [`Literal`].
pub enum LiteralView {
    I64(i64),
    F64(FloatView),
    Bool(bool),
    String(Seq<char>),
    Bytes(Seq<u8>),
    List(Seq<ExpressionView>),
}

/// The mathematical value of an [`Expression`].
pub enum ExpressionView {
    Eq(Box<ExpressionView>, Box<ExpressionView>),
    Neq(Box<ExpressionView>, Box<ExpressionView>),
    Lt(Box<ExpressionView>, Box<ExpressionView>),
    Lte(Box<ExpressionView>, Box<ExpressionView>),
    Gte(Box<ExpressionView>, Box<ExpressionView>),
    Gt(Box<ExpressionView>, Box<ExpressionView>),
    Add(Box<ExpressionView>, Box<ExpressionView>),
    Sub(Box<ExpressionView>, Box<ExpressionView>),
    Mul(Box<ExpressionView>, Box<ExpressionView>),
    Div(Box<ExpressionView>, Box<ExpressionView>),
    Mod(Box<ExpressionView>, Box<ExpressionView>),
    Neg(Box<ExpressionView>),
    Not(Box<ExpressionView>),
    Method(Box<ExpressionView>, MethodName, Seq<ExpressionView>),
    Lit(LiteralView),
}

impl Float {
    pub open spec fn view(&self) -> FloatView {
        match self {
            Float::Decimal(text) => FloatView::Decimal(text@),
            Float::Bits(bits) => FloatView::Bits(*bits),
        }
    }
}

impl Literal {
    pub open spec fn view(&self) -> LiteralView
        decreases self,
    {
        match self {
            Literal::I64(x) => LiteralView::I64(*x),
            Literal::F64(x) => LiteralView::F64(x@),
            Literal::Bool(x) => LiteralView::Bool(*x),
            Literal::String(s) => LiteralView::String(s@),
            Literal::Bytes(b) => LiteralView::Bytes(b@),
            Literal::List(xs) => LiteralView::List(views(xs@)),
        }
    }
}

impl Expression {
    pub open spec fn view(&self) -> ExpressionView
        decreases self,
    {
        match self {
            Expression::Eq(a, b) => ExpressionView::Eq(Box::new(a@), Box::new(b@)),
            Expression::Neq(a, b) => ExpressionView::Neq(Box::new(a@), Box::new(b@)),
            Expression::Lt(a, b) => ExpressionView::Lt(Box::new(a@), Box::new(b@)),
            Expression::Lte(a, b) => ExpressionView::Lte(Box::new(a@), Box::new(b@)),
            Expression::Gte(a, b) => ExpressionView::Gte(Box::new(a@), Box::new(b@)),
            Expression::Gt(a, b) => ExpressionView::Gt(Box::new(a@), Box::new(b@)),
            Expression::Add(a, b) => ExpressionView::Add(Box::new(a@), Box::new(b@)),
            Expression::Sub(a, b) => ExpressionView::Sub(Box::new(a@), Box::new(b@)),
            Expression::Mul(a, b) => ExpressionView::Mul(Box::new(a@), Box::new(b@)),
            Expression::Div(a, b) => ExpressionView::Div(Box::new(a@), Box::new(b@)),
            Expression::Mod(a, b) => ExpressionView::Mod(Box::new(a@), Box::new(b@)),
            Expression::Neg(a) => ExpressionView::Neg(Box::new(a@)),
            Expression::Not(a) => ExpressionView::Not(Box::new(a@)),
            Expression::Method(receiver, name, args) => ExpressionView::Method(
                Box::new(receiver@),
                *name,
                views(args@),
            ),
            Expression::Lit(literal) => ExpressionView::Lit(literal@),
        }
    }
}

/// The values of a sequence of expressions, element by element.
pub open spec fn views(xs: Seq<Expression>) -> Seq<ExpressionView>
    decreases xs,
{
    Seq::new(
        xs.len(),
        |i: int|
            if 0 <= i < xs.len() {
                xs[i]@
            } else {
                arbitrary()
            },
    )
}

/// The operators with one operand.
#[derive(Debug, PartialEq, Eq, Clone, Copy)]
pub enum UnaryKind {
    Neg,
    Not,
}

/// The operators with two operands.
#[derive(Debug, PartialEq, Eq, Clone, Copy)]
pub enum BinaryKind {
    Eq,
    Neq,
    Lt,
    Lte,
    Gte,
    Gt,
    Add,
    Sub,
    Mul,
    Div,
    Mod,
}

/// The node of a unary operator.
pub open spec fn unary_node(kind: UnaryKind, a: ExpressionView) -> ExpressionView {
    match kind {
        UnaryKind::Neg => ExpressionView::Neg(Box::new(a)),
        UnaryKind::Not => ExpressionView::Not(Box::new(a)),
    }
}

/// The node of a binary operator.
pub open spec fn binary_node(
    kind: BinaryKind,
    a: ExpressionView,
    b: ExpressionView,
) -> ExpressionView {
    match kind {
        BinaryKind::Eq => ExpressionView::Eq(Box::new(a), Box::new(b)),
        BinaryKind::Neq => ExpressionView::Neq(Box::new(a), Box::new(b)),
        BinaryKind::Lt => ExpressionView::Lt(Box::new(a), Box::new(b)),
        BinaryKind::Lte => ExpressionView::Lte(Box::new(a), Box::new(b)),
        BinaryKind::Gte => ExpressionView::Gte(Box::new(a), Box::new(b)),
        BinaryKind::Gt => ExpressionView::Gt(Box::new(a), Box::new(b)),
        BinaryKind::Add => ExpressionView::Add(Box::new(a), Box::new(b)),
        BinaryKind::Sub => ExpressionView::Sub(Box::new(a), Box::new(b)),
        BinaryKind::Mul => ExpressionView::Mul(Box::new(a), Box::new(b)),
        BinaryKind::Div => ExpressionView::Div(Box::new(a), Box::new(b)),
        BinaryKind::Mod => ExpressionView::Mod(Box::new(a), Box::new(b)),
    }
}

/// The operator of a node with one operand.
pub open spec fn unary_kind(e: ExpressionView) -> UnaryKind {
    match e {
        ExpressionView::Neg(_) => UnaryKind::Neg,
        _ => UnaryKind::Not,
    }
}

/// The operator of a node with two operands.
pub open spec fn binary_kind(e: ExpressionView) -> BinaryKind {
    match e {
        ExpressionView::Eq(_, _) => BinaryKind::Eq,
        ExpressionView::Neq(_, _) => BinaryKind::Neq,
        ExpressionView::Lt(_, _) => BinaryKind::Lt,
        ExpressionView::Lte(_, _) => BinaryKind::Lte,
        ExpressionView::Gte(_, _) => BinaryKind::Gte,
        ExpressionView::Gt(_, _) => BinaryKind::Gt,
        ExpressionView::Add(_, _) => BinaryKind::Add,
        ExpressionView::Sub(_, _) => BinaryKind::Sub,
        ExpressionView::Mul(_, _) => BinaryKind::Mul,
        ExpressionView::Div(_, _) => BinaryKind::Div,
        _ => BinaryKind::Mod,
    }
}

/// A node taken apart: its operator and the subtrees that it owns.
pub enum Shape {
    Leaf(Literal),
    Unary(UnaryKind, Box<Expression>),
    Binary(BinaryKind, Box<Expression>, Box<Expression>),
    Call(Box<Expression>, MethodName, Vec<Expression>),
}

impl Shape {
    /// The tree that the parts make.
    pub open spec fn view(&self) -> ExpressionView {
        match self {
            Shape::Leaf(value) => ExpressionView::Lit(value@),
            Shape::Unary(kind, a) => unary_node(*kind, a@),
            Shape::Binary(kind, a, b) => binary_node(*kind, a@, b@),
            Shape::Call(receiver, name, args) => ExpressionView::Method(
                Box::new(receiver@),
                *name,
                views(args@),
            ),
        }
    }
}

impl Expression {
    /// Takes a node apart.
    pub fn into_shape(self) -> (r: Shape)
        ensures
            r@ == self@,
    {
        match self {
            Expression::Eq(a, b) => Shape::Binary(BinaryKind::Eq, a, b),
            Expression::Neq(a, b) => Shape::Binary(BinaryKind::Neq, a, b),
            Expression::Lt(a, b) => Shape::Binary(BinaryKind::Lt, a, b),
            Expression::Lte(a, b) => Shape::Binary(BinaryKind::Lte, a, b),
            Expression::Gte(a, b) => Shape::Binary(BinaryKind::Gte, a, b),
            Expression::Gt(a, b) => Shape::Binary(BinaryKind::Gt, a, b),
            Expression::Add(a, b) => Shape::Binary(BinaryKind::Add, a, b),
            Expression::Sub(a, b) => Shape::Binary(BinaryKind::Sub, a, b),
            Expression::Mul(a, b) => Shape::Binary(BinaryKind::Mul, a, b),
            Expression::Div(a, b) => Shape::Binary(BinaryKind::Div, a, b),
            Expression::Mod(a, b) => Shape::Binary(BinaryKind::Mod, a, b),
            Expression::Neg(a) => Shape::Unary(UnaryKind::Neg, a),
            Expression::Not(a) => Shape::Unary(UnaryKind::Not, a),
            Expression::Method(receiver, name, args) => Shape::Call(receiver, name, args),
            Expression::Lit(value) => Shape::Leaf(value),
        }
    }

    /// The node of a unary operator.
    pub fn unary(kind: UnaryKind, a: Expression) -> (r: Expression)
        ensures
            r@ == unary_node(kind, a@),
    {
        match kind {
            UnaryKind::Neg => Expression::Neg(Box::new(a)),
            UnaryKind::Not => Expression::Not(Box::new(a)),
        }
    }

    /// The node of a binary operator.
    pub fn binary(kind: BinaryKind, a: Expression, b: Expression) -> (r: Expression)
        ensures
            r@ == binary_node(kind, a@, b@),
    {
        match kind {
            BinaryKind::Eq => Expression::Eq(Box::new(a), Box::new(b)),
            BinaryKind::Neq => Expression::Neq(Box::new(a), Box::new(b)),
            BinaryKind::Lt => Expression::Lt(Box::new(a), Box::new(b)),
            BinaryKind::Lte => Expression::Lte(Box::new(a), Box::new(b)),
            BinaryKind::Gte => Expression::Gte(Box::new(a), Box::new(b)),
            BinaryKind::Gt => Expression::Gt(Box::new(a), Box::new(b)),
            BinaryKind::Add => Expression::Add(Box::new(a), Box::new(b)),
            BinaryKind::Sub => Expression::Sub(Box::new(a), Box::new(b)),
            BinaryKind::Mul => Expression::Mul(Box::new(a), Box::new(b)),
            BinaryKind::Div => Expression::Div(Box::new(a), Box::new(b)),
            BinaryKind::Mod => Expression::Mod(Box::new(a), Box::new(b)),
        }
    }
}

impl Clone for Float {
    fn clone(&self) -> (res: Self)
        ensures
            res@ == self@,
    {
        match self {
            Float::Decimal(text) => Float::Decimal(text.clone()),
            Float::Bits(bits) => Float::Bits(*bits),
        }
    }
}

impl Clone for Literal {
    fn clone(&self) -> (res: Self)
        ensures
            res@ == self@,
        decreases self,
    {
        match self {
            Literal::I64(x) => Literal::I64(*x),
            Literal::F64(x) => Literal::F64(x.clone()),
            Literal::Bool(x) => Literal::Bool(*x),
            Literal::String(s) => Literal::String(s.clone()),
            Literal::Bytes(b) => Literal::Bytes(copy_bytes(b)),
            Literal::List(xs) => Literal::List(copy_expressions(xs)),
        }
    }
}

impl Clone for Expression {
    fn clone(&self) -> (res: Self)
        ensures
            res@ == self@,
        decreases self,
    {
        match self {
            Expression::Eq(a, b) => Expression::Eq(Box::new((**a).clone()), Box::new((**b).clone())),
            Expression::Neq(a, b) => Expression::Neq(
                Box::new((**a).clone()),
                Box::new((**b).clone()),
            ),
            Expression::Lt(a, b) => Expression::Lt(Box::new((**a).clone()), Box::new((**b).clone())),
            Expression::Lte(a, b) => Expression::Lte(
                Box::new((**a).clone()),
                Box::new((**b).clone()),
            ),
            Expression::Gte(a, b) => Expression::Gte(
                Box::new((**a).clone()),
                Box::new((**b).clone()),
            ),
            Expression::Gt(a, b) => Expression::Gt(Box::new((**a).clone()), Box::new((**b).clone())),
            Expression::Add(a, b) => Expression::Add(
                Box::new((**a).clone()),
                Box::new((**b).clone()),
            ),
            Expression::Sub(a, b) => Expression::Sub(
                Box::new((**a).clone()),
                Box::new((**b).clone()),
            ),
            Expression::Mul(a, b) => Expression::Mul(
                Box::new((**a).clone()),
                Box::new((**b).clone()),
            ),
            Expression::Div(a, b) => Expression::Div(
                Box::new((**a).clone()),
                Box::new((**b).clone()),
            ),
            Expression::Mod(a, b) => Expression::Mod(
                Box::new((**a).clone()),
                Box::new((**b).clone()),
            ),
            Expression::Neg(a) => Expression::Neg(Box::new((**a).clone())),
            Expression::Not(a) => Expression::Not(Box::new((**a).clone())),
            Expression::Method(receiver, name, args) => Expression::Method(
                Box::new((**receiver).clone()),
                *name,
                copy_expressions(args),
            ),
            Expression::Lit(literal) => Expression::Lit(literal.clone()),
        }
    }
}

/// A copy of a byte vector.
pub fn copy_bytes(bytes: &Vec<u8>) -> (res: Vec<u8>)
    ensures
        res@ == bytes@,
{
    let mut res: Vec<u8> = Vec::new();
    let mut i: usize = 0;
    while i < bytes.len()
        invariant
            i <= bytes.len(),
            res@ == bytes@.take(i as int),
        decreases bytes.len() - i,
    {
        res.push(bytes[i]);
        i += 1;
    }
    res
}

/// A deep copy of a vector of expressions.
pub fn copy_expressions(xs: &Vec<Expression>) -> (res: Vec<Expression>)
    ensures
        views(res@) == views(xs@),
    decreases xs,
{
    let mut res: Vec<Expression> = Vec::new();
    let mut i: usize = 0;
    while i < xs.len()
        invariant
            i <= xs.len(),
            res.len() == i,
            forall|j: int| 0 <= j < i ==> (#[trigger] res[j])@ == xs[j]@,
        decreases xs.len() - i,
    {
        res.push(xs[i].clone());
        i += 1;
    }
    res
}

} // verus!
