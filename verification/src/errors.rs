//! The failures of an evaluation, and the requests for floating-point
//! computations.
use crate::model::{Literal, LiteralView, MethodName};
use vstd::prelude::*;
use vstd::string::StringExecFns;

verus! {

/// The floating-point operations that take two operands.
#[derive(Debug, PartialEq, Eq, Clone, Copy)]
pub enum FloatOp {
    Add,
    Sub,
    Mul,
    Div,
    Pow,
}

/// A floating-point computation that an evaluation is waiting for.
///
/// Floating-point numbers are held here as bit patterns and never computed
/// with. Where the rules of the language call for a floating-point result the
/// evaluation stops with a request, and goes on once the host has put the
/// result in its place (see [`resolve`](crate::floats::resolve)).
#[derive(Debug, PartialEq, Eq)]
pub enum FloatRequest {
    /// The binary64 value nearest to a decimal literal.
    Convert(String),
    /// The operation on two binary64 values, left operand first.
    Binary(FloatOp, u64, u64),
    /// A binary64 value raised to an integer exponent, which is converted to
    /// binary64 before the general real power is taken.
    PowInt(u64, i64),
}

/// Why an evaluation stopped without a value.
#[derive(Debug, PartialEq, Eq)]
pub enum EvalError {
    /// An operator met a value, or a pair of values, that it is not defined for.
    InvalidTypes,
    /// An integer division or remainder by zero.
    DivideByZero,
    /// An integer result outside the 64-bit signed range.
    Overflow,
    /// A method was called with a number of arguments that it does not take.
    WrongArgumentCount(MethodName),
    /// A method was called on a value of a type that does not have it.
    IllegalType(MethodName),
    /// A method was called on a boolean, which has none.
    IllegalMethodCall(bool, MethodName),
    /// The evaluation came to a floating-point computation.
    NeedsFloat(FloatRequest),
}

/// What an evaluation returns.
pub type EvalResult = Result<Literal, EvalError>;

/// The mathematical value of a [`FloatRequest`].
pub enum FloatRequestView {
    Convert(Seq<char>),
    Binary(FloatOp, u64, u64),
    PowInt(u64, i64),
}

/// The mathematical value of an [`EvalError`].
pub enum EvalErrorView {
    InvalidTypes,
    DivideByZero,
    Overflow,
    WrongArgumentCount(MethodName),
    IllegalType(MethodName),
    IllegalMethodCall(bool, MethodName),
    NeedsFloat(FloatRequestView),
}

/// What an evaluation comes to: a value or the reason why there is none.
pub type Outcome = Result<LiteralView, EvalErrorView>;

/// Where floating-point results come from: `None` stands for the library on its
/// own, which stops at each floating-point computation with a request; `Some`
/// holds the function by which a host answers the requests.
pub type FloatUnit = Option<spec_fn(FloatRequestView) -> u64>;

impl FloatRequest {
    pub open spec fn view(&self) -> FloatRequestView {
        match self {
            FloatRequest::Convert(text) => FloatRequestView::Convert(text@),
            FloatRequest::Binary(op, a, b) => FloatRequestView::Binary(*op, *a, *b),
            FloatRequest::PowInt(a, n) => FloatRequestView::PowInt(*a, *n),
        }
    }
}

impl EvalError {
    pub open spec fn view(&self) -> EvalErrorView {
        match self {
            EvalError::InvalidTypes => EvalErrorView::InvalidTypes,
            EvalError::DivideByZero => EvalErrorView::DivideByZero,
            EvalError::Overflow => EvalErrorView::Overflow,
            EvalError::WrongArgumentCount(name) => EvalErrorView::WrongArgumentCount(*name),
            EvalError::IllegalType(name) => EvalErrorView::IllegalType(*name),
            EvalError::IllegalMethodCall(receiver, name) => EvalErrorView::IllegalMethodCall(
                *receiver,
                *name,
            ),
            EvalError::NeedsFloat(request) => EvalErrorView::NeedsFloat(request@),
        }
    }
}

/// The mathematical value of what an evaluation returns.
pub open spec fn outcome_of(result: EvalResult) -> Outcome {
    match result {
        Ok(value) => Ok(value@),
        Err(error) => Err(error@),
    }
}

// ---------------------------------------------------------------------------
// Words for the errors
// ---------------------------------------------------------------------------

/// The name of a method as it is written in an expression.
pub open spec fn method_text(name: MethodName) -> Seq<char> {
    match name {
        MethodName::Len => "len"@,
        MethodName::Contains => "contains"@,
        MethodName::Pow => "pow"@,
    }
}

/// The name of a method as it is written in the program.
pub open spec fn method_label(name: MethodName) -> Seq<char> {
    match name {
        MethodName::Len => "Len"@,
        MethodName::Contains => "Contains"@,
        MethodName::Pow => "Pow"@,
    }
}

/// The words for an error, as hosts have come to know them.
pub open spec fn message_text(error: EvalErrorView) -> Seq<char> {
    match error {
        EvalErrorView::InvalidTypes => "invalid types"@,
        EvalErrorView::DivideByZero => "divide by zero"@,
        EvalErrorView::Overflow => "integer overflow"@,
        EvalErrorView::WrongArgumentCount(name) => "too may arguments to ."@ + method_text(name)
            + "()"@,
        EvalErrorView::IllegalType(name) => "illegal type for ."@ + method_text(name) + "()"@,
        EvalErrorView::IllegalMethodCall(receiver, name) => "illegal method call Bool("@ + (
        if receiver {
            "true"@
        } else {
            "false"@
        }) + ")."@ + method_label(name),
        EvalErrorView::NeedsFloat(_) => "floating-point computation needed"@,
    }
}

impl EvalError {
    /// The words for this error.
    pub fn message(&self) -> (r: String)
        ensures
            r@ == message_text(self@),
    {
        match self {
            EvalError::InvalidTypes => String::from_str("invalid types"),
            EvalError::DivideByZero => String::from_str("divide by zero"),
            EvalError::Overflow => String::from_str("integer overflow"),
            EvalError::WrongArgumentCount(name) => {
                let mut r = String::from_str("too may arguments to .");
                r.append(method_word(*name));
                r.append("()");
                r
            },
            EvalError::IllegalType(name) => {
                let mut r = String::from_str("illegal type for .");
                r.append(method_word(*name));
                r.append("()");
                r
            },
            EvalError::IllegalMethodCall(receiver, name) => {
                let mut r = String::from_str("illegal method call Bool(");
                r.append(
                    if *receiver {
                        "true"
                    } else {
                        "false"
                    },
                );
                r.append(").");
                r.append(
                    match name {
                        MethodName::Len => "Len",
                        MethodName::Contains => "Contains",
                        MethodName::Pow => "Pow",
                    },
                );
                r
            },
            EvalError::NeedsFloat(_) => String::from_str("floating-point computation needed"),
        }
    }
}

/// The name of a method as it is written in an expression.
pub fn method_word(name: MethodName) -> (r: &'static str)
    ensures
        r@ == method_text(name),
{
    match name {
        MethodName::Len => "len",
        MethodName::Contains => "contains",
        MethodName::Pow => "pow",
    }
}

} // verus!
