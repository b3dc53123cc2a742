use crate::lexer::{Token, TokenView};
use vstd::prelude::*;

verus! {

/// The written form of a division: the `\div` operator or a `\frac`.
#[derive(Debug, Clone, Copy, PartialEq, Eq, Structural)]
pub enum DivisionForm {
    Operator,
    Fraction,
}

/// A failure while evaluating a tree.
#[derive(Debug, Clone, Copy, PartialEq, Eq, Structural)]
pub enum EvalError {
    /// Zero divided by zero.
    Indeterminate(DivisionForm),
    /// A number other than zero divided by zero.
    Incompatible(DivisionForm),
    /// An operator that the node it stands in cannot apply.
    InvalidOperator,
}

/// The arithmetic that a binary operator calls for.
#[derive(Debug, Clone, Copy, PartialEq, Eq, Structural)]
pub enum Arithmetic {
    Add,
    Subtract,
    Multiply,
    Divide,
}

/// The text that reports `e`.
pub open spec fn error_message(e: EvalError) -> Seq<char> {
    match e {
        EvalError::Indeterminate(DivisionForm::Operator) => "indeterminate (divided by 0)"@,
        EvalError::Incompatible(DivisionForm::Operator) => "incompatible (divided by 0)"@,
        EvalError::Indeterminate(DivisionForm::Fraction) => "indeterminate (denominator is 0)"@,
        EvalError::Incompatible(DivisionForm::Fraction) => "incompatible (denominator is 0)"@,
        EvalError::InvalidOperator => "invalid operator"@,
    }
}

impl EvalError {
    pub fn message(&self) -> (r: String)
        ensures
            r@ == error_message(*self),
    {
        match self {
            EvalError::Indeterminate(DivisionForm::Operator) => String::from_str("indeterminate (divided by 0)"),
            EvalError::Incompatible(DivisionForm::Operator) => String::from_str("incompatible (divided by 0)"),
            EvalError::Indeterminate(DivisionForm::Fraction) => String::from_str(
                "indeterminate (denominator is 0)",
            ),
            EvalError::Incompatible(DivisionForm::Fraction) => String::from_str(
                "incompatible (denominator is 0)",
            ),
            EvalError::InvalidOperator => String::from_str("invalid operator"),
        }
    }
}

/// What a division does before it divides: zero over zero is indeterminate,
/// anything else over zero is incompatible, and the rest may be divided.
pub open spec fn division_outcome(form: DivisionForm, numerator_is_zero: bool, denominator_is_zero: bool) -> Result<(), EvalError> {
    if numerator_is_zero && denominator_is_zero {
        Err(EvalError::Indeterminate(form))
    } else if denominator_is_zero {
        Err(EvalError::Incompatible(form))
    } else {
        Ok(())
    }
}

/// Decides whether a division of operands with the given zero tests may go on.
pub fn check_division(form: DivisionForm, numerator_is_zero: bool, denominator_is_zero: bool) -> (r: Result<(), EvalError>)
    ensures
        r == division_outcome(form, numerator_is_zero, denominator_is_zero),
{
    if numerator_is_zero && denominator_is_zero {
        Err(EvalError::Indeterminate(form))
    } else if denominator_is_zero {
        Err(EvalError::Incompatible(form))
    } else {
        Ok(())
    }
}

/// The arithmetic of a binary operator token, if it has one.
pub open spec fn infix_arithmetic(operator: TokenView) -> Option<Arithmetic> {
    match operator {
        TokenView::Plus => Some(Arithmetic::Add),
        TokenView::Minus => Some(Arithmetic::Subtract),
        TokenView::Times => Some(Arithmetic::Multiply),
        TokenView::Div => Some(Arithmetic::Divide),
        _ => None,
    }
}

/// The arithmetic that a binary node applies; any token but `+`, `-`,
/// `\times` and `\div` there is an invalid operator.
pub fn arithmetic_of(operator: &Token) -> (r: Result<Arithmetic, EvalError>)
    ensures
        match infix_arithmetic(operator@) {
            Some(a) => r == Ok::<Arithmetic, EvalError>(a),
            None => r == Err::<Arithmetic, EvalError>(EvalError::InvalidOperator),
        },
{
    match operator {
        Token::Plus => Ok(Arithmetic::Add),
        Token::Minus => Ok(Arithmetic::Subtract),
        Token::Times => Ok(Arithmetic::Multiply),
        Token::Div => Ok(Arithmetic::Divide),
        _ => Err(EvalError::InvalidOperator),
    }
}

/// Decides whether a unary node may apply its operator: only `-` negates.
pub fn check_negation(operator: &Token) -> (r: Result<(), EvalError>)
    ensures
        r == (if operator@ is Minus {
            Ok::<(), EvalError>(())
        } else {
            Err::<(), EvalError>(EvalError::InvalidOperator)
        }),
{
    match operator {
        Token::Minus => Ok(()),
        _ => Err(EvalError::InvalidOperator),
    }
}

} // verus!
