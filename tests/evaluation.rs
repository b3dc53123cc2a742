use medley::evaluation::{arithmetic_of, check_division, check_negation, Arithmetic, DivisionForm, EvalError};
use medley::lexer::{lex, Token};
use medley::parser::parse;
use medley::syntax_tree::SyntaxTree;

#[test]
fn zero_over_zero_is_indeterminate() {
    assert_eq!(
        check_division(DivisionForm::Operator, true, true),
        Err(EvalError::Indeterminate(DivisionForm::Operator))
    );
    assert_eq!(
        check_division(DivisionForm::Fraction, true, true),
        Err(EvalError::Indeterminate(DivisionForm::Fraction))
    );
}

#[test]
fn nonzero_over_zero_is_incompatible() {
    assert_eq!(
        check_division(DivisionForm::Operator, false, true),
        Err(EvalError::Incompatible(DivisionForm::Operator))
    );
    assert_eq!(
        check_division(DivisionForm::Fraction, false, true),
        Err(EvalError::Incompatible(DivisionForm::Fraction))
    );
}

#[test]
fn division_by_nonzero_goes_on() {
    assert_eq!(check_division(DivisionForm::Operator, true, false), Ok(()));
    assert_eq!(check_division(DivisionForm::Operator, false, false), Ok(()));
}

#[test]
fn zero_division_lines_parse_to_divisions() {
    for line in ["0\\div0", "1\\div0", "0\\div1"] {
        let tree = parse(lex(line.chars().collect()).unwrap()).unwrap();
        match &*tree {
            SyntaxTree::InfixExpr { operator, .. } => {
                assert_eq!(arithmetic_of(operator), Ok(Arithmetic::Divide))
            }
            other => panic!("unexpected {:?}", other),
        }
    }
}

#[test]
fn error_messages() {
    assert_eq!(
        EvalError::Indeterminate(DivisionForm::Operator).message(),
        "indeterminate (divided by 0)"
    );
    assert_eq!(
        EvalError::Incompatible(DivisionForm::Operator).message(),
        "incompatible (divided by 0)"
    );
    assert_eq!(
        EvalError::Indeterminate(DivisionForm::Fraction).message(),
        "indeterminate (denominator is 0)"
    );
    assert_eq!(
        EvalError::Incompatible(DivisionForm::Fraction).message(),
        "incompatible (denominator is 0)"
    );
    assert_eq!(EvalError::InvalidOperator.message(), "invalid operator");
}

#[test]
fn binary_operators() {
    assert_eq!(arithmetic_of(&Token::Plus), Ok(Arithmetic::Add));
    assert_eq!(arithmetic_of(&Token::Minus), Ok(Arithmetic::Subtract));
    assert_eq!(arithmetic_of(&Token::Times), Ok(Arithmetic::Multiply));
    assert_eq!(arithmetic_of(&Token::Div), Ok(Arithmetic::Divide));
    assert_eq!(arithmetic_of(&Token::LParen), Err(EvalError::InvalidOperator));
    assert_eq!(arithmetic_of(&Token::Frac), Err(EvalError::InvalidOperator));
}

#[test]
fn only_minus_negates() {
    assert_eq!(check_negation(&Token::Minus), Ok(()));
    assert_eq!(check_negation(&Token::Plus), Err(EvalError::InvalidOperator));
}
