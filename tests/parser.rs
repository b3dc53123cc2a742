use medley::error::ParseError;
use medley::lexer::{lex, Lexer, Token};
use medley::parser::{parse, Parser};
use medley::syntax_tree::SyntaxTree;

fn tree(line: &str) -> Result<Box<SyntaxTree>, ParseError> {
    parse(lex(line.chars().collect()).unwrap())
}

fn num(s: &str) -> Box<SyntaxTree> {
    Box::new(SyntaxTree::Number(String::from(s)))
}

fn infix(left: Box<SyntaxTree>, operator: Token, right: Box<SyntaxTree>) -> Box<SyntaxTree> {
    Box::new(SyntaxTree::InfixExpr { left, operator, right })
}

fn neg(right: Box<SyntaxTree>) -> Box<SyntaxTree> {
    Box::new(SyntaxTree::PrefixExpr { operator: Token::Minus, right })
}

#[test]
fn numeral_parses_to_a_leaf() {
    assert_eq!(tree("42").unwrap(), num("42"));
    assert_eq!(tree("3.25").unwrap(), num("3.25"));
    assert_eq!(tree("-3.25").unwrap(), neg(num("3.25")));
    assert_eq!(tree("--1").unwrap(), neg(neg(num("1"))));
}

#[test]
fn product_binds_tighter_than_sum() {
    assert_eq!(
        tree("2+3\\times4").unwrap(),
        infix(num("2"), Token::Plus, infix(num("3"), Token::Times, num("4")))
    );
    assert_eq!(
        tree("2\\times3+4").unwrap(),
        infix(infix(num("2"), Token::Times, num("3")), Token::Plus, num("4"))
    );
}

#[test]
fn equal_precedence_binds_left() {
    assert_eq!(
        tree("10-3-2").unwrap(),
        infix(infix(num("10"), Token::Minus, num("3")), Token::Minus, num("2"))
    );
    assert_eq!(
        tree("8\\div4\\div2").unwrap(),
        infix(infix(num("8"), Token::Div, num("4")), Token::Div, num("2"))
    );
}

#[test]
fn parentheses_override_precedence() {
    assert_eq!(
        tree("(2+3)\\times4").unwrap(),
        infix(infix(num("2"), Token::Plus, num("3")), Token::Times, num("4"))
    );
}

#[test]
fn fraction_construct() {
    assert_eq!(
        tree("\\frac{1}{2}").unwrap(),
        Box::new(SyntaxTree::Fraction { numerator: num("1"), denominator: num("2") })
    );
    assert_eq!(
        tree("1+\\frac{2-1}{3}").unwrap(),
        infix(
            num("1"),
            Token::Plus,
            Box::new(SyntaxTree::Fraction {
                numerator: infix(num("2"), Token::Minus, num("1")),
                denominator: num("3"),
            })
        )
    );
}

#[test]
fn negation_binds_tightest() {
    assert_eq!(
        tree("-2\\times3").unwrap(),
        infix(neg(num("2")), Token::Times, num("3"))
    );
    assert_eq!(
        tree("2\\times-3").unwrap(),
        infix(num("2"), Token::Times, neg(num("3")))
    );
}

#[test]
fn unmatched_parenthesis_is_rejected() {
    assert_eq!(tree("(1+2"), Err(ParseError::UnexpectedEnd));
    assert_eq!(tree("(1+2}"), Err(ParseError::UnexpectedToken(4)));
}

#[test]
fn trailing_tokens_are_rejected() {
    assert_eq!(tree("1+2)"), Err(ParseError::UnexpectedToken(3)));
    assert_eq!(tree("1 2"), Err(ParseError::UnexpectedToken(1)));
}

#[test]
fn fraction_needs_its_braces() {
    assert_eq!(tree("\\frac(1}{2}"), Err(ParseError::UnexpectedToken(1)));
    assert_eq!(tree("\\frac{1}2"), Err(ParseError::UnexpectedToken(4)));
    assert_eq!(tree("\\frac{1}{2"), Err(ParseError::UnexpectedEnd));
}

#[test]
fn missing_operand_is_rejected() {
    assert_eq!(tree(""), Err(ParseError::UnexpectedEnd));
    assert_eq!(tree("1+"), Err(ParseError::UnexpectedEnd));
    assert_eq!(tree("+1"), Err(ParseError::UnexpectedToken(0)));
    assert_eq!(tree("()"), Err(ParseError::UnexpectedToken(1)));
}

#[test]
fn parser_from_a_lexer() {
    let mut parser = Parser::init(Lexer::init("1\\div0".chars().collect())).unwrap();
    assert_eq!(parser.parse().unwrap(), infix(num("1"), Token::Div, num("0")));
    assert!(Parser::init(Lexer::init("1#".chars().collect())).is_err());
}

#[test]
fn parser_over_tokens() {
    let mut parser = Parser::new(vec![Token::LParen, Token::Number(String::from("5")), Token::RParen]);
    assert_eq!(parser.parse().unwrap(), num("5"));
}

#[test]
fn parser_error_kind() {
    assert_eq!(ParseError::UnexpectedEnd.kind(), "syntax error");
}
