use medley::error::Error;
use medley::lexer::{lex, Lexer, Token};

fn chars(s: &str) -> Vec<char> {
    s.chars().collect()
}

fn number(s: &str) -> Token {
    Token::Number(String::from(s))
}

#[test]
fn unknown_command_is_rejected() {
    match lex(chars("\\foo")) {
        Err(Error::InvalidCommandError(c)) => assert_eq!(c, "\\foo"),
        other => panic!("unexpected {:?}", other),
    }
}

#[test]
fn unknown_character_is_rejected() {
    assert!(matches!(lex(chars("^")), Err(Error::InvalidCharacterError('^'))));
}

#[test]
fn unknown_character_after_tokens_is_rejected() {
    assert!(matches!(lex(chars("1 + 2 * 3")), Err(Error::InvalidCharacterError('*'))));
}

#[test]
fn malformed_numerals_are_rejected() {
    assert!(matches!(lex(chars("1.2.3")), Err(Error::InvalidCharacterError('.'))));
    assert!(matches!(lex(chars(".")), Err(Error::InvalidCharacterError('.'))));
    assert!(matches!(lex(chars("2+..")), Err(Error::InvalidCharacterError('.'))));
}

#[test]
fn numerals_keep_their_text() {
    assert_eq!(lex(chars("12.5")).unwrap(), vec![number("12.5")]);
    assert_eq!(lex(chars(".5")).unwrap(), vec![number(".5")]);
    assert_eq!(lex(chars("7.")).unwrap(), vec![number("7.")]);
    assert_eq!(lex(chars("007")).unwrap(), vec![number("007")]);
}

#[test]
fn operators_and_delimiters() {
    assert_eq!(
        lex(chars("2+3\\times4")).unwrap(),
        vec![number("2"), Token::Plus, number("3"), Token::Times, number("4")]
    );
    assert_eq!(
        lex(chars("\\frac{1}{2}")).unwrap(),
        vec![
            Token::Frac,
            Token::LBrace,
            number("1"),
            Token::RBrace,
            Token::LBrace,
            number("2"),
            Token::RBrace
        ]
    );
    assert_eq!(
        lex(chars("(8-1)\\div7")).unwrap(),
        vec![Token::LParen, number("8"), Token::Minus, number("1"), Token::RParen, Token::Div, number("7")]
    );
}

#[test]
fn white_space_is_skipped() {
    assert_eq!(
        lex(chars(" 2 \t+\n3 ")).unwrap(),
        vec![number("2"), Token::Plus, number("3")]
    );
    assert_eq!(
        lex(chars("2\u{00A0}+\u{3000}3")).unwrap(),
        vec![number("2"), Token::Plus, number("3")]
    );
}

#[test]
fn empty_line_has_no_tokens() {
    assert_eq!(lex(chars("")).unwrap(), vec![]);
    assert_eq!(lex(chars("   ")).unwrap(), vec![]);
}

#[test]
fn command_ends_at_the_first_non_letter() {
    assert_eq!(lex(chars("\\div2")).unwrap(), vec![Token::Div, number("2")]);
    match lex(chars("\\times2\\timesx")) {
        Err(Error::InvalidCommandError(c)) => assert_eq!(c, "\\timesx"),
        other => panic!("unexpected {:?}", other),
    }
    match lex(chars("\\")) {
        Err(Error::InvalidCommandError(c)) => assert_eq!(c, "\\"),
        other => panic!("unexpected {:?}", other),
    }
}

#[test]
fn lexing_twice_gives_the_same_tokens() {
    let line = "\\frac{10}{4} - (2.5 \\times 3)";
    let first = lex(chars(line)).unwrap();
    let second = lex(chars(line)).unwrap();
    assert_eq!(first, second);
}

#[test]
fn token_reads_one_token_at_a_time() {
    let mut lexer = Lexer::init(chars(" 4 -"));
    assert_eq!(lexer.token().unwrap(), Some(number("4")));
    assert_eq!(lexer.token().unwrap(), Some(Token::Minus));
    assert_eq!(lexer.token().unwrap(), None);
    assert_eq!(lexer.token().unwrap(), None);
}

#[test]
fn lexer_error_kind() {
    let e = lex(chars("^")).unwrap_err();
    assert_eq!(e.kind(), "syntax error");
}
