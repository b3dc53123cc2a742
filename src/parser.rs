use crate::error::{Error, ParseError};
use crate::lexer::{Lexer, Token, TokenView, token_views, tokens_from};
use crate::syntax_tree::{SyntaxTree, TreeView};
use vstd::prelude::*;

verus! {

/// The tree that the parser builds.
pub type Expr = SyntaxTree;

/// How tightly an operator binds, from loosest to tightest.
#[derive(Debug, Clone, Copy, PartialEq, Eq, Structural)]
pub enum Precedence {
    Lowest,
    Sum,
    Product,
    Prefix,
}

impl Precedence {
    pub open spec fn rank(self) -> nat {
        match self {
            Precedence::Lowest => 0,
            Precedence::Sum => 1,
            Precedence::Product => 2,
            Precedence::Prefix => 3,
        }
    }

    fn level(&self) -> (r: u8)
        ensures
            r == self.rank(),
    {
        match self {
            Precedence::Lowest => 0,
            Precedence::Sum => 1,
            Precedence::Product => 2,
            Precedence::Prefix => 3,
        }
    }
}

/// The precedence of a token in operator position: `+` and `-` bind as sums,
/// `\times` and `\div` as products, and any other token ends an expression.
pub open spec fn precedence_of(t: TokenView) -> Precedence {
    match t {
        TokenView::Plus | TokenView::Minus => Precedence::Sum,
        TokenView::Times | TokenView::Div => Precedence::Product,
        _ => Precedence::Lowest,
    }
}

/// `None` when the token at `j` is `closing`, else why it is not.
pub open spec fn expect(ts: Seq<TokenView>, j: nat, closing: TokenView) -> Option<ParseError> {
    if j >= ts.len() {
        Some(ParseError::UnexpectedEnd)
    } else if ts[j as int] == closing {
        None
    } else {
        Some(ParseError::UnexpectedToken(j as usize))
    }
}

/// The expression that starts at `i` and takes in every operator that binds
/// tighter than `p`, with the index just past it.
pub open spec fn parse_expression(ts: Seq<TokenView>, i: nat, p: Precedence) -> Result<(TreeView, nat), ParseError>
    decreases ts.len() - i, 2nat,
{
    match parse_prefix(ts, i) {
        Err(e) => Err(e),
        Ok((left, j)) => if i < j <= ts.len() {
            parse_infix(ts, j, p, left)
        } else {
            Ok((left, j))
        },
    }
}

/// The operand that starts at `i`: a negation, a numeral, a parenthesised
/// expression or a fraction.
pub open spec fn parse_prefix(ts: Seq<TokenView>, i: nat) -> Result<(TreeView, nat), ParseError>
    decreases ts.len() - i, 1nat,
{
    if i >= ts.len() {
        Err(ParseError::UnexpectedEnd)
    } else {
        match ts[i as int] {
            TokenView::Minus => match parse_expression(ts, i + 1, Precedence::Prefix) {
                Ok((right, j)) => Ok(
                    (TreeView::PrefixExpr { operator: TokenView::Minus, right: Box::new(right) }, j),
                ),
                Err(e) => Err(e),
            },
            TokenView::Number(n) => Ok((TreeView::Number(n), i + 1)),
            TokenView::LParen => parse_enclosed(ts, i + 1, TokenView::RParen),
            TokenView::Frac => match parse_argument(ts, i + 1) {
                Err(e) => Err(e),
                Ok((numerator, j)) => if i < j <= ts.len() {
                    match parse_argument(ts, j) {
                        Err(e) => Err(e),
                        Ok((denominator, k)) => Ok(
                            (
                                TreeView::Fraction {
                                    numerator: Box::new(numerator),
                                    denominator: Box::new(denominator),
                                },
                                k,
                            ),
                        ),
                    }
                } else {
                    Ok((numerator, j))
                },
            },
            _ => Err(ParseError::UnexpectedToken(i as usize)),
        }
    }
}

/// The operators that follow `left` from `i` on and bind tighter than `p`,
/// each taken in from left to right.
pub open spec fn parse_infix(ts: Seq<TokenView>, i: nat, p: Precedence, left: TreeView) -> Result<(TreeView, nat), ParseError>
    decreases ts.len() - i, 0nat,
{
    if i < ts.len() && p.rank() < precedence_of(ts[i as int]).rank() {
        let operator = ts[i as int];
        match parse_expression(ts, i + 1, precedence_of(operator)) {
            Err(e) => Err(e),
            Ok((right, j)) => {
                let tree = TreeView::InfixExpr { left: Box::new(left), operator, right: Box::new(right) };
                if i < j <= ts.len() {
                    parse_infix(ts, j, p, tree)
                } else {
                    Ok((tree, j))
                }
            },
        }
    } else {
        Ok((left, i))
    }
}

/// An expression that starts at `i` and is closed by `closing`.
pub open spec fn parse_enclosed(ts: Seq<TokenView>, i: nat, closing: TokenView) -> Result<(TreeView, nat), ParseError>
    decreases ts.len() - i, 3nat,
{
    match parse_expression(ts, i, Precedence::Lowest) {
        Err(e) => Err(e),
        Ok((inner, j)) => match expect(ts, j, closing) {
            Some(e) => Err(e),
            None => Ok((inner, j + 1)),
        },
    }
}

/// A brace-delimited argument `{ ... }` that starts at `i`.
pub open spec fn parse_argument(ts: Seq<TokenView>, i: nat) -> Result<(TreeView, nat), ParseError>
    decreases ts.len() - i, 4nat,
{
    match expect(ts, i, TokenView::LBrace) {
        Some(e) => Err(e),
        None => parse_enclosed(ts, i + 1, TokenView::RBrace),
    }
}

/// The tree of the tokens from `i` to the end: one expression, with nothing
/// left over.
pub open spec fn parse_from(ts: Seq<TokenView>, i: nat) -> Result<TreeView, ParseError> {
    match parse_expression(ts, i, Precedence::Lowest) {
        Err(e) => Err(e),
        Ok((tree, j)) => if j < ts.len() {
            Err(ParseError::UnexpectedToken(j as usize))
        } else {
            Ok(tree)
        },
    }
}

/// The tree of a whole token sequence.
pub open spec fn parse_tokens(ts: Seq<TokenView>) -> Result<TreeView, ParseError> {
    parse_from(ts, 0)
}

/// `r` as a mathematical value.
pub open spec fn tree_result_view(r: Result<Box<SyntaxTree>, ParseError>) -> Result<TreeView, ParseError> {
    match r {
        Ok(t) => Ok((*t)@),
        Err(e) => Err(e),
    }
}

pub proof fn lemma_expression_advances(ts: Seq<TokenView>, i: nat, p: Precedence)
    ensures
        parse_expression(ts, i, p) matches Ok((_, j)) ==> i < j <= ts.len(),
    decreases ts.len() - i, 2nat,
{
    lemma_prefix_advances(ts, i);
    if let Ok((left, j)) = parse_prefix(ts, i) {
        lemma_infix_advances(ts, j, p, left);
    }
}

pub proof fn lemma_prefix_advances(ts: Seq<TokenView>, i: nat)
    ensures
        parse_prefix(ts, i) matches Ok((_, j)) ==> i < j <= ts.len(),
    decreases ts.len() - i, 1nat,
{
    if i < ts.len() {
        match ts[i as int] {
            TokenView::Minus => lemma_expression_advances(ts, i + 1, Precedence::Prefix),
            TokenView::LParen => lemma_enclosed_advances(ts, i + 1, TokenView::RParen),
            TokenView::Frac => {
                lemma_argument_advances(ts, i + 1);
                if let Ok((_, j)) = parse_argument(ts, i + 1) {
                    lemma_argument_advances(ts, j);
                }
            },
            _ => {},
        }
    }
}

pub proof fn lemma_infix_advances(ts: Seq<TokenView>, i: nat, p: Precedence, left: TreeView)
    ensures
        i <= ts.len() ==> (parse_infix(ts, i, p, left) matches Ok((_, j)) ==> i <= j <= ts.len()),
    decreases ts.len() - i, 0nat,
{
    if i < ts.len() && p.rank() < precedence_of(ts[i as int]).rank() {
        let operator = ts[i as int];
        lemma_expression_advances(ts, i + 1, precedence_of(operator));
        if let Ok((right, j)) = parse_expression(ts, i + 1, precedence_of(operator)) {
            let tree = TreeView::InfixExpr { left: Box::new(left), operator, right: Box::new(right) };
            lemma_infix_advances(ts, j, p, tree);
        }
    }
}

pub proof fn lemma_enclosed_advances(ts: Seq<TokenView>, i: nat, closing: TokenView)
    ensures
        parse_enclosed(ts, i, closing) matches Ok((_, j)) ==> i < j <= ts.len(),
    decreases ts.len() - i, 3nat,
{
    lemma_expression_advances(ts, i, Precedence::Lowest);
}

pub proof fn lemma_argument_advances(ts: Seq<TokenView>, i: nat)
    ensures
        parse_argument(ts, i) matches Ok((_, j)) ==> i < j <= ts.len(),
    decreases ts.len() - i, 4nat,
{
    if expect(ts, i, TokenView::LBrace) is None {
        lemma_enclosed_advances(ts, i + 1, TokenView::RBrace);
    }
}

/// A cursor over a sequence of tokens, which it parses by precedence climbing.
pub struct Parser {
    tokens: Vec<Token>,
    position: usize,
}

impl Parser {
    /// The tokens being parsed.
    pub closed spec fn token_seq(&self) -> Seq<TokenView> {
        token_views(self.tokens@)
    }

    /// The index of the next token to read.
    pub closed spec fn cursor(&self) -> nat {
        self.position as nat
    }

    pub fn new(tokens: Vec<Token>) -> (r: Parser)
        ensures
            r.token_seq() == token_views(tokens@),
            r.cursor() == 0,
    {
        Parser { tokens, position: 0 }
    }

    /// A parser over the tokens that remain in `lexer`, or the lexer's first
    /// failure.
    pub fn init(lexer: Lexer) -> (r: Result<Parser, Error>)
        ensures
            match tokens_from(lexer.text(), lexer.cursor()) {
                Ok(ts) => r matches Ok(p) && p.token_seq() == ts && p.cursor() == 0,
                Err(e) => r matches Err(err) && err@ == e,
            },
    {
        match lexer.tokens() {
            Ok(tokens) => Ok(Parser::new(tokens)),
            Err(e) => Err(e),
        }
    }

    /// Parses the remaining tokens as one expression; tokens left over after
    /// it are an error.
    pub fn parse(&mut self) -> (r: Result<Box<SyntaxTree>, ParseError>)
        ensures
            final(self).token_seq() == old(self).token_seq(),
            tree_result_view(r) == parse_from(old(self).token_seq(), old(self).cursor()),
            r is Ok ==> final(self).cursor() == old(self).token_seq().len(),
    {
        proof {
            lemma_expression_advances(self.token_seq(), self.cursor(), Precedence::Lowest);
        }
        let tree = match self.parse_expression(Precedence::Lowest) {
            Ok(tree) => tree,
            Err(e) => {
                return Err(e);
            },
        };
        assert(self.token_seq().len() == self.tokens@.len());
        if self.position < self.tokens.len() {
            Err(ParseError::UnexpectedToken(self.position))
        } else {
            Ok(tree)
        }
    }

    /// Parses the expression at the cursor, taking in every operator that
    /// binds tighter than `precedence`.
    fn parse_expression(&mut self, precedence: Precedence) -> (r: Result<Box<SyntaxTree>, ParseError>)
        ensures
            final(self).token_seq() == old(self).token_seq(),
            match parse_expression(old(self).token_seq(), old(self).cursor(), precedence) {
                Ok((t, j)) => r matches Ok(tree) && (*tree)@ == t && final(self).cursor() == j,
                Err(e) => r == Err::<Box<SyntaxTree>, ParseError>(e),
            },
        decreases old(self).token_seq().len() - old(self).cursor(), 2nat,
    {
        let ghost ts = self.token_seq();
        let ghost i0 = self.cursor();
        proof {
            lemma_prefix_advances(ts, i0);
        }
        let mut now = match self.parse_prefix() {
            Ok(tree) => tree,
            Err(e) => {
                return Err(e);
            },
        };
        while self.position < self.tokens.len() && precedence.level() < self.peek_precedence().level()
            invariant
                ts == old(self).token_seq(),
                i0 == old(self).cursor(),
                self.token_seq() == ts,
                ts.len() == self.tokens.len(),
                i0 < self.position <= ts.len(),
                parse_expression(ts, i0, precedence) == parse_infix(ts, self.cursor(), precedence, (*now)@),
            decreases ts.len() - self.position,
        {
            proof {
                let i = self.cursor();
                lemma_expression_advances(ts, i + 1, precedence_of(ts[i as int]));
            }
            now = match self.parse_infix_expression(now) {
                Ok(tree) => tree,
                Err(e) => {
                    return Err(e);
                },
            };
        }
        Ok(now)
    }

    /// Parses the operand at the cursor.
    fn parse_prefix(&mut self) -> (r: Result<Box<SyntaxTree>, ParseError>)
        ensures
            final(self).token_seq() == old(self).token_seq(),
            match parse_prefix(old(self).token_seq(), old(self).cursor()) {
                Ok((t, j)) => r matches Ok(tree) && (*tree)@ == t && final(self).cursor() == j,
                Err(e) => r == Err::<Box<SyntaxTree>, ParseError>(e),
            },
        decreases old(self).token_seq().len() - old(self).cursor(), 1nat,
    {
        if self.position >= self.tokens.len() {
            return Err(ParseError::UnexpectedEnd);
        }
        match &self.tokens[self.position] {
            Token::Minus => self.parse_minus(),
            Token::Number(_) => self.parse_number(),
            Token::LParen => self.parse_grouped_expression(),
            Token::Frac => self.parse_fraction(),
            _ => Err(ParseError::UnexpectedToken(self.position)),
        }
    }

    /// Parses `-` and the operand that it negates.
    fn parse_minus(&mut self) -> (r: Result<Box<SyntaxTree>, ParseError>)
        requires
            old(self).cursor() < old(self).token_seq().len(),
            old(self).token_seq()[old(self).cursor() as int] is Minus,
        ensures
            final(self).token_seq() == old(self).token_seq(),
            match parse_prefix(old(self).token_seq(), old(self).cursor()) {
                Ok((t, j)) => r matches Ok(tree) && (*tree)@ == t && final(self).cursor() == j,
                Err(e) => r == Err::<Box<SyntaxTree>, ParseError>(e),
            },
        decreases old(self).token_seq().len() - old(self).cursor(), 0nat,
    {
        self.next();
        let right = match self.parse_expression(Precedence::Prefix) {
            Ok(tree) => tree,
            Err(e) => {
                return Err(e);
            },
        };
        Ok(Box::new(SyntaxTree::PrefixExpr { operator: Token::Minus, right }))
    }

    /// Turns the numeral at the cursor into a leaf.
    fn parse_number(&mut self) -> (r: Result<Box<SyntaxTree>, ParseError>)
        requires
            old(self).cursor() < old(self).token_seq().len(),
            old(self).token_seq()[old(self).cursor() as int] is Number,
        ensures
            final(self).token_seq() == old(self).token_seq(),
            match parse_prefix(old(self).token_seq(), old(self).cursor()) {
                Ok((t, j)) => r matches Ok(tree) && (*tree)@ == t && final(self).cursor() == j,
                Err(e) => r == Err::<Box<SyntaxTree>, ParseError>(e),
            },
    {
        let leaf = match &self.tokens[self.position] {
            Token::Number(n) => SyntaxTree::Number(n.clone()),
            _ => {
                return Err(ParseError::UnexpectedToken(self.position));
            },
        };
        self.next();
        Ok(Box::new(leaf))
    }

    /// Parses `( expression )`.
    fn parse_grouped_expression(&mut self) -> (r: Result<Box<SyntaxTree>, ParseError>)
        requires
            old(self).cursor() < old(self).token_seq().len(),
            old(self).token_seq()[old(self).cursor() as int] is LParen,
        ensures
            final(self).token_seq() == old(self).token_seq(),
            match parse_prefix(old(self).token_seq(), old(self).cursor()) {
                Ok((t, j)) => r matches Ok(tree) && (*tree)@ == t && final(self).cursor() == j,
                Err(e) => r == Err::<Box<SyntaxTree>, ParseError>(e),
            },
        decreases old(self).token_seq().len() - old(self).cursor(), 0nat,
    {
        self.next();
        self.parse_closed_by(&Token::RParen)
    }

    /// Parses an expression at the cursor and the `closing` token after it.
    fn parse_closed_by(&mut self, closing: &Token) -> (r: Result<Box<SyntaxTree>, ParseError>)
        requires
            !(closing is Number),
        ensures
            final(self).token_seq() == old(self).token_seq(),
            match parse_enclosed(old(self).token_seq(), old(self).cursor(), closing@) {
                Ok((t, j)) => r matches Ok(tree) && (*tree)@ == t && final(self).cursor() == j,
                Err(e) => r == Err::<Box<SyntaxTree>, ParseError>(e),
            },
        decreases old(self).token_seq().len() - old(self).cursor(), 3nat,
    {
        let expression = match self.parse_expression(Precedence::Lowest) {
            Ok(tree) => tree,
            Err(e) => {
                return Err(e);
            },
        };
        match self.expect(closing) {
            Some(e) => Err(e),
            None => {
                self.next();
                Ok(expression)
            },
        }
    }

    /// Parses `{ expression }`.
    fn parse_arguments(&mut self) -> (r: Result<Box<SyntaxTree>, ParseError>)
        ensures
            final(self).token_seq() == old(self).token_seq(),
            match parse_argument(old(self).token_seq(), old(self).cursor()) {
                Ok((t, j)) => r matches Ok(tree) && (*tree)@ == t && final(self).cursor() == j,
                Err(e) => r == Err::<Box<SyntaxTree>, ParseError>(e),
            },
        decreases old(self).token_seq().len() - old(self).cursor(), 4nat,
    {
        match self.expect(&Token::LBrace) {
            Some(e) => Err(e),
            None => {
                self.next();
                self.parse_closed_by(&Token::RBrace)
            },
        }
    }

    /// Parses `\frac{numerator}{denominator}`.
    fn parse_fraction(&mut self) -> (r: Result<Box<SyntaxTree>, ParseError>)
        requires
            old(self).cursor() < old(self).token_seq().len(),
            old(self).token_seq()[old(self).cursor() as int] is Frac,
        ensures
            final(self).token_seq() == old(self).token_seq(),
            match parse_prefix(old(self).token_seq(), old(self).cursor()) {
                Ok((t, j)) => r matches Ok(tree) && (*tree)@ == t && final(self).cursor() == j,
                Err(e) => r == Err::<Box<SyntaxTree>, ParseError>(e),
            },
        decreases old(self).token_seq().len() - old(self).cursor(), 0nat,
    {
        let ghost ts = self.token_seq();
        let ghost i0 = self.cursor();
        self.next();
        proof {
            lemma_argument_advances(ts, i0 + 1);
        }
        let numerator = match self.parse_arguments() {
            Ok(tree) => tree,
            Err(e) => {
                return Err(e);
            },
        };
        let denominator = match self.parse_arguments() {
            Ok(tree) => tree,
            Err(e) => {
                return Err(e);
            },
        };
        Ok(Box::new(SyntaxTree::Fraction { numerator, denominator }))
    }

    /// Takes in the operator at the cursor, with `left` as its left operand
    /// and the expression after it as its right one.
    fn parse_infix_expression(&mut self, left: Box<SyntaxTree>) -> (r: Result<Box<SyntaxTree>, ParseError>)
        requires
            old(self).cursor() < old(self).token_seq().len(),
            precedence_of(old(self).token_seq()[old(self).cursor() as int]).rank() > 0,
        ensures
            final(self).token_seq() == old(self).token_seq(),
            ({
                let ts = old(self).token_seq();
                let i = old(self).cursor();
                match parse_expression(ts, i + 1, precedence_of(ts[i as int])) {
                    Ok((right, j)) => r matches Ok(tree) && (*tree)@ == TreeView::InfixExpr {
                        left: Box::new((*left)@),
                        operator: ts[i as int],
                        right: Box::new(right),
                    } && final(self).cursor() == j,
                    Err(e) => r == Err::<Box<SyntaxTree>, ParseError>(e),
                }
            }),
        decreases old(self).token_seq().len() - old(self).cursor(), 0nat,
    {
        let operator = self.operator();
        let precedence = Self::token_precedence(&operator);
        self.next();
        let right = match self.parse_expression(precedence) {
            Ok(tree) => tree,
            Err(e) => {
                return Err(e);
            },
        };
        Ok(Box::new(SyntaxTree::InfixExpr { left, operator, right }))
    }

    /// A copy of the token at the cursor, where it has no payload.
    fn operator(&self) -> (r: Token)
        requires
            self.cursor() < self.token_seq().len(),
        ensures
            !(self.token_seq()[self.cursor() as int] is Number) ==> r@ == self.token_seq()[self.cursor() as int],
    {
        match &self.tokens[self.position] {
            Token::Times => Token::Times,
            Token::Div => Token::Div,
            Token::Frac => Token::Frac,
            Token::Plus => Token::Plus,
            Token::Minus => Token::Minus,
            Token::LParen => Token::LParen,
            Token::RParen => Token::RParen,
            Token::LBrace => Token::LBrace,
            Token::RBrace => Token::RBrace,
            Token::Number(_) => Token::Plus,
        }
    }

    fn next(&mut self)
        requires
            old(self).cursor() < old(self).token_seq().len(),
        ensures
            final(self).token_seq() == old(self).token_seq(),
            final(self).cursor() == old(self).cursor() + 1,
    {
        let n = self.tokens.len();
        assert(self.token_seq().len() == n);
        self.position = self.position + 1;
    }

    fn token_precedence(token: &Token) -> (r: Precedence)
        ensures
            r == precedence_of(token@),
    {
        match token {
            Token::Plus | Token::Minus => Precedence::Sum,
            Token::Div | Token::Times => Precedence::Product,
            _ => Precedence::Lowest,
        }
    }

    /// Whether the token at the cursor is `token`.
    fn is_peek(&self, token: &Token) -> (r: bool)
        requires
            !(token is Number),
        ensures
            r == (self.cursor() < self.token_seq().len() && self.token_seq()[self.cursor() as int] == token@),
    {
        if self.position >= self.tokens.len() {
            return false;
        }
        match (&self.tokens[self.position], token) {
            (Token::Times, Token::Times) => true,
            (Token::Div, Token::Div) => true,
            (Token::Frac, Token::Frac) => true,
            (Token::Plus, Token::Plus) => true,
            (Token::Minus, Token::Minus) => true,
            (Token::LParen, Token::LParen) => true,
            (Token::RParen, Token::RParen) => true,
            (Token::LBrace, Token::LBrace) => true,
            (Token::RBrace, Token::RBrace) => true,
            _ => false,
        }
    }

    /// `None` when the token at the cursor is `closing`, else the error.
    fn expect(&self, closing: &Token) -> (r: Option<ParseError>)
        requires
            !(closing is Number),
        ensures
            r == expect(self.token_seq(), self.cursor(), closing@),
    {
        if self.is_peek(closing) {
            None
        } else if self.position >= self.tokens.len() {
            Some(ParseError::UnexpectedEnd)
        } else {
            Some(ParseError::UnexpectedToken(self.position))
        }
    }

    /// The precedence of the token at the cursor; `Lowest` at the end.
    fn peek_precedence(&self) -> (r: Precedence)
        ensures
            self.cursor() < self.token_seq().len() ==> r == precedence_of(self.token_seq()[self.cursor() as int]),
    {
        if self.position >= self.tokens.len() {
            return Precedence::Lowest;
        }
        Self::token_precedence(&self.tokens[self.position])
    }
}

/// Parses a whole token sequence as one expression.
pub fn parse(tokens: Vec<Token>) -> (r: Result<Box<SyntaxTree>, ParseError>)
    ensures
        tree_result_view(r) == parse_tokens(token_views(tokens@)),
{
    let mut parser = Parser::new(tokens);
    parser.parse()
}

} // verus!
