use crate::error::{Error, LexFailure};
use vstd::prelude::*;

verus! {

/// A lexical unit of the input line.
#[derive(Debug, PartialEq)]
pub enum Token {
    /// A numeral, kept as the digits and the point that were written.
    Number(String),
    Times,
    Div,
    Frac,
    Plus,
    Minus,
    LParen,
    RParen,
    LBrace,
    RBrace,
}

/// A token as a mathematical value.
pub enum TokenView {
    Number(Seq<char>),
    Times,
    Div,
    Frac,
    Plus,
    Minus,
    LParen,
    RParen,
    LBrace,
    RBrace,
}

impl View for Token {
    type V = TokenView;

    open spec fn view(&self) -> TokenView {
        match self {
            Token::Number(n) => TokenView::Number(n@),
            Token::Times => TokenView::Times,
            Token::Div => TokenView::Div,
            Token::Frac => TokenView::Frac,
            Token::Plus => TokenView::Plus,
            Token::Minus => TokenView::Minus,
            Token::LParen => TokenView::LParen,
            Token::RParen => TokenView::RParen,
            Token::LBrace => TokenView::LBrace,
            Token::RBrace => TokenView::RBrace,
        }
    }
}

/// The tokens of a sequence, one view each.
pub open spec fn token_views(ts: Seq<Token>) -> Seq<TokenView> {
    ts.map_values(|t: Token| t@)
}

/// Whether `c` has the Unicode White_Space property.
pub uninterp spec fn white_space(c: char) -> bool;

/// The white space that the lexer skips: among ASCII characters the space and
/// `'\t'` through `'\r'`, beyond ASCII the Unicode White_Space property.
pub open spec fn is_space(c: char) -> bool {
    if (c as u32) < 128 {
        c == ' ' || (9 <= (c as u32) && (c as u32) <= 13)
    } else {
        white_space(c)
    }
}

pub open spec fn is_digit(c: char) -> bool {
    '0' <= c && c <= '9'
}

pub open spec fn is_numeral_char(c: char) -> bool {
    is_digit(c) || c == '.'
}

pub open spec fn is_letter(c: char) -> bool {
    ('a' <= c && c <= 'z') || ('A' <= c && c <= 'Z')
}

/// The end of the longest run of characters of class `member` that starts at `i`.
pub open spec fn run_end(s: Seq<char>, i: nat, member: spec_fn(char) -> bool) -> nat
    decreases s.len() - i,
{
    if i < s.len() && member(s[i as int]) {
        run_end(s, i + 1, member)
    } else {
        i
    }
}

pub open spec fn spaces() -> spec_fn(char) -> bool {
    |c: char| is_space(c)
}

pub open spec fn numeral_chars() -> spec_fn(char) -> bool {
    |c: char| is_numeral_char(c)
}

pub open spec fn letters() -> spec_fn(char) -> bool {
    |c: char| is_letter(c)
}

/// A run of digits and points reads as a number when it holds a digit and at
/// most one point.
pub open spec fn well_formed_numeral(t: Seq<char>) -> bool {
    &&& exists|k: int| 0 <= k < t.len() && is_digit(#[trigger] t[k])
    &&& forall|a: int, b: int| 0 <= a < b < t.len() && t[a] == '.' ==> t[b] != '.'
}

/// A numeral of digits and at most one point, with a digit: what a literal
/// may be written as.
pub open spec fn is_numeral(n: Seq<char>) -> bool {
    &&& forall|k: int| 0 <= k < n.len() ==> is_numeral_char(#[trigger] n[k])
    &&& well_formed_numeral(n)
}

/// Every numeral among the tokens is well formed.
pub open spec fn numerals_well_formed(ts: Seq<TokenView>) -> bool {
    forall|k: int| 0 <= k < ts.len() && (#[trigger] ts[k]) is Number ==> is_numeral(ts[k]->Number_0)
}

/// The token that a backslash command stands for, if it is one of the three.
pub open spec fn command_token(c: Seq<char>) -> Option<TokenView> {
    if c == seq!['\\', 't', 'i', 'm', 'e', 's'] {
        Some(TokenView::Times)
    } else if c == seq!['\\', 'd', 'i', 'v'] {
        Some(TokenView::Div)
    } else if c == seq!['\\', 'f', 'r', 'a', 'c'] {
        Some(TokenView::Frac)
    } else {
        None
    }
}

/// The token that a single character stands for, if any.
pub open spec fn symbol_token(c: char) -> Option<TokenView> {
    if c == '+' {
        Some(TokenView::Plus)
    } else if c == '-' {
        Some(TokenView::Minus)
    } else if c == '(' {
        Some(TokenView::LParen)
    } else if c == ')' {
        Some(TokenView::RParen)
    } else if c == '{' {
        Some(TokenView::LBrace)
    } else if c == '}' {
        Some(TokenView::RBrace)
    } else {
        None
    }
}

/// What the lexer finds from position `i` of `s`: white space is skipped, then
/// either the input has ended, or the next token is read with the position just
/// past it, or the text there is rejected.
pub open spec fn scan(s: Seq<char>, i: nat) -> Result<Option<(TokenView, nat)>, LexFailure> {
    let k = run_end(s, i, spaces());
    if k >= s.len() {
        Ok(None)
    } else if is_numeral_char(s[k as int]) {
        let e = run_end(s, k, numeral_chars());
        let text = s.subrange(k as int, e as int);
        if well_formed_numeral(text) {
            Ok(Some((TokenView::Number(text), e)))
        } else {
            Err(LexFailure::InvalidCharacter('.'))
        }
    } else if s[k as int] == '\\' {
        let e = run_end(s, k + 1, letters());
        let text = s.subrange(k as int, e as int);
        match command_token(text) {
            Some(t) => Ok(Some((t, e))),
            None => Err(LexFailure::InvalidCommand(text)),
        }
    } else {
        match symbol_token(s[k as int]) {
            Some(t) => Ok(Some((t, k + 1))),
            None => Err(LexFailure::InvalidCharacter(s[k as int])),
        }
    }
}

/// The tokens of `s` from position `i` on, or the first failure.
pub open spec fn tokens_from(s: Seq<char>, i: nat) -> Result<Seq<TokenView>, LexFailure>
    decreases s.len() - i,
{
    match scan(s, i) {
        Err(e) => Err(e),
        Ok(None) => Ok(Seq::empty()),
        Ok(Some((t, j))) => if i < j <= s.len() {
            match tokens_from(s, j) {
                Ok(rest) => Ok(seq![t] + rest),
                Err(e) => Err(e),
            }
        } else {
            Ok(seq![t])
        },
    }
}

/// The tokens of a whole line, or the first failure.
pub open spec fn tokenize(s: Seq<char>) -> Result<Seq<TokenView>, LexFailure> {
    tokens_from(s, 0)
}

/// `r` as a mathematical value.
pub open spec fn lex_result_view(r: Result<Vec<Token>, Error>) -> Result<Seq<TokenView>, LexFailure> {
    match r {
        Ok(ts) => Ok(token_views(ts@)),
        Err(e) => Err(e@),
    }
}

pub proof fn lemma_run_end_bounds(s: Seq<char>, i: nat, member: spec_fn(char) -> bool)
    ensures
        i <= run_end(s, i, member),
        i <= s.len() ==> run_end(s, i, member) <= s.len(),
        run_end(s, i, member) < s.len() ==> !member(s[run_end(s, i, member) as int]),
        forall|k: int| i <= k < run_end(s, i, member) ==> member(#[trigger] s[k]),
    decreases s.len() - i,
{
    if i < s.len() && member(s[i as int]) {
        lemma_run_end_bounds(s, i + 1, member);
    }
}

/// A token read from within the line ends past where the reading started, and
/// within the line.
pub proof fn lemma_scan_advances(s: Seq<char>, i: nat)
    ensures
        scan(s, i) matches Ok(Some((_, j))) ==> i < j <= s.len(),
{
    let k = run_end(s, i, spaces());
    lemma_run_end_bounds(s, i, spaces());
    if k < s.len() {
        lemma_run_end_bounds(s, k, numeral_chars());
        lemma_run_end_bounds(s, k + 1, letters());
    }
}

/// Relies on `char::is_whitespace`: the Unicode White_Space property, which
/// among ASCII characters holds of the space and of `'\t'` through `'\r'`.
#[verifier::external_body]
fn is_whitespace(c: char) -> (r: bool)
    ensures
        (c as u32) < 128 ==> (r <==> (c == ' ' || (9 <= (c as u32) && (c as u32) <= 13))),
        (c as u32) >= 128 ==> r == white_space(c),
{
    c.is_whitespace()
}

/// Relies on `String`'s `FromIterator<&char>`: the string holds the characters
/// in their order.
#[verifier::external_body]
fn chars_to_string(chars: &Vec<char>) -> (r: String)
    ensures
        r@ == chars@,
{
    String::from_iter(chars)
}

/// A cursor over the characters of one line.
pub struct Lexer {
    input: Vec<char>,
    position: usize,
}

impl Lexer {
    /// The characters being read.
    pub closed spec fn text(&self) -> Seq<char> {
        self.input@
    }

    /// The position of the next character to read.
    pub closed spec fn cursor(&self) -> nat {
        self.position as nat
    }

    pub fn init(input: Vec<char>) -> (r: Lexer)
        ensures
            r.text() == input@,
            r.cursor() == 0,
    {
        Lexer { input, position: 0 }
    }

    /// Reads the next token, after any white space. `Ok(None)` says that the
    /// line has ended. After a failure the cursor is left where it stands.
    pub fn token(&mut self) -> (r: Result<Option<Token>, Error>)
        ensures
            final(self).text() == old(self).text(),
            match scan(old(self).text(), old(self).cursor()) {
                Ok(Some((t, j))) => r matches Ok(Some(tok)) && tok@ == t && final(self).cursor() == j,
                Ok(None) => r matches Ok(None) && final(self).cursor() == run_end(
                    old(self).text(),
                    old(self).cursor(),
                    spaces(),
                ),
                Err(e) => r matches Err(err) && err@ == e && final(self).cursor() == old(self).cursor(),
            },
    {
        let ghost s = self.input@;
        let ghost i0 = self.position as nat;
        let n = self.input.len();
        let mut pos = self.position;
        while pos < n && is_whitespace(self.input[pos])
            invariant
                self.input@ == s,
                n == s.len(),
                i0 <= pos,
                run_end(s, i0, spaces()) == run_end(s, pos as nat, spaces()),
            decreases n - pos,
        {
            pos = pos + 1;
        }
        if pos >= n {
            self.position = pos;
            return Ok(None);
        }
        let c = self.input[pos];
        if Self::is_number(&c) {
            let start = pos;
            let mut text: Vec<char> = Vec::new();
            while pos < n && Self::is_number(&self.input[pos])
                invariant
                    self.input@ == s,
                    n == s.len(),
                    start <= pos <= n,
                    text@ == s.subrange(start as int, pos as int),
                    run_end(s, start as nat, numeral_chars()) == run_end(s, pos as nat, numeral_chars()),
                decreases n - pos,
            {
                text.push(self.input[pos]);
                pos = pos + 1;
            }
            if Self::is_well_formed(&text) {
                self.position = pos;
                Ok(Some(Token::Number(chars_to_string(&text))))
            } else {
                Err(Error::InvalidCharacterError('.'))
            }
        } else if c == '\\' {
            let start = pos;
            let mut text: Vec<char> = Vec::new();
            text.push(c);
            pos = pos + 1;
            while pos < n && Self::is_letter(&self.input[pos])
                invariant
                    self.input@ == s,
                    n == s.len(),
                    start < pos <= n,
                    text@ == s.subrange(start as int, pos as int),
                    run_end(s, (start + 1) as nat, letters()) == run_end(s, pos as nat, letters()),
                decreases n - pos,
            {
                text.push(self.input[pos]);
                pos = pos + 1;
            }
            match Self::command(&text) {
                Some(t) => {
                    self.position = pos;
                    Ok(Some(t))
                },
                None => Err(Error::InvalidCommandError(chars_to_string(&text))),
            }
        } else {
            let t = match c {
                '+' => Token::Plus,
                '-' => Token::Minus,
                '(' => Token::LParen,
                ')' => Token::RParen,
                '{' => Token::LBrace,
                '}' => Token::RBrace,
                _ => {
                    return Err(Error::InvalidCharacterError(c));
                },
            };
            self.position = pos + 1;
            Ok(Some(t))
        }
    }

    /// Reads every remaining token, or reports the first text that is not one.
    pub fn tokens(self) -> (r: Result<Vec<Token>, Error>)
        ensures
            lex_result_view(r) == tokens_from(self.text(), self.cursor()),
    {
        let ghost s = self.text();
        let ghost i0 = self.cursor();
        let mut lexer = self;
        let mut tokens: Vec<Token> = Vec::new();
        loop
            invariant
                s == self.text(),
                i0 == self.cursor(),
                lexer.text() == s,
                tokens_from(s, i0) == (match tokens_from(s, lexer.cursor()) {
                    Ok(rest) => Ok(token_views(tokens@) + rest),
                    Err(e) => Err(e),
                }),
            decreases s.len() - lexer.cursor(),
        {
            proof {
                lemma_scan_advances(s, lexer.cursor());
            }
            let ghost before = lexer.cursor();
            match lexer.token() {
                Ok(Some(t)) => {
                    proof {
                        assert(token_views(tokens@.push(t)) =~= token_views(tokens@) + seq![t@]);
                        if let Ok(r2) = tokens_from(s, lexer.cursor()) {
                            assert(token_views(tokens@) + (seq![t@] + r2) =~= token_views(tokens@.push(t)) + r2);
                        }
                    }
                    tokens.push(t);
                },
                Ok(None) => {
                    assert(tokens_from(s, before) == Ok::<Seq<TokenView>, LexFailure>(Seq::empty()));
                    assert(token_views(tokens@) + Seq::<TokenView>::empty() =~= token_views(tokens@));
                    return Ok(tokens);
                },
                Err(e) => {
                    assert(tokens_from(s, before) == Err::<Seq<TokenView>, LexFailure>(e@));
                    return Err(e);
                },
            }
        }
    }

    fn is_number(c: &char) -> (r: bool)
        ensures
            r == is_numeral_char(*c),
    {
        ('0' <= *c && *c <= '9') || *c == '.'
    }

    fn is_letter(c: &char) -> (r: bool)
        ensures
            r == is_letter(*c),
    {
        ('a' <= *c && *c <= 'z') || ('A' <= *c && *c <= 'Z')
    }

    /// Whether a run of digits and points is a numeral.
    fn is_well_formed(text: &Vec<char>) -> (r: bool)
        ensures
            r == well_formed_numeral(text@),
    {
        let mut has_digit = false;
        let mut has_point = false;
        let mut i: usize = 0;
        while i < text.len()
            invariant
                i <= text.len(),
                has_digit == exists|k: int| 0 <= k < i && is_digit(#[trigger] text@[k]),
                has_point == exists|k: int| 0 <= k < i && #[trigger] text@[k] == '.',
                forall|a: int, b: int| 0 <= a < b < i && text@[a] == '.' ==> text@[b] != '.',
            decreases text.len() - i,
        {
            let c = text[i];
            if c == '.' {
                if has_point {
                    let ghost k = choose|k: int| 0 <= k < i && #[trigger] text@[k] == '.';
                    assert(!(forall|a: int, b: int| 0 <= a < b < text@.len() && text@[a] == '.' ==> text@[b] != '.')) by {
                        assert(0 <= k < i as int && text@[k] == '.' && text@[i as int] == '.');
                    }
                    return false;
                }
                has_point = true;
            } else if '0' <= c && c <= '9' {
                has_digit = true;
            }
            i = i + 1;
        }
        has_digit
    }

    /// The token of a backslash command, if it is one of the three.
    fn command(text: &Vec<char>) -> (r: Option<Token>)
        requires
            text@.len() > 0,
            text@[0] == '\\',
        ensures
            match command_token(text@) {
                Some(t) => r matches Some(tok) && tok@ == t,
                None => r is None,
            },
    {
        let n = text.len();
        if n == 6 && text[1] == 't' && text[2] == 'i' && text[3] == 'm' && text[4] == 'e' && text[5] == 's' {
            assert(text@ =~= seq!['\\', 't', 'i', 'm', 'e', 's']);
            Some(Token::Times)
        } else if n == 4 && text[1] == 'd' && text[2] == 'i' && text[3] == 'v' {
            assert(text@ =~= seq!['\\', 'd', 'i', 'v']);
            Some(Token::Div)
        } else if n == 5 && text[1] == 'f' && text[2] == 'r' && text[3] == 'a' && text[4] == 'c' {
            assert(text@ =~= seq!['\\', 'f', 'r', 'a', 'c']);
            Some(Token::Frac)
        } else {
            assert(text@ != seq!['\\', 't', 'i', 'm', 'e', 's'] && text@ != seq!['\\', 'd', 'i', 'v']
                && text@ != seq!['\\', 'f', 'r', 'a', 'c']) by {
                if text@ == seq!['\\', 't', 'i', 'm', 'e', 's'] {
                    assert(text@[5] == 's');
                }
                if text@ == seq!['\\', 'd', 'i', 'v'] {
                    assert(text@[3] == 'v');
                }
                if text@ == seq!['\\', 'f', 'r', 'a', 'c'] {
                    assert(text@[4] == 'c');
                }
            }
            None
        }
    }
}

/// Splits a line into tokens, or reports the first text that is not one.
pub fn lex(input: Vec<char>) -> (r: Result<Vec<Token>, Error>)
    ensures
        lex_result_view(r) == tokenize(input@),
{
    Lexer::init(input).tokens()
}

} // verus!
