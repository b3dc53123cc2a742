use crate::error::{LexFailure, ParseError};
use crate::lexer::{
    TokenView, is_digit, is_numeral, is_numeral_char, lemma_run_end_bounds, lemma_scan_advances,
    numerals_well_formed, numeral_chars, run_end, scan, spaces, tokenize, tokens_from,
    well_formed_numeral,
};
use crate::parser::{
    Precedence, expect, lemma_argument_advances, lemma_expression_advances, lemma_infix_advances,
    lemma_prefix_advances, parse_argument, parse_enclosed, parse_expression, parse_infix,
    parse_prefix, parse_tokens, precedence_of,
};
use crate::syntax_tree::{TreeView, well_formed_tree};
use vstd::prelude::*;

verus! {

proof fn lemma_numeral_run(s: Seq<char>, i: nat)
    requires
        i <= s.len(),
        forall|k: int| i <= k < s.len() ==> is_numeral_char(#[trigger] s[k]),
    ensures
        run_end(s, i, numeral_chars()) == s.len(),
    decreases s.len() - i,
{
    if i < s.len() {
        lemma_numeral_run(s, i + 1);
    }
}

/// A numeral on a line of its own lexes to that numeral alone, and parses to
/// a leaf that holds it; written after a minus sign, it lexes to the minus and
/// the numeral, and parses to the negation of that leaf.
pub proof fn lemma_numeral_reads_as_leaf(n: Seq<char>)
    requires
        is_numeral(n),
    ensures
        tokenize(n) == Ok::<Seq<TokenView>, LexFailure>(seq![TokenView::Number(n)]),
        parse_tokens(seq![TokenView::Number(n)]) == Ok::<TreeView, ParseError>(
            TreeView::Number(n),
        ),
        tokenize(seq!['-'] + n) == Ok::<Seq<TokenView>, LexFailure>(
            seq![TokenView::Minus, TokenView::Number(n)],
        ),
        parse_tokens(seq![TokenView::Minus, TokenView::Number(n)]) == Ok::<TreeView, ParseError>(
            TreeView::PrefixExpr { operator: TokenView::Minus, right: Box::new(TreeView::Number(n)) },
        ),
{
    // a numeral has a digit, so it is not empty
    let k0 = choose|k: int| 0 <= k < n.len() && is_digit(#[trigger] n[k]);
    assert(n.len() > 0);
    // the numeral alone
    lemma_numeral_run(n, 0);
    assert(run_end(n, 0, spaces()) == 0);
    assert(n.subrange(0, n.len() as int) =~= n);
    assert(scan(n, 0) == Ok::<Option<(TokenView, nat)>, LexFailure>(
        Some((TokenView::Number(n), n.len())),
    ));
    assert(run_end(n, n.len(), spaces()) == n.len());
    assert(tokens_from(n, n.len()) == Ok::<Seq<TokenView>, LexFailure>(Seq::empty()));
    assert(seq![TokenView::Number(n)] + Seq::<TokenView>::empty() =~= seq![TokenView::Number(n)]);
    // after a minus sign
    let s = seq!['-'] + n;
    assert(s[0] == '-');
    assert(forall|k: int| 1 <= k < s.len() ==> #[trigger] s[k] == n[k - 1]);
    lemma_numeral_run(s, 1);
    assert(run_end(s, 0, spaces()) == 0);
    assert(scan(s, 0) == Ok::<Option<(TokenView, nat)>, LexFailure>(
        Some((TokenView::Minus, 1nat)),
    ));
    assert(run_end(s, 1, spaces()) == 1) by {
        assert(s[1] == n[0]);
    }
    assert(s.subrange(1, s.len() as int) =~= n);
    assert(scan(s, 1) == Ok::<Option<(TokenView, nat)>, LexFailure>(
        Some((TokenView::Number(n), s.len())),
    ));
    assert(run_end(s, s.len(), spaces()) == s.len());
    assert(tokens_from(s, s.len()) == Ok::<Seq<TokenView>, LexFailure>(Seq::empty()));
    assert(tokens_from(s, 1) == Ok::<Seq<TokenView>, LexFailure>(
        seq![TokenView::Number(n)],
    ));
    assert(seq![TokenView::Minus] + seq![TokenView::Number(n)] =~= seq![
        TokenView::Minus,
        TokenView::Number(n),
    ]);
    // parsing
    let one = seq![TokenView::Number(n)];
    let leaf = TreeView::Number(n);
    assert(parse_prefix(one, 0) == Ok::<(TreeView, nat), ParseError>((leaf, 1nat)));
    assert(parse_infix(one, 1, Precedence::Lowest, leaf) == Ok::<(TreeView, nat), ParseError>(
        (leaf, 1nat),
    ));
    assert(parse_expression(one, 0, Precedence::Lowest) == Ok::<(TreeView, nat), ParseError>(
        (leaf, 1nat),
    ));
    let two = seq![TokenView::Minus, TokenView::Number(n)];
    let negation = TreeView::PrefixExpr { operator: TokenView::Minus, right: Box::new(leaf) };
    assert(parse_prefix(two, 1) == Ok::<(TreeView, nat), ParseError>((leaf, 2nat)));
    assert(parse_infix(two, 2, Precedence::Prefix, leaf) == Ok::<(TreeView, nat), ParseError>(
        (leaf, 2nat),
    ));
    assert(parse_expression(two, 1, Precedence::Prefix) == Ok::<(TreeView, nat), ParseError>(
        (leaf, 2nat),
    ));
    assert(parse_prefix(two, 0) == Ok::<(TreeView, nat), ParseError>((negation, 2nat)));
    assert(parse_infix(two, 2, Precedence::Lowest, negation) == Ok::<(TreeView, nat), ParseError>(
        (negation, 2nat),
    ));
    assert(parse_expression(two, 0, Precedence::Lowest) == Ok::<(TreeView, nat), ParseError>(
        (negation, 2nat),
    ));
}

/// Lexing depends on the characters alone: two lines with the same characters
/// give the same tokens, or the same failure, however often they are lexed.
pub proof fn lemma_lex_is_pure(a: Seq<char>, b: Seq<char>)
    requires
        a == b,
    ensures
        tokenize(a) == tokenize(b),
{
}

proof fn lemma_tokens_well_formed(s: Seq<char>, i: nat)
    ensures
        tokens_from(s, i) matches Ok(ts) ==> numerals_well_formed(ts),
    decreases s.len() - i,
{
    lemma_scan_advances(s, i);
    let k = run_end(s, i, spaces());
    if k < s.len() && is_numeral_char(s[k as int]) {
        lemma_run_end_bounds(s, k, numeral_chars());
        let e = run_end(s, k, numeral_chars());
        let text = s.subrange(k as int, e as int);
        assert forall|m: int| 0 <= m < text.len() implies is_numeral_char(#[trigger] text[m]) by {
            assert(text[m] == s[k + m]);
        }
    }
    if let Ok(Some((t, j))) = scan(s, i) {
        lemma_tokens_well_formed(s, j);
        if let Ok(rest) = tokens_from(s, j) {
            let all = seq![t] + rest;
            assert forall|m: int| 0 <= m < all.len() && (#[trigger] all[m]) is Number implies is_numeral(
                all[m]->Number_0,
            ) by {
                if m > 0 {
                    assert(all[m] == rest[m - 1]);
                }
            }
        }
    }
}

proof fn lemma_expression_well_formed(ts: Seq<TokenView>, i: nat, p: Precedence)
    requires
        numerals_well_formed(ts),
    ensures
        parse_expression(ts, i, p) matches Ok((t, _)) ==> well_formed_tree(t),
    decreases ts.len() - i, 2nat,
{
    lemma_prefix_well_formed(ts, i);
    if let Ok((left, j)) = parse_prefix(ts, i) {
        if i < j <= ts.len() {
            lemma_infix_well_formed(ts, j, p, left);
        }
    }
}

proof fn lemma_prefix_well_formed(ts: Seq<TokenView>, i: nat)
    requires
        numerals_well_formed(ts),
    ensures
        parse_prefix(ts, i) matches Ok((t, _)) ==> well_formed_tree(t),
    decreases ts.len() - i, 1nat,
{
    if i < ts.len() {
        match ts[i as int] {
            TokenView::Minus => lemma_expression_well_formed(ts, i + 1, Precedence::Prefix),
            TokenView::LParen => lemma_enclosed_well_formed(ts, i + 1, TokenView::RParen),
            TokenView::Frac => {
                lemma_argument_well_formed(ts, i + 1);
                if let Ok((_, j)) = parse_argument(ts, i + 1) {
                    if i < j <= ts.len() {
                        lemma_argument_well_formed(ts, j);
                    }
                }
            },
            _ => {},
        }
    }
}

proof fn lemma_infix_well_formed(ts: Seq<TokenView>, i: nat, p: Precedence, left: TreeView)
    requires
        numerals_well_formed(ts),
        well_formed_tree(left),
    ensures
        parse_infix(ts, i, p, left) matches Ok((t, _)) ==> well_formed_tree(t),
    decreases ts.len() - i, 0nat,
{
    if i < ts.len() && p.rank() < precedence_of(ts[i as int]).rank() {
        let operator = ts[i as int];
        lemma_expression_well_formed(ts, i + 1, precedence_of(operator));
        if let Ok((right, j)) = parse_expression(ts, i + 1, precedence_of(operator)) {
            let tree = TreeView::InfixExpr { left: Box::new(left), operator, right: Box::new(right) };
            if i < j <= ts.len() {
                lemma_infix_well_formed(ts, j, p, tree);
            }
        }
    }
}

proof fn lemma_enclosed_well_formed(ts: Seq<TokenView>, i: nat, closing: TokenView)
    requires
        numerals_well_formed(ts),
    ensures
        parse_enclosed(ts, i, closing) matches Ok((t, _)) ==> well_formed_tree(t),
    decreases ts.len() - i, 3nat,
{
    lemma_expression_well_formed(ts, i, Precedence::Lowest);
}

proof fn lemma_argument_well_formed(ts: Seq<TokenView>, i: nat)
    requires
        numerals_well_formed(ts),
    ensures
        parse_argument(ts, i) matches Ok((t, _)) ==> well_formed_tree(t),
    decreases ts.len() - i, 4nat,
{
    if expect(ts, i, TokenView::LBrace) is None {
        lemma_enclosed_well_formed(ts, i + 1, TokenView::RBrace);
    }
}

/// Every tree that a line lexes and parses to is well formed: its unary
/// operators are all `-`, its binary operators all `+`, `-`, `\times` or
/// `\div`, and its leaves all numerals, so evaluating it meets no invalid
/// operator and reads every leaf as a number.
pub proof fn lemma_parsed_lines_are_well_formed(s: Seq<char>)
    ensures
        tokenize(s) matches Ok(ts) ==> (parse_tokens(ts) matches Ok(t) ==> well_formed_tree(t)),
{
    lemma_tokens_well_formed(s, 0);
    if let Ok(ts) = tokenize(s) {
        lemma_expression_well_formed(ts, 0, Precedence::Lowest);
    }
}

/// A sum operator (`+` or `-`).
pub open spec fn is_sum_operator(t: TokenView) -> bool {
    t is Plus || t is Minus
}

/// A product operator (`\times` or `\div`).
pub open spec fn is_product_operator(t: TokenView) -> bool {
    t is Times || t is Div
}

pub open spec fn infix(left: TreeView, operator: TokenView, right: TreeView) -> TreeView {
    TreeView::InfixExpr { left: Box::new(left), operator, right: Box::new(right) }
}

spec fn parsed(t: TreeView, j: nat) -> Result<(TreeView, nat), ParseError> {
    Ok((t, j))
}

/// A product binds tighter than a sum on either side of it: `x + y × z` is
/// `x + (y × z)`, and `x × y + z` is `(x × y) + z`.
pub proof fn lemma_product_binds_tighter(x: Seq<char>, y: Seq<char>, z: Seq<char>, s: TokenView, m: TokenView)
    requires
        is_sum_operator(s),
        is_product_operator(m),
    ensures
        parse_tokens(seq![TokenView::Number(x), s, TokenView::Number(y), m, TokenView::Number(z)])
            == Ok::<TreeView, ParseError>(
            infix(TreeView::Number(x), s, infix(TreeView::Number(y), m, TreeView::Number(z))),
        ),
        parse_tokens(seq![TokenView::Number(x), m, TokenView::Number(y), s, TokenView::Number(z)])
            == Ok::<TreeView, ParseError>(
            infix(infix(TreeView::Number(x), m, TreeView::Number(y)), s, TreeView::Number(z)),
        ),
{
    let (nx, ny, nz) = (TreeView::Number(x), TreeView::Number(y), TreeView::Number(z));
    let a = seq![TokenView::Number(x), s, TokenView::Number(y), m, TokenView::Number(z)];
    let ymz = infix(ny, m, nz);
    assert(parse_prefix(a, 4) == parsed(nz, 5));
    assert(parse_infix(a, 5, Precedence::Product, nz) == parsed(nz, 5));
    assert(parse_expression(a, 4, Precedence::Product) == parsed(nz, 5));
    assert(parse_infix(a, 5, Precedence::Sum, ymz) == parsed(ymz, 5));
    assert(parse_prefix(a, 2) == parsed(ny, 3));
    assert(parse_infix(a, 3, Precedence::Sum, ny) == parsed(ymz, 5));
    assert(parse_expression(a, 2, Precedence::Sum) == parsed(ymz, 5));
    assert(parse_infix(a, 5, Precedence::Lowest, infix(nx, s, ymz)) == parsed(infix(nx, s, ymz), 5));
    assert(parse_prefix(a, 0) == parsed(nx, 1));
    assert(parse_infix(a, 1, Precedence::Lowest, nx) == parsed(infix(nx, s, ymz), 5));
    assert(parse_expression(a, 0, Precedence::Lowest) == parsed(infix(nx, s, ymz), 5));

    let b = seq![TokenView::Number(x), m, TokenView::Number(y), s, TokenView::Number(z)];
    let xmy = infix(nx, m, ny);
    assert(parse_prefix(b, 2) == parsed(ny, 3));
    assert(parse_infix(b, 3, Precedence::Product, ny) == parsed(ny, 3));
    assert(parse_expression(b, 2, Precedence::Product) == parsed(ny, 3));
    assert(parse_prefix(b, 4) == parsed(nz, 5));
    assert(parse_infix(b, 5, Precedence::Sum, nz) == parsed(nz, 5));
    assert(parse_expression(b, 4, Precedence::Sum) == parsed(nz, 5));
    assert(parse_infix(b, 5, Precedence::Lowest, infix(xmy, s, nz)) == parsed(infix(xmy, s, nz), 5));
    assert(parse_infix(b, 3, Precedence::Lowest, xmy) == parsed(infix(xmy, s, nz), 5));
    assert(parse_prefix(b, 0) == parsed(nx, 1));
    assert(parse_infix(b, 1, Precedence::Lowest, nx) == parsed(infix(xmy, s, nz), 5));
    assert(parse_expression(b, 0, Precedence::Lowest) == parsed(infix(xmy, s, nz), 5));
}

/// Operators of equal precedence bind to the left: `x o y p z` is
/// `(x o y) p z` when `o` and `p` are both sums or both products.
pub proof fn lemma_equal_precedence_binds_left(x: Seq<char>, y: Seq<char>, z: Seq<char>, o: TokenView, p: TokenView)
    requires
        (is_sum_operator(o) && is_sum_operator(p)) || (is_product_operator(o) && is_product_operator(p)),
    ensures
        parse_tokens(seq![TokenView::Number(x), o, TokenView::Number(y), p, TokenView::Number(z)])
            == Ok::<TreeView, ParseError>(
            infix(infix(TreeView::Number(x), o, TreeView::Number(y)), p, TreeView::Number(z)),
        ),
{
    reveal_with_fuel(parse_expression, 4);
    reveal_with_fuel(parse_infix, 4);
    reveal_with_fuel(parse_prefix, 2);
}

/// Parentheses override precedence: `(x + y) × z` multiplies the sum.
pub proof fn lemma_parentheses_override_precedence(x: Seq<char>, y: Seq<char>, z: Seq<char>, s: TokenView, m: TokenView)
    requires
        is_sum_operator(s),
        is_product_operator(m),
    ensures
        parse_tokens(
            seq![
                TokenView::LParen,
                TokenView::Number(x),
                s,
                TokenView::Number(y),
                TokenView::RParen,
                m,
                TokenView::Number(z),
            ],
        ) == Ok::<TreeView, ParseError>(
            infix(infix(TreeView::Number(x), s, TreeView::Number(y)), m, TreeView::Number(z)),
        ),
{
    let (nx, ny, nz) = (TreeView::Number(x), TreeView::Number(y), TreeView::Number(z));
    let a = seq![TokenView::LParen, TokenView::Number(x), s, TokenView::Number(y), TokenView::RParen, m, TokenView::Number(z)];
    let xsy = infix(nx, s, ny);
    assert(parse_prefix(a, 3) == parsed(ny, 4));
    assert(parse_infix(a, 4, Precedence::Sum, ny) == parsed(ny, 4));
    assert(parse_expression(a, 3, Precedence::Sum) == parsed(ny, 4));
    assert(parse_infix(a, 4, Precedence::Lowest, xsy) == parsed(xsy, 4));
    assert(parse_prefix(a, 1) == parsed(nx, 2));
    assert(parse_infix(a, 2, Precedence::Lowest, nx) == parsed(xsy, 4));
    assert(parse_expression(a, 1, Precedence::Lowest) == parsed(xsy, 4));
    assert(parse_enclosed(a, 1, TokenView::RParen) == parsed(xsy, 5));
    assert(parse_prefix(a, 0) == parsed(xsy, 5));
    assert(parse_prefix(a, 6) == parsed(nz, 7));
    assert(parse_infix(a, 7, Precedence::Product, nz) == parsed(nz, 7));
    assert(parse_expression(a, 6, Precedence::Product) == parsed(nz, 7));
    assert(parse_infix(a, 7, Precedence::Lowest, infix(xsy, m, nz)) == parsed(infix(xsy, m, nz), 7));
    assert(parse_infix(a, 5, Precedence::Lowest, xsy) == parsed(infix(xsy, m, nz), 7));
    assert(parse_expression(a, 0, Precedence::Lowest) == parsed(infix(xsy, m, nz), 7));
}

/// `\frac{x}{y}` is the fraction of its two arguments.
pub proof fn lemma_fraction_construct(x: Seq<char>, y: Seq<char>)
    ensures
        parse_tokens(
            seq![
                TokenView::Frac,
                TokenView::LBrace,
                TokenView::Number(x),
                TokenView::RBrace,
                TokenView::LBrace,
                TokenView::Number(y),
                TokenView::RBrace,
            ],
        ) == Ok::<TreeView, ParseError>(
            TreeView::Fraction {
                numerator: Box::new(TreeView::Number(x)),
                denominator: Box::new(TreeView::Number(y)),
            },
        ),
{
    let (nx, ny) = (TreeView::Number(x), TreeView::Number(y));
    let a = seq![
        TokenView::Frac,
        TokenView::LBrace,
        TokenView::Number(x),
        TokenView::RBrace,
        TokenView::LBrace,
        TokenView::Number(y),
        TokenView::RBrace,
    ];
    let f = TreeView::Fraction { numerator: Box::new(nx), denominator: Box::new(ny) };
    assert(parse_prefix(a, 2) == parsed(nx, 3));
    assert(parse_infix(a, 3, Precedence::Lowest, nx) == parsed(nx, 3));
    assert(parse_expression(a, 2, Precedence::Lowest) == parsed(nx, 3));
    assert(parse_enclosed(a, 2, TokenView::RBrace) == parsed(nx, 4));
    assert(parse_argument(a, 1) == parsed(nx, 4));
    assert(parse_prefix(a, 5) == parsed(ny, 6));
    assert(parse_infix(a, 6, Precedence::Lowest, ny) == parsed(ny, 6));
    assert(parse_expression(a, 5, Precedence::Lowest) == parsed(ny, 6));
    assert(parse_enclosed(a, 5, TokenView::RBrace) == parsed(ny, 7));
    assert(parse_argument(a, 4) == parsed(ny, 7));
    assert(parse_prefix(a, 0) == parsed(f, 7));
    assert(parse_infix(a, 7, Precedence::Lowest, f) == parsed(f, 7));
    assert(parse_expression(a, 0, Precedence::Lowest) == parsed(f, 7));
}

/// The tokens that write `t` out with every operand of an operator, and every
/// negated operand, in parentheses.
pub open spec fn fully_parenthesized(t: TreeView) -> Seq<TokenView>
    decreases t, 0nat,
{
    match t {
        TreeView::Number(n) => seq![TokenView::Number(n)],
        TreeView::PrefixExpr { operator, right } => seq![operator] + parenthesized(*right),
        TreeView::InfixExpr { left, operator, right } => parenthesized(*left) + seq![operator]
            + parenthesized(*right),
        TreeView::Fraction { numerator, denominator } => seq![TokenView::Frac, TokenView::LBrace]
            + fully_parenthesized(*numerator) + seq![TokenView::RBrace, TokenView::LBrace]
            + fully_parenthesized(*denominator) + seq![TokenView::RBrace],
    }
}

/// `t` written out in full, between parentheses.
pub open spec fn parenthesized(t: TreeView) -> Seq<TokenView>
    decreases t, 1nat,
{
    seq![TokenView::LParen] + fully_parenthesized(t) + seq![TokenView::RParen]
}

/// `w` stands in `ts` from index `i` on.
spec fn occurs_at(ts: Seq<TokenView>, i: nat, w: Seq<TokenView>) -> bool {
    i + w.len() <= ts.len() && ts.subrange(i as int, (i + w.len()) as int) == w
}

/// At index `j` an expression ends: the tokens end, or the token there is no
/// operator.
spec fn ends_expression(ts: Seq<TokenView>, j: nat) -> bool {
    j >= ts.len() || precedence_of(ts[j as int]).rank() == 0
}

proof fn lemma_occurs_within(ts: Seq<TokenView>, i: nat, w: Seq<TokenView>, a: nat, v: Seq<TokenView>)
    requires
        occurs_at(ts, i, w),
        a + v.len() <= w.len(),
        w.subrange(a as int, (a + v.len()) as int) == v,
    ensures
        occurs_at(ts, i + a, v),
{
    assert(ts.subrange((i + a) as int, (i + a + v.len()) as int) =~= v) by {
        assert forall|k: int| 0 <= k < v.len() implies ts.subrange((i + a) as int, (i + a + v.len()) as int)[k] == v[k] by {
            assert(ts.subrange(i as int, (i + w.len()) as int)[a + k] == w[a + k]);
            assert(w.subrange(a as int, (a + v.len()) as int)[k] == w[a + k]);
        }
    }
}

proof fn lemma_parenthesized_parses(ts: Seq<TokenView>, i: nat, t: TreeView, p: Precedence)
    requires
        well_formed_tree(t),
        occurs_at(ts, i, parenthesized(t)),
        ends_expression(ts, i + parenthesized(t).len()),
    ensures
        parse_expression(ts, i, p) == parsed(t, i + parenthesized(t).len()),
    decreases t, 1nat,
{
    let w = parenthesized(t);
    let inner = fully_parenthesized(t);
    let n = inner.len();
    assert(w.subrange(1, (1 + n) as int) =~= inner);
    lemma_occurs_within(ts, i, w, 1, inner);
    assert(ts[i as int] == w[0]);
    assert(ts[(i + 1 + n) as int] == w[(1 + n) as int]);
    lemma_fully_parenthesized_parses(ts, i + 1, t);
    assert(parse_enclosed(ts, i + 1, TokenView::RParen) == parsed(t, i + w.len()));
    assert(parse_prefix(ts, i) == parsed(t, i + w.len()));
    assert(parse_infix(ts, i + w.len(), p, t) == parsed(t, i + w.len()));
}

proof fn lemma_fully_parenthesized_parses(ts: Seq<TokenView>, i: nat, t: TreeView)
    requires
        well_formed_tree(t),
        occurs_at(ts, i, fully_parenthesized(t)),
        ends_expression(ts, i + fully_parenthesized(t).len()),
    ensures
        parse_expression(ts, i, Precedence::Lowest) == parsed(t, i + fully_parenthesized(t).len()),
    decreases t, 0nat,
{
    let w = fully_parenthesized(t);
    let end = i + w.len();
    assert(ts[i as int] == w[0]);
    match t {
        TreeView::Number(_) => {
            assert(parse_prefix(ts, i) == parsed(t, end));
            assert(parse_infix(ts, end, Precedence::Lowest, t) == parsed(t, end));
        },
        TreeView::PrefixExpr { operator, right } => {
            let r = parenthesized(*right);
            assert(w.subrange(1, (1 + r.len()) as int) =~= r);
            lemma_occurs_within(ts, i, w, 1, r);
            lemma_parenthesized_parses(ts, i + 1, *right, Precedence::Prefix);
            assert(parse_prefix(ts, i) == parsed(t, end));
            assert(parse_infix(ts, end, Precedence::Lowest, t) == parsed(t, end));
        },
        TreeView::InfixExpr { left, operator, right } => {
            let l = parenthesized(*left);
            let r = parenthesized(*right);
            let j = i + l.len();
            assert(w.subrange(0, l.len() as int) =~= l);
            assert(w.subrange((l.len() + 1) as int, (l.len() + 1 + r.len()) as int) =~= r);
            lemma_occurs_within(ts, i, w, 0, l);
            lemma_occurs_within(ts, i, w, l.len() + 1, r);
            assert(ts[j as int] == w[l.len() as int]);
            assert(ts[j as int] == operator);
            lemma_parenthesized_parses(ts, j + 1, *right, precedence_of(operator));
            let ll = fully_parenthesized(*left);
            assert(l.subrange(1, (1 + ll.len()) as int) =~= ll);
            lemma_occurs_within(ts, i, l, 1, ll);
            assert(ts[(i + 1 + ll.len()) as int] == l[(1 + ll.len()) as int]);
            lemma_fully_parenthesized_parses(ts, i + 1, *left);
            assert(parse_prefix(ts, i) == parsed(*left, j));
            assert(parse_infix(ts, end, Precedence::Lowest, t) == parsed(t, end));
            assert(parse_infix(ts, j, Precedence::Lowest, *left) == parsed(t, end));
        },
        TreeView::Fraction { numerator, denominator } => {
            let a = fully_parenthesized(*numerator);
            let b = fully_parenthesized(*denominator);
            let j = i + 2 + a.len();
            assert(w.subrange(2, (2 + a.len()) as int) =~= a);
            assert(w.subrange((4 + a.len()) as int, (4 + a.len() + b.len()) as int) =~= b);
            lemma_occurs_within(ts, i, w, 2, a);
            lemma_occurs_within(ts, i, w, 4 + a.len(), b);
            assert(ts[(i + 1) as int] == w[1]);
            assert(ts[j as int] == w[(2 + a.len()) as int]);
            assert(ts[(j + 1) as int] == w[(3 + a.len()) as int]);
            assert(ts[(j + 2 + b.len()) as int] == w[(4 + a.len() + b.len()) as int]);
            lemma_fully_parenthesized_parses(ts, i + 2, *numerator);
            lemma_fully_parenthesized_parses(ts, j + 2, *denominator);
            assert(parse_argument(ts, i + 1) == parsed(*numerator, j + 1));
            assert(parse_argument(ts, j + 1) == parsed(*denominator, end));
            assert(parse_prefix(ts, i) == parsed(t, end));
            assert(parse_infix(ts, end, Precedence::Lowest, t) == parsed(t, end));
        },
    }
}

/// Every well-formed tree, written out with its operands in parentheses,
/// parses back to itself.
pub proof fn lemma_fully_parenthesized_parses_back(t: TreeView)
    requires
        well_formed_tree(t),
    ensures
        parse_tokens(fully_parenthesized(t)) == Ok::<TreeView, ParseError>(t),
{
    let ts = fully_parenthesized(t);
    assert(ts.subrange(0, ts.len() as int) =~= ts);
    lemma_fully_parenthesized_parses(ts, 0, t);
}

/// The number of `(` less the number of `)` among the tokens from `i` to `j`.
pub open spec fn paren_balance(ts: Seq<TokenView>, i: int, j: int) -> int
    decreases j - i,
{
    if i >= j {
        0
    } else {
        (if ts[i] is LParen {
            1int
        } else if ts[i] is RParen {
            -1int
        } else {
            0int
        }) + paren_balance(ts, i + 1, j)
    }
}

proof fn lemma_balance_splits(ts: Seq<TokenView>, i: int, j: int, k: int)
    requires
        i <= j <= k,
    ensures
        paren_balance(ts, i, k) == paren_balance(ts, i, j) + paren_balance(ts, j, k),
    decreases j - i,
{
    if i < j {
        lemma_balance_splits(ts, i + 1, j, k);
    }
}

proof fn lemma_expression_balanced(ts: Seq<TokenView>, i: nat, p: Precedence)
    ensures
        parse_expression(ts, i, p) matches Ok((_, j)) ==> paren_balance(ts, i as int, j as int) == 0,
    decreases ts.len() - i, 2nat,
{
    lemma_prefix_balanced(ts, i);
    lemma_prefix_advances(ts, i);
    if let Ok((left, j)) = parse_prefix(ts, i) {
        lemma_infix_balanced(ts, j, p, left);
        lemma_infix_advances(ts, j, p, left);
        if let Ok((_, k)) = parse_infix(ts, j, p, left) {
            lemma_balance_splits(ts, i as int, j as int, k as int);
        }
    }
}

proof fn lemma_prefix_balanced(ts: Seq<TokenView>, i: nat)
    ensures
        parse_prefix(ts, i) matches Ok((_, j)) ==> paren_balance(ts, i as int, j as int) == 0,
    decreases ts.len() - i, 1nat,
{
    if i < ts.len() {
        match ts[i as int] {
            TokenView::Minus => {
                lemma_expression_balanced(ts, i + 1, Precedence::Prefix);
                lemma_expression_advances(ts, i + 1, Precedence::Prefix);
                if let Ok((_, j)) = parse_expression(ts, i + 1, Precedence::Prefix) {
                    assert(paren_balance(ts, i as int, j as int) == paren_balance(ts, i + 1int, j as int));
                }
            },
            TokenView::LParen => {
                lemma_expression_balanced(ts, i + 1, Precedence::Lowest);
                lemma_expression_advances(ts, i + 1, Precedence::Lowest);
                if let Ok((_, j)) = parse_expression(ts, i + 1, Precedence::Lowest) {
                    if expect(ts, j, TokenView::RParen) is None {
                        lemma_balance_splits(ts, i + 1int, j as int, j + 1int);
                        assert(paren_balance(ts, j + 1int, j + 1int) == 0);
                        assert(paren_balance(ts, j as int, j + 1int) == -1);
                        assert(paren_balance(ts, i as int, j + 1int) == 1 + paren_balance(ts, i + 1int, j + 1int));
                    }
                }
            },
            TokenView::Frac => {
                lemma_argument_balanced(ts, i + 1);
                lemma_argument_advances(ts, i + 1);
                if let Ok((_, j)) = parse_argument(ts, i + 1) {
                    lemma_argument_balanced(ts, j);
                    lemma_argument_advances(ts, j);
                    if let Ok((_, k)) = parse_argument(ts, j) {
                        lemma_balance_splits(ts, i + 1int, j as int, k as int);
                        assert(paren_balance(ts, i as int, k as int) == paren_balance(ts, i + 1int, k as int));
                    }
                }
            },
            TokenView::Number(_) => {
                assert(paren_balance(ts, i + 1int, i + 1int) == 0);
            },
            _ => {},
        }
    }
}

proof fn lemma_infix_balanced(ts: Seq<TokenView>, i: nat, p: Precedence, left: TreeView)
    ensures
        parse_infix(ts, i, p, left) matches Ok((_, j)) ==> paren_balance(ts, i as int, j as int) == 0,
    decreases ts.len() - i, 0nat,
{
    if i < ts.len() && p.rank() < precedence_of(ts[i as int]).rank() {
        let operator = ts[i as int];
        lemma_expression_balanced(ts, i + 1, precedence_of(operator));
        lemma_expression_advances(ts, i + 1, precedence_of(operator));
        if let Ok((right, j)) = parse_expression(ts, i + 1, precedence_of(operator)) {
            let tree = TreeView::InfixExpr { left: Box::new(left), operator, right: Box::new(right) };
            lemma_infix_balanced(ts, j, p, tree);
            lemma_infix_advances(ts, j, p, tree);
            if let Ok((_, k)) = parse_infix(ts, j, p, tree) {
                lemma_balance_splits(ts, i + 1int, j as int, k as int);
            }
        }
    }
}

proof fn lemma_argument_balanced(ts: Seq<TokenView>, i: nat)
    ensures
        parse_argument(ts, i) matches Ok((_, j)) ==> paren_balance(ts, i as int, j as int) == 0,
    decreases ts.len() - i, 4nat,
{
    if expect(ts, i, TokenView::LBrace) is None {
        lemma_expression_balanced(ts, i + 1, Precedence::Lowest);
        lemma_expression_advances(ts, i + 1, Precedence::Lowest);
        if let Ok((_, j)) = parse_expression(ts, i + 1, Precedence::Lowest) {
            if expect(ts, j, TokenView::RBrace) is None {
                lemma_balance_splits(ts, i + 1int, j as int, j + 1int);
                assert(paren_balance(ts, j + 1int, j + 1int) == 0);
                assert(paren_balance(ts, j as int, j + 1int) == 0);
                assert(paren_balance(ts, i as int, j + 1int) == paren_balance(ts, i + 1int, j + 1int));
            }
        }
    }
}

/// Tokens whose opening and closing parentheses do not match in number never
/// parse.
pub proof fn lemma_unmatched_parentheses_are_rejected(ts: Seq<TokenView>)
    requires
        paren_balance(ts, 0, ts.len() as int) != 0,
    ensures
        parse_tokens(ts) is Err,
{
    lemma_expression_balanced(ts, 0, Precedence::Lowest);
    lemma_expression_advances(ts, 0, Precedence::Lowest);
}

} // verus!
