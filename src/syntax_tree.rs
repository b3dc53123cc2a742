use crate::lexer::{Token, TokenView, is_numeral};
use vstd::prelude::*;

verus! {

/// An arithmetic expression as a tree; each node owns its children.
#[derive(Debug, PartialEq)]
pub enum SyntaxTree {
    /// A numeral, as written.
    Number(String),
    /// A unary operator applied to one operand; only `Token::Minus` is legal.
    PrefixExpr { operator: Token, right: Box<SyntaxTree> },
    /// A binary operator; legal ones are `Plus`, `Minus`, `Times` and `Div`.
    InfixExpr { left: Box<SyntaxTree>, operator: Token, right: Box<SyntaxTree> },
    /// `\frac{numerator}{denominator}`.
    Fraction { numerator: Box<SyntaxTree>, denominator: Box<SyntaxTree> },
}

/// A syntax tree as a mathematical value.
pub enum TreeView {
    Number(Seq<char>),
    PrefixExpr { operator: TokenView, right: Box<TreeView> },
    InfixExpr { left: Box<TreeView>, operator: TokenView, right: Box<TreeView> },
    Fraction { numerator: Box<TreeView>, denominator: Box<TreeView> },
}

impl View for SyntaxTree {
    type V = TreeView;

    open spec fn view(&self) -> TreeView
        decreases self,
    {
        match self {
            SyntaxTree::Number(n) => TreeView::Number(n@),
            SyntaxTree::PrefixExpr { operator, right } => TreeView::PrefixExpr {
                operator: operator@,
                right: Box::new((**right).view()),
            },
            SyntaxTree::InfixExpr { left, operator, right } => TreeView::InfixExpr {
                left: Box::new((**left).view()),
                operator: operator@,
                right: Box::new((**right).view()),
            },
            SyntaxTree::Fraction { numerator, denominator } => TreeView::Fraction {
                numerator: Box::new((**numerator).view()),
                denominator: Box::new((**denominator).view()),
            },
        }
    }
}

/// A tree that evaluation can reduce: every unary operator is `-`, every
/// binary one is `+`, `-`, `\times` or `\div`, and every leaf is a numeral.
pub open spec fn well_formed_tree(t: TreeView) -> bool
    decreases t,
{
    match t {
        TreeView::Number(n) => is_numeral(n),
        TreeView::PrefixExpr { operator, right } => operator is Minus && well_formed_tree(*right),
        TreeView::InfixExpr { left, operator, right } => {
            &&& (operator is Plus || operator is Minus || operator is Times || operator is Div)
            &&& well_formed_tree(*left)
            &&& well_formed_tree(*right)
        },
        TreeView::Fraction { numerator, denominator } => well_formed_tree(*numerator) && well_formed_tree(
            *denominator,
        ),
    }
}

} // verus!
