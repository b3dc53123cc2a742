//! Medley: a calculator for one line of LaTeX-flavoured arithmetic.
//!
//! A line is split into tokens by [`lexer`], the tokens are built into a
//! [`syntax_tree::SyntaxTree`] by [`parser`], and [`evaluation`] makes the
//! decisions that evaluating the tree calls for (which operator applies, and
//! whether a division by zero is indeterminate or incompatible). [`laws`]
//! states what holds of the whole way from text to tree, and
//! [`config_manager`] checks the configured engine.
pub mod error;
pub mod lexer;
pub mod syntax_tree;
pub mod parser;
pub mod evaluation;
pub mod config_manager;
pub mod laws;
