//! Tokens of the surrounding language's lexical grammar: pure data consumed
//! by the parser that hands this core its declaration batches.

use vstd::prelude::*;

verus! {

/// A lexed item and the byte offsets of its start and end.
pub type Span<T> = (usize, T, usize);

/// A lexical error.
#[derive(Clone, PartialEq, Eq, Structural, Debug)]
pub struct Error;

/// One token of the source language.
#[derive(Clone, Debug, PartialEq, Eq)]
pub enum Tok<'input> {
    /// Symbols start with a letter ([a-zA-Z]), followed by any more
    /// letters, underscores, or digits. Symbols are case sensitive, and
    /// keywords cannot be used as symbols.
    Symbol(&'input str),
    /// An integer literal is one or more digits from 0-9.
    Int(&'input str),
    /// A string literal.
    String(&'input str),
    Nil,
    Break,
    If,
    Then,
    Else,
    Type,
    Function,
    Var,
    While,
    For,
    To,
    Do,
    Let,
    In,
    End,
    Array,
    Of,
    Assign,
    Hash,
    Colon,
    Semi,
    Comma,
    Dot,
    LParen,
    RParen,
    LBrack,
    RBrack,
    LBrace,
    RBrace,
    Eq,
    Neq,
    And,
    Or,
    Plus,
    Minus,
    Times,
    Divide,
    Lt,
    Le,
    Gt,
    Ge,
}

} // verus!
