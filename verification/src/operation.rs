//! Binary operators of the surrounding language's expression grammar.

use vstd::prelude::*;

verus! {

broadcast use vstd::string::axiom_spec_iter, vstd::string::next_postcondition;

/// A binary operator, exactly as the grammar spells it.
#[derive(Clone, Copy, PartialEq, Eq, Structural, Debug)]
pub enum Operation {
    Plus,
    Minus,
    Times,
    Divide,
    Eq,
    Neq,
    Lt,
    Le,
    Gt,
    Ge,
}

/// The operator a source text denotes: the one- or two-character spellings of
/// the grammar, and nothing else.
pub open spec fn spec_parse_operation(s: Seq<char>) -> Option<Operation> {
    if s.len() == 1 {
        if s[0] == '+' {
            Some(Operation::Plus)
        } else if s[0] == '-' {
            Some(Operation::Minus)
        } else if s[0] == '*' {
            Some(Operation::Times)
        } else if s[0] == '/' {
            Some(Operation::Divide)
        } else if s[0] == '=' {
            Some(Operation::Eq)
        } else if s[0] == '<' {
            Some(Operation::Lt)
        } else if s[0] == '>' {
            Some(Operation::Gt)
        } else {
            None::<Operation>
        }
    } else if s.len() == 2 {
        if s[0] == '<' && s[1] == '>' {
            Some(Operation::Neq)
        } else if s[0] == '<' && s[1] == '=' {
            Some(Operation::Le)
        } else if s[0] == '>' && s[1] == '=' {
            Some(Operation::Ge)
        } else {
            None::<Operation>
        }
    } else {
        None::<Operation>
    }
}

/// Parses an operator's source text.
pub fn parse_operation(s: &str) -> (r: Option<Operation>)
    ensures
        r == spec_parse_operation(s@),
{
    let mut it = s.chars();
    let c0 = it.next();
    let c1 = it.next();
    let c2 = it.next();
    match (c0, c1, c2) {
        (Some('+'), None, None) => Some(Operation::Plus),
        (Some('-'), None, None) => Some(Operation::Minus),
        (Some('*'), None, None) => Some(Operation::Times),
        (Some('/'), None, None) => Some(Operation::Divide),
        (Some('='), None, None) => Some(Operation::Eq),
        (Some('<'), None, None) => Some(Operation::Lt),
        (Some('>'), None, None) => Some(Operation::Gt),
        (Some('<'), Some('>'), None) => Some(Operation::Neq),
        (Some('<'), Some('='), None) => Some(Operation::Le),
        (Some('>'), Some('='), None) => Some(Operation::Ge),
        _ => None,
    }
}

} // verus!
