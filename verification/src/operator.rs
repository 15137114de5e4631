//! The operator catalogue: which symbol strings name which operators.

use vstd::prelude::*;
use crate::support::str_eq;

verus! {

/// An operator of the language.
#[derive(Debug, Clone, Copy, PartialEq)]
pub enum Operator {
    Add,
    Subtract,
    Multiply,
    Divide,
    And,
    Or,
    Equal,
    ShiftLeft,
    ShiftRight,
    GreaterThan,
    LessThan,
}

/// The operator a symbol string names, if it names one.
pub open spec fn operator_of(s: Seq<char>) -> Option<Operator> {
    if s == "+"@ {
        Some(Operator::Add)
    } else if s == "-"@ {
        Some(Operator::Subtract)
    } else if s == "*"@ {
        Some(Operator::Multiply)
    } else if s == "/"@ {
        Some(Operator::Divide)
    } else if s == "&"@ {
        Some(Operator::And)
    } else if s == "|"@ {
        Some(Operator::Or)
    } else if s == "="@ {
        Some(Operator::Equal)
    } else if s == "<<"@ {
        Some(Operator::ShiftLeft)
    } else if s == ">>"@ {
        Some(Operator::ShiftRight)
    } else if s == ">"@ {
        Some(Operator::GreaterThan)
    } else if s == "<"@ {
        Some(Operator::LessThan)
    } else {
        None
    }
}

impl Operator {
    /// Look a symbol string up in the operator catalogue.
    pub fn from_str(ch: &str) -> (r: Option<Self>)
        ensures
            r == operator_of(ch@),
    {
        if str_eq(ch, "+") {
            Some(Operator::Add)
        } else if str_eq(ch, "-") {
            Some(Operator::Subtract)
        } else if str_eq(ch, "*") {
            Some(Operator::Multiply)
        } else if str_eq(ch, "/") {
            Some(Operator::Divide)
        } else if str_eq(ch, "&") {
            Some(Operator::And)
        } else if str_eq(ch, "|") {
            Some(Operator::Or)
        } else if str_eq(ch, "=") {
            Some(Operator::Equal)
        } else if str_eq(ch, "<<") {
            Some(Operator::ShiftLeft)
        } else if str_eq(ch, ">>") {
            Some(Operator::ShiftRight)
        } else if str_eq(ch, ">") {
            Some(Operator::GreaterThan)
        } else if str_eq(ch, "<") {
            Some(Operator::LessThan)
        } else {
            None
        }
    }
}

} // verus!
