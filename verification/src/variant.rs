//! The closed union over the concrete node kinds, for callers that try
//! several productions and take whichever matches.
//!
//! [`NodeVariant::parse`] is the ordered choice over the productions:
//! whitespace, string, number, identifier, each attempted through the
//! cursor's backtracking, stopping at the first success. When every candidate
//! fails, the error that reached the furthest token offset is surfaced, as
//! the most specific diagnostic; among ties the earliest candidate wins.

use vstd::prelude::*;
use crate::identifier;
use crate::node::{Error as NodeError, ErrorKind, NodeKind, Parsable};
use crate::number;
use crate::string;
use crate::traverser::{state_eq, Traverser};
use crate::whitespace;

verus! {

/// One parsed node of any concrete kind.
#[derive(Debug, Clone, PartialEq)]
pub enum NodeVariant<'a> {
    WhiteSpace(whitespace::Node),
    String(string::Node),
    Identifier(identifier::Node<'a>),
    Number(number::Node),
}

/// The failure of one candidate production, kept whole.
#[derive(Debug, Clone, PartialEq)]
pub enum VariantError<'a> {
    WhiteSpace(NodeError<()>),
    String(NodeError<string::Error<'a>>),
    Number(NodeError<number::Error>),
    Identifier(NodeError<identifier::Error>),
}

impl<'a> NodeVariant<'a> {
    /// Which production this node came from.
    pub fn kind(&self) -> (r: NodeKind)
        ensures
            r == match *self {
                NodeVariant::WhiteSpace(_) => NodeKind::WhiteSpace,
                NodeVariant::String(_) => NodeKind::String,
                NodeVariant::Identifier(_) => NodeKind::Identifier,
                NodeVariant::Number(_) => NodeKind::Number,
            },
    {
        match self {
            NodeVariant::WhiteSpace(_) => NodeKind::WhiteSpace,
            NodeVariant::String(_) => NodeKind::String,
            NodeVariant::Identifier(_) => NodeKind::Identifier,
            NodeVariant::Number(_) => NodeKind::Number,
        }
    }
}

impl<'a> VariantError<'a> {
    /// The token offset the failure was raised at.
    pub open spec fn spec_position(&self) -> int {
        match *self {
            VariantError::WhiteSpace(e) => e.start_token as int,
            VariantError::String(e) => e.start_token as int,
            VariantError::Number(e) => e.start_token as int,
            VariantError::Identifier(e) => e.start_token as int,
        }
    }

    /// The token offset the failure was raised at.
    pub fn position(&self) -> (r: usize)
        ensures
            r == self.spec_position(),
    {
        match self {
            VariantError::WhiteSpace(e) => e.start_token,
            VariantError::String(e) => e.start_token,
            VariantError::Number(e) => e.start_token,
            VariantError::Identifier(e) => e.start_token,
        }
    }
}

/// Whether the whitespace production fails at the cursor.
pub open spec fn whitespace_fails<'a>(pre: Traverser<'a>) -> bool {
    pre.cursor() == whitespace::whitespace_run_end(pre.toks(), pre.cursor())
}

/// Whether the string production fails at the cursor.
pub open spec fn string_fails<'a>(pre: Traverser<'a>) -> bool {
    ||| !(pre.cursor() < pre.toks().len() && pre.toks()[pre.cursor()].kind is StringQuote)
    ||| !(string::string_body(pre.toks(), pre.cursor() + 1, false) is Done)
}

/// Whether the number production fails at the cursor.
pub open spec fn number_fails<'a>(pre: Traverser<'a>) -> bool {
    number::spec_parse_number(pre.toks(), pre.cursor()) is Err
}

/// Whether the identifier production fails at the cursor.
pub open spec fn identifier_fails<'a>(pre: Traverser<'a>) -> bool {
    identifier::spec_fails(pre.toks(), pre.cursor())
}

/// Where the whitespace production reports its failure.
pub open spec fn whitespace_fail_position<'a>(pre: Traverser<'a>) -> int {
    pre.cursor()
}

/// Where the string production reports its failure.
pub open spec fn string_fail_position<'a>(pre: Traverser<'a>) -> int {
    if !(pre.cursor() < pre.toks().len() && pre.toks()[pre.cursor()].kind is StringQuote) {
        pre.cursor()
    } else {
        match string::string_body(pre.toks(), pre.cursor() + 1, false) {
            string::StringOutcome::Done { .. } => pre.cursor(),
            string::StringOutcome::Unterminated { at } => at,
            string::StringOutcome::BadEscape { index } => index + 1,
        }
    }
}

/// Where the number production reports its failure.
pub open spec fn number_fail_position<'a>(pre: Traverser<'a>) -> int {
    match number::spec_parse_number(pre.toks(), pre.cursor()) {
        Ok(_) => pre.cursor(),
        Err((kind, position)) => position,
    }
}

/// Where the identifier production reports its failure.
pub open spec fn identifier_fail_position<'a>(pre: Traverser<'a>) -> int {
    identifier::spec_error(pre.toks(), pre.cursor()).start_token as int
}

impl<'a> NodeVariant<'a> {
    /// Try the productions in order — whitespace, string, number,
    /// identifier — through the backtracking cursor, taking the first that
    /// matches. On total failure the cursor is untouched and the surfaced
    /// error is the one that reached the furthest token offset; among ties
    /// the earliest candidate.
    pub fn parse(tokens: &mut Traverser<'a>) -> (r: Result<NodeVariant<'a>, VariantError<'a>>)
        requires
            old(tokens).wf(),
        ensures
            final(tokens).wf(),
            final(tokens).src() == old(tokens).src(),
            final(tokens).toks() == old(tokens).toks(),
            match r {
                Ok(node) => {
                    &&& old(tokens).cursor() <= final(tokens).cursor()
                    &&& final(tokens).bytes() >= old(tokens).bytes()
                    &&& match node {
                        NodeVariant::WhiteSpace(n) => <whitespace::Node as Parsable<
                            'a,
                        >>::ok_spec(*old(tokens), *final(tokens), n),
                        NodeVariant::String(n) => whitespace_fails(*old(tokens))
                            && <string::Node as Parsable<'a>>::ok_spec(
                            *old(tokens),
                            *final(tokens),
                            n,
                        ),
                        NodeVariant::Number(n) => whitespace_fails(*old(tokens))
                            && string_fails(*old(tokens)) && <number::Node as Parsable<
                            'a,
                        >>::ok_spec(*old(tokens), *final(tokens), n),
                        NodeVariant::Identifier(n) => whitespace_fails(*old(tokens))
                            && string_fails(*old(tokens)) && number_fails(*old(tokens))
                            && <identifier::Node<'a> as Parsable<'a>>::ok_spec(
                            *old(tokens),
                            *final(tokens),
                            n,
                        ),
                    }
                },
                Err(e) => {
                    let ws_at = whitespace_fail_position(*old(tokens));
                    let string_at = string_fail_position(*old(tokens));
                    let number_at = number_fail_position(*old(tokens));
                    let ident_at = identifier_fail_position(*old(tokens));
                    &&& state_eq(*old(tokens), *final(tokens))
                    &&& whitespace_fails(*old(tokens))
                    &&& string_fails(*old(tokens))
                    &&& number_fails(*old(tokens))
                    &&& identifier_fails(*old(tokens))
                    &&& e.spec_position() >= ws_at
                    &&& e.spec_position() >= string_at
                    &&& e.spec_position() >= number_at
                    &&& e.spec_position() >= ident_at
                    &&& (e is WhiteSpace <==> ws_at >= string_at && ws_at >= number_at && ws_at
                        >= ident_at)
                    &&& (e is String <==> string_at > ws_at && string_at >= number_at && string_at
                        >= ident_at)
                    &&& (e is Number <==> number_at > ws_at && number_at > string_at && number_at
                        >= ident_at)
                    &&& (e is Identifier <==> ident_at > ws_at && ident_at > string_at && ident_at
                        > number_at)
                    &&& match e {
                        VariantError::WhiteSpace(inner) => <whitespace::Node as Parsable<
                            'a,
                        >>::err_spec(*old(tokens), inner),
                        VariantError::String(inner) => <string::Node as Parsable<'a>>::err_spec(
                            *old(tokens),
                            inner,
                        ),
                        VariantError::Number(inner) => <number::Node as Parsable<'a>>::err_spec(
                            *old(tokens),
                            inner,
                        ),
                        VariantError::Identifier(inner) => <identifier::Node<'a> as Parsable<
                            'a,
                        >>::err_spec(*old(tokens), inner),
                    }
                },
            },
    {
        let whitespace_error = match <whitespace::Node as Parsable<'a>>::parse(tokens) {
            Ok(n) => {
                return Ok(NodeVariant::WhiteSpace(n));
            },
            Err(e) => e,
        };
        let string_error = match <string::Node as Parsable<'a>>::parse(tokens) {
            Ok(n) => {
                return Ok(NodeVariant::String(n));
            },
            Err(e) => e,
        };
        let number_error = match <number::Node as Parsable<'a>>::parse(tokens) {
            Ok(n) => {
                return Ok(NodeVariant::Number(n));
            },
            Err(e) => e,
        };
        let identifier_error = match identifier::parse_identifier(tokens) {
            Ok(n) => {
                return Ok(NodeVariant::Identifier(n));
            },
            Err(e) => e,
        };
        let mut furthest = VariantError::WhiteSpace(whitespace_error);
        if string_error.start_token > furthest.position() {
            furthest = VariantError::String(string_error);
        }
        if number_error.start_token > furthest.position() {
            furthest = VariantError::Number(number_error);
        }
        if identifier_error.start_token > furthest.position() {
            furthest = VariantError::Identifier(identifier_error);
        }
        Err(furthest)
    }
}

} // verus!
