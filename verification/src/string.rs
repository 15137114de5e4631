//! The string production: an opening quote, literal characters until an
//! unescaped closing quote. An escape token toggles an "escaping" flag; while
//! escaping, the very next quote or escape character is captured literally
//! and the flag clears; any other token right after an escape is rejected;
//! running out of input before the closing quote is a separate failure.

use vstd::prelude::*;
use crate::node::{self, Error as NodeError, ErrorKind, Parsable};
use crate::token::{token_text, token_wf, Kind, Token, TokenModel};
use crate::traverser::Traverser;
use crate::variant::NodeVariant;

verus! {

/// A string node: the unescaped value.
pub type Node = node::Node<String>;

/// The domain-specific failures of the string production.
#[derive(Debug, Clone, PartialEq)]
pub enum Error<'a> {
    /// The string did not open with a quote.
    ExpectedOpeningQuote,
    /// The input ended before the closing quote.
    ExpectedClosingQuote,
    /// Something other than a quote or an escape stood right after an escape.
    CannotEscape { symbol: Token<'a> },
}

/// How the body of a string literal ends: closed with its unescaped text,
/// unterminated, or stopped at a token that cannot be escaped.
pub enum StringOutcome {
    /// `end` is the position right after the closing quote.
    Done { end: int, text: Seq<char> },
    /// The input ended at position `at` before a closing quote.
    Unterminated { at: int },
    /// The token at `index` stood right after an escape.
    BadEscape { index: int },
}

/// Put text captured earlier in front of a later outcome.
pub open spec fn text_prepend(t: Seq<char>, outcome: StringOutcome) -> StringOutcome {
    match outcome {
        StringOutcome::Done { end, text } => StringOutcome::Done { end, text: t + text },
        _ => outcome,
    }
}

/// The body of a string literal from position `p`, with the escaping flag:
/// the mathematical model of the string grammar after the opening quote.
pub open spec fn string_body(toks: Seq<TokenModel>, p: int, escaping: bool) -> StringOutcome
    decreases toks.len() - p when 0 <= p <= toks.len()
{
    if p >= toks.len() {
        StringOutcome::Unterminated { at: p }
    } else {
        let k = toks[p].kind;
        if k is StringQuote {
            if escaping {
                text_prepend(seq!['"'], string_body(toks, p + 1, false))
            } else {
                StringOutcome::Done { end: p + 1, text: Seq::empty() }
            }
        } else if k is Escape {
            if escaping {
                text_prepend(seq!['\\'], string_body(toks, p + 1, false))
            } else {
                string_body(toks, p + 1, true)
            }
        } else {
            if escaping {
                StringOutcome::BadEscape { index: p }
            } else {
                text_prepend(token_text(toks[p]), string_body(toks, p + 1, false))
            }
        }
    }
}

/// Capturing more text commutes with prepending.
proof fn lemma_text_prepend_step(first: Seq<char>, second: Seq<char>, outcome: StringOutcome)
    ensures
        text_prepend(first + second, outcome) == text_prepend(
            first,
            text_prepend(second, outcome),
        ),
{
    match outcome {
        StringOutcome::Done { end, text } => {
            assert((first + second) + text =~= first + (second + text));
        },
        _ => {},
    }
}

impl<'a> Parsable<'a> for Node {
    type Error = Error<'a>;

    /// A successful string parse consumes the opening quote, the body and the
    /// closing quote, and carries the body's unescaped text.
    open spec fn ok_spec(pre: Traverser<'a>, post: Traverser<'a>, node: Self) -> bool {
        &&& pre.cursor() < pre.toks().len()
        &&& pre.toks()[pre.cursor()].kind is StringQuote
        &&& string_body(pre.toks(), pre.cursor() + 1, false) matches StringOutcome::Done {
            end,
            text,
        } && {
            &&& node.spec_start() == pre.cursor()
            &&& node.spec_end() == post.cursor()
            &&& post.cursor() == end
            &&& node.spec_data()@ == text
        }
    }

    /// A string parse fails, consuming nothing, exactly on a missing opening
    /// quote (at the entry offset), on an unterminated body (at the end of
    /// input), or on an unescapable token (carried in the error, with the
    /// offset right after it).
    open spec fn err_spec(pre: Traverser<'a>, err: NodeError<Error<'a>>) -> bool {
        if !(pre.cursor() < pre.toks().len() && pre.toks()[pre.cursor()].kind is StringQuote) {
            &&& err.kind == ErrorKind::<Error<'a>>::Other(Error::ExpectedOpeningQuote)
            &&& err.start_token == pre.cursor()
        } else {
            match string_body(pre.toks(), pre.cursor() + 1, false) {
                StringOutcome::Done { .. } => false,
                StringOutcome::Unterminated { at } => {
                    &&& err.kind == ErrorKind::<Error<'a>>::Other(Error::ExpectedClosingQuote)
                    &&& err.start_token == at
                },
                StringOutcome::BadEscape { index } => {
                    &&& err.kind matches ErrorKind::Other(Error::CannotEscape { symbol })
                        && symbol@ == pre.toks()[index]
                    &&& err.start_token == index + 1
                },
            }
        }
    }

    fn parse(tokens: &mut Traverser<'a>) -> (r: Result<Self, NodeError<Error<'a>>>) {
        let ghost pre = *tokens;
        let ghost toks = pre.toks();
        let start = tokens.token_offset();
        let snapshot = tokens.as_restorable();
        if tokens.skip_token(&Kind::StringQuote).is_none() {
            return Err(tokens.new_other_error(Error::ExpectedOpeningQuote));
        }
        let ghost j = tokens.cursor();
        let mut value = String::new();
        let mut escaping = false;
        loop
            invariant_except_break
                text_prepend(value@, string_body(toks, tokens.cursor(), escaping))
                    == string_body(toks, j, false),
            invariant
                pre == *old(tokens),
                tokens.wf(),
                tokens.src() == pre.src(),
                tokens.toks() == toks,
                pre.wf(),
                start == pre.cursor(),
                snapshot.cursor() == pre.cursor(),
                snapshot.bytes() == pre.bytes(),
                pre.cursor() < toks.len(),
                toks[pre.cursor()].kind is StringQuote,
                j == pre.cursor() + 1,
                j <= tokens.cursor() <= toks.len(),
                pre.bytes() <= tokens.bytes(),
            ensures
                tokens.wf(),
                tokens.src() == pre.src(),
                tokens.toks() == toks,
                pre.cursor() < tokens.cursor() <= toks.len(),
                pre.bytes() <= tokens.bytes(),
                string_body(toks, j, false) == (StringOutcome::Done {
                    end: tokens.cursor(),
                    text: value@,
                }),
            decreases toks.len() - tokens.cursor(),
        {
            let ghost cursor_before = tokens.cursor();
            let ghost text_before = value@;
            proof {
                tokens.lemma_all_tokens_wf();
            }
            let step = match tokens.peek() {
                None => {
                    let error = tokens.new_other_error(Error::ExpectedClosingQuote);
                    tokens.restore(snapshot);
                    return Err(error);
                },
                Some(tok) => match tok.kind() {
                    Kind::StringQuote => {
                        if escaping {
                            Some('"')
                        } else {
                            let _ = tokens.next();
                            break;
                        }
                    },
                    Kind::Escape => {
                        if escaping {
                            Some('\\')
                        } else {
                            None
                        }
                    },
                    _ => {
                        if escaping {
                            let symbol = tokens.next().unwrap();
                            let error = tokens.new_other_error(
                                Error::CannotEscape { symbol },
                            );
                            tokens.restore(snapshot);
                            return Err(error);
                        }
                        let captured = *tokens.peek().unwrap();
                        proof {
                            assert(token_wf(toks[cursor_before]));
                        }
                        let _ = tokens.next();
                        crate::token::append_token_text(&mut value, &captured);
                        proof {
                            lemma_text_prepend_step(
                                text_before,
                                token_text(toks[cursor_before]),
                                string_body(toks, tokens.cursor(), false),
                            );
                        }
                        escaping = false;
                        continue;
                    },
                },
            };
            match step {
                Some(captured) => {
                    let _ = tokens.next();
                    crate::support::push_char(&mut value, captured);
                    escaping = false;
                    proof {
                        assert(text_before.push(captured) =~= text_before + seq![captured]);
                        lemma_text_prepend_step(
                            text_before,
                            seq![captured],
                            string_body(toks, tokens.cursor(), false),
                        );
                    }
                },
                None => {
                    let _ = tokens.next();
                    escaping = true;
                },
            }
        }
        tokens.end(start, value)
    }

    fn nodes(&self) -> Option<Vec<NodeVariant<'a>>> {
        None
    }
}

} // verus!
