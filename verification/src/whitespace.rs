//! The whitespace production: one or more contiguous space, tab or newline
//! tokens, kept as an ordered symbol list.

use vstd::prelude::*;
use crate::node::{self, Error, ErrorKind, Parsable};
use crate::token::{Kind, KindModel, TokenModel};
use crate::traverser::Traverser;
use crate::variant::NodeVariant;

verus! {

/// One whitespace symbol.
#[derive(Debug, Clone, Copy, PartialEq)]
pub enum WhiteSpace {
    Space,
    Tab,
    NewLine,
}

/// A whitespace node: the ordered symbols of a maximal whitespace run.
pub type Node = node::Node<Vec<WhiteSpace>>;

/// The whitespace symbol of a token kind, if it is one.
pub open spec fn whitespace_symbol(k: KindModel) -> Option<WhiteSpace> {
    match k {
        KindModel::Space => Some(WhiteSpace::Space),
        KindModel::Tab => Some(WhiteSpace::Tab),
        KindModel::NewLine => Some(WhiteSpace::NewLine),
        _ => None,
    }
}

/// The first index at or after `i` whose token is not whitespace.
pub open spec fn whitespace_run_end(toks: Seq<TokenModel>, i: int) -> int
    decreases toks.len() - i when 0 <= i <= toks.len()
{
    if i < toks.len() && whitespace_symbol(toks[i].kind) is Some {
        whitespace_run_end(toks, i + 1)
    } else {
        i
    }
}

pub proof fn lemma_whitespace_run_end_bounds(toks: Seq<TokenModel>, i: int)
    requires
        0 <= i <= toks.len(),
    ensures
        i <= whitespace_run_end(toks, i) <= toks.len(),
    decreases toks.len() - i,
{
    if i < toks.len() && whitespace_symbol(toks[i].kind) is Some {
        lemma_whitespace_run_end_bounds(toks, i + 1);
    }
}

/// The ordered whitespace symbols of the tokens in `[i, j)`.
pub open spec fn whitespace_symbols(toks: Seq<TokenModel>, i: int, j: int) -> Seq<WhiteSpace> {
    Seq::new((j - i) as nat, |k: int| match whitespace_symbol(toks[i + k].kind) {
        Some(w) => w,
        None => WhiteSpace::Space,
    })
}

impl<'a> Parsable<'a> for Node {
    type Error = ();

    /// A successful whitespace parse covers the maximal whitespace run at the
    /// entry cursor, which is nonempty, and keeps its symbols in order.
    open spec fn ok_spec(pre: Traverser<'a>, post: Traverser<'a>, node: Self) -> bool {
        &&& node.spec_start() == pre.cursor()
        &&& node.spec_end() == post.cursor()
        &&& post.cursor() == whitespace_run_end(pre.toks(), pre.cursor())
        &&& pre.cursor() < post.cursor()
        &&& node.spec_data()@ == whitespace_symbols(pre.toks(), pre.cursor(), post.cursor())
    }

    /// Whitespace fails exactly when the first token is not whitespace (or
    /// the input ended), without consuming, at the entry offset.
    open spec fn err_spec(pre: Traverser<'a>, err: Error<()>) -> bool {
        &&& pre.cursor() == whitespace_run_end(pre.toks(), pre.cursor())
        &&& err.kind == ErrorKind::<()>::Other(())
        &&& err.start_token == pre.cursor()
    }

    fn parse(tokens: &mut Traverser<'a>) -> (r: Result<Self, Error<()>>) {
        let ghost pre = *tokens;
        let ghost toks = pre.toks();
        let start = tokens.token_offset();
        let mut accumulator: Vec<WhiteSpace> = Vec::new();
        proof {
            lemma_whitespace_run_end_bounds(toks, pre.cursor());
        }
        loop
            invariant
                tokens.wf(),
                tokens.src() == pre.src(),
                tokens.toks() == toks,
                start == pre.cursor(),
                pre.cursor() <= tokens.cursor() <= toks.len(),
                pre.bytes() <= tokens.bytes(),
                whitespace_run_end(toks, pre.cursor()) == whitespace_run_end(toks, tokens.cursor()),
                tokens.cursor() <= whitespace_run_end(toks, tokens.cursor()) <= toks.len(),
                accumulator@ == whitespace_symbols(toks, pre.cursor(), tokens.cursor()),
            ensures
                tokens.wf(),
                tokens.src() == pre.src(),
                tokens.toks() == toks,
                pre.cursor() <= tokens.cursor(),
                pre.bytes() <= tokens.bytes(),
                tokens.cursor() == whitespace_run_end(toks, pre.cursor()),
                accumulator@ == whitespace_symbols(toks, pre.cursor(), tokens.cursor()),
            decreases toks.len() - tokens.cursor(),
        {
            let symbol = match tokens.peek() {
                None => None,
                Some(tok) => match tok.kind() {
                    Kind::Space => Some(WhiteSpace::Space),
                    Kind::Tab => Some(WhiteSpace::Tab),
                    Kind::NewLine => Some(WhiteSpace::NewLine),
                    _ => None,
                },
            };
            match symbol {
                None => {
                    proof {
                        assert(whitespace_run_end(toks, tokens.cursor()) == tokens.cursor());
                    }
                    break;
                },
                Some(w) => {
                    let ghost old_cursor = tokens.cursor();
                    proof {
                        tokens.lemma_all_tokens_wf();
                        assert(crate::token::token_wf(toks[old_cursor]));
                        crate::support::lemma_seq_utf8_len_ge_len(
                            crate::token::token_text(toks[old_cursor]),
                        );
                    }
                    let _ = tokens.next();
                    accumulator.push(w);
                    proof {
                        lemma_whitespace_run_end_bounds(toks, tokens.cursor());
                        assert(accumulator@ =~= whitespace_symbols(
                            toks,
                            pre.cursor(),
                            tokens.cursor(),
                        ));
                    }
                },
            }
        }
        if accumulator.len() == 0 {
            return Err(tokens.new_other_error(()));
        }
        tokens.end(start, accumulator)
    }

    fn nodes(&self) -> Option<Vec<NodeVariant<'a>>> {
        None
    }
}

} // verus!
