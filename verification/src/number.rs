//! The number production: an optional negate marker, a mandatory digit run,
//! and an optional fractional part after a decimal separator.
//!
//! Digits are combined most-significant-first into a 64-bit accumulator with
//! explicit overflow detection. Three literal shapes result: an unsigned
//! integer, a signed integer, and a float, whose fraction is kept as exact
//! decimal parts. A literal immediately followed by an identifier-shaped
//! token is rejected as an ambiguous numeric/identifier boundary.

use vstd::prelude::*;
use crate::node::{self, Error as NodeError, ErrorKind, Parsable};
use crate::token::{Kind, KindModel, TokenModel};
use crate::traverser::{state_eq, Traverser};
use crate::variant::NodeVariant;

verus! {

/// An exact decimal fraction: the value is
/// `whole + fraction / 10^fraction_digits`, negated when `negative` holds.
/// Keeping the parts exact leaves any floating-point rounding to callers.
#[derive(Debug, Clone, Copy, PartialEq)]
pub struct FloatLiteral {
    pub negative: bool,
    pub whole: u64,
    pub fraction: u64,
    pub fraction_digits: usize,
}

/// The three shapes of a numeric literal.
#[derive(Debug, Clone, Copy, PartialEq)]
pub enum Number {
    UnSigned(u64),
    Signed(i64),
    Float(FloatLiteral),
}

/// A number node.
pub type Node = node::Node<Number>;

/// The domain-specific failures of the number production.
#[derive(Debug, Clone, Copy, PartialEq)]
pub enum Error {
    /// The literal does not fit the 64-bit accumulator.
    Overflowing,
    /// No digit stood where the whole part was required.
    ExpectedWholeNumberComponent,
    /// A decimal separator was used but no digit followed.
    ExpectedFractionalNumberComponent,
    /// The literal abuts an identifier token: an ambiguous numeric/identifier
    /// boundary.
    FoundIdentifier,
}

/// The digit carried by a digit token.
pub open spec fn digit_of(k: KindModel) -> int {
    match k {
        KindModel::Digit(d) => d as int,
        _ => 0,
    }
}

/// The outcome of combining a digit run most-significant-first into a 64-bit
/// accumulator: how many digits were combined, the value reached, and whether
/// the next digit would have overflowed.
pub struct DigitRun {
    pub consumed: int,
    pub value: int,
    pub overflow: bool,
}

/// Combine the digit run at `i` into the accumulator `acc`, stopping at the
/// first non-digit token or at the digit that would overflow 64 bits.
pub open spec fn digit_run(toks: Seq<TokenModel>, i: int, acc: int) -> DigitRun
    decreases toks.len() - i when 0 <= i <= toks.len()
{
    if i < toks.len() && toks[i].kind is Digit {
        let d = digit_of(toks[i].kind);
        if acc * 10 + d > u64::MAX as int {
            DigitRun { consumed: 0, value: acc, overflow: true }
        } else {
            let rest = digit_run(toks, i + 1, acc * 10 + d);
            DigitRun { consumed: rest.consumed + 1, value: rest.value, overflow: rest.overflow }
        }
    } else {
        DigitRun { consumed: 0, value: acc, overflow: false }
    }
}

/// A digit run stays within the tokens and, within 64 bits, keeps its value
/// in range.
pub proof fn lemma_digit_run_bounds(toks: Seq<TokenModel>, i: int, acc: int)
    requires
        0 <= i <= toks.len(),
        0 <= acc <= u64::MAX as int,
    ensures
        0 <= digit_run(toks, i, acc).consumed,
        i + digit_run(toks, i, acc).consumed <= toks.len(),
        !digit_run(toks, i, acc).overflow ==> 0 <= digit_run(toks, i, acc).value <= u64::MAX as int,
    decreases toks.len() - i,
{
    if i < toks.len() && toks[i].kind is Digit {
        let d = digit_of(toks[i].kind);
        if acc * 10 + d <= u64::MAX as int {
            lemma_digit_run_bounds(toks, i + 1, acc * 10 + d);
        }
    }
}

/// The exact statement of the number grammar at token position `i`: either
/// the number of tokens consumed and the literal produced, or the error kind
/// and the token offset at which it is raised.
pub open spec fn spec_parse_number(toks: Seq<TokenModel>, i: int) -> Result<
    (int, Number),
    (Error, int),
> {
    let negate = i < toks.len() && toks[i].kind is Negate;
    let j = if negate { i + 1 } else { i };
    let whole = digit_run(toks, j, 0);
    if whole.overflow {
        Err((Error::Overflowing, j + whole.consumed))
    } else if whole.consumed == 0 {
        Err((Error::ExpectedWholeNumberComponent, j))
    } else {
        let k = j + whole.consumed;
        if k < toks.len() && toks[k].kind is Decimal {
            let fraction = digit_run(toks, k + 1, 0);
            if fraction.overflow {
                Err((Error::Overflowing, k + 1 + fraction.consumed))
            } else if fraction.consumed == 0 {
                Err((Error::ExpectedFractionalNumberComponent, k + 1))
            } else {
                let m = k + 1 + fraction.consumed;
                if m < toks.len() && toks[m].kind is Identifier {
                    Err((Error::FoundIdentifier, m))
                } else {
                    Ok(
                        (
                            m - i,
                            Number::Float(
                                FloatLiteral {
                                    negative: negate,
                                    whole: whole.value as u64,
                                    fraction: fraction.value as u64,
                                    fraction_digits: fraction.consumed as usize,
                                },
                            ),
                        ),
                    )
                }
            }
        } else if negate {
            if whole.value > i64::MAX as int {
                Err((Error::Overflowing, k))
            } else if k < toks.len() && toks[k].kind is Identifier {
                Err((Error::FoundIdentifier, k))
            } else {
                Ok((k - i, Number::Signed((-whole.value) as i64)))
            }
        } else {
            if k < toks.len() && toks[k].kind is Identifier {
                Err((Error::FoundIdentifier, k))
            } else {
                Ok((k - i, Number::UnSigned(whole.value as u64)))
            }
        }
    }
}

impl Node {
    /// Consume the next token when it is a digit.
    fn next_digit<'a>(tokens: &mut Traverser<'a>) -> (r: Option<u8>)
        requires
            old(tokens).wf(),
        ensures
            final(tokens).wf(),
            final(tokens).src() == old(tokens).src(),
            final(tokens).toks() == old(tokens).toks(),
            match r {
                Some(d) => {
                    &&& old(tokens).cursor() < old(tokens).toks().len()
                    &&& old(tokens).toks()[old(tokens).cursor()].kind == KindModel::Digit(d)
                    &&& final(tokens).cursor() == old(tokens).cursor() + 1
                    &&& final(tokens).bytes() >= old(tokens).bytes()
                },
                None => state_eq(*old(tokens), *final(tokens))
                    && (old(tokens).cursor() == old(tokens).toks().len()
                        || !(old(tokens).toks()[old(tokens).cursor()].kind is Digit)),
            },
    {
        let digit = match tokens.peek() {
            None => None,
            Some(tok) => match tok.kind() {
                Kind::Digit(d) => Some(*d),
                _ => None,
            },
        };
        match digit {
            None => None,
            Some(d) => {
                proof {
                    tokens.lemma_all_tokens_wf();
                    assert(crate::token::token_wf(tokens.toks()[tokens.cursor()]));
                    crate::support::lemma_seq_utf8_len_ge_len(
                        crate::token::token_text(tokens.toks()[tokens.cursor()]),
                    );
                }
                let _ = tokens.next();
                Some(d)
            },
        }
    }

    /// Combine the digit run at the cursor most-significant-first into a
    /// 64-bit value, reporting how many digits were read; on overflow or on
    /// an empty run, restore the cursor and report `missing` for the empty
    /// run.
    fn next_number<'a>(tokens: &mut Traverser<'a>, missing: Error) -> (r: Result<
        (u64, usize),
        NodeError<Error>,
    >)
        requires
            old(tokens).wf(),
        ensures
            final(tokens).wf(),
            final(tokens).src() == old(tokens).src(),
            final(tokens).toks() == old(tokens).toks(),
            match r {
                Ok((value, count)) => {
                    let run = digit_run(old(tokens).toks(), old(tokens).cursor(), 0);
                    &&& !run.overflow
                    &&& run.consumed == count
                    &&& count >= 1
                    &&& value as int == run.value
                    &&& final(tokens).cursor() == old(tokens).cursor() + count
                    &&& final(tokens).bytes() >= old(tokens).bytes()
                },
                Err(e) => {
                    let run = digit_run(old(tokens).toks(), old(tokens).cursor(), 0);
                    &&& state_eq(*old(tokens), *final(tokens))
                    &&& if run.overflow {
                        e.kind == ErrorKind::<Error>::Other(Error::Overflowing)
                            && e.start_token == old(tokens).cursor() + run.consumed
                    } else {
                        run.consumed == 0 && e.kind == ErrorKind::<Error>::Other(missing)
                            && e.start_token == old(tokens).cursor()
                    }
                },
            },
    {
        let ghost pre = *tokens;
        let ghost toks = pre.toks();
        let ghost full = digit_run(toks, pre.cursor(), 0);
        let snapshot = tokens.as_restorable();
        let mut value: u64 = 0;
        let mut count: usize = 0;
        proof {
            lemma_digit_run_bounds(toks, pre.cursor(), 0);
        }
        loop
            invariant
                tokens.wf(),
                tokens.src() == pre.src(),
                tokens.toks() == toks,
                pre.wf(),
                full == digit_run(toks, pre.cursor(), 0),
                pre.cursor() <= tokens.cursor() <= toks.len(),
                tokens.cursor() == pre.cursor() + count,
                tokens.bytes() >= pre.bytes(),
                snapshot.cursor() == pre.cursor(),
                snapshot.bytes() == pre.bytes(),
                full.overflow == digit_run(toks, tokens.cursor(), value as int).overflow,
                full.value == digit_run(toks, tokens.cursor(), value as int).value,
                full.consumed == count + digit_run(toks, tokens.cursor(), value as int).consumed,
            ensures
                tokens.wf(),
                tokens.src() == pre.src(),
                tokens.toks() == toks,
                pre.cursor() <= tokens.cursor() <= toks.len(),
                tokens.cursor() == pre.cursor() + count,
                tokens.bytes() >= pre.bytes(),
                count == full.consumed,
                full.overflow ==> tokens.cursor() < toks.len()
                    && toks[tokens.cursor()].kind is Digit,
                !full.overflow ==> value as int == full.value && (tokens.cursor() == toks.len()
                    || !(toks[tokens.cursor()].kind is Digit)),
            decreases toks.len() - tokens.cursor(),
        {
            let ghost cur = tokens.cursor();
            let peeked = match tokens.peek() {
                None => None,
                Some(tok) => match tok.kind() {
                    Kind::Digit(d) => Some(*d),
                    _ => None,
                },
            };
            match peeked {
                None => {
                    break;
                },
                Some(d) => {
                    let widened: u128 = value as u128 * 10 + d as u128;
                    if widened > u64::MAX as u128 {
                        proof {
                            assert(digit_run(toks, cur, value as int).overflow);
                        }
                        break;
                    }
                    let _ = Self::next_digit(tokens);
                    value = widened as u64;
                    count = count + 1;
                },
            }
        }
        // After the loop the run stops either at a non-digit token (the run
        // is complete) or at a digit that would have overflowed.
        let overflowed = match tokens.peek() {
            None => false,
            Some(tok) => match tok.kind() {
                Kind::Digit(_) => true,
                _ => false,
            },
        };
        if overflowed {
            let error = tokens.new_other_error(Error::Overflowing);
            tokens.restore(snapshot);
            return Err(error);
        }
        if count == 0 {
            let error = tokens.new_other_error(missing);
            tokens.restore(snapshot);
            return Err(error);
        }
        Ok((value, count))
    }
}

impl<'a> Parsable<'a> for Node {
    type Error = Error;

    /// A successful number parse consumes exactly the tokens the number
    /// grammar accepts at the entry cursor and carries the literal the
    /// grammar gives them.
    open spec fn ok_spec(pre: Traverser<'a>, post: Traverser<'a>, node: Self) -> bool {
        &&& spec_parse_number(pre.toks(), pre.cursor()) matches Ok((consumed, value)) && {
            &&& node.spec_start() == pre.cursor()
            &&& node.spec_end() == post.cursor()
            &&& post.cursor() == pre.cursor() + consumed
            &&& node.spec_data() == value
        }
    }

    /// A number parse fails exactly when the grammar rejects, with the
    /// grammar's error kind at the grammar's offset, consuming nothing.
    open spec fn err_spec(pre: Traverser<'a>, err: NodeError<Error>) -> bool {
        &&& spec_parse_number(pre.toks(), pre.cursor()) matches Err((kind, position)) && {
            &&& err.kind == ErrorKind::<Error>::Other(kind)
            &&& err.start_token == position
        }
    }

    fn parse(tokens: &mut Traverser<'a>) -> (r: Result<Self, NodeError<Error>>) {
        let ghost pre = *tokens;
        let ghost toks = pre.toks();
        let start = tokens.token_offset();
        let snapshot = tokens.as_restorable();
        let negate = match tokens.skip_token(&Kind::Negate) {
            Some(_) => true,
            None => false,
        };
        let (whole, _whole_count) = match Self::next_number(tokens, Error::ExpectedWholeNumberComponent) {
            Ok(pair) => pair,
            Err(error) => {
                tokens.restore(snapshot);
                return Err(error);
            },
        };
        let fractional = match tokens.skip_token(&Kind::Decimal) {
            Some(_) => true,
            None => false,
        };
        if fractional {
            let (fraction, fraction_digits) = match Self::next_number(
                tokens,
                Error::ExpectedFractionalNumberComponent,
            ) {
                Ok(pair) => pair,
                Err(error) => {
                    tokens.restore(snapshot);
                    return Err(error);
                },
            };
            if let Err(error) = Self::test_identifier(tokens) {
                tokens.restore(snapshot);
                return Err(error);
            }
            return tokens.end(
                start,
                Number::Float(FloatLiteral { negative: negate, whole, fraction, fraction_digits }),
            );
        }
        if negate {
            if whole > i64::MAX as u64 {
                let error = tokens.new_other_error(Error::Overflowing);
                tokens.restore(snapshot);
                return Err(error);
            }
            let negated: i64 = -(whole as i64);
            if let Err(error) = Self::test_identifier(tokens) {
                tokens.restore(snapshot);
                return Err(error);
            }
            return tokens.end(start, Number::Signed(negated));
        }
        if let Err(error) = Self::test_identifier(tokens) {
            tokens.restore(snapshot);
            return Err(error);
        }
        tokens.end(start, Number::UnSigned(whole))
    }

    fn nodes(&self) -> Option<Vec<NodeVariant<'a>>> {
        None
    }
}

impl Node {
    /// Reject an identifier-shaped token right after a numeric literal: the
    /// ambiguous numeric/identifier boundary.
    fn test_identifier<'a>(tokens: &Traverser<'a>) -> (r: Result<(), NodeError<Error>>)
        requires
            tokens.wf(),
        ensures
            match r {
                Ok(()) => tokens.cursor() == tokens.toks().len()
                    || !(tokens.toks()[tokens.cursor()].kind is Identifier),
                Err(e) => {
                    &&& tokens.cursor() < tokens.toks().len()
                    &&& tokens.toks()[tokens.cursor()].kind is Identifier
                    &&& e.kind == ErrorKind::<Error>::Other(Error::FoundIdentifier)
                    &&& e.start_token == tokens.cursor()
                },
            },
    {
        let found = match tokens.peek() {
            None => false,
            Some(tok) => match tok.kind() {
                Kind::Identifier(_) => true,
                _ => false,
            },
        };
        if found {
            Err(tokens.new_other_error(Error::FoundIdentifier))
        } else {
            Ok(())
        }
    }
}

} // verus!
