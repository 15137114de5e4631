//! The identifier production: an optional leading escape marker (which lets
//! an identifier start with digits), then one or more components, each an
//! identifier token or a numeric literal, kept as an ordered component list.

use vstd::prelude::*;
use crate::node::{self, Error as NodeError, ErrorKind, Parsable};
use crate::number;
use crate::token::{Kind, KindModel, TokenModel};
use crate::traverser::{state_eq, Traverser};
use crate::variant::NodeVariant;

verus! {

/// One identifier token's text, borrowed from the source.
#[derive(Debug, Clone, Copy, PartialEq)]
pub struct Identifier<'a>(pub &'a str);

/// One component of a composite identifier.
#[derive(Debug, Clone, PartialEq)]
pub enum Component<'a> {
    Identifier(Identifier<'a>),
    Number(number::Node),
}

/// An identifier node: its ordered components.
pub type Node<'a> = node::Node<Vec<Component<'a>>>;

/// The domain-specific failures of the identifier production.
#[derive(Debug, Clone, PartialEq)]
pub enum Error {
    /// A number inside the identifier failed to parse.
    Number(NodeError<number::Error>),
    /// No identifier-shaped token or number was found.
    Expected,
}

/// The mathematical shape of a number component: its token range and value.
pub struct NumberModel {
    pub start: int,
    pub end: int,
    pub value: number::Number,
}

/// The mathematical shape of a [`Component`].
pub enum ComponentModel {
    Identifier(Seq<char>),
    Number(NumberModel),
}

/// The model of one parsed component.
pub open spec fn component_model<'a>(c: Component<'a>) -> ComponentModel {
    match c {
        Component::Identifier(id) => ComponentModel::Identifier(id.0@),
        Component::Number(n) => ComponentModel::Number(
            NumberModel { start: n.spec_start(), end: n.spec_end(), value: n.spec_data() },
        ),
    }
}

/// The text of an identifier token kind.
pub open spec fn ident_text(k: KindModel) -> Seq<char> {
    match k {
        KindModel::Identifier(t) => t,
        _ => Seq::empty(),
    }
}

/// How the component loop ends: with the components collected up to a
/// position, or with a number failure to surface.
pub enum ComponentsOutcome {
    Done { end: int, components: Seq<ComponentModel> },
    Failed { kind: number::Error, inner: int, outer: int },
}

/// Put components collected earlier in front of a later outcome.
pub open spec fn outcome_prepend(
    collected: Seq<ComponentModel>,
    outcome: ComponentsOutcome,
) -> ComponentsOutcome {
    match outcome {
        ComponentsOutcome::Done { end, components } => ComponentsOutcome::Done {
            end,
            components: collected + components,
        },
        ComponentsOutcome::Failed { kind, inner, outer } => outcome,
    }
}

/// A successful number parse consumes at least one token and stays within
/// the token sequence.
pub proof fn lemma_spec_parse_number_consumed(toks: Seq<TokenModel>, i: int)
    requires
        0 <= i <= toks.len(),
    ensures
        number::spec_parse_number(toks, i) matches Ok(p) ==> 1 <= p.0 && i + p.0 <= toks.len(),
{
    let negate = i < toks.len() && toks[i].kind is Negate;
    let j: int = if negate { i + 1 } else { i };
    number::lemma_digit_run_bounds(toks, j, 0);
    let whole = number::digit_run(toks, j, 0);
    if !whole.overflow && whole.consumed > 0 {
        let k = j + whole.consumed;
        if k < toks.len() && toks[k].kind is Decimal {
            number::lemma_digit_run_bounds(toks, k + 1, 0);
        }
    }
}

/// The component loop of the identifier grammar, starting at position `p`:
/// an identifier token or a parsable number becomes a component; a missing
/// whole number ends the loop; any other number failure is surfaced with the
/// component's position.
pub open spec fn components_from(toks: Seq<TokenModel>, p: int) -> ComponentsOutcome
    decreases toks.len() - p when 0 <= p <= toks.len() via components_from_decreases
{
    if p < toks.len() && toks[p].kind is Identifier {
        outcome_prepend(
            seq![ComponentModel::Identifier(ident_text(toks[p].kind))],
            components_from(toks, p + 1),
        )
    } else {
        match number::spec_parse_number(toks, p) {
            Ok((consumed, value)) => outcome_prepend(
                seq![
                    ComponentModel::Number(
                        NumberModel { start: p, end: p + consumed, value },
                    ),
                ],
                components_from(toks, p + consumed),
            ),
            Err((kind, position)) => {
                if kind is ExpectedWholeNumberComponent {
                    ComponentsOutcome::Done { end: p, components: Seq::empty() }
                } else {
                    ComponentsOutcome::Failed { kind, inner: position, outer: p }
                }
            },
        }
    }
}

#[via_fn]
proof fn components_from_decreases(toks: Seq<TokenModel>, p: int) {
    lemma_spec_parse_number_consumed(toks, p);
}

/// The position of the first component: right after the escape marker when
/// one stands at `i`.
pub open spec fn components_start(toks: Seq<TokenModel>, i: int) -> int {
    if i < toks.len() && toks[i].kind is IdentifierEscape {
        i + 1
    } else {
        i
    }
}

/// Whether the identifier grammar rejects at position `i`.
pub open spec fn spec_fails(toks: Seq<TokenModel>, i: int) -> bool {
    match components_from(toks, components_start(toks, i)) {
        ComponentsOutcome::Done { end, components } => components.len() == 0,
        ComponentsOutcome::Failed { .. } => true,
    }
}

/// The exact error the identifier grammar raises at position `i` when it
/// rejects.
pub open spec fn spec_error(toks: Seq<TokenModel>, i: int) -> NodeError<Error> {
    match components_from(toks, components_start(toks, i)) {
        ComponentsOutcome::Done { end, components } => NodeError {
            kind: ErrorKind::Other(Error::Expected),
            start_token: components_start(toks, i) as usize,
        },
        ComponentsOutcome::Failed { kind, inner, outer } => NodeError {
            kind: ErrorKind::Other(
                Error::Number(
                    NodeError {
                        kind: ErrorKind::Other(kind),
                        start_token: inner as usize,
                    },
                ),
            ),
            start_token: outer as usize,
        },
    }
}

/// The identifier production as a free function, with the contract of
/// [`Parsable::parse`] stated concretely.
pub fn parse_identifier<'a>(tokens: &mut Traverser<'a>) -> (r: Result<Node<'a>, NodeError<Error>>)
    requires
        old(tokens).wf(),
    ensures
        final(tokens).wf(),
        final(tokens).src() == old(tokens).src(),
        final(tokens).toks() == old(tokens).toks(),
        match r {
            Ok(node) => {
                &&& old(tokens).cursor() <= final(tokens).cursor()
                &&& final(tokens).bytes() >= old(tokens).bytes()
                &&& <Node<'a> as Parsable<'a>>::ok_spec(*old(tokens), *final(tokens), node)
            },
            Err(e) => {
                &&& state_eq(*old(tokens), *final(tokens))
                &&& <Node<'a> as Parsable<'a>>::err_spec(*old(tokens), e)
            },
        },
{
    let ghost pre = *tokens;
        let ghost toks = pre.toks();
        let start = tokens.token_offset();
        let snapshot = tokens.as_restorable();
        let _ = tokens.skip_token(&Kind::IdentifierEscape);
        let ghost j = tokens.cursor();
        let mut components: Vec<Component<'a>> = Vec::new();
        loop
            invariant
                pre == *old(tokens),
                tokens.wf(),
                tokens.src() == pre.src(),
                tokens.toks() == toks,
                pre.wf(),
                start == pre.cursor(),
                snapshot.cursor() == pre.cursor(),
                snapshot.bytes() == pre.bytes(),
                pre.cursor() <= j <= tokens.cursor() <= toks.len(),
                j == components_start(toks, pre.cursor()),
                pre.bytes() <= tokens.bytes(),
                components.len() == 0 ==> tokens.cursor() == j,
                outcome_prepend(
                    components@.map_values(|c: Component<'a>| component_model(c)),
                    components_from(toks, tokens.cursor()),
                ) == components_from(toks, j),
            ensures
                tokens.wf(),
                tokens.src() == pre.src(),
                tokens.toks() == toks,
                pre.cursor() <= j <= tokens.cursor() <= toks.len(),
                pre.bytes() <= tokens.bytes(),
                components.len() == 0 ==> tokens.cursor() == j,
                components_from(toks, j) == (ComponentsOutcome::Done {
                    end: tokens.cursor(),
                    components: components@.map_values(
                        |c: Component<'a>| component_model(c),
                    ),
                }),
            decreases toks.len() - tokens.cursor(),
        {
            let ghost cursor_before = tokens.cursor();
            let ghost collected = components@.map_values(|c: Component<'a>| component_model(c));
            let ident = match tokens.peek() {
                None => None,
                Some(tok) => match tok.kind() {
                    Kind::Identifier(text) => Some(*text),
                    _ => None,
                },
            };
            match ident {
                Some(text) => {
                    proof {
                        tokens.lemma_all_tokens_wf();
                        assert(crate::token::token_wf(toks[cursor_before]));
                        crate::support::lemma_seq_utf8_len_ge_len(
                            crate::token::token_text(toks[cursor_before]),
                        );
                    }
                    let _ = tokens.next();
                    components.push(Component::Identifier(Identifier(text)));
                    proof {
                        assert(components@.map_values(|c: Component<'a>| component_model(c))
                            =~= collected.push(
                            ComponentModel::Identifier(ident_text(toks[cursor_before].kind)),
                        ));
                        lemma_outcome_prepend_step(
                            collected,
                            ComponentModel::Identifier(ident_text(toks[cursor_before].kind)),
                            components_from(toks, tokens.cursor()),
                        );
                    }
                },
                None => {
                    match <number::Node as Parsable<'a>>::parse(tokens) {
                        Ok(number_node) => {
                            proof {
                                lemma_spec_parse_number_consumed(toks, cursor_before);
                            }
                            components.push(Component::Number(number_node));
                            proof {
                                let model = ComponentModel::Number(
                                    NumberModel {
                                        start: cursor_before,
                                        end: tokens.cursor(),
                                        value: number_node.spec_data(),
                                    },
                                );
                                assert(components@.map_values(
                                    |c: Component<'a>| component_model(c),
                                ) =~= collected.push(model));
                                lemma_outcome_prepend_step(
                                    collected,
                                    model,
                                    components_from(toks, tokens.cursor()),
                                );
                            }
                        },
                        Err(number_error) => {
                            let propagate = match &number_error.kind {
                                ErrorKind::Other(number::Error::ExpectedWholeNumberComponent) => {
                                    false
                                },
                                _ => true,
                            };
                            if propagate {
                                let error = tokens.new_other_error(Error::Number(number_error));
                                tokens.restore(snapshot);
                                proof {
                                    assert(outcome_prepend(
                                        collected,
                                        components_from(toks, cursor_before),
                                    ) == components_from(toks, j));
                                }
                                return Err(error);
                            }
                            break;
                        },
                    }
                },
            }
        }
    if components.len() == 0 {
        let error = tokens.new_other_error(Error::Expected);
        tokens.restore(snapshot);
        return Err(error);
    }
    tokens.end(start, components)
}

impl<'a> Parsable<'a> for Node<'a> {
    type Error = Error;

    /// A successful identifier parse covers the optional escape marker and a
    /// nonempty component list, kept in order.
    open spec fn ok_spec(pre: Traverser<'a>, post: Traverser<'a>, node: Self) -> bool {
        let j: int = components_start(pre.toks(), pre.cursor());
        &&& components_from(pre.toks(), j) matches ComponentsOutcome::Done { end, components }
            && {
            &&& components.len() > 0
            &&& node.spec_start() == pre.cursor()
            &&& node.spec_end() == post.cursor()
            &&& post.cursor() == end
            &&& node.spec_data()@.map_values(|c: Component<'a>| component_model(c)) == components
        }
    }

    /// An identifier parse fails, consuming nothing, either because no
    /// component stood at the (possibly escaped) start, or because a number
    /// inside it failed; the number's failure is surfaced with both its own
    /// position and the component's.
    open spec fn err_spec(pre: Traverser<'a>, err: NodeError<Error>) -> bool {
        &&& spec_fails(pre.toks(), pre.cursor())
        &&& err == spec_error(pre.toks(), pre.cursor())
    }

    fn parse(tokens: &mut Traverser<'a>) -> (r: Result<Self, NodeError<Error>>) {
        parse_identifier(tokens)
    }

    fn nodes(&self) -> Option<Vec<NodeVariant<'a>>> {
        None
    }
}

/// Collecting one more component commutes with prepending: what was
/// collected, then one component, then the rest, is the same outcome as
/// prepending the longer prefix.
proof fn lemma_outcome_prepend_step(
    collected: Seq<ComponentModel>,
    next: ComponentModel,
    outcome: ComponentsOutcome,
)
    ensures
        outcome_prepend(collected.push(next), outcome) == outcome_prepend(
            collected,
            outcome_prepend(seq![next], outcome),
        ),
{
    match outcome {
        ComponentsOutcome::Done { end, components } => {
            assert(collected.push(next) + components =~= collected + (seq![next] + components));
        },
        ComponentsOutcome::Failed { .. } => {},
    }
}

} // verus!
