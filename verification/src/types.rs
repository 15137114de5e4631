//! The type production: a fixed catalogue of primitive-type keywords
//! (integer, unsigned and float families crossed with four widths, plus the
//! boolean and string primitives), any other identifier as an opaque type
//! name, and optional trailing reference/mutable-reference modifiers.

use vstd::prelude::*;
use crate::identifier::{
    self, components_from, components_start, Component, ComponentModel, ComponentsOutcome,
};
use crate::node::{self, Error as NodeError, ErrorKind, Parsable};
use crate::support::str_eq;
use crate::token::{Kind, KindModel, TokenModel};
use crate::traverser::Traverser;
use crate::variant::NodeVariant;
use crate::whitespace::{lemma_whitespace_run_end_bounds, whitespace_run_end};

verus! {

/// The bit width of a numeric primitive.
#[derive(Debug, Clone, Copy, PartialEq)]
pub enum Scale {
    X8,
    X16,
    X32,
    X64,
}

/// The family of a numeric primitive.
#[derive(Debug, Clone, Copy, PartialEq)]
pub enum NumericKind {
    Integer,
    Unsigned,
    Float,
}

/// A numeric primitive: its family crossed with its width.
#[derive(Debug, Clone, Copy, PartialEq)]
pub struct Numeric {
    pub scale: Scale,
    pub kind: NumericKind,
}

/// The resolved head of a type expression.
#[derive(Debug, Clone, PartialEq)]
pub enum MainType<'a> {
    Numeric(Numeric),
    Bool,
    String,
    /// Any other identifier: an opaque, user-defined type name.
    Other(identifier::Node<'a>),
}

/// A qualifier attached after the main type.
#[derive(Debug, Clone, Copy, PartialEq)]
pub enum Modifier {
    Reference,
    MutableReference,
}

/// A full type expression: the main type and its trailing modifiers.
#[derive(Debug, Clone, PartialEq)]
pub struct Type<'a> {
    pub main: MainType<'a>,
    pub modifiers: Vec<Modifier>,
}

/// A type node.
pub type Node<'a> = node::Node<Type<'a>>;

/// The primitive the keyword names, if it names one.
pub open spec fn keyword_main<'a>(text: Seq<char>) -> Option<MainType<'a>> {
    if text == "integer1"@ {
        Some(MainType::Numeric(Numeric { kind: NumericKind::Integer, scale: Scale::X8 }))
    } else if text == "integer2"@ {
        Some(MainType::Numeric(Numeric { kind: NumericKind::Integer, scale: Scale::X16 }))
    } else if text == "integer4"@ {
        Some(MainType::Numeric(Numeric { kind: NumericKind::Integer, scale: Scale::X32 }))
    } else if text == "integer8"@ {
        Some(MainType::Numeric(Numeric { kind: NumericKind::Integer, scale: Scale::X64 }))
    } else if text == "unsigned1"@ {
        Some(MainType::Numeric(Numeric { kind: NumericKind::Unsigned, scale: Scale::X8 }))
    } else if text == "unsigned2"@ {
        Some(MainType::Numeric(Numeric { kind: NumericKind::Unsigned, scale: Scale::X16 }))
    } else if text == "unsigned4"@ {
        Some(MainType::Numeric(Numeric { kind: NumericKind::Unsigned, scale: Scale::X32 }))
    } else if text == "unsigned8"@ {
        Some(MainType::Numeric(Numeric { kind: NumericKind::Unsigned, scale: Scale::X64 }))
    } else if text == "float1"@ {
        Some(MainType::Numeric(Numeric { kind: NumericKind::Float, scale: Scale::X8 }))
    } else if text == "float2"@ {
        Some(MainType::Numeric(Numeric { kind: NumericKind::Float, scale: Scale::X16 }))
    } else if text == "float4"@ {
        Some(MainType::Numeric(Numeric { kind: NumericKind::Float, scale: Scale::X32 }))
    } else if text == "float8"@ {
        Some(MainType::Numeric(Numeric { kind: NumericKind::Float, scale: Scale::X64 }))
    } else if text == "logical"@ {
        Some(MainType::Bool)
    } else if text == "string"@ {
        Some(MainType::String)
    } else {
        None
    }
}

/// The executable keyword lookup backing [`keyword_main`].
fn keyword_main_of<'a>(text: &'a str) -> (r: Option<MainType<'a>>)
    ensures
        r == keyword_main::<'a>(text@),
{
    if str_eq(text, "integer1") {
        Some(MainType::Numeric(Numeric { kind: NumericKind::Integer, scale: Scale::X8 }))
    } else if str_eq(text, "integer2") {
        Some(MainType::Numeric(Numeric { kind: NumericKind::Integer, scale: Scale::X16 }))
    } else if str_eq(text, "integer4") {
        Some(MainType::Numeric(Numeric { kind: NumericKind::Integer, scale: Scale::X32 }))
    } else if str_eq(text, "integer8") {
        Some(MainType::Numeric(Numeric { kind: NumericKind::Integer, scale: Scale::X64 }))
    } else if str_eq(text, "unsigned1") {
        Some(MainType::Numeric(Numeric { kind: NumericKind::Unsigned, scale: Scale::X8 }))
    } else if str_eq(text, "unsigned2") {
        Some(MainType::Numeric(Numeric { kind: NumericKind::Unsigned, scale: Scale::X16 }))
    } else if str_eq(text, "unsigned4") {
        Some(MainType::Numeric(Numeric { kind: NumericKind::Unsigned, scale: Scale::X32 }))
    } else if str_eq(text, "unsigned8") {
        Some(MainType::Numeric(Numeric { kind: NumericKind::Unsigned, scale: Scale::X64 }))
    } else if str_eq(text, "float1") {
        Some(MainType::Numeric(Numeric { kind: NumericKind::Float, scale: Scale::X8 }))
    } else if str_eq(text, "float2") {
        Some(MainType::Numeric(Numeric { kind: NumericKind::Float, scale: Scale::X16 }))
    } else if str_eq(text, "float4") {
        Some(MainType::Numeric(Numeric { kind: NumericKind::Float, scale: Scale::X32 }))
    } else if str_eq(text, "float8") {
        Some(MainType::Numeric(Numeric { kind: NumericKind::Float, scale: Scale::X64 }))
    } else if str_eq(text, "logical") {
        Some(MainType::Bool)
    } else if str_eq(text, "string") {
        Some(MainType::String)
    } else {
        None
    }
}

/// Whether an identifier node of these components resolves to a primitive:
/// exactly one identifier-token component whose text is a keyword.
pub open spec fn resolved_keyword<'a>(components: Seq<ComponentModel>) -> Option<MainType<'a>> {
    if components.len() == 1 {
        match components[0] {
            ComponentModel::Identifier(text) => keyword_main(text),
            _ => None,
        }
    } else {
        None
    }
}

/// The modifier an identifier token's text names, if any.
pub open spec fn modifier_of(text: Seq<char>) -> Option<Modifier> {
    if text == "ref"@ {
        Some(Modifier::Reference)
    } else if text == "mut_ref"@ {
        Some(Modifier::MutableReference)
    } else {
        None
    }
}

/// The trailing modifier run from position `p`: each attempt skips a
/// whitespace run and takes one modifier identifier; the first failed
/// attempt consumes nothing and ends the run at `p`.
pub open spec fn modifiers_from(toks: Seq<TokenModel>, p: int) -> (int, Seq<Modifier>)
    decreases toks.len() - p when 0 <= p <= toks.len() via modifiers_from_decreases
{
    let q = whitespace_run_end(toks, p);
    if q < toks.len() {
        match toks[q].kind {
            KindModel::Identifier(text) => match modifier_of(text) {
                Some(modifier) => {
                    let rest = modifiers_from(toks, q + 1);
                    (rest.0, seq![modifier] + rest.1)
                },
                None => (p, Seq::empty()),
            },
            _ => (p, Seq::empty()),
        }
    } else {
        (p, Seq::empty())
    }
}

#[via_fn]
proof fn modifiers_from_decreases(toks: Seq<TokenModel>, p: int) {
    lemma_whitespace_run_end_bounds(toks, p);
}

impl<'a> Parsable<'a> for Node<'a> {
    type Error = NodeError<identifier::Error>;

    /// A successful type parse consumes an identifier; a single-component
    /// keyword identifier resolves to its primitive, any other identifier
    /// stays as an opaque type name; then the trailing modifier run.
    open spec fn ok_spec(pre: Traverser<'a>, post: Traverser<'a>, node: Self) -> bool {
        let j: int = components_start(pre.toks(), pre.cursor());
        &&& components_from(pre.toks(), j) matches ComponentsOutcome::Done { end, components }
            && {
            let trailing = modifiers_from(pre.toks(), end);
            &&& components.len() > 0
            &&& node.spec_start() == pre.cursor()
            &&& node.spec_end() == post.cursor()
            &&& post.cursor() == trailing.0
            &&& node.spec_data().modifiers@ == trailing.1
            &&& match resolved_keyword::<'a>(components) {
                Some(main) => node.spec_data().main == main,
                None => {
                    &&& node.spec_data().main matches MainType::Other(inner)
                        && inner.spec_start() == pre.cursor() && inner.spec_end() == end
                        && inner.spec_data()@.map_values(
                        |c: Component<'a>| identifier::component_model(c),
                    ) == components
                },
            }
        }
    }

    /// A type parse fails, consuming nothing, exactly when its identifier
    /// does, wrapping the identifier's error at the entry offset.
    open spec fn err_spec(pre: Traverser<'a>, err: NodeError<NodeError<identifier::Error>>) -> bool {
        &&& identifier::spec_fails(pre.toks(), pre.cursor())
        &&& err.kind == ErrorKind::<NodeError<identifier::Error>>::Other(
            identifier::spec_error(pre.toks(), pre.cursor()),
        )
        &&& err.start_token == pre.cursor()
    }

    fn parse(tokens: &mut Traverser<'a>) -> (r: Result<
        Self,
        NodeError<NodeError<identifier::Error>>,
    >) {
        let ghost pre = *tokens;
        let ghost toks = pre.toks();
        let start = tokens.token_offset();
        let main_node = match identifier::parse_identifier(tokens) {
            Ok(main_node) => main_node,
            Err(identifier_error) => {
                return Err(tokens.new_other_error(identifier_error));
            },
        };
        let ghost main_end = tokens.cursor();
        let main = Self::resolve_main(main_node);
        let mut modifiers: Vec<Modifier> = Vec::new();
        let ghost trailing = modifiers_from(toks, main_end);
        proof {
            lemma_whitespace_run_end_bounds(toks, main_end);
        }
        loop
            invariant
                pre == *old(tokens),
                tokens.wf(),
                tokens.src() == pre.src(),
                tokens.toks() == toks,
                pre.wf(),
                start == pre.cursor(),
                pre.cursor() <= main_end <= tokens.cursor() <= toks.len(),
                pre.bytes() <= tokens.bytes(),
                trailing == modifiers_from(toks, main_end),
                trailing.0 == modifiers_from(toks, tokens.cursor()).0,
                trailing.1 == modifiers@ + modifiers_from(toks, tokens.cursor()).1,
            ensures
                tokens.wf(),
                tokens.src() == pre.src(),
                tokens.toks() == toks,
                pre.cursor() <= main_end <= tokens.cursor() <= toks.len(),
                pre.bytes() <= tokens.bytes(),
                tokens.cursor() == trailing.0,
                modifiers@ == trailing.1,
            decreases toks.len() - tokens.cursor(),
        {
            let ghost cursor_before = tokens.cursor();
            let ghost collected = modifiers@;
            let attempt = tokens.as_restorable();
            let _ = <crate::whitespace::Node as Parsable<'a>>::parse(tokens);
            let ghost q = tokens.cursor();
            let found = match tokens.peek() {
                None => None,
                Some(tok) => match tok.kind() {
                    Kind::Identifier(text) => {
                        if str_eq(text, "ref") {
                            Some(Modifier::Reference)
                        } else if str_eq(text, "mut_ref") {
                            Some(Modifier::MutableReference)
                        } else {
                            None
                        }
                    },
                    _ => None,
                },
            };
            match found {
                Some(modifier) => {
                    proof {
                        tokens.lemma_all_tokens_wf();
                        assert(crate::token::token_wf(toks[q]));
                        crate::support::lemma_seq_utf8_len_ge_len(
                            crate::token::token_text(toks[q]),
                        );
                    }
                    let _ = tokens.next();
                    modifiers.push(modifier);
                    proof {
                        lemma_whitespace_run_end_bounds(toks, tokens.cursor());
                        assert(modifiers@ =~= collected.push(modifier));
                        assert(collected.push(modifier) + modifiers_from(toks, tokens.cursor()).1
                            =~= collected + (seq![modifier] + modifiers_from(
                            toks,
                            tokens.cursor(),
                        ).1));
                    }
                },
                None => {
                    tokens.restore(attempt);
                    proof {
                        assert(modifiers_from(toks, cursor_before)
                            == (cursor_before, Seq::<Modifier>::empty()));
                        assert(collected + Seq::<Modifier>::empty() =~= collected);
                    }
                    break;
                },
            }
        }
        tokens.end(start, Type { main, modifiers })
    }

    fn nodes(&self) -> Option<Vec<NodeVariant<'a>>> {
        None
    }
}

impl<'a> Node<'a> {
    /// Resolve a parsed identifier to the primitive its keyword names, or
    /// keep it as an opaque type name.
    fn resolve_main(main_node: identifier::Node<'a>) -> (r: MainType<'a>)
        ensures
            match resolved_keyword::<'a>(
                main_node.spec_data()@.map_values(|c: Component<'a>| identifier::component_model(c)),
            ) {
                Some(main) => r == main,
                None => r matches MainType::Other(inner) && inner == main_node,
            },
    {
        let single = if main_node.data().len() == 1 {
            match &main_node.data()[0] {
                Component::Identifier(id) => Some(id.0),
                _ => None,
            }
        } else {
            None
        };
        match single {
            Some(text) => {
                proof {
                    let models = main_node.spec_data()@.map_values(
                        |c: Component<'a>| identifier::component_model(c),
                    );
                    assert(models[0] == identifier::component_model(main_node.spec_data()@[0]));
                }
                match keyword_main_of(text) {
                    Some(main) => main,
                    None => MainType::Other(main_node),
                }
            },
            None => MainType::Other(main_node),
        }
    }
}

} // verus!
