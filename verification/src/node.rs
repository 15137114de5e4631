//! The uniform node shape, the shared error taxonomy, and the parsing
//! contract that every grammar production implements.

use vstd::prelude::*;
use crate::traverser::{state_eq, Traverser};

verus! {

/// The kinds of concrete nodes a caller can ask for.
#[derive(Debug, Clone, Copy, PartialEq)]
pub enum NodeKind {
    WhiteSpace,
    String,
    Identifier,
    Number,
}

/// A parsed node: the token range it covers and its typed payload. The data
/// is fully derived from the tokens in `[start_token, end_token)` and the
/// node is immutable after construction.
#[derive(Debug, Clone, PartialEq)]
pub struct Node<Data> {
    start_token: usize,
    end_token: usize,
    data: Data,
}

impl<Data> Node<Data> {
    pub closed spec fn spec_start(&self) -> int {
        self.start_token as int
    }

    pub closed spec fn spec_end(&self) -> int {
        self.end_token as int
    }

    pub closed spec fn spec_data(&self) -> Data {
        self.data
    }

    /// A node never ends before it starts.
    pub open spec fn wf(&self) -> bool {
        self.spec_start() <= self.spec_end()
    }

    pub fn start_token(&self) -> (r: usize)
        ensures
            r == self.spec_start(),
    {
        self.start_token
    }

    pub fn end_token(&self) -> (r: usize)
        ensures
            r == self.spec_end(),
    {
        self.end_token
    }

    pub fn data(&self) -> (r: &Data)
        ensures
            *r == self.spec_data(),
    {
        &self.data
    }

    /// Build a node from its parts; only the traverser's
    /// [`Traverser::end`] and the combinators use this.
    pub(crate) fn make(start_token: usize, end_token: usize, data: Data) -> (r: Self)
        requires
            start_token <= end_token,
        ensures
            r.spec_start() == start_token,
            r.spec_end() == end_token,
            r.spec_data() == data,
            r.wf(),
    {
        Node { start_token, end_token, data }
    }
}

/// The shared part of the error taxonomy; `Other` carries each combinator's
/// own domain-specific failures.
#[derive(Debug, Clone, PartialEq)]
pub enum ErrorKind<Other> {
    /// The input ended while a token was required.
    ReachedEndForToken,
    /// The input ended while a whole node was required.
    ReachedEndForNode,
    /// A token was present but of the wrong kind.
    UnexpectedToken,
    /// A failure specific to one combinator.
    Other(Other),
}

/// A parse failure: its kind and the token offset at which it was raised.
#[derive(Debug, Clone, PartialEq)]
pub struct Error<Other> {
    pub kind: ErrorKind<Other>,
    pub start_token: usize,
}

/// The contract of every grammar production: `parse` consumes tokens from
/// the cursor and either returns a node covering exactly the consumed range,
/// or an error and a cursor restored to its pre-call state.
pub trait Parsable<'a>: Sized {
    /// The domain-specific part of this production's error taxonomy.
    type Error;

    /// What a successful parse says: how the node's range, payload and the
    /// cursor movement relate to the tokens.
    spec fn ok_spec(pre: Traverser<'a>, post: Traverser<'a>, node: Self) -> bool;

    /// When the production fails, and with which error.
    spec fn err_spec(pre: Traverser<'a>, err: Error<Self::Error>) -> bool;

    /// Parse one node at the cursor.
    ///
    /// On failure the cursor observes exactly its pre-call state: zero side
    /// effects on failure, full effect on success.
    fn parse(tokens: &mut Traverser<'a>) -> (r: Result<Self, Error<Self::Error>>)
        requires
            old(tokens).wf(),
        ensures
            final(tokens).wf(),
            final(tokens).src() == old(tokens).src(),
            final(tokens).toks() == old(tokens).toks(),
            match r {
                Ok(node) => {
                    &&& old(tokens).cursor() <= final(tokens).cursor()
                    &&& final(tokens).bytes() >= old(tokens).bytes()
                    &&& Self::ok_spec(*old(tokens), *final(tokens), node)
                },
                Err(e) => {
                    &&& state_eq(*old(tokens), *final(tokens))
                    &&& Self::err_spec(*old(tokens), e)
                },
            },
    ;

    /// The child nodes of this node, for productions that have any.
    fn nodes(&self) -> Option<Vec<crate::variant::NodeVariant<'a>>>;
}

/// Parse one node of the chosen type at the cursor: the free-function face
/// of [`Parsable::parse`], with the same contract.
pub fn parse<'a, NodeType: Parsable<'a>>(cursor: &mut Traverser<'a>) -> (r: Result<
    NodeType,
    Error<NodeType::Error>,
>)
    requires
        old(cursor).wf(),
    ensures
        final(cursor).wf(),
        final(cursor).src() == old(cursor).src(),
        final(cursor).toks() == old(cursor).toks(),
        match r {
            Ok(node) => {
                &&& old(cursor).cursor() <= final(cursor).cursor()
                &&& final(cursor).bytes() >= old(cursor).bytes()
                &&& NodeType::ok_spec(*old(cursor), *final(cursor), node)
            },
            Err(e) => {
                &&& state_eq(*old(cursor), *final(cursor))
                &&& NodeType::err_spec(*old(cursor), e)
            },
        },
{
    NodeType::parse(cursor)
}

/// Whether token index `i` lies in a node's range `[start, end)`.
pub open spec fn covers(start: int, end: int, i: int) -> bool {
    start <= i < end
}

/// Sequential successful parses never produce overlapping token ranges: a
/// parse starts at the cursor where the previous one ended, so the first
/// range `[first_start, first_end)` and the later range
/// `[second_start, second_end)` share no token index.
pub proof fn lemma_sequential_parses_disjoint(
    first_start: int,
    first_end: int,
    second_start: int,
    second_end: int,
)
    requires
        first_start <= first_end,
        first_end <= second_start,
        second_start <= second_end,
    ensures
        forall|i: int|
            #[trigger] covers(first_start, first_end, i)
                ==> !covers(second_start, second_end, i),
{
}

} // verus!
