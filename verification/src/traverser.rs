//! The backtracking cursor over a tokenized source.
//!
//! The traverser is backed by an index into a pre-materialized, immutable
//! token array, so a backtracking snapshot is a cheap pair of integers: the
//! token offset and the byte offset. After a restore, every observation of
//! the cursor equals its value at the snapshot.

use vstd::prelude::*;
use crate::node::{Error, ErrorKind, Node};
use crate::support::{seq_utf8_len, str_eq, lemma_seq_utf8_len_ge_len};
use crate::token::{
    bytes_of_tokens, lemma_bytes_of_tokens_as_text, lemma_tokenize_round_trip,
    lemma_tokens_from_wf, token_text, token_wf, tokenize, tokens_from, Kind, Token, TokenModel,
};

verus! {

/// The backtracking cursor: the source, its tokens, and how far both the
/// token index and the byte count have advanced.
#[derive(Debug, Clone)]
pub struct Traverser<'a> {
    source: &'a str,
    tokens: Vec<Token<'a>>,
    token_offset: usize,
    byte_offset: usize,
}

/// A snapshot of the cursor state, cheap to take and to restore: it holds the
/// two offsets and nothing proportional to the input.
#[derive(Debug, Clone, Copy, PartialEq)]
pub struct Restorable {
    token_offset: usize,
    byte_offset: usize,
}

impl Restorable {
    pub closed spec fn cursor(self) -> int {
        self.token_offset as int
    }

    pub closed spec fn bytes(self) -> int {
        self.byte_offset as int
    }
}

/// Two cursors observe the same state: same source, same tokens, same
/// offsets.
pub open spec fn state_eq<'a>(a: Traverser<'a>, b: Traverser<'a>) -> bool {
    &&& a.src() == b.src()
    &&& a.toks() == b.toks()
    &&& a.cursor() == b.cursor()
    &&& a.bytes() == b.bytes()
}

impl<'a> Traverser<'a> {
    /// The characters of the source.
    pub closed spec fn src(self) -> Seq<char> {
        self.source@
    }

    /// The tokens of the source, as their mathematical models.
    pub closed spec fn toks(self) -> Seq<TokenModel> {
        self.tokens@.map_values(|t: Token<'a>| t@)
    }

    /// The index of the next unconsumed token.
    pub closed spec fn cursor(self) -> int {
        self.token_offset as int
    }

    /// The cumulative UTF-8 byte length of every consumed token.
    pub closed spec fn bytes(self) -> int {
        self.byte_offset as int
    }

    /// The cursor invariant: the token array is exactly the tokenization of
    /// the source, the cursor lies inside it, and the byte offset is the
    /// byte sum of the consumed prefix.
    pub open spec fn wf(self) -> bool {
        &&& self.toks() == tokens_from(self.src(), 0)
        &&& 0 <= self.cursor() <= self.toks().len()
        &&& self.toks().len() <= usize::MAX
        &&& self.bytes() == bytes_of_tokens(self.toks(), self.cursor())
        &&& seq_utf8_len(self.src()) <= usize::MAX
    }

    /// Build a cursor over a source string, tokenizing it eagerly.
    pub fn from(value: &'a str) -> (r: Self)
        ensures
            r.wf(),
            r.src() == value@,
            r.cursor() == 0,
            r.bytes() == 0,
    {
        let tokens = tokenize(value);
        let total = crate::support::utf8_byte_len(value);
        proof {
            broadcast use vstd::std_specs::vec::axiom_spec_len;
            assert(total as int == seq_utf8_len(value@));
            assert(vstd::std_specs::vec::spec_vec_len(&tokens) == tokens@.len());
        }
        Traverser { source: value, tokens, token_offset: 0, byte_offset: 0 }
    }

    pub fn token_offset(&self) -> (r: usize)
        ensures
            r == self.cursor(),
    {
        self.token_offset
    }

    pub fn byte_offset(&self) -> (r: usize)
        ensures
            r == self.bytes(),
    {
        self.byte_offset
    }

    /// The token offset, under the name the simpler cursor used.
    pub fn offset(&self) -> (r: usize)
        ensures
            r == self.cursor(),
    {
        self.token_offset
    }

    pub fn source(&self) -> (r: &'a str)
        ensures
            r@ == self.src(),
    {
        self.source
    }

    /// Every token the cursor can reach is well formed.
    pub proof fn lemma_all_tokens_wf(self)
        requires
            self.wf(),
        ensures
            forall|k: int| 0 <= k < self.toks().len() ==> #[trigger] token_wf(self.toks()[k]),
    {
        lemma_tokens_from_wf(self.src(), 0);
    }

    /// The byte prefix sums never pass the source's total byte length, which
    /// fits in `usize`.
    pub proof fn lemma_bytes_bound(self, n: int)
        requires
            self.wf(),
            0 <= n <= self.toks().len(),
        ensures
            0 <= bytes_of_tokens(self.toks(), n) <= seq_utf8_len(self.src()),
    {
        let toks = self.toks();
        self.lemma_all_tokens_wf();
        lemma_bytes_of_tokens_as_text(toks, n);
        lemma_bytes_of_tokens_as_text(toks, toks.len() as int);
        assert(toks.take(toks.len() as int) =~= toks);
        lemma_tokenize_round_trip(self.src());
        lemma_seq_utf8_len_ge_len(crate::token::texts_concat(toks.take(n)));
        lemma_texts_take_prefix(toks, n);
    }

    /// Read the next token without consuming it.
    pub fn peek(&self) -> (r: Option<&Token<'a>>)
        requires
            self.wf(),
        ensures
            match r {
                Some(tok) => self.cursor() < self.toks().len() && tok@ == self.toks()[self.cursor()],
                None => self.cursor() == self.toks().len(),
            },
    {
        if self.token_offset < self.tokens.len() {
            Some(&self.tokens[self.token_offset])
        } else {
            None
        }
    }

    /// Consume the next token, advancing the token offset by one and the
    /// byte offset by the token's byte length.
    pub fn next(&mut self) -> (r: Option<Token<'a>>)
        requires
            old(self).wf(),
        ensures
            final(self).wf(),
            final(self).src() == old(self).src(),
            final(self).toks() == old(self).toks(),
            match r {
                Some(tok) => {
                    &&& old(self).cursor() < old(self).toks().len()
                    &&& tok@ == old(self).toks()[old(self).cursor()]
                    &&& final(self).cursor() == old(self).cursor() + 1
                    &&& final(self).bytes() == old(self).bytes() + tok@.byte_length
                    &&& final(self).bytes() >= old(self).bytes()
                },
                None => state_eq(*old(self), *final(self))
                    && old(self).cursor() == old(self).toks().len(),
            },
    {
        if self.token_offset < self.tokens.len() {
            let tok = self.tokens[self.token_offset];
            proof {
                self.lemma_bytes_bound(self.cursor() + 1);
                self.lemma_all_tokens_wf();
                lemma_seq_utf8_len_ge_len(token_text(self.toks()[self.cursor()]));
            }
            self.token_offset = self.token_offset + 1;
            self.byte_offset = self.byte_offset + tok.byte_length();
            Some(tok)
        } else {
            None
        }
    }

    /// Snapshot the cursor state.
    pub fn as_restorable(&self) -> (r: Restorable)
        requires
            self.wf(),
        ensures
            r.cursor() == self.cursor(),
            r.bytes() == self.bytes(),
    {
        Restorable { token_offset: self.token_offset, byte_offset: self.byte_offset }
    }

    /// Roll the cursor back to a snapshot taken on this cursor.
    pub fn restore(&mut self, snapshot: Restorable)
        requires
            old(self).wf(),
            0 <= snapshot.cursor() <= old(self).toks().len(),
            snapshot.bytes() == bytes_of_tokens(old(self).toks(), snapshot.cursor()),
        ensures
            final(self).wf(),
            final(self).src() == old(self).src(),
            final(self).toks() == old(self).toks(),
            final(self).cursor() == snapshot.cursor(),
            final(self).bytes() == snapshot.bytes(),
    {
        self.token_offset = snapshot.token_offset;
        self.byte_offset = snapshot.byte_offset;
    }

    /// Build an error of the given kind at the current token offset.
    pub fn new_error<Other>(&self, kind: ErrorKind<Other>) -> (r: Error<Other>)
        ensures
            r.kind == kind,
            r.start_token == self.cursor(),
    {
        Error { kind, start_token: self.token_offset }
    }

    /// Build a combinator-specific error at the current token offset.
    pub fn new_other_error<Other>(&self, other: Other) -> (r: Error<Other>)
        ensures
            r.kind == ErrorKind::Other(other),
            r.start_token == self.cursor(),
    {
        self.new_error(ErrorKind::Other(other))
    }

    /// Close a node that started at token `start` and ends at the cursor.
    pub fn end<Other, Data>(&self, start: usize, data: Data) -> (r: Result<
        Node<Data>,
        Error<Other>,
    >)
        requires
            start <= self.cursor(),
        ensures
            match r {
                Ok(node) => {
                    &&& node.spec_start() == start
                    &&& node.spec_end() == self.cursor()
                    &&& node.spec_data() == data
                    &&& node.wf()
                },
                Err(_) => false,
            },
    {
        Ok(Node::make(start, self.token_offset, data))
    }

    /// Consume the next token if its kind equals the given kind.
    pub fn skip_token(&mut self, token: &Kind<'a>) -> (r: Option<Token<'a>>)
        requires
            old(self).wf(),
        ensures
            final(self).wf(),
            final(self).src() == old(self).src(),
            final(self).toks() == old(self).toks(),
            match r {
                Some(tok) => {
                    &&& old(self).cursor() < old(self).toks().len()
                    &&& old(self).toks()[old(self).cursor()].kind == token@
                    &&& tok@ == old(self).toks()[old(self).cursor()]
                    &&& final(self).cursor() == old(self).cursor() + 1
                    &&& final(self).bytes() == old(self).bytes() + tok@.byte_length
                    &&& final(self).bytes() >= old(self).bytes()
                },
                None => state_eq(*old(self), *final(self))
                    && (old(self).cursor() == old(self).toks().len()
                        || old(self).toks()[old(self).cursor()].kind != token@),
            },
    {
        let matched = match self.peek() {
            Some(peeked) => kind_eq(peeked.kind(), token),
            None => false,
        };
        if matched {
            self.next()
        } else {
            None
        }
    }

    /// Consume the next token if its kind equals the given kind; otherwise
    /// report which structural failure stopped it.
    pub fn expect_token<Other>(&mut self, token: &Kind<'a>) -> (r: Result<
        Token<'a>,
        Error<Other>,
    >)
        requires
            old(self).wf(),
        ensures
            final(self).wf(),
            final(self).src() == old(self).src(),
            final(self).toks() == old(self).toks(),
            match r {
                Ok(tok) => {
                    &&& old(self).cursor() < old(self).toks().len()
                    &&& old(self).toks()[old(self).cursor()].kind == token@
                    &&& tok@ == old(self).toks()[old(self).cursor()]
                    &&& final(self).cursor() == old(self).cursor() + 1
                    &&& final(self).bytes() == old(self).bytes() + tok@.byte_length
                    &&& final(self).bytes() >= old(self).bytes()
                },
                Err(e) => {
                    &&& state_eq(*old(self), *final(self))
                    &&& e.start_token == old(self).cursor()
                    &&& if old(self).cursor() == old(self).toks().len() {
                        e.kind == ErrorKind::<Other>::ReachedEndForToken
                    } else {
                        old(self).toks()[old(self).cursor()].kind != token@
                            && e.kind == ErrorKind::<Other>::UnexpectedToken
                    }
                },
            },
    {
        match self.peek() {
            None => Err(self.new_error(ErrorKind::ReachedEndForToken)),
            Some(peeked) => {
                if kind_eq(peeked.kind(), token) {
                    match self.next() {
                        Some(tok) => Ok(tok),
                        None => Err(self.new_error(ErrorKind::ReachedEndForToken)),
                    }
                } else {
                    Err(self.new_error(ErrorKind::UnexpectedToken))
                }
            },
        }
    }

    /// Consume the next token if its kind equals one of the given kinds;
    /// otherwise report which structural failure stopped it.
    pub fn expect_tokens<Other>(&mut self, tokens: &[Kind<'a>]) -> (r: Result<
        Token<'a>,
        Error<Other>,
    >)
        requires
            old(self).wf(),
        ensures
            final(self).wf(),
            final(self).src() == old(self).src(),
            final(self).toks() == old(self).toks(),
            match r {
                Ok(tok) => {
                    &&& old(self).cursor() < old(self).toks().len()
                    &&& exists|j: int|
                        0 <= j < tokens@.len()
                            && old(self).toks()[old(self).cursor()].kind == #[trigger] tokens@[j]@
                    &&& tok@ == old(self).toks()[old(self).cursor()]
                    &&& final(self).cursor() == old(self).cursor() + 1
                    &&& final(self).bytes() == old(self).bytes() + tok@.byte_length
                    &&& final(self).bytes() >= old(self).bytes()
                },
                Err(e) => {
                    &&& state_eq(*old(self), *final(self))
                    &&& e.start_token == old(self).cursor()
                    &&& if old(self).cursor() == old(self).toks().len() {
                        e.kind == ErrorKind::<Other>::ReachedEndForToken
                    } else {
                        (forall|j: int|
                            0 <= j < tokens@.len()
                                ==> old(self).toks()[old(self).cursor()].kind
                                != #[trigger] tokens@[j]@)
                            && e.kind == ErrorKind::<Other>::UnexpectedToken
                    }
                },
            },
    {
        let peeked_kind = match self.peek() {
            None => {
                return Err(self.new_error(ErrorKind::ReachedEndForToken));
            },
            Some(peeked) => *peeked.kind(),
        };
        let ghost cur_kind = self.toks()[self.cursor()].kind;
        let mut j: usize = 0;
        while j < tokens.len()
            invariant
                self.wf(),
                *self == *old(self),
                self.cursor() < self.toks().len(),
                0 <= j <= tokens@.len(),
                peeked_kind@ == cur_kind,
                cur_kind == self.toks()[self.cursor()].kind,
                forall|k: int| 0 <= k < j ==> cur_kind != #[trigger] tokens@[k]@,
            decreases tokens@.len() - j,
        {
            if kind_eq(&peeked_kind, &tokens[j]) {
                match self.next() {
                    Some(tok) => {
                        return Ok(tok);
                    },
                    None => {
                        return Err(self.new_error(ErrorKind::ReachedEndForToken));
                    },
                }
            }
            j = j + 1;
        }
        Err(self.new_error(ErrorKind::UnexpectedToken))
    }
}

/// Texts of a token prefix are a prefix of the texts of the whole: the byte
/// sum of a prefix never exceeds the byte sum of the whole sequence.
proof fn lemma_texts_take_prefix(toks: Seq<TokenModel>, n: int)
    requires
        0 <= n <= toks.len(),
        forall|k: int| 0 <= k < toks.len() ==> #[trigger] token_wf(toks[k]),
    ensures
        seq_utf8_len(crate::token::texts_concat(toks.take(n)))
            <= seq_utf8_len(crate::token::texts_concat(toks.take(toks.len() as int))),
    decreases toks.len() - n,
{
    if n < toks.len() {
        lemma_texts_take_prefix(toks, n + 1);
        crate::token::lemma_texts_concat_snoc(toks.take(n), toks[n]);
        assert(toks.take(n + 1) =~= toks.take(n).push(toks[n]));
        crate::support::lemma_seq_utf8_len_add(
            crate::token::texts_concat(toks.take(n)),
            token_text(toks[n]),
        );
        lemma_seq_utf8_len_ge_len(token_text(toks[n]));
    }
}

/// Executable equality of token kinds, settled against the views.
pub fn kind_eq<'a>(a: &Kind<'a>, b: &Kind<'a>) -> (r: bool)
    ensures
        r == (a@ == b@),
{
    match (a, b) {
        (Kind::Space, Kind::Space) => true,
        (Kind::Tab, Kind::Tab) => true,
        (Kind::NewLine, Kind::NewLine) => true,
        (Kind::Identifier(x), Kind::Identifier(y)) => str_eq(x, y),
        (Kind::Digit(x), Kind::Digit(y)) => *x == *y,
        (Kind::OpeningBracket, Kind::OpeningBracket) => true,
        (Kind::ClosingBracket, Kind::ClosingBracket) => true,
        (Kind::OpeningChevron, Kind::OpeningChevron) => true,
        (Kind::ClosingChevron, Kind::ClosingChevron) => true,
        (Kind::Negate, Kind::Negate) => true,
        (Kind::IdentifierEscape, Kind::IdentifierEscape) => true,
        (Kind::Path, Kind::Path) => true,
        (Kind::Macro, Kind::Macro) => true,
        (Kind::Decimal, Kind::Decimal) => true,
        (Kind::Stop, Kind::Stop) => true,
        (Kind::Separator, Kind::Separator) => true,
        (Kind::Equal, Kind::Equal) => true,
        (Kind::StringQuote, Kind::StringQuote) => true,
        (Kind::CharacterQuote, Kind::CharacterQuote) => true,
        (Kind::Escape, Kind::Escape) => true,
        (Kind::Comment, Kind::Comment) => true,
        (Kind::Other(x), Kind::Other(y)) => *x == *y,
        _ => false,
    }
}

} // verus!
