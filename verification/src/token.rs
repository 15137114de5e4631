//! The token model and the lexer.
//!
//! A token is a kind plus the number of UTF-8 bytes it consumed. The lexer
//! classifies each position of the source with a fixed precedence: a mapped
//! single character (whitespace, punctuation, operators), then a single
//! decimal digit, then a maximal alphanumeric/underscore run as one
//! identifier, and otherwise a singleton "other" token. The lexer never
//! fails: rejection of unexpected input is the parsing layer's job.

use vstd::prelude::*;
use vstd::string::StringExecFns;
use crate::support::{
    alnum, is_alnum_char, seq_utf8_len, utf8_byte_len, utf8_len, utf8_len_of,
    lemma_seq_utf8_len_add,
};

verus! {

/// The kind of a lexical token.
#[derive(Debug, Clone, Copy, PartialEq)]
pub enum Kind<'a> {
    Space,
    Tab,
    NewLine,
    Identifier(&'a str),
    Digit(u8),
    OpeningBracket,
    ClosingBracket,
    OpeningChevron,
    ClosingChevron,
    Negate,
    IdentifierEscape,
    Path,
    Macro,
    Decimal,
    Stop,
    Separator,
    Equal,
    StringQuote,
    CharacterQuote,
    Escape,
    Comment,
    Other(char),
}

/// The mathematical shape of a [`Kind`]: identifier text abstracted to its
/// character sequence.
pub enum KindModel {
    Space,
    Tab,
    NewLine,
    Identifier(Seq<char>),
    Digit(u8),
    OpeningBracket,
    ClosingBracket,
    OpeningChevron,
    ClosingChevron,
    Negate,
    IdentifierEscape,
    Path,
    Macro,
    Decimal,
    Stop,
    Separator,
    Equal,
    StringQuote,
    CharacterQuote,
    Escape,
    Comment,
    Other(char),
}

impl<'a> View for Kind<'a> {
    type V = KindModel;

    open spec fn view(&self) -> KindModel {
        match *self {
            Kind::Space => KindModel::Space,
            Kind::Tab => KindModel::Tab,
            Kind::NewLine => KindModel::NewLine,
            Kind::Identifier(s) => KindModel::Identifier(s@),
            Kind::Digit(d) => KindModel::Digit(d),
            Kind::OpeningBracket => KindModel::OpeningBracket,
            Kind::ClosingBracket => KindModel::ClosingBracket,
            Kind::OpeningChevron => KindModel::OpeningChevron,
            Kind::ClosingChevron => KindModel::ClosingChevron,
            Kind::Negate => KindModel::Negate,
            Kind::IdentifierEscape => KindModel::IdentifierEscape,
            Kind::Path => KindModel::Path,
            Kind::Macro => KindModel::Macro,
            Kind::Decimal => KindModel::Decimal,
            Kind::Stop => KindModel::Stop,
            Kind::Separator => KindModel::Separator,
            Kind::Equal => KindModel::Equal,
            Kind::StringQuote => KindModel::StringQuote,
            Kind::CharacterQuote => KindModel::CharacterQuote,
            Kind::Escape => KindModel::Escape,
            Kind::Comment => KindModel::Comment,
            Kind::Other(c) => KindModel::Other(c),
        }
    }
}

/// One lexical token: its kind and the UTF-8 byte length it consumed.
#[derive(Debug, Clone, Copy, PartialEq)]
pub struct Token<'a> {
    kind: Kind<'a>,
    byte_length: usize,
}

/// The mathematical shape of a [`Token`].
pub struct TokenModel {
    pub kind: KindModel,
    pub byte_length: int,
}

impl<'a> View for Token<'a> {
    type V = TokenModel;

    closed spec fn view(&self) -> TokenModel {
        TokenModel { kind: self.kind@, byte_length: self.byte_length as int }
    }
}

impl<'a> Token<'a> {
    pub fn kind(&self) -> (r: &Kind<'a>)
        ensures
            r@ == self@.kind,
    {
        &self.kind
    }

    pub fn byte_length(&self) -> (r: usize)
        ensures
            r == self@.byte_length,
    {
        self.byte_length
    }
}

/// A single-character classification entry: the character and the token kind
/// it lexes to.
#[derive(Debug, Clone, Copy, PartialEq)]
pub struct Mapping<'a> {
    pub character: char,
    pub token: Kind<'a>,
}

/// The fixed character-to-token table, as one classification function.
pub open spec fn symbol_kind(c: char) -> Option<KindModel> {
    match c {
        ' ' => Some(KindModel::Space),
        '\t' => Some(KindModel::Tab),
        '\n' => Some(KindModel::NewLine),
        '[' => Some(KindModel::OpeningBracket),
        ']' => Some(KindModel::ClosingBracket),
        '<' => Some(KindModel::OpeningChevron),
        '>' => Some(KindModel::ClosingChevron),
        '-' => Some(KindModel::Negate),
        '_' => Some(KindModel::IdentifierEscape),
        ':' => Some(KindModel::Path),
        '#' => Some(KindModel::Macro),
        ',' => Some(KindModel::Decimal),
        '.' => Some(KindModel::Stop),
        '|' => Some(KindModel::Separator),
        '=' => Some(KindModel::Equal),
        '"' => Some(KindModel::StringQuote),
        '\'' => Some(KindModel::CharacterQuote),
        '\\' => Some(KindModel::Escape),
        '/' => Some(KindModel::Comment),
        _ => None,
    }
}

/// The executable character-to-token lookup backing [`symbol_kind`].
pub fn mapping_for<'a>(c: char) -> (r: Option<Mapping<'a>>)
    ensures
        match r {
            Some(m) => m.character == c && symbol_kind(c) == Some(m.token@),
            None => symbol_kind(c) is None,
        },
{
    let kind = match c {
        ' ' => Some(Kind::Space),
        '\t' => Some(Kind::Tab),
        '\n' => Some(Kind::NewLine),
        '[' => Some(Kind::OpeningBracket),
        ']' => Some(Kind::ClosingBracket),
        '<' => Some(Kind::OpeningChevron),
        '>' => Some(Kind::ClosingChevron),
        '-' => Some(Kind::Negate),
        '_' => Some(Kind::IdentifierEscape),
        ':' => Some(Kind::Path),
        '#' => Some(Kind::Macro),
        ',' => Some(Kind::Decimal),
        '.' => Some(Kind::Stop),
        '|' => Some(Kind::Separator),
        '=' => Some(Kind::Equal),
        '"' => Some(Kind::StringQuote),
        '\'' => Some(Kind::CharacterQuote),
        '\\' => Some(Kind::Escape),
        '/' => Some(Kind::Comment),
        _ => None,
    };
    match kind {
        Some(k) => Some(Mapping { character: c, token: k }),
        None => None,
    }
}

/// Whether the character is an ASCII decimal digit.
pub open spec fn is_digit_char(c: char) -> bool {
    48 <= (c as u32) && (c as u32) <= 57
}

/// The numeric value of an ASCII decimal digit.
pub open spec fn digit_val(c: char) -> u8 {
    ((c as u32) - 48) as u8
}

/// The character that prints a single decimal digit.
pub open spec fn digit_char(d: u8) -> char {
    if d == 0 { '0' }
    else if d == 1 { '1' }
    else if d == 2 { '2' }
    else if d == 3 { '3' }
    else if d == 4 { '4' }
    else if d == 5 { '5' }
    else if d == 6 { '6' }
    else if d == 7 { '7' }
    else if d == 8 { '8' }
    else { '9' }
}

/// Executable counterpart of [`digit_char`].
pub fn digit_char_of(d: u8) -> (r: char)
    requires
        d < 10,
    ensures
        r == digit_char(d),
{
    if d == 0 { '0' }
    else if d == 1 { '1' }
    else if d == 2 { '2' }
    else if d == 3 { '3' }
    else if d == 4 { '4' }
    else if d == 5 { '5' }
    else if d == 6 { '6' }
    else if d == 7 { '7' }
    else if d == 8 { '8' }
    else { '9' }
}

/// Whether a character extends an identifier run once one has started.
pub open spec fn ident_continue(c: char) -> bool {
    alnum(c) || c == '_'
}

/// Whether a token starts an identifier run at this character: nothing of
/// higher precedence claims it and the character is alphanumeric.
pub open spec fn ident_start(c: char) -> bool {
    symbol_kind(c) is None && !is_digit_char(c) && alnum(c)
}

/// The first index at or after `i` whose character does not extend an
/// identifier run.
pub open spec fn ident_run_end(s: Seq<char>, i: int) -> int
    decreases s.len() - i when 0 <= i <= s.len()
{
    if i < s.len() && ident_continue(s[i]) {
        ident_run_end(s, i + 1)
    } else {
        i
    }
}

pub proof fn lemma_ident_run_end_bounds(s: Seq<char>, i: int)
    requires
        0 <= i <= s.len(),
    ensures
        i <= ident_run_end(s, i) <= s.len(),
    decreases s.len() - i,
{
    if i < s.len() && ident_continue(s[i]) {
        lemma_ident_run_end_bounds(s, i + 1);
    }
}

/// How many characters the token starting at position `i` consumes.
pub open spec fn token_len_at(s: Seq<char>, i: int) -> int {
    if ident_start(s[i]) {
        ident_run_end(s, i + 1) - i
    } else {
        1
    }
}

/// The token that the lexer produces at position `i` of the source.
pub open spec fn token_at(s: Seq<char>, i: int) -> TokenModel {
    let c = s[i];
    match symbol_kind(c) {
        Some(k) => TokenModel { kind: k, byte_length: utf8_len(c) },
        None => {
            if is_digit_char(c) {
                TokenModel { kind: KindModel::Digit(digit_val(c)), byte_length: utf8_len(c) }
            } else if alnum(c) {
                let text = s.subrange(i, ident_run_end(s, i + 1));
                TokenModel { kind: KindModel::Identifier(text), byte_length: seq_utf8_len(text) }
            } else {
                TokenModel { kind: KindModel::Other(c), byte_length: utf8_len(c) }
            }
        },
    }
}

/// The full tokenization of the source from position `i` on: the
/// mathematical model of the lexer.
pub open spec fn tokens_from(s: Seq<char>, i: int) -> Seq<TokenModel>
    decreases s.len() - i when 0 <= i <= s.len() via tokens_from_decreases
{
    if i >= s.len() {
        Seq::empty()
    } else {
        seq![token_at(s, i)] + tokens_from(s, i + token_len_at(s, i))
    }
}

#[via_fn]
proof fn tokens_from_decreases(s: Seq<char>, i: int) {
    if i < s.len() {
        lemma_ident_run_end_bounds(s, i + 1);
    }
}

/// The literal text of a token kind: exactly the source characters it
/// consumed.
pub open spec fn kind_text(k: KindModel) -> Seq<char> {
    match k {
        KindModel::Space => seq![' '],
        KindModel::Tab => seq!['\t'],
        KindModel::NewLine => seq!['\n'],
        KindModel::Identifier(t) => t,
        KindModel::Digit(d) => seq![digit_char(d)],
        KindModel::OpeningBracket => seq!['['],
        KindModel::ClosingBracket => seq![']'],
        KindModel::OpeningChevron => seq!['<'],
        KindModel::ClosingChevron => seq!['>'],
        KindModel::Negate => seq!['-'],
        KindModel::IdentifierEscape => seq!['_'],
        KindModel::Path => seq![':'],
        KindModel::Macro => seq!['#'],
        KindModel::Decimal => seq![','],
        KindModel::Stop => seq!['.'],
        KindModel::Separator => seq!['|'],
        KindModel::Equal => seq!['='],
        KindModel::StringQuote => seq!['"'],
        KindModel::CharacterQuote => seq!['\''],
        KindModel::Escape => seq!['\\'],
        KindModel::Comment => seq!['/'],
        KindModel::Other(c) => seq![c],
    }
}

/// The literal text of a token.
pub open spec fn token_text(t: TokenModel) -> Seq<char> {
    kind_text(t.kind)
}

/// The concatenation of the literal texts of a token sequence.
pub open spec fn texts_concat(toks: Seq<TokenModel>) -> Seq<char>
    decreases toks.len(),
{
    if toks.len() == 0 {
        Seq::empty()
    } else {
        token_text(toks[0]) + texts_concat(toks.skip(1))
    }
}

/// A token is well formed when a digit is a single decimal digit, an
/// identifier is a nonempty run, and the byte length is the UTF-8 length of
/// the token's text.
pub open spec fn token_wf(t: TokenModel) -> bool {
    &&& (t.kind matches KindModel::Digit(d) ==> d < 10)
    &&& (t.kind matches KindModel::Identifier(text) ==> text.len() >= 1)
    &&& t.byte_length == seq_utf8_len(token_text(t))
}

proof fn lemma_single_utf8(c: char)
    ensures
        seq_utf8_len(seq![c]) == utf8_len(c),
{
    let s = seq![c];
    assert(s.len() == 1);
    assert(s[0] == c);
    assert(s.skip(1) =~= Seq::<char>::empty());
    assert(seq_utf8_len(s.skip(1)) == 0);
}

/// Printing the value of an ASCII digit reproduces the digit character.
pub proof fn lemma_digit_char_val(c: char)
    requires
        is_digit_char(c),
    ensures
        digit_char(digit_val(c)) == c,
{
    let v = c as u32;
    if v == 48 { assert(c as int == 48); assert(c == '0'); }
    else if v == 49 { assert(c as int == 49); assert(c == '1'); }
    else if v == 50 { assert(c as int == 50); assert(c == '2'); }
    else if v == 51 { assert(c as int == 51); assert(c == '3'); }
    else if v == 52 { assert(c as int == 52); assert(c == '4'); }
    else if v == 53 { assert(c as int == 53); assert(c == '5'); }
    else if v == 54 { assert(c as int == 54); assert(c == '6'); }
    else if v == 55 { assert(c as int == 55); assert(c == '7'); }
    else if v == 56 { assert(c as int == 56); assert(c == '8'); }
    else { assert(c as int == 57); assert(c == '9'); }
}

/// The token produced at any source position is well formed.
pub proof fn lemma_token_at_wf(s: Seq<char>, i: int)
    requires
        0 <= i < s.len(),
    ensures
        token_wf(token_at(s, i)),
        token_text(token_at(s, i)) == s.subrange(i, i + token_len_at(s, i)),
{
    let c: char = s[i];
    lemma_single_utf8(c);
    match symbol_kind(c) {
        Some(k) => {
            assert(kind_text(k) =~= seq![c]);
            assert(s.subrange(i, i + 1) =~= seq![c]);
        },
        None => {
            if is_digit_char(c) {
                lemma_digit_char_val(c);
                assert(s.subrange(i, i + 1) =~= seq![c]);
            } else if alnum(c) {
                lemma_ident_run_end_bounds(s, i + 1);
            } else {
                assert(s.subrange(i, i + 1) =~= seq![c]);
            }
        },
    }
}

/// Round-trip: the texts of the tokens lexed from position `i` concatenate
/// back to exactly the source from `i` on.
pub proof fn lemma_round_trip_from(s: Seq<char>, i: int)
    requires
        0 <= i <= s.len(),
    ensures
        texts_concat(tokens_from(s, i)) == s.subrange(i, s.len() as int),
    decreases s.len() - i,
{
    if i >= s.len() {
        assert(s.subrange(i, s.len() as int) =~= Seq::<char>::empty());
    } else {
        let n = token_len_at(s, i);
        lemma_ident_run_end_bounds(s, i + 1);
        lemma_token_at_wf(s, i);
        lemma_round_trip_from(s, i + n);
        let toks = tokens_from(s, i);
        assert(toks.skip(1) =~= tokens_from(s, i + n));
        assert(s.subrange(i, s.len() as int) =~=
            s.subrange(i, i + n) + s.subrange(i + n, s.len() as int));
    }
}

/// Round-trip at the whole source: concatenating the literal text of every
/// token produced from a source reconstructs that exact source.
pub proof fn lemma_tokenize_round_trip(s: Seq<char>)
    ensures
        texts_concat(tokens_from(s, 0)) == s,
    decreases 0int,
{
    lemma_round_trip_from(s, 0);
    assert(s.subrange(0, s.len() as int) =~= s);
}

/// Every token of a tokenization is well formed.
pub proof fn lemma_tokens_from_wf(s: Seq<char>, i: int)
    requires
        0 <= i <= s.len(),
    ensures
        forall|k: int| 0 <= k < tokens_from(s, i).len() ==> #[trigger] token_wf(tokens_from(s, i)[k]),
    decreases s.len() - i,
{
    if i < s.len() {
        let n = token_len_at(s, i);
        lemma_ident_run_end_bounds(s, i + 1);
        lemma_token_at_wf(s, i);
        lemma_tokens_from_wf(s, i + n);
        let toks = tokens_from(s, i);
        assert forall|k: int| 0 <= k < toks.len() implies #[trigger] token_wf(toks[k]) by {
            if k > 0 {
                assert(toks[k] == tokens_from(s, i + n)[k - 1]);
            }
        }
    }
}

/// The sum of the byte lengths of the first `n` tokens.
pub open spec fn bytes_of_tokens(toks: Seq<TokenModel>, n: int) -> int
    decreases n when 0 <= n <= toks.len()
{
    if n <= 0 {
        0
    } else {
        bytes_of_tokens(toks, n - 1) + toks[n - 1].byte_length
    }
}

/// For well-formed tokens, the byte prefix sums equal the UTF-8 length of the
/// concatenated texts of the counted tokens.
pub proof fn lemma_bytes_of_tokens_as_text(toks: Seq<TokenModel>, n: int)
    requires
        0 <= n <= toks.len(),
        forall|k: int| 0 <= k < toks.len() ==> #[trigger] token_wf(toks[k]),
    ensures
        bytes_of_tokens(toks, n) == seq_utf8_len(texts_concat(toks.take(n))),
    decreases n,
{
    if n == 0 {
        assert(toks.take(0) =~= Seq::<TokenModel>::empty());
        assert(texts_concat(toks.take(0)) == Seq::<char>::empty());
    } else {
        lemma_bytes_of_tokens_as_text(toks, n - 1);
        lemma_texts_concat_snoc(toks.take(n - 1), toks[n - 1]);
        assert(toks.take(n) =~= toks.take(n - 1).push(toks[n - 1]));
        lemma_seq_utf8_len_add(texts_concat(toks.take(n - 1)), token_text(toks[n - 1]));
        assert(token_wf(toks[n - 1]));
    }
}

/// Appending one token appends its text.
pub proof fn lemma_texts_concat_snoc(toks: Seq<TokenModel>, t: TokenModel)
    ensures
        texts_concat(toks.push(t)) == texts_concat(toks) + token_text(t),
    decreases toks.len(),
{
    let p = toks.push(t);
    if toks.len() == 0 {
        assert(p.len() == 1);
        assert(p[0] == t);
        assert(p.skip(1) =~= Seq::<TokenModel>::empty());
        assert(texts_concat(p.skip(1)) == Seq::<char>::empty());
        assert(token_text(t) + Seq::<char>::empty() =~= token_text(t));
        assert(texts_concat(toks) == Seq::<char>::empty());
        assert(Seq::<char>::empty() + token_text(t) =~= token_text(t));
    } else {
        assert(p[0] == toks[0]);
        assert(p.skip(1) =~= toks.skip(1).push(t));
        lemma_texts_concat_snoc(toks.skip(1), t);
        assert(token_text(toks[0]) + (texts_concat(toks.skip(1)) + token_text(t))
            =~= (token_text(toks[0]) + texts_concat(toks.skip(1))) + token_text(t));
    }
}

/// The lazy token stream: a finite, pull-based producer over one immutable
/// source slice. It is not restartable once consumed, but re-invoking
/// [`Iterator::from_str`] on the same source reproduces the sequence.
#[derive(Debug, Clone)]
pub struct Iterator<'a> {
    source: &'a str,
    position: usize,
    length: usize,
}

impl<'a> Iterator<'a> {
    /// The source the stream was built over.
    pub closed spec fn src(self) -> Seq<char> {
        self.source@
    }

    /// How many characters have been consumed so far.
    pub closed spec fn pos(self) -> int {
        self.position as int
    }

    pub closed spec fn wf(self) -> bool {
        0 <= self.position <= self.source@.len() && self.length == self.source@.len()
    }

    pub fn from_str(value: &'a str) -> (r: Self)
        ensures
            r.wf(),
            r.src() == value@,
            r.pos() == 0,
    {
        Iterator { source: value, position: 0, length: value.unicode_len() }
    }

    pub fn source(&self) -> (r: &'a str)
        ensures
            r@ == self.src(),
    {
        self.source
    }

    /// Produce the next token, or `None` at the end of the source.
    pub fn next(&mut self) -> (r: Option<Token<'a>>)
        requires
            old(self).wf(),
        ensures
            final(self).wf(),
            final(self).src() == old(self).src(),
            match r {
                Some(tok) => {
                    &&& old(self).pos() < old(self).src().len()
                    &&& tok@ == token_at(old(self).src(), old(self).pos())
                    &&& final(self).pos() == old(self).pos()
                        + token_len_at(old(self).src(), old(self).pos())
                },
                None => final(self).pos() == old(self).pos()
                    && old(self).pos() == old(self).src().len(),
            },
{
        if self.position == self.length {
            return None;
        }
        let ghost s = self.source@;
        let ghost i = self.position as int;
        let c = self.source.get_char(self.position);
        if let Some(mapped) = mapping_for(c) {
            self.position = self.position + 1;
            return Some(Token { kind: mapped.token, byte_length: utf8_len_of(c) });
        }
        let code = c as u32;
        if 48 <= code && code <= 57 {
            self.position = self.position + 1;
            return Some(Token { kind: Kind::Digit((code - 48) as u8), byte_length: utf8_len_of(c) });
        }
        if is_alnum_char(c) {
            let start = self.position;
            let mut end = self.position + 1;
            proof {
                lemma_ident_run_end_bounds(s, end as int);
            }
            loop
                invariant
                    start as int == i,
                    i + 1 <= end <= s.len(),
                    self.source@ == s,
                    self.length == s.len(),
                    ident_run_end(s, i + 1) == ident_run_end(s, end as int),
                    i <= ident_run_end(s, end as int) <= s.len(),
                ensures
                    i + 1 <= end <= s.len(),
                    self.source@ == s,
                    self.length == s.len(),
                    ident_run_end(s, i + 1) == end as int,
                decreases s.len() - end,
            {
                if end == self.length {
                    assert(ident_run_end(s, end as int) == end as int);
                    break;
                }
                let ch = self.source.get_char(end);
                if is_alnum_char(ch) || ch == '_' {
                    end = end + 1;
                    proof {
                        lemma_ident_run_end_bounds(s, end as int);
                    }
                } else {
                    assert(!ident_continue(s[end as int]));
                    assert(ident_run_end(s, end as int) == end as int);
                    break;
                }
            }
            let slice = self.source.substring_char(start, end);
            let byte_length = utf8_byte_len(slice);
            self.position = end;
            return Some(Token { kind: Kind::Identifier(slice), byte_length });
        }
        self.position = self.position + 1;
        Some(Token { kind: Kind::Other(c), byte_length: utf8_len_of(c) })
    }
}

/// Append one character to a string.
fn push_text(out: &mut String, c: char)
    ensures
        final(out)@ == old(out)@ + seq![c],
{
    crate::support::push_char(out, c);
    proof {
        assert(old(out)@.push(c) =~= old(out)@ + seq![c]);
    }
}

/// Append a token's literal text to a string: the executable counterpart of
/// [`token_text`].
pub fn append_token_text<'a>(out: &mut String, tok: &Token<'a>)
    requires
        token_wf(tok@),
    ensures
        final(out)@ == old(out)@ + token_text(tok@),
{
    match tok.kind() {
        Kind::Space => push_text(out, ' '),
        Kind::Tab => push_text(out, '\t'),
        Kind::NewLine => push_text(out, '\n'),
        Kind::Identifier(text) => {
            out.append(text);
        },
        Kind::Digit(d) => push_text(out, digit_char_of(*d)),
        Kind::OpeningBracket => push_text(out, '['),
        Kind::ClosingBracket => push_text(out, ']'),
        Kind::OpeningChevron => push_text(out, '<'),
        Kind::ClosingChevron => push_text(out, '>'),
        Kind::Negate => push_text(out, '-'),
        Kind::IdentifierEscape => push_text(out, '_'),
        Kind::Path => push_text(out, ':'),
        Kind::Macro => push_text(out, '#'),
        Kind::Decimal => push_text(out, ','),
        Kind::Stop => push_text(out, '.'),
        Kind::Separator => push_text(out, '|'),
        Kind::Equal => push_text(out, '='),
        Kind::StringQuote => push_text(out, '"'),
        Kind::CharacterQuote => push_text(out, '\''),
        Kind::Escape => push_text(out, '\\'),
        Kind::Comment => push_text(out, '/'),
        Kind::Other(c) => push_text(out, *c),
    }
}

/// Tokenize a whole source string eagerly: the executable lexer, proved to
/// produce exactly the model tokenization.
pub fn tokenize<'a>(source: &'a str) -> (r: Vec<Token<'a>>)
    ensures
        r@.map_values(|t: Token<'a>| t@) == tokens_from(source@, 0),
{
    let mut stream = Iterator::from_str(source);
    let mut out: Vec<Token<'a>> = Vec::new();
    loop
        invariant
            stream.wf(),
            stream.src() == source@,
            out@.map_values(|t: Token<'a>| t@) + tokens_from(source@, stream.pos())
                == tokens_from(source@, 0),
        decreases source@.len() - stream.pos(),
    {
        let ghost pos_before = stream.pos();
        match stream.next() {
            Some(tok) => {
                proof {
                    lemma_ident_run_end_bounds(source@, pos_before + 1);
                }
                let ghost old_map = out@.map_values(|t: Token<'a>| t@);
                out.push(tok);
                proof {
                    assert(out@.map_values(|t: Token<'a>| t@) =~= old_map.push(tok@));
                    assert(old_map.push(tok@) + tokens_from(source@, stream.pos())
                        =~= old_map + (seq![tok@] + tokens_from(source@, stream.pos())));
                }
            },
            None => {
                proof {
                    assert(out@.map_values(|t: Token<'a>| t@) + tokens_from(source@, stream.pos())
                        =~= out@.map_values(|t: Token<'a>| t@));
                }
                return out;
            },
        }
    }
}

} // verus!
