//! The character-at-a-time parser used for keyword and name scanning, with
//! the annotation bookkeeping that drives source highlighting.

use vstd::prelude::*;
use vstd::string::StrSliceExecFns;
use crate::annotation::{self, Annotation};
use crate::comment;
use crate::operator::{operator_of, Operator};
use crate::support::{is_alnum_char, lowercase, lower_of, str_eq};
use crate::token::{digit_val, ident_continue, ident_run_end, is_digit_char,
    lemma_ident_run_end_bounds};

verus! {

/// A keyword declaration: the keyword and the declared name.
#[derive(Debug, Clone, PartialEq)]
pub struct Declaration {
    pub keyword: String,
    pub name: String,
}

/// The character cursor: the source, the position of the next unread
/// character, and the annotations recorded so far.
#[derive(Debug, Clone)]
pub struct Parser<'a> {
    source: &'a str,
    position: usize,
    length: usize,
    /// The classified ranges recorded while parsing.
    pub annotations: Vec<Annotation>,
}

/// What `get_current` reports at a position: the index one before it,
/// clamped at zero, and nothing at the end of input.
pub open spec fn current_of(pos: int, len: int) -> Option<int> {
    if pos < len {
        Some(if pos == 0 { 0 } else { pos - 1 })
    } else {
        None
    }
}

/// The first index at or after `i` whose character is an identifier
/// character.
pub open spec fn symbol_run_end(s: Seq<char>, i: int) -> int
    decreases s.len() - i when 0 <= i <= s.len()
{
    if i < s.len() && !ident_continue(s[i]) {
        symbol_run_end(s, i + 1)
    } else {
        i
    }
}

pub proof fn lemma_symbol_run_end_bounds(s: Seq<char>, i: int)
    requires
        0 <= i <= s.len(),
    ensures
        i <= symbol_run_end(s, i) <= s.len(),
    decreases s.len() - i,
{
    if i < s.len() && !ident_continue(s[i]) {
        lemma_symbol_run_end_bounds(s, i + 1);
    }
}

/// Whether a character counts as blank filler between words.
pub open spec fn is_blank_char(c: char) -> bool {
    c == ' ' || c == '\n' || c == '\t'
}

/// The first index at or after `i` whose character is not blank.
pub open spec fn blank_run_end(s: Seq<char>, i: int) -> int
    decreases s.len() - i when 0 <= i <= s.len()
{
    if i < s.len() && is_blank_char(s[i]) {
        blank_run_end(s, i + 1)
    } else {
        i
    }
}

pub proof fn lemma_blank_run_end_bounds(s: Seq<char>, i: int)
    requires
        0 <= i <= s.len(),
    ensures
        i <= blank_run_end(s, i) <= s.len(),
    decreases s.len() - i,
{
    if i < s.len() && is_blank_char(s[i]) {
        lemma_blank_run_end_bounds(s, i + 1);
    }
}

/// The first index at or after `i` whose character differs from `c`.
pub open spec fn char_run_end(s: Seq<char>, i: int, c: char) -> int
    decreases s.len() - i when 0 <= i <= s.len()
{
    if i < s.len() && s[i] == c {
        char_run_end(s, i + 1, c)
    } else {
        i
    }
}

pub proof fn lemma_char_run_end_bounds(s: Seq<char>, i: int, c: char)
    requires
        0 <= i <= s.len(),
    ensures
        i <= char_run_end(s, i, c) <= s.len(),
    decreases s.len() - i,
{
    if i < s.len() && s[i] == c {
        lemma_char_run_end_bounds(s, i + 1, c);
    }
}

/// The first index at or after `i` whose character is not a decimal digit.
pub open spec fn digit_run_end(s: Seq<char>, i: int) -> int
    decreases s.len() - i when 0 <= i <= s.len()
{
    if i < s.len() && is_digit_char(s[i]) {
        digit_run_end(s, i + 1)
    } else {
        i
    }
}

pub proof fn lemma_digit_run_end_bounds(s: Seq<char>, i: int)
    requires
        0 <= i <= s.len(),
    ensures
        i <= digit_run_end(s, i) <= s.len(),
    decreases s.len() - i,
{
    if i < s.len() && is_digit_char(s[i]) {
        lemma_digit_run_end_bounds(s, i + 1);
    }
}

/// Every character before the end of a digit run is a digit.
pub proof fn lemma_digit_run_chars(s: Seq<char>, i: int)
    requires
        0 <= i <= s.len(),
    ensures
        forall|k: int| i <= k < digit_run_end(s, i) ==> is_digit_char(#[trigger] s[k]),
    decreases s.len() - i,
{
    if i < s.len() && is_digit_char(s[i]) {
        lemma_digit_run_chars(s, i + 1);
        lemma_digit_run_end_bounds(s, i + 1);
    }
}

/// The value of the digits in `[i, j)`, combined most-significant-first.
pub open spec fn digits_value(s: Seq<char>, i: int, j: int) -> int
    decreases j - i when i <= j
{
    if i >= j {
        0
    } else {
        digits_value(s, i, j - 1) * 10 + digit_val(s[j - 1]) as int
    }
}

/// A digit run's value is never negative.
pub proof fn lemma_digits_value_nonneg(s: Seq<char>, i: int, j: int)
    requires
        i <= j,
    ensures
        digits_value(s, i, j) >= 0,
    decreases j - i,
{
    if i < j {
        lemma_digits_value_nonneg(s, i, j - 1);
    }
}

/// Digit run values only grow as the run extends.
pub proof fn lemma_digits_value_monotone(s: Seq<char>, i: int, j: int, m: int)
    requires
        i <= j <= m,
    ensures
        0 <= digits_value(s, i, j) <= digits_value(s, i, m),
    decreases m - j,
{
    lemma_digits_value_nonneg(s, i, j);
    if j < m {
        lemma_digits_value_monotone(s, i, j, m - 1);
        assert(digits_value(s, i, m) == digits_value(s, i, m - 1) * 10 + digit_val(s[m - 1]));
        assert(digits_value(s, i, m - 1) * 10 >= digits_value(s, i, m - 1));
    }
}

impl<'a> Parser<'a> {
    /// The characters of the source.
    pub closed spec fn src(self) -> Seq<char> {
        self.source@
    }

    /// The index of the next unread character.
    pub closed spec fn pos(self) -> int {
        self.position as int
    }

    /// The annotations recorded so far.
    pub closed spec fn anns(self) -> Seq<Annotation> {
        self.annotations@
    }

    pub closed spec fn wf(self) -> bool {
        0 <= self.pos() <= self.src().len() && self.length == self.src().len()
    }

    /// A parser at the start of a source string, with no annotations.
    pub fn new(source: &'a str) -> (r: Self)
        ensures
            r.wf(),
            r.src() == source@,
            r.pos() == 0,
            r.anns() == Seq::<Annotation>::empty(),
    {
        let length = source.unicode_len();
        Parser { source, position: 0, length, annotations: Vec::new() }
    }

    /// The index of the character read last, or nothing at the end of input.
    pub fn get_current(&self) -> (r: Option<usize>)
        requires
            self.wf(),
        ensures
            match r {
                Some(i) => current_of(self.pos(), self.src().len() as int) == Some(i as int),
                None => self.pos() == self.src().len(),
            },
    {
        if self.position < self.length {
            if self.position == 0 {
                Some(0)
            } else {
                Some(self.position - 1)
            }
        } else {
            None
        }
    }

    /// Consume the next character when it is an identifier character
    /// (alphanumeric or underscore).
    pub fn parse_ident_char(&mut self) -> (r: Option<char>)
        requires
            old(self).wf(),
        ensures
            final(self).wf(),
            final(self).src() == old(self).src(),
            final(self).anns() == old(self).anns(),
            match r {
                Some(c) => {
                    &&& old(self).pos() < old(self).src().len()
                    &&& c == old(self).src()[old(self).pos()]
                    &&& ident_continue(c)
                    &&& final(self).pos() == old(self).pos() + 1
                },
                None => final(self).pos() == old(self).pos() && (old(self).pos()
                    == old(self).src().len() || !ident_continue(
                    old(self).src()[old(self).pos()],
                )),
            },
    {
        if self.position < self.length {
            let c = self.source.get_char(self.position);
            if is_alnum_char(c) || c == '_' {
                self.position = self.position + 1;
                Some(c)
            } else {
                None
            }
        } else {
            None
        }
    }

    /// Consume a maximal nonempty run of identifier characters.
    pub fn parse_identifier(&mut self) -> (r: Option<String>)
        requires
            old(self).wf(),
        ensures
            final(self).wf(),
            final(self).src() == old(self).src(),
            final(self).anns() == old(self).anns(),
            match r {
                Some(text) => {
                    &&& old(self).pos() < old(self).src().len()
                    &&& ident_continue(old(self).src()[old(self).pos()])
                    &&& final(self).pos() == ident_run_end(old(self).src(), old(self).pos())
                    &&& text@ == old(self).src().subrange(old(self).pos(), final(self).pos())
                },
                None => final(self).pos() == old(self).pos() && (old(self).pos()
                    == old(self).src().len() || !ident_continue(
                    old(self).src()[old(self).pos()],
                )),
            },
    {
        let ghost s = self.source@;
        let start = self.position;
        loop
            invariant
                self.wf(),
                self.source@ == s,
                self.length == s.len(),
                self.anns() == old(self).anns(),
                start as int == old(self).pos(),
                start <= self.position <= s.len(),
                ident_run_end(s, start as int) == ident_run_end(s, self.pos()),
            ensures
                self.wf(),
                self.source@ == s,
                self.length == s.len(),
                self.anns() == old(self).anns(),
                start as int == old(self).pos(),
                start <= self.position <= s.len(),
                self.pos() == ident_run_end(s, start as int),
            decreases s.len() - self.pos(),
        {
            let ghost before = self.pos();
            match self.parse_ident_char() {
                Some(_) => {
                    proof {
                        lemma_ident_run_end_bounds(s, self.pos());
                    }
                },
                None => {
                    proof {
                        assert(ident_run_end(s, before) == before);
                    }
                    break;
                },
            }
        }
        if self.position == start {
            proof {
                if (start as int) < s.len() && ident_continue(s[start as int]) {
                    lemma_ident_run_end_bounds(s, start as int + 1);
                }
            }
            return None;
        }
        proof {
            if !((start as int) < s.len() && ident_continue(s[start as int])) {
                assert(ident_run_end(s, start as int) == start as int);
            }
        }
        let text = self.source.substring_char(start, self.position).to_owned();
        Some(text)
    }

    /// Consume a maximal nonempty run of non-identifier characters.
    pub fn parse_symbol(&mut self) -> (r: Option<String>)
        requires
            old(self).wf(),
        ensures
            final(self).wf(),
            final(self).src() == old(self).src(),
            final(self).anns() == old(self).anns(),
            match r {
                Some(text) => {
                    &&& old(self).pos() < old(self).src().len()
                    &&& !ident_continue(old(self).src()[old(self).pos()])
                    &&& final(self).pos() == symbol_run_end(old(self).src(), old(self).pos())
                    &&& text@ == old(self).src().subrange(old(self).pos(), final(self).pos())
                },
                None => final(self).pos() == old(self).pos() && (old(self).pos()
                    == old(self).src().len() || ident_continue(
                    old(self).src()[old(self).pos()],
                )),
            },
    {
        let ghost s = self.source@;
        let start = self.position;
        loop
            invariant
                self.wf(),
                self.source@ == s,
                self.length == s.len(),
                self.anns() == old(self).anns(),
                start as int == old(self).pos(),
                start <= self.position <= s.len(),
                symbol_run_end(s, start as int) == symbol_run_end(s, self.pos()),
            ensures
                self.wf(),
                self.source@ == s,
                self.length == s.len(),
                self.anns() == old(self).anns(),
                start as int == old(self).pos(),
                start <= self.position <= s.len(),
                self.pos() == symbol_run_end(s, start as int),
            decreases s.len() - self.pos(),
        {
            if self.position == self.length {
                break;
            }
            let c = self.source.get_char(self.position);
            if !is_alnum_char(c) && c != '_' {
                self.position = self.position + 1;
                proof {
                    lemma_symbol_run_end_bounds(s, self.pos());
                }
            } else {
                break;
            }
        }
        if self.position == start {
            proof {
                if (start as int) < s.len() && !ident_continue(s[start as int]) {
                    lemma_symbol_run_end_bounds(s, start as int + 1);
                }
            }
            return None;
        }
        proof {
            if !((start as int) < s.len() && !ident_continue(s[start as int])) {
                assert(symbol_run_end(s, start as int) == start as int);
            }
        }
        let text = self.source.substring_char(start, self.position).to_owned();
        Some(text)
    }

    /// Consume a maximal nonempty run of one repeated character, reporting
    /// how long it was.
    pub fn parse_repeating_sequence(&mut self, symbol: char) -> (r: Option<usize>)
        requires
            old(self).wf(),
        ensures
            final(self).wf(),
            final(self).src() == old(self).src(),
            final(self).anns() == old(self).anns(),
            match r {
                Some(count) => {
                    &&& count >= 1
                    &&& final(self).pos() == char_run_end(old(self).src(), old(self).pos(), symbol)
                    &&& final(self).pos() == old(self).pos() + count
                },
                None => final(self).pos() == old(self).pos() && (old(self).pos()
                    == old(self).src().len() || old(self).src()[old(self).pos()] != symbol),
            },
    {
        let ghost s = self.source@;
        let start = self.position;
        loop
            invariant
                self.wf(),
                self.source@ == s,
                self.length == s.len(),
                self.anns() == old(self).anns(),
                start as int == old(self).pos(),
                start <= self.position <= s.len(),
                char_run_end(s, start as int, symbol) == char_run_end(s, self.pos(), symbol),
            ensures
                self.wf(),
                self.source@ == s,
                self.length == s.len(),
                self.anns() == old(self).anns(),
                start as int == old(self).pos(),
                start <= self.position <= s.len(),
                self.pos() == char_run_end(s, start as int, symbol),
            decreases s.len() - self.pos(),
        {
            if self.position == self.length {
                break;
            }
            let c = self.source.get_char(self.position);
            if c == symbol {
                self.position = self.position + 1;
                proof {
                    lemma_char_run_end_bounds(s, self.pos(), symbol);
                }
            } else {
                break;
            }
        }
        if self.position == start {
            proof {
                if (start as int) < s.len() && s[start as int] == symbol {
                    lemma_char_run_end_bounds(s, start as int + 1, symbol);
                }
            }
            None
        } else {
            Some(self.position - start)
        }
    }

    /// Consume the next character when it equals the given one.
    pub fn parse_char(&mut self, symbol: char) -> (r: Option<()>)
        requires
            old(self).wf(),
        ensures
            final(self).wf(),
            final(self).src() == old(self).src(),
            final(self).anns() == old(self).anns(),
            match r {
                Some(_) => {
                    &&& old(self).pos() < old(self).src().len()
                    &&& old(self).src()[old(self).pos()] == symbol
                    &&& final(self).pos() == old(self).pos() + 1
                },
                None => final(self).pos() == old(self).pos() && (old(self).pos()
                    == old(self).src().len() || old(self).src()[old(self).pos()] != symbol),
            },
    {
        if self.position < self.length {
            let c = self.source.get_char(self.position);
            if c == symbol {
                self.position = self.position + 1;
                Some(())
            } else {
                None
            }
        } else {
            None
        }
    }

    /// Consume the blank characters that do not influence the grammar:
    /// spaces, newlines and tabs.
    pub fn parse_empty(&mut self)
        requires
            old(self).wf(),
        ensures
            final(self).wf(),
            final(self).src() == old(self).src(),
            final(self).anns() == old(self).anns(),
            final(self).pos() == blank_run_end(old(self).src(), old(self).pos()),
    {
        let ghost s = self.source@;
        let start = self.position;
        loop
            invariant
                self.wf(),
                self.source@ == s,
                self.length == s.len(),
                self.anns() == old(self).anns(),
                start <= self.position <= s.len(),
                blank_run_end(s, start as int) == blank_run_end(s, self.pos()),
            ensures
                self.wf(),
                self.source@ == s,
                self.length == s.len(),
                self.anns() == old(self).anns(),
                self.pos() == blank_run_end(s, start as int),
            decreases s.len() - self.pos(),
        {
            if self.position == self.length {
                break;
            }
            let c = self.source.get_char(self.position);
            if c == ' ' || c == '\n' || c == '\t' {
                self.position = self.position + 1;
                proof {
                    lemma_blank_run_end_bounds(s, self.pos());
                }
            } else {
                break;
            }
        }
    }

    /// Combine the digit run at the cursor most-significant-first. The run's
    /// value must fit the machine word: on wider values the original
    /// accumulation has no defined result.
    pub fn parse_integer(&mut self) -> (r: Option<usize>)
        requires
            old(self).wf(),
            old(self).pos() < old(self).src().len() && is_digit_char(
                old(self).src()[old(self).pos()],
            ) ==> digits_value(
                old(self).src(),
                old(self).pos(),
                digit_run_end(old(self).src(), old(self).pos()),
            ) <= usize::MAX,
        ensures
            final(self).wf(),
            final(self).src() == old(self).src(),
            final(self).anns() == old(self).anns(),
            match r {
                Some(value) => {
                    &&& old(self).pos() < old(self).src().len()
                    &&& is_digit_char(old(self).src()[old(self).pos()])
                    &&& final(self).pos() == digit_run_end(old(self).src(), old(self).pos())
                    &&& value == digits_value(old(self).src(), old(self).pos(), final(self).pos())
                },
                None => final(self).pos() == old(self).pos() && (old(self).pos()
                    == old(self).src().len() || !is_digit_char(
                    old(self).src()[old(self).pos()],
                )),
            },
    {
        let ghost s = self.source@;
        let start = self.position;
        if self.position == self.length {
            return None;
        }
        let first = self.source.get_char(self.position);
        let code = first as u32;
        if !(48 <= code && code <= 57) {
            return None;
        }
        let ghost run_end = digit_run_end(s, start as int);
        proof {
            lemma_digit_run_end_bounds(s, start as int);
        }
        let mut value: usize = 0;
        loop
            invariant
                self.wf(),
                self.source@ == s,
                self.length == s.len(),
                self.anns() == old(self).anns(),
                start as int == old(self).pos(),
                run_end == digit_run_end(s, start as int),
                digits_value(s, start as int, run_end) <= usize::MAX,
                start <= self.position <= s.len(),
                digit_run_end(s, self.pos()) == run_end,
                self.pos() <= run_end <= s.len(),
                value == digits_value(s, start as int, self.pos()),
            ensures
                self.wf(),
                self.source@ == s,
                self.length == s.len(),
                self.anns() == old(self).anns(),
                start as int == old(self).pos(),
                self.pos() == run_end,
                value == digits_value(s, start as int, run_end),
            decreases s.len() - self.pos(),
        {
            if self.position == self.length {
                proof {
                    assert(digit_run_end(s, self.pos()) == self.pos());
                }
                break;
            }
            let c = self.source.get_char(self.position);
            let digit_code = c as u32;
            if 48 <= digit_code && digit_code <= 57 {
                let d = (digit_code - 48) as usize;
                proof {
                    lemma_digit_run_end_bounds(s, self.pos() + 1);
                    lemma_digits_value_monotone(s, start as int, self.pos() + 1, run_end);
                }
                value = value * 10 + d;
                self.position = self.position + 1;
            } else {
                proof {
                    assert(digit_run_end(s, self.pos()) == self.pos());
                }
                break;
            }
        }
        Some(value)
    }
}


/// Clamp a position one back, stopping at zero: what `get_current` reports
/// inside the input.
pub open spec fn back_one(p: int) -> int {
    if p == 0 {
        0
    } else {
        p - 1
    }
}

/// The annotation that a name or keyword scan records for the characters in
/// `[i, e)`.
pub open spec fn scan_annotation(i: int, e: int, kind: annotation::Kind) -> Annotation {
    Annotation {
        start_index: back_one(i) as usize,
        end_index: back_one(e) as usize,
        kind,
        error: None,
        warning: None,
    }
}

/// The first index at or after `i` whose character ends the line.
pub open spec fn line_run_end(s: Seq<char>, i: int) -> int
    decreases s.len() - i when 0 <= i <= s.len()
{
    if i < s.len() && s[i] != '\n' {
        line_run_end(s, i + 1)
    } else {
        i
    }
}

pub proof fn lemma_line_run_end_bounds(s: Seq<char>, i: int)
    requires
        0 <= i <= s.len(),
    ensures
        i <= line_run_end(s, i) <= s.len(),
    decreases s.len() - i,
{
    if i < s.len() && s[i] != '\n' {
        lemma_line_run_end_bounds(s, i + 1);
    }
}

/// How a path scan ends: the segments collected and the position reached, or
/// the position where it gave up.
pub enum PathOutcome {
    Complete { end: int, parts: Seq<Seq<char>> },
    GaveUp { end: int },
}

/// The path grammar from position `i`: segments of identifier characters
/// separated by single slashes; a slash or a segment boundary with nothing
/// collected gives up.
pub open spec fn path_from(
    s: Seq<char>,
    i: int,
    current: Seq<char>,
    parts: Seq<Seq<char>>,
) -> PathOutcome
    decreases s.len() - i when 0 <= i <= s.len()
{
    if i < s.len() && s[i] == '/' {
        if current.len() > 0 {
            path_from(s, i + 1, Seq::empty(), parts.push(current))
        } else {
            PathOutcome::GaveUp { end: i + 1 }
        }
    } else if i < s.len() && ident_continue(s[i]) {
        path_from(s, i + 1, current.push(s[i]), parts)
    } else {
        if current.len() > 0 {
            PathOutcome::Complete { end: i, parts: parts.push(current) }
        } else {
            PathOutcome::GaveUp { end: i }
        }
    }
}

/// A path scan never moves backwards and stays inside the input.
pub proof fn lemma_path_from_bounds(s: Seq<char>, i: int, current: Seq<char>, parts: Seq<Seq<char>>)
    requires
        0 <= i <= s.len(),
    ensures
        match path_from(s, i, current, parts) {
            PathOutcome::Complete { end, .. } => i <= end <= s.len(),
            PathOutcome::GaveUp { end } => i <= end <= s.len(),
        },
    decreases s.len() - i,
{
    if i < s.len() && s[i] == '/' {
        if current.len() > 0 {
            lemma_path_from_bounds(s, i + 1, Seq::empty(), parts.push(current));
        }
    } else if i < s.len() && ident_continue(s[i]) {
        lemma_path_from_bounds(s, i + 1, current.push(s[i]), parts);
    }
}

/// The mathematical shape of a [`comment::TypeReference`].
pub struct ReferenceModel {
    pub start: int,
    pub end: int,
    pub parts: Seq<Seq<char>>,
}

/// The model of one recorded type reference.
pub open spec fn reference_model(r: comment::TypeReference) -> ReferenceModel {
    ReferenceModel {
        start: r.start as int,
        end: r.end as int,
        parts: r.parts@.map_values(|p: String| p@),
    }
}

/// How a comment-notation scan ends: every reference collected up to the end
/// of input, or the position where it gave up.
pub enum NotationOutcome {
    Complete { references: Seq<ReferenceModel> },
    GaveUp { end: int },
}

/// Put references collected earlier in front of a later outcome.
pub open spec fn notation_prepend(
    collected: Seq<ReferenceModel>,
    outcome: NotationOutcome,
) -> NotationOutcome {
    match outcome {
        NotationOutcome::Complete { references } => NotationOutcome::Complete {
            references: collected + references,
        },
        NotationOutcome::GaveUp { .. } => outcome,
    }
}

/// The comment-notation grammar from position `i`: while input remains, one
/// path closed by a bracket becomes a reference; a failed path, a missing
/// bracket, or a bracket at the very end of input gives up.
pub open spec fn notation_from(s: Seq<char>, i: int) -> NotationOutcome
    decreases s.len() - i when 0 <= i <= s.len() via notation_from_decreases
{
    if i >= s.len() {
        NotationOutcome::Complete { references: Seq::empty() }
    } else {
        match path_from(s, i, Seq::empty(), Seq::empty()) {
            PathOutcome::GaveUp { end } => NotationOutcome::GaveUp { end },
            PathOutcome::Complete { end, parts } => {
                if end < s.len() && s[end] == ']' {
                    if end + 1 < s.len() {
                        notation_prepend(
                            seq![
                                ReferenceModel {
                                    start: back_one(back_one(i)),
                                    end: back_one(end + 1),
                                    parts,
                                },
                            ],
                            notation_from(s, end + 1),
                        )
                    } else {
                        NotationOutcome::GaveUp { end: end + 1 }
                    }
                } else {
                    NotationOutcome::GaveUp { end }
                }
            },
        }
    }
}

#[via_fn]
proof fn notation_from_decreases(s: Seq<char>, i: int) {
    if 0 <= i < s.len() {
        lemma_path_from_bounds(s, i, Seq::empty(), Seq::empty());
    }
}

impl<'a> Parser<'a> {
    /// Scan a name: an identifier recorded as a variable annotation over the
    /// characters it covered.
    pub fn parse_name(&mut self) -> (r: Option<String>)
        requires
            old(self).wf(),
        ensures
            final(self).wf(),
            final(self).src() == old(self).src(),
            ({
                let s = old(self).src();
                let i = old(self).pos();
                let n = s.len() as int;
                if i < n && ident_continue(s[i]) {
                    let e = ident_run_end(s, i);
                    &&& final(self).pos() == e
                    &&& if e < n {
                        &&& r matches Some(text) && text@ == s.subrange(i, e)
                        &&& final(self).anns() == old(self).anns().push(
                            scan_annotation(i, e, annotation::Kind::Variable),
                        )
                    } else {
                        &&& r is None
                        &&& final(self).anns() == old(self).anns()
                    }
                } else {
                    &&& r is None
                    &&& final(self).pos() == i
                    &&& final(self).anns() == old(self).anns()
                }
            }),
    {
        let start = match self.get_current() {
            Some(v) => v,
            None => {
                return None;
            },
        };
        let ident = match self.parse_identifier() {
            Some(v) => v,
            None => {
                return None;
            },
        };
        let end = match self.get_current() {
            Some(v) => v,
            None => {
                return None;
            },
        };
        self.annotations.push(Annotation::from_kind(start, end, annotation::Kind::Variable));
        Some(ident)
    }

    /// Scan a keyword declaration: a keyword, blank filler, then a name, with
    /// a keyword annotation and a variable annotation recorded.
    pub fn parse_keyword_header(&mut self) -> (r: Option<Declaration>)
        requires
            old(self).wf(),
        ensures
            final(self).wf(),
            final(self).src() == old(self).src(),
            ({
                let s = old(self).src();
                let i = old(self).pos();
                let n = s.len() as int;
                if i < n && ident_continue(s[i]) {
                    let ke = ident_run_end(s, i);
                    if ke < n {
                        let np = blank_run_end(s, ke);
                        let kw_ann = scan_annotation(i, ke, annotation::Kind::Keyword);
                        if np < n && ident_continue(s[np]) {
                            let ne = ident_run_end(s, np);
                            &&& final(self).pos() == ne
                            &&& if ne < n {
                                &&& r matches Some(decl) && decl.keyword@ == s.subrange(i, ke)
                                    && decl.name@ == s.subrange(np, ne)
                                &&& final(self).anns() == old(self).anns().push(kw_ann).push(
                                    scan_annotation(np, ne, annotation::Kind::Variable),
                                )
                            } else {
                                &&& r is None
                                &&& final(self).anns() == old(self).anns().push(kw_ann)
                            }
                        } else {
                            &&& r is None
                            &&& final(self).pos() == np
                            &&& final(self).anns() == old(self).anns().push(kw_ann)
                        }
                    } else {
                        &&& r is None
                        &&& final(self).pos() == ke
                        &&& final(self).anns() == old(self).anns()
                    }
                } else {
                    &&& r is None
                    &&& final(self).pos() == i
                    &&& final(self).anns() == old(self).anns()
                }
            }),
    {
        let kw_start = match self.get_current() {
            Some(v) => v,
            None => {
                return None;
            },
        };
        let keyword = match self.parse_identifier() {
            Some(v) => v,
            None => {
                return None;
            },
        };
        let kw_end = match self.get_current() {
            Some(v) => v,
            None => {
                return None;
            },
        };
        self.annotations.push(Annotation::from_kind(kw_start, kw_end, annotation::Kind::Keyword));
        self.parse_empty();
        let name = match self.parse_name() {
            Some(v) => v,
            None => {
                return None;
            },
        };
        Some(Declaration { keyword, name })
    }

    /// Scan a boolean literal: an identifier that case-folds to the true or
    /// the false keyword.
    pub fn parse_bool(&mut self) -> (r: Option<bool>)
        requires
            old(self).wf(),
        ensures
            final(self).wf(),
            final(self).src() == old(self).src(),
            final(self).anns() == old(self).anns(),
            ({
                let s = old(self).src();
                let i = old(self).pos();
                let n = s.len() as int;
                if i < n && ident_continue(s[i]) {
                    let e = ident_run_end(s, i);
                    let low = lower_of(s.subrange(i, e));
                    &&& final(self).pos() == e
                    &&& if low == "true"@ {
                        r == Some(true)
                    } else if low == "false"@ {
                        r == Some(false)
                    } else {
                        r is None
                    }
                } else {
                    &&& r is None
                    &&& final(self).pos() == i
                }
            }),
    {
        let ident = match self.parse_identifier() {
            Some(v) => v,
            None => {
                return None;
            },
        };
        let lowered = lowercase(ident.as_str());
        if str_eq(lowered.as_str(), "true") {
            Some(true)
        } else if str_eq(lowered.as_str(), "false") {
            Some(false)
        } else {
            None
        }
    }

    /// Scan an operator: a symbol run looked up in the operator catalogue.
    pub fn parse_operator(&mut self) -> (r: Option<Operator>)
        requires
            old(self).wf(),
        ensures
            final(self).wf(),
            final(self).src() == old(self).src(),
            final(self).anns() == old(self).anns(),
            ({
                let s = old(self).src();
                let i = old(self).pos();
                let n = s.len() as int;
                if i < n && !ident_continue(s[i]) {
                    let e = symbol_run_end(s, i);
                    &&& final(self).pos() == e
                    &&& r == operator_of(s.subrange(i, e))
                } else {
                    &&& r is None
                    &&& final(self).pos() == i
                }
            }),
    {
        let symbol = match self.parse_symbol() {
            Some(v) => v,
            None => {
                return None;
            },
        };
        Operator::from_str(symbol.as_str())
    }

    /// Scan a line comment: two slashes and a space, then the text up to the
    /// end of the line.
    pub fn parse_line_comment(&mut self) -> (r: Option<String>)
        requires
            old(self).wf(),
        ensures
            final(self).wf(),
            final(self).src() == old(self).src(),
            final(self).anns() == old(self).anns(),
            ({
                let s = old(self).src();
                let i = old(self).pos();
                let n = s.len() as int;
                if i < n && s[i] == '/' {
                    if i + 1 < n && s[i + 1] == '/' {
                        if i + 2 < n && s[i + 2] == ' ' {
                            let e = line_run_end(s, i + 3);
                            &&& r matches Some(text) && text@ == s.subrange(i + 3, e)
                            &&& final(self).pos() == e
                        } else {
                            &&& r is None
                            &&& final(self).pos() == i + 2
                        }
                    } else {
                        &&& r is None
                        &&& final(self).pos() == i + 1
                    }
                } else {
                    &&& r is None
                    &&& final(self).pos() == i
                }
            }),
    {
        let ghost s = self.source@;
        if self.parse_char('/').is_none() {
            return None;
        }
        if self.parse_char('/').is_none() {
            return None;
        }
        if self.parse_char(' ').is_none() {
            return None;
        }
        let start = self.position;
        proof {
            lemma_line_run_end_bounds(s, start as int);
        }
        loop
            invariant
                self.wf(),
                self.source@ == s,
                self.length == s.len(),
                self.anns() == old(self).anns(),
                start <= self.position <= s.len(),
                line_run_end(s, start as int) == line_run_end(s, self.pos()),
            ensures
                self.wf(),
                self.source@ == s,
                self.length == s.len(),
                self.anns() == old(self).anns(),
                start <= self.position <= s.len(),
                self.pos() == line_run_end(s, start as int),
            decreases s.len() - self.pos(),
        {
            if self.position == self.length {
                break;
            }
            let c = self.source.get_char(self.position);
            if c != '\n' {
                self.position = self.position + 1;
                proof {
                    lemma_line_run_end_bounds(s, self.pos());
                }
            } else {
                break;
            }
        }
        let text = self.source.substring_char(start, self.position).to_owned();
        Some(text)
    }

    /// Scan a path: identifier segments separated by slashes.
    pub fn parse_path(&mut self) -> (r: Option<Vec<String>>)
        requires
            old(self).wf(),
        ensures
            final(self).wf(),
            final(self).src() == old(self).src(),
            final(self).anns() == old(self).anns(),
            match path_from(old(self).src(), old(self).pos(), Seq::empty(), Seq::empty()) {
                PathOutcome::Complete { end, parts } => {
                    &&& r matches Some(segments) && segments@.map_values(|p: String| p@) == parts
                    &&& final(self).pos() == end
                },
                PathOutcome::GaveUp { end } => r is None && final(self).pos() == end,
            },
    {
        let ghost s = self.source@;
        let ghost i0 = self.pos();
        let mut parts: Vec<String> = Vec::new();
        let mut current = String::new();
        proof {
            assert(parts@.map_values(|p: String| p@) =~= Seq::<Seq<char>>::empty());
        }
        loop
            invariant_except_break
                path_from(s, i0, Seq::empty(), Seq::empty()) == path_from(
                    s,
                    self.pos(),
                    current@,
                    parts@.map_values(|p: String| p@),
                ),
            invariant
                self.wf(),
                s == old(self).src(),
                i0 == old(self).pos(),
                self.source@ == s,
                self.length == s.len(),
                self.anns() == old(self).anns(),
                i0 <= self.pos() <= s.len(),
            ensures
                self.wf(),
                self.source@ == s,
                self.length == s.len(),
                self.anns() == old(self).anns(),
                path_from(s, i0, Seq::empty(), Seq::empty()) == (PathOutcome::Complete {
                    end: self.pos(),
                    parts: parts@.map_values(|p: String| p@),
                }),
            decreases s.len() - self.pos(),
        {
            let ghost parts_before = parts@.map_values(|p: String| p@);
            let ghost current_before = current@;
            if self.parse_char('/').is_some() {
                if !current.as_str().is_empty() {
                    parts.push(current);
                    current = String::new();
                    proof {
                        assert(parts@.map_values(|p: String| p@) =~= parts_before.push(
                            current_before,
                        ));
                    }
                } else {
                    return None;
                }
            } else {
                match self.parse_ident_char() {
                    Some(c) => {
                        crate::support::push_char(&mut current, c);
                    },
                    None => {
                        if current.as_str().is_empty() {
                            return None;
                        }
                        parts.push(current);
                        proof {
                            assert(parts@.map_values(|p: String| p@) =~= parts_before.push(
                                current_before,
                            ));
                        }
                        break;
                    },
                }
            }
        }
        Some(parts)
    }

    /// Scan a bracketed type reference inside a comment.
    pub fn parse_comment_reference(&mut self) -> (r: Option<comment::TypeReference>)
        requires
            old(self).wf(),
        ensures
            final(self).wf(),
            final(self).src() == old(self).src(),
            final(self).anns() == old(self).anns(),
            ({
                let s = old(self).src();
                let i = old(self).pos();
                let n = s.len() as int;
                if i < n && s[i] == '[' {
                    match path_from(s, i + 1, Seq::empty(), Seq::empty()) {
                        PathOutcome::Complete { end, parts } => {
                            let after: int = if end < n && s[end] == ']' {
                                end + 1
                            } else {
                                end
                            };
                            if after < n {
                                &&& r matches Some(reference) && reference_model(reference)
                                    == (ReferenceModel {
                                    start: back_one(i),
                                    end: back_one(after),
                                    parts,
                                })
                                &&& final(self).pos() == after
                            } else {
                                &&& r is None
                                &&& final(self).pos() == after
                            }
                        },
                        PathOutcome::GaveUp { end } => r is None && final(self).pos() == end,
                    }
                } else {
                    &&& r is None
                    &&& final(self).pos() == i
                }
            }),
    {
        let start = match self.get_current() {
            Some(v) => v,
            None => {
                return None;
            },
        };
        if self.parse_char('[').is_none() {
            return None;
        }
        let parts = match self.parse_path() {
            Some(v) => v,
            None => {
                return None;
            },
        };
        let _ = self.parse_char(']');
        let end = match self.get_current() {
            Some(v) => v,
            None => {
                return None;
            },
        };
        Some(comment::TypeReference { start, end, parts })
    }

    /// Scan the whole comment notation: every bracketed path reference to the
    /// end of the input. The accompanying text is left empty.
    pub fn parse_comment_notation(&mut self) -> (r: Option<(String, Vec<comment::TypeReference>)>)
        requires
            old(self).wf(),
        ensures
            final(self).wf(),
            final(self).src() == old(self).src(),
            final(self).anns() == old(self).anns(),
            match notation_from(old(self).src(), old(self).pos()) {
                NotationOutcome::Complete { references } => {
                    &&& r matches Some(pair) && pair.0@ == Seq::<char>::empty()
                        && pair.1@.map_values(|t: comment::TypeReference| reference_model(t))
                        == references
                    &&& final(self).pos() == final(self).src().len()
                },
                NotationOutcome::GaveUp { end } => r is None && final(self).pos() == end,
            },
    {
        let ghost s = self.source@;
        let ghost i0 = self.pos();
        let result = String::new();
        let mut references: Vec<comment::TypeReference> = Vec::new();
        loop
            invariant
                self.wf(),
                s == old(self).src(),
                i0 == old(self).pos(),
                self.source@ == s,
                self.length == s.len(),
                self.anns() == old(self).anns(),
                i0 <= self.pos() <= s.len(),
                result@ == Seq::<char>::empty(),
                notation_from(s, i0) == notation_prepend(
                    references@.map_values(|t: comment::TypeReference| reference_model(t)),
                    notation_from(s, self.pos()),
                ),
            ensures
                self.wf(),
                self.source@ == s,
                self.length == s.len(),
                self.anns() == old(self).anns(),
                self.pos() == s.len(),
                result@ == Seq::<char>::empty(),
                notation_from(s, i0) == (NotationOutcome::Complete {
                    references: references@.map_values(
                        |t: comment::TypeReference| reference_model(t),
                    ),
                }),
            decreases s.len() - self.pos(),
        {
            let ghost p = self.pos();
            let ghost collected = references@.map_values(
                |t: comment::TypeReference| reference_model(t),
            );
            if self.position == self.length {
                proof {
                    assert(notation_prepend(collected, notation_from(s, p)) == (
                    NotationOutcome::Complete { references: collected + Seq::empty() }));
                    assert(collected + Seq::<ReferenceModel>::empty() =~= collected);
                }
                break;
            }
            let start = match self.get_current() {
                Some(v) => v,
                None => {
                    return None;
                },
            };
            let start = if start == 0 {
                0
            } else {
                start - 1
            };
            let parts = match self.parse_path() {
                Some(v) => v,
                None => {
                    return None;
                },
            };
            if self.parse_char(']').is_none() {
                return None;
            }
            let end = match self.get_current() {
                Some(v) => v,
                None => {
                    return None;
                },
            };
            let reference = comment::TypeReference { start, end, parts };
            let ghost model = reference_model(reference);
            references.push(reference);
            proof {
                lemma_path_from_bounds(s, p, Seq::empty(), Seq::empty());
                assert(references@.map_values(|t: comment::TypeReference| reference_model(t))
                    =~= collected.push(model));
                lemma_notation_prepend_step(collected, model, notation_from(s, self.pos()));
            }
        }
        Some((result, references))
    }
}

/// Collecting one more reference commutes with prepending.
proof fn lemma_notation_prepend_step(
    collected: Seq<ReferenceModel>,
    next: ReferenceModel,
    outcome: NotationOutcome,
)
    ensures
        notation_prepend(collected.push(next), outcome) == notation_prepend(
            collected,
            notation_prepend(seq![next], outcome),
        ),
{
    match outcome {
        NotationOutcome::Complete { references } => {
            assert(collected.push(next) + references =~= collected + (seq![next] + references));
        },
        NotationOutcome::GaveUp { .. } => {},
    }
}

} // verus!
