//! Thin bridges to pieces of the standard library that the verifier has no
//! specification for: Unicode character classification, case folding, string
//! equality, and the UTF-8 byte accounting that token lengths rest on.

use vstd::prelude::*;

verus! {

/// Whether `char::is_alphanumeric` accepts the character. The result depends
/// on the character alone.
pub uninterp spec fn alnum(c: char) -> bool;

/// Relies on `char::is_alphanumeric`: a pure classification of one character.
#[verifier::external_body]
pub(crate) fn is_alnum_char(c: char) -> (r: bool)
    ensures
        r == alnum(c),
{
    c.is_alphanumeric()
}

/// Relies on `str::eq` (the `PartialEq` impl for `str`): two string slices
/// compare equal exactly when their character sequences are equal.
#[verifier::external_body]
pub(crate) fn str_eq(a: &str, b: &str) -> (r: bool)
    ensures
        r == (a@ == b@),
{
    a == b
}

/// Relies on `String::push`: appends exactly the one character.
#[verifier::external_body]
pub(crate) fn push_char(s: &mut String, c: char)
    ensures
        final(s)@ == old(s)@.push(c),
{
    s.push(c)
}

/// The number of bytes a character occupies in UTF-8, by the documented
/// code-point ranges.
pub open spec fn utf8_len(c: char) -> int {
    if (c as u32) < 0x80 {
        1
    } else if (c as u32) < 0x800 {
        2
    } else if (c as u32) < 0x10000 {
        3
    } else {
        4
    }
}

/// The UTF-8 byte length of a character sequence.
pub open spec fn seq_utf8_len(s: Seq<char>) -> int
    decreases s.len(),
{
    if s.len() == 0 {
        0
    } else {
        utf8_len(s[0]) + seq_utf8_len(s.skip(1))
    }
}

/// Executable counterpart of [`utf8_len`].
pub fn utf8_len_of(c: char) -> (r: usize)
    ensures
        r == utf8_len(c),
{
    let v = c as u32;
    if v < 0x80 {
        1
    } else if v < 0x800 {
        2
    } else if v < 0x10000 {
        3
    } else {
        4
    }
}

/// Relies on `str::len`: the byte length of a string slice, which UTF-8
/// defines as the sum of the encoded lengths of its characters.
#[verifier::external_body]
pub(crate) fn utf8_byte_len(s: &str) -> (r: usize)
    ensures
        r == seq_utf8_len(s@),
{
    s.len()
}

/// What `str::to_lowercase` returns for a given character sequence. The
/// result depends on the characters alone.
pub uninterp spec fn lower_of(s: Seq<char>) -> Seq<char>;

/// Relies on `str::to_lowercase`: Unicode case folding, a pure function of
/// the characters of the input.
#[verifier::external_body]
pub(crate) fn lowercase(s: &str) -> (r: String)
    ensures
        r@ == lower_of(s@),
{
    s.to_lowercase()
}

/// Every character takes at least one byte, so byte length dominates
/// character count.
pub proof fn lemma_seq_utf8_len_ge_len(s: Seq<char>)
    ensures
        seq_utf8_len(s) >= s.len(),
    decreases s.len(),
{
    if s.len() > 0 {
        lemma_seq_utf8_len_ge_len(s.skip(1));
    }
}

/// UTF-8 byte length distributes over concatenation.
pub proof fn lemma_seq_utf8_len_add(a: Seq<char>, b: Seq<char>)
    ensures
        seq_utf8_len(a + b) == seq_utf8_len(a) + seq_utf8_len(b),
    decreases a.len(),
{
    if a.len() == 0 {
        assert(a + b =~= b);
    } else {
        assert((a + b).skip(1) =~= a.skip(1) + b);
        lemma_seq_utf8_len_add(a.skip(1), b);
    }
}

} // verus!
