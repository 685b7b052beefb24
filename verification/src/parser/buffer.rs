//! Moving between string slices and buffers of characters.

use vstd::prelude::*;
use crate::error::{ParseError, ParseErrorKind};

verus! {

/// `std::string::String::push` appends one character to the text.
pub assume_specification[ String::push ](s: &mut String, c: char)
    ensures
        final(s)@ == old(s)@.push(c),
;

/// Whether `head` and `tail` are the parts of `s` before and from `j`.
pub open spec fn splits_at(s: Seq<char>, j: int, head: Seq<char>, tail: Seq<char>) -> bool {
    head == s.subrange(0, j) && tail == s.subrange(j, s.len() as int)
}

/// The characters of a string slice, in a buffer.
pub fn decode(input: &str) -> (buf: Vec<char>)
    ensures
        buf@ == input@,
{
    let mut buf: Vec<char> = Vec::new();
    for c in it: input.chars()
        invariant
            buf@ == it.seq().take(it.index()),
    {
        buf.push(c);
    }
    buf
}

/// The characters of `buf` from `i` up to `j`, as a string.
pub fn text_of(buf: &[char], i: usize, j: usize) -> (text: String)
    requires
        i <= j <= buf.len(),
    ensures
        text@ == buf@.subrange(i as int, j as int),
{
    let mut text = String::new();
    let mut k: usize = i;
    while k < j
        invariant
            i <= k <= j <= buf.len(),
            text@ == buf@.subrange(i as int, k as int),
        decreases j - k,
    {
        text.push(buf[k]);
        k += 1;
    }
    text
}

/// The part of `input` before the character position `j`.
pub fn head_of<'a>(input: &'a str, j: usize) -> (head: &'a str)
    requires
        j <= input@.len(),
    ensures
        head@ == input@.subrange(0, j as int),
{
    input.substring_char(0, j)
}

/// The part of `input` from the character position `j` on.
pub fn tail_of<'a>(input: &'a str, j: usize) -> (tail: &'a str)
    requires
        j <= input@.len(),
    ensures
        tail@ == input@.subrange(j as int, input@.len() as int),
{
    input.substring_char(j, input.unicode_len())
}

/// The failure of the given kind at the given position.
pub fn fail<T>(kind: ParseErrorKind, position: usize) -> (r: Result<T, ParseError>)
    ensures
        r matches Err(e) && e.kind == kind && e.position == position,
{
    Err(ParseError { kind, position })
}

} // verus!
