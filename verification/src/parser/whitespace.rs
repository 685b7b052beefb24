//! Blanks inside a line, and the end of a line.

use vstd::prelude::*;
use crate::charset::{run_end, scan, CharClass};
use crate::error::{fails_with, ParseError, ParseErrorKind};
use crate::grammar::{line_end, rest_of_line};
use crate::parser::buffer::{decode, fail, head_of, splits_at, tail_of};

verus! {

/// Finds the position after the line ending that stands at `i`.
pub fn line_ending_at(buf: &[char], i: usize) -> (r: Option<usize>)
    requires
        i <= buf.len(),
    ensures
        r matches Some(k) ==> line_end(buf@, i as int) == Some(k as int) && i < k <= buf.len(),
        r is None ==> line_end(buf@, i as int) is None,
{
    if i < buf.len() && buf[i] == '\n' {
        Some(i + 1)
    } else if i < buf.len() && i + 1 < buf.len() && buf[i] == '\r' && buf[i + 1] == '\n' {
        Some(i + 2)
    } else {
        None
    }
}

/// Finds the start of the next line, where only blanks stand between `i` and
/// the line ending.
pub fn rest_of_line_at(buf: &[char], i: usize) -> (r: Option<usize>)
    requires
        i <= buf.len(),
    ensures
        r matches Some(k) ==> rest_of_line(buf@, i as int) == Some(k as int) && i < k <= buf.len(),
        r is None ==> rest_of_line(buf@, i as int) is None,
{
    let e = scan(buf, i, CharClass::Space);
    line_ending_at(buf, e)
}

/// Splits off the blanks (spaces and tabs) at the start of `input`, of which
/// there may be none: the rest, and the blanks.
pub fn multispace_no_newline_0(input: &str) -> (r: Result<(&str, &str), ParseError>)
    ensures
        r matches Ok((rest, blanks)) && splits_at(
            input@,
            run_end(input@, 0, CharClass::Space),
            blanks@,
            rest@,
        ),
{
    let buf = decode(input);
    let e = scan(buf.as_slice(), 0, CharClass::Space);
    Ok((tail_of(input, e), head_of(input, e)))
}

/// Splits off the blanks (spaces and tabs) at the start of `input`, and fails
/// where `input` starts with none.
pub fn multispace_no_newline_1(input: &str) -> (r: Result<(&str, &str), ParseError>)
    ensures
        if run_end(input@, 0, CharClass::Space) > 0 {
            r matches Ok((rest, blanks)) && splits_at(
                input@,
                run_end(input@, 0, CharClass::Space),
                blanks@,
                rest@,
            )
        } else {
            fails_with(r, ParseErrorKind::UnexpectedCharacter, 0)
        },
{
    let buf = decode(input);
    let e = scan(buf.as_slice(), 0, CharClass::Space);
    if e == 0 {
        fail(ParseErrorKind::UnexpectedCharacter, 0)
    } else {
        Ok((tail_of(input, e), head_of(input, e)))
    }
}

/// Splits off the blanks at the start of `input` and the line ending behind
/// them: what follows the line ending, and the blanks. Fails where something
/// else stands before the line ending, at the position of that.
pub fn whitespace_line_ending(input: &str) -> (r: Result<(&str, &str), ParseError>)
    ensures
        match rest_of_line(input@, 0) {
            Some(k) => r matches Ok((rest, blanks)) && blanks@ == input@.subrange(
                0,
                run_end(input@, 0, CharClass::Space),
            ) && rest@ == input@.subrange(k, input@.len() as int),
            None => fails_with(
                r,
                ParseErrorKind::UnexpectedCharacter,
                run_end(input@, 0, CharClass::Space),
            ),
        },
{
    let buf = decode(input);
    let e = scan(buf.as_slice(), 0, CharClass::Space);
    match line_ending_at(buf.as_slice(), e) {
        Some(k) => Ok((tail_of(input, k), head_of(input, e))),
        None => fail(ParseErrorKind::UnexpectedCharacter, e),
    }
}

} // verus!
