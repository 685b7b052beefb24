//! Unquoted tokens.

use vstd::prelude::*;
use crate::charset::{run_end, scan, CharClass};
use crate::error::{fails_with, ParseError, ParseErrorKind};
use crate::parser::buffer::{decode, fail, tail_of, text_of};
use crate::tree::{RValue, ValueView};

verus! {

/// Splits off the token at the start of `input`, which runs up to the next
/// whitespace, and hands it back as an unquoted string, whatever it looks
/// like. Fails where `input` is empty or starts with whitespace.
pub fn parse_string(input: &str) -> (r: Result<(&str, RValue), ParseError>)
    ensures
        if run_end(input@, 0, CharClass::Token) > 0 {
            r matches Ok((rest, value)) && value@ == ValueView::Bare(
                input@.subrange(0, run_end(input@, 0, CharClass::Token)),
            ) && rest@ == input@.subrange(
                run_end(input@, 0, CharClass::Token),
                input@.len() as int,
            )
        } else {
            fails_with(r, ParseErrorKind::UnexpectedCharacter, 0)
        },
{
    let buf = decode(input);
    let e = scan(buf.as_slice(), 0, CharClass::Token);
    if e == 0 {
        fail(ParseErrorKind::UnexpectedCharacter, 0)
    } else {
        Ok((tail_of(input, e), RValue::S(text_of(buf.as_slice(), 0, e))))
    }
}

} // verus!
