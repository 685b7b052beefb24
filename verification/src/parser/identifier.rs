//! Names of elements and of attributes.

use vstd::prelude::*;
use crate::charset::{run_end, scan, CharClass};
use crate::error::{fails_with, ParseError, ParseErrorKind};
use crate::parser::buffer::{decode, fail, head_of, splits_at, tail_of};

verus! {

/// Splits off the name at the start of `input`, the longest run of letters,
/// digits and underscores: the rest, and the name. Fails where `input` starts
/// with none of these.
pub fn parse_identifier(input: &str) -> (r: Result<(&str, &str), ParseError>)
    ensures
        if run_end(input@, 0, CharClass::Ident) > 0 {
            r matches Ok((rest, name)) && splits_at(
                input@,
                run_end(input@, 0, CharClass::Ident),
                name@,
                rest@,
            )
        } else {
            fails_with(r, ParseErrorKind::EmptyIdentifier, 0)
        },
{
    let buf = decode(input);
    let e = scan(buf.as_slice(), 0, CharClass::Ident);
    if e == 0 {
        fail(ParseErrorKind::EmptyIdentifier, 0)
    } else {
        Ok((tail_of(input, e), head_of(input, e)))
    }
}

} // verus!
