//! Decimal literals.

use vstd::prelude::*;
use crate::charset::{scan, CharClass};
use crate::error::{fails_with, ParseError, ParseErrorKind};
use crate::grammar::{float_end, is_float_literal};
use crate::parser::buffer::{decode, fail, tail_of, text_of};
use crate::tree::{RValue, ValueView};

verus! {

/// Finds the end of the decimal literal that starts at `i`, if one does.
pub fn float_end_at(buf: &[char], i: usize) -> (r: Option<usize>)
    requires
        i <= buf.len(),
    ensures
        r matches Some(e) ==> float_end(buf@, i as int) == Some(e as int) && i < e <= buf.len(),
        r is None ==> float_end(buf@, i as int) is None,
{
    let n = buf.len();
    let a = if i < n && (buf[i] == '+' || buf[i] == '-') {
        i + 1
    } else {
        i
    };
    let b = scan(buf, a, CharClass::Digit);
    let point = b < n && buf[b] == '.';
    let c = if point {
        scan(buf, b + 1, CharClass::Digit)
    } else {
        b
    };
    if b == a && !(point && c > b + 1) {
        None
    } else if c < n && (buf[c] == 'e' || buf[c] == 'E') {
        let d = if c + 1 < n && (buf[c + 1] == '+' || buf[c + 1] == '-') {
            c + 2
        } else {
            c + 1
        };
        let e = scan(buf, d, CharClass::Digit);
        if e > d {
            Some(e)
        } else {
            None
        }
    } else {
        Some(c)
    }
}

/// Tests whether the whole of `token` is one decimal literal.
pub fn is_number(token: &[char]) -> (b: bool)
    ensures
        b == is_float_literal(token@),
{
    match float_end_at(token, 0) {
        Some(e) => e == token.len(),
        None => false,
    }
}

/// Splits off the decimal literal at the start of `input`, the longest that
/// starts there, and hands it back as a number. Fails where no literal
/// starts `input`.
pub fn parse_number(input: &str) -> (r: Result<(&str, RValue), ParseError>)
    ensures
        match float_end(input@, 0) {
            Some(e) => r matches Ok((rest, value)) && value@ == ValueView::Number(
                input@.subrange(0, e),
            ) && rest@ == input@.subrange(e, input@.len() as int),
            None => fails_with(r, ParseErrorKind::UnexpectedCharacter, 0),
        },
{
    let buf = decode(input);
    match float_end_at(buf.as_slice(), 0) {
        Some(e) => Ok((tail_of(input, e), RValue::N(text_of(buf.as_slice(), 0, e)))),
        None => fail(ParseErrorKind::UnexpectedCharacter, 0),
    }
}

} // verus!
