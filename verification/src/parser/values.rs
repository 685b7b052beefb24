//! Values and lists of values.

use vstd::prelude::*;
use vstd::slice::slice_subrange;
use crate::charset::{scan, CharClass};
use crate::error::{ErrorView, ParseError};
use crate::grammar::{value_at, value_list, values_from};
use crate::parser::buffer::{decode, tail_of, text_of};
use crate::parser::number::is_number;
use crate::parser::quoted_string::quoted_string_at;
use crate::tree::{values_view, RValue, ValueView};

verus! {

/// The value that the unquoted token `text` stands for, given whether the
/// token is a decimal literal.
pub fn classify_token(text: String, number: bool) -> (value: RValue)
    ensures
        value@ == if number {
            ValueView::Number(text@)
        } else {
            ValueView::Bare(text@)
        },
{
    if number {
        RValue::N(text)
    } else {
        RValue::S(text)
    }
}

/// Reads the value that starts at `i`, if one does: a quoted string, a
/// number or an unquoted string.
pub fn parse_value_at(buf: &[char], i: usize) -> (r: Result<Option<(RValue, usize)>, ParseError>)
    requires
        i <= buf.len(),
    ensures
        match r {
            Ok(Some((value, j))) => value_at(buf@, i as int) == Ok::<_, ErrorView>(
                Some((value@, j as int)),
            ) && i < j <= buf.len(),
            Ok(None) => value_at(buf@, i as int) == Ok::<Option<(ValueView, int)>, ErrorView>(
                None,
            ),
            Err(e) => value_at(buf@, i as int) == Err::<Option<(ValueView, int)>, _>(e@),
        },
{
    if i < buf.len() && buf[i] == '"' {
        match quoted_string_at(buf, i) {
            Ok((text, j)) => Ok(Some((RValue::QS(text), j))),
            Err(e) => Err(e),
        }
    } else {
        let j = scan(buf, i, CharClass::Token);
        if i < j {
            let number = is_number(slice_subrange(buf, i, j));
            Ok(Some((classify_token(text_of(buf, i, j), number), j)))
        } else {
            Ok(None)
        }
    }
}

/// Reads the list of values that starts at `i`: values with blanks between
/// them, as many as stand there.
pub fn parse_value_list_at(buf: &[char], i: usize) -> (r: Result<(Vec<RValue>, usize), ParseError>)
    requires
        i <= buf.len(),
    ensures
        match r {
            Ok((values, j)) => value_list(buf@, i as int) == Ok::<_, ErrorView>(
                (values_view(values@), j as int),
            ) && i <= j <= buf.len(),
            Err(e) => value_list(buf@, i as int) == Err::<(Seq<ValueView>, int), _>(e@),
        },
{
    let mut values: Vec<RValue> = Vec::new();
    let mut at: usize = i;
    let mut end: usize = i;
    assert(values_view(values@) =~= Seq::empty());
    loop
        invariant
            i <= end <= at <= buf.len(),
            value_list(buf@, i as int) == values_from(
                buf@,
                at as int,
                end as int,
                values_view(values@),
            ),
        decreases buf.len() - at,
    {
        match parse_value_at(buf, at) {
            Err(e) => {
                return Err(e);
            },
            Ok(None) => {
                return Ok((values, end));
            },
            Ok(Some((value, j))) => {
                let ghost before = values_view(values@);
                values.push(value);
                assert(values_view(values@) =~= before.push(value@));
                let k = scan(buf, j, CharClass::Space);
                if j < k {
                    end = j;
                    at = k;
                } else {
                    return Ok((values, j));
                }
            },
        }
    }
}

/// Splits off the list of values at the start of `input`: the rest, which
/// starts right behind the last value, and the values. The list is empty
/// where no value starts `input`. Fails where a quoted string in the list is
/// malformed.
pub fn parse_value_list(input: &str) -> (r: Result<(&str, Vec<RValue>), ParseError>)
    ensures
        match value_list(input@, 0) {
            Ok((values, j)) => r matches Ok((rest, found)) && values_view(found@) == values
                && rest@ == input@.subrange(j, input@.len() as int),
            Err(e) => r matches Err(err) && err@ == e,
        },
{
    let buf = decode(input);
    match parse_value_list_at(buf.as_slice(), 0) {
        Ok((values, j)) => Ok((tail_of(input, j), values)),
        Err(e) => Err(e),
    }
}

} // verus!
