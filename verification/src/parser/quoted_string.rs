//! Quoted strings and their escapes.

use vstd::prelude::*;
use crate::error::{ErrorView, ParseError, ParseErrorKind};
use crate::grammar::{quoted_at, quoted_tail, unescape};
use crate::parser::buffer::{decode, fail, tail_of};
use crate::tree::{RValue, ValueView};

verus! {

/// The character that a backslash and `c` stand for.
pub fn unescaped(c: char) -> (r: Option<char>)
    ensures
        r == unescape(c),
{
    if c == '\\' {
        Some('\\')
    } else if c == '"' {
        Some('"')
    } else if c == 'n' {
        Some('\n')
    } else if c == 't' {
        Some('\t')
    } else {
        None
    }
}

/// Reads the quoted string that starts at `i`: its text with the escapes
/// resolved, and the position after the closing quote.
pub fn quoted_string_at(buf: &[char], i: usize) -> (r: Result<(String, usize), ParseError>)
    requires
        i <= buf.len(),
    ensures
        match r {
            Ok((text, j)) => quoted_at(buf@, i as int) == Ok::<_, ErrorView>((text@, j as int))
                && i < j <= buf.len(),
            Err(e) => quoted_at(buf@, i as int) == Err::<(Seq<char>, int), _>(e@),
        },
{
    let n = buf.len();
    if !(i < n && buf[i] == '"') {
        return fail(ParseErrorKind::UnexpectedCharacter, i);
    }
    let mut text = String::new();
    let mut j: usize = i + 1;
    loop
        invariant
            n == buf.len(),
            i < j <= n,
            buf@[i as int] == '"',
            quoted_at(buf@, i as int) == quoted_tail(buf@, i as int, j as int, text@),
        decreases n - j,
    {
        if j >= n {
            return fail(ParseErrorKind::UnterminatedQuotedString, i);
        }
        let c = buf[j];
        if c == '"' {
            return Ok((text, j + 1));
        } else if c == '\\' {
            if j + 1 >= n {
                return fail(ParseErrorKind::UnterminatedQuotedString, i);
            }
            match unescaped(buf[j + 1]) {
                Some(d) => {
                    text.push(d);
                    j += 2;
                },
                None => {
                    return fail(ParseErrorKind::UnexpectedCharacter, j + 1);
                },
            }
        } else {
            text.push(c);
            j += 1;
        }
    }
}

/// Splits off the quoted string at the start of `input` and hands back its
/// text, with the escapes `\\`, `\"`, `\n` and `\t` resolved. Fails where
/// `input` does not start with a double quote, where a backslash stands
/// before another character than these four, and where the text ends before
/// the closing quote.
pub fn parse_quoted_string(input: &str) -> (r: Result<(&str, RValue), ParseError>)
    ensures
        match quoted_at(input@, 0) {
            Ok((text, j)) => r matches Ok((rest, value)) && value@ == ValueView::Quoted(text)
                && rest@ == input@.subrange(j, input@.len() as int),
            Err(e) => r matches Err(err) && err@ == e,
        },
{
    let buf = decode(input);
    match quoted_string_at(buf.as_slice(), 0) {
        Ok((text, j)) => Ok((tail_of(input, j), RValue::QS(text))),
        Err(e) => Err(e),
    }
}

} // verus!
