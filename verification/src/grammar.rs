//! The grammar of the format, as functions on a text and a position in it.
//!
//! Every function reads the text `s` from a position `i` and says what stands
//! there and where it ends. Nothing here is executable: the parsers are
//! proved to compute these functions.

use vstd::prelude::*;
use crate::charset::{lemma_run_end, run_end, CharClass};
use crate::error::{ErrorView, ParseErrorKind};
use crate::tree::{ElementView, FragmentView, ValueView};

verus! {

/// A failure of the given kind at the given position.
pub open spec fn failure<T>(kind: ParseErrorKind, position: int) -> Result<T, ErrorView> {
    Err(ErrorView { kind, position })
}

/// The character that a backslash and `c` stand for inside quotes.
pub open spec fn unescape(c: char) -> Option<char> {
    if c == '\\' {
        Some('\\')
    } else if c == '"' {
        Some('"')
    } else if c == 'n' {
        Some('\n')
    } else if c == 't' {
        Some('\t')
    } else {
        None
    }
}

/// The rest of a quoted string whose quote was opened at `open`, read from
/// `i`, where `text` is what was read of it so far: the whole text and the
/// position after the closing quote.
pub open spec fn quoted_tail(s: Seq<char>, open: int, i: int, text: Seq<char>) -> Result<
    (Seq<char>, int),
    ErrorView,
>
    decreases s.len() - i,
{
    if i < 0 || i >= s.len() {
        failure(ParseErrorKind::UnterminatedQuotedString, open)
    } else if s[i] == '"' {
        Ok((text, i + 1))
    } else if s[i] == '\\' {
        if i + 1 >= s.len() {
            failure(ParseErrorKind::UnterminatedQuotedString, open)
        } else {
            match unescape(s[i + 1]) {
                Some(c) => quoted_tail(s, open, i + 2, text.push(c)),
                None => failure(ParseErrorKind::UnexpectedCharacter, i + 1),
            }
        }
    } else {
        quoted_tail(s, open, i + 1, text.push(s[i]))
    }
}

/// The quoted string that starts at `i`: its text with the escapes resolved,
/// and the position after the closing quote.
pub open spec fn quoted_at(s: Seq<char>, i: int) -> Result<(Seq<char>, int), ErrorView> {
    if 0 <= i < s.len() && s[i] == '"' {
        quoted_tail(s, i, i + 1, Seq::empty())
    } else {
        failure(ParseErrorKind::UnexpectedCharacter, i)
    }
}

/// A quoted string ends behind the position it is read from, inside the text.
pub proof fn lemma_quoted_tail_end(s: Seq<char>, open: int, i: int, text: Seq<char>)
    requires
        0 <= i,
    ensures
        quoted_tail(s, open, i, text) matches Ok((_, j)) ==> i < j <= s.len(),
    decreases s.len() - i,
{
    if i < s.len() && s[i] != '"' {
        if s[i] == '\\' {
            if i + 1 < s.len() && unescape(s[i + 1]) is Some {
                lemma_quoted_tail_end(s, open, i + 2, text.push(unescape(s[i + 1])->0));
            }
        } else {
            lemma_quoted_tail_end(s, open, i + 1, text.push(s[i]));
        }
    }
}

/// 1 where a sign stands at `i`, else 0.
pub open spec fn sign_len(s: Seq<char>, i: int) -> int {
    if 0 <= i < s.len() && (s[i] == '+' || s[i] == '-') {
        1
    } else {
        0
    }
}

/// The end of the decimal literal that starts at `i`, if one starts there:
/// an optional sign; digits, optionally followed by a point and more digits,
/// or a point followed by digits; and optionally an exponent, which is `e` or
/// `E`, an optional sign and digits. An exponent mark without digits after it
/// spoils the literal.
pub open spec fn float_end(s: Seq<char>, i: int) -> Option<int> {
    let a = i + sign_len(s, i);
    let b = run_end(s, a, CharClass::Digit);
    let point = 0 <= b < s.len() && s[b] == '.';
    let c = if point {
        run_end(s, b + 1, CharClass::Digit)
    } else {
        b
    };
    if b == a && !(point && c > b + 1) {
        None
    } else if 0 <= c < s.len() && (s[c] == 'e' || s[c] == 'E') {
        let d = c + 1 + sign_len(s, c + 1);
        let e = run_end(s, d, CharClass::Digit);
        if e > d {
            Some(e)
        } else {
            None
        }
    } else {
        Some(c)
    }
}

/// Whether the whole of `t` is one decimal literal.
pub open spec fn is_float_literal(t: Seq<char>) -> bool {
    float_end(t, 0) == Some(t.len() as int)
}

/// The value that the unquoted token `t` stands for: a number where the
/// whole token is a decimal literal, else bare text.
pub open spec fn classify(t: Seq<char>) -> ValueView {
    if is_float_literal(t) {
        ValueView::Number(t)
    } else {
        ValueView::Bare(t)
    }
}

/// The value that starts at `i` and the position after it; `None` where no
/// value starts at `i`. A double quote opens a quoted string, which must then
/// be well formed; anything else is a token that runs up to the next
/// whitespace.
pub open spec fn value_at(s: Seq<char>, i: int) -> Result<Option<(ValueView, int)>, ErrorView> {
    if 0 <= i < s.len() && s[i] == '"' {
        match quoted_at(s, i) {
            Ok((text, j)) => Ok(Some((ValueView::Quoted(text), j))),
            Err(e) => Err(e),
        }
    } else {
        let j = run_end(s, i, CharClass::Token);
        if i < j {
            Ok(Some((classify(s.subrange(i, j)), j)))
        } else {
            Ok(None)
        }
    }
}

/// A value starts inside the text, is not empty, and ends inside the text.
pub proof fn lemma_value_at_end(s: Seq<char>, i: int)
    ensures
        value_at(s, i) matches Ok(Some((_, j))) ==> 0 <= i < j <= s.len(),
{
    if 0 <= i < s.len() {
        lemma_quoted_tail_end(s, i, i + 1, Seq::empty());
        lemma_run_end(s, i, CharClass::Token);
    }
}

/// The values from `i` on, after the values `found` that end at `end`: a
/// value, then blanks and a value, as often as that goes on. The list ends
/// behind its last value.
pub open spec fn values_from(s: Seq<char>, i: int, end: int, found: Seq<ValueView>) -> Result<
    (Seq<ValueView>, int),
    ErrorView,
>
    decreases s.len() - i,
{
    match value_at(s, i) {
        Err(e) => Err(e),
        Ok(None) => Ok((found, end)),
        Ok(Some((v, j))) => {
            let k = run_end(s, j, CharClass::Space);
            if j < k {
                proof {
                    lemma_value_at_end(s, i);
                    lemma_run_end(s, j, CharClass::Space);
                }
                values_from(s, k, j, found.push(v))
            } else {
                Ok((found.push(v), j))
            }
        },
    }
}

/// A list of values ends at or behind `end`, inside the text, and holds the
/// values that were found before.
pub proof fn lemma_values_from_end(s: Seq<char>, i: int, end: int, found: Seq<ValueView>)
    requires
        0 <= end <= i <= s.len(),
    ensures
        values_from(s, i, end, found) matches Ok((values, j)) ==> end <= j <= s.len()
            && found.len() <= values.len(),
    decreases s.len() - i,
{
    lemma_value_at_end(s, i);
    if let Ok(Some((v, j))) = value_at(s, i) {
        lemma_run_end(s, j, CharClass::Space);
        let k = run_end(s, j, CharClass::Space);
        if j < k {
            lemma_values_from_end(s, k, j, found.push(v));
        }
    }
}

/// The list of values that starts at `i`, which may be empty, and the
/// position after it.
pub open spec fn value_list(s: Seq<char>, i: int) -> Result<(Seq<ValueView>, int), ErrorView> {
    values_from(s, i, i, Seq::empty())
}

/// The position after the line ending that stands at `i`, if one does: a
/// line feed, or a carriage return and a line feed.
pub open spec fn line_end(s: Seq<char>, i: int) -> Option<int> {
    if 0 <= i < s.len() && s[i] == '\n' {
        Some(i + 1)
    } else if 0 <= i && i + 1 < s.len() && s[i] == '\r' && s[i + 1] == '\n' {
        Some(i + 2)
    } else {
        None
    }
}

/// The position after the blanks and the line ending that stand at `i`, if
/// nothing else stands before the line ending.
pub open spec fn rest_of_line(s: Seq<char>, i: int) -> Option<int> {
    line_end(s, run_end(s, i, CharClass::Space))
}

/// The line that opens an element, from behind its `<` at `i`: the tag, the
/// arguments, and the start of the next line, where the body starts.
pub open spec fn opening_at(s: Seq<char>, i: int) -> Result<
    (Seq<char>, Seq<ValueView>, int),
    ErrorView,
> {
    let t = run_end(s, i, CharClass::Ident);
    if t <= i {
        failure(ParseErrorKind::EmptyIdentifier, i)
    } else {
        match value_list(s, run_end(s, t, CharClass::Space)) {
            Err(e) => Err(e),
            Ok((args, j)) => match rest_of_line(s, j) {
                None => failure(
                    ParseErrorKind::UnexpectedCharacter,
                    run_end(s, j, CharClass::Space),
                ),
                Some(k) => Ok((s.subrange(i, t), args, k)),
            },
        }
    }
}

/// The line that opens an element ends behind its start, inside the text.
pub proof fn lemma_opening_at_end(s: Seq<char>, i: int)
    ensures
        opening_at(s, i) matches Ok((_, _, k)) ==> 0 <= i < k <= s.len(),
{
    let t = run_end(s, i, CharClass::Ident);
    if i < t {
        lemma_run_end(s, i, CharClass::Ident);
        lemma_run_end(s, t, CharClass::Space);
        let a = run_end(s, t, CharClass::Space);
        lemma_values_from_end(s, a, a, Seq::empty());
        if let Ok((_, j)) = value_list(s, a) {
            lemma_run_end(s, j, CharClass::Space);
        }
    }
}

/// The attribute that starts at `i`, if one does: a name, at least one
/// blank, and a list of values.
pub open spec fn attribute_at(s: Seq<char>, i: int) -> Result<
    Option<(FragmentView, int)>,
    ErrorView,
> {
    let n = run_end(s, i, CharClass::Ident);
    let v = run_end(s, n, CharClass::Space);
    if i < n < v {
        match value_list(s, v) {
            Ok((values, j)) => Ok(Some((FragmentView::Attribute(s.subrange(i, n), values), j))),
            Err(e) => Err(e),
        }
    } else {
        Ok(None)
    }
}

/// What a line holds from `i` on, where `i` is behind the line's leading
/// blanks, and where that ends: a child element where `<` stands; else an
/// attribute; else a run of base64 characters; else nothing.
pub open spec fn line_content(s: Seq<char>, i: int) -> Result<(FragmentView, int), ErrorView>
    decreases s.len() - i, 1int,
{
    if 0 <= i < s.len() && s[i] == '<' {
        match element_at(s, i) {
            Ok((child, j)) => Ok((FragmentView::Child(child), j)),
            Err(e) => Err(e),
        }
    } else {
        match attribute_at(s, i) {
            Err(e) => Err(e),
            Ok(Some(found)) => Ok(found),
            Ok(None) => {
                let b = run_end(s, i, CharClass::Base64);
                if i < b {
                    Ok((FragmentView::BinData(s.subrange(i, b)), b))
                } else {
                    Ok((FragmentView::Empty, i))
                }
            },
        }
    }
}

/// The fragment on the line that starts at `i`, and the start of the next
/// line. `None` where the line does not end behind what it holds: then no
/// fragment stands here, and the body that was being read is over.
pub open spec fn fragment_at(s: Seq<char>, i: int) -> Result<Option<(FragmentView, int)>, ErrorView>
    decreases s.len() - i, 2int,
{
    let start = run_end(s, i, CharClass::Space);
    proof {
        if 0 <= i <= s.len() {
            lemma_run_end(s, i, CharClass::Space);
        }
    }
    match line_content(s, start) {
        Err(e) => Err(e),
        Ok((fragment, j)) => match rest_of_line(s, j) {
            Some(k) => Ok(Some((fragment, k))),
            None => Ok(None),
        },
    }
}

/// The fragments from `i` on, after the fragments `found`: one per line, for
/// as long as a fragment stands there. The body ends where the first line
/// starts that holds none.
pub open spec fn fragments_from(s: Seq<char>, i: int, found: Seq<FragmentView>) -> Result<
    (Seq<FragmentView>, int),
    ErrorView,
>
    decreases s.len() - i, 3int,
{
    match fragment_at(s, i) {
        Err(e) => Err(e),
        Ok(None) => Ok((found, i)),
        Ok(Some((fragment, k))) => if i < k <= s.len() {
            fragments_from(s, k, found.push(fragment))
        } else {
            Ok((found, i))
        },
    }
}

/// The element whose `<` stands just before `i`, up to the end of its body:
/// the opening line, and the fragments of the body.
pub open spec fn element_body_at(s: Seq<char>, i: int) -> Result<(ElementView, int), ErrorView>
    decreases s.len() - i, 4int,
{
    match opening_at(s, i) {
        Err(e) => Err(e),
        Ok((tag, args, k)) => {
            proof {
                lemma_opening_at_end(s, i);
            }
            match fragments_from(s, k, Seq::empty()) {
                Err(e) => Err(e),
                Ok((content, m)) => Ok((ElementView { tag, args, content }, m)),
            }
        },
    }
}

/// The element that starts at `i` and the position after its closing `>`:
/// `<`, then the element up to the end of its body, then `>` after any
/// blanks and line endings.
pub open spec fn element_at(s: Seq<char>, i: int) -> Result<(ElementView, int), ErrorView>
    decreases s.len() - i, 0int,
{
    if 0 <= i < s.len() && s[i] == '<' {
        match element_body_at(s, i + 1) {
            Err(e) => Err(e),
            Ok((element, m)) => {
                let c = run_end(s, m, CharClass::Blank);
                if 0 <= c < s.len() && s[c] == '>' {
                    Ok((element, c + 1))
                } else {
                    failure(ParseErrorKind::UnterminatedElement, c)
                }
            },
        }
    } else {
        failure(ParseErrorKind::UnexpectedCharacter, i)
    }
}

} // verus!
