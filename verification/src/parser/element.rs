//! Fragments and elements.

use vstd::prelude::*;
use crate::charset::{run_end, scan, CharClass};
use crate::error::{ErrorView, ParseError, ParseErrorKind};
use crate::grammar::{attribute_at, element_at, element_body_at, fragment_at, fragments_from};
use crate::parser::buffer::{decode, fail, head_of, splits_at, tail_of, text_of};
use crate::parser::values::parse_value_list_at;
use crate::parser::whitespace::rest_of_line_at;
use crate::tree::{
    fragments_view, lemma_content_view, ElementView, FragmentView, RElement, RFragment,
};
use crate::wellformed::{element_wf, lemma_element_at_wf};

verus! {

/// Reads the attribute that starts at `i`, if one does: a name, at least one
/// blank, and the values.
pub fn parse_attribute_at(buf: &[char], i: usize) -> (r: Result<
    Option<(RFragment, usize)>,
    ParseError,
>)
    requires
        i <= buf.len(),
    ensures
        match r {
            Ok(Some((fragment, j))) => attribute_at(buf@, i as int) == Ok::<_, ErrorView>(
                Some((fragment@, j as int)),
            ) && i < j <= buf.len(),
            Ok(None) => attribute_at(buf@, i as int) == Ok::<
                Option<(FragmentView, int)>,
                ErrorView,
            >(None),
            Err(e) => attribute_at(buf@, i as int) == Err::<Option<(FragmentView, int)>, _>(e@),
        },
{
    let n = scan(buf, i, CharClass::Ident);
    let v = scan(buf, n, CharClass::Space);
    if i < n && n < v {
        match parse_value_list_at(buf, v) {
            Ok((values, j)) => Ok(Some((RFragment::Attribute(text_of(buf, i, n), values), j))),
            Err(e) => Err(e),
        }
    } else {
        Ok(None)
    }
}

/// Splits off the run of base64 characters at the start of `input`, which
/// may be empty: the rest, and the run.
pub fn parse_bin_data_body(input: &str) -> (r: Result<(&str, &str), ParseError>)
    ensures
        r matches Ok((rest, data)) && splits_at(
            input@,
            run_end(input@, 0, CharClass::Base64),
            data@,
            rest@,
        ),
{
    let buf = decode(input);
    let e = scan(buf.as_slice(), 0, CharClass::Base64);
    Ok((tail_of(input, e), head_of(input, e)))
}

/// Reads the run of base64 characters that starts at `i`, if one does.
pub fn parse_bin_data_at(buf: &[char], i: usize) -> (r: Option<(RFragment, usize)>)
    requires
        i <= buf.len(),
    ensures
        match r {
            Some((fragment, j)) => i < j <= buf.len() && j == run_end(
                buf@,
                i as int,
                CharClass::Base64,
            ) && fragment@ == FragmentView::BinData(buf@.subrange(i as int, j as int)),
            None => run_end(buf@, i as int, CharClass::Base64) <= i,
        },
{
    let b = scan(buf, i, CharClass::Base64);
    if i < b {
        Some((RFragment::BinData(text_of(buf, i, b)), b))
    } else {
        None
    }
}

/// Reads the element that starts at `i`, as a child of the element whose
/// body is being read.
pub fn parse_child_element_at(buf: &[char], i: usize) -> (r: Result<(RFragment, usize), ParseError>)
    requires
        i <= buf.len(),
    ensures
        match r {
            Ok((fragment, j)) => fragment@ matches FragmentView::Child(child) && element_at(
                buf@,
                i as int,
            ) == Ok::<_, ErrorView>((child, j as int)) && i < j <= buf.len(),
            Err(e) => element_at(buf@, i as int) == Err::<(ElementView, int), _>(e@),
        },
    decreases buf.len() - i, 1int,
{
    match parse_element_at(buf, i) {
        Ok((child, j)) => Ok((RFragment::Child(child), j)),
        Err(e) => Err(e),
    }
}

/// Reads the fragment on the line that starts at `i`, and finds the start of
/// the next line: a child element, an attribute, a line of base64 data or an
/// empty line. There is no fragment where the line does not end behind what
/// it holds.
pub fn parse_element_fragment_at(buf: &[char], i: usize) -> (r: Result<
    Option<(RFragment, usize)>,
    ParseError,
>)
    requires
        i <= buf.len(),
    ensures
        match r {
            Ok(Some((fragment, k))) => fragment_at(buf@, i as int) == Ok::<_, ErrorView>(
                Some((fragment@, k as int)),
            ) && i < k <= buf.len(),
            Ok(None) => fragment_at(buf@, i as int) == Ok::<
                Option<(FragmentView, int)>,
                ErrorView,
            >(None),
            Err(e) => fragment_at(buf@, i as int) == Err::<Option<(FragmentView, int)>, _>(e@),
        },
    decreases buf.len() - i, 2int,
{
    let start = scan(buf, i, CharClass::Space);
    let found = if start < buf.len() && buf[start] == '<' {
        parse_child_element_at(buf, start)
    } else {
        match parse_attribute_at(buf, start) {
            Err(e) => Err(e),
            Ok(Some(attribute)) => Ok(attribute),
            Ok(None) => match parse_bin_data_at(buf, start) {
                Some(data) => Ok(data),
                None => Ok((RFragment::Empty, start)),
            },
        }
    };
    match found {
        Err(e) => Err(e),
        Ok((fragment, j)) => match rest_of_line_at(buf, j) {
            Some(k) => Ok(Some((fragment, k))),
            None => Ok(None),
        },
    }
}

/// Reads the element whose `<` stands just before `i`, up to the end of its
/// body: the tag, the arguments, and one fragment per line for as long as
/// fragments stand there.
#[verifier::loop_isolation(false)]
pub fn parse_element_body_at(buf: &[char], i: usize) -> (r: Result<(RElement, usize), ParseError>)
    requires
        i <= buf.len(),
    ensures
        match r {
            Ok((element, m)) => element_body_at(buf@, i as int) == Ok::<_, ErrorView>(
                (element@, m as int),
            ) && i < m <= buf.len(),
            Err(e) => element_body_at(buf@, i as int) == Err::<(ElementView, int), _>(e@),
        },
    decreases buf.len() - i, 4int,
{
    let t = scan(buf, i, CharClass::Ident);
    if t <= i {
        return fail(ParseErrorKind::EmptyIdentifier, i);
    }
    let a = scan(buf, t, CharClass::Space);
    let (args, j) = match parse_value_list_at(buf, a) {
        Ok(found) => found,
        Err(e) => {
            return Err(e);
        },
    };
    let k = match rest_of_line_at(buf, j) {
        Some(k) => k,
        None => {
            return fail(ParseErrorKind::UnexpectedCharacter, scan(buf, j, CharClass::Space));
        },
    };
    let mut content: Vec<RFragment> = Vec::new();
    let mut at: usize = k;
    assert(fragments_view(content@) =~= Seq::empty());
    loop
        invariant
            i < k <= at <= buf.len(),
            fragments_from(buf@, k as int, Seq::empty()) == fragments_from(
                buf@,
                at as int,
                fragments_view(content@),
            ),
        decreases buf.len() - at,
    {
        match parse_element_fragment_at(buf, at) {
            Err(e) => {
                return Err(e);
            },
            Ok(None) => {
                break ;
            },
            Ok(Some((fragment, next))) => {
                let ghost before = fragments_view(content@);
                content.push(fragment);
                assert(fragments_view(content@) =~= before.push(fragment@));
                at = next;
            },
        }
    }
    let element = RElement { tag: text_of(buf, i, t), args, content };
    proof {
        lemma_content_view(element);
    }
    Ok((element, at))
}

/// Reads the element that starts at `i`, and finds the position after its
/// closing `>`.
pub fn parse_element_at(buf: &[char], i: usize) -> (r: Result<(RElement, usize), ParseError>)
    requires
        i <= buf.len(),
    ensures
        match r {
            Ok((element, j)) => element_at(buf@, i as int) == Ok::<_, ErrorView>(
                (element@, j as int),
            ) && i < j <= buf.len() && element_wf(element@),
            Err(e) => element_at(buf@, i as int) == Err::<(ElementView, int), _>(e@),
        },
    decreases buf.len() - i, 0int,
{
    proof {
        lemma_element_at_wf(buf@, i as int);
    }
    if !(i < buf.len() && buf[i] == '<') {
        return fail(ParseErrorKind::UnexpectedCharacter, i);
    }
    match parse_element_body_at(buf, i + 1) {
        Err(e) => Err(e),
        Ok((element, m)) => {
            let c = scan(buf, m, CharClass::Blank);
            if c < buf.len() && buf[c] == '>' {
                Ok((element, c + 1))
            } else {
                fail(ParseErrorKind::UnterminatedElement, c)
            }
        },
    }
}

/// Reads the element at the start of `input`: the rest of the text behind
/// its closing `>`, and the element with its arguments and its body, each in
/// the order of the text. The element is well formed. Fails, with the kind
/// and the position of the first mismatch, where `input` does not start with
/// an element.
pub fn parse_element(input: &str) -> (r: Result<(&str, RElement), ParseError>)
    ensures
        match element_at(input@, 0) {
            Ok((element, j)) => r matches Ok((rest, found)) && found@ == element && rest@
                == input@.subrange(j, input@.len() as int) && element_wf(found@),
            Err(e) => r matches Err(err) && err@ == e,
        },
{
    let buf = decode(input);
    match parse_element_at(buf.as_slice(), 0) {
        Ok((element, j)) => Ok((tail_of(input, j), element)),
        Err(e) => Err(e),
    }
}

} // verus!
