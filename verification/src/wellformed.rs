//! Which trees a text can stand for.

use vstd::prelude::*;
use crate::charset::{all_in, lemma_run_end, run_end, scan, CharClass};
use crate::grammar::{
    attribute_at, element_at, element_body_at, fragment_at, fragments_from, is_float_literal,
    lemma_opening_at_end, lemma_value_at_end, line_content, opening_at, value_at, values_from,
};
use crate::parser::buffer::decode;
use crate::parser::number::is_number;
use crate::tree::{
    fragments_view, lemma_content_view, values_view, ElementView, FragmentView, RElement,
    RFragment, RValue, ValueView,
};

verus! {

/// A name: at least one character, all of them letters, digits or
/// underscores.
pub open spec fn is_name(t: Seq<char>) -> bool {
    t.len() > 0 && all_in(t, CharClass::Ident)
}

/// An unquoted token: at least one character, none of them whitespace, and
/// the first no double quote.
pub open spec fn is_token(t: Seq<char>) -> bool {
    t.len() > 0 && all_in(t, CharClass::Token) && t[0] != '"'
}

/// A line of base64 data: at least one character, all of the base64
/// alphabet.
pub open spec fn is_bin_data(t: Seq<char>) -> bool {
    t.len() > 0 && all_in(t, CharClass::Base64)
}

/// A quoted string may hold any text. An unquoted string is a token that is
/// no decimal literal, and a number is a token that is one.
pub open spec fn value_wf(value: ValueView) -> bool {
    match value {
        ValueView::Quoted(_) => true,
        ValueView::Bare(text) => is_token(text) && !is_float_literal(text),
        ValueView::Number(text) => is_token(text) && is_float_literal(text),
    }
}

/// Whether each of the values is well formed.
pub open spec fn values_wf(values: Seq<ValueView>) -> bool {
    forall|k: int| 0 <= k < values.len() ==> value_wf(#[trigger] values[k])
}

/// An attribute has a name and well-formed values, a child is a well-formed
/// element, and base64 data is not empty.
pub open spec fn fragment_wf(fragment: FragmentView) -> bool
    decreases fragment,
{
    match fragment {
        FragmentView::Attribute(name, values) => is_name(name) && values_wf(values),
        FragmentView::Child(child) => element_wf(child),
        FragmentView::BinData(data) => is_bin_data(data),
        FragmentView::Empty => true,
    }
}

/// Whether each of the fragments is well formed.
pub open spec fn fragments_wf(fragments: Seq<FragmentView>) -> bool
    decreases fragments,
{
    forall|k: int| 0 <= k < fragments.len() ==> fragment_wf(#[trigger] fragments[k])
}

/// An element is well formed where its tag is a name, and its arguments and
/// the fragments of its body are well formed. These are the elements that a
/// text can stand for.
pub open spec fn element_wf(element: ElementView) -> bool
    decreases element,
{
    is_name(element.tag) && values_wf(element.args) && fragments_wf(element.content)
}

/// A run that is not empty holds only characters of its class.
pub proof fn lemma_run_text(s: Seq<char>, i: int, class: CharClass)
    requires
        i < run_end(s, i, class),
    ensures
        0 <= i < run_end(s, i, class) <= s.len(),
        s.subrange(i, run_end(s, i, class)).len() > 0,
        all_in(s.subrange(i, run_end(s, i, class)), class),
        s.subrange(i, run_end(s, i, class))[0] == s[i],
{
    lemma_run_end(s, i, class);
}

/// What is read as a value is well formed.
pub proof fn lemma_value_at_wf(s: Seq<char>, i: int)
    ensures
        value_at(s, i) matches Ok(Some((value, _))) ==> value_wf(value),
{
    if !(0 <= i < s.len() && s[i] == '"') && i < run_end(s, i, CharClass::Token) {
        lemma_run_text(s, i, CharClass::Token);
    }
}

/// What is read as a list of values is well formed, where what was read
/// before is.
pub proof fn lemma_values_from_wf(s: Seq<char>, i: int, end: int, found: Seq<ValueView>)
    requires
        values_wf(found),
    ensures
        values_from(s, i, end, found) matches Ok((values, _)) ==> values_wf(values),
    decreases s.len() - i,
{
    lemma_value_at_wf(s, i);
    lemma_value_at_end(s, i);
    if let Ok(Some((v, j))) = value_at(s, i) {
        lemma_run_end(s, j, CharClass::Space);
        let k = run_end(s, j, CharClass::Space);
        if j < k {
            lemma_values_from_wf(s, k, j, found.push(v));
        }
    }
}

/// What is read as an attribute is well formed.
pub proof fn lemma_attribute_at_wf(s: Seq<char>, i: int)
    ensures
        attribute_at(s, i) matches Ok(Some((fragment, _))) ==> fragment_wf(fragment),
{
    let n = run_end(s, i, CharClass::Ident);
    let v = run_end(s, n, CharClass::Space);
    if i < n < v {
        lemma_run_text(s, i, CharClass::Ident);
        lemma_values_from_wf(s, v, v, Seq::empty());
    }
}

/// What is read as the content of a line is well formed.
pub proof fn lemma_line_content_wf(s: Seq<char>, i: int)
    ensures
        line_content(s, i) matches Ok((fragment, _)) ==> fragment_wf(fragment),
    decreases s.len() - i, 1int,
{
    if 0 <= i < s.len() && s[i] == '<' {
        lemma_element_at_wf(s, i);
    } else {
        lemma_attribute_at_wf(s, i);
        if i < run_end(s, i, CharClass::Base64) {
            lemma_run_text(s, i, CharClass::Base64);
        }
    }
}

/// What is read as a fragment is well formed.
pub proof fn lemma_fragment_at_wf(s: Seq<char>, i: int)
    ensures
        fragment_at(s, i) matches Ok(Some((fragment, _))) ==> fragment_wf(fragment),
    decreases s.len() - i, 2int,
{
    if 0 <= i <= s.len() {
        lemma_run_end(s, i, CharClass::Space);
    }
    lemma_line_content_wf(s, run_end(s, i, CharClass::Space));
}

/// What is read as a body is well formed, where what was read before is.
pub proof fn lemma_fragments_from_wf(s: Seq<char>, i: int, found: Seq<FragmentView>)
    requires
        fragments_wf(found),
    ensures
        fragments_from(s, i, found) matches Ok((fragments, _)) ==> fragments_wf(fragments),
    decreases s.len() - i, 3int,
{
    lemma_fragment_at_wf(s, i);
    if let Ok(Some((fragment, k))) = fragment_at(s, i) {
        if i < k <= s.len() {
            lemma_fragments_from_wf(s, k, found.push(fragment));
        }
    }
}

/// What is read as an element up to the end of its body is well formed.
pub proof fn lemma_element_body_at_wf(s: Seq<char>, i: int)
    ensures
        element_body_at(s, i) matches Ok((element, _)) ==> element_wf(element),
    decreases s.len() - i, 4int,
{
    lemma_opening_at_end(s, i);
    if let Ok((tag, args, k)) = opening_at(s, i) {
        let t = run_end(s, i, CharClass::Ident);
        lemma_run_text(s, i, CharClass::Ident);
        let a = run_end(s, t, CharClass::Space);
        lemma_values_from_wf(s, a, a, Seq::empty());
        lemma_fragments_from_wf(s, k, Seq::empty());
    }
}

/// Every element that a text reads as is well formed.
pub proof fn lemma_element_at_wf(s: Seq<char>, i: int)
    ensures
        element_at(s, i) matches Ok((element, _)) ==> element_wf(element),
    decreases s.len() - i, 0int,
{
    if 0 <= i < s.len() && s[i] == '<' {
        lemma_element_body_at_wf(s, i + 1);
    }
}

/// Tests whether `text` is not empty and holds only characters of `class`.
pub fn is_run(text: &str, class: CharClass) -> (b: bool)
    ensures
        b == (text@.len() > 0 && all_in(text@, class)),
{
    let buf = decode(text);
    let end = scan(buf.as_slice(), 0, class);
    proof {
        lemma_run_end(buf@, 0, class);
    }
    buf.len() > 0 && end == buf.len()
}

/// Tests whether `text` is an unquoted token, and whether it is a decimal
/// literal.
pub fn token_kind(text: &str) -> (r: (bool, bool))
    ensures
        r.0 == is_token(text@),
        r.1 == is_float_literal(text@),
{
    let buf = decode(text);
    let end = scan(buf.as_slice(), 0, CharClass::Token);
    proof {
        lemma_run_end(buf@, 0, CharClass::Token);
    }
    let token = buf.len() > 0 && end == buf.len() && buf[0] != '"';
    (token, is_number(buf.as_slice()))
}

impl RValue {
    /// Tests whether the value is well formed, so that its text reads as
    /// the same value.
    pub fn is_well_formed(&self) -> (b: bool)
        ensures
            b == value_wf(self@),
    {
        match self {
            RValue::QS(_) => true,
            RValue::S(text) => {
                let (token, number) = token_kind(text.as_str());
                token && !number
            },
            RValue::N(text) => {
                let (token, number) = token_kind(text.as_str());
                token && number
            },
        }
    }
}

/// Tests whether each of the values is well formed.
pub fn values_well_formed(values: &Vec<RValue>) -> (b: bool)
    ensures
        b == values_wf(values_view(values@)),
{
    let mut k: usize = 0;
    while k < values.len()
        invariant
            k <= values.len(),
            forall|j: int| 0 <= j < k ==> value_wf(#[trigger] values_view(values@)[j]),
        decreases values.len() - k,
    {
        if !values[k].is_well_formed() {
            assert(!value_wf(values_view(values@)[k as int]));
            return false;
        }
        k += 1;
    }
    true
}

impl RFragment {
    /// Tests whether the fragment is well formed, so that its lines read as
    /// the same fragment.
    pub fn is_well_formed(&self) -> (b: bool)
        ensures
            b == fragment_wf(self@),
        decreases self,
    {
        match self {
            RFragment::Attribute(name, values) => is_run(name.as_str(), CharClass::Ident)
                && values_well_formed(values),
            RFragment::Child(child) => child.is_well_formed(),
            RFragment::BinData(data) => is_run(data.as_str(), CharClass::Base64),
            RFragment::Empty => true,
        }
    }
}

impl RElement {
    /// Tests whether the element is well formed, so that its text reads as
    /// the same element: whether its tag is a name, and its arguments and
    /// the fragments of its body are well formed.
    pub fn is_well_formed(&self) -> (b: bool)
        ensures
            b == element_wf(self@),
        decreases self,
    {
        proof {
            lemma_content_view(*self);
        }
        if !is_run(self.tag.as_str(), CharClass::Ident) || !values_well_formed(&self.args) {
            return false;
        }
        let mut k: usize = 0;
        while k < self.content.len()
            invariant
                k <= self.content.len(),
                self@.content == fragments_view(self.content@),
                forall|j: int| 0 <= j < k ==> fragment_wf(#[trigger] self@.content[j]),
            decreases self.content.len() - k,
        {
            if !self.content[k].is_well_formed() {
                assert(!fragment_wf(self@.content[k as int]));
                return false;
            }
            k += 1;
        }
        true
    }
}

} // verus!
