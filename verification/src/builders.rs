//! Making lists of values from plain data.

use vstd::prelude::*;
use crate::charset::{all_in, lemma_run_end_is, CharClass};
use crate::grammar::is_float_literal;
use crate::tree::{values_view, RValue, ValueView};
use crate::wellformed::{is_token, value_wf, values_wf};

verus! {

/// The character of the decimal digit `d`; `9` for anything above.
pub open spec fn digit_char(d: int) -> char {
    if d == 0 {
        '0'
    } else if d == 1 {
        '1'
    } else if d == 2 {
        '2'
    } else if d == 3 {
        '3'
    } else if d == 4 {
        '4'
    } else if d == 5 {
        '5'
    } else if d == 6 {
        '6'
    } else if d == 7 {
        '7'
    } else if d == 8 {
        '8'
    } else {
        '9'
    }
}

/// The decimal digits of `n`, the most significant first, without leading
/// zeros.
pub open spec fn digits(n: nat) -> Seq<char>
    decreases n,
{
    if n < 10 {
        seq![digit_char(n as int)]
    } else {
        digits(n / 10).push(digit_char((n % 10) as int))
    }
}

/// The decimal literal of the integer `i`: a minus sign where `i` is
/// negative, and the digits of its magnitude.
pub open spec fn decimal(i: int) -> Seq<char> {
    if i < 0 {
        seq!['-'] + digits((-i) as nat)
    } else {
        digits(i as nat)
    }
}

/// The number that stands for a truth value: 1 for true, 0 for false.
pub open spec fn truth(b: bool) -> int {
    if b {
        1
    } else {
        0
    }
}

/// The digits of a number are digits, and there is at least one.
pub proof fn lemma_digits(n: nat)
    ensures
        digits(n).len() > 0,
        all_in(digits(n), CharClass::Digit),
    decreases n,
{
    if n >= 10 {
        lemma_digits(n / 10);
    }
}

/// The decimal literal of an integer is a well-formed number.
pub proof fn lemma_decimal_is_number(i: int)
    ensures
        value_wf(ValueView::Number(decimal(i))),
{
    let t = decimal(i);
    let m = if i < 0 {
        (-i) as nat
    } else {
        i as nat
    };
    lemma_digits(m);
    let a: int = if i < 0 {
        1
    } else {
        0
    };
    assert forall|k: int| a <= k < t.len() implies CharClass::Digit.has(#[trigger] t[k]) by {}
    assert(t[0] != '+' && t[0] != '"' && (i >= 0 ==> t[0] != '-'));
    lemma_run_end_is(t, a, t.len() as int, CharClass::Digit);
}

/// The character of the decimal digit `d`; `9` for anything above.
pub fn digit(d: u64) -> (c: char)
    ensures
        c == digit_char(d as int),
{
    if d == 0 {
        '0'
    } else if d == 1 {
        '1'
    } else if d == 2 {
        '2'
    } else if d == 3 {
        '3'
    } else if d == 4 {
        '4'
    } else if d == 5 {
        '5'
    } else if d == 6 {
        '6'
    } else if d == 7 {
        '7'
    } else if d == 8 {
        '8'
    } else {
        '9'
    }
}

/// Appends the decimal digits of `n`.
pub fn push_digits(out: &mut String, n: u64)
    ensures
        final(out)@ == old(out)@ + digits(n as nat),
    decreases n,
{
    if n < 10 {
        out.push(digit(n));
    } else {
        push_digits(out, n / 10);
        out.push(digit(n % 10));
    }
}

/// The decimal literal of the integer `i`.
pub fn decimal_text(i: i64) -> (text: String)
    ensures
        text@ == decimal(i as int),
{
    let mut text = String::new();
    if i < 0 {
        let magnitude: u64 = if i == i64::MIN {
            9223372036854775808u64
        } else {
            (-i) as u64
        };
        text.push('-');
        push_digits(&mut text, magnitude);
    } else {
        push_digits(&mut text, i as u64);
    }
    text
}

/// The makers of lists of values.
pub struct RValues;

impl RValues {
    /// One number for each integer, in order: its decimal literal, which is
    /// well formed.
    pub fn ints(values: &[i64]) -> (list: Vec<RValue>)
        ensures
            list@.len() == values@.len(),
            forall|k: int|
                0 <= k < values@.len() ==> (#[trigger] list@[k])@ == ValueView::Number(
                    decimal(values@[k] as int),
                ),
            values_wf(values_view(list@)),
    {
        let mut list: Vec<RValue> = Vec::new();
        let mut k: usize = 0;
        while k < values.len()
            invariant
                k <= values.len(),
                list@.len() == k,
                forall|j: int| 0 <= j < k ==> (#[trigger] list@[j])@ == ValueView::Number(
                    decimal(values@[j] as int),
                ),
            decreases values.len() - k,
        {
            list.push(RValue::N(decimal_text(values[k])));
            k += 1;
        }
        assert forall|j: int| 0 <= j < list@.len() implies value_wf(
            #[trigger] values_view(list@)[j],
        ) by {
            lemma_decimal_is_number(values@[j] as int);
        }
        list
    }

    /// One number for each truth value, in order: 1 for true, 0 for false.
    /// Each is well formed.
    pub fn bools(values: &[bool]) -> (list: Vec<RValue>)
        ensures
            list@.len() == values@.len(),
            forall|k: int|
                0 <= k < values@.len() ==> (#[trigger] list@[k])@ == ValueView::Number(
                    decimal(truth(values@[k])),
                ),
            values_wf(values_view(list@)),
    {
        let mut list: Vec<RValue> = Vec::new();
        let mut k: usize = 0;
        while k < values.len()
            invariant
                k <= values.len(),
                list@.len() == k,
                forall|j: int| 0 <= j < k ==> (#[trigger] list@[j])@ == ValueView::Number(
                    decimal(truth(values@[j])),
                ),
            decreases values.len() - k,
        {
            let number: i64 = if values[k] {
                1
            } else {
                0
            };
            list.push(RValue::N(decimal_text(number)));
            k += 1;
        }
        assert forall|j: int| 0 <= j < list@.len() implies value_wf(
            #[trigger] values_view(list@)[j],
        ) by {
            lemma_decimal_is_number(truth(values@[j]));
        }
        list
    }

    /// One unquoted string for each text, in order.
    pub fn strings(values: &[&str]) -> (list: Vec<RValue>)
        ensures
            list@.len() == values@.len(),
            forall|k: int|
                0 <= k < values@.len() ==> (#[trigger] list@[k])@ == ValueView::Bare(values@[k]@),
    {
        let mut list: Vec<RValue> = Vec::new();
        let mut k: usize = 0;
        while k < values.len()
            invariant
                k <= values.len(),
                list@.len() == k,
                forall|j: int|
                    0 <= j < k ==> (#[trigger] list@[j])@ == ValueView::Bare(values@[j]@),
            decreases values.len() - k,
        {
            list.push(RValue::S(String::from_str(values[k])));
            k += 1;
        }
        list
    }

    /// One quoted string for each text, in order.
    pub fn quoted_strings(values: &[&str]) -> (list: Vec<RValue>)
        ensures
            list@.len() == values@.len(),
            forall|k: int|
                0 <= k < values@.len() ==> (#[trigger] list@[k])@ == ValueView::Quoted(values@[k]@),
    {
        let mut list: Vec<RValue> = Vec::new();
        let mut k: usize = 0;
        while k < values.len()
            invariant
                k <= values.len(),
                list@.len() == k,
                forall|j: int|
                    0 <= j < k ==> (#[trigger] list@[j])@ == ValueView::Quoted(values@[j]@),
            decreases values.len() - k,
        {
            list.push(RValue::QS(String::from_str(values[k])));
            k += 1;
        }
        list
    }

    /// The list of one number: the decimal literal of `i`, which is well
    /// formed.
    pub fn integer(i: i64) -> (list: Vec<RValue>)
        ensures
            values_view(list@) == seq![ValueView::Number(decimal(i as int))],
            value_wf(ValueView::Number(decimal(i as int))),
    {
        let mut list: Vec<RValue> = Vec::new();
        list.push(RValue::N(decimal_text(i)));
        proof {
            lemma_decimal_is_number(i as int);
        }
        list
    }

    /// The list of one number: 1 for true, 0 for false.
    pub fn bool(b: bool) -> (list: Vec<RValue>)
        ensures
            values_view(list@) == seq![ValueView::Number(decimal(truth(b)))],
            value_wf(ValueView::Number(decimal(truth(b)))),
    {
        if b {
            Self::integer(1)
        } else {
            Self::integer(0)
        }
    }

    /// The list of one unquoted string.
    pub fn string(s: &str) -> (list: Vec<RValue>)
        ensures
            values_view(list@) == seq![ValueView::Bare(s@)],
    {
        let mut list: Vec<RValue> = Vec::new();
        list.push(RValue::S(String::from_str(s)));
        list
    }

    /// The list of one quoted string.
    pub fn quoted_string(s: &str) -> (list: Vec<RValue>)
        ensures
            values_view(list@) == seq![ValueView::Quoted(s@)],
    {
        let mut list: Vec<RValue> = Vec::new();
        list.push(RValue::QS(String::from_str(s)));
        list
    }
}

} // verus!
