//! Character classes of the format, and maximal runs of one class.

use vstd::prelude::*;

verus! {

/// The classes of characters that the grammar distinguishes.
#[derive(Clone, Copy, Debug, PartialEq, Eq)]
pub enum CharClass {
    /// Space and tab: blanks that never end a line.
    Space,
    /// Space, tab, carriage return and line feed.
    Blank,
    /// Anything but whitespace: the characters of an unquoted token.
    Token,
    /// ASCII letters, ASCII digits and the underscore.
    Ident,
    /// The base64 alphabet: ASCII letters and digits, `+`, `/` and `=`.
    Base64,
    /// The decimal digits `0` to `9`.
    Digit,
}

pub open spec fn is_digit(c: char) -> bool {
    '0' <= c <= '9'
}

pub open spec fn is_letter(c: char) -> bool {
    'a' <= c <= 'z' || 'A' <= c <= 'Z'
}

/// The characters that Unicode counts as white space.
pub open spec fn is_whitespace(c: char) -> bool {
    ||| '\u{9}' <= c <= '\u{d}'
    ||| c == ' '
    ||| c == '\u{85}'
    ||| c == '\u{a0}'
    ||| c == '\u{1680}'
    ||| '\u{2000}' <= c <= '\u{200a}'
    ||| c == '\u{2028}'
    ||| c == '\u{2029}'
    ||| c == '\u{202f}'
    ||| c == '\u{205f}'
    ||| c == '\u{3000}'
}

impl CharClass {
    /// Whether `c` belongs to the class.
    pub open spec fn has(self, c: char) -> bool {
        match self {
            CharClass::Space => c == ' ' || c == '\t',
            CharClass::Blank => c == ' ' || c == '\t' || c == '\r' || c == '\n',
            CharClass::Token => !is_whitespace(c),
            CharClass::Ident => is_letter(c) || is_digit(c) || c == '_',
            CharClass::Base64 => is_letter(c) || is_digit(c) || c == '+' || c == '/' || c == '=',
            CharClass::Digit => is_digit(c),
        }
    }

    /// Tests whether `c` belongs to the class.
    pub fn contains(self, c: char) -> (b: bool)
        ensures
            b == self.has(c),
    {
        let letter = ('a' <= c && c <= 'z') || ('A' <= c && c <= 'Z');
        let digit = '0' <= c && c <= '9';
        match self {
            CharClass::Space => c == ' ' || c == '\t',
            CharClass::Blank => c == ' ' || c == '\t' || c == '\r' || c == '\n',
            CharClass::Token => !(('\u{9}' <= c && c <= '\u{d}') || c == ' ' || c == '\u{85}'
                || c == '\u{a0}' || c == '\u{1680}' || ('\u{2000}' <= c && c <= '\u{200a}')
                || c == '\u{2028}' || c == '\u{2029}' || c == '\u{202f}' || c == '\u{205f}'
                || c == '\u{3000}'),
            CharClass::Ident => letter || digit || c == '_',
            CharClass::Base64 => letter || digit || c == '+' || c == '/' || c == '=',
            CharClass::Digit => digit,
        }
    }
}

/// Whether every character of `t` belongs to `class`.
pub open spec fn all_in(t: Seq<char>, class: CharClass) -> bool {
    forall|k: int| 0 <= k < t.len() ==> class.has(#[trigger] t[k])
}

/// The end of the longest run of `class` characters that starts at `i`:
/// the first position from `i` on that holds no character of the class.
pub open spec fn run_end(s: Seq<char>, i: int, class: CharClass) -> int
    decreases s.len() - i,
{
    if 0 <= i < s.len() && class.has(s[i]) {
        run_end(s, i + 1, class)
    } else {
        i
    }
}

/// A run ends at or after its start, inside the text, holds only characters
/// of its class, and stops at the end of the text or before a character of
/// another class.
pub proof fn lemma_run_end(s: Seq<char>, i: int, class: CharClass)
    requires
        0 <= i <= s.len(),
    ensures
        i <= run_end(s, i, class) <= s.len(),
        forall|k: int| i <= k < run_end(s, i, class) ==> class.has(#[trigger] s[k]),
        run_end(s, i, class) < s.len() ==> !class.has(s[run_end(s, i, class)]),
    decreases s.len() - i,
{
    if i < s.len() && class.has(s[i]) {
        lemma_run_end(s, i + 1, class);
    }
}

/// The position `j` is the end of the run from `i` as soon as everything
/// between them is of the class and `j` itself is not.
pub proof fn lemma_run_end_is(s: Seq<char>, i: int, j: int, class: CharClass)
    requires
        0 <= i <= j <= s.len(),
        forall|k: int| i <= k < j ==> class.has(#[trigger] s[k]),
        j < s.len() ==> !class.has(s[j]),
    ensures
        run_end(s, i, class) == j,
    decreases j - i,
{
    if i < j {
        lemma_run_end_is(s, i + 1, j, class);
    }
}

/// Finds the end of the longest run of `class` characters that starts at `i`.
pub fn scan(buf: &[char], i: usize, class: CharClass) -> (j: usize)
    requires
        i <= buf.len(),
    ensures
        j == run_end(buf@, i as int, class),
        i <= j <= buf.len(),
{
    let mut j: usize = i;
    while j < buf.len() && class.contains(buf[j])
        invariant
            i <= j <= buf.len(),
            forall|k: int| i <= k < j ==> class.has(#[trigger] buf@[k]),
        decreases buf.len() - j,
    {
        j += 1;
    }
    proof {
        lemma_run_end_is(buf@, i as int, j as int, class);
    }
    j
}

} // verus!
