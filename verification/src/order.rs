//! The order of a body: the fragments of an element are its lines, in the
//! order of the text.

use vstd::prelude::*;
use crate::error::ErrorView;
use crate::grammar::{element_at, fragment_at, fragments_from, opening_at};
use crate::tree::FragmentView;

verus! {

/// The start of the line `k` of the body that starts at `i`, counted from 0:
/// the body's start, and then the position behind each fragment in turn.
pub open spec fn line_start(s: Seq<char>, i: int, k: nat) -> int
    decreases k,
{
    if k == 0 {
        i
    } else {
        match fragment_at(s, line_start(s, i, (k - 1) as nat)) {
            Ok(Some((_, next))) => next,
            _ => line_start(s, i, (k - 1) as nat),
        }
    }
}

/// Whether the fragments are what the first lines of the body at `i` hold,
/// one after the other, each line starting behind the one before.
pub open spec fn in_line_order(s: Seq<char>, i: int, fragments: Seq<FragmentView>) -> bool {
    forall|k: nat|
        k < fragments.len() ==> #[trigger] line_start(s, i, k) < line_start(s, i, k + 1)
            && fragment_at(s, line_start(s, i, k)) == Ok::<_, ErrorView>(
            Some((fragments[k as int], line_start(s, i, k + 1))),
        )
}

/// Reading a body goes on in line order: where the fragments read so far
/// are the first lines of the body at `i`, in order, so are all the
/// fragments of the body, and the body ends where the line behind the last
/// of them starts.
pub proof fn lemma_fragments_from_in_order(
    s: Seq<char>,
    i: int,
    at: int,
    found: Seq<FragmentView>,
)
    requires
        in_line_order(s, i, found),
        at == line_start(s, i, found.len()),
    ensures
        fragments_from(s, at, found) matches Ok((fragments, end)) ==> in_line_order(
            s,
            i,
            fragments,
        ) && end == line_start(s, i, fragments.len()) && found.len() <= fragments.len(),
    decreases s.len() - at,
{
    if let Ok(Some((fragment, next))) = fragment_at(s, at) {
        if at < next <= s.len() {
            let more = found.push(fragment);
            assert forall|k: nat| k < more.len() implies #[trigger] line_start(s, i, k)
                < line_start(s, i, k + 1) && fragment_at(s, line_start(s, i, k)) == Ok::<
                _,
                ErrorView,
            >(Some((more[k as int], line_start(s, i, k + 1)))) by {}
            lemma_fragments_from_in_order(s, i, next, more);
        }
    }
}

/// A body keeps the order of its lines: the fragment `k` of an element that
/// was read from a text is what the line `k` of its body holds, and each
/// line starts behind the one before. No fragment is left out, moved or
/// joined with another.
pub proof fn lemma_body_in_line_order(text: Seq<char>, i: int)
    ensures
        element_at(text, i) matches Ok((element, _)) ==> (opening_at(text, i + 1) matches Ok(
            (_, _, body),
        ) && in_line_order(text, body, element.content)),
{
    if let Ok((element, _)) = element_at(text, i) {
        if let Ok((_, _, body)) = opening_at(text, i + 1) {
            lemma_fragments_from_in_order(text, body, body, Seq::empty());
        }
    }
}

} // verus!
