//! Reading back what was written: a well-formed tree, written as text, reads
//! as the same tree.

use vstd::prelude::*;
use crate::charset::{all_in, is_whitespace, lemma_run_end, lemma_run_end_is, run_end, CharClass};
use crate::error::ErrorView;
use crate::grammar::{
    element_at, element_body_at, fragment_at, fragments_from, quoted_tail, unescape, value_at,
    value_list, values_from,
};
use crate::render::{
    escape, escaped, render_element, render_fragment, render_fragments, render_opening,
    render_value, render_values, spaces,
};
use crate::tree::{ElementView, FragmentView, ValueView};
use crate::wellformed::{
    element_wf, fragment_wf, fragments_wf, is_bin_data, is_name, lemma_element_at_wf, value_wf,
    values_wf,
};

verus! {

/// Whether the text `t` stands in `s` at the position `i`.
pub open spec fn stands_at(s: Seq<char>, i: int, t: Seq<char>) -> bool {
    &&& 0 <= i
    &&& i + t.len() <= s.len()
    &&& forall|k: int| 0 <= k < t.len() ==> s[i + k] == #[trigger] t[k]
}

/// Two texts stand one behind the other where their concatenation stands.
pub proof fn lemma_stands_split(s: Seq<char>, i: int, a: Seq<char>, b: Seq<char>)
    requires
        stands_at(s, i, a + b),
    ensures
        stands_at(s, i, a),
        stands_at(s, i + a.len(), b),
{
    assert forall|k: int| 0 <= k < a.len() implies s[i + k] == #[trigger] a[k] by {
        assert((a + b)[k] == a[k]);
    }
    assert forall|k: int| 0 <= k < b.len() implies s[i + a.len() + k] == #[trigger] b[k] by {
        assert((a + b)[a.len() + k] == b[k]);
    }
}

/// The character `c` stands at `i` where the text of `c` alone does.
pub proof fn lemma_stands_char(s: Seq<char>, i: int, c: char)
    requires
        stands_at(s, i, seq![c]),
    ensures
        0 <= i < s.len(),
        s[i] == c,
{
    assert(seq![c][0] == c);
}

/// A text of one class, which stands at `i` before the end of `s` or before
/// a character of another class, is the run that starts at `i`.
pub proof fn lemma_run_over(s: Seq<char>, i: int, t: Seq<char>, class: CharClass)
    requires
        stands_at(s, i, t),
        all_in(t, class),
        i + t.len() < s.len() ==> !class.has(s[i + t.len()]),
    ensures
        run_end(s, i, class) == i + t.len(),
        s.subrange(i, i + t.len()) == t,
{
    assert forall|k: int| i <= k < i + t.len() implies class.has(#[trigger] s[k]) by {
        assert(s[i + (k - i)] == t[k - i]);
    }
    lemma_run_end_is(s, i, i + t.len(), class);
}

/// No run of `class` starts at a character of another class.
pub proof fn lemma_no_run(s: Seq<char>, i: int, class: CharClass)
    requires
        0 <= i < s.len() ==> !class.has(s[i]),
    ensures
        run_end(s, i, class) == i,
{
}

/// Spaces are blanks of both kinds.
pub proof fn lemma_spaces(n: nat)
    ensures
        spaces(n).len() == n,
        all_in(spaces(n), CharClass::Space),
        all_in(spaces(n), CharClass::Blank),
{
}

/// The escaped form of `text` and a closing quote read as `text`.
pub proof fn lemma_read_escaped(s: Seq<char>, open: int, i: int, text: Seq<char>, read: Seq<char>)
    requires
        stands_at(s, i, escaped(text) + seq!['"']),
    ensures
        quoted_tail(s, open, i, read) == Ok::<_, ErrorView>(
            (read + text, i + escaped(text).len() + 1),
        ),
    decreases text.len(),
{
    if text.len() == 0 {
        lemma_stands_split(s, i, escaped(text), seq!['"']);
        lemma_stands_char(s, i, '"');
    } else {
        let c = text[0];
        let rest = text.drop_first();
        assert(escaped(text) + seq!['"'] =~= escape(c) + (escaped(rest) + seq!['"']));
        lemma_stands_split(s, i, escape(c), escaped(rest) + seq!['"']);
        assert(escape(c)[0] == s[i]);
        lemma_read_escaped(s, open, i + escape(c).len(), rest, read.push(c));
        assert(read.push(c) + rest =~= read + text);
    }
}

/// The text of a well-formed value is not empty and starts with neither a
/// blank nor a line ending.
pub proof fn lemma_value_starts(value: ValueView)
    requires
        value_wf(value),
    ensures
        render_value(value).len() > 0,
        !CharClass::Blank.has(render_value(value)[0]),
{
}

/// The text of a well-formed value, before whitespace or the end of the
/// text, reads as that value.
pub proof fn lemma_read_value(s: Seq<char>, i: int, value: ValueView)
    requires
        value_wf(value),
        stands_at(s, i, render_value(value)),
        i + render_value(value).len() < s.len() ==> is_whitespace(
            s[i + render_value(value).len()],
        ),
    ensures
        value_at(s, i) == Ok::<_, ErrorView>(Some((value, i + render_value(value).len()))),
{
    match value {
        ValueView::Quoted(text) => {
            assert(render_value(value) =~= seq!['"'] + (escaped(text) + seq!['"']));
            lemma_stands_split(s, i, seq!['"'], escaped(text) + seq!['"']);
            lemma_stands_char(s, i, '"');
            lemma_read_escaped(s, i, i + 1, text, Seq::empty());
        },
        ValueView::Bare(text) => {
            lemma_run_over(s, i, text, CharClass::Token);
        },
        ValueView::Number(text) => {
            lemma_run_over(s, i, text, CharClass::Token);
        },
    }
}

/// The text of a list of well-formed values starts as its first value does.
pub proof fn lemma_values_start(values: Seq<ValueView>)
    requires
        values.len() > 0,
        values_wf(values),
    ensures
        render_values(values).len() > 0,
        !CharClass::Blank.has(render_values(values)[0]),
{
    lemma_value_starts(values[0]);
}

/// The text of well-formed values, before a line feed, reads as these
/// values, behind whatever was read before.
pub proof fn lemma_read_values(
    s: Seq<char>,
    i: int,
    end: int,
    found: Seq<ValueView>,
    values: Seq<ValueView>,
)
    requires
        values.len() > 0,
        values_wf(values),
        stands_at(s, i, render_values(values) + seq!['\n']),
    ensures
        values_from(s, i, end, found) == Ok::<_, ErrorView>(
            (found + values, i + render_values(values).len()),
        ),
    decreases values.len(),
{
    let first = values[0];
    let text = render_value(first);
    let j = i + text.len();
    lemma_value_starts(first);
    if values.len() == 1 {
        lemma_stands_split(s, i, text, seq!['\n']);
        lemma_stands_char(s, j, '\n');
        lemma_read_value(s, i, first);
        lemma_no_run(s, j, CharClass::Space);
        assert(found.push(first) =~= found + values);
    } else {
        let rest = values.drop_first();
        assert(values_wf(rest));
        assert(render_values(values) + seq!['\n'] =~= text + (seq![' '] + (render_values(rest)
            + seq!['\n'])));
        lemma_stands_split(s, i, text, seq![' '] + (render_values(rest) + seq!['\n']));
        lemma_stands_split(s, j, seq![' '], render_values(rest) + seq!['\n']);
        lemma_stands_char(s, j, ' ');
        lemma_read_value(s, i, first);
        lemma_stands_split(s, j + 1, render_values(rest), seq!['\n']);
        lemma_values_start(rest);
        lemma_run_end_is(s, j, j + 1, CharClass::Space);
        lemma_read_values(s, j + 1, j, found.push(first), rest);
        assert(found.push(first) + rest =~= found + values);
    }
}

/// The text of a list of well-formed values, which may be empty, before a
/// line feed, reads as that list.
pub proof fn lemma_read_value_list(s: Seq<char>, i: int, values: Seq<ValueView>)
    requires
        values_wf(values),
        stands_at(s, i, render_values(values) + seq!['\n']),
    ensures
        value_list(s, i) == Ok::<_, ErrorView>((values, i + render_values(values).len())),
{
    if values.len() == 0 {
        lemma_stands_split(s, i, render_values(values), seq!['\n']);
        lemma_stands_char(s, i, '\n');
        lemma_no_run(s, i, CharClass::Token);
        assert(values =~= Seq::empty());
    } else {
        lemma_read_values(s, i, i, Seq::empty(), values);
    }
}

/// Where the closing line of an element stands, no fragment does.
pub proof fn lemma_no_fragment_at_close(s: Seq<char>, i: int, indent: nat)
    requires
        stands_at(s, i, spaces(indent) + seq!['>']),
    ensures
        fragment_at(s, i) == Ok::<Option<(FragmentView, int)>, ErrorView>(None),
        run_end(s, i, CharClass::Blank) == i + indent,
        i + indent < s.len(),
        s[i + indent] == '>',
{
    let start = i + indent;
    lemma_spaces(indent);
    lemma_stands_split(s, i, spaces(indent), seq!['>']);
    lemma_stands_char(s, start, '>');
    lemma_run_over(s, i, spaces(indent), CharClass::Space);
    lemma_run_over(s, i, spaces(indent), CharClass::Blank);
    lemma_no_run(s, start, CharClass::Ident);
    lemma_no_run(s, start, CharClass::Base64);
    lemma_no_run(s, start, CharClass::Space);
}

/// The line of a well-formed attribute reads as that attribute.
pub proof fn lemma_read_attribute(
    s: Seq<char>,
    i: int,
    name: Seq<char>,
    values: Seq<ValueView>,
    indent: nat,
)
    requires
        is_name(name),
        values_wf(values),
        stands_at(s, i, render_fragment(FragmentView::Attribute(name, values), indent)),
    ensures
        fragment_at(s, i) == Ok::<_, ErrorView>(
            Some(
                (
                    FragmentView::Attribute(name, values),
                    i + render_fragment(FragmentView::Attribute(name, values), indent).len(),
                ),
            ),
        ),
{
    let start = i + indent;
    let n = start + name.len();
    let list = render_values(values);
    let j = n + 1 + list.len();
    lemma_spaces(indent);
    assert(render_fragment(FragmentView::Attribute(name, values), indent) =~= spaces(indent) + (
    name + (seq![' '] + (list + seq!['\n']))));
    lemma_stands_split(s, i, spaces(indent), name + (seq![' '] + (list + seq!['\n'])));
    lemma_stands_split(s, start, name, seq![' '] + (list + seq!['\n']));
    lemma_stands_split(s, n, seq![' '], list + seq!['\n']);
    lemma_stands_split(s, n + 1, list, seq!['\n']);
    lemma_stands_char(s, n, ' ');
    lemma_stands_char(s, j, '\n');
    assert(CharClass::Ident.has(name[0]));
    lemma_run_over(s, i, spaces(indent), CharClass::Space);
    lemma_run_over(s, start, name, CharClass::Ident);
    if values.len() > 0 {
        lemma_values_start(values);
    }
    lemma_run_end_is(s, n, n + 1, CharClass::Space);
    lemma_read_value_list(s, n + 1, values);
    lemma_no_run(s, j, CharClass::Space);
}

/// A line of base64 data reads as that data.
pub proof fn lemma_read_bin_data(s: Seq<char>, i: int, data: Seq<char>, indent: nat)
    requires
        is_bin_data(data),
        stands_at(s, i, render_fragment(FragmentView::BinData(data), indent)),
    ensures
        fragment_at(s, i) == Ok::<_, ErrorView>(
            Some(
                (
                    FragmentView::BinData(data),
                    i + render_fragment(FragmentView::BinData(data), indent).len(),
                ),
            ),
        ),
{
    let start = i + indent;
    let b = start + data.len();
    lemma_spaces(indent);
    assert(render_fragment(FragmentView::BinData(data), indent) =~= spaces(indent) + (data
        + seq!['\n']));
    lemma_stands_split(s, i, spaces(indent), data + seq!['\n']);
    lemma_stands_split(s, start, data, seq!['\n']);
    lemma_stands_char(s, b, '\n');
    assert(CharClass::Base64.has(data[0]));
    lemma_run_over(s, i, spaces(indent), CharClass::Space);
    lemma_run_over(s, start, data, CharClass::Base64);
    // The name that may start the line is not followed by a blank.
    lemma_run_end(s, start, CharClass::Ident);
    let n = run_end(s, start, CharClass::Ident);
    assert(n <= b);
    if n < b {
        assert(CharClass::Base64.has(data[n - start]));
    }
    lemma_no_run(s, n, CharClass::Space);
    lemma_no_run(s, b, CharClass::Space);
}

/// An empty line reads as an empty fragment.
pub proof fn lemma_read_empty(s: Seq<char>, i: int)
    requires
        stands_at(s, i, seq!['\n']),
    ensures
        fragment_at(s, i) == Ok::<_, ErrorView>(Some((FragmentView::Empty, i + 1))),
{
    lemma_stands_char(s, i, '\n');
    lemma_no_run(s, i, CharClass::Space);
    lemma_no_run(s, i, CharClass::Ident);
    lemma_no_run(s, i, CharClass::Base64);
}

/// The lines of a well-formed fragment read as that fragment.
pub proof fn lemma_read_fragment(s: Seq<char>, i: int, fragment: FragmentView, indent: nat)
    requires
        fragment_wf(fragment),
        stands_at(s, i, render_fragment(fragment, indent)),
    ensures
        fragment_at(s, i) == Ok::<_, ErrorView>(
            Some((fragment, i + render_fragment(fragment, indent).len())),
        ),
        render_fragment(fragment, indent).len() > 0,
    decreases fragment,
{
    match fragment {
        FragmentView::Attribute(name, values) => {
            lemma_read_attribute(s, i, name, values, indent);
        },
        FragmentView::BinData(data) => {
            lemma_read_bin_data(s, i, data, indent);
        },
        FragmentView::Child(child) => {
            let text = render_element(child, indent);
            let start = i + indent;
            lemma_read_element(s, i, child, indent);
            lemma_spaces(indent);
            assert(text =~= spaces(indent) + (render_opening(child) + render_fragments(
                child.content,
                indent + 1,
            ) + spaces(indent) + seq!['>', '\n']));
            lemma_stands_split(
                s,
                i,
                spaces(indent),
                render_opening(child) + render_fragments(child.content, indent + 1) + spaces(
                    indent,
                ) + seq!['>', '\n'],
            );
            assert(s[start] == '<');
            lemma_run_over(s, i, spaces(indent), CharClass::Space);
            let last = i + text.len() - 1;
            assert(s[last] == '\n') by {
                assert(s[i + (text.len() - 1)] == text[text.len() - 1]);
            }
            lemma_no_run(s, last, CharClass::Space);
        },
        FragmentView::Empty => {
            lemma_read_empty(s, i);
        },
    }
}

/// The lines of well-formed fragments, before the closing line of their
/// element, read as these fragments, behind whatever was read before.
pub proof fn lemma_read_fragments(
    s: Seq<char>,
    i: int,
    found: Seq<FragmentView>,
    fragments: Seq<FragmentView>,
    indent: nat,
    close: nat,
)
    requires
        fragments_wf(fragments),
        stands_at(s, i, render_fragments(fragments, indent) + (spaces(close) + seq!['>'])),
    ensures
        fragments_from(s, i, found) == Ok::<_, ErrorView>(
            (found + fragments, i + render_fragments(fragments, indent).len()),
        ),
    decreases fragments,
{
    if fragments.len() == 0 {
        lemma_stands_split(s, i, render_fragments(fragments, indent), spaces(close) + seq!['>']);
        lemma_no_fragment_at_close(s, i, close);
    } else {
        let first = fragments[0];
        let rest = fragments.drop_first();
        let text = render_fragment(first, indent);
        assert(fragments_wf(rest));
        assert(render_fragments(fragments, indent) + (spaces(close) + seq!['>']) =~= text + (
        render_fragments(rest, indent) + (spaces(close) + seq!['>'])));
        lemma_stands_split(
            s,
            i,
            text,
            render_fragments(rest, indent) + (spaces(close) + seq!['>']),
        );
        lemma_read_fragment(s, i, first, indent);
        lemma_read_fragments(s, i + text.len(), found.push(first), rest, indent, close);
        assert(found.push(first) + rest =~= found + fragments);
    }
}

/// The text of a well-formed element reads as that element, up to the
/// closing `>`.
pub proof fn lemma_read_element(s: Seq<char>, i: int, element: ElementView, indent: nat)
    requires
        element_wf(element),
        stands_at(s, i, render_element(element, indent)),
    ensures
        element_at(s, i + indent) == Ok::<_, ErrorView>(
            (element, i + render_element(element, indent).len() - 1),
        ),
    decreases element,
{
    let start = i + indent;
    let tag = element.tag;
    let t = start + 1 + tag.len();
    let list = render_values(element.args);
    let body = render_fragments(element.content, indent + 1);
    let close = spaces(indent) + seq!['>'];
    lemma_spaces(indent);
    // The opening line.
    let a = if element.args.len() > 0 {
        t + 1
    } else {
        t
    };
    let j = a + list.len();
    if element.args.len() > 0 {
        assert(render_element(element, indent) =~= spaces(indent) + (seq!['<'] + (tag + (seq![' ']
            + ((list + seq!['\n']) + ((body + close) + seq!['\n']))))));
        lemma_stands_split(
            s,
            i,
            spaces(indent),
            seq!['<'] + (tag + (seq![' '] + ((list + seq!['\n']) + ((body + close) + seq![
                '\n',
            ])))),
        );
        lemma_stands_split(
            s,
            start,
            seq!['<'],
            tag + (seq![' '] + ((list + seq!['\n']) + ((body + close) + seq!['\n']))),
        );
        lemma_stands_split(
            s,
            start + 1,
            tag,
            seq![' '] + ((list + seq!['\n']) + ((body + close) + seq!['\n'])),
        );
        lemma_stands_split(s, t, seq![' '], (list + seq!['\n']) + ((body + close) + seq!['\n']));
        lemma_stands_split(s, t + 1, list + seq!['\n'], (body + close) + seq!['\n']);
        lemma_stands_char(s, t, ' ');
        lemma_stands_split(s, t + 1, list, seq!['\n']);
        lemma_values_start(element.args);
        lemma_run_end_is(s, t, t + 1, CharClass::Space);
    } else {
        assert(render_element(element, indent) =~= spaces(indent) + (seq!['<'] + (tag + ((list
            + seq!['\n']) + ((body + close) + seq!['\n'])))));
        lemma_stands_split(
            s,
            i,
            spaces(indent),
            seq!['<'] + (tag + ((list + seq!['\n']) + ((body + close) + seq!['\n']))),
        );
        lemma_stands_split(
            s,
            start,
            seq!['<'],
            tag + ((list + seq!['\n']) + ((body + close) + seq!['\n'])),
        );
        lemma_stands_split(
            s,
            start + 1,
            tag,
            (list + seq!['\n']) + ((body + close) + seq!['\n']),
        );
        lemma_stands_split(s, t, list + seq!['\n'], (body + close) + seq!['\n']);
        lemma_stands_char(s, t, '\n');
        lemma_no_run(s, t, CharClass::Space);
    }
    lemma_stands_char(s, start, '<');
    lemma_stands_split(s, a, list, seq!['\n']);
    lemma_stands_char(s, j, '\n');
    lemma_run_over(s, start + 1, tag, CharClass::Ident);
    lemma_read_value_list(s, a, element.args);
    lemma_no_run(s, j, CharClass::Space);
    // The body and the closing line.
    lemma_stands_split(s, j + 1, body + close, seq!['\n']);
    lemma_read_fragments(s, j + 1, Seq::empty(), element.content, indent + 1, indent);
    let m = j + 1 + body.len();
    lemma_stands_split(s, j + 1, body, close);
    lemma_no_fragment_at_close(s, m, indent);
}

/// Writing, then reading: a well-formed element, written at any depth, reads
/// as the same element, and the reading ends behind its closing `>`.
pub proof fn lemma_write_then_read(element: ElementView, indent: nat)
    requires
        element_wf(element),
    ensures
        element_at(render_element(element, indent), indent as int) == Ok::<_, ErrorView>(
            (element, render_element(element, indent).len() - 1),
        ),
{
    lemma_read_element(render_element(element, indent), 0, element, indent);
}

/// The round trip: where a text reads as an element, that element, written
/// and read again, is the same element, with the same tag, the same
/// arguments in the same order, and the same body, fragment by fragment and
/// all the way down.
pub proof fn lemma_round_trip(text: Seq<char>, i: int)
    ensures
        element_at(text, i) matches Ok((element, _)) ==> element_at(
            render_element(element, 0),
            0,
        ) == Ok::<_, ErrorView>((element, render_element(element, 0).len() - 1)),
{
    lemma_element_at_wf(text, i);
    if let Ok((element, _)) = element_at(text, i) {
        lemma_write_then_read(element, 0);
    }
}

} // verus!
