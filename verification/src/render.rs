//! The text that a tree is written as, as functions on the models.

use vstd::prelude::*;
use crate::tree::{ElementView, FragmentView, ValueView};

verus! {

/// `n` spaces.
pub open spec fn spaces(n: nat) -> Seq<char> {
    Seq::new(n, |k: int| ' ')
}

/// What stands for `c` between double quotes: a backslash and a letter or
/// the character itself where `c` is a double quote, a tab, a line feed or a
/// backslash, else `c` alone.
pub open spec fn escape(c: char) -> Seq<char> {
    if c == '"' {
        seq!['\\', '"']
    } else if c == '\t' {
        seq!['\\', 't']
    } else if c == '\n' {
        seq!['\\', 'n']
    } else if c == '\\' {
        seq!['\\', '\\']
    } else {
        seq![c]
    }
}

/// `text` with each of its characters escaped.
pub open spec fn escaped(text: Seq<char>) -> Seq<char>
    decreases text.len(),
{
    if text.len() == 0 {
        Seq::empty()
    } else {
        escape(text[0]) + escaped(text.drop_first())
    }
}

/// A value as text: a quoted string between double quotes, with its
/// characters escaped; an unquoted string and a number as they are.
pub open spec fn render_value(value: ValueView) -> Seq<char> {
    match value {
        ValueView::Quoted(text) => seq!['"'] + escaped(text) + seq!['"'],
        ValueView::Bare(text) => text,
        ValueView::Number(text) => text,
    }
}

/// Values as text, with one space between each two.
pub open spec fn render_values(values: Seq<ValueView>) -> Seq<char>
    decreases values.len(),
{
    if values.len() == 0 {
        Seq::empty()
    } else if values.len() == 1 {
        render_value(values[0])
    } else {
        render_value(values[0]) + seq![' '] + render_values(values.drop_first())
    }
}

/// One fragment of a body whose lines are indented by `indent` spaces: an
/// attribute as its name, a space and its values; base64 data as it is; a
/// child element as an element, at this depth; an empty line as nothing.
/// Each ends its line.
pub open spec fn render_fragment(fragment: FragmentView, indent: nat) -> Seq<char>
    decreases fragment,
{
    match fragment {
        FragmentView::Attribute(name, values) => spaces(indent) + name + seq![' ']
            + render_values(values) + seq!['\n'],
        FragmentView::BinData(data) => spaces(indent) + data + seq!['\n'],
        FragmentView::Child(child) => render_element(child, indent),
        FragmentView::Empty => seq!['\n'],
    }
}

/// The fragments of a body, in their order.
pub open spec fn render_fragments(fragments: Seq<FragmentView>, indent: nat) -> Seq<char>
    decreases fragments,
{
    if fragments.len() == 0 {
        Seq::empty()
    } else {
        render_fragment(fragments[0], indent) + render_fragments(fragments.drop_first(), indent)
    }
}

/// The line that opens an element: `<`, the tag, and the arguments after a
/// space where there are any.
pub open spec fn render_opening(element: ElementView) -> Seq<char> {
    seq!['<'] + element.tag + if element.args.len() > 0 {
        seq![' '] + render_values(element.args)
    } else {
        Seq::empty()
    } + seq!['\n']
}

/// An element at the depth `indent`: the opening line, the body one level
/// deeper, and the closing `>` on a line of its own. One space indents one
/// level.
pub open spec fn render_element(element: ElementView, indent: nat) -> Seq<char>
    decreases element,
{
    spaces(indent) + render_opening(element) + render_fragments(element.content, indent + 1)
        + spaces(indent) + seq!['>', '\n']
}

/// Escaping goes character by character.
pub proof fn lemma_escaped_push(text: Seq<char>, c: char)
    ensures
        escaped(text.push(c)) == escaped(text) + escape(c),
    decreases text.len(),
{
    if text.len() == 0 {
        assert(text.push(c).drop_first() =~= Seq::<char>::empty());
        assert(escaped(text.push(c)) =~= escape(c) + escaped(Seq::empty()));
    } else {
        assert(text.push(c).drop_first() =~= text.drop_first().push(c));
        lemma_escaped_push(text.drop_first(), c);
    }
}

/// One more value adds a space, where it is not the first, and the value.
pub proof fn lemma_render_values_push(values: Seq<ValueView>, value: ValueView)
    ensures
        render_values(values.push(value)) == render_values(values) + if values.len() > 0 {
            seq![' ']
        } else {
            Seq::empty()
        } + render_value(value),
    decreases values.len(),
{
    if values.len() == 0 {
        assert(render_values(values.push(value)) =~= render_values(values) + Seq::empty()
            + render_value(value));
    } else {
        assert(values.push(value).drop_first() =~= values.drop_first().push(value));
        lemma_render_values_push(values.drop_first(), value);
        assert(render_values(values.push(value)) =~= render_values(values) + seq![' ']
            + render_value(value));
    }
}

/// One more fragment adds its lines.
pub proof fn lemma_render_fragments_push(
    fragments: Seq<FragmentView>,
    fragment: FragmentView,
    indent: nat,
)
    ensures
        render_fragments(fragments.push(fragment), indent) == render_fragments(fragments, indent)
            + render_fragment(fragment, indent),
    decreases fragments.len(),
{
    if fragments.len() == 0 {
        assert(fragments.push(fragment).drop_first() =~= Seq::<FragmentView>::empty());
        assert(render_fragments(Seq::<FragmentView>::empty(), indent) =~= Seq::<char>::empty());
        assert(render_fragments(fragments.push(fragment), indent) =~= render_fragments(
            fragments,
            indent,
        ) + render_fragment(fragment, indent));
    } else {
        assert(fragments.push(fragment).drop_first() =~= fragments.drop_first().push(fragment));
        lemma_render_fragments_push(fragments.drop_first(), fragment, indent);
        assert(render_fragments(fragments.push(fragment), indent) =~= render_fragments(
            fragments,
            indent,
        ) + render_fragment(fragment, indent));
    }
}

} // verus!
