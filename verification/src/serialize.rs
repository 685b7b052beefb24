//! Writing a tree as text.

use vstd::prelude::*;
use crate::render::{
    escape, escaped, lemma_escaped_push, lemma_render_fragments_push, lemma_render_values_push,
    render_element, render_fragment, render_fragments, render_opening, render_value,
    render_values, spaces,
};
use crate::tree::{fragments_view, lemma_content_view, values_view, RElement, RFragment, RValue};

verus! {

/// Appends what stands for `c` between double quotes.
pub fn push_escaped(out: &mut String, c: char)
    ensures
        final(out)@ == old(out)@ + escape(c),
{
    if c == '"' {
        out.push('\\');
        out.push('"');
    } else if c == '\t' {
        out.push('\\');
        out.push('t');
    } else if c == '\n' {
        out.push('\\');
        out.push('n');
    } else if c == '\\' {
        out.push('\\');
        out.push('\\');
    } else {
        out.push(c);
    }
}

/// A text of `n` spaces.
pub fn indentation(n: usize) -> (text: String)
    ensures
        text@ == spaces(n as nat),
{
    let mut text = String::new();
    let mut k: usize = 0;
    while k < n
        invariant
            k <= n,
            text@ == spaces(k as nat),
        decreases n - k,
    {
        text.push(' ');
        k += 1;
    }
    text
}

impl RValue {
    /// The value as text: a quoted string between double quotes, with `"`,
    /// tab, line feed and `\` escaped; an unquoted string and a number as
    /// they are.
    pub fn to_string(&self) -> (text: String)
        ensures
            text@ == render_value(self@),
    {
        match self {
            RValue::QS(value) => {
                let mut text = String::new();
                text.push('"');
                for c in it: value.as_str().chars()
                    invariant
                        it.seq() == value@,
                        text@ == seq!['"'] + escaped(it.seq().take(it.index())),
                {
                    let ghost before = it.seq().take(it.index());
                    push_escaped(&mut text, c);
                    proof {
                        lemma_escaped_push(before, c);
                        assert(it.seq().take(it.index() + 1) =~= before.push(c));
                    }
                }
                assert(value@.take(value@.len() as int) =~= value@);
                text.push('"');
                text
            },
            RValue::S(value) => value.clone(),
            RValue::N(value) => value.clone(),
        }
    }
}

impl RElement {
    /// The values as text, with one space between each two.
    pub fn value_list_to_string(values: &Vec<RValue>) -> (text: String)
        ensures
            text@ == render_values(values_view(values@)),
    {
        let mut text = String::new();
        let mut k: usize = 0;
        let ghost all = values_view(values@);
        while k < values.len()
            invariant
                k <= values.len(),
                all == values_view(values@),
                text@ == render_values(all.take(k as int)),
            decreases values.len() - k,
        {
            if k != 0 {
                text.push(' ');
            }
            let piece = values[k].to_string();
            text.append(piece.as_str());
            proof {
                lemma_render_values_push(all.take(k as int), all[k as int]);
                assert(all.take(k as int).push(all[k as int]) =~= all.take(k + 1));
            }
            k += 1;
        }
        assert(all.take(values.len() as int) =~= all);
        text
    }

    /// Appends the element as text, with `prefix` before each line of its
    /// own and one space more before the lines of its body.
    fn write(&self, prefix: &str, out: &mut String)
        requires
            prefix@ == spaces(prefix@.len()),
        ensures
            final(out)@ == old(out)@ + render_element(self@, prefix@.len()),
        decreases self,
    {
        let ghost indent = prefix@.len();
        let mut inner = String::from_str(prefix);
        inner.push(' ');
        out.append(prefix);
        out.push('<');
        out.append(self.tag.as_str());
        if self.args.len() > 0 {
            out.push(' ');
            let args = Self::value_list_to_string(&self.args);
            out.append(args.as_str());
        }
        out.push('\n');
        let ghost opened = out@;
        let ghost all = self@.content;
        proof {
            lemma_content_view(*self);
        }
        let mut k: usize = 0;
        while k < self.content.len()
            invariant
                k <= self.content.len(),
                all == fragments_view(self.content@),
                inner@ == spaces(indent + 1),
                out@ == opened + render_fragments(all.take(k as int), indent + 1),
            decreases self.content.len() - k,
        {
            match &self.content[k] {
                RFragment::Attribute(name, values) => {
                    out.append(inner.as_str());
                    out.append(name.as_str());
                    out.push(' ');
                    let list = Self::value_list_to_string(values);
                    out.append(list.as_str());
                    out.push('\n');
                },
                RFragment::BinData(data) => {
                    out.append(inner.as_str());
                    out.append(data.as_str());
                    out.push('\n');
                },
                RFragment::Child(child) => {
                    child.write(inner.as_str(), out);
                },
                RFragment::Empty => {
                    out.push('\n');
                },
            }
            proof {
                lemma_render_fragments_push(all.take(k as int), all[k as int], indent + 1);
                assert(all.take(k as int).push(all[k as int]) =~= all.take(k + 1));
            }
            k += 1;
        }
        assert(all.take(self.content.len() as int) =~= all);
        out.append(prefix);
        out.push('>');
        out.push('\n');
    }

    /// The element as text, at the depth `indent`: each of its own lines
    /// behind `indent` spaces, each line of its body behind one more, and so
    /// on down the tree, with the fragments in their order.
    pub fn to_string_with_indent(&self, indent: usize) -> (text: String)
        ensures
            text@ == render_element(self@, indent as nat),
    {
        let prefix = indentation(indent);
        let mut text = String::new();
        self.write(prefix.as_str(), &mut text);
        text
    }

    /// The element as text, at the depth 0.
    pub fn to_string(&self) -> (text: String)
        ensures
            text@ == render_element(self@, 0),
    {
        self.to_string_with_indent(0)
    }
}

} // verus!
