//! Looking things up in a tree: arguments by position, attributes by name
//! and occurrence, children by tag. Nothing here fails: what is not there,
//! or is of another kind, is absent.

use vstd::prelude::*;
use crate::tree::{
    fragments_view, lemma_content_view, values_view, ElementView, FragmentView, RElement,
    RFragment, RValue, ValueView,
};
use crate::wellformed::{element_wf, is_bin_data, is_name, values_wf};

verus! {

/// The text of a value that is text; a number has none.
pub open spec fn value_text(value: ValueView) -> Option<Seq<char>> {
    match value {
        ValueView::Quoted(text) => Some(text),
        ValueView::Bare(text) => Some(text),
        ValueView::Number(_) => None,
    }
}

/// The literal of a value that is a number; text has none.
pub open spec fn value_number(value: ValueView) -> Option<Seq<char>> {
    match value {
        ValueView::Number(literal) => Some(literal),
        _ => None,
    }
}

/// The values of a fragment that is an attribute named `name`.
pub open spec fn attribute_values(fragment: FragmentView, name: Seq<char>) -> Option<
    Seq<ValueView>,
> {
    match fragment {
        FragmentView::Attribute(n, values) => if n == name {
            Some(values)
        } else {
            None
        },
        _ => None,
    }
}

/// The element of a fragment that is a child tagged `tag`.
pub open spec fn child_tagged(fragment: FragmentView, tag: Seq<char>) -> Option<ElementView> {
    match fragment {
        FragmentView::Child(child) => if child.tag == tag {
            Some(child)
        } else {
            None
        },
        _ => None,
    }
}

/// The value lists of the attributes named `name` in a body, in the order
/// of the body. A name may occur more than once.
pub open spec fn attributes_named(content: Seq<FragmentView>, name: Seq<char>) -> Seq<
    Seq<ValueView>,
>
    decreases content.len(),
{
    if content.len() == 0 {
        Seq::empty()
    } else {
        let before = attributes_named(content.drop_last(), name);
        match attribute_values(content.last(), name) {
            Some(values) => before.push(values),
            None => before,
        }
    }
}

/// The children tagged `tag` in a body, in the order of the body.
pub open spec fn children_tagged(content: Seq<FragmentView>, tag: Seq<char>) -> Seq<ElementView>
    decreases content.len(),
{
    if content.len() == 0 {
        Seq::empty()
    } else {
        let before = children_tagged(content.drop_last(), tag);
        match child_tagged(content.last(), tag) {
            Some(child) => before.push(child),
            None => before,
        }
    }
}

/// The first value of the occurrence `index`, counted from 0, of the
/// attribute `name` in the element's body.
pub open spec fn attribute_value(element: ElementView, name: Seq<char>, index: int) -> Option<
    ValueView,
> {
    let lists = attributes_named(element.content, name);
    if 0 <= index < lists.len() && lists[index].len() > 0 {
        Some(lists[index][0])
    } else {
        None
    }
}

/// The text of the argument `index`, counted from 0.
pub open spec fn argument_text(element: ElementView, index: int) -> Option<Seq<char>> {
    if 0 <= index < element.args.len() {
        value_text(element.args[index])
    } else {
        None
    }
}

/// The text of the first value of an occurrence of an attribute.
pub open spec fn attribute_text(element: ElementView, name: Seq<char>, index: int) -> Option<
    Seq<char>,
> {
    match attribute_value(element, name, index) {
        Some(value) => value_text(value),
        None => None,
    }
}

/// The literal of the first value of an occurrence of an attribute.
pub open spec fn attribute_number(element: ElementView, name: Seq<char>, index: int) -> Option<
    Seq<char>,
> {
    match attribute_value(element, name, index) {
        Some(value) => value_number(value),
        None => None,
    }
}

/// The attributes named `name` among the first `k` fragments of a body are
/// the first of those in the whole body.
pub proof fn lemma_attributes_named_prefix(content: Seq<FragmentView>, name: Seq<char>, k: int)
    requires
        0 <= k <= content.len(),
    ensures
        attributes_named(content.take(k), name).len() <= attributes_named(content, name).len(),
        forall|j: int|
            0 <= j < attributes_named(content.take(k), name).len() ==> attributes_named(
                content.take(k),
                name,
            )[j] == attributes_named(content, name)[j],
    decreases content.len(),
{
    if k == content.len() {
        assert(content.take(k) =~= content);
    } else {
        assert(content.drop_last().take(k) =~= content.take(k));
        lemma_attributes_named_prefix(content.drop_last(), name, k);
    }
}

/// One more fragment adds its values where it is an attribute of that name.
pub proof fn lemma_attributes_named_step(content: Seq<FragmentView>, name: Seq<char>, k: int)
    requires
        0 <= k < content.len(),
    ensures
        attributes_named(content.take(k + 1), name) == match attribute_values(content[k], name) {
            Some(values) => attributes_named(content.take(k), name).push(values),
            None => attributes_named(content.take(k), name),
        },
{
    assert(content.take(k + 1).drop_last() =~= content.take(k));
}

/// One more fragment adds its element where it is a child of that tag.
pub proof fn lemma_children_tagged_step(content: Seq<FragmentView>, tag: Seq<char>, k: int)
    requires
        0 <= k < content.len(),
    ensures
        children_tagged(content.take(k + 1), tag) == match child_tagged(content[k], tag) {
            Some(child) => children_tagged(content.take(k), tag).push(child),
            None => children_tagged(content.take(k), tag),
        },
{
    assert(content.take(k + 1).drop_last() =~= content.take(k));
}

/// The values of the fragment, where it is an attribute named `name`.
pub fn is_fragment_attribute<'a>(fragment: &'a RFragment, name: &String) -> (r: Option<
    &'a Vec<RValue>,
>)
    ensures
        match r {
            Some(values) => attribute_values(fragment@, name@) == Some(values_view(values@)),
            None => attribute_values(fragment@, name@) is None,
        },
{
    match fragment {
        RFragment::Attribute(attribute_name, values) => {
            if *attribute_name == *name {
                Some(values)
            } else {
                None
            }
        },
        _ => None,
    }
}

/// The element of the fragment, where it is a child tagged `tag`.
pub fn is_child_tag<'a>(fragment: &'a RFragment, tag: &String) -> (r: Option<&'a RElement>)
    ensures
        match r {
            Some(child) => child_tagged(fragment@, tag@) == Some(child@),
            None => child_tagged(fragment@, tag@) is None,
        },
{
    match fragment {
        RFragment::Child(child) => {
            if child.tag == *tag {
                Some(child)
            } else {
                None
            }
        },
        _ => None,
    }
}

impl RValue {
    /// The text of the value, where it is text: quoted or unquoted.
    pub fn get_str(&self) -> (r: Option<&str>)
        ensures
            match r {
                Some(text) => value_text(self@) == Some(text@),
                None => value_text(self@) is None,
            },
    {
        match self {
            RValue::QS(text) => Some(text.as_str()),
            RValue::S(text) => Some(text.as_str()),
            RValue::N(_) => None,
        }
    }

    /// The decimal literal of the value, where it is a number.
    pub fn get_num(&self) -> (r: Option<&str>)
        ensures
            match r {
                Some(literal) => value_number(self@) == Some(literal@),
                None => value_number(self@) is None,
            },
    {
        match self {
            RValue::N(literal) => Some(literal.as_str()),
            _ => None,
        }
    }
}

impl RElement {
    /// The text of the argument `index`, counted from 0: absent where there
    /// is no such argument or where it is a number.
    pub fn get_str_arg(&self, index: usize) -> (r: Option<&str>)
        ensures
            match r {
                Some(text) => argument_text(self@, index as int) == Some(text@),
                None => argument_text(self@, index as int) is None,
            },
    {
        if index < self.args.len() {
            self.args[index].get_str()
        } else {
            None
        }
    }

    /// The first value of the occurrence `index`, counted from 0, of the
    /// attribute `name`: absent where the name occurs less often or where
    /// that occurrence has no value.
    pub fn get_attr(&self, name: &str, index: usize) -> (r: Option<&RValue>)
        ensures
            match r {
                Some(value) => attribute_value(self@, name@, index as int) == Some(value@),
                None => attribute_value(self@, name@, index as int) is None,
            },
    {
        let wanted = String::from_str(name);
        let ghost all = self@.content;
        proof {
            lemma_content_view(*self);
        }
        let mut seen: usize = 0;
        let mut k: usize = 0;
        while k < self.content.len()
            invariant
                k <= self.content.len(),
                all == fragments_view(self.content@),
                all == self@.content,
                wanted@ == name@,
                seen <= k,
                seen <= index,
                seen == attributes_named(all.take(k as int), name@).len(),
            decreases self.content.len() - k,
        {
            proof {
                lemma_attributes_named_step(all, name@, k as int);
                lemma_attributes_named_prefix(all, name@, k + 1);
            }
            match is_fragment_attribute(&self.content[k], &wanted) {
                Some(values) => {
                    if seen == index {
                        if values.len() > 0 {
                            return Some(&values[0]);
                        } else {
                            return None;
                        }
                    }
                    seen += 1;
                },
                None => {},
            }
            k += 1;
        }
        assert(all.take(self.content.len() as int) =~= all);
        None
    }

    /// The text of the first value of the occurrence `index`, counted from
    /// 0, of the attribute `name`: absent where there is no such value or
    /// where it is a number.
    pub fn get_str_attr(&self, name: &str, index: usize) -> (r: Option<&str>)
        ensures
            match r {
                Some(text) => attribute_text(self@, name@, index as int) == Some(text@),
                None => attribute_text(self@, name@, index as int) is None,
            },
    {
        match self.get_attr(name, index) {
            Some(value) => value.get_str(),
            None => None,
        }
    }

    /// The decimal literal of the first value of the occurrence `index`,
    /// counted from 0, of the attribute `name`: absent where there is no such
    /// value or where it is text.
    pub fn get_num_attr(&self, name: &str, index: usize) -> (r: Option<&str>)
        ensures
            match r {
                Some(literal) => attribute_number(self@, name@, index as int) == Some(literal@),
                None => attribute_number(self@, name@, index as int) is None,
            },
    {
        match self.get_attr(name, index) {
            Some(value) => value.get_num(),
            None => None,
        }
    }

    /// The children tagged `tag`, in the order of the body.
    pub fn children_with_tag(&self, tag: &str) -> (children: Vec<&RElement>)
        ensures
            children@.map_values(|c: &RElement| c@) == children_tagged(self@.content, tag@),
    {
        let wanted = String::from_str(tag);
        let ghost all = self@.content;
        proof {
            lemma_content_view(*self);
        }
        let mut children: Vec<&RElement> = Vec::new();
        let mut k: usize = 0;
        while k < self.content.len()
            invariant
                k <= self.content.len(),
                all == fragments_view(self.content@),
                all == self@.content,
                wanted@ == tag@,
                children@.map_values(|c: &RElement| c@) == children_tagged(
                    all.take(k as int),
                    tag@,
                ),
            decreases self.content.len() - k,
        {
            proof {
                lemma_children_tagged_step(all, tag@, k as int);
            }
            match is_child_tag(&self.content[k], &wanted) {
                Some(child) => {
                    children.push(child);
                },
                None => {},
            }
            k += 1;
        }
        assert(all.take(self.content.len() as int) =~= all);
        children
    }

    /// Appends an attribute to the body. A well-formed element stays well
    /// formed where the name is a name and the values are well formed.
    pub fn append_attribute(&mut self, name: String, values: Vec<RValue>)
        ensures
            final(self)@ == (ElementView {
                content: old(self)@.content.push(
                    FragmentView::Attribute(name@, values_view(values@)),
                ),
                ..old(self)@
            }),
            element_wf(old(self)@) && is_name(name@) && values_wf(values_view(values@))
                ==> element_wf(final(self)@),
    {
        proof {
            lemma_content_view(*self);
        }
        self.content.push(RFragment::Attribute(name, values));
        proof {
            lemma_content_view(*self);
            assert(self@.content =~= old(self)@.content.push(
                FragmentView::Attribute(name@, values_view(values@)),
            ));
        }
    }

    /// Appends a line of base64 data to the body. A well-formed element
    /// stays well formed where the data is not empty and of the base64
    /// alphabet.
    pub fn append_bin_data(&mut self, data: String)
        ensures
            final(self)@ == (ElementView {
                content: old(self)@.content.push(FragmentView::BinData(data@)),
                ..old(self)@
            }),
            element_wf(old(self)@) && is_bin_data(data@) ==> element_wf(final(self)@),
    {
        proof {
            lemma_content_view(*self);
        }
        self.content.push(RFragment::BinData(data));
        proof {
            lemma_content_view(*self);
            assert(self@.content =~= old(self)@.content.push(FragmentView::BinData(data@)));
        }
    }

    /// Appends a child element to the body. A well-formed element stays well
    /// formed where the child is well formed.
    pub fn append_child(&mut self, child: RElement)
        ensures
            final(self)@ == (ElementView {
                content: old(self)@.content.push(FragmentView::Child(child@)),
                ..old(self)@
            }),
            element_wf(old(self)@) && element_wf(child@) ==> element_wf(final(self)@),
    {
        proof {
            lemma_content_view(*self);
        }
        self.content.push(RFragment::Child(child));
        proof {
            lemma_content_view(*self);
            assert(self@.content =~= old(self)@.content.push(FragmentView::Child(child@)));
        }
    }
}

} // verus!
