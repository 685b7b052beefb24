//! The tree that a project file is read into, and its mathematical model.

use vstd::prelude::*;

verus! {

/// The model of a value: its kind and its text.
pub enum ValueView {
    /// Text that stood between double quotes, with its escapes resolved.
    Quoted(Seq<char>),
    /// An unquoted token that is no number.
    Bare(Seq<char>),
    /// An unquoted token that is a decimal number, as it was written.
    Number(Seq<char>),
}

/// The model of one line of an element's body.
pub enum FragmentView {
    Attribute(Seq<char>, Seq<ValueView>),
    Child(ElementView),
    BinData(Seq<char>),
    Empty,
}

/// The model of an element: its tag, the values on its opening line, and the
/// lines of its body in the order of the text.
pub struct ElementView {
    pub tag: Seq<char>,
    pub args: Seq<ValueView>,
    pub content: Seq<FragmentView>,
}

/// One atomic datum of an argument list or of an attribute.
#[derive(Debug, PartialEq)]
pub enum RValue {
    /// Quoted string, with its escapes resolved.
    QS(String),
    /// Unquoted string.
    S(String),
    /// Number: the decimal literal, as it was written.
    N(String),
}

/// What one line of an element's body holds.
#[derive(Debug, PartialEq)]
pub enum RFragment {
    Attribute(String, Vec<RValue>),
    Child(RElement),
    BinData(String),
    Empty,
}

/// One `<TAG ... >` construct.
#[derive(Debug, PartialEq)]
pub struct RElement {
    pub tag: String,
    pub args: Vec<RValue>,
    pub content: Vec<RFragment>,
}

/// What names a fragment inside its element: an attribute by its name, a
/// line of base64 data and a child by their position.
#[derive(Debug, PartialEq, Eq)]
pub enum RFragmentId {
    Attribute(String),
    BinData(usize),
    Child(usize),
}

impl View for RValue {
    type V = ValueView;

    open spec fn view(&self) -> ValueView {
        match self {
            RValue::QS(text) => ValueView::Quoted(text@),
            RValue::S(text) => ValueView::Bare(text@),
            RValue::N(text) => ValueView::Number(text@),
        }
    }
}

/// The models of a sequence of values, in order.
pub open spec fn values_view(values: Seq<RValue>) -> Seq<ValueView> {
    values.map_values(|v: RValue| v@)
}

impl View for RFragment {
    type V = FragmentView;

    open spec fn view(&self) -> FragmentView
        decreases self,
    {
        match self {
            RFragment::Attribute(name, values) => FragmentView::Attribute(
                name@,
                values_view(values@),
            ),
            RFragment::Child(child) => FragmentView::Child(child@),
            RFragment::BinData(data) => FragmentView::BinData(data@),
            RFragment::Empty => FragmentView::Empty,
        }
    }
}

impl View for RElement {
    type V = ElementView;

    open spec fn view(&self) -> ElementView
        decreases self,
    {
        ElementView {
            tag: self.tag@,
            args: values_view(self.args@),
            content: Seq::new(
                self.content@.len(),
                |k: int|
                    if 0 <= k < self.content@.len() {
                        self.content@[k]@
                    } else {
                        FragmentView::Empty
                    },
            ),
        }
    }
}

impl Default for RElement {
    /// The element without a tag, without arguments and with an empty body.
    fn default() -> (element: RElement)
        ensures
            element@ == (ElementView {
                tag: Seq::empty(),
                args: Seq::empty(),
                content: Seq::empty(),
            }),
    {
        let element = RElement { tag: String::new(), args: Vec::new(), content: Vec::new() };
        assert(element@.args =~= Seq::empty());
        assert(element@.content =~= Seq::empty());
        element
    }
}

/// The models of a sequence of fragments, in order.
pub open spec fn fragments_view(fragments: Seq<RFragment>) -> Seq<FragmentView> {
    fragments.map_values(|f: RFragment| f@)
}

/// The body of an element's model holds the models of its fragments.
pub proof fn lemma_content_view(element: RElement)
    ensures
        element@.content == fragments_view(element.content@),
{
}

} // verus!
