//! A project file seen as a project with tracks and items.

use vstd::prelude::*;
use crate::query::{argument_text, attribute_number, attribute_text, children_tagged};
use crate::tree::RElement;

verus! {

/// A project: the root element of a project file.
pub struct Project(pub RElement);

/// A track of a project: a child tagged `TRACK`.
pub struct Track<'a>(pub &'a RElement);

/// An item of a track: a child tagged `ITEM`.
pub struct Item<'a>(pub &'a RElement);

impl Project {
    /// The version of the program that wrote the project: the text of the
    /// root's second argument.
    pub fn reaper_version(&self) -> (r: Option<&str>)
        ensures
            match r {
                Some(text) => argument_text(self.0@, 1) == Some(text@),
                None => argument_text(self.0@, 1) is None,
            },
    {
        self.0.get_str_arg(1)
    }

    /// The tracks of the project, in the order of the file.
    pub fn tracks(&self) -> (tracks: Vec<Track<'_>>)
        ensures
            tracks@.len() == children_tagged(self.0@.content, "TRACK"@).len(),
            forall|k: int|
                0 <= k < tracks@.len() ==> (#[trigger] tracks@[k]).0@ == children_tagged(
                    self.0@.content,
                    "TRACK"@,
                )[k],
    {
        let children = self.0.children_with_tag("TRACK");
        let ghost found = children@.map_values(|c: &RElement| c@);
        let mut tracks: Vec<Track<'_>> = Vec::new();
        let mut k: usize = 0;
        while k < children.len()
            invariant
                k <= children.len(),
                tracks@.len() == k,
                found == children@.map_values(|c: &RElement| c@),
                forall|j: int| 0 <= j < k ==> (#[trigger] tracks@[j]).0@ == found[j],
            decreases children.len() - k,
        {
            tracks.push(Track(children[k]));
            k += 1;
        }
        tracks
    }
}

impl<'a> Track<'a> {
    /// The name of the track: the text of the first value of its first
    /// `NAME` attribute.
    pub fn name(&self) -> (r: Option<&'a str>)
        ensures
            match r {
                Some(text) => attribute_text(self.0@, "NAME"@, 0) == Some(text@),
                None => attribute_text(self.0@, "NAME"@, 0) is None,
            },
    {
        self.0.get_str_attr("NAME", 0)
    }

    /// The items of the track, in the order of the file.
    pub fn items(&self) -> (items: Vec<Item<'a>>)
        ensures
            items@.len() == children_tagged(self.0@.content, "ITEM"@).len(),
            forall|k: int|
                0 <= k < items@.len() ==> (#[trigger] items@[k]).0@ == children_tagged(
                    self.0@.content,
                    "ITEM"@,
                )[k],
    {
        let children = self.0.children_with_tag("ITEM");
        let ghost found = children@.map_values(|c: &RElement| c@);
        let mut items: Vec<Item<'a>> = Vec::new();
        let mut k: usize = 0;
        while k < children.len()
            invariant
                k <= children.len(),
                items@.len() == k,
                found == children@.map_values(|c: &RElement| c@),
                forall|j: int| 0 <= j < k ==> (#[trigger] items@[j]).0@ == found[j],
            decreases children.len() - k,
        {
            items.push(Item(children[k]));
            k += 1;
        }
        items
    }
}

impl<'a> Item<'a> {
    /// The length of the item: the decimal literal of the first value of its
    /// first `LENGTH` attribute.
    pub fn len(&self) -> (r: Option<&'a str>)
        ensures
            match r {
                Some(literal) => attribute_number(self.0@, "LENGTH"@, 0) == Some(literal@),
                None => attribute_number(self.0@, "LENGTH"@, 0) is None,
            },
    {
        self.0.get_num_attr("LENGTH", 0)
    }
}

} // verus!
