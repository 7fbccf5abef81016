//! A named document: the root compound and its name.

use crate::tags::{Compound, Tag, TagView};
use crate::util::{FromTag, ToTag};
use vstd::prelude::*;

verus! {

/// A NBT Document containing an implicit compound and root name.
#[derive(Debug)]
pub struct Blob {
    /// Name of the root compound
    pub root: String,
    /// Elements of the root compound
    pub elements: Compound,
}

impl View for Blob {
    type V = (Seq<char>, Map<Seq<char>, TagView>);

    open spec fn view(&self) -> (Seq<char>, Map<Seq<char>, TagView>) {
        (self.root@, self.elements@)
    }
}

impl Blob {
    /// Create a new `Blob` with a given root compound name.
    pub fn create(root: &str) -> (r: Blob)
        ensures
            r@ == (root@, Map::<Seq<char>, TagView>::empty()),
    {
        Blob { root: String::from_str(root), elements: Compound::new() }
    }

    /// Create a new `Blob` with a empty root name.
    pub fn new() -> (r: Blob)
        ensures
            r@ == (Seq::<char>::empty(), Map::<Seq<char>, TagView>::empty()),
    {
        Blob { root: String::new(), elements: Compound::new() }
    }

    /// Insert a element into the root compound.
    ///
    /// The payload element takes a `Tag` or any type that implements `ToTag`.
    /// The tag that stood under the name before is handed back.
    pub fn insert<P: ToTag>(&mut self, name: &str, payload: P) -> (r: Option<Tag>)
        ensures
            final(self).root == old(self).root,
            final(self).elements@ == old(self).elements@.insert(name@, payload.tag_view()),
            match r {
                Some(prior) => old(self).elements@.dom().contains(name@) && prior@ == old(
                    self,
                ).elements@[name@],
                None => !old(self).elements@.dom().contains(name@),
            },
    {
        self.elements.insert_tag(name, payload.into_tag())
    }

    /// Get a element from the root compound, with a given type.
    ///
    /// Uses the `FromTag` trait to convert a tag into a desired type: there
    /// is a value exactly where a tag stands under the name and is of the
    /// variant that holds a `T`.
    pub fn get<T: FromTag>(&self, name: &str) -> (r: Option<&T>)
        ensures
            match r {
                Some(value) => self.elements.tag_under(name@) matches Some(tag) && T::taken_from(
                    tag,
                ) == Some(*value),
                None => self.elements.tag_under(name@) matches Some(tag) ==> T::taken_from(tag)
                    is None,
            },
    {
        match self.elements.get_tag(name) {
            Some(tag) => T::from_borrowed_tag(tag),
            None => None,
        }
    }

    /// Get the NBT blob as a compound tag.
    pub fn compound(self) -> (r: Tag)
        ensures
            r == Tag::Compound(self.elements),
            r@ == TagView::Compound(self.elements@),
    {
        proof {
            self.elements.lemma_entries_smaller();
        }
        Tag::Compound(self.elements)
    }
}

impl std::ops::Deref for Blob {
    type Target = Compound;

    fn deref(&self) -> (r: &Compound)
        ensures
            *r == self.elements,
    {
        &self.elements
    }
}

} // verus!
