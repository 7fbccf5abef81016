//! Conversions between native values and tags.

use crate::tags::{Compound, Tag, TagView};
use vstd::prelude::*;

verus! {

/// A value that can be boxed into a tag.
pub trait ToTag: Sized {
    /// The value of the tag that `self` turns into.
    spec fn tag_view(&self) -> TagView;

    fn into_tag(self) -> (r: Tag)
        ensures
            r@ == self.tag_view(),
    ;
}

/// A value that can be taken out of a tag of the matching variant.
pub trait FromTag: Sized {
    /// What is taken out of `tag`: something exactly where the tag is of the
    /// variant that holds a `Self`.
    spec fn taken_from(tag: Tag) -> Option<Self>;

    fn from_tag(tag: Tag) -> (r: Option<Self>)
        ensures
            r == Self::taken_from(tag),
    ;

    fn from_borrowed_tag(tag: &Tag) -> (r: Option<&Self>)
        ensures
            match r {
                Some(value) => Self::taken_from(*tag) == Some(*value),
                None => Self::taken_from(*tag) is None,
            },
    ;
}

impl ToTag for i8 {
    open spec fn tag_view(&self) -> TagView {
        TagView::Byte(*self)
    }

    fn into_tag(self) -> (r: Tag) {
        Tag::Byte(self)
    }
}

impl ToTag for i16 {
    open spec fn tag_view(&self) -> TagView {
        TagView::Short(*self)
    }

    fn into_tag(self) -> (r: Tag) {
        Tag::Short(self)
    }
}

impl ToTag for i32 {
    open spec fn tag_view(&self) -> TagView {
        TagView::Int(*self)
    }

    fn into_tag(self) -> (r: Tag) {
        Tag::Int(self)
    }
}

impl ToTag for i64 {
    open spec fn tag_view(&self) -> TagView {
        TagView::Long(*self)
    }

    fn into_tag(self) -> (r: Tag) {
        Tag::Long(self)
    }
}

impl ToTag for String {
    open spec fn tag_view(&self) -> TagView {
        TagView::String(self@)
    }

    fn into_tag(self) -> (r: Tag) {
        Tag::String(self)
    }
}

impl ToTag for &str {
    open spec fn tag_view(&self) -> TagView {
        TagView::String(self@)
    }

    fn into_tag(self) -> (r: Tag) {
        Tag::String(String::from_str(self))
    }
}

impl ToTag for Vec<i8> {
    open spec fn tag_view(&self) -> TagView {
        TagView::ByteArray(self@)
    }

    fn into_tag(self) -> (r: Tag) {
        Tag::ByteArray(self)
    }
}

impl ToTag for Vec<i32> {
    open spec fn tag_view(&self) -> TagView {
        TagView::IntArray(self@)
    }

    fn into_tag(self) -> (r: Tag) {
        Tag::IntArray(self)
    }
}

impl ToTag for Vec<i64> {
    open spec fn tag_view(&self) -> TagView {
        TagView::LongArray(self@)
    }

    fn into_tag(self) -> (r: Tag) {
        Tag::LongArray(self)
    }
}

impl ToTag for Compound {
    open spec fn tag_view(&self) -> TagView {
        TagView::Compound(self@)
    }

    fn into_tag(self) -> (r: Tag) {
        Tag::Compound(self)
    }
}

impl ToTag for Tag {
    open spec fn tag_view(&self) -> TagView {
        self@
    }

    fn into_tag(self) -> (r: Tag) {
        self
    }
}

impl FromTag for i8 {
    open spec fn taken_from(tag: Tag) -> Option<i8> {
        match tag {
            Tag::Byte(v) => Some(v),
            _ => None,
        }
    }

    fn from_tag(tag: Tag) -> (r: Option<i8>) {
        if let Tag::Byte(v) = tag {
            Some(v)
        } else {
            None
        }
    }

    fn from_borrowed_tag(tag: &Tag) -> (r: Option<&i8>) {
        if let Tag::Byte(v) = tag {
            Some(v)
        } else {
            None
        }
    }
}

impl FromTag for i16 {
    open spec fn taken_from(tag: Tag) -> Option<i16> {
        match tag {
            Tag::Short(v) => Some(v),
            _ => None,
        }
    }

    fn from_tag(tag: Tag) -> (r: Option<i16>) {
        if let Tag::Short(v) = tag {
            Some(v)
        } else {
            None
        }
    }

    fn from_borrowed_tag(tag: &Tag) -> (r: Option<&i16>) {
        if let Tag::Short(v) = tag {
            Some(v)
        } else {
            None
        }
    }
}

impl FromTag for i32 {
    open spec fn taken_from(tag: Tag) -> Option<i32> {
        match tag {
            Tag::Int(v) => Some(v),
            _ => None,
        }
    }

    fn from_tag(tag: Tag) -> (r: Option<i32>) {
        if let Tag::Int(v) = tag {
            Some(v)
        } else {
            None
        }
    }

    fn from_borrowed_tag(tag: &Tag) -> (r: Option<&i32>) {
        if let Tag::Int(v) = tag {
            Some(v)
        } else {
            None
        }
    }
}

impl FromTag for i64 {
    open spec fn taken_from(tag: Tag) -> Option<i64> {
        match tag {
            Tag::Long(v) => Some(v),
            _ => None,
        }
    }

    fn from_tag(tag: Tag) -> (r: Option<i64>) {
        if let Tag::Long(v) = tag {
            Some(v)
        } else {
            None
        }
    }

    fn from_borrowed_tag(tag: &Tag) -> (r: Option<&i64>) {
        if let Tag::Long(v) = tag {
            Some(v)
        } else {
            None
        }
    }
}

impl FromTag for String {
    open spec fn taken_from(tag: Tag) -> Option<String> {
        match tag {
            Tag::String(v) => Some(v),
            _ => None,
        }
    }

    fn from_tag(tag: Tag) -> (r: Option<String>) {
        if let Tag::String(v) = tag {
            Some(v)
        } else {
            None
        }
    }

    fn from_borrowed_tag(tag: &Tag) -> (r: Option<&String>) {
        if let Tag::String(v) = tag {
            Some(v)
        } else {
            None
        }
    }
}

impl Compound {
    /// Puts a value under a name, boxed as a tag, and hands back the tag
    /// that stood there.
    pub fn insert<T: ToTag>(&mut self, key: &str, tag: T) -> (r: Option<Tag>)
        ensures
            final(self)@ == old(self)@.insert(key@, tag.tag_view()),
            match r {
                Some(prior) => old(self)@.dom().contains(key@) && prior@ == old(self)@[key@],
                None => !old(self)@.dom().contains(key@),
            },
    {
        self.insert_tag(key, tag.into_tag())
    }

    /// Takes the entry of a name out and hands back its value, where the
    /// tag is of the variant that holds a `T`. The entry is taken out
    /// whatever its variant.
    pub fn remove<T: FromTag>(&mut self, key: &str) -> (r: Option<T>)
        ensures
            final(self)@ == old(self)@.remove(key@),
            match old(self).tag_under(key@) {
                Some(tag) => r == T::taken_from(tag),
                None => r is None,
            },
    {
        match self.remove_tag(key) {
            Some(tag) => T::from_tag(tag),
            None => None,
        }
    }

    /// The value under a name, where a tag stands there and is of the
    /// variant that holds a `T`.
    pub fn get<T: FromTag>(&self, key: &str) -> (r: Option<&T>)
        ensures
            match r {
                Some(value) => self.tag_under(key@) matches Some(tag) && T::taken_from(tag) == Some(
                    *value,
                ),
                None => self.tag_under(key@) matches Some(tag) ==> T::taken_from(tag) is None,
            },
    {
        match self.get_tag(key) {
            Some(tag) => T::from_borrowed_tag(tag),
            None => None,
        }
    }
}

} // verus!
