//! A list of native values that turns into a list tag and back.

use crate::tags::{Tag, TagView};
use crate::util::{FromTag, ToTag};
use vstd::prelude::*;

verus! {

pub struct List<T> {
    items: Vec<T>,
}

impl<T> View for List<T> {
    type V = Seq<T>;

    closed spec fn view(&self) -> Seq<T> {
        self.items@
    }
}

/// The values that tags turn into, in their order; a tag of another variant
/// is passed over.
pub open spec fn taken_from_all<T: FromTag>(tags: Seq<Tag>) -> Seq<T>
    decreases tags.len(),
{
    if tags.len() == 0 {
        Seq::empty()
    } else {
        match T::taken_from(tags.last()) {
            Some(value) => taken_from_all::<T>(tags.drop_last()).push(value),
            None => taken_from_all::<T>(tags.drop_last()),
        }
    }
}

impl<T> List<T> {
    pub fn push(&mut self, item: T)
        ensures
            final(self)@ == old(self)@.push(item),
    {
        self.items.push(item)
    }

    pub fn insert(&mut self, index: usize, item: T)
        requires
            index <= old(self)@.len(),
        ensures
            final(self)@ == old(self)@.insert(index as int, item),
    {
        self.items.insert(index, item)
    }

    pub fn remove(&mut self, index: usize)
        requires
            index < old(self)@.len(),
        ensures
            final(self)@ == old(self)@.remove(index as int),
    {
        self.items.remove(index);
    }

    pub fn get(&self, index: usize) -> (r: Option<&T>)
        ensures
            match r {
                Some(item) => index < self@.len() && *item == self@[index as int],
                None => index >= self@.len(),
            },
    {
        if index < self.items.len() {
            Some(&self.items[index])
        } else {
            None
        }
    }

    pub fn new() -> (r: Self)
        ensures
            r@ == Seq::<T>::empty(),
    {
        Self { items: Vec::new() }
    }

    pub fn from(list: Vec<T>) -> (r: Self)
        ensures
            r@ == list@,
    {
        Self { items: list }
    }

    pub fn list(self) -> (r: Vec<T>)
        ensures
            r@ == self@,
    {
        self.items
    }
}

impl<T: ToTag> List<T> {
    /// The tags of the items, one for one.
    pub fn to_tags(self) -> (r: Vec<Tag>)
        ensures
            r@.len() == self@.len(),
            forall|i: int| 0 <= i < r@.len() ==> (#[trigger] r@[i])@ == self@[i].tag_view(),
    {
        let mut items = self.items;
        let ghost all = items@;
        let mut out: Vec<Tag> = Vec::new();
        while items.len() > 0
            invariant
                items@.len() + out@.len() == all.len(),
                forall|i: int| 0 <= i < items@.len() ==> items@[i] == all[i],
                forall|i: int|
                    0 <= i < out@.len() ==> (#[trigger] out@[i])@ == all[all.len() - 1
                        - i].tag_view(),
            decreases items.len(),
        {
            let item = items.pop().unwrap();
            out.push(item.into_tag());
        }
        let mut r: Vec<Tag> = Vec::new();
        while out.len() > 0
            invariant
                out@.len() + r@.len() == all.len(),
                forall|i: int|
                    0 <= i < out@.len() ==> (#[trigger] out@[i])@ == all[all.len() - 1
                        - i].tag_view(),
                forall|i: int| 0 <= i < r@.len() ==> (#[trigger] r@[i])@ == all[i].tag_view(),
            decreases out.len(),
        {
            let tag = out.pop().unwrap();
            r.push(tag);
        }
        r
    }

    /// The list tag of the items.
    pub fn into_tag(self) -> (r: Tag)
        ensures
            r@ matches TagView::List(items) && items.len() == self@.len() && forall|i: int|
                0 <= i < items.len() ==> #[trigger] items[i] == self@[i].tag_view(),
    {
        let ghost all = self@;
        let tags = self.to_tags();
        proof {
            crate::tags::lemma_items_view(tags@);
        }
        Tag::List(tags)
    }
}

impl<T: FromTag> List<T> {
    /// The items that the tags turn into; a tag of another variant is passed
    /// over.
    pub fn from_tags(tags: Vec<Tag>) -> (r: Self)
        ensures
            r@ == taken_from_all::<T>(tags@),
    {
        let ghost all = tags@;
        let mut tags = tags;
        let mut back: Vec<T> = Vec::new();
        // From the end, so that every tag is moved out once.
        while tags.len() > 0
            invariant
                tags@.len() <= all.len(),
                tags@ == all.take(tags@.len() as int),
                taken_from_all::<T>(all) == taken_from_all::<T>(tags@) + back@.reverse(),
            decreases tags.len(),
        {
            let ghost before = tags@;
            let tag = tags.pop().unwrap();
            proof {
                assert(before.drop_last() =~= tags@);
                assert(tags@ =~= all.take(tags@.len() as int));
            }
            match T::from_tag(tag) {
                Some(value) => {
                    let ghost prior = back@;
                    back.push(value);
                    proof {
                        assert(back@.reverse() =~= seq![value] + prior.reverse());
                        assert(taken_from_all::<T>(before) + prior.reverse() =~= taken_from_all::<T>(
                            tags@,
                        ) + back@.reverse());
                    }
                },
                None => {},
            }
        }
        let ghost turned = back@;
        let mut items: Vec<T> = Vec::new();
        while back.len() > 0
            invariant
                back@.len() <= turned.len(),
                back@ == turned.take(back@.len() as int),
                items@ == turned.reverse().take(turned.len() - back@.len()),
            decreases back.len(),
        {
            let ghost before = back@;
            let value = back.pop().unwrap();
            items.push(value);
            proof {
                assert(back@ =~= turned.take(back@.len() as int));
                assert(items@ =~= turned.reverse().take(turned.len() - back@.len()));
            }
        }
        proof {
            assert(items@ =~= turned.reverse());
            assert(taken_from_all::<T>(Seq::<Tag>::empty()) =~= Seq::<T>::empty());
            assert(tags@ =~= Seq::<Tag>::empty());
            assert(taken_from_all::<T>(all) =~= items@);
        }
        Self { items }
    }

    /// The items of a list tag; nothing from a tag of another variant.
    pub fn from_tag(tag: Tag) -> (r: Option<Self>)
        ensures
            match tag {
                Tag::List(list) => r matches Some(items) && items@ == taken_from_all::<T>(list@),
                _ => r is None,
            },
    {
        if let Tag::List(list) = tag {
            Some(Self::from_tags(list))
        } else {
            None
        }
    }
}

impl<'a, T: FromTag> List<&'a T> {
    /// The items that the tags hold, borrowed from them; a tag of another
    /// variant is passed over.
    pub fn from_borrowed_tags(tags: &'a Vec<Tag>) -> (r: Self)
        ensures
            r@.len() == taken_from_all::<T>(tags@).len(),
            forall|i: int| 0 <= i < r@.len() ==> *(#[trigger] r@[i]) == taken_from_all::<T>(tags@)[i],
    {
        let mut items: Vec<&'a T> = Vec::new();
        let mut i: usize = 0;
        while i < tags.len()
            invariant
                i <= tags.len(),
                items@.len() == taken_from_all::<T>(tags@.take(i as int)).len(),
                forall|k: int|
                    0 <= k < items@.len() ==> *(#[trigger] items@[k]) == taken_from_all::<T>(
                        tags@.take(i as int),
                    )[k],
            decreases tags.len() - i,
        {
            proof {
                assert(tags@.take(i + 1).drop_last() =~= tags@.take(i as int));
                assert(tags@.take(i + 1).last() == tags@[i as int]);
            }
            match T::from_borrowed_tag(&tags[i]) {
                Some(value) => {
                    items.push(value);
                },
                None => {},
            }
            i += 1;
        }
        proof {
            assert(tags@.take(i as int) =~= tags@);
        }
        Self { items }
    }

    /// The items of a list tag, borrowed from it; nothing from a tag of
    /// another variant.
    pub fn from_borrowed_tag(tag: &'a Tag) -> (r: Option<Self>)
        ensures
            match *tag {
                Tag::List(list) => r matches Some(items) && items@.len() == taken_from_all::<T>(
                    list@,
                ).len() && forall|i: int|
                    0 <= i < items@.len() ==> *(#[trigger] items@[i]) == taken_from_all::<T>(
                        list@,
                    )[i],
                _ => r is None,
            },
    {
        if let Tag::List(list) = tag {
            Some(List::from_borrowed_tags(list))
        } else {
            None
        }
    }
}

} // verus!
