//! The bridge from host values to tags: what each visited shape turns into.
//!
//! The host framework visits a value shape by shape. Every function here
//! takes what the framework hands over for one shape, a nested value as the
//! result of its own visit, and returns the tag of that shape.

use crate::error::{ErrorView, NBTError, NBTResult};
use crate::tags::{Compound, Tag, TagView};
use crate::wire::{char_to_string, modulus_16, modulus_32, modulus_64, modulus_8, signed_of};
use vstd::prelude::*;

verus! {

/// The conventions for host shapes that the format has no type for.
#[derive(Debug, Clone, Copy, PartialEq, Eq, Structural)]
pub struct Conventions {
    /// Booleans are bytes: 1 for true, 0 for false.
    pub boolean: bool,
    /// Unsigned integers are the signed integers of the same bits.
    pub unsigned: bool,
}

impl Conventions {
    /// Booleans as bytes, unsigned integers refused.
    pub fn standard() -> (r: Conventions)
        ensures
            r == (Conventions { boolean: true, unsigned: false }),
    {
        Conventions { boolean: true, unsigned: false }
    }
}

/// The error for a shape that has no representation.
pub fn unserializable(name: &str) -> (r: NBTError)
    ensures
        r@ == (ErrorView::UnserializableType { name: name@ }),
{
    NBTError::UnserializableType { name: String::from_str(name) }
}

/// The serializer of one value.
#[derive(Debug, Clone, Copy, PartialEq, Eq, Structural)]
pub struct NBTSerializer {
    pub conventions: Conventions,
}

impl NBTSerializer {
    /// A serializer with the standard conventions.
    pub fn new() -> (r: NBTSerializer)
        ensures
            r.conventions == (Conventions { boolean: true, unsigned: false }),
    {
        NBTSerializer { conventions: Conventions::standard() }
    }

    /// A serializer with the given conventions.
    pub fn with(conventions: Conventions) -> (r: NBTSerializer)
        ensures
            r.conventions == conventions,
    {
        NBTSerializer { conventions }
    }

    pub fn serialize_bool(self, v: bool) -> (r: NBTResult<Option<Tag>>)
        ensures
            if self.conventions.boolean {
                r == Ok::<Option<Tag>, NBTError>(Some(Tag::Byte(if v { 1i8 } else { 0i8 })))
            } else {
                r matches Err(e) && e@ == (ErrorView::UnserializableType { name: "bool"@ })
            },
    {
        if self.conventions.boolean {
            Ok(Some(Tag::Byte(if v { 1 } else { 0 })))
        } else {
            Err(unserializable("bool"))
        }
    }

    pub fn serialize_i8(self, v: i8) -> (r: NBTResult<Option<Tag>>)
        ensures
            r == Ok::<Option<Tag>, NBTError>(Some(Tag::Byte(v))),
    {
        Ok(Some(Tag::Byte(v)))
    }

    pub fn serialize_i16(self, v: i16) -> (r: NBTResult<Option<Tag>>)
        ensures
            r == Ok::<Option<Tag>, NBTError>(Some(Tag::Short(v))),
    {
        Ok(Some(Tag::Short(v)))
    }

    pub fn serialize_i32(self, v: i32) -> (r: NBTResult<Option<Tag>>)
        ensures
            r == Ok::<Option<Tag>, NBTError>(Some(Tag::Int(v))),
    {
        Ok(Some(Tag::Int(v)))
    }

    pub fn serialize_i64(self, v: i64) -> (r: NBTResult<Option<Tag>>)
        ensures
            r == Ok::<Option<Tag>, NBTError>(Some(Tag::Long(v))),
    {
        Ok(Some(Tag::Long(v)))
    }

    pub fn serialize_u8(self, v: u8) -> (r: NBTResult<Option<Tag>>)
        ensures
            if self.conventions.unsigned {
                r matches Ok(Some(Tag::Byte(x))) && x == signed_of(v as nat, modulus_8())
            } else {
                r matches Err(e) && e@ == (ErrorView::UnserializableType { name: "u8"@ })
            },
    {
        if self.conventions.unsigned {
            let x: i8 = if v >= 0x80 {
                (v - 0x80) as i8 + i8::MIN
            } else {
                v as i8
            };
            Ok(Some(Tag::Byte(x)))
        } else {
            Err(unserializable("u8"))
        }
    }

    pub fn serialize_u16(self, v: u16) -> (r: NBTResult<Option<Tag>>)
        ensures
            if self.conventions.unsigned {
                r matches Ok(Some(Tag::Short(x))) && x == signed_of(v as nat, modulus_16())
            } else {
                r matches Err(e) && e@ == (ErrorView::UnserializableType { name: "u16"@ })
            },
    {
        if self.conventions.unsigned {
            let x: i16 = if v >= 0x8000 {
                (v - 0x8000) as i16 + i16::MIN
            } else {
                v as i16
            };
            Ok(Some(Tag::Short(x)))
        } else {
            Err(unserializable("u16"))
        }
    }

    pub fn serialize_u32(self, v: u32) -> (r: NBTResult<Option<Tag>>)
        ensures
            if self.conventions.unsigned {
                r matches Ok(Some(Tag::Int(x))) && x == signed_of(v as nat, modulus_32())
            } else {
                r matches Err(e) && e@ == (ErrorView::UnserializableType { name: "u32"@ })
            },
    {
        if self.conventions.unsigned {
            let x: i32 = if v >= 0x8000_0000 {
                (v - 0x8000_0000) as i32 + i32::MIN
            } else {
                v as i32
            };
            Ok(Some(Tag::Int(x)))
        } else {
            Err(unserializable("u32"))
        }
    }

    pub fn serialize_u64(self, v: u64) -> (r: NBTResult<Option<Tag>>)
        ensures
            if self.conventions.unsigned {
                r matches Ok(Some(Tag::Long(x))) && x == signed_of(v as nat, modulus_64())
            } else {
                r matches Err(e) && e@ == (ErrorView::UnserializableType { name: "u64"@ })
            },
    {
        if self.conventions.unsigned {
            let x: i64 = if v >= 0x8000_0000_0000_0000 {
                (v - 0x8000_0000_0000_0000) as i64 + i64::MIN
            } else {
                v as i64
            };
            Ok(Some(Tag::Long(x)))
        } else {
            Err(unserializable("u64"))
        }
    }

    /// A 32 bit float, given by its IEEE-754 bits.
    pub fn serialize_f32(self, bits: u32) -> (r: NBTResult<Option<Tag>>)
        ensures
            r == Ok::<Option<Tag>, NBTError>(Some(Tag::Float(bits))),
    {
        Ok(Some(Tag::Float(bits)))
    }

    /// A 64 bit float, given by its IEEE-754 bits.
    pub fn serialize_f64(self, bits: u64) -> (r: NBTResult<Option<Tag>>)
        ensures
            r == Ok::<Option<Tag>, NBTError>(Some(Tag::Double(bits))),
    {
        Ok(Some(Tag::Double(bits)))
    }

    pub fn serialize_char(self, v: char) -> (r: NBTResult<Option<Tag>>)
        ensures
            r matches Ok(Some(tag)) && tag@ == TagView::String(seq![v]),
    {
        Ok(Some(Tag::String(char_to_string(v))))
    }

    pub fn serialize_str(self, v: &str) -> (r: NBTResult<Option<Tag>>)
        ensures
            r matches Ok(Some(tag)) && tag@ == TagView::String(v@),
    {
        Ok(Some(Tag::String(String::from_str(v))))
    }

    /// Raw bytes have no representation: a byte array holds signed bytes, and
    /// nothing tells the one from the other.
    pub fn serialize_bytes(self, v: &[u8]) -> (r: NBTResult<Option<Tag>>)
        ensures
            r matches Err(e) && e@ == (ErrorView::UnserializableType { name: "bytes"@ }),
    {
        Err(unserializable("bytes"))
    }

    pub fn serialize_none(self) -> (r: NBTResult<Option<Tag>>)
        ensures
            r == Ok::<Option<Tag>, NBTError>(None),
    {
        Ok(None)
    }

    /// A present option is the value in it, given as the result of its visit.
    pub fn serialize_some(self, value: NBTResult<Option<Tag>>) -> (r: NBTResult<Option<Tag>>)
        ensures
            r == value,
    {
        value
    }

    pub fn serialize_unit(self) -> (r: NBTResult<Option<Tag>>)
        ensures
            r == Ok::<Option<Tag>, NBTError>(None),
    {
        Ok(None)
    }

    pub fn serialize_unit_struct(self, _name: &str) -> (r: NBTResult<Option<Tag>>)
        ensures
            r == Ok::<Option<Tag>, NBTError>(None),
    {
        Ok(None)
    }

    /// A variant without payload is its name.
    pub fn serialize_unit_variant(self, _name: &str, _variant_index: u32, variant: &str) -> (r:
        NBTResult<Option<Tag>>)
        ensures
            r matches Ok(Some(tag)) && tag@ == TagView::String(variant@),
    {
        Ok(Some(Tag::String(String::from_str(variant))))
    }

    /// A newtype wrapper is the value in it, given as the result of its visit.
    pub fn serialize_newtype_struct(self, _name: &str, value: NBTResult<Option<Tag>>) -> (r:
        NBTResult<Option<Tag>>)
        ensures
            r == value,
    {
        value
    }

    /// A variant of one value is that value, given as the result of its
    /// visit: the variant's name plays no part.
    pub fn serialize_newtype_variant(
        self,
        _name: &str,
        _variant_index: u32,
        _variant: &str,
        value: NBTResult<Option<Tag>>,
    ) -> (r: NBTResult<Option<Tag>>)
        ensures
            r == value,
    {
        value
    }

    pub fn serialize_seq(self, _len: Option<usize>) -> (r: NBTResult<NBTSeqSerializer>)
        ensures
            r matches Ok(s) && s.elements() == Seq::<Tag>::empty(),
    {
        Ok(NBTSeqSerializer::new())
    }

    pub fn serialize_tuple(self, _len: usize) -> (r: NBTResult<NBTSeqSerializer>)
        ensures
            r matches Ok(s) && s.elements() == Seq::<Tag>::empty(),
    {
        Ok(NBTSeqSerializer::new())
    }

    pub fn serialize_tuple_struct(self, _name: &str, _len: usize) -> (r: NBTResult<
        NBTSeqSerializer,
    >)
        ensures
            r matches Ok(s) && s.elements() == Seq::<Tag>::empty(),
    {
        Ok(NBTSeqSerializer::new())
    }

    pub fn serialize_tuple_variant(
        self,
        _name: &str,
        _variant_index: u32,
        variant: &str,
        _len: usize,
    ) -> (r: NBTResult<NBTVariantSeqSerializer>)
        ensures
            r matches Ok(s) && s.elements() == Seq::<Tag>::empty() && s.variant() == variant@,
    {
        Ok(NBTVariantSeqSerializer::new(variant))
    }

    pub fn serialize_map(self, _len: Option<usize>) -> (r: NBTResult<NBTMapSerializer>)
        ensures
            r matches Ok(s) && s.map() == Map::<Seq<char>, TagView>::empty() && s.key() is None,
    {
        Ok(NBTMapSerializer::new())
    }

    pub fn serialize_struct(self, _name: &str, _len: usize) -> (r: NBTResult<NBTStructSerializer>)
        ensures
            r matches Ok(s) && s.map() == Map::<Seq<char>, TagView>::empty(),
    {
        Ok(NBTStructSerializer::new())
    }

    pub fn serialize_struct_variant(
        self,
        _name: &str,
        _variant_index: u32,
        variant: &str,
        _len: usize,
    ) -> (r: NBTResult<NBTVariantStructSerializer>)
        ensures
            r matches Ok(s) && s.map() == Map::<Seq<char>, TagView>::empty() && s.variant()
                == variant@,
    {
        Ok(NBTVariantStructSerializer::new(variant))
    }

    /// A value that is written as text is that text.
    pub fn collect_str(self, value: &str) -> (r: NBTResult<Option<Tag>>)
        ensures
            r matches Ok(Some(tag)) && tag@ == TagView::String(value@),
    {
        Ok(Some(Tag::String(String::from_str(value))))
    }
}

/// Takes the result of an element's visit into the elements: a tag is added
/// at the end, no tag adds nothing, an error is handed on.
fn take_element(elements: &mut Vec<Tag>, value: NBTResult<Option<Tag>>) -> (r: NBTResult<()>)
    ensures
        match value {
            Ok(Some(tag)) => r is Ok && final(elements)@ == old(elements)@.push(tag),
            Ok(None) => r is Ok && final(elements)@ == old(elements)@,
            Err(e) => r == Err::<(), NBTError>(e) && final(elements)@ == old(elements)@,
        },
{
    match value {
        Ok(Some(tag)) => {
            elements.push(tag);
            Ok(())
        },
        Ok(None) => Ok(()),
        Err(e) => Err(e),
    }
}

/// Takes the result of a field's visit into the fields: a tag is put under
/// the name, no tag changes nothing, an error is handed on.
fn take_field(map: &mut Compound, key: &str, value: NBTResult<Option<Tag>>) -> (r: NBTResult<()>)
    ensures
        match value {
            Ok(Some(tag)) => r is Ok && final(map)@ == old(map)@.insert(key@, tag@),
            Ok(None) => r is Ok && final(map)@ == old(map)@,
            Err(e) => r == Err::<(), NBTError>(e) && final(map)@ == old(map)@,
        },
{
    match value {
        Ok(Some(tag)) => {
            map.insert_tag(key, tag);
            Ok(())
        },
        Ok(None) => Ok(()),
        Err(e) => Err(e),
    }
}

/// The serializer of a sequence, a tuple or a tuple struct.
#[derive(Debug)]
pub struct NBTSeqSerializer {
    elements: Vec<Tag>,
}

impl NBTSeqSerializer {
    /// The tags of the elements taken so far.
    pub closed spec fn elements(&self) -> Seq<Tag> {
        self.elements@
    }

    pub fn new() -> (r: Self)
        ensures
            r.elements() == Seq::<Tag>::empty(),
    {
        NBTSeqSerializer { elements: Vec::new() }
    }

    /// Takes the result of an element's visit.
    pub fn serialize_element(&mut self, value: NBTResult<Option<Tag>>) -> (r: NBTResult<()>)
        ensures
            match value {
                Ok(Some(tag)) => r is Ok && final(self).elements() == old(self).elements().push(
                    tag,
                ),
                Ok(None) => r is Ok && final(self).elements() == old(self).elements(),
                Err(e) => r == Err::<(), NBTError>(e) && final(self).elements() == old(
                    self,
                ).elements(),
            },
    {
        take_element(&mut self.elements, value)
    }

    /// Takes the result of the visit of a field of a tuple struct.
    pub fn serialize_field(&mut self, value: NBTResult<Option<Tag>>) -> (r: NBTResult<()>)
        ensures
            match value {
                Ok(Some(tag)) => r is Ok && final(self).elements() == old(self).elements().push(
                    tag,
                ),
                Ok(None) => r is Ok && final(self).elements() == old(self).elements(),
                Err(e) => r == Err::<(), NBTError>(e) && final(self).elements() == old(
                    self,
                ).elements(),
            },
    {
        take_element(&mut self.elements, value)
    }

    /// The list of the elements.
    pub fn end(self) -> (r: NBTResult<Option<Tag>>)
        ensures
            r matches Ok(Some(Tag::List(list))) && list@ == self.elements(),
    {
        Ok(Some(Tag::List(self.elements)))
    }
}

/// The serializer of a tuple variant.
#[derive(Debug)]
pub struct NBTVariantSeqSerializer {
    variant: String,
    elements: Vec<Tag>,
}

impl NBTVariantSeqSerializer {
    /// The name of the variant.
    pub closed spec fn variant(&self) -> Seq<char> {
        self.variant@
    }

    /// The tags of the fields taken so far.
    pub closed spec fn elements(&self) -> Seq<Tag> {
        self.elements@
    }

    pub fn new(variant: &str) -> (r: Self)
        ensures
            r.variant() == variant@,
            r.elements() == Seq::<Tag>::empty(),
    {
        Self { variant: String::from_str(variant), elements: Vec::new() }
    }

    /// Takes the result of a field's visit.
    pub fn serialize_field(&mut self, value: NBTResult<Option<Tag>>) -> (r: NBTResult<()>)
        ensures
            final(self).variant() == old(self).variant(),
            match value {
                Ok(Some(tag)) => r is Ok && final(self).elements() == old(self).elements().push(
                    tag,
                ),
                Ok(None) => r is Ok && final(self).elements() == old(self).elements(),
                Err(e) => r == Err::<(), NBTError>(e) && final(self).elements() == old(
                    self,
                ).elements(),
            },
    {
        take_element(&mut self.elements, value)
    }

    /// The list of the fields, in a compound under the variant's name.
    pub fn end(self) -> (r: NBTResult<Option<Tag>>)
        ensures
            r matches Ok(Some(tag)) && tag@ == TagView::Compound(
                map![self.variant() => TagView::List(crate::tags::items_view(self.elements()))],
            ),
    {
        Ok(Some(external(self.variant.as_str(), Tag::List(self.elements))))
    }
}

/// The externally tagged form of a variant: a compound with one entry, the
/// value under the variant's name.
pub fn external(name: &str, value: Tag) -> (r: Tag)
    ensures
        r@ == TagView::Compound(map![name@ => value@]),
        r matches Tag::Compound(c) && c.entries().len() == 1 && c.entries()[0].0@ == name@
            && c.entries()[0].1 == value,
{
    let mut map = Compound::new();
    map.insert_tag(name, value);
    proof {
        map.lemma_entries_smaller();
        assert(map.entries().last() == map.entries()[0]);
        assert(map@ =~= map![name@ => value@]);
    }
    Tag::Compound(map)
}

/// The serializer of a map: keys and values come in turn.
#[derive(Debug)]
pub struct NBTMapSerializer {
    map: Compound,
    key: Option<String>,
}

impl NBTMapSerializer {
    /// The entries taken so far.
    pub closed spec fn map(&self) -> Map<Seq<char>, TagView> {
        self.map@
    }

    /// The key that waits for its value.
    pub closed spec fn key(&self) -> Option<Seq<char>> {
        match self.key {
            Some(key) => Some(key@),
            None => None,
        }
    }

    pub fn new() -> (r: Self)
        ensures
            r.map() == Map::<Seq<char>, TagView>::empty(),
            r.key() is None,
    {
        Self { map: Compound::new(), key: None }
    }

    /// Whether a key waits for its value. Where none does, the next value is
    /// dropped, whatever it is.
    pub fn has_key(&self) -> (r: bool)
        ensures
            r == self.key() is Some,
    {
        self.key.is_some()
    }

    /// Takes the result of a key's visit. Only a string is a key; anything
    /// else leaves the waiting key as it was.
    pub fn serialize_key(&mut self, key: NBTResult<Option<Tag>>) -> (r: NBTResult<()>)
        ensures
            final(self).map() == old(self).map(),
            match key {
                Ok(Some(Tag::String(name))) => r is Ok && final(self).key() == Some(name@),
                Ok(_) => r is Ok && final(self).key() == old(self).key(),
                Err(e) => r == Err::<(), NBTError>(e) && final(self).key() == old(self).key(),
            },
    {
        match key {
            Ok(Some(Tag::String(name))) => {
                self.key = Some(name);
                Ok(())
            },
            Ok(_) => Ok(()),
            Err(e) => Err(e),
        }
    }

    /// Takes the result of a value's visit. With a key waiting, a tag goes
    /// under the key and an error is handed on with the key still waiting;
    /// in every other case no key waits afterwards.
    pub fn serialize_value(&mut self, value: NBTResult<Option<Tag>>) -> (r: NBTResult<()>)
        ensures
            match (old(self).key(), value) {
                (Some(name), Ok(Some(tag))) => r is Ok && final(self).map() == old(
                    self,
                ).map().insert(name, tag@) && final(self).key() is None,
                (Some(name), Err(e)) => r == Err::<(), NBTError>(e) && final(self).map() == old(
                    self,
                ).map() && final(self).key() == old(self).key(),
                _ => r is Ok && final(self).map() == old(self).map() && final(self).key() is None,
            },
    {
        let r = match &self.key {
            Some(key) => take_field(&mut self.map, key.as_str(), value),
            None => Ok(()),
        };
        if r.is_ok() {
            self.key = None;
        }
        r
    }

    /// The compound of the entries.
    pub fn end(self) -> (r: NBTResult<Option<Tag>>)
        ensures
            r matches Ok(Some(tag)) && tag@ == TagView::Compound(self.map()),
    {
        proof {
            self.map.lemma_entries_smaller();
        }
        Ok(Some(Tag::Compound(self.map)))
    }
}

/// The serializer of a struct.
#[derive(Debug)]
pub struct NBTStructSerializer {
    map: Compound,
}

impl NBTStructSerializer {
    /// The fields taken so far.
    pub closed spec fn map(&self) -> Map<Seq<char>, TagView> {
        self.map@
    }

    pub fn new() -> (r: Self)
        ensures
            r.map() == Map::<Seq<char>, TagView>::empty(),
    {
        Self { map: Compound::new() }
    }

    /// Takes the result of a field's visit.
    pub fn serialize_field(&mut self, key: &str, value: NBTResult<Option<Tag>>) -> (r: NBTResult<
        (),
    >)
        ensures
            match value {
                Ok(Some(tag)) => r is Ok && final(self).map() == old(self).map().insert(
                    key@,
                    tag@,
                ),
                Ok(None) => r is Ok && final(self).map() == old(self).map(),
                Err(e) => r == Err::<(), NBTError>(e) && final(self).map() == old(self).map(),
            },
    {
        take_field(&mut self.map, key, value)
    }

    /// The compound of the fields.
    pub fn end(self) -> (r: NBTResult<Option<Tag>>)
        ensures
            r matches Ok(Some(tag)) && tag@ == TagView::Compound(self.map()),
    {
        proof {
            self.map.lemma_entries_smaller();
        }
        Ok(Some(Tag::Compound(self.map)))
    }
}

/// The serializer of a struct variant.
#[derive(Debug)]
pub struct NBTVariantStructSerializer {
    map: Compound,
    variant: String,
}

impl NBTVariantStructSerializer {
    /// The fields taken so far.
    pub closed spec fn map(&self) -> Map<Seq<char>, TagView> {
        self.map@
    }

    /// The name of the variant.
    pub closed spec fn variant(&self) -> Seq<char> {
        self.variant@
    }

    pub fn new(variant: &str) -> (r: Self)
        ensures
            r.map() == Map::<Seq<char>, TagView>::empty(),
            r.variant() == variant@,
    {
        Self { map: Compound::new(), variant: String::from_str(variant) }
    }

    /// Takes the result of a field's visit.
    pub fn serialize_field(&mut self, key: &str, value: NBTResult<Option<Tag>>) -> (r: NBTResult<
        (),
    >)
        ensures
            final(self).variant() == old(self).variant(),
            match value {
                Ok(Some(tag)) => r is Ok && final(self).map() == old(self).map().insert(
                    key@,
                    tag@,
                ),
                Ok(None) => r is Ok && final(self).map() == old(self).map(),
                Err(e) => r == Err::<(), NBTError>(e) && final(self).map() == old(self).map(),
            },
    {
        take_field(&mut self.map, key, value)
    }

    /// The compound of the fields, in a compound under the variant's name.
    pub fn end(self) -> (r: NBTResult<Option<Tag>>)
        ensures
            r matches Ok(Some(tag)) && tag@ == TagView::Compound(
                map![self.variant() => TagView::Compound(self.map())],
            ),
    {
        proof {
            self.map.lemma_entries_smaller();
        }
        Ok(Some(external(self.variant.as_str(), Tag::Compound(self.map))))
    }
}

} // verus!
