//! The bridge from tags to host values: what each requested shape is given.
//!
//! The host framework asks for one shape after the other. Every function
//! here answers one request from the tag at hand: with the value to hand to
//! the framework, with a cursor over what is nested, or with the error.

use crate::error::{ErrorView, NBTError, NBTResult};
use crate::ser::{unserializable, Conventions};
use crate::tags::{Compound, Tag, TagIdent};
use crate::wire::{modulus_16, modulus_32, modulus_64, modulus_8, unsigned_of};
use vstd::prelude::*;

verus! {

/// The error for a request that the tag at hand cannot answer: a tag of
/// another type, or none.
pub open spec fn refusal(content: Option<Tag>, expecting: TagIdent, when: Seq<char>) -> ErrorView {
    match content {
        Some(tag) => ErrorView::InvalidType { found: tag.kind(), expecting, when },
        None => ErrorView::NoData { when },
    }
}

/// The tags that a request for a sequence is given from a tag: the items of
/// a list, and the numbers of an array, each boxed as a tag of its own.
pub open spec fn sequence_of(tag: Tag) -> Option<Seq<Tag>> {
    match tag {
        Tag::List(items) => Some(items@),
        Tag::ByteArray(array) => Some(Seq::new(array@.len(), |i: int| Tag::Byte(array@[i]))),
        Tag::IntArray(array) => Some(Seq::new(array@.len(), |i: int| Tag::Int(array@[i]))),
        Tag::LongArray(array) => Some(Seq::new(array@.len(), |i: int| Tag::Long(array@[i]))),
        _ => None,
    }
}

fn refuse(content: Option<Tag>, expecting: TagIdent, when: &str) -> (r: NBTError)
    ensures
        r@ == refusal(content, expecting, when@),
{
    match content {
        Some(tag) => NBTError::InvalidType {
            found: tag.ident(),
            expecting,
            when: String::from_str(when),
        },
        None => NBTError::NoData { when: String::from_str(when) },
    }
}

fn box_bytes(array: Vec<i8>) -> (r: Vec<Tag>)
    ensures
        r@ == Seq::new(array@.len(), |i: int| Tag::Byte(array@[i])),
{
    let mut out: Vec<Tag> = Vec::new();
    let mut i: usize = 0;
    while i < array.len()
        invariant
            i <= array.len(),
            out@ == Seq::new(i as nat, |k: int| Tag::Byte(array@[k])),
        decreases array.len() - i,
    {
        out.push(Tag::Byte(array[i]));
        i += 1;
        assert(out@ =~= Seq::new(i as nat, |k: int| Tag::Byte(array@[k])));
    }
    out
}

fn box_ints(array: Vec<i32>) -> (r: Vec<Tag>)
    ensures
        r@ == Seq::new(array@.len(), |i: int| Tag::Int(array@[i])),
{
    let mut out: Vec<Tag> = Vec::new();
    let mut i: usize = 0;
    while i < array.len()
        invariant
            i <= array.len(),
            out@ == Seq::new(i as nat, |k: int| Tag::Int(array@[k])),
        decreases array.len() - i,
    {
        out.push(Tag::Int(array[i]));
        i += 1;
        assert(out@ =~= Seq::new(i as nat, |k: int| Tag::Int(array@[k])));
    }
    out
}

fn box_longs(array: Vec<i64>) -> (r: Vec<Tag>)
    ensures
        r@ == Seq::new(array@.len(), |i: int| Tag::Long(array@[i])),
{
    let mut out: Vec<Tag> = Vec::new();
    let mut i: usize = 0;
    while i < array.len()
        invariant
            i <= array.len(),
            out@ == Seq::new(i as nat, |k: int| Tag::Long(array@[k])),
        decreases array.len() - i,
    {
        out.push(Tag::Long(array[i]));
        i += 1;
        assert(out@ =~= Seq::new(i as nat, |k: int| Tag::Long(array@[k])));
    }
    out
}

/// What a request for any shape is given: the shape that the tag at hand
/// has.
#[derive(Debug)]
pub enum Visit {
    I8(i8),
    I16(i16),
    I32(i32),
    I64(i64),
    /// A 32 bit float, by its IEEE-754 bits.
    F32(u32),
    /// A 64 bit float, by its IEEE-754 bits.
    F64(u64),
    String(String),
    Sequence(NBTSeqAccess),
    Entries(NBTMapAccess),
    Absent,
}

/// The deserializer of one value: the tag at hand, or none.
#[derive(Debug)]
pub struct NBTDeserializer {
    content: Option<Tag>,
    conventions: Conventions,
}

impl NBTDeserializer {
    /// The tag at hand.
    pub closed spec fn content(&self) -> Option<Tag> {
        self.content
    }

    /// The conventions in force.
    pub closed spec fn conventions(&self) -> Conventions {
        self.conventions
    }

    pub fn new(s: Option<Tag>) -> (r: Self)
        ensures
            r.content() == s,
            r.conventions() == (Conventions { boolean: true, unsigned: false }),
    {
        Self { content: s, conventions: Conventions::standard() }
    }

    pub fn some(t: Tag) -> (r: Self)
        ensures
            r.content() == Some(t),
            r.conventions() == (Conventions { boolean: true, unsigned: false }),
    {
        Self { content: Some(t), conventions: Conventions::standard() }
    }

    /// A deserializer with the given conventions.
    pub fn with(s: Option<Tag>, conventions: Conventions) -> (r: Self)
        ensures
            r.content() == s,
            r.conventions() == conventions,
    {
        Self { content: s, conventions }
    }

    pub fn deserialize_any(self) -> (r: Visit)
        ensures
            match self.content() {
                Some(Tag::Byte(v)) => r == Visit::I8(v),
                Some(Tag::Short(v)) => r == Visit::I16(v),
                Some(Tag::Int(v)) => r == Visit::I32(v),
                Some(Tag::Long(v)) => r == Visit::I64(v),
                Some(Tag::Float(v)) => r == Visit::F32(v),
                Some(Tag::Double(v)) => r == Visit::F64(v),
                Some(Tag::String(v)) => r == Visit::String(v),
                Some(Tag::Compound(c)) => r matches Visit::Entries(access) && access.pending()
                    == c.entries() && access.value() is None && access.conventions()
                    == self.conventions(),
                Some(tag) => r matches Visit::Sequence(access) && Some(access.data()) == sequence_of(tag)
                    && access.conventions() == self.conventions(),
                None => r == Visit::Absent,
            },
    {
        let conventions = self.conventions;
        match self.content {
            Some(tag) => match tag {
                Tag::Byte(v) => Visit::I8(v),
                Tag::Short(v) => Visit::I16(v),
                Tag::Int(v) => Visit::I32(v),
                Tag::Long(v) => Visit::I64(v),
                Tag::Float(v) => Visit::F32(v),
                Tag::Double(v) => Visit::F64(v),
                Tag::ByteArray(list) => Visit::Sequence(NBTSeqAccess::with(box_bytes(list), conventions)),
                Tag::String(v) => Visit::String(v),
                Tag::List(array) => Visit::Sequence(NBTSeqAccess::with(array, conventions)),
                Tag::Compound(compound) => Visit::Entries(NBTMapAccess::with(compound, conventions)),
                Tag::IntArray(list) => Visit::Sequence(NBTSeqAccess::with(box_ints(list), conventions)),
                Tag::LongArray(list) => Visit::Sequence(
                    NBTSeqAccess::with(box_longs(list), conventions),
                ),
            },
            None => Visit::Absent,
        }
    }

    pub fn deserialize_bool(self) -> (r: NBTResult<bool>)
        ensures
            if !self.conventions().boolean {
                r matches Err(e) && e@ == (ErrorView::UnserializableType { name: "bool"@ })
            } else {
                match self.content() {
                    Some(Tag::Byte(x)) => r == Ok::<bool, NBTError>(x == 1),
                    _ => r matches Err(e) && e@ == refusal(
                        self.content(),
                        TagIdent::TAG_Byte,
                        "bool"@,
                    ),
                }
            },
    {
        if !self.conventions.boolean {
            return Err(unserializable("bool"));
        }
        match self.content {
            Some(Tag::Byte(x)) => Ok(x == 1),
            other => Err(refuse(other, TagIdent::TAG_Byte, "bool")),
        }
    }

    pub fn deserialize_i8(self) -> (r: NBTResult<i8>)
        ensures
            match self.content() {
                Some(Tag::Byte(x)) => r == Ok::<i8, NBTError>(x),
                _ => r matches Err(e) && e@ == refusal(self.content(), TagIdent::TAG_Byte, "i8"@),
            },
    {
        match self.content {
            Some(Tag::Byte(x)) => Ok(x),
            other => Err(refuse(other, TagIdent::TAG_Byte, "i8")),
        }
    }

    pub fn deserialize_i16(self) -> (r: NBTResult<i16>)
        ensures
            match self.content() {
                Some(Tag::Short(x)) => r == Ok::<i16, NBTError>(x),
                _ => r matches Err(e) && e@ == refusal(
                    self.content(),
                    TagIdent::TAG_Short,
                    "i16"@,
                ),
            },
    {
        match self.content {
            Some(Tag::Short(x)) => Ok(x),
            other => Err(refuse(other, TagIdent::TAG_Short, "i16")),
        }
    }

    pub fn deserialize_i32(self) -> (r: NBTResult<i32>)
        ensures
            match self.content() {
                Some(Tag::Int(x)) => r == Ok::<i32, NBTError>(x),
                _ => r matches Err(e) && e@ == refusal(self.content(), TagIdent::TAG_Int, "i32"@),
            },
    {
        match self.content {
            Some(Tag::Int(x)) => Ok(x),
            other => Err(refuse(other, TagIdent::TAG_Int, "i32")),
        }
    }

    pub fn deserialize_i64(self) -> (r: NBTResult<i64>)
        ensures
            match self.content() {
                Some(Tag::Long(x)) => r == Ok::<i64, NBTError>(x),
                _ => r matches Err(e) && e@ == refusal(self.content(), TagIdent::TAG_Long, "i64"@),
            },
    {
        match self.content {
            Some(Tag::Long(x)) => Ok(x),
            other => Err(refuse(other, TagIdent::TAG_Long, "i64")),
        }
    }

    pub fn deserialize_u8(self) -> (r: NBTResult<u8>)
        ensures
            if !self.conventions().unsigned {
                r matches Err(e) && e@ == (ErrorView::UnserializableType { name: "u8"@ })
            } else {
                match self.content() {
                    Some(Tag::Byte(x)) => r matches Ok(v) && v == unsigned_of(
                        x as int,
                        modulus_8(),
                    ),
                    _ => r matches Err(e) && e@ == refusal(
                        self.content(),
                        TagIdent::TAG_Byte,
                        "u8"@,
                    ),
                }
            },
    {
        if !self.conventions.unsigned {
            return Err(unserializable("u8"));
        }
        match self.content {
            Some(Tag::Byte(x)) => Ok(
                if x < 0 {
                    (x - i8::MIN) as u8 + 0x80
                } else {
                    x as u8
                },
            ),
            other => Err(refuse(other, TagIdent::TAG_Byte, "u8")),
        }
    }

    pub fn deserialize_u16(self) -> (r: NBTResult<u16>)
        ensures
            if !self.conventions().unsigned {
                r matches Err(e) && e@ == (ErrorView::UnserializableType { name: "u16"@ })
            } else {
                match self.content() {
                    Some(Tag::Short(x)) => r matches Ok(v) && v == unsigned_of(
                        x as int,
                        modulus_16(),
                    ),
                    _ => r matches Err(e) && e@ == refusal(
                        self.content(),
                        TagIdent::TAG_Short,
                        "u16"@,
                    ),
                }
            },
    {
        if !self.conventions.unsigned {
            return Err(unserializable("u16"));
        }
        match self.content {
            Some(Tag::Short(x)) => Ok(
                if x < 0 {
                    (x - i16::MIN) as u16 + 0x8000
                } else {
                    x as u16
                },
            ),
            other => Err(refuse(other, TagIdent::TAG_Short, "u16")),
        }
    }

    pub fn deserialize_u32(self) -> (r: NBTResult<u32>)
        ensures
            if !self.conventions().unsigned {
                r matches Err(e) && e@ == (ErrorView::UnserializableType { name: "u32"@ })
            } else {
                match self.content() {
                    Some(Tag::Int(x)) => r matches Ok(v) && v == unsigned_of(
                        x as int,
                        modulus_32(),
                    ),
                    _ => r matches Err(e) && e@ == refusal(
                        self.content(),
                        TagIdent::TAG_Int,
                        "u32"@,
                    ),
                }
            },
    {
        if !self.conventions.unsigned {
            return Err(unserializable("u32"));
        }
        match self.content {
            Some(Tag::Int(x)) => Ok(
                if x < 0 {
                    (x - i32::MIN) as u32 + 0x8000_0000
                } else {
                    x as u32
                },
            ),
            other => Err(refuse(other, TagIdent::TAG_Int, "u32")),
        }
    }

    pub fn deserialize_u64(self) -> (r: NBTResult<u64>)
        ensures
            if !self.conventions().unsigned {
                r matches Err(e) && e@ == (ErrorView::UnserializableType { name: "u64"@ })
            } else {
                match self.content() {
                    Some(Tag::Long(x)) => r matches Ok(v) && v == unsigned_of(
                        x as int,
                        modulus_64(),
                    ),
                    _ => r matches Err(e) && e@ == refusal(
                        self.content(),
                        TagIdent::TAG_Long,
                        "u64"@,
                    ),
                }
            },
    {
        if !self.conventions.unsigned {
            return Err(unserializable("u64"));
        }
        match self.content {
            Some(Tag::Long(x)) => Ok(
                if x < 0 {
                    (x - i64::MIN) as u64 + 0x8000_0000_0000_0000
                } else {
                    x as u64
                },
            ),
            other => Err(refuse(other, TagIdent::TAG_Long, "u64")),
        }
    }

    /// A 32 bit float, by its IEEE-754 bits.
    pub fn deserialize_f32(self) -> (r: NBTResult<u32>)
        ensures
            match self.content() {
                Some(Tag::Float(x)) => r == Ok::<u32, NBTError>(x),
                _ => r matches Err(e) && e@ == refusal(
                    self.content(),
                    TagIdent::TAG_Float,
                    "f32"@,
                ),
            },
    {
        match self.content {
            Some(Tag::Float(x)) => Ok(x),
            other => Err(refuse(other, TagIdent::TAG_Float, "f32")),
        }
    }

    /// A 64 bit float, by its IEEE-754 bits.
    pub fn deserialize_f64(self) -> (r: NBTResult<u64>)
        ensures
            match self.content() {
                Some(Tag::Double(x)) => r == Ok::<u64, NBTError>(x),
                _ => r matches Err(e) && e@ == refusal(
                    self.content(),
                    TagIdent::TAG_Double,
                    "f64"@,
                ),
            },
    {
        match self.content {
            Some(Tag::Double(x)) => Ok(x),
            other => Err(refuse(other, TagIdent::TAG_Double, "f64")),
        }
    }

    /// A character is a string of exactly one character.
    pub fn deserialize_char(self) -> (r: NBTResult<char>)
        ensures
            match self.content() {
                Some(Tag::String(x)) => if x@.len() == 1 {
                    r == Ok::<char, NBTError>(x@[0])
                } else {
                    r matches Err(e) && e@ == ErrorView::InvalidChar
                },
                _ => r matches Err(e) && e@ == refusal(
                    self.content(),
                    TagIdent::TAG_String,
                    "char"@,
                ),
            },
    {
        match self.content {
            Some(Tag::String(x)) => {
                if x.as_str().unicode_len() == 1 {
                    Ok(x.as_str().get_char(0))
                } else {
                    Err(NBTError::InvalidChar)
                }
            },
            other => Err(refuse(other, TagIdent::TAG_String, "char")),
        }
    }

    pub fn deserialize_str(self) -> (r: NBTResult<String>)
        ensures
            match self.content() {
                Some(Tag::String(x)) => r == Ok::<String, NBTError>(x),
                _ => r matches Err(e) && e@ == refusal(
                    self.content(),
                    TagIdent::TAG_String,
                    "str"@,
                ),
            },
    {
        match self.content {
            Some(Tag::String(x)) => Ok(x),
            other => Err(refuse(other, TagIdent::TAG_String, "str")),
        }
    }

    pub fn deserialize_string(self) -> (r: NBTResult<String>)
        ensures
            match self.content() {
                Some(Tag::String(x)) => r == Ok::<String, NBTError>(x),
                _ => r matches Err(e) && e@ == refusal(
                    self.content(),
                    TagIdent::TAG_String,
                    "string"@,
                ),
            },
    {
        match self.content {
            Some(Tag::String(x)) => Ok(x),
            other => Err(refuse(other, TagIdent::TAG_String, "string")),
        }
    }

    /// Raw bytes are refused, as they are when written.
    pub fn deserialize_bytes(self) -> (r: NBTResult<Vec<u8>>)
        ensures
            r matches Err(e) && e@ == (ErrorView::UnserializableType { name: "bytes"@ }),
    {
        Err(unserializable("bytes"))
    }

    /// Raw bytes are refused, as they are when written.
    pub fn deserialize_byte_buf(self) -> (r: NBTResult<Vec<u8>>)
        ensures
            r matches Err(e) && e@ == (ErrorView::UnserializableType { name: "bytes"@ }),
    {
        Err(unserializable("bytes"))
    }

    /// Absent where no tag is at hand; else present, with the deserializer of
    /// the value in it.
    pub fn deserialize_option(self) -> (r: Option<NBTDeserializer>)
        ensures
            match self.content() {
                None => r is None,
                Some(tag) => r matches Some(inner) && inner.content() == Some(tag)
                    && inner.conventions() == self.conventions(),
            },
    {
        match self.content {
            None => None,
            Some(t) => Some(NBTDeserializer::with(Some(t), self.conventions)),
        }
    }

    pub fn deserialize_unit(self) -> (r: NBTResult<()>)
        ensures
            match self.content() {
                None => r is Ok,
                Some(tag) => r matches Err(e) && e@ == (ErrorView::InvalidType {
                    found: tag.kind(),
                    expecting: TagIdent::TAG_End,
                    when: "unit"@,
                }),
            },
    {
        match self.content {
            None => Ok(()),
            Some(t) => Err(refuse(Some(t), TagIdent::TAG_End, "unit")),
        }
    }

    pub fn deserialize_unit_struct(self, _name: &str) -> (r: NBTResult<()>)
        ensures
            match self.content() {
                None => r is Ok,
                Some(tag) => r matches Err(e) && e@ == (ErrorView::InvalidType {
                    found: tag.kind(),
                    expecting: TagIdent::TAG_End,
                    when: "unit"@,
                }),
            },
    {
        self.deserialize_unit()
    }

    /// The deserializer of the value in a newtype wrapper.
    pub fn deserialize_newtype_struct(self, _name: &str) -> (r: NBTResult<NBTDeserializer>)
        ensures
            match self.content() {
                None => r matches Err(e) && e@ == (ErrorView::NoData { when: "newtype_struct"@ }),
                Some(tag) => r matches Ok(inner) && inner.content() == Some(tag)
                    && inner.conventions() == self.conventions(),
            },
    {
        match self.content {
            None => Err(refuse(None, TagIdent::TAG_End, "newtype_struct")),
            Some(t) => Ok(NBTDeserializer::with(Some(t), self.conventions)),
        }
    }

    /// A cursor over the items of a list or the numbers of an array.
    fn sequence(self, when: &str) -> (r: NBTResult<NBTSeqAccess>)
        ensures
            match self.content() {
                Some(tag) => match sequence_of(tag) {
                    Some(items) => r matches Ok(access) && access.data() == items
                        && access.conventions() == self.conventions(),
                    None => r matches Err(e) && e@ == refusal(
                        self.content(),
                        TagIdent::TAG_List,
                        when@,
                    ),
                },
                None => r matches Err(e) && e@ == refusal(
                    self.content(),
                    TagIdent::TAG_List,
                    when@,
                ),
            },
    {
        let conventions = self.conventions;
        match self.content {
            Some(Tag::List(list)) => Ok(NBTSeqAccess::with(list, conventions)),
            Some(Tag::ByteArray(list)) => Ok(NBTSeqAccess::with(box_bytes(list), conventions)),
            Some(Tag::IntArray(list)) => Ok(NBTSeqAccess::with(box_ints(list), conventions)),
            Some(Tag::LongArray(list)) => Ok(NBTSeqAccess::with(box_longs(list), conventions)),
            other => Err(refuse(other, TagIdent::TAG_List, when)),
        }
    }

    /// A cursor over the entries of a compound.
    fn entries(self, when: &str) -> (r: NBTResult<NBTMapAccess>)
        ensures
            match self.content() {
                Some(Tag::Compound(c)) => r matches Ok(access) && access.pending() == c.entries()
                    && access.value() is None && access.conventions() == self.conventions(),
                _ => r matches Err(e) && e@ == refusal(
                    self.content(),
                    TagIdent::TAG_Compound,
                    when@,
                ),
            },
    {
        let conventions = self.conventions;
        match self.content {
            Some(Tag::Compound(comp)) => Ok(NBTMapAccess::with(comp, conventions)),
            other => Err(refuse(other, TagIdent::TAG_Compound, when)),
        }
    }

    pub fn deserialize_seq(self) -> (r: NBTResult<NBTSeqAccess>)
        ensures
            match self.content() {
                Some(tag) => match sequence_of(tag) {
                    Some(items) => r matches Ok(access) && access.data() == items
                        && access.conventions() == self.conventions(),
                    None => r matches Err(e) && e@ == refusal(
                        self.content(),
                        TagIdent::TAG_List,
                        "seq"@,
                    ),
                },
                None => r matches Err(e) && e@ == (ErrorView::NoData { when: "seq"@ }),
            },
    {
        self.sequence("seq")
    }

    pub fn deserialize_tuple(self, _len: usize) -> (r: NBTResult<NBTSeqAccess>)
        ensures
            match self.content() {
                Some(tag) => match sequence_of(tag) {
                    Some(items) => r matches Ok(access) && access.data() == items
                        && access.conventions() == self.conventions(),
                    None => r matches Err(e) && e@ == refusal(
                        self.content(),
                        TagIdent::TAG_List,
                        "tuple"@,
                    ),
                },
                None => r matches Err(e) && e@ == (ErrorView::NoData { when: "tuple"@ }),
            },
    {
        self.sequence("tuple")
    }

    pub fn deserialize_tuple_struct(self, _name: &str, _len: usize) -> (r: NBTResult<
        NBTSeqAccess,
    >)
        ensures
            match self.content() {
                Some(tag) => match sequence_of(tag) {
                    Some(items) => r matches Ok(access) && access.data() == items
                        && access.conventions() == self.conventions(),
                    None => r matches Err(e) && e@ == refusal(
                        self.content(),
                        TagIdent::TAG_List,
                        "tuple_struct"@,
                    ),
                },
                None => r matches Err(e) && e@ == (ErrorView::NoData { when: "tuple_struct"@ }),
            },
    {
        self.sequence("tuple_struct")
    }

    pub fn deserialize_map(self) -> (r: NBTResult<NBTMapAccess>)
        ensures
            match self.content() {
                Some(Tag::Compound(c)) => r matches Ok(access) && access.pending() == c.entries()
                    && access.value() is None && access.conventions() == self.conventions(),
                _ => r matches Err(e) && e@ == refusal(
                    self.content(),
                    TagIdent::TAG_Compound,
                    "map"@,
                ),
            },
    {
        self.entries("map")
    }

    pub fn deserialize_struct(self, _name: &str) -> (r: NBTResult<NBTMapAccess>)
        ensures
            match self.content() {
                Some(Tag::Compound(c)) => r matches Ok(access) && access.pending() == c.entries()
                    && access.value() is None && access.conventions() == self.conventions(),
                _ => r matches Err(e) && e@ == refusal(
                    self.content(),
                    TagIdent::TAG_Compound,
                    "struct"@,
                ),
            },
    {
        self.entries("struct")
    }

    /// The cursor of an enum over the tag at hand.
    pub fn deserialize_enum(self, _name: &str) -> (r: NBTEnumAccess)
        ensures
            r.content() == self.content(),
            r.conventions() == self.conventions(),
    {
        NBTEnumAccess::with(self.content, self.conventions)
    }

    pub fn deserialize_identifier(self) -> (r: NBTResult<String>)
        ensures
            match self.content() {
                Some(Tag::String(x)) => r == Ok::<String, NBTError>(x),
                _ => r matches Err(e) && e@ == refusal(
                    self.content(),
                    TagIdent::TAG_String,
                    "identifier"@,
                ),
            },
    {
        match self.content {
            Some(Tag::String(x)) => Ok(x),
            other => Err(refuse(other, TagIdent::TAG_String, "identifier")),
        }
    }
}

/// The cursor over a sequence: the tags that are left, the next one first.
#[derive(Debug)]
pub struct NBTSeqAccess {
    data: Vec<Tag>,
    conventions: Conventions,
}

impl NBTSeqAccess {
    /// The tags that are left.
    pub closed spec fn data(&self) -> Seq<Tag> {
        self.data@
    }

    /// The conventions in force.
    pub closed spec fn conventions(&self) -> Conventions {
        self.conventions
    }

    pub fn new(s: Vec<Tag>) -> (r: Self)
        ensures
            r.data() == s@,
            r.conventions() == (Conventions { boolean: true, unsigned: false }),
    {
        Self { data: s, conventions: Conventions::standard() }
    }

    /// A cursor with the given conventions.
    pub fn with(s: Vec<Tag>, conventions: Conventions) -> (r: Self)
        ensures
            r.data() == s@,
            r.conventions() == conventions,
    {
        Self { data: s, conventions }
    }

    /// How many tags are left.
    pub fn size_hint(&self) -> (r: usize)
        ensures
            r == self.data().len(),
    {
        self.data.len()
    }

    /// The deserializer of the next element, which is then no longer left;
    /// none when nothing is left.
    pub fn next_element_seed(&mut self) -> (r: Option<NBTDeserializer>)
        ensures
            final(self).conventions() == old(self).conventions(),
            if old(self).data().len() == 0 {
                r is None && final(self).data() == old(self).data()
            } else {
                r matches Some(next) && next.content() == Some(old(self).data()[0])
                    && next.conventions() == old(self).conventions() && final(self).data() == old(
                    self,
                ).data().drop_first()
            },
    {
        if self.data.len() == 0 {
            None
        } else {
            let tag = self.data.remove(0);
            assert(self.data@ =~= old(self).data@.drop_first());
            Some(NBTDeserializer::with(Some(tag), self.conventions))
        }
    }
}

/// The cursor over a map: the entries that are left, the next one first, and
/// the value of the key that was handed out last.
#[derive(Debug)]
pub struct NBTMapAccess {
    data: Vec<(String, Tag)>,
    value: Option<Tag>,
    conventions: Conventions,
}

impl NBTMapAccess {
    /// The entries that are left.
    pub closed spec fn pending(&self) -> Seq<(String, Tag)> {
        self.data@
    }

    /// The value that waits to be handed out.
    pub closed spec fn value(&self) -> Option<Tag> {
        self.value
    }

    /// The conventions in force.
    pub closed spec fn conventions(&self) -> Conventions {
        self.conventions
    }

    pub fn new(s: Compound) -> (r: Self)
        ensures
            r.pending() == s.entries(),
            r.value() is None,
            r.conventions() == (Conventions { boolean: true, unsigned: false }),
    {
        Self { data: s.map(), value: None, conventions: Conventions::standard() }
    }

    /// A cursor with the given conventions.
    pub fn with(s: Compound, conventions: Conventions) -> (r: Self)
        ensures
            r.pending() == s.entries(),
            r.value() is None,
            r.conventions() == conventions,
    {
        Self { data: s.map(), value: None, conventions }
    }

    /// How many entries are left.
    pub fn size_hint(&self) -> (r: usize)
        ensures
            r == self.pending().len(),
    {
        self.data.len()
    }

    /// The deserializer of the next key, whose value then waits; none when
    /// no entry is left.
    pub fn next_key_seed(&mut self) -> (r: Option<NBTDeserializer>)
        ensures
            final(self).conventions() == old(self).conventions(),
            if old(self).pending().len() == 0 {
                r is None && final(self).pending() == old(self).pending() && final(self).value()
                    == old(self).value()
            } else {
                r matches Some(key) && key.content() == Some(
                    Tag::String(old(self).pending()[0].0),
                ) && key.conventions() == old(self).conventions() && final(self).pending() == old(
                    self,
                ).pending().drop_first() && final(self).value() == Some(old(self).pending()[0].1)
            },
    {
        if self.data.len() == 0 {
            None
        } else {
            let (key, value) = self.data.remove(0);
            assert(self.data@ =~= old(self).data@.drop_first());
            self.value = Some(value);
            Some(NBTDeserializer::with(Some(Tag::String(key)), self.conventions))
        }
    }

    /// The deserializer of the value that waits, which then waits no more.
    pub fn next_value_seed(&mut self) -> (r: NBTDeserializer)
        ensures
            r.content() == old(self).value(),
            r.conventions() == old(self).conventions(),
            final(self).value() is None,
            final(self).pending() == old(self).pending(),
            final(self).conventions() == old(self).conventions(),
    {
        let value = self.value.take();
        NBTDeserializer::with(value, self.conventions)
    }
}

/// The cursor over an enum: first over the tag that holds the variant, then
/// over the variant's payload.
#[derive(Debug)]
pub struct NBTEnumAccess {
    content: Option<Tag>,
    conventions: Conventions,
}

impl NBTEnumAccess {
    /// The tag at hand.
    pub closed spec fn content(&self) -> Option<Tag> {
        self.content
    }

    /// The conventions in force.
    pub closed spec fn conventions(&self) -> Conventions {
        self.conventions
    }

    pub fn new(s: Option<Tag>) -> (r: Self)
        ensures
            r.content() == s,
            r.conventions() == (Conventions { boolean: true, unsigned: false }),
    {
        Self { content: s, conventions: Conventions::standard() }
    }

    /// A cursor with the given conventions.
    pub fn with(s: Option<Tag>, conventions: Conventions) -> (r: Self)
        ensures
            r.content() == s,
            r.conventions() == conventions,
    {
        Self { content: s, conventions }
    }

    /// The variant: the tag at hand must be a compound of one entry, whose
    /// name is the variant's and whose tag is its payload. Handed back are
    /// the deserializer of the name and the cursor over the payload.
    pub fn variant_seed(self) -> (r: NBTResult<(NBTDeserializer, NBTEnumAccess)>)
        ensures
            match self.content() {
                Some(Tag::Compound(c)) => if c.entries().len() == 1 {
                    r matches Ok((name, payload)) && name.content() == Some(
                        Tag::String(c.entries()[0].0),
                    ) && payload.content() == Some(c.entries()[0].1) && name.conventions()
                        == self.conventions() && payload.conventions() == self.conventions()
                } else {
                    r matches Err(e) && e@ == (ErrorView::InvalidType {
                        found: if c.entries().len() == 0 {
                            TagIdent::TAG_End
                        } else {
                            TagIdent::TAG_Compound
                        },
                        expecting: TagIdent::TAG_Compound,
                        when: "enum map"@,
                    })
                },
                _ => r matches Err(e) && e@ == refusal(
                    self.content(),
                    TagIdent::TAG_Compound,
                    "enum map"@,
                ),
            },
    {
        let conventions = self.conventions;
        match self.content {
            Some(Tag::Compound(map)) => {
                let mut entries = map.map();
                if entries.len() == 1 {
                    let (key, value) = entries.remove(0);
                    Ok(
                        (
                            NBTDeserializer::with(Some(Tag::String(key)), conventions),
                            NBTEnumAccess::with(Some(value), conventions),
                        ),
                    )
                } else {
                    Err(
                        NBTError::InvalidType {
                            found: if entries.len() == 0 {
                                TagIdent::TAG_End
                            } else {
                                TagIdent::TAG_Compound
                            },
                            expecting: TagIdent::TAG_Compound,
                            when: String::from_str("enum map"),
                        },
                    )
                }
            },
            other => Err(refuse(other, TagIdent::TAG_Compound, "enum map")),
        }
    }

    /// A variant without payload asks for nothing.
    pub fn unit_variant(self) -> (r: NBTResult<()>)
        ensures
            r is Ok,
    {
        Ok(())
    }

    /// The deserializer of the one value of a newtype variant.
    pub fn newtype_variant_seed(self) -> (r: NBTDeserializer)
        ensures
            r.content() == self.content(),
            r.conventions() == self.conventions(),
    {
        NBTDeserializer::with(self.content, self.conventions)
    }

    /// The cursor over the fields of a tuple variant.
    pub fn tuple_variant(self, len: usize) -> (r: NBTResult<NBTSeqAccess>)
        ensures
            match self.content() {
                Some(tag) => match sequence_of(tag) {
                    Some(items) => r matches Ok(access) && access.data() == items
                        && access.conventions() == self.conventions(),
                    None => r matches Err(e) && e@ == refusal(
                        self.content(),
                        TagIdent::TAG_List,
                        "tuple"@,
                    ),
                },
                None => r matches Err(e) && e@ == (ErrorView::NoData { when: "tuple"@ }),
            },
    {
        NBTDeserializer::with(self.content, self.conventions).deserialize_tuple(len)
    }

    /// The cursor over the fields of a struct variant.
    pub fn struct_variant(self) -> (r: NBTResult<NBTMapAccess>)
        ensures
            match self.content() {
                Some(Tag::Compound(c)) => r matches Ok(access) && access.pending() == c.entries()
                    && access.value() is None && access.conventions() == self.conventions(),
                _ => r matches Err(e) && e@ == refusal(
                    self.content(),
                    TagIdent::TAG_Compound,
                    "struct"@,
                ),
            },
    {
        NBTDeserializer::with(self.content, self.conventions).deserialize_struct("")
    }
}

} // verus!
