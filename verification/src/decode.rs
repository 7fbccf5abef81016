//! Reading tags from bytes.

use crate::error::{ErrorView, NBTError, NBTResult};
use crate::reader::{fits, parse_bytes, parse_signed, parse_unsigned, ByteReader, Parsed};
use crate::tags::{
    items_view, lemma_items_view_push, Compound, Tag, TagIdent, TagView, MAX_DEPTH,
};
use crate::wire::{
    be_value, from_java_cesu8, java_cesu8_text, modulus_16, modulus_32, modulus_64, modulus_8,
    signed_of,
};
use vstd::prelude::*;

verus! {

/// The type byte at `pos`. A byte that stands for no type is an `InvalidTag`.
pub open spec fn parse_ident(data: Seq<u8>, pos: int) -> Parsed<TagIdent> {
    match parse_unsigned(data, pos, 1) {
        Ok((value, next)) => match TagIdent::from_code(value as u8) {
            Some(ident) => Ok((ident, next)),
            None => Err((ErrorView::InvalidTag { found: value as u8 }, next)),
        },
        Err(fault) => Err(fault),
    }
}

/// The string at `pos`: a length of two bytes, then that many bytes of
/// modified UTF-8.
pub open spec fn parse_string(data: Seq<u8>, pos: int) -> Parsed<Seq<char>> {
    match parse_unsigned(data, pos, 2) {
        Ok((length, start)) => match parse_bytes(data, start, length as int) {
            Ok((bytes, next)) => match java_cesu8_text(bytes) {
                Some(text) => Ok((text, next)),
                None => Err((ErrorView::StringError, next)),
            },
            Err(fault) => Err(fault),
        },
        Err(fault) => Err(fault),
    }
}

/// The number at `index` in a row of numbers of `width` bytes each that
/// starts at `start`.
pub open spec fn element(data: Seq<u8>, start: int, width: int, modulus: int, index: int) -> int {
    signed_of(be_value(data.subrange(start + index * width, start + index * width + width)), modulus)
}

/// The array at `pos`: a count of four bytes, then that many numbers of
/// `width` bytes each.
pub open spec fn parse_array(data: Seq<u8>, pos: int, width: int, modulus: int) -> Parsed<
    Seq<int>,
> {
    match parse_unsigned(data, pos, 4) {
        Ok((count, start)) => if fits(data, start, count * width) {
            Ok(
                (
                    Seq::new(count, |index: int| element(data, start, width, modulus, index)),
                    start + count * width,
                ),
            )
        } else {
            Err((ErrorView::IO, start))
        },
        Err(fault) => Err(fault),
    }
}

pub open spec fn as_i8s(values: Seq<int>) -> Seq<i8> {
    Seq::new(values.len(), |index: int| values[index] as i8)
}

pub open spec fn as_i32s(values: Seq<int>) -> Seq<i32> {
    Seq::new(values.len(), |index: int| values[index] as i32)
}

pub open spec fn as_i64s(values: Seq<int>) -> Seq<i64> {
    Seq::new(values.len(), |index: int| values[index] as i64)
}

/// The payload of a tag of type `ident` at `pos`, where `room` more lists and
/// compounds may be entered, one inside the other. A list or a compound for
/// which no room is left is `TooDeep`, and nothing of it is read.
pub open spec fn parse_tag(data: Seq<u8>, pos: int, ident: TagIdent, room: nat) -> Parsed<TagView>
    decreases data.len() - pos, 1int, 0int,
{
    match ident {
        TagIdent::TAG_End => Err((ErrorView::UnexpectedEndTag, pos)),
        TagIdent::TAG_Byte => match parse_signed(data, pos, 1, modulus_8()) {
            Ok((value, next)) => Ok((TagView::Byte(value as i8), next)),
            Err(fault) => Err(fault),
        },
        TagIdent::TAG_Short => match parse_signed(data, pos, 2, modulus_16()) {
            Ok((value, next)) => Ok((TagView::Short(value as i16), next)),
            Err(fault) => Err(fault),
        },
        TagIdent::TAG_Int => match parse_signed(data, pos, 4, modulus_32()) {
            Ok((value, next)) => Ok((TagView::Int(value as i32), next)),
            Err(fault) => Err(fault),
        },
        TagIdent::TAG_Long => match parse_signed(data, pos, 8, modulus_64()) {
            Ok((value, next)) => Ok((TagView::Long(value as i64), next)),
            Err(fault) => Err(fault),
        },
        TagIdent::TAG_Float => match parse_unsigned(data, pos, 4) {
            Ok((value, next)) => Ok((TagView::Float(value as u32), next)),
            Err(fault) => Err(fault),
        },
        TagIdent::TAG_Double => match parse_unsigned(data, pos, 8) {
            Ok((value, next)) => Ok((TagView::Double(value as u64), next)),
            Err(fault) => Err(fault),
        },
        TagIdent::TAG_Byte_Array => match parse_array(data, pos, 1, modulus_8()) {
            Ok((values, next)) => Ok((TagView::ByteArray(as_i8s(values)), next)),
            Err(fault) => Err(fault),
        },
        TagIdent::TAG_String => match parse_string(data, pos) {
            Ok((text, next)) => Ok((TagView::String(text), next)),
            Err(fault) => Err(fault),
        },
        TagIdent::TAG_List => if room == 0 {
            Err((ErrorView::TooDeep { limit: MAX_DEPTH }, pos))
        } else {
            match parse_ident(data, pos) {
                Ok((of, at_count)) => match parse_unsigned(data, at_count, 4) {
                    Ok((count, start)) => match parse_items(
                        data,
                        start,
                        of,
                        count,
                        Seq::empty(),
                        (room - 1) as nat,
                    ) {
                        Ok((items, next)) => Ok((TagView::List(items), next)),
                        Err(fault) => Err(fault),
                    },
                    Err(fault) => Err(fault),
                },
                Err(fault) => Err(fault),
            }
        },
        TagIdent::TAG_Compound => if room == 0 {
            Err((ErrorView::TooDeep { limit: MAX_DEPTH }, pos))
        } else {
            match parse_entries(data, pos, Map::empty(), (room - 1) as nat) {
                Ok((entries, next)) => Ok((TagView::Compound(entries), next)),
                Err(fault) => Err(fault),
            }
        },
        TagIdent::TAG_Int_Array => match parse_array(data, pos, 4, modulus_32()) {
            Ok((values, next)) => Ok((TagView::IntArray(as_i32s(values)), next)),
            Err(fault) => Err(fault),
        },
        TagIdent::TAG_Long_Array => match parse_array(data, pos, 8, modulus_64()) {
            Ok((values, next)) => Ok((TagView::LongArray(as_i64s(values)), next)),
            Err(fault) => Err(fault),
        },
    }
}

/// `count` payloads of type `ident` from `pos` on, added to `done`, with
/// `room` for each. Every payload takes at least one byte
/// (`lemma_parse_advances`), which the test on `next` lets the definition
/// rest on.
pub open spec fn parse_items(
    data: Seq<u8>,
    pos: int,
    ident: TagIdent,
    count: nat,
    done: Seq<TagView>,
    room: nat,
) -> Parsed<Seq<TagView>>
    decreases data.len() - pos, 2int, count,
{
    if count == 0 {
        Ok((done, pos))
    } else {
        match parse_tag(data, pos, ident, room) {
            Ok((item, next)) => if pos < next <= data.len() {
                parse_items(data, next, ident, (count - 1) as nat, done.push(item), room)
            } else {
                Err((ErrorView::IO, next))
            },
            Err(fault) => Err(fault),
        }
    }
}

/// The entries of a compound from `pos` on, up to and with the end marker,
/// put into `done`: each is a type byte, a name and a payload, and a name
/// that comes again takes the place of the one before. Each payload has
/// `room`. As for items, the test on `next` is what the definition rests on,
/// and it never fails.
pub open spec fn parse_entries(
    data: Seq<u8>,
    pos: int,
    done: Map<Seq<char>, TagView>,
    room: nat,
) -> Parsed<Map<Seq<char>, TagView>>
    decreases data.len() - pos, 0int, 0int,
{
    match parse_ident(data, pos) {
        Ok((ident, at_name)) => if ident == TagIdent::TAG_End {
            Ok((done, at_name))
        } else {
            match parse_string(data, at_name) {
                Ok((name, at_payload)) => match parse_tag(data, at_payload, ident, room) {
                    Ok((value, next)) => if at_payload < next <= data.len() {
                        parse_entries(data, next, done.insert(name, value), room)
                    } else {
                        Err((ErrorView::IO, next))
                    },
                    Err(fault) => Err(fault),
                },
                Err(fault) => Err(fault),
            }
        },
        Err(fault) => Err(fault),
    }
}

/// The document at `pos`: the type byte of a compound, the document's name
/// and the entries. The compound of the document is the first of the
/// `MAX_DEPTH` that may be entered.
pub open spec fn parse_root(data: Seq<u8>, pos: int) -> Parsed<
    (Seq<char>, Map<Seq<char>, TagView>),
> {
    match parse_ident(data, pos) {
        Ok((ident, at_name)) => if ident != TagIdent::TAG_Compound {
            Err((ErrorView::InvalidImplicit { found: ident }, at_name))
        } else {
            match parse_string(data, at_name) {
                Ok((name, at_entries)) => match parse_entries(
                    data,
                    at_entries,
                    Map::empty(),
                    (MAX_DEPTH - 1) as nat,
                ) {
                    Ok((entries, next)) => Ok(((name, entries), next)),
                    Err(fault) => Err(fault),
                },
                Err(fault) => Err(fault),
            }
        },
        Err(fault) => Err(fault),
    }
}

/// A payload that is read takes at least one byte and ends within the data.
pub proof fn lemma_parse_advances(data: Seq<u8>, pos: int, ident: TagIdent, room: nat)
    ensures
        parse_tag(data, pos, ident, room) matches Ok((_, next)) ==> pos < next <= data.len(),
    decreases data.len() - pos, 1int, 0int,
{
    match ident {
        TagIdent::TAG_List => {
            if room > 0 {
                if let Ok((of, at_count)) = parse_ident(data, pos) {
                    if let Ok((count, start)) = parse_unsigned(data, at_count, 4) {
                        lemma_parse_items_advances(
                            data,
                            start,
                            of,
                            count,
                            Seq::empty(),
                            (room - 1) as nat,
                        );
                    }
                }
            }
        },
        TagIdent::TAG_Compound => {
            if room > 0 {
                lemma_parse_entries_advances(data, pos, Map::empty(), (room - 1) as nat);
            }
        },
        TagIdent::TAG_Byte_Array => {
            if let Ok((count, start)) = parse_unsigned(data, pos, 4) {
                assert(count * 1 >= 0);
            }
        },
        TagIdent::TAG_Int_Array => {
            if let Ok((count, start)) = parse_unsigned(data, pos, 4) {
                assert(count * 4 >= 0);
            }
        },
        TagIdent::TAG_Long_Array => {
            if let Ok((count, start)) = parse_unsigned(data, pos, 4) {
                assert(count * 8 >= 0);
            }
        },
        _ => {},
    }
}

/// Items that are read end within the data, at or after the place where they
/// start.
pub proof fn lemma_parse_items_advances(
    data: Seq<u8>,
    pos: int,
    ident: TagIdent,
    count: nat,
    done: Seq<TagView>,
    room: nat,
)
    requires
        0 <= pos <= data.len(),
    ensures
        parse_items(data, pos, ident, count, done, room) matches Ok((_, next)) ==> pos <= next
            <= data.len(),
    decreases data.len() - pos, 2int, count,
{
    if count > 0 {
        if let Ok((item, next)) = parse_tag(data, pos, ident, room) {
            if pos < next <= data.len() {
                lemma_parse_items_advances(
                    data,
                    next,
                    ident,
                    (count - 1) as nat,
                    done.push(item),
                    room,
                );
            }
        }
    }
}

/// Entries that are read take at least the byte of the end marker and end
/// within the data.
pub proof fn lemma_parse_entries_advances(
    data: Seq<u8>,
    pos: int,
    done: Map<Seq<char>, TagView>,
    room: nat,
)
    ensures
        parse_entries(data, pos, done, room) matches Ok((_, next)) ==> pos < next <= data.len(),
    decreases data.len() - pos, 0int, 0int,
{
    if let Ok((ident, at_name)) = parse_ident(data, pos) {
        if ident != TagIdent::TAG_End {
            if let Ok((name, at_payload)) = parse_string(data, at_name) {
                if let Ok((value, next)) = parse_tag(data, at_payload, ident, room) {
                    if at_payload < next <= data.len() {
                        lemma_parse_entries_advances(data, next, done.insert(name, value), room);
                    }
                }
            }
        }
    }
}

/// Reads a type byte.
pub fn read_ident(reader: &mut ByteReader) -> (r: NBTResult<TagIdent>)
    ensures
        final(reader).bytes() == old(reader).bytes(),
        old(reader).position() <= final(reader).position() <= old(reader).bytes().len(),
        match parse_ident(old(reader).bytes(), old(reader).position()) {
            Ok((value, next)) => r matches Ok(v) && v == value && final(reader).position() == next,
            Err((fault, stop)) => r matches Err(e) && e@ == fault && final(reader).position()
                == stop,
        },
{
    let byte = reader.read_u8()?;
    match TagIdent::parse(&byte) {
        Some(x) => Ok(x),
        None => Err(NBTError::InvalidTag { found: byte }),
    }
}

/// Reads a document: its name and its entries.
pub fn read_root(reader: &mut ByteReader) -> (r: NBTResult<(String, Compound)>)
    ensures
        final(reader).bytes() == old(reader).bytes(),
        old(reader).position() <= final(reader).position() <= old(reader).bytes().len(),
        match parse_root(old(reader).bytes(), old(reader).position()) {
            Ok((value, next)) => r matches Ok(v) && v.0@ == value.0 && v.1@ == value.1
                && final(reader).position() == next,
            Err((fault, stop)) => r matches Err(e) && e@ == fault && final(reader).position()
                == stop,
        },
{
    let implicit_ident = read_ident(reader)?;
    if implicit_ident != TagIdent::TAG_Compound {
        return Err(NBTError::InvalidImplicit { found: implicit_ident });
    }
    let name = read_string(reader)?;
    let compound = read_compound(reader)?;
    Ok((name, compound))
}

/// Reads `size` bytes.
pub fn read_size(reader: &mut ByteReader, size: usize) -> (r: NBTResult<Vec<u8>>)
    ensures
        final(reader).bytes() == old(reader).bytes(),
        old(reader).position() <= final(reader).position() <= old(reader).bytes().len(),
        match parse_bytes(old(reader).bytes(), old(reader).position(), size as int) {
            Ok((value, next)) => r matches Ok(v) && v@ == value && final(reader).position() == next,
            Err((fault, stop)) => r matches Err(e) && e@ == fault && final(reader).position()
                == stop,
        },
{
    reader.read_size(size)
}

/// Reads a string: its length, then its bytes.
pub fn read_string(reader: &mut ByteReader) -> (r: NBTResult<String>)
    ensures
        final(reader).bytes() == old(reader).bytes(),
        old(reader).position() <= final(reader).position() <= old(reader).bytes().len(),
        match parse_string(old(reader).bytes(), old(reader).position()) {
            Ok((value, next)) => r matches Ok(v) && v@ == value && final(reader).position() == next,
            Err((fault, stop)) => r matches Err(e) && e@ == fault && final(reader).position()
                == stop,
        },
{
    let length = reader.read_u16()?;
    let buffer = read_size(reader, length as usize)?;
    decode_wonky_string(buffer.as_slice())
}

/// Reads the entries of a compound, up to and with its end marker.
pub fn read_compound(reader: &mut ByteReader) -> (r: NBTResult<Compound>)
    ensures
        final(reader).bytes() == old(reader).bytes(),
        old(reader).position() <= final(reader).position() <= old(reader).bytes().len(),
        match parse_entries(
            old(reader).bytes(),
            old(reader).position(),
            Map::empty(),
            (MAX_DEPTH - 1) as nat,
        ) {
            Ok((value, next)) => r matches Ok(v) && v@ == value && final(reader).position() == next,
            Err((fault, stop)) => r matches Err(e) && e@ == fault && final(reader).position()
                == stop,
        },
{
    read_compound_within(reader, MAX_DEPTH - 1)
}

/// Reads the entries of a compound, up to and with its end marker, with
/// `room` for each payload.
fn read_compound_within(reader: &mut ByteReader, room: usize) -> (r: NBTResult<Compound>)
    ensures
        final(reader).bytes() == old(reader).bytes(),
        old(reader).position() <= final(reader).position() <= old(reader).bytes().len(),
        match parse_entries(old(reader).bytes(), old(reader).position(), Map::empty(), room as nat) {
            Ok((value, next)) => r matches Ok(v) && v@ == value && final(reader).position() == next,
            Err((fault, stop)) => r matches Err(e) && e@ == fault && final(reader).position()
                == stop,
        },
        r is Ok ==> old(reader).position() < final(reader).position(),
    decreases old(reader).left(), 0int, 0int,
{
    proof {
        use_type_invariant(&*reader);
        reader.lemma_in_bounds();
    }
    let ghost data = reader.bytes();
    let ghost start = reader.position();
    let mut compound = Compound::new();
    loop
        invariant_except_break
            reader.bytes() == data,
            parse_entries(data, start, Map::empty(), room as nat) == parse_entries(
                data,
                reader.position(),
                compound@,
                room as nat,
            ),
            start <= reader.position() <= data.len(),
            reader.left() <= old(reader).left(),
            start == old(reader).position(),
            data == old(reader).bytes(),
        ensures
            reader.bytes() == data,
            parse_entries(data, start, Map::empty(), room as nat) == Ok::<
                (Map<Seq<char>, TagView>, int),
                (ErrorView, int),
            >((compound@, reader.position())),
            start < reader.position() <= data.len(),
        decreases reader.left(),
    {
        let ident = read_ident(reader)?;
        if ident == TagIdent::TAG_End {
            break ;
        }
        let name = read_string(reader)?;
        let payload = read_tag_within(reader, &ident, room)?;
        compound.insert_tag(name.as_str(), payload);
    }
    Ok(compound)
}

/// Reads an array of bytes: its count, then its numbers. Where the bytes do not hold as
/// many numbers as the count says, none of them is read.
fn read_byte_array(reader: &mut ByteReader) -> (r: NBTResult<Vec<i8>>)
    ensures
        final(reader).bytes() == old(reader).bytes(),
        old(reader).position() <= final(reader).position() <= old(reader).bytes().len(),
        match parse_array(old(reader).bytes(), old(reader).position(), 1, modulus_8()) {
            Ok((value, next)) => r matches Ok(v) && v@ == as_i8s(value) && final(reader).position()
                == next,
            Err((fault, stop)) => r matches Err(e) && e@ == fault && final(reader).position()
                == stop,
        },
{
    let length = reader.read_u32()?;
    reader.require(length as u64)?;
    let ghost data = reader.bytes();
    let ghost start = reader.position();
    let mut array: Vec<i8> = Vec::new();
    let mut i: u32 = 0;
    while i < length
        invariant
            reader.bytes() == data,
            i <= length,
            array@.len() == i,
            reader.position() == start + i,
            fits(data, start, 1 * length),
            data == old(reader).bytes(),
            old(reader).position() <= start,
            parse_unsigned(data, old(reader).position(), 4) == Ok::<(nat, int), (ErrorView, int)>(
                (length as nat, start),
            ),
            forall|k: int|
                0 <= k < i ==> array@[k] == #[trigger] element(data, start, 1, modulus_8(), k),
        decreases length - i,
    {
        let value = reader.read_i8()?;
        array.push(value);
        i += 1;
    }
    assert(array@ =~= as_i8s(
        Seq::new(length as nat, |index: int| element(data, start, 1, modulus_8(), index)),
    ));
    Ok(array)
}

/// Reads an array of 32 bit integers: its count, then its numbers. Where the bytes do not hold as
/// many numbers as the count says, none of them is read.
fn read_int_array(reader: &mut ByteReader) -> (r: NBTResult<Vec<i32>>)
    ensures
        final(reader).bytes() == old(reader).bytes(),
        old(reader).position() <= final(reader).position() <= old(reader).bytes().len(),
        match parse_array(old(reader).bytes(), old(reader).position(), 4, modulus_32()) {
            Ok((value, next)) => r matches Ok(v) && v@ == as_i32s(value) && final(reader).position()
                == next,
            Err((fault, stop)) => r matches Err(e) && e@ == fault && final(reader).position()
                == stop,
        },
{
    let length = reader.read_u32()?;
    reader.require((length as u64) * 4)?;
    let ghost data = reader.bytes();
    let ghost start = reader.position();
    let mut array: Vec<i32> = Vec::new();
    let mut i: u32 = 0;
    while i < length
        invariant
            reader.bytes() == data,
            i <= length,
            array@.len() == i,
            reader.position() == start + 4 * i,
            fits(data, start, 4 * length),
            data == old(reader).bytes(),
            old(reader).position() <= start,
            parse_unsigned(data, old(reader).position(), 4) == Ok::<(nat, int), (ErrorView, int)>(
                (length as nat, start),
            ),
            forall|k: int|
                0 <= k < i ==> array@[k] == #[trigger] element(data, start, 4, modulus_32(), k),
        decreases length - i,
    {
        let value = reader.read_i32()?;
        array.push(value);
        i += 1;
    }
    assert(array@ =~= as_i32s(
        Seq::new(length as nat, |index: int| element(data, start, 4, modulus_32(), index)),
    ));
    Ok(array)
}

/// Reads an array of 64 bit integers: its count, then its numbers. Where the bytes do not hold as
/// many numbers as the count says, none of them is read.
fn read_long_array(reader: &mut ByteReader) -> (r: NBTResult<Vec<i64>>)
    ensures
        final(reader).bytes() == old(reader).bytes(),
        old(reader).position() <= final(reader).position() <= old(reader).bytes().len(),
        match parse_array(old(reader).bytes(), old(reader).position(), 8, modulus_64()) {
            Ok((value, next)) => r matches Ok(v) && v@ == as_i64s(value) && final(reader).position()
                == next,
            Err((fault, stop)) => r matches Err(e) && e@ == fault && final(reader).position()
                == stop,
        },
{
    let length = reader.read_u32()?;
    reader.require((length as u64) * 8)?;
    let ghost data = reader.bytes();
    let ghost start = reader.position();
    let mut array: Vec<i64> = Vec::new();
    let mut i: u32 = 0;
    while i < length
        invariant
            reader.bytes() == data,
            i <= length,
            array@.len() == i,
            reader.position() == start + 8 * i,
            fits(data, start, 8 * length),
            data == old(reader).bytes(),
            old(reader).position() <= start,
            parse_unsigned(data, old(reader).position(), 4) == Ok::<(nat, int), (ErrorView, int)>(
                (length as nat, start),
            ),
            forall|k: int|
                0 <= k < i ==> array@[k] == #[trigger] element(data, start, 8, modulus_64(), k),
        decreases length - i,
    {
        let value = reader.read_i64()?;
        array.push(value);
        i += 1;
    }
    assert(array@ =~= as_i64s(
        Seq::new(length as nat, |index: int| element(data, start, 8, modulus_64(), index)),
    ));
    Ok(array)
}

/// Reads the payload of a tag of type `ident`. At most `MAX_DEPTH` lists and
/// compounds are entered, one inside the other.
pub fn read_tag(reader: &mut ByteReader, ident: &TagIdent) -> (r: NBTResult<Tag>)
    ensures
        final(reader).bytes() == old(reader).bytes(),
        old(reader).position() <= final(reader).position() <= old(reader).bytes().len(),
        match parse_tag(old(reader).bytes(), old(reader).position(), *ident, MAX_DEPTH as nat) {
            Ok((value, next)) => r matches Ok(v) && v@ == value && final(reader).position() == next,
            Err((fault, stop)) => r matches Err(e) && e@ == fault && final(reader).position()
                == stop,
        },
{
    read_tag_within(reader, ident, MAX_DEPTH)
}

/// Reads the payload of a tag of type `ident`, where `room` more lists and
/// compounds may be entered.
fn read_tag_within(reader: &mut ByteReader, ident: &TagIdent, room: usize) -> (r: NBTResult<Tag>)
    ensures
        final(reader).bytes() == old(reader).bytes(),
        old(reader).position() <= final(reader).position() <= old(reader).bytes().len(),
        match parse_tag(old(reader).bytes(), old(reader).position(), *ident, room as nat) {
            Ok((value, next)) => r matches Ok(v) && v@ == value && final(reader).position() == next,
            Err((fault, stop)) => r matches Err(e) && e@ == fault && final(reader).position()
                == stop,
        },
        r is Ok ==> old(reader).position() < final(reader).position(),
    decreases old(reader).left(), 1int, 0int,
{
    proof {
        lemma_parse_advances(reader.bytes(), reader.position(), *ident, room as nat);
        use_type_invariant(&*reader);
        reader.lemma_in_bounds();
    }
    match ident {
        // If we get a end tag, we error.
        TagIdent::TAG_End => Err(NBTError::UnexpectedEndTag {  }),
        TagIdent::TAG_Byte => Ok(Tag::Byte(reader.read_i8()?)),
        TagIdent::TAG_Short => Ok(Tag::Short(reader.read_i16()?)),
        TagIdent::TAG_Int => Ok(Tag::Int(reader.read_i32()?)),
        TagIdent::TAG_Long => Ok(Tag::Long(reader.read_i64()?)),
        TagIdent::TAG_Float => Ok(Tag::Float(reader.read_u32()?)),
        TagIdent::TAG_Double => Ok(Tag::Double(reader.read_u64()?)),
        TagIdent::TAG_Byte_Array => Ok(Tag::ByteArray(read_byte_array(reader)?)),
        TagIdent::TAG_String => Ok(Tag::String(read_string(reader)?)),
        TagIdent::TAG_List => {
            if room == 0 {
                return Err(NBTError::TooDeep { limit: MAX_DEPTH });
            }
            // read list type
            let item_ident = read_ident(reader)?;
            // read length
            let length = reader.read_u32()?;
            let ghost data = reader.bytes();
            let ghost start = reader.position();
            let mut list: Vec<Tag> = Vec::new();
            let mut i: u32 = 0;
            while i < length
                invariant
                    reader.bytes() == data,
                    data == old(reader).bytes(),
                    i <= length,
                    list@.len() == i,
                    room > 0,
                    old(reader).position() < start <= reader.position() <= data.len(),
                    *ident == TagIdent::TAG_List,
                    parse_ident(data, old(reader).position()) matches Ok((of, at_count)) && of
                        == item_ident && parse_unsigned(data, at_count, 4) == Ok::<
                        (nat, int),
                        (ErrorView, int),
                    >((length as nat, start)),
                    parse_items(
                        data,
                        start,
                        item_ident,
                        length as nat,
                        Seq::empty(),
                        (room - 1) as nat,
                    ) == parse_items(
                        data,
                        reader.position(),
                        item_ident,
                        (length - i) as nat,
                        items_view(list@),
                        (room - 1) as nat,
                    ),
                decreases length - i,
            {
                let item = read_tag_within(reader, &item_ident, room - 1)?;
                proof {
                    lemma_items_view_push(list@, item);
                }
                list.push(item);
                i += 1;
            }
            Ok(Tag::List(list))
        },
        TagIdent::TAG_Compound => {
            if room == 0 {
                return Err(NBTError::TooDeep { limit: MAX_DEPTH });
            }
            Ok(Tag::Compound(read_compound_within(reader, room - 1)?))
        },
        TagIdent::TAG_Int_Array => Ok(Tag::IntArray(read_int_array(reader)?)),
        TagIdent::TAG_Long_Array => Ok(Tag::LongArray(read_long_array(reader)?)),
    }
}

/// What `cesu8` made of the bytes of a string, as the result of reading one.
pub fn digest_cesu8(decoded: Result<String, cesu8::Cesu8DecodingError>) -> (r: NBTResult<String>)
    ensures
        match decoded {
            Ok(text) => r == Ok::<String, NBTError>(text),
            Err(_) => r matches Err(e) && e@ == ErrorView::StringError,
        },
{
    match decoded {
        Ok(s) => Ok(s),
        Err(_) => Err(NBTError::StringError),
    }
}

/// Reads the text that modified UTF-8 bytes stand for.
pub fn decode_wonky_string(b: &[u8]) -> (r: NBTResult<String>)
    ensures
        match java_cesu8_text(b@) {
            Some(text) => r matches Ok(s) && s@ == text,
            None => r matches Err(e) && e@ == ErrorView::StringError,
        },
{
    digest_cesu8(from_java_cesu8(b))
}

} // verus!
