//! Writing tags as bytes.

use crate::error::{ErrorView, NBTError, NBTResult};
use crate::tags::{Compound, Tag, TagIdent, MAX_DEPTH};
use crate::wire::{
    append_bytes, be_bytes, be_write_i16, be_write_i32, be_write_i64, be_write_u16, be_write_u32,
    be_write_u64, java_cesu8_bytes, java_cesu8_text, modulus_16, modulus_32, modulus_64, modulus_8,
    to_java_cesu8, unsigned_of,
};
use vstd::prelude::*;

verus! {

/// The longest modified UTF-8 that a string's length prefix can say.
pub const MAX_STRING_BYTES: usize = 0xFFFF;

/// The most items that the length prefix of an array or a list can say.
pub const MAX_ITEMS: usize = 0xFFFF_FFFF;

/// What writing comes to: the bytes written, or the fault and the bytes that
/// were written before it.
pub type Written = Result<Seq<u8>, (ErrorView, Seq<u8>)>;

/// What writing comes to after `front` was written: `front` stands before
/// the bytes of `rest`, in either outcome.
pub open spec fn after(front: Seq<u8>, rest: Written) -> Written {
    match rest {
        Ok(bytes) => Ok(front + bytes),
        Err((fault, partial)) => Err((fault, front + partial)),
    }
}

/// A string on the wire, given its modified UTF-8: the length in two bytes,
/// then the bytes. Of a string that is too long nothing is written.
pub open spec fn prefixed(encoded: Seq<u8>) -> Written {
    if encoded.len() > MAX_STRING_BYTES {
        Err(
            (
                ErrorView::TooLong { length: encoded.len() as usize, limit: MAX_STRING_BYTES },
                Seq::empty(),
            ),
        )
    } else {
        Ok(be_bytes(encoded.len(), 2) + encoded)
    }
}

/// A string on the wire.
pub open spec fn string_bytes(text: Seq<char>) -> Written {
    prefixed(java_cesu8_bytes(text))
}

/// The count of an array or a list on the wire: four bytes. Of a count that
/// is too large nothing is written.
pub open spec fn count_bytes(count: nat) -> Written {
    if count > MAX_ITEMS {
        Err((ErrorView::TooLong { length: count as usize, limit: MAX_ITEMS }, Seq::empty()))
    } else {
        Ok(be_bytes(count, 4))
    }
}

/// Numbers on the wire, one after the other, each in `width` bytes and in
/// two's complement.
pub open spec fn numbers_bytes(values: Seq<int>, width: nat, modulus: int) -> Seq<u8>
    decreases values.len(),
{
    if values.len() == 0 {
        Seq::empty()
    } else {
        numbers_bytes(values.drop_last(), width, modulus) + be_bytes(
            unsigned_of(values.last(), modulus),
            width,
        )
    }
}

pub open spec fn i8s_as_ints(values: Seq<i8>) -> Seq<int> {
    Seq::new(values.len(), |index: int| values[index] as int)
}

pub open spec fn i32s_as_ints(values: Seq<i32>) -> Seq<int> {
    Seq::new(values.len(), |index: int| values[index] as int)
}

pub open spec fn i64s_as_ints(values: Seq<i64>) -> Seq<int> {
    Seq::new(values.len(), |index: int| values[index] as int)
}

/// An array on the wire: its count, then its numbers.
pub open spec fn array_bytes(values: Seq<int>, width: nat, modulus: int) -> Written {
    match count_bytes(values.len()) {
        Ok(count) => Ok(count + numbers_bytes(values, width, modulus)),
        Err(fault) => Err(fault),
    }
}

/// The type of the first item from `from` on that is not of type `expecting`.
pub open spec fn stranger(items: Seq<Tag>, expecting: TagIdent, from: int) -> Option<TagIdent>
    decreases items.len() - from,
{
    if from < 0 || from >= items.len() {
        None
    } else if items[from].kind() != expecting {
        Some(items[from].kind())
    } else {
        stranger(items, expecting, from + 1)
    }
}

/// The type that a list declares for its items: that of its first item, which
/// all others must share, and the end marker for a list without items.
pub open spec fn list_ident(items: Seq<Tag>) -> Result<TagIdent, ErrorView> {
    if items.len() == 0 {
        Ok(TagIdent::TAG_End)
    } else {
        match stranger(items, items[0].kind(), 0) {
            Some(found) => Err(ErrorView::InvalidList { found, expecting: items[0].kind() }),
            None => Ok(items[0].kind()),
        }
    }
}

/// The payloads of items, one after the other, with `room` for each. The
/// first item that cannot be written decides the fault, and what was written
/// before the fault stays written.
pub open spec fn items_payload(items: Seq<Tag>, room: nat) -> Written
    decreases items, 1int,
{
    if items.len() == 0 {
        Ok(Seq::empty())
    } else {
        match items_payload(items.drop_last(), room) {
            Ok(front) => after(front, payload(items.last(), room)),
            Err(fault) => Err(fault),
        }
    }
}

/// One entry of a compound on the wire: the type byte, the name, the payload.
pub open spec fn entry_bytes(entry: (String, Tag), room: nat) -> Written
    decreases entry, 0int,
{
    after(
        seq![entry.1.kind().code()],
        match string_bytes(entry.0@) {
            Ok(name) => after(name, payload(entry.1, room)),
            Err(fault) => Err(fault),
        },
    )
}

/// The entries of a compound on the wire, in their order, without the end
/// marker, with `room` for each payload. The first entry that cannot be
/// written decides the fault, and what was written before the fault stays
/// written.
pub open spec fn entries_payload(entries: Seq<(String, Tag)>, room: nat) -> Written
    decreases entries, 1int,
{
    if entries.len() == 0 {
        Ok(Seq::empty())
    } else {
        match entries_payload(entries.drop_last(), room) {
            Ok(front) => after(front, entry_bytes(entries.last(), room)),
            Err(fault) => Err(fault),
        }
    }
}

/// A compound on the wire: its entries, then the end marker.
pub open spec fn compound_bytes(entries: Seq<(String, Tag)>, room: nat) -> Written
    decreases entries, 2int,
{
    match entries_payload(entries, room) {
        Ok(bytes) => Ok(bytes + seq![TagIdent::TAG_End.code()]),
        Err(fault) => Err(fault),
    }
}

/// The payload of a tag on the wire, where `room` more lists and compounds
/// may be entered, one inside the other; or the fault that keeps the tag from
/// being written, with what was written before it. A list or a compound for
/// which no room is left is `TooDeep`; a list is checked before anything of
/// it is written.
pub open spec fn payload(tag: Tag, room: nat) -> Written
    decreases tag, 0int,
{
    match tag {
        Tag::Byte(v) => Ok(be_bytes(unsigned_of(v as int, modulus_8()), 1)),
        Tag::Short(v) => Ok(be_bytes(unsigned_of(v as int, modulus_16()), 2)),
        Tag::Int(v) => Ok(be_bytes(unsigned_of(v as int, modulus_32()), 4)),
        Tag::Long(v) => Ok(be_bytes(unsigned_of(v as int, modulus_64()), 8)),
        Tag::Float(bits) => Ok(be_bytes(bits as nat, 4)),
        Tag::Double(bits) => Ok(be_bytes(bits as nat, 8)),
        Tag::ByteArray(v) => array_bytes(i8s_as_ints(v@), 1, modulus_8()),
        Tag::String(s) => string_bytes(s@),
        Tag::List(v) => if room == 0 {
            Err((ErrorView::TooDeep { limit: MAX_DEPTH }, Seq::empty()))
        } else {
            match list_ident(v@) {
                Ok(of) => after(
                    seq![of.code()],
                    match count_bytes(v@.len()) {
                        Ok(count) => after(count, items_payload(v@, (room - 1) as nat)),
                        Err(fault) => Err(fault),
                    },
                ),
                Err(fault) => Err((fault, Seq::empty())),
            }
        },
        Tag::Compound(c) => if room == 0 {
            Err((ErrorView::TooDeep { limit: MAX_DEPTH }, Seq::empty()))
        } else {
            proof {
                c.lemma_entries_smaller();
            }
            compound_bytes(c.entries(), (room - 1) as nat)
        },
        Tag::IntArray(v) => array_bytes(i32s_as_ints(v@), 4, modulus_32()),
        Tag::LongArray(v) => array_bytes(i64s_as_ints(v@), 8, modulus_64()),
    }
}

/// A document on the wire: the type byte of a compound, the document's name,
/// the compound. The compound of the document is the first of the
/// `MAX_DEPTH` that may be entered.
pub open spec fn root_bytes(name: Seq<char>, entries: Seq<(String, Tag)>) -> Written {
    after(
        seq![TagIdent::TAG_Compound.code()],
        match string_bytes(name) {
            Ok(name) => after(name, compound_bytes(entries, (MAX_DEPTH - 1) as nat)),
            Err(fault) => Err(fault),
        },
    )
}

/// The text is read back from its modified UTF-8. The encoder learns this of
/// every string that it writes, from the crate that encodes it.
pub open spec fn text_reads_back(text: Seq<char>) -> bool {
    java_cesu8_text(java_cesu8_bytes(text)) == Some(text)
}

/// Every name among the entries, and every string in their tags, is read back
/// from its modified UTF-8.
pub open spec fn entries_read_back(entries: Seq<(String, Tag)>) -> bool
    decreases entries, 1int,
{
    forall|i: int|
        0 <= i < entries.len() ==> text_reads_back((#[trigger] entries[i]).0@) && texts_read_back(
            entries[i].1,
        )
}

/// Every string in the tag, names too, is read back from its modified UTF-8.
pub open spec fn texts_read_back(tag: Tag) -> bool
    decreases tag, 0int,
{
    match tag {
        Tag::String(s) => text_reads_back(s@),
        Tag::List(v) => forall|i: int| 0 <= i < v@.len() ==> texts_read_back(#[trigger] v@[i]),
        Tag::Compound(c) => {
            proof {
                c.lemma_entries_smaller();
            }
            entries_read_back(c.entries())
        },
        _ => true,
    }
}

/// A fault among the first items is the fault of them all.
pub proof fn lemma_items_payload_fault(items: Seq<Tag>, n: int, room: nat)
    requires
        0 <= n <= items.len(),
        items_payload(items.take(n), room) is Err,
    ensures
        items_payload(items, room) == items_payload(items.take(n), room),
    decreases items.len() - n,
{
    if n < items.len() {
        assert(items.take(n + 1).drop_last() =~= items.take(n));
        lemma_items_payload_fault(items, n + 1, room);
    } else {
        assert(items.take(n) =~= items);
    }
}

/// A fault among the first entries is the fault of them all.
pub proof fn lemma_entries_payload_fault(entries: Seq<(String, Tag)>, n: int, room: nat)
    requires
        0 <= n <= entries.len(),
        entries_payload(entries.take(n), room) is Err,
    ensures
        entries_payload(entries, room) == entries_payload(entries.take(n), room),
    decreases entries.len() - n,
{
    if n < entries.len() {
        assert(entries.take(n + 1).drop_last() =~= entries.take(n));
        lemma_entries_payload_fault(entries, n + 1, room);
    } else {
        assert(entries.take(n) =~= entries);
    }
}

/// A list declares a type without fault exactly when all its items are of one
/// type, and then it declares that type.
pub proof fn lemma_list_ident(items: Seq<Tag>)
    ensures
        list_ident(items) is Ok <==> forall|i: int|
            0 <= i < items.len() ==> (#[trigger] items[i]).kind() == items[0].kind(),
        list_ident(items) matches Ok(of) ==> forall|i: int|
            0 <= i < items.len() ==> (#[trigger] items[i]).kind() == of,
        items.len() == 0 ==> list_ident(items) == Ok::<TagIdent, ErrorView>(TagIdent::TAG_End),
        list_ident(items) matches Err(fault) ==> exists|i: int|
            0 < i < items.len() && fault == (ErrorView::InvalidList {
                found: (#[trigger] items[i]).kind(),
                expecting: items[0].kind(),
            }) && items[i].kind() != items[0].kind() && forall|j: int|
                0 <= j < i ==> (#[trigger] items[j]).kind() == items[0].kind(),
{
    if items.len() > 0 {
        lemma_stranger(items, items[0].kind(), 0);
    }
}

/// The stranger from `from` on is the first item there of another type.
pub proof fn lemma_stranger(items: Seq<Tag>, expecting: TagIdent, from: int)
    requires
        0 <= from <= items.len(),
    ensures
        match stranger(items, expecting, from) {
            None => forall|i: int|
                from <= i < items.len() ==> (#[trigger] items[i]).kind() == expecting,
            Some(found) => exists|i: int|
                from <= i < items.len() && found == (#[trigger] items[i]).kind() && found
                    != expecting && forall|j: int|
                    from <= j < i ==> (#[trigger] items[j]).kind() == expecting,
        },
    decreases items.len() - from,
{
    if from < items.len() {
        if items[from].kind() != expecting {
            assert(items[from].kind() == items[from].kind());
        } else {
            lemma_stranger(items, expecting, from + 1);
            if let Some(found) = stranger(items, expecting, from + 1) {
                let i = choose|i: int|
                    from + 1 <= i < items.len() && found == (#[trigger] items[i]).kind() && found
                        != expecting && forall|j: int|
                        from + 1 <= j < i ==> (#[trigger] items[j]).kind() == expecting;
                assert forall|j: int| from <= j < i implies (#[trigger] items[j]).kind()
                    == expecting by {}
            }
        }
    }
}

/// The byte that stands for a signed byte.
fn i8_byte(v: i8) -> (r: u8)
    ensures
        r == unsigned_of(v as int, modulus_8()),
        seq![r] == be_bytes(unsigned_of(v as int, modulus_8()), 1),
{
    let r: u8 = if v < 0 {
        (v as i16 + 256) as u8
    } else {
        v as u8
    };
    proof {
        reveal_with_fuel(be_bytes, 2);
        assert(seq![r] =~= be_bytes(unsigned_of(v as int, modulus_8()), 1));
    }
    r
}

/// Checks that the items of a list are all of one type, and returns the type
/// that the list declares.
pub fn ensure_list_integrity(list: &Vec<Tag>) -> (r: NBTResult<TagIdent>)
    ensures
        match list_ident(list@) {
            Ok(of) => r matches Ok(v) && v == of,
            Err(fault) => r matches Err(e) && e@ == fault,
        },
{
    // If list is empty, then type is TAG_End
    if list.len() == 0 {
        return Ok(TagIdent::TAG_End);
    }
    let tag = list[0].ident();
    let mut i: usize = 0;
    while i < list.len()
        invariant
            i <= list.len(),
            list.len() > 0,
            tag == list@[0].kind(),
            stranger(list@, tag, 0) == stranger(list@, tag, i as int),
        decreases list.len() - i,
    {
        let found = list[i].ident();
        if found != tag {
            return Err(NBTError::InvalidList { found, expecting: tag });
        }
        i += 1;
    }
    Ok(tag)
}

/// Writes a string, given its modified UTF-8: the length, then the bytes.
pub fn write_prefixed(writer: &mut Vec<u8>, encoded: &[u8]) -> (r: NBTResult<()>)
    ensures
        match prefixed(encoded@) {
            Ok(bytes) => r is Ok && final(writer)@ == old(writer)@ + bytes,
            Err((fault, partial)) => r matches Err(e) && e@ == fault && final(writer)@ == old(
                writer,
            )@ + partial,
        },
{
    if encoded.len() > MAX_STRING_BYTES {
        assert(writer@ =~= writer@ + Seq::<u8>::empty());
        return Err(NBTError::TooLong { length: encoded.len(), limit: MAX_STRING_BYTES });
    }
    let length = be_write_u16(encoded.len() as u16);
    append_bytes(writer, length.as_slice());
    append_bytes(writer, encoded);
    assert(writer@ =~= old(writer)@ + (be_bytes(encoded@.len(), 2) + encoded@));
    Ok(())
}

/// Writes the count of an array or a list.
pub fn write_count(writer: &mut Vec<u8>, count: usize) -> (r: NBTResult<()>)
    ensures
        match count_bytes(count as nat) {
            Ok(bytes) => r is Ok && final(writer)@ == old(writer)@ + bytes,
            Err((fault, partial)) => r matches Err(e) && e@ == fault && final(writer)@ == old(
                writer,
            )@ + partial,
        },
{
    if count > MAX_ITEMS {
        assert(writer@ =~= writer@ + Seq::<u8>::empty());
        return Err(NBTError::TooLong { length: count, limit: MAX_ITEMS });
    }
    let bytes = be_write_u32(count as u32);
    append_bytes(writer, bytes.as_slice());
    Ok(())
}

/// Writes a string: the length of its modified UTF-8, then those bytes.
pub fn write_string(writer: &mut Vec<u8>, string: &str) -> (r: NBTResult<()>)
    ensures
        match string_bytes(string@) {
            Ok(bytes) => r is Ok && final(writer)@ == old(writer)@ + bytes,
            Err((fault, partial)) => r matches Err(e) && e@ == fault && final(writer)@ == old(
                writer,
            )@ + partial,
        },
        text_reads_back(string@),
{
    let bytes = to_java_cesu8(string);
    write_prefixed(writer, bytes.as_slice())
}

/// Writes an array of bytes: its count, then its numbers.
fn write_byte_array(writer: &mut Vec<u8>, array: &Vec<i8>) -> (r: NBTResult<()>)
    ensures
        match array_bytes(i8s_as_ints(array@), 1, modulus_8()) {
            Ok(bytes) => r is Ok && final(writer)@ == old(writer)@ + bytes,
            Err((fault, partial)) => r matches Err(e) && e@ == fault && final(writer)@ == old(
                writer,
            )@ + partial,
        },
{
    write_count(writer, array.len())?;
    let ghost start = writer@;
    let ghost values = i8s_as_ints(array@);
    let mut i: usize = 0;
    while i < array.len()
        invariant
            i <= array.len(),
            values == i8s_as_ints(array@),
            writer@ == start + numbers_bytes(values.take(i as int), 1, modulus_8()),
        decreases array.len() - i,
    {
        let byte = i8_byte(array[i]);
        writer.push(byte);
        proof {
            assert(values.take(i + 1).drop_last() =~= values.take(i as int));
            assert(writer@ =~= start + numbers_bytes(values.take(i + 1), 1, modulus_8()));
        }
        i += 1;
    }
    assert(values.take(i as int) =~= values);
    assert(writer@ =~= old(writer)@ + (be_bytes(array@.len(), 4) + numbers_bytes(
        values,
        1,
        modulus_8(),
    )));
    Ok(())
}

/// Writes an array of 32 bit integers: its count, then its numbers.
fn write_int_array(writer: &mut Vec<u8>, array: &Vec<i32>) -> (r: NBTResult<()>)
    ensures
        match array_bytes(i32s_as_ints(array@), 4, modulus_32()) {
            Ok(bytes) => r is Ok && final(writer)@ == old(writer)@ + bytes,
            Err((fault, partial)) => r matches Err(e) && e@ == fault && final(writer)@ == old(
                writer,
            )@ + partial,
        },
{
    write_count(writer, array.len())?;
    let ghost start = writer@;
    let ghost values = i32s_as_ints(array@);
    let mut i: usize = 0;
    while i < array.len()
        invariant
            i <= array.len(),
            values == i32s_as_ints(array@),
            writer@ == start + numbers_bytes(values.take(i as int), 4, modulus_32()),
        decreases array.len() - i,
    {
        let bytes = be_write_i32(array[i]);
        append_bytes(writer, bytes.as_slice());
        proof {
            assert(values.take(i + 1).drop_last() =~= values.take(i as int));
            assert(writer@ =~= start + numbers_bytes(values.take(i + 1), 4, modulus_32()));
        }
        i += 1;
    }
    assert(values.take(i as int) =~= values);
    assert(writer@ =~= old(writer)@ + (be_bytes(array@.len(), 4) + numbers_bytes(
        values,
        4,
        modulus_32(),
    )));
    Ok(())
}

/// Writes an array of 64 bit integers: its count, then its numbers.
fn write_long_array(writer: &mut Vec<u8>, array: &Vec<i64>) -> (r: NBTResult<()>)
    ensures
        match array_bytes(i64s_as_ints(array@), 8, modulus_64()) {
            Ok(bytes) => r is Ok && final(writer)@ == old(writer)@ + bytes,
            Err((fault, partial)) => r matches Err(e) && e@ == fault && final(writer)@ == old(
                writer,
            )@ + partial,
        },
{
    write_count(writer, array.len())?;
    let ghost start = writer@;
    let ghost values = i64s_as_ints(array@);
    let mut i: usize = 0;
    while i < array.len()
        invariant
            i <= array.len(),
            values == i64s_as_ints(array@),
            writer@ == start + numbers_bytes(values.take(i as int), 8, modulus_64()),
        decreases array.len() - i,
    {
        let bytes = be_write_i64(array[i]);
        append_bytes(writer, bytes.as_slice());
        proof {
            assert(values.take(i + 1).drop_last() =~= values.take(i as int));
            assert(writer@ =~= start + numbers_bytes(values.take(i + 1), 8, modulus_64()));
        }
        i += 1;
    }
    assert(values.take(i as int) =~= values);
    assert(writer@ =~= old(writer)@ + (be_bytes(array@.len(), 4) + numbers_bytes(
        values,
        8,
        modulus_64(),
    )));
    Ok(())
}

/// Writes the payload of a tag. A list is checked first: its items must all
/// be of one type. At most `MAX_DEPTH` lists and compounds are entered, one
/// inside the other.
pub fn write_tag(writer: &mut Vec<u8>, tag: &Tag) -> (r: NBTResult<()>)
    ensures
        match payload(*tag, MAX_DEPTH as nat) {
            Ok(bytes) => r is Ok && final(writer)@ == old(writer)@ + bytes,
            Err((fault, partial)) => r matches Err(e) && e@ == fault && final(writer)@ == old(
                writer,
            )@ + partial,
        },
        r is Ok ==> texts_read_back(*tag),
{
    write_tag_within(writer, tag, MAX_DEPTH)
}

/// Writes the payload of a tag, where `room` more lists and compounds may be
/// entered.
fn write_tag_within(writer: &mut Vec<u8>, tag: &Tag, room: usize) -> (r: NBTResult<()>)
    ensures
        match payload(*tag, room as nat) {
            Ok(bytes) => r is Ok && final(writer)@ == old(writer)@ + bytes,
            Err((fault, partial)) => r matches Err(e) && e@ == fault && final(writer)@ == old(
                writer,
            )@ + partial,
        },
        r is Ok ==> texts_read_back(*tag),
    decreases tag,
{
    match tag {
        Tag::Byte(byte) => {
            let b = i8_byte(*byte);
            writer.push(b);
            assert(writer@ =~= old(writer)@ + seq![b]);
            Ok(())
        },
        Tag::Short(short) => {
            let bytes = be_write_i16(*short);
            append_bytes(writer, bytes.as_slice());
            Ok(())
        },
        Tag::Int(value) => {
            let bytes = be_write_i32(*value);
            append_bytes(writer, bytes.as_slice());
            Ok(())
        },
        Tag::Long(long) => {
            let bytes = be_write_i64(*long);
            append_bytes(writer, bytes.as_slice());
            Ok(())
        },
        Tag::Float(float) => {
            let bytes = be_write_u32(*float);
            append_bytes(writer, bytes.as_slice());
            Ok(())
        },
        Tag::Double(double) => {
            let bytes = be_write_u64(*double);
            append_bytes(writer, bytes.as_slice());
            Ok(())
        },
        Tag::ByteArray(bytes) => write_byte_array(writer, bytes),
        Tag::String(string) => write_string(writer, string.as_str()),
        Tag::List(list) => {
            if room == 0 {
                assert(writer@ =~= writer@ + Seq::<u8>::empty());
                return Err(NBTError::TooDeep { limit: MAX_DEPTH });
            }
            // Check the list is valid (all items are of the same type) and return the type prefix.
            let list_type = match ensure_list_integrity(list) {
                Ok(of) => of,
                Err(e) => {
                    assert(writer@ =~= writer@ + Seq::<u8>::empty());
                    return Err(e);
                },
            };
            // Write type prefix.
            writer.push(list_type.id());
            let ghost typed = writer@;
            // Write List length
            match write_count(writer, list.len()) {
                Ok(()) => {},
                Err(e) => {
                    assert(writer@ =~= old(writer)@ + (seq![list_type.code()] + Seq::<u8>::empty()));
                    return Err(e);
                },
            }
            let ghost count = be_bytes(list@.len(), 4);
            let ghost start = writer@;
            let mut i: usize = 0;
            // Write items (without prefix)
            while i < list.len()
                invariant
                    i <= list.len(),
                    room > 0,
                    tag matches Tag::List(w) && w == list,
                    list_ident(list@) == Ok::<TagIdent, ErrorView>(list_type),
                    count_bytes(list@.len()) == Ok::<Seq<u8>, (ErrorView, Seq<u8>)>(count),
                    start == old(writer)@ + seq![list_type.code()] + count,
                    items_payload(list@.take(i as int), (room - 1) as nat) matches Ok(done)
                        && writer@ == start + done,
                    forall|k: int| 0 <= k < i ==> texts_read_back(#[trigger] list@[k]),
                decreases list.len() - i,
            {
                proof {
                    assert(list@.take(i + 1).drop_last() =~= list@.take(i as int));
                }
                let ghost done = items_payload(list@.take(i as int), (room - 1) as nat)->Ok_0;
                match write_tag_within(writer, &list[i], room - 1) {
                    Ok(()) => {},
                    Err(e) => {
                        proof {
                            lemma_items_payload_fault(list@, i + 1, (room - 1) as nat);
                            let partial = payload(list@[i as int], (room - 1) as nat)->Err_0.1;
                            assert(writer@ =~= old(writer)@ + (seq![list_type.code()] + (count + (
                            done + partial))));
                        }
                        return Err(e);
                    },
                }
                proof {
                    let last = payload(list@[i as int], (room - 1) as nat)->Ok_0;
                    assert(writer@ =~= start + (done + last));
                }
                i += 1;
            }
            proof {
                assert(list@.take(i as int) =~= list@);
                let items = items_payload(list@, (room - 1) as nat)->Ok_0;
                assert(writer@ =~= old(writer)@ + (seq![list_type.code()] + (count + items)));
            }
            Ok(())
        },
        Tag::Compound(compound) => {
            if room == 0 {
                assert(writer@ =~= writer@ + Seq::<u8>::empty());
                return Err(NBTError::TooDeep { limit: MAX_DEPTH });
            }
            write_compound_within(writer, compound, room - 1)
        },
        Tag::IntArray(array) => write_int_array(writer, array),
        Tag::LongArray(array) => write_long_array(writer, array),
    }
}

/// Writes a document: the type byte of a compound, the name, the compound.
pub fn write_root(writer: &mut Vec<u8>, name: &str, elements: &Compound) -> (r: NBTResult<()>)
    ensures
        match root_bytes(name@, elements.entries()) {
            Ok(bytes) => r is Ok && final(writer)@ == old(writer)@ + bytes,
            Err((fault, partial)) => r matches Err(e) && e@ == fault && final(writer)@ == old(
                writer,
            )@ + partial,
        },
        r is Ok ==> text_reads_back(name@) && entries_read_back(elements.entries()),
{
    // Write implicit compound ident prefix.
    writer.push(TagIdent::TAG_Compound.id());
    let ghost head = seq![TagIdent::TAG_Compound.code()];
    // Write root compound name
    match write_string(writer, name) {
        Ok(()) => {},
        Err(e) => {
            assert(writer@ =~= old(writer)@ + (head + Seq::<u8>::empty()));
            return Err(e);
        },
    }
    let ghost name_bytes = string_bytes(name@)->Ok_0;
    // Write elements
    let r = write_compound(writer, elements);
    proof {
        match compound_bytes(elements.entries(), (MAX_DEPTH - 1) as nat) {
            Ok(body) => {
                assert(writer@ =~= old(writer)@ + (head + (name_bytes + body)));
            },
            Err((fault, partial)) => {
                assert(writer@ =~= old(writer)@ + (head + (name_bytes + partial)));
            },
        }
    }
    r
}

/// Writes a compound: its entries in their order, then the end marker.
pub fn write_compound(writer: &mut Vec<u8>, compound: &Compound) -> (r: NBTResult<()>)
    ensures
        match compound_bytes(compound.entries(), (MAX_DEPTH - 1) as nat) {
            Ok(bytes) => r is Ok && final(writer)@ == old(writer)@ + bytes,
            Err((fault, partial)) => r matches Err(e) && e@ == fault && final(writer)@ == old(
                writer,
            )@ + partial,
        },
        r is Ok ==> entries_read_back(compound.entries()),
{
    write_compound_within(writer, compound, MAX_DEPTH - 1)
}

/// Writes a compound, with `room` for the payload of each entry.
fn write_compound_within(writer: &mut Vec<u8>, compound: &Compound, room: usize) -> (r: NBTResult<
    (),
>)
    ensures
        match compound_bytes(compound.entries(), room as nat) {
            Ok(bytes) => r is Ok && final(writer)@ == old(writer)@ + bytes,
            Err((fault, partial)) => r matches Err(e) && e@ == fault && final(writer)@ == old(
                writer,
            )@ + partial,
        },
        r is Ok ==> entries_read_back(compound.entries()),
    decreases compound,
{
    let entries = compound.tags();
    let mut i: usize = 0;
    // Write items of compound
    while i < entries.len()
        invariant
            i <= entries.len(),
            entries@ == compound.entries(),
            entries_payload(entries@.take(i as int), room as nat) matches Ok(done) && writer@
                == old(writer)@ + done,
            forall|k: int|
                0 <= k < i ==> text_reads_back((#[trigger] entries@[k]).0@) && texts_read_back(
                    entries@[k].1,
                ),
        decreases entries.len() - i,
    {
        let ghost done = entries_payload(entries@.take(i as int), room as nat)->Ok_0;
        proof {
            assert(entries@.take(i + 1).drop_last() =~= entries@.take(i as int));
            assert(entries@.take(i + 1).last() == entries@[i as int]);
            compound.lemma_entries_smaller();
        }
        let name = &entries[i].0;
        let payload = &entries[i].1;
        let ghost head = seq![payload.kind().code()];
        let ghost entry = entry_bytes(entries@[i as int], room as nat);
        proof {
            assert(entry == after(
                head,
                match string_bytes(name@) {
                    Ok(n) => after(n, crate::encode::payload(*payload, room as nat)),
                    Err(fault) => Err(fault),
                },
            ));
            assert(entries_payload(entries@.take(i + 1), room as nat) == after(done, entry));
        }
        // Write element tag
        writer.push(payload.ident().id());
        // Write element name
        match write_string(writer, name.as_str()) {
            Ok(()) => {},
            Err(e) => {
                proof {
                    lemma_entries_payload_fault(entries@, i + 1, room as nat);
                    assert(writer@ =~= old(writer)@ + (done + (head + Seq::<u8>::empty())));
                }
                return Err(e);
            },
        }
        let ghost name_bytes = string_bytes(name@)->Ok_0;
        // write payload
        match write_tag_within(writer, payload, room) {
            Ok(()) => {},
            Err(e) => {
                proof {
                    lemma_entries_payload_fault(entries@, i + 1, room as nat);
                    let partial = crate::encode::payload(*payload, room as nat)->Err_0.1;
                    assert(writer@ =~= old(writer)@ + (done + (head + (name_bytes + partial))));
                }
                return Err(e);
            },
        }
        proof {
            let value = crate::encode::payload(*payload, room as nat)->Ok_0;
            assert(writer@ =~= old(writer)@ + (done + (head + (name_bytes + value))));
        }
        i += 1;
    }
    proof {
        assert(entries@.take(i as int) =~= entries@);
    }
    writer.push(TagIdent::TAG_End.id());
    proof {
        let done = entries_payload(entries@, room as nat)->Ok_0;
        assert(writer@ =~= old(writer)@ + (done + seq![TagIdent::TAG_End.code()]));
    }
    Ok(())
}

} // verus!
