//! The laws of the codec: what the decoder refuses, what the encoder refuses,
//! and that what is written is read back.

use crate::decode::{
    as_i32s, as_i64s, as_i8s, element, lemma_parse_advances, parse_array, parse_entries,
    parse_ident, parse_items, parse_root, parse_string, parse_tag,
};
use crate::encode::{
    array_bytes, entries_payload, entry_bytes, entries_read_back, i32s_as_ints, i64s_as_ints,
    i8s_as_ints, items_payload, lemma_entries_payload_fault, lemma_items_payload_fault,
    lemma_list_ident, lemma_stranger, list_ident, numbers_bytes, payload, root_bytes, stranger,
    string_bytes, text_reads_back, texts_read_back, MAX_ITEMS, MAX_STRING_BYTES,
};
use crate::error::ErrorView;
use crate::reader::{fits, parse_signed, parse_unsigned};
use crate::tags::{entries_view, items_view, Tag, TagIdent, TagView, MAX_DEPTH};
use crate::wire::{
    be_bytes, java_cesu8_bytes, lemma_be_len, lemma_be_value_of_bytes, lemma_be_value_single,
    lemma_signed_of_unsigned, modulus_16, modulus_32, modulus_64, modulus_8, unsigned_of,
};
use vstd::prelude::*;

verus! {

/// The bytes stand in the data at `pos`.
pub open spec fn stands_at(data: Seq<u8>, pos: int, bytes: Seq<u8>) -> bool {
    fits(data, pos, bytes.len() as int) && data.subrange(pos, pos + bytes.len()) == bytes
}

/// Bytes stand at a place exactly when their front stands there and their
/// back stands right after it.
pub proof fn lemma_stands_at_split(data: Seq<u8>, pos: int, front: Seq<u8>, back: Seq<u8>)
    ensures
        stands_at(data, pos, front + back) <==> stands_at(data, pos, front) && stands_at(
            data,
            pos + front.len(),
            back,
        ),
{
    let whole = front + back;
    if stands_at(data, pos, whole) {
        assert(data.subrange(pos, pos + front.len()) =~= whole.subrange(0, front.len() as int));
        assert(whole.subrange(0, front.len() as int) =~= front);
        assert(data.subrange(pos + front.len(), pos + front.len() + back.len())
            =~= whole.subrange(front.len() as int, whole.len() as int));
        assert(whole.subrange(front.len() as int, whole.len() as int) =~= back);
    }
    if stands_at(data, pos, front) && stands_at(data, pos + front.len(), back) {
        assert forall|i: int| 0 <= i < whole.len() implies data.subrange(pos, pos + whole.len())[i]
            == whole[i] by {
            if i < front.len() {
                assert(data.subrange(pos, pos + front.len())[i] == front[i]);
            } else {
                assert(data.subrange(pos + front.len(), pos + front.len() + back.len())[i
                    - front.len()] == back[i - front.len()]);
            }
        }
        assert(data.subrange(pos, pos + whole.len()) =~= whole);
    }
}

/// A number that stands in the data is read from it.
pub proof fn lemma_unsigned_reads_back(data: Seq<u8>, pos: int, value: nat, width: nat)
    requires
        stands_at(data, pos, be_bytes(value, width)),
        (width == 1 && value < modulus_8()) || (width == 2 && value < modulus_16()) || (width == 4
            && value < modulus_32()) || (width == 8 && value < modulus_64()),
    ensures
        parse_unsigned(data, pos, width as int) == Ok::<(nat, int), (ErrorView, int)>(
            (value, pos + width),
        ),
{
    lemma_be_value_of_bytes(value, width);
}

/// A signed number that stands in the data is read from it.
pub proof fn lemma_signed_reads_back(
    data: Seq<u8>,
    pos: int,
    value: int,
    width: nat,
    modulus: int,
)
    requires
        stands_at(data, pos, be_bytes(unsigned_of(value, modulus), width)),
        (width == 1 && modulus == modulus_8()) || (width == 2 && modulus == modulus_16()) || (width
            == 4 && modulus == modulus_32()) || (width == 8 && modulus == modulus_64()),
        -(modulus / 2) <= value < modulus / 2,
    ensures
        parse_signed(data, pos, width as int, modulus) == Ok::<(int, int), (ErrorView, int)>(
            (value, pos + width),
        ),
{
    lemma_signed_of_unsigned(value, modulus);
    lemma_unsigned_reads_back(data, pos, unsigned_of(value, modulus), width);
}

/// A string that stands in the data is read from it, where its text is read
/// back from its modified UTF-8.
pub proof fn lemma_string_reads_back(data: Seq<u8>, pos: int, text: Seq<char>)
    requires
        string_bytes(text) matches Ok(bytes) && stands_at(data, pos, bytes),
        text_reads_back(text),
    ensures
        parse_string(data, pos) == Ok::<(Seq<char>, int), (ErrorView, int)>(
            (text, pos + string_bytes(text)->Ok_0.len()),
        ),
{
    let encoded = java_cesu8_bytes(text);
    let length = be_bytes(encoded.len(), 2);
    lemma_be_len(encoded.len(), 2);
    lemma_stands_at_split(data, pos, length, encoded);
    lemma_unsigned_reads_back(data, pos, encoded.len(), 2);
}

/// Numbers that stand in the data take `width` bytes each, and each stands at
/// its place.
pub proof fn lemma_numbers_stand(
    data: Seq<u8>,
    start: int,
    values: Seq<int>,
    width: nat,
    modulus: int,
)
    requires
        stands_at(data, start, numbers_bytes(values, width, modulus)),
    ensures
        numbers_bytes(values, width, modulus).len() == values.len() * width,
        forall|i: int|
            0 <= i < values.len() ==> stands_at(
                data,
                start + i * width,
                #[trigger] be_bytes(unsigned_of(values[i], modulus), width),
            ),
    decreases values.len(),
{
    if values.len() > 0 {
        let front = values.drop_last();
        let front_bytes = numbers_bytes(front, width, modulus);
        let last_bytes = be_bytes(unsigned_of(values.last(), modulus), width);
        lemma_stands_at_split(data, start, front_bytes, last_bytes);
        lemma_numbers_stand(data, start, front, width, modulus);
        lemma_be_len(unsigned_of(values.last(), modulus), width);
        assert(front.len() * width + width == values.len() * width) by (nonlinear_arith)
            requires
                front.len() + 1 == values.len(),
        ;
        assert forall|i: int| 0 <= i < values.len() implies stands_at(
            data,
            start + i * width,
            #[trigger] be_bytes(unsigned_of(values[i], modulus), width),
        ) by {
            if i < front.len() {
                assert(front[i] == values[i]);
            } else {
                assert(i == front.len());
            }
        }
    } else {
        assert(values.len() * width == 0) by (nonlinear_arith)
            requires
                values.len() == 0,
        ;
    }
}

/// An array that stands in the data is read from it.
pub proof fn lemma_array_reads_back(
    data: Seq<u8>,
    pos: int,
    values: Seq<int>,
    width: nat,
    modulus: int,
)
    requires
        array_bytes(values, width, modulus) matches Ok(bytes) && stands_at(data, pos, bytes),
        (width == 1 && modulus == modulus_8()) || (width == 4 && modulus == modulus_32()) || (width
            == 8 && modulus == modulus_64()),
        forall|i: int| 0 <= i < values.len() ==> -(modulus / 2) <= #[trigger] values[i] < modulus / 2,
    ensures
        parse_array(data, pos, width as int, modulus) == Ok::<(Seq<int>, int), (ErrorView, int)>(
            (values, pos + array_bytes(values, width, modulus)->Ok_0.len()),
        ),
{
    let count = be_bytes(values.len(), 4);
    let numbers = numbers_bytes(values, width, modulus);
    lemma_be_len(values.len(), 4);
    lemma_stands_at_split(data, pos, count, numbers);
    lemma_unsigned_reads_back(data, pos, values.len(), 4);
    let start = pos + 4;
    lemma_numbers_stand(data, start, values, width, modulus);
    let read = Seq::new(values.len(), |index: int| element(data, start, width as int, modulus, index));
    assert forall|i: int| 0 <= i < values.len() implies read[i] == values[i] by {
        let bytes = be_bytes(unsigned_of(values[i], modulus), width);
        assert(stands_at(data, start + i * width, bytes));
        lemma_be_len(unsigned_of(values[i], modulus), width);
        lemma_signed_reads_back(data, start + i * width, values[i], width, modulus);
    }
    assert(read =~= values);
}

/// Where all items can be written, so can the first `k` of them and the one
/// after, and what is written for them is the front of what is written for
/// all.
pub proof fn lemma_items_payload_front(items: Seq<Tag>, k: int, room: nat)
    requires
        0 <= k <= items.len(),
        items_payload(items, room) is Ok,
    ensures
        items_payload(items.take(k), room) matches Ok(front) && front.len() <= items_payload(
            items,
            room,
        )->Ok_0.len() && items_payload(items, room)->Ok_0.subrange(0, front.len() as int)
            == front,
        k < items.len() ==> (payload(items[k], room) matches Ok(item) && items_payload(
            items.take(k + 1),
            room,
        ) == Ok::<Seq<u8>, (ErrorView, Seq<u8>)>(items_payload(items.take(k), room)->Ok_0 + item)),
    decreases items.len() - k,
{
    let all = items_payload(items, room)->Ok_0;
    if k < items.len() {
        lemma_items_payload_front(items, k + 1, room);
        assert(items.take(k + 1).drop_last() =~= items.take(k));
        assert(items.take(k + 1).last() == items[k]);
        let next = items_payload(items.take(k + 1), room)->Ok_0;
        let front = items_payload(items.take(k), room)->Ok_0;
        assert(all.subrange(0, front.len() as int) =~= next.subrange(0, front.len() as int));
        assert(next.subrange(0, front.len() as int) =~= front);
    } else {
        assert(items.take(k) =~= items);
        assert(all.subrange(0, all.len() as int) =~= all);
    }
}

/// Where all entries can be written, so can the first `k` of them and the one
/// after, and what is written for them is the front of what is written for
/// all.
pub proof fn lemma_entries_payload_front(entries: Seq<(String, Tag)>, k: int, room: nat)
    requires
        0 <= k <= entries.len(),
        entries_payload(entries, room) is Ok,
    ensures
        entries_payload(entries.take(k), room) matches Ok(front) && front.len() <= entries_payload(
            entries,
            room,
        )->Ok_0.len() && entries_payload(entries, room)->Ok_0.subrange(0, front.len() as int)
            == front,
        k < entries.len() ==> (entry_bytes(entries[k], room) matches Ok(entry) && entries_payload(
            entries.take(k + 1),
            room,
        ) == Ok::<Seq<u8>, (ErrorView, Seq<u8>)>(
            entries_payload(entries.take(k), room)->Ok_0 + entry,
        )),
    decreases entries.len() - k,
{
    let all = entries_payload(entries, room)->Ok_0;
    if k < entries.len() {
        lemma_entries_payload_front(entries, k + 1, room);
        assert(entries.take(k + 1).drop_last() =~= entries.take(k));
        assert(entries.take(k + 1).last() == entries[k]);
        let next = entries_payload(entries.take(k + 1), room)->Ok_0;
        let front = entries_payload(entries.take(k), room)->Ok_0;
        assert(all.subrange(0, front.len() as int) =~= next.subrange(0, front.len() as int));
        assert(next.subrange(0, front.len() as int) =~= front);
    } else {
        assert(entries.take(k) =~= entries);
        assert(all.subrange(0, all.len() as int) =~= all);
    }
}

/// The payload of a tag, standing in the data, is read from it as the tag's
/// value, and reading ends where the payload ends. This holds of every tag
/// that can be written with the room given and whose strings are read back
/// from their modified UTF-8.
pub proof fn lemma_payload_reads_back(tag: Tag, data: Seq<u8>, pos: int, room: nat)
    requires
        payload(tag, room) matches Ok(bytes) && stands_at(data, pos, bytes),
        texts_read_back(tag),
    ensures
        parse_tag(data, pos, tag.kind(), room) == Ok::<(TagView, int), (ErrorView, int)>(
            (tag@, pos + payload(tag, room)->Ok_0.len()),
        ),
    decreases tag, 0int, 0int,
{
    let bytes = payload(tag, room)->Ok_0;
    match tag {
        Tag::Byte(v) => {
            lemma_be_len(unsigned_of(v as int, modulus_8()), 1);
            lemma_signed_reads_back(data, pos, v as int, 1, modulus_8());
        },
        Tag::Short(v) => {
            lemma_be_len(unsigned_of(v as int, modulus_16()), 2);
            lemma_signed_reads_back(data, pos, v as int, 2, modulus_16());
        },
        Tag::Int(v) => {
            lemma_be_len(unsigned_of(v as int, modulus_32()), 4);
            lemma_signed_reads_back(data, pos, v as int, 4, modulus_32());
        },
        Tag::Long(v) => {
            lemma_be_len(unsigned_of(v as int, modulus_64()), 8);
            lemma_signed_reads_back(data, pos, v as int, 8, modulus_64());
        },
        Tag::Float(v) => {
            lemma_be_len(v as nat, 4);
            lemma_unsigned_reads_back(data, pos, v as nat, 4);
        },
        Tag::Double(v) => {
            lemma_be_len(v as nat, 8);
            lemma_unsigned_reads_back(data, pos, v as nat, 8);
        },
        Tag::ByteArray(v) => {
            lemma_array_reads_back(data, pos, i8s_as_ints(v@), 1, modulus_8());
            assert(as_i8s(i8s_as_ints(v@)) =~= v@);
        },
        Tag::String(s) => {
            lemma_string_reads_back(data, pos, s@);
        },
        Tag::List(v) => {
            let sub = (room - 1) as nat;
            let of = list_ident(v@)->Ok_0;
            let count = be_bytes(v@.len(), 4);
            let items = items_payload(v@, sub)->Ok_0;
            assert(bytes == seq![of.code()] + (count + items));
            lemma_list_ident(v@);
            of.lemma_code_parses_back();
            lemma_be_len(v@.len(), 4);
            lemma_stands_at_split(data, pos, seq![of.code()], count + items);
            lemma_stands_at_split(data, pos + 1, count, items);
            lemma_be_value_single(data.subrange(pos, pos + 1));
            assert(data.subrange(pos, pos + 1)[0] == seq![of.code()][0]);
            lemma_unsigned_reads_back(data, pos + 1, v@.len(), 4);
            lemma_items_payload_front(v@, 0, sub);
            assert(v@.take(0) =~= Seq::<Tag>::empty());
            lemma_items_read_back(v@, of, data, pos + 5, 0, sub);
        },
        Tag::Compound(c) => {
            let sub = (room - 1) as nat;
            c.lemma_entries_smaller();
            let entries = c.entries();
            let body = entries_payload(entries, sub)->Ok_0;
            lemma_stands_at_split(data, pos, body, seq![TagIdent::TAG_End.code()]);
            lemma_entries_payload_front(entries, 0, sub);
            assert(entries.take(0) =~= Seq::<(String, Tag)>::empty());
            lemma_entries_read_back(entries, data, pos, 0, sub);
        },
        Tag::IntArray(v) => {
            lemma_array_reads_back(data, pos, i32s_as_ints(v@), 4, modulus_32());
            assert(as_i32s(i32s_as_ints(v@)) =~= v@);
        },
        Tag::LongArray(v) => {
            lemma_array_reads_back(data, pos, i64s_as_ints(v@), 8, modulus_64());
            assert(as_i64s(i64s_as_ints(v@)) =~= v@);
        },
    }
}

/// The payloads of the items of a list, standing in the data from `start` on,
/// are read from it as the items' values: with the first `k` read, the rest
/// follow.
pub proof fn lemma_items_read_back(
    items: Seq<Tag>,
    of: TagIdent,
    data: Seq<u8>,
    start: int,
    k: int,
    room: nat,
)
    requires
        0 <= k <= items.len(),
        items_payload(items, room) matches Ok(bytes) && stands_at(data, start, bytes),
        forall|i: int| 0 <= i < items.len() ==> (#[trigger] items[i]).kind() == of,
        forall|i: int| 0 <= i < items.len() ==> texts_read_back(#[trigger] items[i]),
    ensures
        parse_items(
            data,
            start + items_payload(items.take(k), room)->Ok_0.len(),
            of,
            (items.len() - k) as nat,
            items_view(items.take(k)),
            room,
        ) == Ok::<(Seq<TagView>, int), (ErrorView, int)>(
            (items_view(items), start + items_payload(items, room)->Ok_0.len()),
        ),
    decreases items, 1int, items.len() - k,
{
    let all = items_payload(items, room)->Ok_0;
    lemma_items_payload_front(items, k, room);
    let front = items_payload(items.take(k), room)->Ok_0;
    if k < items.len() {
        let item = payload(items[k], room)->Ok_0;
        lemma_items_payload_front(items, k + 1, room);
        let next = front + item;
        assert(stands_at(data, start, next)) by {
            assert(data.subrange(start, start + next.len()) =~= all.subrange(0, next.len() as int));
        }
        lemma_stands_at_split(data, start, front, item);
        lemma_payload_reads_back(items[k], data, start + front.len(), room);
        items[k].lemma_kind();
        lemma_parse_advances(data, start + front.len(), of, room);
        assert(items.take(k + 1).drop_last() =~= items.take(k));
        assert(items.take(k + 1).last() == items[k]);
        lemma_items_read_back(items, of, data, start, k + 1, room);
    } else {
        assert(items.take(k) =~= items);
    }
}

/// The entries of a compound, standing in the data from `start` on with the
/// end marker after them, are read from it as the map of the entries: with
/// the first `k` read, the rest follow.
pub proof fn lemma_entries_read_back(
    entries: Seq<(String, Tag)>,
    data: Seq<u8>,
    start: int,
    k: int,
    room: nat,
)
    requires
        0 <= k <= entries.len(),
        entries_payload(entries, room) matches Ok(bytes) && stands_at(data, start, bytes)
            && stands_at(data, start + bytes.len(), seq![TagIdent::TAG_End.code()]),
        entries_read_back(entries),
    ensures
        parse_entries(
            data,
            start + entries_payload(entries.take(k), room)->Ok_0.len(),
            entries_view(entries.take(k)),
            room,
        ) == Ok::<(Map<Seq<char>, TagView>, int), (ErrorView, int)>(
            (entries_view(entries), start + entries_payload(entries, room)->Ok_0.len() + 1),
        ),
    decreases entries, 1int, entries.len() - k,
{
    let all = entries_payload(entries, room)->Ok_0;
    lemma_entries_payload_front(entries, k, room);
    let front = entries_payload(entries.take(k), room)->Ok_0;
    let at = start + front.len();
    if k < entries.len() {
        let entry = entries[k];
        let whole = entry_bytes(entry, room)->Ok_0;
        let name = string_bytes(entry.0@)->Ok_0;
        let value = payload(entry.1, room)->Ok_0;
        let ident = entry.1.kind();
        assert(whole == seq![ident.code()] + (name + value));
        lemma_entries_payload_front(entries, k + 1, room);
        let next = front + whole;
        assert(stands_at(data, start, next)) by {
            assert(data.subrange(start, start + next.len()) =~= all.subrange(0, next.len() as int));
        }
        lemma_stands_at_split(data, start, front, whole);
        lemma_stands_at_split(data, at, seq![ident.code()], name + value);
        lemma_stands_at_split(data, at + 1, name, value);
        lemma_be_value_single(data.subrange(at, at + 1));
        assert(data.subrange(at, at + 1)[0] == seq![ident.code()][0]);
        ident.lemma_code_parses_back();
        entry.1.lemma_kind();
        lemma_string_reads_back(data, at + 1, entry.0@);
        lemma_payload_reads_back(entry.1, data, at + 1 + name.len(), room);
        lemma_parse_advances(data, at + 1 + name.len(), ident, room);
        assert(entries.take(k + 1).drop_last() =~= entries.take(k));
        assert(entries.take(k + 1).last() == entries[k]);
        lemma_entries_read_back(entries, data, start, k + 1, room);
    } else {
        assert(entries.take(k) =~= entries);
        lemma_be_value_single(data.subrange(at, at + 1));
        assert(data.subrange(at, at + 1)[0] == seq![TagIdent::TAG_End.code()][0]);
    }
}

/// A document, standing in the data, is read from it with its name and the
/// map of its entries.
pub proof fn lemma_root_reads_back(
    name: Seq<char>,
    entries: Seq<(String, Tag)>,
    data: Seq<u8>,
    pos: int,
)
    requires
        root_bytes(name, entries) matches Ok(bytes) && stands_at(data, pos, bytes),
        text_reads_back(name),
        entries_read_back(entries),
    ensures
        parse_root(data, pos) == Ok::<
            ((Seq<char>, Map<Seq<char>, TagView>), int),
            (ErrorView, int),
        >(((name, entries_view(entries)), pos + root_bytes(name, entries)->Ok_0.len())),
{
    let sub = (MAX_DEPTH - 1) as nat;
    let name_bytes = string_bytes(name)->Ok_0;
    let body = entries_payload(entries, sub)->Ok_0;
    let end = seq![TagIdent::TAG_End.code()];
    let head = seq![TagIdent::TAG_Compound.code()];
    assert(root_bytes(name, entries)->Ok_0 == head + (name_bytes + (body + end)));
    lemma_stands_at_split(data, pos, head, name_bytes + (body + end));
    lemma_stands_at_split(data, pos + 1, name_bytes, body + end);
    lemma_stands_at_split(data, pos + 1 + name_bytes.len(), body, end);
    lemma_be_value_single(data.subrange(pos, pos + 1));
    assert(data.subrange(pos, pos + 1)[0] == head[0]);
    lemma_string_reads_back(data, pos + 1, name);
    lemma_entries_payload_front(entries, 0, sub);
    assert(entries.take(0) =~= Seq::<(String, Tag)>::empty());
    lemma_entries_read_back(entries, data, pos + 1 + name_bytes.len(), 0, sub);
}

/// A byte above 12 where a type byte is read is an `InvalidTag` with that
/// byte, and reading stops after it: for a type byte alone, for the entries
/// of a compound, for a document and for a list that has room.
pub proof fn lemma_invalid_tag_byte(data: Seq<u8>, pos: int)
    requires
        0 <= pos < data.len(),
        data[pos] > 12,
    ensures
        parse_ident(data, pos) == Err::<(TagIdent, int), (ErrorView, int)>(
            (ErrorView::InvalidTag { found: data[pos] }, pos + 1),
        ),
        forall|done: Map<Seq<char>, TagView>, room: nat| #[trigger]
            parse_entries(data, pos, done, room) == Err::<
                (Map<Seq<char>, TagView>, int),
                (ErrorView, int),
            >((ErrorView::InvalidTag { found: data[pos] }, pos + 1)),
        parse_root(data, pos) == Err::<
            ((Seq<char>, Map<Seq<char>, TagView>), int),
            (ErrorView, int),
        >((ErrorView::InvalidTag { found: data[pos] }, pos + 1)),
        forall|room: nat|
            room > 0 ==> #[trigger] parse_tag(data, pos, TagIdent::TAG_List, room) == Err::<
                (TagView, int),
                (ErrorView, int),
            >((ErrorView::InvalidTag { found: data[pos] }, pos + 1)),
{
    lemma_be_value_single(data.subrange(pos, pos + 1));
}

/// A document must start with the type byte of a compound: any other type
/// byte is an `InvalidImplicit` with the type it stands for, and reading
/// stops after that byte.
pub proof fn lemma_root_must_be_compound(data: Seq<u8>, pos: int, found: TagIdent)
    requires
        0 <= pos < data.len(),
        data[pos] == found.code(),
        found != TagIdent::TAG_Compound,
    ensures
        parse_root(data, pos) == Err::<
            ((Seq<char>, Map<Seq<char>, TagView>), int),
            (ErrorView, int),
        >((ErrorView::InvalidImplicit { found }, pos + 1)),
{
    lemma_be_value_single(data.subrange(pos, pos + 1));
    found.lemma_code_parses_back();
}

/// An end marker is no payload: a payload of that type is an
/// `UnexpectedEndTag` wherever it is asked for, with nothing read, and so is
/// a list that declares that type for one item or more, with its type byte
/// and its count read.
pub proof fn lemma_end_is_no_payload(data: Seq<u8>, pos: int, count: nat, room: nat)
    ensures
        parse_tag(data, pos, TagIdent::TAG_End, room) == Err::<(TagView, int), (ErrorView, int)>(
            (ErrorView::UnexpectedEndTag, pos),
        ),
        room > 0 && count > 0 && parse_ident(data, pos) == Ok::<
            (TagIdent, int),
            (ErrorView, int),
        >((TagIdent::TAG_End, pos + 1)) && parse_unsigned(data, pos + 1, 4) == Ok::<
            (nat, int),
            (ErrorView, int),
        >((count, pos + 5)) ==> parse_tag(data, pos, TagIdent::TAG_List, room) == Err::<
            (TagView, int),
            (ErrorView, int),
        >((ErrorView::UnexpectedEndTag, pos + 5)),
{
    if room > 0 {
        let sub = (room - 1) as nat;
        assert(parse_tag(data, pos + 5, TagIdent::TAG_End, sub) == Err::<
            (TagView, int),
            (ErrorView, int),
        >((ErrorView::UnexpectedEndTag, pos + 5)));
        if count > 0 {
            assert(parse_items(data, pos + 5, TagIdent::TAG_End, count, Seq::empty(), sub) == Err::<
                (Seq<TagView>, int),
                (ErrorView, int),
            >((ErrorView::UnexpectedEndTag, pos + 5)));
        }
    }
}

/// A list or a compound for which no room is left is `TooDeep`, read or
/// written, and nothing of it is read or written.
pub proof fn lemma_no_room(tag: Tag, data: Seq<u8>, pos: int)
    requires
        tag is List || tag is Compound,
    ensures
        payload(tag, 0) == Err::<Seq<u8>, (ErrorView, Seq<u8>)>(
            (ErrorView::TooDeep { limit: MAX_DEPTH }, Seq::empty()),
        ),
        parse_tag(data, pos, tag.kind(), 0) == Err::<(TagView, int), (ErrorView, int)>(
            (ErrorView::TooDeep { limit: MAX_DEPTH }, pos),
        ),
{
}

/// A list whose items are not all of one type cannot be written: the first
/// item of another type than that of the first item is named, with the type
/// that was expected, and nothing of the list is written.
pub proof fn lemma_mixed_list_is_refused(list: Vec<Tag>, i: int, room: nat)
    requires
        room > 0,
        0 < i < list@.len(),
        list@[i].kind() != list@[0].kind(),
        forall|j: int| 0 <= j < i ==> (#[trigger] list@[j]).kind() == list@[0].kind(),
    ensures
        payload(Tag::List(list), room) == Err::<Seq<u8>, (ErrorView, Seq<u8>)>(
            (
                ErrorView::InvalidList { found: list@[i].kind(), expecting: list@[0].kind() },
                Seq::empty(),
            ),
        ),
{
    let items = list@;
    let expecting = items[0].kind();
    lemma_stranger(items, expecting, 0);
    match stranger(items, expecting, 0) {
        None => {
            assert(items[i].kind() == expecting);
        },
        Some(found) => {
            let k = choose|k: int|
                0 <= k < items.len() && found == (#[trigger] items[k]).kind() && found != expecting
                    && forall|j: int| 0 <= j < k ==> (#[trigger] items[j]).kind() == expecting;
            if k < i {
                assert(items[k].kind() == expecting);
            }
            if i < k {
                assert(items[i].kind() == expecting);
            }
        },
    }
}

/// A list without items is written as the type byte of the end marker and a
/// count of zero, and is read back as a list without items.
pub proof fn lemma_empty_list(list: Vec<Tag>, data: Seq<u8>, pos: int, room: nat)
    requires
        room > 0,
        list@.len() == 0,
    ensures
        payload(Tag::List(list), room) == Ok::<Seq<u8>, (ErrorView, Seq<u8>)>(
            seq![0u8, 0u8, 0u8, 0u8, 0u8],
        ),
        stands_at(data, pos, seq![0u8, 0u8, 0u8, 0u8, 0u8]) ==> parse_tag(
            data,
            pos,
            TagIdent::TAG_List,
            room,
        ) == Ok::<(TagView, int), (ErrorView, int)>((TagView::List(Seq::empty()), pos + 5)),
{
    reveal_with_fuel(be_bytes, 5);
    let written = seq![TagIdent::TAG_End.code()] + (be_bytes(0, 4) + Seq::<u8>::empty());
    assert(written =~= seq![0u8, 0u8, 0u8, 0u8, 0u8]);
    if stands_at(data, pos, seq![0u8, 0u8, 0u8, 0u8, 0u8]) {
        lemma_payload_reads_back(Tag::List(list), data, pos, room);
        assert(items_view(list@) =~= Seq::<TagView>::empty());
    }
}

/// The tag can be written with the room given: no more lists and compounds
/// stand one inside the other in it than there is room, the items of every
/// list are of one type, every string and every name fits its length prefix
/// of two bytes, and every array and list its count of four bytes.
pub open spec fn can_be_written(tag: Tag, room: nat) -> bool
    decreases tag, 0int,
{
    match tag {
        Tag::ByteArray(v) => v@.len() <= MAX_ITEMS,
        Tag::String(s) => java_cesu8_bytes(s@).len() <= MAX_STRING_BYTES,
        Tag::List(v) => {
            &&& room > 0
            &&& forall|i: int| 0 <= i < v@.len() ==> (#[trigger] v@[i]).kind() == v@[0].kind()
            &&& v@.len() <= MAX_ITEMS
            &&& forall|i: int|
                0 <= i < v@.len() ==> can_be_written(#[trigger] v@[i], (room - 1) as nat)
        },
        Tag::Compound(c) => {
            proof {
                c.lemma_entries_smaller();
            }
            &&& room > 0
            &&& forall|i: int|
                0 <= i < c.entries().len() ==> java_cesu8_bytes(
                    (#[trigger] c.entries()[i]).0@,
                ).len() <= MAX_STRING_BYTES && can_be_written(
                    c.entries()[i].1,
                    (room - 1) as nat,
                )
        },
        Tag::IntArray(v) => v@.len() <= MAX_ITEMS,
        Tag::LongArray(v) => v@.len() <= MAX_ITEMS,
        _ => true,
    }
}

/// Writing a tag succeeds exactly when the tag can be written.
pub proof fn lemma_written_when_writable(tag: Tag, room: nat)
    ensures
        payload(tag, room) is Ok <==> can_be_written(tag, room),
    decreases tag, 0int, 0int,
{
    match tag {
        Tag::List(v) => {
            if room > 0 {
                let sub = (room - 1) as nat;
                lemma_list_ident(v@);
                assert(v@.take(0) =~= Seq::<Tag>::empty());
                lemma_items_written_when_writable(v@, 0, sub);
            }
        },
        Tag::Compound(c) => {
            if room > 0 {
                let sub = (room - 1) as nat;
                c.lemma_entries_smaller();
                assert(c.entries().take(0) =~= Seq::<(String, Tag)>::empty());
                lemma_entries_written_when_writable(c.entries(), 0, sub);
            }
        },
        _ => {},
    }
}

/// With the first `k` items written, writing the items succeeds exactly when
/// the items from `k` on can be written.
pub proof fn lemma_items_written_when_writable(items: Seq<Tag>, k: int, room: nat)
    requires
        0 <= k <= items.len(),
        items_payload(items.take(k), room) is Ok,
    ensures
        items_payload(items, room) is Ok <==> forall|i: int|
            k <= i < items.len() ==> can_be_written(#[trigger] items[i], room),
    decreases items, 1int, items.len() - k,
{
    if k < items.len() {
        assert(items.take(k + 1).drop_last() =~= items.take(k));
        assert(items.take(k + 1).last() == items[k]);
        lemma_written_when_writable(items[k], room);
        if payload(items[k], room) is Ok {
            lemma_items_written_when_writable(items, k + 1, room);
        } else {
            lemma_items_payload_fault(items, k + 1, room);
        }
    } else {
        assert(items.take(k) =~= items);
    }
}

/// With the first `k` entries written, writing the entries succeeds exactly
/// when the entries from `k` on can be written.
pub proof fn lemma_entries_written_when_writable(entries: Seq<(String, Tag)>, k: int, room: nat)
    requires
        0 <= k <= entries.len(),
        entries_payload(entries.take(k), room) is Ok,
    ensures
        entries_payload(entries, room) is Ok <==> forall|i: int|
            k <= i < entries.len() ==> java_cesu8_bytes((#[trigger] entries[i]).0@).len()
                <= MAX_STRING_BYTES && can_be_written(entries[i].1, room),
    decreases entries, 1int, entries.len() - k,
{
    if k < entries.len() {
        assert(entries.take(k + 1).drop_last() =~= entries.take(k));
        assert(entries.take(k + 1).last() == entries[k]);
        lemma_written_when_writable(entries[k].1, room);
        if entry_bytes(entries[k], room) is Ok {
            lemma_entries_written_when_writable(entries, k + 1, room);
        } else {
            lemma_entries_payload_fault(entries, k + 1, room);
        }
    } else {
        assert(entries.take(k) =~= entries);
    }
}

/// Every tag that can be written is read back from what is written for it:
/// as a payload of its type, the bytes give the tag's value, and reading
/// ends where they end. The strings of the tag are to be read back from
/// their modified UTF-8, which holds of every string that was written.
pub proof fn lemma_written_tag_reads_back(tag: Tag, room: nat)
    requires
        can_be_written(tag, room),
        texts_read_back(tag),
    ensures
        payload(tag, room) matches Ok(bytes) && parse_tag(bytes, 0, tag.kind(), room) == Ok::<
            (TagView, int),
            (ErrorView, int),
        >((tag@, bytes.len() as int)),
{
    lemma_written_when_writable(tag, room);
    let bytes = payload(tag, room)->Ok_0;
    assert(bytes.subrange(0, bytes.len() as int) =~= bytes);
    lemma_payload_reads_back(tag, bytes, 0, room);
}

} // verus!
