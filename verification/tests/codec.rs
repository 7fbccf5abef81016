use nbt::decode::{decode_wonky_string, read_ident, read_root, read_string, read_tag};
use nbt::encode::{ensure_list_integrity, write_compound, write_root, write_string, write_tag};
use nbt::tags::MAX_DEPTH;
use nbt::{Blob, ByteReader, Compound, NBTError, NBTRead, NBTWrite, Tag, TagIdent};

fn payload_of(tag: &Tag) -> Vec<u8> {
    let mut out = Vec::new();
    write_tag(&mut out, tag).unwrap();
    out
}

fn read_back(tag: &Tag) -> Tag {
    let mut reader = ByteReader::new(payload_of(tag));
    let read = read_tag(&mut reader, &tag.ident()).unwrap();
    assert_eq!(reader.remaining(), 0);
    read
}

#[test]
fn blob_example() {
    let mut blob = Blob::create("hello world");
    blob.insert("name", "Bananrama");

    let data = blob.bytes().unwrap();
    println!("{:?}", &data);

    let decoded = Blob::from_bytes(&data).unwrap();

    println!("{:?}", decoded)
}

#[test]
fn document_bytes_are_exact() {
    let mut blob = Blob::create("hello world");
    blob.insert("name", "Bananrama");
    let data = blob.bytes().unwrap();
    let expected: Vec<u8> = vec![
        10, 0, 11, 104, 101, 108, 108, 111, 32, 119, 111, 114, 108, 100, 8, 0, 4, 110, 97, 109,
        101, 0, 9, 66, 97, 110, 97, 110, 114, 97, 109, 97, 0,
    ];
    assert_eq!(data, expected);
    let decoded = Blob::from_bytes(&expected).unwrap();
    assert_eq!(decoded.root, "hello world");
    assert_eq!(decoded.elements.len(), 1);
    assert_eq!(decoded.get::<String>("name"), Some(&"Bananrama".to_string()));
    assert_eq!(decoded.elements, blob.elements);
}

#[test]
fn document_of_one_field_without_name() {
    let mut blob = Blob::new();
    blob.insert("name", "Dinnerbone");
    assert_eq!(
        blob.bytes().unwrap(),
        vec![
            10, 0, 0, 8, 0, 4, 110, 97, 109, 101, 0, 10, 68, 105, 110, 110, 101, 114, 98, 111,
            110, 101, 0
        ]
    );
}

#[test]
fn scalars_are_big_endian() {
    assert_eq!(payload_of(&Tag::Byte(-5)), vec![0xfb]);
    assert_eq!(payload_of(&Tag::Short(-132)), vec![0xff, 0x7c]);
    assert_eq!(payload_of(&Tag::Short(193)), vec![0x00, 0xc1]);
    assert_eq!(payload_of(&Tag::Int(0x01020304)), vec![1, 2, 3, 4]);
    assert_eq!(payload_of(&Tag::Int(-2)), vec![0xff, 0xff, 0xff, 0xfe]);
    assert_eq!(payload_of(&Tag::Long(0x0102030405060708)), vec![1, 2, 3, 4, 5, 6, 7, 8]);
    assert_eq!(payload_of(&Tag::Long(-1)), vec![0xff; 8]);
    assert_eq!(payload_of(&Tag::Float(1.0f32.to_bits())), vec![0x3f, 0x80, 0, 0]);
    assert_eq!(
        payload_of(&Tag::Double(1.0f64.to_bits())),
        vec![0x3f, 0xf0, 0, 0, 0, 0, 0, 0]
    );
}

#[test]
fn scalars_are_read_big_endian() {
    let mut reader = ByteReader::new(vec![0x02, 0x05, 0xff, 0x7c, 0, 0, 1, 0, 0xff, 0xff, 0xff, 0xfe]);
    assert_eq!(reader.read_u16().unwrap(), 517);
    assert_eq!(reader.read_i16().unwrap(), -132);
    assert_eq!(reader.read_u32().unwrap(), 256);
    assert_eq!(reader.read_i32().unwrap(), -2);
    assert_eq!(reader.consumed(), 12);
    let mut reader = ByteReader::new(vec![1, 2, 3, 4, 5, 6, 7, 8, 0xff, 0xff, 0xff, 0xff, 0xff, 0xff, 0xff, 0xfd, 0x80]);
    assert_eq!(reader.read_u64().unwrap(), 0x0102030405060708);
    assert_eq!(reader.read_i64().unwrap(), -3);
    assert_eq!(reader.read_i8().unwrap(), -128);
    assert!(matches!(reader.read_u8(), Err(NBTError::IO { .. })));
}

#[test]
fn arrays_have_a_count_of_four_bytes() {
    assert_eq!(payload_of(&Tag::ByteArray(vec![1, -1])), vec![0, 0, 0, 2, 1, 0xff]);
    assert_eq!(
        payload_of(&Tag::IntArray(vec![1, -1])),
        vec![0, 0, 0, 2, 0, 0, 0, 1, 0xff, 0xff, 0xff, 0xff]
    );
    assert_eq!(
        payload_of(&Tag::LongArray(vec![2])),
        vec![0, 0, 0, 1, 0, 0, 0, 0, 0, 0, 0, 2]
    );
}

#[test]
fn every_variant_is_read_back() {
    let mut inner = Compound::new();
    inner.insert_tag("a", Tag::Byte(1));
    inner.insert_tag("b", Tag::String("two".to_string()));
    let tags = vec![
        Tag::Byte(-128),
        Tag::Short(i16::MIN),
        Tag::Int(i32::MAX),
        Tag::Long(i64::MIN),
        Tag::Float(69.420f32.to_bits()),
        Tag::Double(f64::NAN.to_bits()),
        Tag::ByteArray(vec![-1, 0, 1]),
        Tag::String("Hello!".to_string()),
        Tag::List(vec![Tag::List(vec![Tag::Int(1)]), Tag::List(vec![])]),
        Tag::Compound(inner),
        Tag::IntArray(vec![i32::MIN, 0, i32::MAX]),
        Tag::LongArray(vec![i64::MIN, 0, i64::MAX]),
    ];
    for tag in &tags {
        assert_eq!(&read_back(tag), tag);
    }
    let nested = Tag::List(tags.into_iter().map(|t| Tag::List(vec![t])).collect());
    assert_eq!(read_back(&nested), nested);
}

#[test]
fn mixed_list_is_refused() {
    let list = vec![Tag::Byte(1), Tag::Short(2)];
    match ensure_list_integrity(&list) {
        Err(NBTError::InvalidList { found, expecting }) => {
            assert_eq!(found, TagIdent::TAG_Short);
            assert_eq!(expecting, TagIdent::TAG_Byte);
        }
        other => panic!("{:?}", other),
    }
    let mut out = vec![7u8];
    assert!(matches!(
        write_tag(&mut out, &Tag::List(list)),
        Err(NBTError::InvalidList { found: TagIdent::TAG_Short, expecting: TagIdent::TAG_Byte })
    ));
    // the list is checked before anything of it is written
    assert_eq!(out, vec![7u8]);
    let later = vec![Tag::Int(1), Tag::Int(2), Tag::Long(3), Tag::Byte(4)];
    assert!(matches!(
        ensure_list_integrity(&later),
        Err(NBTError::InvalidList { found: TagIdent::TAG_Long, expecting: TagIdent::TAG_Int })
    ));
    assert_eq!(ensure_list_integrity(&vec![Tag::Int(1), Tag::Int(2)]).unwrap(), TagIdent::TAG_Int);
}

#[test]
fn empty_list_declares_the_end_marker() {
    let empty = Tag::List(vec![]);
    assert_eq!(ensure_list_integrity(&vec![]).unwrap(), TagIdent::TAG_End);
    assert_eq!(payload_of(&empty), vec![0, 0, 0, 0, 0]);
    assert_eq!(read_back(&empty), Tag::List(vec![]));
}

#[test]
fn empty_list_of_any_type_is_read() {
    let mut reader = ByteReader::new(vec![5, 0, 0, 0, 0]);
    assert_eq!(read_tag(&mut reader, &TagIdent::TAG_List).unwrap(), Tag::List(vec![]));
}

#[test]
fn root_must_be_a_compound() {
    match Blob::from_bytes(&[8, 0, 0]) {
        Err(NBTError::InvalidImplicit { found }) => assert_eq!(found, TagIdent::TAG_String),
        other => panic!("{:?}", other),
    }
    let mut reader = ByteReader::new(vec![0, 0, 0]);
    assert!(matches!(
        read_root(&mut reader),
        Err(NBTError::InvalidImplicit { found: TagIdent::TAG_End })
    ));
}

#[test]
fn end_marker_is_no_payload() {
    let mut reader = ByteReader::new(vec![0, 0, 0, 0, 1]);
    assert!(matches!(read_tag(&mut reader, &TagIdent::TAG_List), Err(NBTError::UnexpectedEndTag)));
    let mut reader = ByteReader::new(vec![]);
    assert!(matches!(read_tag(&mut reader, &TagIdent::TAG_End), Err(NBTError::UnexpectedEndTag)));
}

#[test]
fn tag_byte_thirteen_is_invalid() {
    let mut reader = ByteReader::new(vec![13]);
    assert!(matches!(read_ident(&mut reader), Err(NBTError::InvalidTag { found: 13 })));
    assert!(matches!(
        Blob::from_bytes(&[10, 0, 0, 13, 0, 0]),
        Err(NBTError::InvalidTag { found: 13 })
    ));
    assert!(matches!(Tag::from_bytes(&[255]), Err(NBTError::InvalidTag { found: 255 })));
}

#[test]
fn bytes_that_run_out_are_an_io_error() {
    assert!(matches!(Blob::from_bytes(&[]), Err(NBTError::IO { .. })));
    assert!(matches!(Blob::from_bytes(&[10, 0, 5, 104]), Err(NBTError::IO { .. })));
    assert!(matches!(Blob::from_bytes(&[10, 0, 0]), Err(NBTError::IO { .. })));
    let mut reader = ByteReader::new(vec![0, 0, 0, 3, 1, 2]);
    assert!(matches!(read_tag(&mut reader, &TagIdent::TAG_Byte_Array), Err(NBTError::IO { .. })));
    let mut reader = ByteReader::new(vec![0, 0, 0, 2, 0, 0, 0, 1, 0, 0]);
    assert!(matches!(read_tag(&mut reader, &TagIdent::TAG_Int_Array), Err(NBTError::IO { .. })));
    let mut reader = ByteReader::new(vec![0xff, 0xff, 0xff, 0xff]);
    assert!(matches!(read_tag(&mut reader, &TagIdent::TAG_Long_Array), Err(NBTError::IO { .. })));
}

#[test]
fn string_beyond_the_basic_plane_is_a_surrogate_pair() {
    let text = "\u{1F600}";
    let mut out = Vec::new();
    write_string(&mut out, text).unwrap();
    assert_eq!(out, vec![0, 6, 0xED, 0xA0, 0xBD, 0xED, 0xB8, 0x80]);
    let mut reader = ByteReader::new(out);
    assert_eq!(read_string(&mut reader).unwrap(), text);
    let tag = Tag::String("a\u{1F600}b\u{10401}".to_string());
    assert_eq!(read_back(&tag), tag);
}

#[test]
fn nul_is_written_in_two_bytes() {
    let mut out = Vec::new();
    write_string(&mut out, "\0\0").unwrap();
    assert_eq!(out, vec![0, 4, 0xC0, 0x80, 0xC0, 0x80]);
    assert_eq!(decode_wonky_string(&[0xC0, 0x80, 0x41]).unwrap(), "\0A");
    let tag = Tag::String("x\0y".to_string());
    assert_eq!(read_back(&tag), tag);
}

#[test]
fn malformed_string_is_a_string_error() {
    assert!(matches!(decode_wonky_string(&[0xC0]), Err(NBTError::StringError)));
    assert!(matches!(decode_wonky_string(&[0xED, 0xA0, 0x81]), Err(NBTError::StringError)));
    let mut reader = ByteReader::new(vec![0, 1, 0xff]);
    assert!(matches!(read_string(&mut reader), Err(NBTError::StringError)));
    assert_eq!(decode_wonky_string(&[]).unwrap(), "");
    assert_eq!(decode_wonky_string("aé日".as_bytes()).unwrap(), "aé日");
}

#[test]
fn string_of_too_many_bytes_is_refused() {
    let fits = "a".repeat(65535);
    let mut out = Vec::new();
    write_string(&mut out, &fits).unwrap();
    assert_eq!(out.len(), 65537);
    assert_eq!(&out[..2], &[0xff, 0xff]);
    let long = "a".repeat(65536);
    let mut out = Vec::new();
    match write_string(&mut out, &long) {
        Err(NBTError::TooLong { length, limit }) => {
            assert_eq!(length, 65536);
            assert_eq!(limit, 65535);
        }
        other => panic!("{:?}", other),
    }
    assert!(out.is_empty());
    // 32768 characters of three bytes each
    let wide = "日".repeat(32768);
    assert!(matches!(
        write_tag(&mut Vec::new(), &Tag::String(wide)),
        Err(NBTError::TooLong { length: 98304, limit: 65535 })
    ));
    let mut blob = Blob::create(&long);
    blob.insert("a", 1i8);
    assert!(matches!(blob.bytes(), Err(NBTError::TooLong { .. })));
}

#[test]
fn later_entry_of_a_name_wins_when_read() {
    // root "", a: Byte(1), a: Byte(2), end
    let data = [10, 0, 0, 1, 0, 1, 97, 1, 1, 0, 1, 97, 2, 0];
    let blob = Blob::from_bytes(&data).unwrap();
    assert_eq!(blob.elements.len(), 1);
    assert_eq!(blob.get::<i8>("a"), Some(&2));
}

#[test]
fn compound_is_written_in_order_with_an_end_marker() {
    let mut c = Compound::new();
    c.insert_tag("b", Tag::Byte(7));
    c.insert_tag("a", Tag::Short(1));
    let mut out = Vec::new();
    write_compound(&mut out, &c).unwrap();
    assert_eq!(out, vec![1, 0, 1, 98, 7, 2, 0, 1, 97, 0, 1, 0]);
    let mut root = Vec::new();
    write_root(&mut root, "r", &c).unwrap();
    assert_eq!(root, vec![10, 0, 1, 114, 1, 0, 1, 98, 7, 2, 0, 1, 97, 0, 1, 0]);
    let mut reader = ByteReader::new(root);
    let (name, read) = read_root(&mut reader).unwrap();
    assert_eq!(name, "r");
    assert_eq!(read, c);
}

#[test]
fn tag_is_written_without_and_read_with_a_type_byte() {
    assert_eq!(Tag::Short(258).bytes().unwrap(), vec![1, 2]);
    assert_eq!(Tag::from_bytes(&[2, 1, 2]).unwrap(), Tag::Short(258));
    let mut reader = ByteReader::new(vec![1, 5, 9]);
    assert_eq!(Tag::read(&mut reader).unwrap(), Tag::Byte(5));
    assert_eq!(reader.consumed(), 2);
    assert_eq!(reader.remaining(), 1);
}

#[test]
fn reading_stops_after_the_document() {
    let mut data = Blob::create("x").bytes().unwrap();
    let length = data.len();
    data.extend_from_slice(&[1, 2, 3]);
    let mut reader = ByteReader::new(data);
    let blob = Blob::read(&mut reader).unwrap();
    assert_eq!(blob.root, "x");
    assert!(blob.elements.is_empty());
    assert_eq!(reader.consumed(), length);
}

fn nested_lists(depth: usize) -> Tag {
    let mut tag = Tag::List(vec![]);
    for _ in 1..depth {
        tag = Tag::List(vec![tag]);
    }
    tag
}

fn nested_list_bytes(depth: usize) -> Vec<u8> {
    let mut bytes = Vec::new();
    for _ in 1..depth {
        bytes.extend_from_slice(&[9, 0, 0, 0, 1]);
    }
    bytes.extend_from_slice(&[0, 0, 0, 0, 0]);
    bytes
}

#[test]
fn nesting_is_written_up_to_the_limit() {
    assert_eq!(MAX_DEPTH, 512);
    let deepest = nested_lists(512);
    assert_eq!(payload_of(&deepest), nested_list_bytes(512));
    assert_eq!(read_back(&deepest), deepest);
    let mut out = Vec::new();
    match write_tag(&mut out, &nested_lists(513)) {
        Err(NBTError::TooDeep { limit }) => assert_eq!(limit, 512),
        other => panic!("{:?}", other),
    }
    // all but the list for which no room was left is written
    assert_eq!(out, nested_list_bytes(513)[..512 * 5].to_vec());
    let mut inner = Compound::new();
    inner.insert_tag("l", nested_lists(512));
    assert!(matches!(
        write_tag(&mut Vec::new(), &Tag::Compound(inner)),
        Err(NBTError::TooDeep { limit: 512 })
    ));
}

#[test]
fn nesting_is_read_up_to_the_limit() {
    let mut reader = ByteReader::new(nested_list_bytes(512));
    assert_eq!(read_tag(&mut reader, &TagIdent::TAG_List).unwrap(), nested_lists(512));
    let mut reader = ByteReader::new(nested_list_bytes(513));
    match read_tag(&mut reader, &TagIdent::TAG_List) {
        Err(NBTError::TooDeep { limit }) => assert_eq!(limit, 512),
        other => panic!("{:?}", other),
    }
    // reading stops before the list for which no room was left
    assert_eq!(reader.consumed(), 512 * 5);
}

#[test]
fn document_counts_as_one_level() {
    let mut blob = Blob::create("d");
    blob.insert("l", nested_lists(511));
    let bytes = blob.bytes().unwrap();
    assert_eq!(Blob::from_bytes(&bytes).unwrap().elements, blob.elements);
    let mut blob = Blob::create("d");
    blob.insert("l", nested_lists(512));
    assert!(matches!(blob.bytes(), Err(NBTError::TooDeep { limit: 512 })));
    let mut data = vec![10, 0, 1, 100, 9, 0, 1, 108];
    data.extend_from_slice(&nested_list_bytes(512));
    data.push(0);
    assert!(matches!(Blob::from_bytes(&data), Err(NBTError::TooDeep { limit: 512 })));
    let mut data = vec![10, 0, 1, 100, 9, 0, 1, 108];
    data.extend_from_slice(&nested_list_bytes(511));
    data.push(0);
    assert!(Blob::from_bytes(&data).is_ok());
}

#[test]
fn what_was_written_before_a_fault_stays_written() {
    let long = "a".repeat(65536);
    let list = Tag::List(vec![Tag::String("a".to_string()), Tag::String(long.clone())]);
    let mut out = vec![1u8];
    assert!(matches!(write_tag(&mut out, &list), Err(NBTError::TooLong { .. })));
    assert_eq!(out, vec![1, 8, 0, 0, 0, 2, 0, 1, 97]);
    let mut c = Compound::new();
    c.insert_tag("ok", Tag::Byte(5));
    c.insert_tag(&long, Tag::Byte(6));
    let mut out = Vec::new();
    assert!(matches!(write_compound(&mut out, &c), Err(NBTError::TooLong { .. })));
    assert_eq!(out, vec![1, 0, 2, 111, 107, 5, 1]);
    let mut out = Vec::new();
    assert!(matches!(write_root(&mut out, &long, &c), Err(NBTError::TooLong { .. })));
    assert_eq!(out, vec![10]);
}

#[test]
fn reading_stops_where_the_fault_is() {
    // a type byte that is none: it is consumed
    let mut reader = ByteReader::new(vec![13, 1]);
    assert!(matches!(read_ident(&mut reader), Err(NBTError::InvalidTag { found: 13 })));
    assert_eq!(reader.consumed(), 1);
    // no byte: none is consumed
    let mut reader = ByteReader::new(vec![]);
    assert!(matches!(read_ident(&mut reader), Err(NBTError::IO { .. })));
    assert_eq!(reader.consumed(), 0);
    // a document that starts with another type: its type byte is consumed
    let mut reader = ByteReader::new(vec![8, 0, 0]);
    assert!(matches!(read_root(&mut reader), Err(NBTError::InvalidImplicit { .. })));
    assert_eq!(reader.consumed(), 1);
    // an end marker asked for as a payload: nothing is consumed
    let mut reader = ByteReader::new(vec![1, 2, 3]);
    assert!(matches!(read_tag(&mut reader, &TagIdent::TAG_End), Err(NBTError::UnexpectedEndTag)));
    assert_eq!(reader.consumed(), 0);
    // a number cut short: none of its bytes is consumed
    let mut reader = ByteReader::new(vec![1, 2, 3]);
    assert!(matches!(read_tag(&mut reader, &TagIdent::TAG_Int), Err(NBTError::IO { .. })));
    assert_eq!(reader.consumed(), 0);
    // an array cut short: its count is consumed, none of its numbers
    let mut reader = ByteReader::new(vec![0, 0, 0, 2, 0, 0, 0, 1, 0, 0]);
    assert!(matches!(read_tag(&mut reader, &TagIdent::TAG_Int_Array), Err(NBTError::IO { .. })));
    assert_eq!(reader.consumed(), 4);
    // a string cut short: its length is consumed; a malformed one: all of it
    let mut reader = ByteReader::new(vec![0, 3, 97]);
    assert!(matches!(read_string(&mut reader), Err(NBTError::IO { .. })));
    assert_eq!(reader.consumed(), 2);
    let mut reader = ByteReader::new(vec![0, 1, 0xff, 9]);
    assert!(matches!(read_string(&mut reader), Err(NBTError::StringError)));
    assert_eq!(reader.consumed(), 3);
    // a list of end markers: its type byte and its count are consumed
    let mut reader = ByteReader::new(vec![0, 0, 0, 0, 1, 7]);
    assert!(matches!(read_tag(&mut reader, &TagIdent::TAG_List), Err(NBTError::UnexpectedEndTag)));
    assert_eq!(reader.consumed(), 5);
}
