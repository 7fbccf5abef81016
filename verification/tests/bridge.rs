use nbt::{
    decode, decode_named, decode_tag, encode, encode_named, external, Blob, Compound,
    Conventions, NBTDeserializer, NBTEnumAccess, NBTError, NBTMapAccess, NBTMapSerializer, NBTRead, NBTWrite,
    NBTSeqAccess, NBTSeqSerializer, NBTSerializer, NBTStructSerializer,
    NBTVariantSeqSerializer, NBTVariantStructSerializer, Tag, TagIdent, Visit,
};

fn all_on() -> Conventions {
    Conventions { boolean: true, unsigned: true }
}

fn all_off() -> Conventions {
    Conventions { boolean: false, unsigned: false }
}

fn ints(values: &[i32]) -> Option<Tag> {
    let ser = NBTSerializer::new();
    let mut seq = ser.serialize_seq(Some(values.len())).unwrap();
    for v in values {
        seq.serialize_element(ser.serialize_i32(*v)).unwrap();
    }
    seq.end().unwrap()
}

#[test]
fn ser_example() {
    let ser = NBTSerializer::new();
    let mut s = ser.serialize_struct("Example", 3).unwrap();
    s.serialize_field("foo", ser.serialize_str("Hello World!")).unwrap();
    s.serialize_field("bar", ser.serialize_i8(69)).unwrap();
    s.serialize_field("baz", Ok(ints(&[420, 69, 666]))).unwrap();
    let blob = encode(s.end()).unwrap();
    println!("{:?}", blob);
    let bytes = blob.bytes().unwrap();
    assert_eq!(Blob::from_bytes(&bytes).unwrap().elements, blob.elements);
}

#[test]
fn record_goes_to_a_compound_and_back() {
    let ser = NBTSerializer::new();
    let mut s = ser.serialize_struct("Example", 3).unwrap();
    s.serialize_field("foo", ser.serialize_str("Hello World!")).unwrap();
    s.serialize_field("bar", ser.serialize_i8(42)).unwrap();
    s.serialize_field("baz", Ok(ints(&[420, 69, 666]))).unwrap();
    let tag = s.end().unwrap().unwrap();

    let mut expected = Compound::new();
    expected.insert_tag("foo", Tag::String("Hello World!".to_string()));
    expected.insert_tag("bar", Tag::Byte(42));
    expected.insert_tag("baz", Tag::List(vec![Tag::Int(420), Tag::Int(69), Tag::Int(666)]));
    assert_eq!(tag, Tag::Compound(expected));

    let mut foo = None;
    let mut bar = None;
    let mut baz = None;
    let mut fields = decode_tag(tag).deserialize_struct("Example").unwrap();
    while let Some(key) = fields.next_key_seed() {
        let name = key.deserialize_identifier().unwrap();
        let value = fields.next_value_seed();
        match name.as_str() {
            "foo" => foo = Some(value.deserialize_string().unwrap()),
            "bar" => bar = Some(value.deserialize_i8().unwrap()),
            "baz" => {
                let mut items = Vec::new();
                let mut seq = value.deserialize_seq().unwrap();
                while let Some(item) = seq.next_element_seed() {
                    items.push(item.deserialize_i32().unwrap());
                }
                baz = Some(items);
            }
            other => panic!("{}", other),
        }
    }
    assert_eq!(foo.unwrap(), "Hello World!");
    assert_eq!(bar.unwrap(), 42);
    assert_eq!(baz.unwrap(), vec![420, 69, 666]);
}

#[test]
fn tuple_variant_goes_to_a_compound_and_back() {
    let ser = NBTSerializer::new();
    let mut v = ser.serialize_tuple_variant("Command", 0, "Move", 2).unwrap();
    v.serialize_field(ser.serialize_i32(1)).unwrap();
    v.serialize_field(ser.serialize_i32(2)).unwrap();
    let tag = v.end().unwrap().unwrap();

    let mut expected = Compound::new();
    expected.insert_tag("Move", Tag::List(vec![Tag::Int(1), Tag::Int(2)]));
    assert_eq!(tag, Tag::Compound(expected));

    let (name, payload) = decode_tag(tag).deserialize_enum("Command").variant_seed().unwrap();
    assert_eq!(name.deserialize_identifier().unwrap(), "Move");
    let mut fields = payload.tuple_variant(2).unwrap();
    let a = fields.next_element_seed().unwrap().deserialize_i32().unwrap();
    let b = fields.next_element_seed().unwrap().deserialize_i32().unwrap();
    assert!(fields.next_element_seed().is_none());
    assert!(fields.next_element_seed().is_none());
    assert_eq!((a, b), (1, 2));
}

#[test]
fn struct_variant_is_wrapped_twice() {
    let ser = NBTSerializer::new();
    let mut v = ser.serialize_struct_variant("Shape", 1, "Rect", 2).unwrap();
    v.serialize_field("w", ser.serialize_i16(3)).unwrap();
    v.serialize_field("h", ser.serialize_none()).unwrap();
    let tag = v.end().unwrap().unwrap();
    let mut inner = Compound::new();
    inner.insert_tag("w", Tag::Short(3));
    let mut outer = Compound::new();
    outer.insert_tag("Rect", Tag::Compound(inner));
    assert_eq!(tag, Tag::Compound(outer));

    let (name, payload) = NBTEnumAccess::new(Some(tag)).variant_seed().unwrap();
    assert_eq!(name.deserialize_str().unwrap(), "Rect");
    let mut fields = payload.struct_variant().unwrap();
    assert_eq!(fields.size_hint(), 1);
    assert_eq!(fields.next_key_seed().unwrap().deserialize_identifier().unwrap(), "w");
    assert_eq!(fields.next_value_seed().deserialize_i16().unwrap(), 3);
    assert!(fields.next_key_seed().is_none());
}

#[test]
fn scalars_turn_into_their_tags() {
    let ser = NBTSerializer::new();
    assert_eq!(ser.serialize_i8(-1).unwrap(), Some(Tag::Byte(-1)));
    assert_eq!(ser.serialize_i16(-2).unwrap(), Some(Tag::Short(-2)));
    assert_eq!(ser.serialize_i32(-3).unwrap(), Some(Tag::Int(-3)));
    assert_eq!(ser.serialize_i64(-4).unwrap(), Some(Tag::Long(-4)));
    assert_eq!(ser.serialize_f32(1.5f32.to_bits()).unwrap(), Some(Tag::Float(0x3fc00000)));
    assert_eq!(
        ser.serialize_f64(1.5f64.to_bits()).unwrap(),
        Some(Tag::Double(0x3ff8000000000000))
    );
    assert_eq!(ser.serialize_char('é').unwrap(), Some(Tag::String("é".to_string())));
    assert_eq!(ser.serialize_str("abc").unwrap(), Some(Tag::String("abc".to_string())));
    assert_eq!(ser.collect_str("12").unwrap(), Some(Tag::String("12".to_string())));
    assert_eq!(ser.serialize_none().unwrap(), None);
    assert_eq!(ser.serialize_unit().unwrap(), None);
    assert_eq!(ser.serialize_unit_struct("U").unwrap(), None);
    assert_eq!(
        ser.serialize_unit_variant("E", 3, "Third").unwrap(),
        Some(Tag::String("Third".to_string()))
    );
    assert_eq!(ser.serialize_some(ser.serialize_i8(1)).unwrap(), Some(Tag::Byte(1)));
    assert_eq!(ser.serialize_newtype_struct("N", ser.serialize_i8(1)).unwrap(), Some(Tag::Byte(1)));
    assert_eq!(
        ser.serialize_newtype_variant("E", 0, "V", ser.serialize_i8(1)).unwrap(),
        Some(Tag::Byte(1))
    );
    assert_eq!(ser.serialize_newtype_variant("E", 0, "V", ser.serialize_none()).unwrap(), None);
    assert!(ser.serialize_newtype_variant("E", 0, "V", ser.serialize_u8(1)).is_err());
}

#[test]
fn booleans_follow_the_convention() {
    assert_eq!(NBTSerializer::new().serialize_bool(true).unwrap(), Some(Tag::Byte(1)));
    assert_eq!(NBTSerializer::new().serialize_bool(false).unwrap(), Some(Tag::Byte(0)));
    match NBTSerializer::with(all_off()).serialize_bool(true) {
        Err(NBTError::UnserializableType { name }) => assert_eq!(name, "bool"),
        other => panic!("{:?}", other),
    }
    assert_eq!(NBTDeserializer::some(Tag::Byte(1)).deserialize_bool().unwrap(), true);
    assert_eq!(NBTDeserializer::some(Tag::Byte(0)).deserialize_bool().unwrap(), false);
    assert_eq!(NBTDeserializer::some(Tag::Byte(2)).deserialize_bool().unwrap(), false);
    match NBTDeserializer::with(Some(Tag::Byte(1)), all_off()).deserialize_bool() {
        Err(NBTError::UnserializableType { name }) => assert_eq!(name, "bool"),
        other => panic!("{:?}", other),
    }
    match NBTDeserializer::new(None).deserialize_bool() {
        Err(NBTError::NoData { when }) => assert_eq!(when, "bool"),
        other => panic!("{:?}", other),
    }
    match NBTDeserializer::some(Tag::Int(1)).deserialize_bool() {
        Err(NBTError::InvalidType { found, expecting, when }) => {
            assert_eq!(found, TagIdent::TAG_Int);
            assert_eq!(expecting, TagIdent::TAG_Byte);
            assert_eq!(when, "bool");
        }
        other => panic!("{:?}", other),
    }
}

#[test]
fn unsigned_integers_follow_the_convention() {
    let off = NBTSerializer::new();
    for (result, name) in [
        (off.serialize_u8(1), "u8"),
        (off.serialize_u16(1), "u16"),
        (off.serialize_u32(1), "u32"),
        (off.serialize_u64(1), "u64"),
    ] {
        match result {
            Err(NBTError::UnserializableType { name: n }) => assert_eq!(n, name),
            other => panic!("{:?}", other),
        }
    }
    let on = NBTSerializer::with(all_on());
    assert_eq!(on.serialize_u8(255).unwrap(), Some(Tag::Byte(-1)));
    assert_eq!(on.serialize_u8(127).unwrap(), Some(Tag::Byte(127)));
    assert_eq!(on.serialize_u16(0x8000).unwrap(), Some(Tag::Short(i16::MIN)));
    assert_eq!(on.serialize_u32(u32::MAX).unwrap(), Some(Tag::Int(-1)));
    assert_eq!(on.serialize_u64(u64::MAX - 1).unwrap(), Some(Tag::Long(-2)));
    assert_eq!(on.serialize_u64(5).unwrap(), Some(Tag::Long(5)));

    let de = |tag| NBTDeserializer::with(Some(tag), all_on());
    assert_eq!(de(Tag::Byte(-1)).deserialize_u8().unwrap(), 255);
    assert_eq!(de(Tag::Byte(1)).deserialize_u8().unwrap(), 1);
    assert_eq!(de(Tag::Short(i16::MIN)).deserialize_u16().unwrap(), 0x8000);
    assert_eq!(de(Tag::Int(-1)).deserialize_u32().unwrap(), u32::MAX);
    assert_eq!(de(Tag::Long(-2)).deserialize_u64().unwrap(), u64::MAX - 1);
    assert!(matches!(
        de(Tag::Long(1)).deserialize_u8(),
        Err(NBTError::InvalidType { found: TagIdent::TAG_Long, expecting: TagIdent::TAG_Byte, .. })
    ));
    assert!(matches!(
        NBTDeserializer::some(Tag::Byte(1)).deserialize_u8(),
        Err(NBTError::UnserializableType { .. })
    ));
    assert!(matches!(
        NBTDeserializer::some(Tag::Long(1)).deserialize_u64(),
        Err(NBTError::UnserializableType { .. })
    ));
}

#[test]
fn raw_bytes_are_refused_both_ways() {
    match NBTSerializer::new().serialize_bytes(&[1, 2]) {
        Err(NBTError::UnserializableType { name }) => assert_eq!(name, "bytes"),
        other => panic!("{:?}", other),
    }
    assert!(matches!(
        NBTDeserializer::some(Tag::ByteArray(vec![1])).deserialize_bytes(),
        Err(NBTError::UnserializableType { .. })
    ));
    assert!(matches!(
        NBTDeserializer::new(None).deserialize_byte_buf(),
        Err(NBTError::UnserializableType { .. })
    ));
}

#[test]
fn sequence_passes_over_absent_elements_and_hands_on_errors() {
    let ser = NBTSerializer::new();
    let mut seq = NBTSeqSerializer::new();
    seq.serialize_element(ser.serialize_i8(1)).unwrap();
    seq.serialize_element(ser.serialize_none()).unwrap();
    assert!(matches!(
        seq.serialize_element(ser.serialize_u8(1)),
        Err(NBTError::UnserializableType { .. })
    ));
    seq.serialize_field(ser.serialize_i8(2)).unwrap();
    assert_eq!(seq.end().unwrap(), Some(Tag::List(vec![Tag::Byte(1), Tag::Byte(2)])));
    assert_eq!(
        ser.serialize_tuple(0).unwrap().end().unwrap(),
        Some(Tag::List(vec![]))
    );
    assert_eq!(
        ser.serialize_tuple_struct("T", 0).unwrap().end().unwrap(),
        Some(Tag::List(vec![]))
    );
    let mut v = NBTVariantSeqSerializer::new("V");
    assert!(v.serialize_field(Err(NBTError::InvalidChar)).is_err());
    assert_eq!(v.end().unwrap(), Some(external("V", Tag::List(vec![]))));
}

#[test]
fn mixed_sequence_fails_when_written() {
    let ser = NBTSerializer::new();
    let mut seq = ser.serialize_seq(None).unwrap();
    seq.serialize_element(ser.serialize_i8(1)).unwrap();
    seq.serialize_element(ser.serialize_i16(2)).unwrap();
    let tag = seq.end().unwrap().unwrap();
    assert!(matches!(
        tag.bytes(),
        Err(NBTError::InvalidList { found: TagIdent::TAG_Short, expecting: TagIdent::TAG_Byte })
    ));
}

#[test]
fn map_takes_keys_and_values_in_turn() {
    let ser = NBTSerializer::new();
    let mut map = NBTMapSerializer::new();
    assert!(!map.has_key());
    map.serialize_key(ser.serialize_str("a")).unwrap();
    assert!(map.has_key());
    map.serialize_value(ser.serialize_i8(1)).unwrap();
    assert!(!map.has_key());
    // no key waits: the value is dropped
    map.serialize_value(ser.serialize_i8(9)).unwrap();
    // a key that is no string leaves no key waiting
    map.serialize_key(ser.serialize_i32(5)).unwrap();
    assert!(!map.has_key());
    map.serialize_value(ser.serialize_i8(9)).unwrap();
    // no value: nothing goes in
    map.serialize_key(ser.serialize_str("b")).unwrap();
    map.serialize_value(ser.serialize_none()).unwrap();
    assert!(!map.has_key());
    // an error is handed on
    map.serialize_key(ser.serialize_str("c")).unwrap();
    assert!(matches!(map.serialize_value(Err(NBTError::InvalidChar)), Err(NBTError::InvalidChar)));
    assert!(map.serialize_key(Err(NBTError::StringError)).is_err());
    map.serialize_value(ser.serialize_i8(3)).unwrap();
    // a name that comes again takes the place of the one before
    map.serialize_key(ser.serialize_str("a")).unwrap();
    map.serialize_value(ser.serialize_i8(4)).unwrap();
    let mut expected = Compound::new();
    expected.insert_tag("a", Tag::Byte(4));
    expected.insert_tag("c", Tag::Byte(3));
    assert_eq!(map.end().unwrap(), Some(Tag::Compound(expected)));
    assert_eq!(
        ser.serialize_map(None).unwrap().end().unwrap(),
        Some(Tag::Compound(Compound::new()))
    );
}

#[test]
fn struct_serializers_collect_fields() {
    let mut s = NBTStructSerializer::new();
    s.serialize_field("a", Ok(Some(Tag::Byte(1)))).unwrap();
    s.serialize_field("b", Ok(None)).unwrap();
    assert!(s.serialize_field("c", Err(NBTError::StringError)).is_err());
    let mut expected = Compound::new();
    expected.insert_tag("a", Tag::Byte(1));
    assert_eq!(s.end().unwrap(), Some(Tag::Compound(expected)));
    let v = NBTVariantStructSerializer::new("V");
    assert_eq!(v.end().unwrap(), Some(external("V", Tag::Compound(Compound::new()))));
}

#[test]
fn external_is_a_compound_of_one_entry() {
    let tag = external("Name", Tag::Int(5));
    match &tag {
        Tag::Compound(c) => {
            assert_eq!(c.len(), 1);
            assert_eq!(c.get_tag("Name"), Some(&Tag::Int(5)));
        }
        other => panic!("{:?}", other),
    }
}

#[test]
fn documents_come_from_compounds_only() {
    let mut c = Compound::new();
    c.insert_tag("name", Tag::String("Bananrama".to_string()));
    let shown = format!("{:?}", c);
    let blob = encode_named(Ok(Some(Tag::Compound(c))), "hello_world").unwrap();
    assert_eq!(blob.root, "hello_world");
    assert_eq!(format!("{:?}", blob.elements), shown);
    assert_eq!(encode(Ok(Some(Tag::Compound(Compound::new())))).unwrap().root, "");
    assert!(matches!(
        encode_named(Ok(Some(Tag::Byte(1))), "x"),
        Err(NBTError::InvalidImplicit { found: TagIdent::TAG_Byte })
    ));
    assert!(matches!(
        encode(Ok(None)),
        Err(NBTError::InvalidImplicit { found: TagIdent::TAG_End })
    ));
    assert!(matches!(encode(Err(NBTError::InvalidChar)), Err(NBTError::InvalidChar)));
}

#[test]
fn documents_are_decoded_from_their_elements() {
    let mut blob = Blob::create("baz");
    blob.insert("foo", "bar");
    let (root, de) = decode_named(blob);
    assert_eq!(root, "baz");
    let mut fields = de.deserialize_map().unwrap();
    assert_eq!(fields.next_key_seed().unwrap().deserialize_str().unwrap(), "foo");
    assert_eq!(fields.next_value_seed().deserialize_string().unwrap(), "bar");
    assert!(fields.next_key_seed().is_none());
    let mut blob = Blob::new();
    blob.insert("foo", 1i8);
    let mut fields = decode(blob).deserialize_struct("S").unwrap();
    assert_eq!(fields.next_key_seed().unwrap().deserialize_identifier().unwrap(), "foo");
    assert_eq!(fields.next_value_seed().deserialize_i8().unwrap(), 1);
}

#[test]
fn scalar_requests_need_the_matching_tag() {
    assert_eq!(NBTDeserializer::some(Tag::Byte(5)).deserialize_i8().unwrap(), 5);
    assert_eq!(NBTDeserializer::some(Tag::Short(5)).deserialize_i16().unwrap(), 5);
    assert_eq!(NBTDeserializer::some(Tag::Int(5)).deserialize_i32().unwrap(), 5);
    assert_eq!(NBTDeserializer::some(Tag::Long(5)).deserialize_i64().unwrap(), 5);
    assert_eq!(
        f32::from_bits(NBTDeserializer::some(Tag::Float(2.5f32.to_bits())).deserialize_f32().unwrap()),
        2.5
    );
    assert_eq!(
        f64::from_bits(NBTDeserializer::some(Tag::Double(2.5f64.to_bits())).deserialize_f64().unwrap()),
        2.5
    );
    match NBTDeserializer::some(Tag::Short(5)).deserialize_i8() {
        Err(NBTError::InvalidType { found, expecting, when }) => {
            assert_eq!(found, TagIdent::TAG_Short);
            assert_eq!(expecting, TagIdent::TAG_Byte);
            assert_eq!(when, "i8");
        }
        other => panic!("{:?}", other),
    }
    match NBTDeserializer::new(None).deserialize_i64() {
        Err(NBTError::NoData { when }) => assert_eq!(when, "i64"),
        other => panic!("{:?}", other),
    }
    assert!(matches!(
        NBTDeserializer::some(Tag::Byte(1)).deserialize_f64(),
        Err(NBTError::InvalidType { expecting: TagIdent::TAG_Double, .. })
    ));
}

#[test]
fn character_is_a_string_of_one_character() {
    let de = |s: &str| NBTDeserializer::some(Tag::String(s.to_string()));
    assert_eq!(de("a").deserialize_char().unwrap(), 'a');
    assert_eq!(de("é").deserialize_char().unwrap(), 'é');
    assert_eq!(de("\u{1F600}").deserialize_char().unwrap(), '\u{1F600}');
    assert!(matches!(de("").deserialize_char(), Err(NBTError::InvalidChar)));
    assert!(matches!(de("ab").deserialize_char(), Err(NBTError::InvalidChar)));
    assert!(matches!(
        NBTDeserializer::some(Tag::Byte(1)).deserialize_char(),
        Err(NBTError::InvalidType { expecting: TagIdent::TAG_String, .. })
    ));
    match NBTDeserializer::new(None).deserialize_char() {
        Err(NBTError::NoData { when }) => assert_eq!(when, "char"),
        other => panic!("{:?}", other),
    }
}

#[test]
fn options_units_and_newtypes() {
    assert!(NBTDeserializer::new(None).deserialize_option().is_none());
    let inner = NBTDeserializer::some(Tag::Byte(1)).deserialize_option().unwrap();
    assert_eq!(inner.deserialize_i8().unwrap(), 1);
    assert!(NBTDeserializer::new(None).deserialize_unit().is_ok());
    assert!(NBTDeserializer::new(None).deserialize_unit_struct("U").is_ok());
    match NBTDeserializer::some(Tag::Byte(1)).deserialize_unit() {
        Err(NBTError::InvalidType { found, expecting, when }) => {
            assert_eq!(found, TagIdent::TAG_Byte);
            assert_eq!(expecting, TagIdent::TAG_End);
            assert_eq!(when, "unit");
        }
        other => panic!("{:?}", other),
    }
    let inner = NBTDeserializer::some(Tag::Int(3)).deserialize_newtype_struct("N").unwrap();
    assert_eq!(inner.deserialize_i32().unwrap(), 3);
    match NBTDeserializer::new(None).deserialize_newtype_struct("N") {
        Err(NBTError::NoData { when }) => assert_eq!(when, "newtype_struct"),
        other => panic!("{:?}", other),
    }
}

#[test]
fn arrays_answer_sequence_requests() {
    let mut seq = NBTDeserializer::some(Tag::ByteArray(vec![1, -2])).deserialize_seq().unwrap();
    assert_eq!(seq.size_hint(), 2);
    assert_eq!(seq.next_element_seed().unwrap().deserialize_i8().unwrap(), 1);
    assert_eq!(seq.next_element_seed().unwrap().deserialize_i8().unwrap(), -2);
    assert!(seq.next_element_seed().is_none());
    let mut seq = NBTDeserializer::some(Tag::IntArray(vec![7])).deserialize_tuple(1).unwrap();
    assert_eq!(seq.next_element_seed().unwrap().deserialize_i32().unwrap(), 7);
    let mut seq =
        NBTDeserializer::some(Tag::LongArray(vec![8])).deserialize_tuple_struct("T", 1).unwrap();
    assert_eq!(seq.next_element_seed().unwrap().deserialize_i64().unwrap(), 8);
    match NBTDeserializer::some(Tag::Byte(1)).deserialize_seq() {
        Err(NBTError::InvalidType { found, expecting, when }) => {
            assert_eq!(found, TagIdent::TAG_Byte);
            assert_eq!(expecting, TagIdent::TAG_List);
            assert_eq!(when, "seq");
        }
        other => panic!("{:?}", other),
    }
    match NBTDeserializer::new(None).deserialize_tuple(2) {
        Err(NBTError::NoData { when }) => assert_eq!(when, "tuple"),
        other => panic!("{:?}", other),
    }
}

#[test]
fn sequence_cursor_does_not_check_the_types() {
    let mut seq = NBTSeqAccess::new(vec![Tag::Byte(1), Tag::Short(2)]);
    assert_eq!(seq.next_element_seed().unwrap().deserialize_i8().unwrap(), 1);
    assert_eq!(seq.next_element_seed().unwrap().deserialize_i16().unwrap(), 2);
    assert!(seq.next_element_seed().is_none());
}

#[test]
fn map_requests_need_a_compound() {
    match NBTDeserializer::some(Tag::List(vec![])).deserialize_map() {
        Err(NBTError::InvalidType { found, expecting, when }) => {
            assert_eq!(found, TagIdent::TAG_List);
            assert_eq!(expecting, TagIdent::TAG_Compound);
            assert_eq!(when, "map");
        }
        other => panic!("{:?}", other),
    }
    match NBTDeserializer::new(None).deserialize_struct("S") {
        Err(NBTError::NoData { when }) => assert_eq!(when, "struct"),
        other => panic!("{:?}", other),
    }
    let mut c = Compound::new();
    c.insert_tag("k", Tag::Byte(1));
    let mut access = NBTMapAccess::new(c);
    // a value asked for before any key is absent
    assert!(access.next_value_seed().deserialize_option().is_none());
    assert_eq!(access.next_key_seed().unwrap().deserialize_string().unwrap(), "k");
    assert_eq!(access.next_value_seed().deserialize_i8().unwrap(), 1);
    assert!(access.next_value_seed().deserialize_option().is_none());
}

#[test]
fn enum_requests_need_a_compound_of_one_entry() {
    match NBTEnumAccess::new(None).variant_seed() {
        Err(NBTError::NoData { when }) => assert_eq!(when, "enum map"),
        other => panic!("{:?}", other.map(|_| ())),
    }
    match NBTEnumAccess::new(Some(Tag::String("Unit".to_string()))).variant_seed() {
        Err(NBTError::InvalidType { found, expecting, when }) => {
            assert_eq!(found, TagIdent::TAG_String);
            assert_eq!(expecting, TagIdent::TAG_Compound);
            assert_eq!(when, "enum map");
        }
        other => panic!("{:?}", other.map(|_| ())),
    }
    match NBTEnumAccess::new(Some(Tag::Compound(Compound::new()))).variant_seed() {
        Err(NBTError::InvalidType { found, expecting, .. }) => {
            assert_eq!(found, TagIdent::TAG_End);
            assert_eq!(expecting, TagIdent::TAG_Compound);
        }
        other => panic!("{:?}", other.map(|_| ())),
    }
    let mut two = Compound::new();
    two.insert_tag("A", Tag::Byte(1));
    two.insert_tag("B", Tag::Byte(2));
    assert!(matches!(
        NBTEnumAccess::new(Some(Tag::Compound(two))).variant_seed(),
        Err(NBTError::InvalidType { found: TagIdent::TAG_Compound, .. })
    ));
    let (name, payload) =
        NBTEnumAccess::new(Some(external("Wrap", Tag::Long(9)))).variant_seed().unwrap();
    assert_eq!(name.deserialize_identifier().unwrap(), "Wrap");
    assert_eq!(payload.newtype_variant_seed().deserialize_i64().unwrap(), 9);
    let (_, payload) =
        NBTEnumAccess::new(Some(external("Unit", Tag::Byte(0)))).variant_seed().unwrap();
    assert!(payload.unit_variant().is_ok());
}

#[test]
fn any_request_follows_the_tag() {
    assert!(matches!(NBTDeserializer::new(None).deserialize_any(), Visit::Absent));
    assert!(matches!(NBTDeserializer::some(Tag::Byte(1)).deserialize_any(), Visit::I8(1)));
    assert!(matches!(NBTDeserializer::some(Tag::Short(1)).deserialize_any(), Visit::I16(1)));
    assert!(matches!(NBTDeserializer::some(Tag::Int(1)).deserialize_any(), Visit::I32(1)));
    assert!(matches!(NBTDeserializer::some(Tag::Long(1)).deserialize_any(), Visit::I64(1)));
    assert!(matches!(NBTDeserializer::some(Tag::Float(7)).deserialize_any(), Visit::F32(7)));
    assert!(matches!(NBTDeserializer::some(Tag::Double(7)).deserialize_any(), Visit::F64(7)));
    match NBTDeserializer::some(Tag::String("s".to_string())).deserialize_any() {
        Visit::String(s) => assert_eq!(s, "s"),
        other => panic!("{:?}", other),
    }
    match NBTDeserializer::some(Tag::IntArray(vec![4, 5])).deserialize_any() {
        Visit::Sequence(mut seq) => {
            assert_eq!(seq.next_element_seed().unwrap().deserialize_i32().unwrap(), 4);
            assert_eq!(seq.next_element_seed().unwrap().deserialize_i32().unwrap(), 5);
            assert!(seq.next_element_seed().is_none());
        }
        other => panic!("{:?}", other),
    }
    match NBTDeserializer::some(Tag::List(vec![Tag::Byte(1)])).deserialize_any() {
        Visit::Sequence(seq) => assert_eq!(seq.size_hint(), 1),
        other => panic!("{:?}", other),
    }
    match NBTDeserializer::some(Tag::Compound(Compound::new())).deserialize_any() {
        Visit::Entries(map) => assert_eq!(map.size_hint(), 0),
        other => panic!("{:?}", other),
    }
}
