use nbt::error::digest_io;
use nbt::{Blob, Compound, FromTag, List, NBTError, Tag, TagIdent, ToTag};

#[test]
fn parse_accepts_zero_to_twelve() {
    let all = [
        TagIdent::TAG_End,
        TagIdent::TAG_Byte,
        TagIdent::TAG_Short,
        TagIdent::TAG_Int,
        TagIdent::TAG_Long,
        TagIdent::TAG_Float,
        TagIdent::TAG_Double,
        TagIdent::TAG_Byte_Array,
        TagIdent::TAG_String,
        TagIdent::TAG_List,
        TagIdent::TAG_Compound,
        TagIdent::TAG_Int_Array,
        TagIdent::TAG_Long_Array,
    ];
    for (byte, ident) in all.iter().enumerate() {
        assert_eq!(TagIdent::parse(&(byte as u8)), Some(*ident));
        assert_eq!(ident.id(), byte as u8);
    }
    for byte in 13..=255u8 {
        assert_eq!(TagIdent::parse(&byte), None);
    }
}

#[test]
fn identifiers_have_their_display_names() {
    assert_eq!(TagIdent::TAG_End.to_string(), "TAG_End");
    assert_eq!(TagIdent::TAG_Byte.to_string(), "TAG_Byte");
    assert_eq!(TagIdent::TAG_Short.to_string(), "TAG_Short");
    assert_eq!(TagIdent::TAG_Int.to_string(), "TAG_Int");
    assert_eq!(TagIdent::TAG_Long.to_string(), "TAG_Long");
    assert_eq!(TagIdent::TAG_Float.to_string(), "TAG_Float");
    assert_eq!(TagIdent::TAG_Double.to_string(), "TAG_Double");
    assert_eq!(TagIdent::TAG_Byte_Array.to_string(), "TAG_ByteArray");
    assert_eq!(TagIdent::TAG_String.to_string(), "TAG_String");
    assert_eq!(TagIdent::TAG_List.to_string(), "TAG_List");
    assert_eq!(TagIdent::TAG_Compound.to_string(), "TAG_Compound");
    assert_eq!(TagIdent::TAG_Int_Array.to_string(), "TAG_IntArray");
    assert_eq!(TagIdent::TAG_Long_Array.to_string(), "TAG_LongArray");
}

#[test]
fn tags_know_their_type() {
    assert_eq!(Tag::Byte(1).ident(), TagIdent::TAG_Byte);
    assert_eq!(Tag::Float(0).ident(), TagIdent::TAG_Float);
    assert_eq!(Tag::List(vec![]).ident(), TagIdent::TAG_List);
    assert_eq!(Tag::Compound(Compound::new()).ident(), TagIdent::TAG_Compound);
    assert_eq!(Tag::LongArray(vec![]).id(), 12);
    assert_eq!(Tag::String(String::new()).id(), 8);
}

#[test]
fn compound_is_a_map() {
    let mut c = Compound::new();
    assert!(c.is_empty());
    assert!(c.insert_tag("age", Tag::Byte(18)).is_none());
    assert!(c.insert_tag("id", Tag::Int(69420)).is_none());
    assert_eq!(c.insert_tag("age", Tag::Byte(19)), Some(Tag::Byte(18)));
    assert_eq!(c.len(), 2);
    assert_eq!(c.get_tag("age"), Some(&Tag::Byte(19)));
    assert_eq!(c.get_tag("none"), None);
    assert!(c.contains_key("id"));
    assert_eq!(c.tags()[0].0, "age");
    assert_eq!(c.remove_tag("age"), Some(Tag::Byte(19)));
    assert_eq!(c.remove_tag("age"), None);
    assert_eq!(c.len(), 1);
    assert_eq!(c.map(), vec![("id".to_string(), Tag::Int(69420))]);
}

#[test]
fn compounds_are_equal_whatever_their_order() {
    let mut a = Compound::new();
    a.insert_tag("x", Tag::Byte(1));
    a.insert_tag("y", Tag::List(vec![Tag::Int(2)]));
    let mut b = Compound::new();
    b.insert_tag("y", Tag::List(vec![Tag::Int(2)]));
    b.insert_tag("x", Tag::Byte(1));
    assert_eq!(a, b);
    assert_eq!(Tag::Compound(a), Tag::Compound(b));
    let mut c = Compound::new();
    c.insert_tag("x", Tag::Byte(1));
    let mut d = Compound::new();
    d.insert_tag("x", Tag::Byte(1));
    d.insert_tag("y", Tag::Byte(1));
    assert_ne!(c, d);
    assert_ne!(d, c);
    assert_ne!(Tag::Byte(1), Tag::Short(1));
    assert_ne!(Tag::List(vec![Tag::Byte(1)]), Tag::List(vec![Tag::Byte(2)]));
    assert_ne!(Tag::List(vec![Tag::Byte(1)]), Tag::List(vec![]));
    assert_ne!(Tag::IntArray(vec![1]), Tag::IntArray(vec![1, 2]));
    assert_eq!(Tag::LongArray(vec![1, 2]), Tag::LongArray(vec![1, 2]));
    assert_eq!(Tag::ByteArray(vec![1]), Tag::ByteArray(vec![1]));
}

#[test]
fn blob_holds_typed_values() {
    let mut blob = Blob::new();
    assert_eq!(blob.root, "");
    assert!(blob.insert("name", "Hello World").is_none());
    assert_eq!(blob.get::<String>("name"), Some(&"Hello World".to_string()));
    assert_eq!(blob.get::<i8>("name"), None);
    assert_eq!(blob.get::<i8>("other"), None);
    assert_eq!(blob.insert("name", Tag::Byte(127)), Some(Tag::String("Hello World".to_string())));
    assert_eq!(blob.get::<i8>("name"), Some(&127));
    blob.insert("id", 69420_i32);
    let mut expected = Compound::new();
    expected.insert_tag("id", Tag::Int(69420));
    expected.insert_tag("name", Tag::Byte(127));
    assert_eq!(blob.compound(), Tag::Compound(expected));
    assert_eq!(Blob::create("user").root, "user");
}

#[test]
fn native_values_are_boxed_and_unboxed() {
    assert_eq!(5i8.into_tag(), Tag::Byte(5));
    assert_eq!(5i16.into_tag(), Tag::Short(5));
    assert_eq!(5i32.into_tag(), Tag::Int(5));
    assert_eq!(5i64.into_tag(), Tag::Long(5));
    assert_eq!("s".into_tag(), Tag::String("s".to_string()));
    assert_eq!("s".to_string().into_tag(), Tag::String("s".to_string()));
    assert_eq!(vec![1i8].into_tag(), Tag::ByteArray(vec![1]));
    assert_eq!(vec![1i32].into_tag(), Tag::IntArray(vec![1]));
    assert_eq!(vec![1i64].into_tag(), Tag::LongArray(vec![1]));
    assert_eq!(i8::from_tag(Tag::Byte(3)), Some(3));
    assert_eq!(i8::from_tag(Tag::Short(3)), None);
    assert_eq!(i16::from_tag(Tag::Short(3)), Some(3));
    assert_eq!(i32::from_tag(Tag::Int(3)), Some(3));
    assert_eq!(i64::from_tag(Tag::Long(3)), Some(3));
    assert_eq!(i64::from_borrowed_tag(&Tag::Long(3)), Some(&3));
    assert_eq!(String::from_tag(Tag::String("a".into())), Some("a".to_string()));
    assert_eq!(String::from_borrowed_tag(&Tag::Int(1)), None);
}

#[test]
fn list_wraps_a_vector() {
    let mut list: List<i32> = List::new();
    list.push(1);
    list.push(3);
    list.insert(1, 2);
    assert_eq!(list.get(1), Some(&2));
    assert_eq!(list.get(3), None);
    list.remove(0);
    assert_eq!(list.list(), vec![2, 3]);
    assert_eq!(List::from(vec![1i8, 2]).to_tags(), vec![Tag::Byte(1), Tag::Byte(2)]);
    assert_eq!(List::from(vec![7i64]).into_tag(), Tag::List(vec![Tag::Long(7)]));
    let tags = vec![Tag::Byte(1), Tag::Short(9), Tag::Byte(2)];
    assert_eq!(List::<&i8>::from_borrowed_tags(&tags).list(), vec![&1, &2]);
    assert_eq!(List::<i8>::from_tags(tags).list(), vec![1, 2]);
    assert!(List::<i8>::from_tag(Tag::Byte(1)).is_none());
    assert_eq!(List::<i16>::from_tag(Tag::List(vec![Tag::Short(4)])).unwrap().list(), vec![4]);
    let tag = Tag::List(vec![Tag::Int(4), Tag::Int(5)]);
    assert_eq!(List::<&i32>::from_borrowed_tag(&tag).unwrap().list(), vec![&4, &5]);
}

#[test]
fn errors_have_their_messages() {
    let e = NBTError::InvalidList { found: TagIdent::TAG_Short, expecting: TagIdent::TAG_Byte };
    assert_eq!(e.to_string(), "Invalid List. Was expecting type TAG_Byte but found TAG_Short");
    assert_eq!(
        NBTError::InvalidTag { found: 13 }.to_string(),
        "Invalid Tag Identifier with value 0D"
    );
    assert_eq!(
        NBTError::InvalidTag { found: 0xAF }.to_string(),
        "Invalid Tag Identifier with value AF"
    );
    assert_eq!(
        NBTError::InvalidImplicit { found: TagIdent::TAG_List }.to_string(),
        "NBT blob does not start with a compound tag. Found TAG_List tag"
    );
    assert_eq!(
        NBTError::StringError.to_string(),
        "An error occurred while parsing a UTF-8/CESU8 string"
    );
    assert_eq!(NBTError::UnexpectedEndTag.to_string(), "An Unexpected TAG_End was read.");
    assert_eq!(NBTError::Custom("boom".to_string()).to_string(), "boom");
    assert_eq!(NBTError::custom("boom").to_string(), "boom");
    assert_eq!(
        NBTError::UnserializableType { name: "bytes".to_string() }.to_string(),
        "The type 'bytes' cannot be serialized into NBT"
    );
    assert_eq!(
        NBTError::InvalidType {
            found: TagIdent::TAG_Int,
            expecting: TagIdent::TAG_Byte,
            when: "i8".to_string()
        }
        .to_string(),
        "Found tag TAG_Int, was expecting TAG_Byte when deserializing i8"
    );
    assert_eq!(
        NBTError::InvalidChar.to_string(),
        "Failed to deserialize char, length of TAG_String was not 1"
    );
    assert_eq!(
        NBTError::NoData { when: "seq".to_string() }.to_string(),
        "A value was required when deserializing seq, but none was given."
    );
    assert_eq!(
        NBTError::TooLong { length: 65536, limit: 65535 }.to_string(),
        "A length of 65536 is over the limit of 65535"
    );
    assert_eq!(NBTError::TooLong { length: 0, limit: 7 }.to_string(), "A length of 0 is over the limit of 7");
    assert_eq!(
        NBTError::TooDeep { limit: 512 }.to_string(),
        "The nesting is deeper than the limit of 512"
    );
}

#[test]
fn io_faults_are_wrapped() {
    let fault = std::io::Error::from(std::io::ErrorKind::UnexpectedEof);
    let wrapped: Result<u8, NBTError> = digest_io(Err(fault));
    match wrapped {
        Err(e) => {
            assert!(matches!(e, NBTError::IO { .. }));
            assert!(e.to_string().starts_with("An IO error occurred: "));
            assert!(e.to_string().len() > "An IO error occurred: ".len());
        }
        Ok(_) => panic!("an error was handed in"),
    }
    assert_eq!(digest_io(Ok::<u8, std::io::Error>(5)).unwrap(), 5);
}
