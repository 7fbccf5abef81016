//! The front of the library: tags and documents to bytes and back, and the
//! ends of the bridge.

use crate::blob::Blob;
use crate::de::NBTDeserializer;
use crate::decode::{parse_ident, parse_root, parse_tag, read_ident, read_root, read_tag};
use crate::encode::{
    entries_read_back, payload, root_bytes, text_reads_back, texts_read_back, write_root,
    write_tag, Written,
};
use crate::error::{ErrorView, NBTError, NBTResult};
use crate::reader::{ByteReader, Parsed};
use crate::laws::{lemma_payload_reads_back, lemma_root_reads_back};
use crate::ser::Conventions;
use crate::tags::{Tag, TagIdent, TagView, MAX_DEPTH};
use vstd::prelude::*;
use vstd::slice::slice_to_vec;

verus! {

/// A trait supporting encoding of NBT Tags/Blobs into bytes.
pub trait NBTWrite {
    /// The bytes that `self` is written as, or the fault that keeps it from
    /// being written, with the bytes that are written before it.
    spec fn wire(&self) -> Written;

    /// Function for writing to a buffer: the bytes are added at its end.
    fn write(&self, writer: &mut Vec<u8>) -> (r: NBTResult<()>)
        ensures
            match self.wire() {
                Ok(bytes) => r is Ok && final(writer)@ == old(writer)@ + bytes,
                Err((fault, partial)) => r matches Err(e) && e@ == fault && final(writer)@ == old(
                    writer,
                )@ + partial,
            },
    ;

    /// Function for writing to a new array of bytes.
    fn bytes(&self) -> (r: NBTResult<Vec<u8>>)
        ensures
            match self.wire() {
                Ok(bytes) => r matches Ok(v) && v@ == bytes,
                Err((fault, _)) => r matches Err(e) && e@ == fault,
            },
    ;
}

impl NBTWrite for Tag {
    /// A tag is written as its payload, without a type byte.
    open spec fn wire(&self) -> Written {
        payload(*self, MAX_DEPTH as nat)
    }

    fn write(&self, writer: &mut Vec<u8>) -> (r: NBTResult<()>)
        ensures
            r is Ok ==> texts_read_back(*self),
    {
        write_tag(writer, self)
    }

    /// The payload of the tag. Read as a payload of the tag's type, the
    /// bytes give the tag's value again.
    fn bytes(&self) -> (r: NBTResult<Vec<u8>>)
        ensures
            r matches Ok(v) ==> parse_tag(v@, 0, self.kind(), MAX_DEPTH as nat) == Ok::<(TagView, int), (ErrorView, int)>(
                (self@, v@.len() as int),
            ),
    {
        let mut buffer: Vec<u8> = Vec::new();
        match self.write(&mut buffer) {
            Ok(()) => {
                proof {
                    assert(buffer@ =~= payload(*self, MAX_DEPTH as nat)->Ok_0);
                    assert(buffer@.subrange(0, buffer@.len() as int) =~= buffer@);
                    lemma_payload_reads_back(*self, buffer@, 0, MAX_DEPTH as nat);
                }
                Ok(buffer)
            },
            Err(e) => Err(e),
        }
    }
}

impl NBTWrite for Blob {
    open spec fn wire(&self) -> Written {
        root_bytes(self.root@, self.elements.entries())
    }

    fn write(&self, writer: &mut Vec<u8>) -> (r: NBTResult<()>)
        ensures
            r is Ok ==> text_reads_back(self.root@) && entries_read_back(self.elements.entries()),
    {
        write_root(writer, self.root.as_str(), &self.elements)
    }

    /// The bytes of the document. Read as a document, they give its name
    /// and its elements again.
    fn bytes(&self) -> (r: NBTResult<Vec<u8>>)
        ensures
            r matches Ok(v) ==> parse_root(v@, 0) == Ok::<
                ((Seq<char>, Map<Seq<char>, TagView>), int),
                (ErrorView, int),
            >((self@, v@.len() as int)),
    {
        let mut buffer: Vec<u8> = Vec::new();
        match self.write(&mut buffer) {
            Ok(()) => {
                proof {
                    assert(buffer@ =~= root_bytes(self.root@, self.elements.entries())->Ok_0);
                    assert(buffer@.subrange(0, buffer@.len() as int) =~= buffer@);
                    lemma_root_reads_back(self.root@, self.elements.entries(), buffer@, 0);
                }
                Ok(buffer)
            },
            Err(e) => Err(e),
        }
    }
}

/// A trait supporting decoding of bytes into NBT/Tags.
///
/// This trait provides two functions:
/// - `read` for reading from a source of bytes
/// - `from_bytes` for reading from a array of bytes
pub trait NBTRead: Sized + View {
    /// What reading a `Self` at `pos` comes to.
    spec fn parse(data: Seq<u8>, pos: int) -> Parsed<Self::V>;

    /// Function for reading from a source.
    fn read(reader: &mut ByteReader) -> (r: NBTResult<Self>)
        ensures
            final(reader).bytes() == old(reader).bytes(),
            match Self::parse(old(reader).bytes(), old(reader).position()) {
                Ok((value, next)) => r matches Ok(v) && v@ == value && final(reader).position()
                    == next,
                Err((fault, stop)) => r matches Err(e) && e@ == fault && final(reader).position()
                    == stop,
            },
    ;

    /// Function for reading from a byte array. Bytes after the value are
    /// left unread.
    fn from_bytes(data: &[u8]) -> (r: NBTResult<Self>)
        ensures
            match Self::parse(data@, 0) {
                Ok((value, _)) => r matches Ok(v) && v@ == value,
                Err((fault, _)) => r matches Err(e) && e@ == fault,
            },
    ;
}

impl NBTRead for Tag {
    /// A tag is read as a type byte and the payload of that type.
    open spec fn parse(data: Seq<u8>, pos: int) -> Parsed<TagView> {
        match parse_ident(data, pos) {
            Ok((ident, at_payload)) => parse_tag(data, at_payload, ident, MAX_DEPTH as nat),
            Err(fault) => Err(fault),
        }
    }

    fn read(reader: &mut ByteReader) -> (r: NBTResult<Tag>) {
        let ident = read_ident(reader)?;
        read_tag(reader, &ident)
    }

    fn from_bytes(data: &[u8]) -> (r: NBTResult<Tag>) {
        let mut reader = ByteReader::new(slice_to_vec(data));
        Self::read(&mut reader)
    }
}

impl NBTRead for Blob {
    open spec fn parse(data: Seq<u8>, pos: int) -> Parsed<(Seq<char>, Map<Seq<char>, TagView>)> {
        parse_root(data, pos)
    }

    fn read(reader: &mut ByteReader) -> (r: NBTResult<Blob>) {
        let (name, elements) = read_root(reader)?;
        Ok(Blob { root: name, elements })
    }

    fn from_bytes(data: &[u8]) -> (r: NBTResult<Blob>) {
        let mut reader = ByteReader::new(slice_to_vec(data));
        Self::read(&mut reader)
    }
}

/// The document of a serialized value with a given root name. The value is
/// given as the result of its visit; only a compound is a document.
pub fn encode_named(encoded: NBTResult<Option<Tag>>, name: &str) -> (r: NBTResult<Blob>)
    ensures
        match encoded {
            Ok(Some(Tag::Compound(map))) => r matches Ok(blob) && blob.root@ == name@
                && blob.elements == map,
            Ok(Some(tag)) => r matches Err(e) && e@ == (ErrorView::InvalidImplicit {
                found: tag.kind(),
            }),
            Ok(None) => r matches Err(e) && e@ == (ErrorView::InvalidImplicit {
                found: TagIdent::TAG_End,
            }),
            Err(fault) => r == Err::<Blob, NBTError>(fault),
        },
{
    match encoded? {
        Some(tag) => if let Tag::Compound(map) = tag {
            Ok(Blob { elements: map, root: String::from_str(name) })
        } else {
            Err(NBTError::InvalidImplicit { found: tag.ident() })
        },
        None => Err(NBTError::InvalidImplicit { found: TagIdent::TAG_End }),
    }
}

/// The document of a serialized value with a empty root name.
pub fn encode(encoded: NBTResult<Option<Tag>>) -> (r: NBTResult<Blob>)
    ensures
        match encoded {
            Ok(Some(Tag::Compound(map))) => r matches Ok(blob) && blob.root@ == Seq::<
                char,
            >::empty() && blob.elements == map,
            Ok(Some(tag)) => r matches Err(e) && e@ == (ErrorView::InvalidImplicit {
                found: tag.kind(),
            }),
            Ok(None) => r matches Err(e) && e@ == (ErrorView::InvalidImplicit {
                found: TagIdent::TAG_End,
            }),
            Err(fault) => r == Err::<Blob, NBTError>(fault),
        },
{
    proof {
        reveal_strlit("");
        assert(""@ =~= Seq::<char>::empty());
    }
    encode_named(encoded, "")
}

/// The deserializer of a tag.
pub fn decode_tag(tag: Tag) -> (r: NBTDeserializer)
    ensures
        r.content() == Some(tag),
        r.conventions() == (Conventions { boolean: true, unsigned: false }),
{
    NBTDeserializer::some(tag)
}

/// The deserializer of a document: that of the compound of its elements.
pub fn decode(tag: Blob) -> (r: NBTDeserializer)
    ensures
        r.content() == Some(Tag::Compound(tag.elements)),
        r.conventions() == (Conventions { boolean: true, unsigned: false }),
{
    NBTDeserializer::some(Tag::Compound(tag.elements))
}

/// The root name of a document and the deserializer of its elements.
pub fn decode_named(tag: Blob) -> (r: (String, NBTDeserializer))
    ensures
        r.0 == tag.root,
        r.1.content() == Some(Tag::Compound(tag.elements)),
        r.1.conventions() == (Conventions { boolean: true, unsigned: false }),
{
    (tag.root, NBTDeserializer::some(Tag::Compound(tag.elements)))
}

} // verus!
