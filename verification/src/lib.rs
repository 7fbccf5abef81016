//! # Named Binary Tag (NBT)
//! The Named Binary Tag is a structured binary format: a tree of tags of
//! thirteen types, written with length prefixes and big-endian numbers.
//!
//! ## This crate
//! - `Tag` and `Blob` hold partial and complete documents.
//! - `NBTWrite` and `NBTRead` turn them into bytes and back.
//! - `NBTSerializer` and `NBTDeserializer` are the two ends of a bridge to the
//!   data model of a serialization framework: structs, sequences, maps,
//!   options and enums.
//!
//! Every function states what it returns in its contract, and the contracts
//! are proved. `laws` holds the laws that tie writing to reading.

pub mod blob;
pub mod de;
pub mod decode;
pub mod encode;
pub mod error;
pub mod front;
pub mod laws;
pub mod list;
pub mod reader;
pub mod ser;
pub mod tags;
pub mod util;
pub mod wire;

pub use blob::Blob;
pub use de::{NBTDeserializer, NBTEnumAccess, NBTMapAccess, NBTSeqAccess, Visit};
pub use error::{NBTError, NBTResult};
pub use front::{decode, decode_named, decode_tag, encode, encode_named, NBTRead, NBTWrite};
pub use list::List;
pub use reader::ByteReader;
pub use ser::{
    external, Conventions, NBTMapSerializer, NBTSeqSerializer, NBTSerializer,
    NBTStructSerializer, NBTVariantSeqSerializer, NBTVariantStructSerializer,
};
pub use tags::{Compound, Tag, TagIdent};
pub use util::{FromTag, ToTag};
