//! A byte source held in memory, read front to back.

use crate::error::{ErrorView, NBTError, NBTResult};
use crate::wire::{
    be_read_i16, be_read_i32, be_read_i64, be_read_u16, be_read_u32, be_read_u64, be_value,
    lemma_be_value_single, modulus_16, modulus_32, modulus_64, modulus_8, signed_of,
    unexpected_eof,
};
use vstd::prelude::*;
use vstd::slice::{slice_subrange, slice_to_vec};

verus! {

/// What reading at a place comes to: the value read and the place after it, or
/// the fault and the place where reading stopped.
pub type Parsed<T> = Result<(T, int), (ErrorView, int)>;

/// `width` bytes stand at `pos`.
pub open spec fn fits(data: Seq<u8>, pos: int, width: int) -> bool {
    0 <= pos && 0 <= width && pos + width <= data.len()
}

/// The bytes at `pos`, `count` of them. Too few bytes are the source's fault,
/// and then none of them is read.
pub open spec fn parse_bytes(data: Seq<u8>, pos: int, count: int) -> Parsed<Seq<u8>> {
    if fits(data, pos, count) {
        Ok((data.subrange(pos, pos + count), pos + count))
    } else {
        Err((ErrorView::IO, pos))
    }
}

/// The big-endian number of `width` bytes at `pos`.
pub open spec fn parse_unsigned(data: Seq<u8>, pos: int, width: int) -> Parsed<nat> {
    match parse_bytes(data, pos, width) {
        Ok((bytes, next)) => Ok((be_value(bytes), next)),
        Err(fault) => Err(fault),
    }
}

/// The big-endian number of `width` bytes at `pos`, in two's complement.
pub open spec fn parse_signed(data: Seq<u8>, pos: int, width: int, modulus: int) -> Parsed<int> {
    match parse_unsigned(data, pos, width) {
        Ok((value, next)) => Ok((signed_of(value, modulus), next)),
        Err(fault) => Err(fault),
    }
}

/// Bytes in memory and the place of the next one to read.
#[derive(Debug)]
pub struct ByteReader {
    data: Vec<u8>,
    pos: usize,
}

impl ByteReader {
    /// The place of the next byte is within the bytes or right after them.
    /// This holds of every reader.
    #[verifier::type_invariant]
    pub closed spec fn in_bounds(&self) -> bool {
        self.pos <= self.data.len()
    }

    /// A reader stands within its bytes or right after them.
    pub proof fn lemma_in_bounds(&self)
        requires
            self.in_bounds(),
        ensures
            0 <= self.position() <= self.bytes().len(),
    {
    }

    /// All the bytes of the source, read or not.
    pub closed spec fn bytes(&self) -> Seq<u8> {
        self.data@
    }

    /// The place of the next byte to read.
    pub closed spec fn position(&self) -> int {
        self.pos as int
    }

    /// How many bytes are left to read.
    pub open spec fn left(&self) -> nat {
        if self.position() <= self.bytes().len() {
            (self.bytes().len() - self.position()) as nat
        } else {
            0
        }
    }

    /// A reader at the start of the bytes.
    pub fn new(data: Vec<u8>) -> (r: ByteReader)
        ensures
            r.bytes() == data@,
            r.position() == 0,
    {
        ByteReader { data, pos: 0 }
    }

    /// How many bytes were read.
    pub fn consumed(&self) -> (r: usize)
        ensures
            r == self.position(),
            r <= self.bytes().len(),
    {
        proof {
            use_type_invariant(self);
        }
        self.pos
    }

    /// How many bytes are left to read.
    pub fn remaining(&self) -> (r: usize)
        ensures
            r == self.left(),
            r == self.bytes().len() - self.position(),
    {
        proof {
            use_type_invariant(self);
        }
        self.data.len() - self.pos
    }

    /// Fails as reading does when the bytes run out, unless `size` bytes are
    /// left to read. Nothing is read.
    pub fn require(&self, size: u64) -> (r: NBTResult<()>)
        ensures
            if fits(self.bytes(), self.position(), size as int) {
                r is Ok
            } else {
                r matches Err(e) && e@ == ErrorView::IO
            },
    {
        proof {
            use_type_invariant(self);
        }
        if ((self.data.len() - self.pos) as u64) < size {
            Err(NBTError::IO { error: unexpected_eof() })
        } else {
            Ok(())
        }
    }

    /// Reads `size` bytes.
    pub fn read_size(&mut self, size: usize) -> (r: NBTResult<Vec<u8>>)
        ensures
            final(self).bytes() == old(self).bytes(),
            old(self).position() <= final(self).position() <= old(self).bytes().len(),
            match parse_bytes(old(self).bytes(), old(self).position(), size as int) {
                Ok((value, next)) => r matches Ok(v) && v@ == value && final(self).position()
                    == next,
                Err((fault, stop)) => r matches Err(e) && e@ == fault && final(self).position()
                    == stop,
            },
    {
        proof {
            use_type_invariant(&*self);
        }
        if self.data.len() - self.pos < size {
            return Err(NBTError::IO { error: unexpected_eof() });
        }
        let buffer = slice_to_vec(slice_subrange(self.data.as_slice(), self.pos, self.pos + size));
        self.pos = self.pos + size;
        Ok(buffer)
    }

    /// Reads one byte.
    pub fn read_u8(&mut self) -> (r: NBTResult<u8>)
        ensures
            final(self).bytes() == old(self).bytes(),
            old(self).position() <= final(self).position() <= old(self).bytes().len(),
            match parse_unsigned(old(self).bytes(), old(self).position(), 1) {
                Ok((value, next)) => r matches Ok(v) && v == value && final(self).position()
                    == next,
                Err((fault, stop)) => r matches Err(e) && e@ == fault && final(self).position()
                    == stop,
            },
            r matches Ok(v) ==> v == old(self).bytes()[old(self).position()],
    {
        proof {
            use_type_invariant(&*self);
        }
        if self.data.len() - self.pos < 1 {
            return Err(NBTError::IO { error: unexpected_eof() });
        }
        let value = self.data[self.pos];
        proof {
            lemma_be_value_single(self.data@.subrange(self.pos as int, self.pos + 1));
        }
        self.pos = self.pos + 1;
        Ok(value)
    }

    /// Reads one byte in two's complement.
    pub fn read_i8(&mut self) -> (r: NBTResult<i8>)
        ensures
            final(self).bytes() == old(self).bytes(),
            old(self).position() <= final(self).position() <= old(self).bytes().len(),
            match parse_signed(old(self).bytes(), old(self).position(), 1, modulus_8()) {
                Ok((value, next)) => r matches Ok(v) && v == value && final(self).position()
                    == next,
                Err((fault, stop)) => r matches Err(e) && e@ == fault && final(self).position()
                    == stop,
            },
    {
        let byte = self.read_u8()?;
        if byte >= 128 {
            Ok((byte - 128) as i8 + i8::MIN)
        } else {
            Ok(byte as i8)
        }
    }

    /// Reads a big-endian number of two bytes.
    pub fn read_u16(&mut self) -> (r: NBTResult<u16>)
        ensures
            final(self).bytes() == old(self).bytes(),
            old(self).position() <= final(self).position() <= old(self).bytes().len(),
            match parse_unsigned(old(self).bytes(), old(self).position(), 2) {
                Ok((value, next)) => r matches Ok(v) && v == value && final(self).position()
                    == next,
                Err((fault, stop)) => r matches Err(e) && e@ == fault && final(self).position()
                    == stop,
            },
    {
        proof {
            use_type_invariant(&*self);
        }
        if self.data.len() - self.pos < 2 {
            return Err(NBTError::IO { error: unexpected_eof() });
        }
        let bytes = slice_subrange(self.data.as_slice(), self.pos, self.pos + 2);
        assert(bytes@.subrange(0, 2) =~= bytes@);
        let value = be_read_u16(bytes);
        self.pos = self.pos + 2;
        Ok(value)
    }

    /// Reads a big-endian number of two bytes in two's complement.
    pub fn read_i16(&mut self) -> (r: NBTResult<i16>)
        ensures
            final(self).bytes() == old(self).bytes(),
            old(self).position() <= final(self).position() <= old(self).bytes().len(),
            match parse_signed(old(self).bytes(), old(self).position(), 2, modulus_16()) {
                Ok((value, next)) => r matches Ok(v) && v == value && final(self).position()
                    == next,
                Err((fault, stop)) => r matches Err(e) && e@ == fault && final(self).position()
                    == stop,
            },
    {
        proof {
            use_type_invariant(&*self);
        }
        if self.data.len() - self.pos < 2 {
            return Err(NBTError::IO { error: unexpected_eof() });
        }
        let bytes = slice_subrange(self.data.as_slice(), self.pos, self.pos + 2);
        assert(bytes@.subrange(0, 2) =~= bytes@);
        let value = be_read_i16(bytes);
        self.pos = self.pos + 2;
        Ok(value)
    }

    /// Reads a big-endian number of four bytes.
    pub fn read_u32(&mut self) -> (r: NBTResult<u32>)
        ensures
            final(self).bytes() == old(self).bytes(),
            old(self).position() <= final(self).position() <= old(self).bytes().len(),
            match parse_unsigned(old(self).bytes(), old(self).position(), 4) {
                Ok((value, next)) => r matches Ok(v) && v == value && final(self).position()
                    == next,
                Err((fault, stop)) => r matches Err(e) && e@ == fault && final(self).position()
                    == stop,
            },
    {
        proof {
            use_type_invariant(&*self);
        }
        if self.data.len() - self.pos < 4 {
            return Err(NBTError::IO { error: unexpected_eof() });
        }
        let bytes = slice_subrange(self.data.as_slice(), self.pos, self.pos + 4);
        assert(bytes@.subrange(0, 4) =~= bytes@);
        let value = be_read_u32(bytes);
        self.pos = self.pos + 4;
        Ok(value)
    }

    /// Reads a big-endian number of four bytes in two's complement.
    pub fn read_i32(&mut self) -> (r: NBTResult<i32>)
        ensures
            final(self).bytes() == old(self).bytes(),
            old(self).position() <= final(self).position() <= old(self).bytes().len(),
            match parse_signed(old(self).bytes(), old(self).position(), 4, modulus_32()) {
                Ok((value, next)) => r matches Ok(v) && v == value && final(self).position()
                    == next,
                Err((fault, stop)) => r matches Err(e) && e@ == fault && final(self).position()
                    == stop,
            },
    {
        proof {
            use_type_invariant(&*self);
        }
        if self.data.len() - self.pos < 4 {
            return Err(NBTError::IO { error: unexpected_eof() });
        }
        let bytes = slice_subrange(self.data.as_slice(), self.pos, self.pos + 4);
        assert(bytes@.subrange(0, 4) =~= bytes@);
        let value = be_read_i32(bytes);
        self.pos = self.pos + 4;
        Ok(value)
    }

    /// Reads a big-endian number of eight bytes.
    pub fn read_u64(&mut self) -> (r: NBTResult<u64>)
        ensures
            final(self).bytes() == old(self).bytes(),
            old(self).position() <= final(self).position() <= old(self).bytes().len(),
            match parse_unsigned(old(self).bytes(), old(self).position(), 8) {
                Ok((value, next)) => r matches Ok(v) && v == value && final(self).position()
                    == next,
                Err((fault, stop)) => r matches Err(e) && e@ == fault && final(self).position()
                    == stop,
            },
    {
        proof {
            use_type_invariant(&*self);
        }
        if self.data.len() - self.pos < 8 {
            return Err(NBTError::IO { error: unexpected_eof() });
        }
        let bytes = slice_subrange(self.data.as_slice(), self.pos, self.pos + 8);
        assert(bytes@.subrange(0, 8) =~= bytes@);
        let value = be_read_u64(bytes);
        self.pos = self.pos + 8;
        Ok(value)
    }

    /// Reads a big-endian number of eight bytes in two's complement.
    pub fn read_i64(&mut self) -> (r: NBTResult<i64>)
        ensures
            final(self).bytes() == old(self).bytes(),
            old(self).position() <= final(self).position() <= old(self).bytes().len(),
            match parse_signed(old(self).bytes(), old(self).position(), 8, modulus_64()) {
                Ok((value, next)) => r matches Ok(v) && v == value && final(self).position()
                    == next,
                Err((fault, stop)) => r matches Err(e) && e@ == fault && final(self).position()
                    == stop,
            },
    {
        proof {
            use_type_invariant(&*self);
        }
        if self.data.len() - self.pos < 8 {
            return Err(NBTError::IO { error: unexpected_eof() });
        }
        let bytes = slice_subrange(self.data.as_slice(), self.pos, self.pos + 8);
        assert(bytes@.subrange(0, 8) =~= bytes@);
        let value = be_read_i64(bytes);
        self.pos = self.pos + 8;
        Ok(value)
    }
}

} // verus!
