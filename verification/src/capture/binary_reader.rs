//! Reading numbers and bytes from a packet.

use crate::error::AppError;
use vstd::prelude::*;
use vstd::slice::slice_subrange;
use vstd::string::*;

verus! {

/// The number that two bytes hold, the highest byte first.
pub open spec fn be16(b: Seq<u8>) -> int {
    256 * b[0] + b[1]
}

/// The number that four bytes hold, the highest byte first.
pub open spec fn be32(b: Seq<u8>) -> int {
    16777216 * b[0] + 65536 * b[1] + 256 * b[2] + b[3]
}

/// The number that eight bytes hold, the highest byte first.
pub open spec fn be64(b: Seq<u8>) -> int {
    0x1_0000_0000 * be32(b) + be32(b.skip(4))
}

/// The number that four bytes hold, the highest byte first.
pub fn read_be32(b: &[u8], at: usize) -> (n: u32)
    requires
        at + 4 <= b@.len(),
    ensures
        n == be32(b@.skip(at as int)),
{
    16777216 * (b[at] as u32) + 65536 * (b[at + 1] as u32) + 256 * (b[at + 2] as u32) + b[at
        + 3] as u32
}

/// Reads a packet from its beginning to its end.
pub struct BinaryReader {
    data: Vec<u8>,
    pos: usize,
}

/// The message for a read past the end.
pub open spec fn short_message() -> Seq<char> {
    "unexpected end of data"@
}

/// Whether `e` is the error of a read past the end.
pub open spec fn is_short(e: AppError) -> bool {
    e matches AppError::Parse(reason) && reason@ == short_message()
}

/// The error of a read past the end.
fn short() -> (e: AppError)
    ensures
        is_short(e),
{
    AppError::Parse(String::from_str("unexpected end of data"))
}

impl BinaryReader {
    /// All bytes of the packet.
    pub closed spec fn all(self) -> Seq<u8> {
        self.data@
    }

    /// The bytes that are still to be read.
    pub closed spec fn rest(self) -> Seq<u8> {
        self.data@.skip(self.pos as int)
    }

    /// Whether the position lies within the packet.
    #[verifier::type_invariant]
    spec fn inv(self) -> bool {
        self.pos <= self.data@.len()
    }

    /// A reader at the beginning of `data`.
    pub fn from_bytes(data: Vec<u8>) -> (r: BinaryReader)
        ensures
            r.all() == data@,
            r.rest() == data@,
    {
        assert(data@.skip(0) =~= data@);
        BinaryReader { data, pos: 0 }
    }

    /// The number of bytes that are still to be read.
    pub fn remaining(&self) -> (n: usize)
        ensures
            n == self.rest().len(),
    {
        proof {
            use_type_invariant(self);
        }
        self.data.len() - self.pos
    }

    /// The number of bytes of the packet, read or not.
    pub fn len(&self) -> (n: usize)
        ensures
            n == self.all().len(),
    {
        self.data.len()
    }

    /// The next four bytes as a number, without moving on.
    pub fn peek_u32(&self) -> (r: Result<u32, AppError>)
        ensures
            r is Ok <==> self.rest().len() >= 4,
            r matches Ok(n) ==> n == be32(self.rest()),
            r matches Err(e) ==> is_short(e),
    {
        proof {
            use_type_invariant(self);
        }
        if self.data.len() - self.pos < 4 {
            return Err(short());
        }
        Ok(read_be32(self.data.as_slice(), self.pos))
    }

    /// The next two bytes as a number.
    pub fn read_u16(&mut self) -> (r: Result<u16, AppError>)
        ensures
            final(self).all() == old(self).all(),
            r is Ok <==> old(self).rest().len() >= 2,
            r matches Ok(n) ==> n == be16(old(self).rest()) && final(self).rest() == old(self).rest().skip(2),
            r matches Err(e) ==> is_short(e) && final(self).rest() == old(self).rest(),
    {
        proof {
            use_type_invariant(&*self);
        }
        if self.data.len() - self.pos < 2 {
            return Err(short());
        }
        let n: u16 = 256 * (self.data[self.pos] as u16) + self.data[self.pos + 1] as u16;
        let ghost rest = self.rest();
        self.pos = self.pos + 2;
        assert(self.rest() =~= rest.skip(2));
        Ok(n)
    }

    /// The next four bytes as a number.
    pub fn read_u32(&mut self) -> (r: Result<u32, AppError>)
        ensures
            final(self).all() == old(self).all(),
            r is Ok <==> old(self).rest().len() >= 4,
            r matches Ok(n) ==> n == be32(old(self).rest()) && final(self).rest() == old(self).rest().skip(4),
            r matches Err(e) ==> is_short(e) && final(self).rest() == old(self).rest(),
    {
        proof {
            use_type_invariant(&*self);
        }
        if self.data.len() - self.pos < 4 {
            return Err(short());
        }
        let n: u32 = read_be32(self.data.as_slice(), self.pos);
        let ghost rest = self.rest();
        self.pos = self.pos + 4;
        assert(self.rest() =~= rest.skip(4));
        Ok(n)
    }

    /// The next eight bytes as a number.
    pub fn read_u64(&mut self) -> (r: Result<u64, AppError>)
        ensures
            final(self).all() == old(self).all(),
            r is Ok <==> old(self).rest().len() >= 8,
            r matches Ok(n) ==> n == be64(old(self).rest()) && final(self).rest() == old(self).rest().skip(8),
            r matches Err(e) ==> is_short(e) && final(self).rest() == old(self).rest(),
    {
        proof {
            use_type_invariant(&*self);
        }
        if self.data.len() - self.pos < 8 {
            return Err(short());
        }
        let hi: u32 = read_be32(self.data.as_slice(), self.pos);
        let lo: u32 = read_be32(self.data.as_slice(), self.pos + 4);
        let n: u64 = 0x1_0000_0000 * (hi as u64) + lo as u64;
        let ghost rest = self.rest();
        assert(rest.skip(4) =~= self.data@.skip(self.pos + 4));
        self.pos = self.pos + 8;
        assert(self.rest() =~= rest.skip(8));
        Ok(n)
    }

    /// The next `n` bytes.
    pub fn read_bytes(&mut self, n: usize) -> (r: Result<Vec<u8>, AppError>)
        ensures
            final(self).all() == old(self).all(),
            r is Ok <==> old(self).rest().len() >= n,
            r matches Ok(bytes) ==> bytes@ == old(self).rest().take(n as int) && final(self).rest() == old(self).rest().skip(n as int),
            r matches Err(e) ==> is_short(e) && final(self).rest() == old(self).rest(),
    {
        proof {
            use_type_invariant(&*self);
        }
        if self.data.len() - self.pos < n {
            return Err(short());
        }
        let ghost rest = self.rest();
        let bytes: Vec<u8> = copy_range(self.data.as_slice(), self.pos, self.pos + n);
        assert(bytes@ =~= rest.take(n as int));
        self.pos = self.pos + n;
        assert(self.rest() =~= rest.skip(n as int));
        Ok(bytes)
    }

    /// The bytes that are still to be read.
    pub fn read_remaining(&self) -> (bytes: &[u8])
        ensures
            bytes@ == self.rest(),
    {
        proof {
            use_type_invariant(self);
        }
        let bytes: &[u8] = slice_subrange(self.data.as_slice(), self.pos, self.data.len());
        assert(bytes@ =~= self.rest());
        bytes
    }
}

/// The bytes from `from` to `to`.
pub fn copy_range(data: &[u8], from: usize, to: usize) -> (bytes: Vec<u8>)
    requires
        from <= to <= data@.len(),
    ensures
        bytes@ == data@.subrange(from as int, to as int),
{
    let mut bytes: Vec<u8> = Vec::new();
    let mut i: usize = from;
    while i < to
        invariant
            from <= i <= to <= data@.len(),
            bytes@ == data@.subrange(from as int, i as int),
        decreases to - i,
    {
        bytes.push(data[i]);
        i += 1;
        assert(bytes@ =~= data@.subrange(from as int, i as int));
    }
    bytes
}

/// A copy of all bytes.
pub fn copy_bytes(data: &[u8]) -> (bytes: Vec<u8>)
    ensures
        bytes@ == data@,
{
    let bytes: Vec<u8> = copy_range(data, 0, data.len());
    assert(bytes@ =~= data@);
    bytes
}

} // verus!
