//! The header of the image: the two offsets that bound the index table.

use crate::codec::{le32_at, read_u32_le};
use crate::errors::{Error, ErrorKind};
use vstd::prelude::*;
use vstd::slice::slice_subrange;

verus! {

/// The width of one index entry: a four-byte address and a three-byte
/// pointer.
pub const INDEX_LEN: u64 = 7;

/// The number of bytes that the header takes at the start of the image.
pub const HEADER_LEN: usize = 8;

/// The offsets of the first and of the last entry of the index table.
#[derive(Clone, Copy, Debug, PartialEq, Eq, Structural)]
pub struct Header {
    pub start: u64,
    pub end: u64,
}

impl Header {
    /// The offsets bound a table: they are 32-bit values in ascending order,
    /// a whole number of entries apart.
    pub open spec fn wf(&self) -> bool {
        &&& self.start <= self.end
        &&& self.end <= u32::MAX
        &&& (self.end - self.start) % (INDEX_LEN as int) == 0
    }

    /// The number of entries in the table, the one at `end` included.
    pub open spec fn entry_count(&self) -> nat {
        ((self.end - self.start) / (INDEX_LEN as int) + 1) as nat
    }

    /// The header that the first eight bytes of an image stand for. The two
    /// offsets are taken as they are stored, whether or not they bound a
    /// table.
    pub open spec fn parse(bytes: Seq<u8>) -> Result<Header, Error> {
        if bytes.len() >= HEADER_LEN {
            Ok(Header { start: le32_at(bytes, 0) as u64, end: le32_at(bytes, 4) as u64 })
        } else {
            Err(Error::malformed_header())
        }
    }

    /// Decodes the header from the start of `bytes`. It fails only where
    /// fewer than eight bytes are given; bytes after the eighth are not
    /// looked at.
    pub fn decode(bytes: &[u8]) -> (r: Result<Header, Error>)
        ensures
            r == Self::parse(bytes@),
            r is Err <==> bytes@.len() < HEADER_LEN,
            r matches Err(e) ==> e == Error::malformed_header(),
            r matches Ok(h) ==> h.start == le32_at(bytes@, 0) && h.end == le32_at(bytes@, 4),
    {
        let start = match read_u32_le(bytes) {
            Ok(v) => v as u64,
            Err(_) => {
                return Err(Error { kind: ErrorKind::MalformedHeader, offset: 0 });
            },
        };
        let rest = slice_subrange(bytes, 4, bytes.len());
        let end = match read_u32_le(rest) {
            Ok(v) => v as u64,
            Err(_) => {
                return Err(Error { kind: ErrorKind::MalformedHeader, offset: 0 });
            },
        };
        Ok(Header { start, end })
    }

    /// Tells whether the offsets bound a table of whole entries. A search
    /// of the table asks for that.
    pub fn is_well_formed(&self) -> (b: bool)
        ensures
            b == self.wf(),
    {
        self.start <= self.end && self.end <= 0xffff_ffff && (self.end - self.start) % INDEX_LEN
            == 0
    }
}

} // verus!
