//! Packed little-endian integers and the packed form of an IPv4 address.

use byteorder::{LittleEndian, ReadBytesExt};
use vstd::prelude::*;

verus! {

/// The value of three bytes, least significant byte first.
pub open spec fn le24(b0: u8, b1: u8, b2: u8) -> u32 {
    (b0 as int + 0x100 * (b1 as int) + 0x1_0000 * (b2 as int)) as u32
}

/// The value of four bytes, least significant byte first.
pub open spec fn le32(b0: u8, b1: u8, b2: u8, b3: u8) -> u32 {
    (b0 as int + 0x100 * (b1 as int) + 0x1_0000 * (b2 as int) + 0x100_0000 * (b3 as int)) as u32
}

/// The 24-bit value stored in `bytes` at `at`.
pub open spec fn le24_at(bytes: Seq<u8>, at: int) -> u32
    recommends
        0 <= at,
        at + 3 <= bytes.len(),
{
    le24(bytes[at], bytes[at + 1], bytes[at + 2])
}

/// The 32-bit value stored in `bytes` at `at`.
pub open spec fn le32_at(bytes: Seq<u8>, at: int) -> u32
    recommends
        0 <= at,
        at + 4 <= bytes.len(),
{
    le32(bytes[at], bytes[at + 1], bytes[at + 2], bytes[at + 3])
}

/// The packed form of an address: its first octet is the least significant
/// byte. Index entries store addresses in this form.
pub open spec fn address_to_integer(ip: [u8; 4]) -> u32 {
    le32(ip[0], ip[1], ip[2], ip[3])
}

/// The address whose packed form is `x`.
pub open spec fn integer_to_address(x: u32) -> [u8; 4] {
    [(x % 0x100) as u8, (x / 0x100 % 0x100) as u8, (x / 0x1_0000 % 0x100) as u8, (x / 0x100_0000) as u8]
}

/// An error of `std::io`, carried from a reader to the code that maps it.
#[verifier::external_type_specification]
#[verifier::external_body]
pub struct ExIoError(std::io::Error);

/// `byteorder::ReadBytesExt::read_u32::<LittleEndian>` on a byte slice: it
/// fails exactly when the slice holds fewer than four bytes, and otherwise
/// returns the little-endian value of the first four.
#[verifier::external_body]
pub(crate) fn read_u32_le(bytes: &[u8]) -> (r: Result<u32, std::io::Error>)
    ensures
        r is Ok <==> bytes@.len() >= 4,
        r matches Ok(v) ==> v == le32_at(bytes@, 0),
{
    let mut reader = bytes;
    reader.read_u32::<LittleEndian>()
}

/// Decodes a three-byte pointer.
pub fn array3u8tou32(data: &[u8]) -> (r: u32)
    requires
        data@.len() >= 3,
    ensures
        r == le24_at(data@, 0),
{
    let b0: u32 = data[0] as u32;
    let b1: u32 = data[1] as u32;
    let b2: u32 = data[2] as u32;
    let mut i: u32 = b0 & 0xff;
    i |= b1 << 8 & 0xff00;
    i |= b2 << 16 & 0xff0000;
    assert(i == b0 + 0x100 * b1 + 0x1_0000 * b2) by (bit_vector)
        requires
            b0 < 0x100,
            b1 < 0x100,
            b2 < 0x100,
            i == ((b0 & 0xff) | (b1 << 8 & 0xff00)) | (b2 << 16 & 0xff0000),
    ;
    i
}

/// Packs the four octets of an address into the integer that index entries
/// are compared with.
pub fn convert_ipv4_to_u32(ip: [u8; 4]) -> (r: u32)
    ensures
        r == address_to_integer(ip),
{
    let o0: u32 = ip[0] as u32;
    let o1: u32 = ip[1] as u32;
    let o2: u32 = ip[2] as u32;
    let o3: u32 = ip[3] as u32;
    let mut result: u32 = o0;
    result |= (o1 << 8) & 0xff00;
    result |= (o2 << 16) & 0xff0000;
    result |= (o3 << 24) & 0xff000000;
    assert(result == o0 + 0x100 * o1 + 0x1_0000 * o2 + 0x100_0000 * o3) by (bit_vector)
        requires
            o0 < 0x100,
            o1 < 0x100,
            o2 < 0x100,
            o3 < 0x100,
            result == ((o0 | ((o1 << 8) & 0xff00)) | ((o2 << 16) & 0xff0000)) | ((o3 << 24)
                & 0xff000000),
    ;
    result
}

/// Unpacks an integer into the four octets of its address.
pub fn convert_u32_to_ipv4(x: u32) -> (ip: [u8; 4])
    ensures
        ip == integer_to_address(x),
{
    let o0: u32 = x & 0xff;
    let o1: u32 = (x >> 8) & 0xff;
    let o2: u32 = (x >> 16) & 0xff;
    let o3: u32 = x >> 24;
    assert(o0 == x % 0x100 && o1 == x / 0x100 % 0x100 && o2 == x / 0x1_0000 % 0x100 && o3 == x
        / 0x100_0000 && o3 < 0x100) by (bit_vector)
        requires
            o0 == x & 0xff,
            o1 == (x >> 8) & 0xff,
            o2 == (x >> 16) & 0xff,
            o3 == x >> 24,
    ;
    [o0 as u8, o1 as u8, o2 as u8, o3 as u8]
}

/// Packing the octets that `x` unpacks into gives `x` back.
pub proof fn lemma_integer_round_trip(x: u32)
    ensures
        address_to_integer(integer_to_address(x)) == x,
{
}

/// Unpacking the packed form of an address gives the address back.
pub proof fn lemma_address_round_trip(ip: [u8; 4])
    ensures
        integer_to_address(address_to_integer(ip)) == ip,
{
    let a: u32 = ip[0] as u32;
    let b: u32 = ip[1] as u32;
    let c: u32 = ip[2] as u32;
    let d: u32 = ip[3] as u32;
    let x: u32 = address_to_integer(ip);
    assert(x % 0x100 == a && x / 0x100 % 0x100 == b && x / 0x1_0000 % 0x100 == c && x
        / 0x100_0000 == d) by (bit_vector)
        requires
            a < 0x100,
            b < 0x100,
            c < 0x100,
            d < 0x100,
            x == a + 0x100 * b + 0x1_0000 * c + 0x100_0000 * d,
    ;
    assert(integer_to_address(x) =~= ip);
}

} // verus!
