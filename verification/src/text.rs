//! The texts of a record: bytes in the GBK charset, decoded by `encoding_rs`.

use encoding_rs::GBK;
use vstd::prelude::*;

verus! {

/// Whether a stored text of `len` bytes can be handed to the decoder on
/// this machine. The decoder sizes its output at up to three bytes for each
/// byte of the text and three more, and may ask once for as much again; the
/// sum has to stay within `isize::MAX`.
pub open spec fn decodable(len: nat) -> bool {
    6 * len + 8 <= isize::MAX
}

/// Tells whether a stored text of `len` bytes can be handed to the decoder.
pub fn fits_decoder(len: usize) -> (b: bool)
    ensures
        b == decodable(len as nat),
{
    len <= (isize::MAX as usize - 8) / 6
}

/// The text that `encoding_rs::GBK.decode` makes of `bytes`: a byte order
/// mark at the start selects UTF-8 or UTF-16 in place of GBK and is dropped,
/// and each malformed sequence becomes U+FFFD.
pub uninterp spec fn gbk_decoded(bytes: Seq<u8>) -> Seq<char>;

/// `encoding_rs::Encoding::decode` of `encoding_rs::GBK`, whose result
/// depends on the bytes alone. The bound keeps the sizes that the decoder
/// computes for its output within `isize::MAX`, past which it panics.
#[verifier::external_body]
pub(crate) fn decode_gbk(bytes: &[u8]) -> (text: String)
    requires
        decodable(bytes@.len()),
    ensures
        text@ == gbk_decoded(bytes@),
{
    let (text, _, _) = GBK.decode(bytes);
    text.to_string()
}

} // verus!
