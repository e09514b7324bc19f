//! The layout of a record: an address, then a mode tag that says where the
//! country and area texts are kept. The functions here say, for every image
//! and offset, what is stored there.

use crate::codec::le24_at;
use crate::errors::Error;
use vstd::prelude::*;

verus! {

/// How the bytes after a tag are to be read.
#[derive(Clone, Copy, Debug, PartialEq, Eq, Structural)]
pub enum Mode {
    /// A pointer follows, to a place that may itself redirect the country.
    RedirectMode1,
    /// A pointer follows, to the text.
    RedirectMode2,
    /// The byte is no tag: it is the first byte of the text.
    Other,
}

impl Mode {
    /// The mode that a tag byte selects.
    pub open spec fn of(tag: u8) -> Mode {
        if tag == 1 {
            Mode::RedirectMode1
        } else if tag == 2 {
            Mode::RedirectMode2
        } else {
            Mode::Other
        }
    }

    /// Tells the mode that a byte selects.
    pub fn from(mode: u8) -> (r: Mode)
        ensures
            r == Mode::of(mode),
    {
        match mode {
            1 => Mode::RedirectMode1,
            2 => Mode::RedirectMode2,
            _ => Mode::Other,
        }
    }
}

/// The country and area of a record as they are stored, and the address
/// stored with them.
pub struct RawRecordView {
    pub ip: [u8; 4],
    pub country: Seq<u8>,
    pub area: Seq<u8>,
}

/// The mode tag at `at`. A tag outside the image is a failed read.
pub open spec fn mode_at(bytes: Seq<u8>, at: int) -> Result<Mode, Error> {
    if 0 <= at < bytes.len() {
        Ok(Mode::of(bytes[at]))
    } else {
        Err(Error::io())
    }
}

/// The three-byte pointer at `at`.
pub open spec fn pointer_at(bytes: Seq<u8>, at: int) -> Result<u32, Error> {
    if 0 <= at && at + 3 <= bytes.len() {
        Ok(le24_at(bytes, at))
    } else {
        Err(Error::io())
    }
}

/// The four octets at `at`, in the order in which they are stored.
pub open spec fn address_at(bytes: Seq<u8>, at: int) -> Result<[u8; 4], Error> {
    if 0 <= at && at + 4 <= bytes.len() {
        Ok([bytes[at], bytes[at + 1], bytes[at + 2], bytes[at + 3]])
    } else {
        Err(Error::io())
    }
}

/// The position of the first zero byte at or after `at`, or the length of
/// the image where there is none.
pub open spec fn text_end(bytes: Seq<u8>, at: int) -> int
    decreases bytes.len() - at,
{
    if at < 0 || at >= bytes.len() {
        bytes.len() as int
    } else if bytes[at] == 0 {
        at
    } else {
        text_end(bytes, at + 1)
    }
}

/// The text that starts at `at`: the bytes up to the first zero byte, which
/// is not part of it. A text that no zero byte ends is a failed read.
pub open spec fn text_at(bytes: Seq<u8>, at: int) -> Result<Seq<u8>, Error> {
    if 0 <= at && text_end(bytes, at) < bytes.len() {
        Ok(bytes.subrange(at, text_end(bytes, at)))
    } else {
        Err(Error::io())
    }
}

/// The end of a text lies at or after its start and within the image, no
/// byte before it is zero, and the byte at it, if there is one, is zero.
pub proof fn lemma_text_end(bytes: Seq<u8>, at: int)
    requires
        0 <= at <= bytes.len(),
    ensures
        at <= text_end(bytes, at) <= bytes.len(),
        forall|i: int| at <= i < text_end(bytes, at) ==> bytes[i] != 0,
        text_end(bytes, at) < bytes.len() ==> bytes[text_end(bytes, at)] == 0,
    decreases bytes.len() - at,
{
    if at < bytes.len() && bytes[at] != 0 {
        lemma_text_end(bytes, at + 1);
    }
}

/// The first zero byte at or after the start of a text is its end.
pub proof fn lemma_first_zero_ends_text(bytes: Seq<u8>, at: int, end: int)
    requires
        0 <= at <= end < bytes.len(),
        forall|i: int| at <= i < end ==> bytes[i] != 0,
        bytes[end] == 0,
    ensures
        text_end(bytes, at) == end,
    decreases end - at,
{
    if at < end {
        lemma_first_zero_ends_text(bytes, at + 1, end);
    }
}

/// A run of bytes without a zero that a zero byte follows is read back as
/// exactly that run, without the zero byte.
pub proof fn lemma_text_before_zero(bytes: Seq<u8>, at: int, text: Seq<u8>)
    requires
        0 <= at,
        at + text.len() < bytes.len(),
        bytes.subrange(at, at + text.len()) == text,
        forall|i: int| 0 <= i < text.len() ==> text[i] != 0,
        bytes[at + text.len()] == 0,
    ensures
        text_at(bytes, at) == Ok::<Seq<u8>, Error>(text),
{
    assert forall|i: int| at <= i < at + text.len() implies bytes[i] != 0 by {
        assert(bytes[i] == text[i - at]);
    }
    lemma_first_zero_ends_text(bytes, at, at + text.len());
}

/// A text that is read holds no zero byte, lies in the image where it is
/// read, and is followed there by a zero byte.
pub proof fn lemma_text_at(bytes: Seq<u8>, at: int)
    ensures
        text_at(bytes, at) matches Ok(text) ==> {
            &&& 0 <= at
            &&& at + text.len() < bytes.len()
            &&& text == bytes.subrange(at, at + text.len())
            &&& forall|i: int| 0 <= i < text.len() ==> text[i] != 0
            &&& bytes[at + text.len()] == 0
        },
        text_at(bytes, at) is Err ==> text_at(bytes, at) == Err::<Seq<u8>, Error>(Error::io())
            && forall|i: int| 0 <= at <= i < bytes.len() ==> bytes[i] != 0,
{
    if 0 <= at <= bytes.len() {
        lemma_text_end(bytes, at);
    }
}

/// The area text that is reached from `origin`. A tag there redirects
/// through the pointer after it, which must not be zero; any other byte
/// starts the text itself.
pub open spec fn area_at(bytes: Seq<u8>, origin: int) -> Result<Seq<u8>, Error> {
    match mode_at(bytes, origin) {
        Err(e) => Err(e),
        Ok(Mode::Other) => text_at(bytes, origin),
        Ok(_) => match pointer_at(bytes, origin + 1) {
            Err(e) => Err(e),
            Ok(p) => if p == 0 {
                Err(Error::corrupt_area((origin + 1) as u64))
            } else {
                text_at(bytes, p as int)
            },
        },
    }
}

/// The country text of a country that was redirected to `p`, with the place
/// from which its area is reached.
pub open spec fn redirected_country_at(bytes: Seq<u8>, p: int) -> Result<(Seq<u8>, int), Error> {
    match mode_at(bytes, p) {
        Err(e) => Err(e),
        Ok(Mode::RedirectMode2) => match pointer_at(bytes, p + 1) {
            Err(e) => Err(e),
            Ok(c) => match text_at(bytes, c as int) {
                Err(e) => Err(e),
                Ok(country) => Ok((country, p + 4)),
            },
        },
        Ok(_) => match text_at(bytes, p) {
            Err(e) => Err(e),
            Ok(country) => Ok((country, p + country.len() + 1)),
        },
    }
}

/// The country text of the record at `offset`, with the place from which its
/// area is reached.
pub open spec fn country_at(bytes: Seq<u8>, offset: int) -> Result<(Seq<u8>, int), Error> {
    match mode_at(bytes, offset + 4) {
        Err(e) => Err(e),
        Ok(Mode::RedirectMode1) => match pointer_at(bytes, offset + 5) {
            Err(e) => Err(e),
            Ok(p) => redirected_country_at(bytes, p as int),
        },
        Ok(Mode::RedirectMode2) => match pointer_at(bytes, offset + 5) {
            Err(e) => Err(e),
            Ok(p) => match text_at(bytes, p as int) {
                Err(e) => Err(e),
                Ok(country) => Ok((country, offset + 5 + country.len())),
            },
        },
        Ok(Mode::Other) => match text_at(bytes, offset + 4) {
            Err(e) => Err(e),
            Ok(country) => Ok((country, offset + 5 + country.len())),
        },
    }
}

/// The record at `offset` as it is stored.
pub open spec fn record_at(bytes: Seq<u8>, offset: int) -> Result<RawRecordView, Error> {
    match country_at(bytes, offset) {
        Err(e) => Err(e),
        Ok((country, origin)) => match area_at(bytes, origin) {
            Err(e) => Err(e),
            Ok(area) => match address_at(bytes, offset) {
                Err(e) => Err(e),
                Ok(ip) => Ok(RawRecordView { ip, country, area }),
            },
        },
    }
}

} // verus!
