//! The failures that a lookup or a walk over the table can end in.

use vstd::prelude::*;

verus! {

/// What went wrong.
#[derive(Clone, Copy, Debug, PartialEq, Eq, Structural)]
pub enum ErrorKind {
    /// A read ran past the end of the image, or the source of the image
    /// could not be read.
    Io,
    /// The image is too short to hold a header.
    MalformedHeader,
    /// The search narrowed down to one entry without meeting the address.
    AddressNotFound,
    /// An area redirect holds the pointer zero.
    CorruptArea,
}

/// A failure, with the position of the offending pointer where the kind is
/// `CorruptArea`. For every other kind `offset` is zero.
#[derive(Clone, Copy, Debug, PartialEq, Eq, Structural)]
pub struct Error {
    pub kind: ErrorKind,
    pub offset: u64,
}

impl Error {
    /// A failed read.
    pub open spec fn io() -> Error {
        Error { kind: ErrorKind::Io, offset: 0 }
    }

    /// An image of fewer bytes than a header takes.
    pub open spec fn malformed_header() -> Error {
        Error { kind: ErrorKind::MalformedHeader, offset: 0 }
    }

    /// A search that ended without a match.
    pub open spec fn address_not_found() -> Error {
        Error { kind: ErrorKind::AddressNotFound, offset: 0 }
    }

    /// An area redirect whose pointer, stored at `offset`, is zero.
    pub open spec fn corrupt_area(offset: u64) -> Error {
        Error { kind: ErrorKind::CorruptArea, offset }
    }
}

/// What a result holds: the view of its value, or its error.
pub open spec fn result_view<T: View>(r: Result<T, Error>) -> Result<T::V, Error> {
    match r {
        Ok(value) => Ok(value@),
        Err(e) => Err(e),
    }
}

/// Any failure of `std::io` counts as a failed read.
impl From<std::io::Error> for Error {
    fn from(err: std::io::Error) -> (e: Error) {
        Error { kind: ErrorKind::Io, offset: 0 }
    }
}

impl vstd::std_specs::convert::FromSpecImpl<std::io::Error> for Error {
    open spec fn obeys_from_spec() -> bool {
        true
    }

    open spec fn from_spec(err: std::io::Error) -> Error {
        Error::io()
    }
}

} // verus!
