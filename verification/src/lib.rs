//! Read-only lookup over the image of a packed geo-IP database.
//!
//! The image starts with a header of two file offsets that bound a table of
//! seven-byte index entries, sorted by address. Each entry points at a
//! record, whose country and area texts are found by following mode-tagged
//! redirects. Every function here works on the bytes of the image and states
//! in its contract which bytes it reads and what it returns for them.

pub mod codec;
pub mod db;
pub mod errors;
pub mod header;
pub mod index;
pub mod layout;
pub mod record;
pub mod text;

pub use crate::db::IPDB;
pub use crate::errors::{Error, ErrorKind};
pub use crate::header::Header;
pub use crate::layout::Mode;
pub use crate::record::{RawRecord, Record};
