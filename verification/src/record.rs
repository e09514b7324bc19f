//! Records as callers get them: stored, with their texts still bytes, and
//! decoded.

use crate::errors::{result_view, Error, ErrorKind};
use crate::layout::{record_at, RawRecordView};
use crate::text::{decodable, decode_gbk, fits_decoder, gbk_decoded};
use vstd::prelude::*;

verus! {

/// A record with its texts decoded.
#[derive(Debug, PartialEq, Eq)]
pub struct Record {
    /// The address stored with the record, octet by octet.
    pub ip: [u8; 4],
    pub country: String,
    pub area: String,
}

/// What a `Record` holds.
pub struct RecordView {
    pub ip: [u8; 4],
    pub country: Seq<char>,
    pub area: Seq<char>,
}

impl View for Record {
    type V = RecordView;

    open spec fn view(&self) -> RecordView {
        RecordView { ip: self.ip, country: self.country@, area: self.area@ }
    }
}

impl Record {
    /// Puts an address and two decoded texts together.
    pub fn new(ip: [u8; 4], country: String, area: String) -> (record: Record)
        ensures
            record@ == (RecordView { ip, country: country@, area: area@ }),
    {
        Record { ip, country, area }
    }
}

/// A record as it is stored: the texts are still bytes.
#[derive(Debug, PartialEq, Eq)]
pub struct RawRecord {
    /// The address stored with the record, octet by octet.
    pub ip: [u8; 4],
    pub country: Vec<u8>,
    pub area: Vec<u8>,
}

impl View for RawRecord {
    type V = RawRecordView;

    open spec fn view(&self) -> RawRecordView {
        RawRecordView { ip: self.ip, country: self.country@, area: self.area@ }
    }
}

/// The record that a stored record decodes to. A text too long for the
/// decoder on this machine cannot be decoded, which counts as a failed read.
pub open spec fn decoded(raw: RawRecordView) -> Result<RecordView, Error> {
    if decodable(raw.country.len()) && decodable(raw.area.len()) {
        Ok(
            RecordView {
                ip: raw.ip,
                country: gbk_decoded(raw.country),
                area: gbk_decoded(raw.area),
            },
        )
    } else {
        Err(Error::io())
    }
}

/// The record at `offset`, decoded.
pub open spec fn content_at(bytes: Seq<u8>, offset: int) -> Result<RecordView, Error> {
    match record_at(bytes, offset) {
        Ok(raw) => decoded(raw),
        Err(e) => Err(e),
    }
}

impl RawRecord {
    /// Decodes the two texts, where neither is longer than the decoder
    /// takes.
    pub fn decode(&self) -> (r: Result<Record, Error>)
        ensures
            result_view(r) == decoded(self@),
    {
        if !fits_decoder(self.country.len()) || !fits_decoder(self.area.len()) {
            return Err(Error { kind: ErrorKind::Io, offset: 0 });
        }
        let country = decode_gbk(self.country.as_slice());
        let area = decode_gbk(self.area.as_slice());
        Ok(Record::new(self.ip, country, area))
    }
}

} // verus!
