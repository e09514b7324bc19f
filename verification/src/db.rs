//! The database: an image held in memory, its header, and the cursor of a
//! walk over the index table.

use crate::codec::{
    address_to_integer, array3u8tou32, convert_ipv4_to_u32, lemma_address_round_trip, read_u32_le,
};
use crate::errors::{result_view, Error, ErrorKind};
use crate::header::{Header, INDEX_LEN};
use crate::index::{
    entry, entry_at, get_middle_offset, in_range, lemma_lookup_answer, lookup, maps, probed,
    probes, search, sorted, table_in_image,
};
use crate::layout::{
    address_at, area_at, lemma_text_at, mode_at, pointer_at, record_at, text_at, text_end, Mode,
};
use crate::record::{content_at, RawRecord, Record, RecordView};
use vstd::prelude::*;
use vstd::slice::slice_subrange;

verus! {

/// What a database holds: the bytes of the image, the header decoded from
/// them, and the cursor of the walk (zero until the walk is started).
pub struct DatabaseView {
    pub bytes: Seq<u8>,
    pub header: Header,
    pub position: nat,
}

impl DatabaseView {
    /// The header is the one that the image starts with.
    pub open spec fn wf(&self) -> bool {
        Header::parse(self.bytes) == Ok::<Header, Error>(self.header)
    }

    /// What a lookup of `ip` answers: the record that the entry found for
    /// its packed form points at.
    pub open spec fn found(&self, ip: [u8; 4]) -> Result<RecordView, Error> {
        match lookup(self.bytes, self.header, address_to_integer(ip)) {
            Ok(offset) => content_at(self.bytes, offset as int),
            Err(e) => Err(e),
        }
    }

    /// The database with its walk started: a cursor that was never set
    /// goes to the first entry, any other stays.
    pub open spec fn started(&self) -> DatabaseView {
        DatabaseView {
            position: if self.position == 0 {
                self.header.start as nat
            } else {
                self.position
            },
            ..*self
        }
    }

    /// Whether the walk has entries left: the cursor is not one entry past
    /// the last.
    pub open spec fn has_next(&self) -> bool {
        self.position != self.header.end + INDEX_LEN
    }

    /// The database with its cursor moved past the bytes of the entry at
    /// the cursor that lie in the image: past the whole entry, or to the end
    /// of the image where that cuts the entry short; a cursor past the end
    /// stays.
    pub open spec fn advanced(&self) -> DatabaseView {
        DatabaseView {
            position: if self.position + INDEX_LEN <= self.bytes.len() {
                self.position + (INDEX_LEN as nat)
            } else if self.position <= self.bytes.len() {
                self.bytes.len()
            } else {
                self.position
            },
            ..*self
        }
    }

    /// The record of the entry at the cursor. An entry that is cut short by
    /// the end of the image is a failed read.
    pub open spec fn current(&self) -> Result<RecordView, Error> {
        match entry_at(self.bytes, self.position as int) {
            Some(entry) => content_at(self.bytes, entry.pointer as int),
            None => Err(Error::io()),
        }
    }

    /// The database after a walk was started and took `k` steps.
    pub open spec fn walked(&self, k: nat) -> DatabaseView
        decreases k,
    {
        if k == 0 {
            self.started()
        } else {
            self.walked((k - 1) as nat).advanced()
        }
    }
}

/// A geo-IP database opened for lookups.
#[derive(Debug)]
pub struct IPDB {
    data: Vec<u8>,
    header: Header,
    position: u64,
}

impl View for IPDB {
    type V = DatabaseView;

    closed spec fn view(&self) -> DatabaseView {
        DatabaseView { bytes: self.data@, header: self.header, position: self.position as nat }
    }
}

/// What `IPDB::new` makes of an image.
pub open spec fn opened(bytes: Seq<u8>) -> Result<DatabaseView, Error> {
    match Header::parse(bytes) {
        Ok(header) => Ok(DatabaseView { bytes, header, position: 0 }),
        Err(e) => Err(e),
    }
}

impl IPDB {
    #[verifier::type_invariant]
    spec fn well_formed(&self) -> bool {
        self@.wf()
    }

    /// Takes the image of a database and decodes its header. Every image
    /// of eight bytes or more is taken.
    pub fn new(data: Vec<u8>) -> (r: Result<IPDB, Error>)
        ensures
            result_view(r) == opened(data@),
    {
        match Header::decode(data.as_slice()) {
            Ok(header) => Ok(IPDB { data, header, position: 0 }),
            Err(e) => Err(e),
        }
    }

    /// The header of the image.
    pub fn header(&self) -> (h: Header)
        ensures
            h == self@.header,
            self@.wf(),
    {
        proof {
            use_type_invariant(self);
        }
        self.header
    }

    /// The cursor of the walk: the offset of the entry that `iter_next`
    /// reads, or zero where no walk was started.
    pub fn position(&self) -> (p: u64)
        ensures
            p == self@.position,
    {
        self.position
    }

    /// The `len` bytes of the image that start at `offset`.
    fn window(&self, offset: u64, len: usize) -> (r: Result<&[u8], Error>)
        ensures
            match r {
                Ok(bytes) => offset + len <= self@.bytes.len() && bytes@ == self@.bytes.subrange(
                    offset as int,
                    offset + len,
                ),
                Err(e) => offset + len > self@.bytes.len() && e == Error::io(),
            },
    {
        let total = self.data.len();
        if offset > total as u64 {
            return Err(Error { kind: ErrorKind::Io, offset: 0 });
        }
        let at = offset as usize;
        if len > total - at {
            return Err(Error { kind: ErrorKind::Io, offset: 0 });
        }
        Ok(slice_subrange(self.data.as_slice(), at, at + len))
    }

    /// Reads the address stored at `offset`.
    pub fn read_ip(&self, offset: u64) -> (r: Result<[u8; 4], Error>)
        ensures
            r == address_at(self@.bytes, offset as int),
    {
        let buf = self.window(offset, 4)?;
        let ip = [buf[0], buf[1], buf[2], buf[3]];
        assert(ip =~= address_at(self@.bytes, offset as int)->Ok_0);
        Ok(ip)
    }

    /// Reads the mode tag at `offset`.
    pub fn read_mode(&self, offset: u64) -> (r: Result<Mode, Error>)
        ensures
            r == mode_at(self@.bytes, offset as int),
    {
        let buf = self.window(offset, 1)?;
        Ok(Mode::from(buf[0]))
    }

    /// Reads the three-byte pointer at `offset`.
    pub fn read_u24(&self, offset: u64) -> (r: Result<u32, Error>)
        ensures
            r == pointer_at(self@.bytes, offset as int),
    {
        let buf = self.window(offset, 3)?;
        Ok(array3u8tou32(buf))
    }

    /// Reads the text at `offset`, up to the zero byte that ends it.
    pub fn read_string(&self, offset: u64) -> (r: Result<Vec<u8>, Error>)
        ensures
            result_view(r) == text_at(self@.bytes, offset as int),
    {
        let total = self.data.len();
        if offset >= total as u64 {
            return Err(Error { kind: ErrorKind::Io, offset: 0 });
        }
        let mut result: Vec<u8> = Vec::new();
        let mut at: usize = offset as usize;
        loop
            invariant
                total == self.data@.len(),
                offset <= at < total,
                result@ == self.data@.subrange(offset as int, at as int),
                text_end(self.data@, at as int) == text_end(self.data@, offset as int),
            decreases total - at,
        {
            let byte = self.data[at];
            if byte == 0 {
                return Ok(result);
            }
            result.push(byte);
            assert(result@ == self.data@.subrange(offset as int, at + 1));
            assert(text_end(self.data@, at as int) == text_end(self.data@, at + 1));
            at = at + 1;
            if at >= total {
                return Err(Error { kind: ErrorKind::Io, offset: 0 });
            }
        }
    }

    /// Reads the area text that is reached from `offset`.
    pub fn read_area(&self, offset: u64) -> (r: Result<Vec<u8>, Error>)
        ensures
            result_view(r) == area_at(self@.bytes, offset as int),
    {
        assert(self.data.len() == self@.bytes.len());
        match self.read_mode(offset)? {
            Mode::RedirectMode2 | Mode::RedirectMode1 => {
                let area_offset: u32 = self.read_u24(offset + 1)?;
                if area_offset == 0 {
                    Err(Error { kind: ErrorKind::CorruptArea, offset: offset + 1 })
                } else {
                    self.read_string(area_offset as u64)
                }
            },
            Mode::Other => self.read_string(offset),
        }
    }

    /// Reads the record at `offset` as it is stored: the country by the mode
    /// tag after the address, the area from where the country ends or was
    /// redirected, and the address itself.
    pub fn read_record(&self, offset: u64) -> (r: Result<RawRecord, Error>)
        ensures
            result_view(r) == record_at(self@.bytes, offset as int),
    {
        assert(self.data.len() == self@.bytes.len());
        let tag_at: u64 = match offset.checked_add(4) {
            Some(at) => at,
            None => {
                return Err(Error { kind: ErrorKind::Io, offset: 0 });
            },
        };
        let (country, origin): (Vec<u8>, u64) = match self.read_mode(tag_at)? {
            Mode::RedirectMode1 => {
                let country_offset: u64 = self.read_u24(offset + 5)? as u64;
                match self.read_mode(country_offset)? {
                    Mode::RedirectMode2 => {
                        let c: u64 = self.read_u24(country_offset + 1)? as u64;
                        let country = self.read_string(c)?;
                        (country, country_offset + 4)
                    },
                    _ => {
                        let country = self.read_string(country_offset)?;
                        proof {
                            lemma_text_at(self@.bytes, country_offset as int);
                        }
                        let country_len: u64 = country.len() as u64;
                        (country, country_offset + country_len + 1)
                    },
                }
            },
            Mode::RedirectMode2 => {
                let country_offset: u32 = self.read_u24(offset + 5)?;
                let country = self.read_string(country_offset as u64)?;
                match (offset + 5).checked_add(country.len() as u64) {
                    Some(origin) => (country, origin),
                    None => {
                        return Err(Error { kind: ErrorKind::Io, offset: 0 });
                    },
                }
            },
            Mode::Other => {
                let country = self.read_string(offset + 4)?;
                proof {
                    lemma_text_at(self@.bytes, offset + 4);
                }
                let country_len: u64 = country.len() as u64;
                (country, offset + 5 + country_len)
            },
        };
        let area = self.read_area(origin)?;
        let ip = self.read_ip(offset)?;
        Ok(RawRecord { ip, country, area })
    }

    /// Reads and decodes the record at `offset`.
    pub fn get_content(&self, offset: u64) -> (r: Result<Record, Error>)
        ensures
            result_view(r) == content_at(self@.bytes, offset as int),
    {
        self.read_record(offset)?.decode()
    }

    /// Searches the index table for the entry whose address is the packed
    /// form of `ip`, and returns the offset of its record. The offsets of
    /// the header have to bound a table, which `Header::is_well_formed`
    /// tells. The loop runs once for each probe that `probes` counts.
    pub fn search_index(&self, ip: [u8; 4]) -> (r: Result<u64, Error>)
        requires
            self@.header.wf(),
        ensures
            r == lookup(self@.bytes, self@.header, address_to_integer(ip)),
    {
        proof {
            use_type_invariant(self);
        }
        let ip_num: u32 = convert_ipv4_to_u32(ip);
        let (mut start, mut end): (u64, u64) = (self.header.start, self.header.end);
        let ghost base: int = self.header.start as int;
        let ghost all: nat = probes(
            self@.bytes,
            base,
            0,
            self.header.entry_count() - 1,
            ip_num,
        );
        // the entries between which the search stands, and the probes made
        let ghost mut lo: int = 0;
        let ghost mut hi: int = self.header.entry_count() - 1;
        let ghost mut made: nat = 0;
        loop
            invariant
                0 <= lo <= hi,
                ip_num == address_to_integer(ip),
                start == base + lo * INDEX_LEN,
                end == base + hi * INDEX_LEN,
                search(self@.bytes, base, lo, hi, ip_num) == lookup(
                    self@.bytes,
                    self@.header,
                    ip_num,
                ),
                made + probes(self@.bytes, base, lo, hi, ip_num) == all,
            decreases hi - lo,
        {
            let mid: u64 = get_middle_offset(start, end);
            let ghost m: int = lo + (hi - lo) / 2;
            assert(mid == base + m * INDEX_LEN);
            proof {
                made = made + 1;
            }
            let buf = match self.window(mid, INDEX_LEN as usize) {
                Ok(buf) => buf,
                Err(e) => {
                    assert(made == all);
                    return Err(e);
                },
            };
            let mid_ip: u32 = match read_u32_le(slice_subrange(buf, 0, 4)) {
                Ok(v) => v,
                Err(e) => {
                    return Err(Error::from(e));
                },
            };
            if ip_num == mid_ip {
                assert(made == all);
                return Ok(array3u8tou32(slice_subrange(buf, 4, 7)) as u64);
            }
            if end - start <= INDEX_LEN {
                assert(made == all);
                return Err(Error { kind: ErrorKind::AddressNotFound, offset: 0 });
            }
            if ip_num > mid_ip {
                start = mid;
                proof {
                    lo = m;
                }
            } else {
                end = mid;
                proof {
                    hi = m;
                }
            }
        }
    }

    /// Looks `ip` up: searches the index table for it and decodes the
    /// record that the entry found points at. The offsets of the header
    /// have to bound a table, which `Header::is_well_formed` tells.
    pub fn find(&self, ip: [u8; 4]) -> (r: Result<Record, Error>)
        requires
            self@.header.wf(),
        ensures
            result_view(r) == self@.found(ip),
    {
        let offset: u64 = self.search_index(ip)?;
        self.get_content(offset)
    }

    /// Starts the walk over the index table, or goes on with one that was
    /// started before.
    pub fn iter_init(&mut self) -> (r: Result<(), Error>)
        ensures
            r == Ok::<(), Error>(()),
            final(self)@ == old(self)@.started(),
    {
        proof {
            use_type_invariant(&*self);
        }
        if self.position == 0 {
            self.position = self.header.start;
        }
        Ok(())
    }

    /// Decodes the record of the entry at the cursor and moves the cursor
    /// past the entry, whether or not the record could be decoded.
    pub fn iter_next(&mut self) -> (r: Result<Record, Error>)
        ensures
            final(self)@ == old(self)@.advanced(),
            result_view(r) == old(self)@.current(),
    {
        proof {
            use_type_invariant(&*self);
        }
        let total: u64 = self.data.len() as u64;
        let at: u64 = self.position;
        let n: u64 = if at >= total {
            0
        } else if total - at < INDEX_LEN {
            total - at
        } else {
            INDEX_LEN
        };
        self.position = at + n;
        let buf = self.window(at, INDEX_LEN as usize)?;
        self.get_content(array3u8tou32(slice_subrange(buf, 4, 7)) as u64)
    }

    /// Whether the walk has entries left.
    pub fn iter_has_next(&self) -> (b: bool)
        ensures
            b == self@.has_next(),
    {
        proof {
            use_type_invariant(self);
        }
        self.position != self.header.end + INDEX_LEN
    }
}

/// A walk over a table that lies in the image visits the entries in their
/// order, one at each step, and has entries left until it has taken as many
/// steps as the table has entries.
pub proof fn lemma_walk_visits_every_entry(db: DatabaseView, k: nat)
    requires
        db.header.wf(),
        table_in_image(db.bytes, db.header),
        db.position == 0,
        k <= db.header.entry_count(),
    ensures
        db.walked(k).bytes == db.bytes,
        db.walked(k).header == db.header,
        db.walked(k).position == db.header.start + k * INDEX_LEN,
        db.walked(k).has_next() <==> k < db.header.entry_count(),
        k < db.header.entry_count() ==> db.walked(k).current() == content_at(
            db.bytes,
            entry(db.bytes, db.header.start as int, k as int).pointer as int,
        ),
    decreases k,
{
    if k > 0 {
        lemma_walk_visits_every_entry(db, (k - 1) as nat);
    }
}

/// Two different addresses that a lookup resolves and that fall in the same
/// range of a sorted table get the same country.
pub proof fn lemma_range_uniformity(db: DatabaseView, ip1: [u8; 4], ip2: [u8; 4], i: int)
    requires
        db.header.wf(),
        sorted(db.bytes, db.header),
        ip1 != ip2,
        db.found(ip1) is Ok,
        db.found(ip2) is Ok,
    ensures
        in_range(db.bytes, db.header, i, address_to_integer(ip1)) && in_range(
            db.bytes,
            db.header,
            i,
            address_to_integer(ip2),
        ) ==> db.found(ip1)->Ok_0.country == db.found(ip2)->Ok_0.country,
{
    if in_range(db.bytes, db.header, i, address_to_integer(ip1)) && in_range(
        db.bytes,
        db.header,
        i,
        address_to_integer(ip2),
    ) {
        lemma_resolved_address_starts_range(db, ip1, i);
        lemma_resolved_address_starts_range(db, ip2, i);
        lemma_address_round_trip(ip1);
        lemma_address_round_trip(ip2);
    }
}

/// Two addresses whose lookups answer with the same record offset get the
/// same record.
pub proof fn lemma_same_offset_same_record(db: DatabaseView, ip1: [u8; 4], ip2: [u8; 4])
    requires
        lookup(db.bytes, db.header, address_to_integer(ip1)) is Ok,
        lookup(db.bytes, db.header, address_to_integer(ip1)) == lookup(
            db.bytes,
            db.header,
            address_to_integer(ip2),
        ),
    ensures
        db.found(ip1) == db.found(ip2),
{
}

/// In a sorted table, an address that a lookup resolves is the address of
/// the entry in whose range it falls.
pub proof fn lemma_resolved_address_starts_range(db: DatabaseView, ip: [u8; 4], i: int)
    requires
        db.header.wf(),
        sorted(db.bytes, db.header),
        db.found(ip) is Ok,
        in_range(db.bytes, db.header, i, address_to_integer(ip)),
    ensures
        entry(db.bytes, db.header.start as int, i).address == address_to_integer(ip),
{
    let target = address_to_integer(ip);
    let base = db.header.start as int;
    lemma_lookup_answer(db.bytes, db.header, target);
    let pointer = lookup(db.bytes, db.header, target)->Ok_0;
    let j = choose|j: int|
        probed(0, db.header.entry_count() - 1, j) && #[trigger] maps(
            db.bytes,
            base,
            j,
            target,
            pointer,
        );
    assert(entry(db.bytes, base, j).address == target);
    if j > i {
        assert(entry(db.bytes, base, i + 1).address <= entry(db.bytes, base, j).address);
    } else {
        assert(entry(db.bytes, base, j).address <= entry(db.bytes, base, i).address);
    }
}

} // verus!
