//! The index table and the search over it.
//!
//! The table is a run of seven-byte entries. The search probes the entry in
//! the middle of its bounds, answers only on an exact match of the address,
//! and otherwise moves one bound onto the probed entry.

use crate::codec::{le24_at, le32_at};
use crate::errors::Error;
use crate::header::{Header, INDEX_LEN};
use vstd::prelude::*;

verus! {

/// One entry of the index table.
pub struct IndexEntry {
    /// The packed address at which a range starts.
    pub address: u32,
    /// The offset of the record of that range.
    pub pointer: u32,
}

/// The entry stored at `at`, where all seven bytes of it lie in the image.
pub open spec fn entry_at(bytes: Seq<u8>, at: int) -> Option<IndexEntry> {
    if 0 <= at && at + INDEX_LEN <= bytes.len() {
        Some(IndexEntry { address: le32_at(bytes, at), pointer: le24_at(bytes, at + 4) })
    } else {
        None
    }
}

/// The offset halfway between two entries, rounded down to an entry.
pub open spec fn middle(start: int, end: int) -> int {
    start + ((end - start) / (INDEX_LEN as int) / 2) * (INDEX_LEN as int)
}

/// What the search between the entries numbered `lo` and `hi` of the table
/// at `base` answers for `target`: the pointer of the first probed entry
/// whose address is `target`. A probe outside the image is a failed read.
/// The search gives up once it has probed without a match between bounds
/// that are one entry apart, or that are the same entry, as in a table of
/// one entry.
pub open spec fn search(bytes: Seq<u8>, base: int, lo: int, hi: int, target: u32) -> Result<
    u64,
    Error,
>
    decreases hi - lo,
{
    let mid = lo + (hi - lo) / 2;
    match entry_at(bytes, base + mid * INDEX_LEN) {
        None => Err(Error::io()),
        Some(entry) => if entry.address == target {
            Ok(entry.pointer as u64)
        } else if hi - lo <= 1 {
            Err(Error::address_not_found())
        } else if target > entry.address {
            search(bytes, base, mid, hi, target)
        } else {
            search(bytes, base, lo, mid, target)
        },
    }
}

/// The number of entries that the search between `lo` and `hi` probes
/// before it answers.
pub open spec fn probes(bytes: Seq<u8>, base: int, lo: int, hi: int, target: u32) -> nat
    decreases hi - lo,
{
    let mid = lo + (hi - lo) / 2;
    match entry_at(bytes, base + mid * INDEX_LEN) {
        None => 1,
        Some(entry) => if entry.address == target || hi - lo <= 1 {
            1
        } else if target > entry.address {
            1 + probes(bytes, base, mid, hi, target)
        } else {
            1 + probes(bytes, base, lo, mid, target)
        },
    }
}

/// What a lookup of `target` in the whole table answers.
pub open spec fn lookup(bytes: Seq<u8>, header: Header, target: u32) -> Result<u64, Error> {
    search(bytes, header.start as int, 0, header.entry_count() - 1, target)
}

/// The entry numbered `i` of the table that starts at `base`.
pub open spec fn entry(bytes: Seq<u8>, base: int, i: int) -> IndexEntry {
    IndexEntry {
        address: le32_at(bytes, base + i * INDEX_LEN),
        pointer: le24_at(bytes, base + i * INDEX_LEN + 4),
    }
}

/// All entries of the table lie in the image.
pub open spec fn table_in_image(bytes: Seq<u8>, header: Header) -> bool {
    header.end + INDEX_LEN <= bytes.len()
}

/// The addresses of the table ascend.
pub open spec fn sorted(bytes: Seq<u8>, header: Header) -> bool {
    forall|i: int, j: int|
        0 <= i <= j < header.entry_count() ==> #[trigger] entry(
            bytes,
            header.start as int,
            i,
        ).address <= #[trigger] entry(bytes, header.start as int, j).address
}

/// Whether `address` falls in the range that entry `i` starts: it is not
/// below the address of the entry, and below that of the next entry where
/// there is one.
pub open spec fn in_range(bytes: Seq<u8>, header: Header, i: int, address: u32) -> bool {
    &&& 0 <= i < header.entry_count()
    &&& entry(bytes, header.start as int, i).address <= address
    &&& i + 1 < header.entry_count() ==> address < entry(bytes, header.start as int, i + 1).address
}

/// Whether entry `i` is one that a search between `lo` and `hi` can probe:
/// every entry but the one at `hi`, which is probed only where it is the
/// one at `lo` too.
pub open spec fn probed(lo: int, hi: int, i: int) -> bool {
    lo <= i && (i < hi || (i == lo && lo == hi))
}

/// Entry `i` of the table at `base` lies in the image and maps `address` to
/// `pointer`.
pub open spec fn maps(bytes: Seq<u8>, base: int, i: int, address: u32, pointer: u64) -> bool {
    entry_at(bytes, base + i * INDEX_LEN) == Some(entry(bytes, base, i)) && entry(
        bytes,
        base,
        i,
    ).address == address && entry(bytes, base, i).pointer == pointer
}

/// The least `k` with `n <= 2^k`.
pub open spec fn ceil_log2(n: nat) -> nat
    decreases n,
{
    if n <= 1 {
        0
    } else {
        1 + ceil_log2((n + 1) / 2)
    }
}

/// The rounded-up logarithm does not fall where its argument grows.
pub proof fn lemma_ceil_log2_ascends(a: nat, b: nat)
    requires
        a <= b,
    ensures
        ceil_log2(a) <= ceil_log2(b),
    decreases b,
{
    if a > 1 {
        lemma_ceil_log2_ascends((a + 1) / 2, (b + 1) / 2);
    }
}

/// A search answers with the pointer of an entry that it can probe and
/// whose address is the target.
pub proof fn lemma_search_answer(bytes: Seq<u8>, base: int, lo: int, hi: int, target: u32)
    requires
        0 <= lo <= hi,
    ensures
        search(bytes, base, lo, hi, target) matches Ok(pointer) ==> exists|i: int|
            probed(lo, hi, i) && #[trigger] maps(bytes, base, i, target, pointer),
    decreases hi - lo,
{
    let mid = lo + (hi - lo) / 2;
    if let Ok(pointer) = search(bytes, base, lo, hi, target) {
        let found = entry_at(bytes, base + mid * INDEX_LEN)->Some_0;
        if found.address == target {
            assert(probed(lo, hi, mid) && maps(bytes, base, mid, target, pointer));
        } else {
            let (l, h) = if target > found.address {
                (mid, hi)
            } else {
                (lo, mid)
            };
            lemma_search_answer(bytes, base, l, h, target);
            let i = choose|i: int| probed(l, h, i) && #[trigger] maps(bytes, base, i, target, pointer);
            assert(probed(lo, hi, i) && maps(bytes, base, i, target, pointer));
        }
    }
}

/// Where every entry lies in the image and none that the search can probe
/// holds the target, the search ends without a match.
pub proof fn lemma_search_misses(bytes: Seq<u8>, base: int, lo: int, hi: int, target: u32)
    requires
        0 <= lo <= hi,
        0 <= base,
        base + hi * INDEX_LEN + INDEX_LEN <= bytes.len(),
        forall|i: int| probed(lo, hi, i) ==> (#[trigger] entry(bytes, base, i)).address != target,
    ensures
        search(bytes, base, lo, hi, target) == Err::<u64, Error>(Error::address_not_found()),
    decreases hi - lo,
{
    let mid = lo + (hi - lo) / 2;
    assert(probed(lo, hi, mid));
    assert(entry_at(bytes, base + mid * INDEX_LEN) == Some(entry(bytes, base, mid)));
    if hi - lo > 1 {
        if target > entry(bytes, base, mid).address {
            assert forall|i: int| probed(mid, hi, i) implies (#[trigger] entry(
                bytes,
                base,
                i,
            )).address != target by {
                assert(probed(lo, hi, i));
            }
            lemma_search_misses(bytes, base, mid, hi, target);
        } else {
            assert forall|i: int| probed(lo, mid, i) implies (#[trigger] entry(
                bytes,
                base,
                i,
            )).address != target by {
                assert(probed(lo, hi, i));
            }
            lemma_search_misses(bytes, base, lo, mid, target);
        }
    }
}

/// Where every entry lies in the image and the addresses between `lo` and
/// `hi` ascend, the search finds a target that an entry it can probe holds.
pub proof fn lemma_search_finds(
    bytes: Seq<u8>,
    base: int,
    lo: int,
    hi: int,
    target: u32,
    at: int,
)
    requires
        0 <= lo <= hi,
        0 <= base,
        base + hi * INDEX_LEN + INDEX_LEN <= bytes.len(),
        forall|i: int, j: int|
            lo <= i <= j <= hi ==> (#[trigger] entry(bytes, base, i)).address <= (#[trigger] entry(
                bytes,
                base,
                j,
            )).address,
        probed(lo, hi, at),
        entry(bytes, base, at).address == target,
    ensures
        search(bytes, base, lo, hi, target) is Ok,
    decreases hi - lo,
{
    let mid = lo + (hi - lo) / 2;
    assert(entry_at(bytes, base + mid * INDEX_LEN) == Some(entry(bytes, base, mid)));
    let found = entry(bytes, base, mid);
    if found.address != target && hi - lo > 1 {
        if target > found.address {
            lemma_search_finds(bytes, base, mid, hi, target, at);
        } else {
            lemma_search_finds(bytes, base, lo, mid, target, at);
        }
    }
}

/// A search between two different entries probes at most one entry more
/// than the logarithm of their distance.
pub proof fn lemma_probes_between(bytes: Seq<u8>, base: int, lo: int, hi: int, target: u32)
    requires
        0 <= lo <= hi,
    ensures
        lo < hi ==> probes(bytes, base, lo, hi, target) <= ceil_log2((hi - lo) as nat) + 1,
        lo == hi ==> probes(bytes, base, lo, hi, target) == 1,
    decreases hi - lo,
{
    let mid = lo + (hi - lo) / 2;
    if hi - lo > 1 {
        lemma_probes_between(bytes, base, mid, hi, target);
        lemma_probes_between(bytes, base, lo, mid, target);
        lemma_ceil_log2_ascends((hi - mid) as nat, ((hi - lo + 1) / 2) as nat);
        lemma_ceil_log2_ascends((mid - lo) as nat, ((hi - lo + 1) / 2) as nat);
    }
}

/// A lookup in a well-formed table probes at most one entry more than the
/// logarithm of the number of entries, rounded up.
pub proof fn lemma_lookup_probes(bytes: Seq<u8>, header: Header, target: u32)
    requires
        header.wf(),
    ensures
        1 <= probes(bytes, header.start as int, 0, header.entry_count() - 1, target) <= ceil_log2(
            header.entry_count(),
        ) + 1,
{
    lemma_probes_between(bytes, header.start as int, 0, header.entry_count() - 1, target);
    lemma_ceil_log2_ascends((header.entry_count() - 1) as nat, header.entry_count());
}

/// A lookup answers only with the pointer of an entry of the table that
/// holds the target, and never with that of the last of several entries.
pub proof fn lemma_lookup_answer(bytes: Seq<u8>, header: Header, target: u32)
    requires
        header.wf(),
    ensures
        lookup(bytes, header, target) matches Ok(pointer) ==> exists|i: int|
            probed(0, header.entry_count() - 1, i) && #[trigger] maps(
                bytes,
                header.start as int,
                i,
                target,
                pointer,
            ),
{
    lemma_search_answer(bytes, header.start as int, 0, header.entry_count() - 1, target);
}

/// In a table that lies in the image, a lookup of an address that no entry
/// holds ends in `AddressNotFound`. So does one of an address that only the
/// last of several entries holds: the search never probes that entry.
pub proof fn lemma_lookup_misses(bytes: Seq<u8>, header: Header, target: u32)
    requires
        header.wf(),
        table_in_image(bytes, header),
        forall|i: int|
            probed(0, header.entry_count() - 1, i) ==> (#[trigger] entry(
                bytes,
                header.start as int,
                i,
            )).address != target,
    ensures
        lookup(bytes, header, target) == Err::<u64, Error>(Error::address_not_found()),
{
    lemma_search_misses(bytes, header.start as int, 0, header.entry_count() - 1, target);
}

/// In a sorted table that lies in the image, a lookup of an address below
/// the first entry or above the last ends in `AddressNotFound`.
pub proof fn lemma_lookup_outside_span(bytes: Seq<u8>, header: Header, target: u32)
    requires
        header.wf(),
        table_in_image(bytes, header),
        sorted(bytes, header),
        target < entry(bytes, header.start as int, 0).address || target > entry(
            bytes,
            header.start as int,
            header.entry_count() - 1,
        ).address,
    ensures
        lookup(bytes, header, target) == Err::<u64, Error>(Error::address_not_found()),
{
    let base = header.start as int;
    let last = header.entry_count() - 1;
    assert forall|i: int| probed(0, last, i) implies (#[trigger] entry(bytes, base, i)).address
        != target by {
        assert(entry(bytes, base, 0).address <= entry(bytes, base, i).address);
        assert(entry(bytes, base, i).address <= entry(bytes, base, last).address);
    }
    lemma_lookup_misses(bytes, header, target);
}

/// In a sorted table that lies in the image, a lookup of the address of an
/// entry other than the last of several finds an entry with that address:
/// the entry itself, where no other holds its address.
pub proof fn lemma_lookup_finds(bytes: Seq<u8>, header: Header, i: int)
    requires
        header.wf(),
        table_in_image(bytes, header),
        sorted(bytes, header),
        probed(0, header.entry_count() - 1, i),
    ensures
        lookup(bytes, header, entry(bytes, header.start as int, i).address) is Ok,
        (forall|j: int|
            0 <= j < header.entry_count() && j != i ==> (#[trigger] entry(
                bytes,
                header.start as int,
                j,
            )).address != entry(bytes, header.start as int, i).address) ==> lookup(
            bytes,
            header,
            entry(bytes, header.start as int, i).address,
        ) == Ok::<u64, Error>(entry(bytes, header.start as int, i).pointer as u64),
{
    let base = header.start as int;
    let target = entry(bytes, base, i).address;
    lemma_search_finds(bytes, base, 0, header.entry_count() - 1, target, i);
    lemma_lookup_answer(bytes, header, target);
    let pointer = lookup(bytes, header, target)->Ok_0;
    let j = choose|j: int|
        probed(0, header.entry_count() - 1, j) && #[trigger] maps(bytes, base, j, target, pointer);
    assert(entry(bytes, base, j).address == target);
}

/// The offset of the entry that a search between the entries at `start` and
/// `end` probes.
pub fn get_middle_offset(start: u64, end: u64) -> (mid: u64)
    requires
        start <= end,
    ensures
        mid == middle(start as int, end as int),
        start <= mid <= end,
{
    let count: u64 = (end - start) / INDEX_LEN;
    let records: u64 = count >> 1;
    assert(records == count / 2) by (bit_vector)
        requires
            records == count >> 1,
    ;
    start + records * INDEX_LEN
}

} // verus!
