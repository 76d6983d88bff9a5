//! The storage log: an append-only, length-prefixed binary encoding of
//! records, preceded by a fixed-size header that stores the format magic,
//! the version, the region offsets and the record count.
//!
//! The header's multi-byte integers are big-endian; the per-record length
//! prefix is a little-endian 64-bit word.  A scan stops cleanly at a
//! malformed trailing fragment (a torn write) instead of failing: a short
//! tail means "not yet durably complete", not corruption.
//!
//! The region offsets are measured from the fixed header size of 28 bytes
//! ([`HEADER_SIZE`]); the encoded preamble itself occupies 38 bytes
//! ([`HEADER_LEN`]), since the enumerated fields do not fit in 28.

use vstd::prelude::*;
use vstd::bytes::*;
use vstd::slice::{slice_subrange, slice_to_vec};
use crate::AlloyError;

verus! {

/// The fixed header size that the region offsets are measured from: a fresh
/// log's offsets all equal it, and every valid offset is at least it.
pub const HEADER_SIZE: usize = 28;

/// Number of bytes the encoded header preamble occupies: the 4-byte magic,
/// the 2-byte version, the three 8-byte offsets and the 8-byte record count.
pub const HEADER_LEN: usize = 38;

/// The format version this implementation writes and understands.
pub const CURRENT_VERSION: u16 = 1;

/// First magic byte, the letter A.
pub const MAGIC_0: u8 = 0x41;

/// Second magic byte, the letter D.
pub const MAGIC_1: u8 = 0x44;

/// Third magic byte, the letter B.
pub const MAGIC_2: u8 = 0x42;

/// Fourth magic byte, the letter F.
pub const MAGIC_3: u8 = 0x46;

/// The 4-byte magic value that opens every log file.
pub open spec fn spec_magic() -> Seq<u8> {
    seq![MAGIC_0, MAGIC_1, MAGIC_2, MAGIC_3]
}

// ---------------------------------------------------------------------------
// Big-endian byte order, defined as the reverse of vstd's little-endian one.
// ---------------------------------------------------------------------------

pub open spec fn spec_u16_to_be_bytes(x: u16) -> Seq<u8> {
    spec_u16_to_le_bytes(x).reverse()
}

pub open spec fn spec_u16_from_be_bytes(s: Seq<u8>) -> u16
    recommends
        s.len() == 2,
{
    spec_u16_from_le_bytes(s.reverse())
}

pub open spec fn spec_u64_to_be_bytes(x: u64) -> Seq<u8> {
    spec_u64_to_le_bytes(x).reverse()
}

pub open spec fn spec_u64_from_be_bytes(s: Seq<u8>) -> u64
    recommends
        s.len() == 8,
{
    spec_u64_from_le_bytes(s.reverse())
}

/// Copy a slice in reverse order.
fn reverse_bytes(b: &[u8]) -> (r: Vec<u8>)
    ensures
        r@ == b@.reverse(),
{
    let mut out: Vec<u8> = Vec::new();
    let mut i: usize = b.len();
    while i > 0
        invariant
            i <= b@.len(),
            out@.len() == b@.len() - i,
            forall|j: int| 0 <= j < out@.len() ==> out@[j] == b@[b@.len() - 1 - j],
        decreases i,
    {
        i = i - 1;
        let x: u8 = *slice_subrange(b, i, i + 1).first().unwrap();
        out.push(x);
    }
    proof {
        assert(out@ =~= b@.reverse());
    }
    out
}

fn u16_to_be_vec(x: u16) -> (r: Vec<u8>)
    ensures
        r@ == spec_u16_to_be_bytes(x),
        r@.len() == 2,
{
    proof {
        lemma_auto_spec_u16_to_from_le_bytes();
    }
    let le = u16_to_le_bytes(x);
    reverse_bytes(le.as_slice())
}

fn u64_to_be_vec(x: u64) -> (r: Vec<u8>)
    ensures
        r@ == spec_u64_to_be_bytes(x),
        r@.len() == 8,
{
    proof {
        lemma_auto_spec_u64_to_from_le_bytes();
    }
    let le = u64_to_le_bytes(x);
    reverse_bytes(le.as_slice())
}

fn u16_from_be_bytes(s: &[u8]) -> (x: u16)
    requires
        s@.len() == 2,
    ensures
        x == spec_u16_from_be_bytes(s@),
{
    let rev = reverse_bytes(s);
    u16_from_le_bytes(rev.as_slice())
}

fn u64_from_be_bytes(s: &[u8]) -> (x: u64)
    requires
        s@.len() == 8,
    ensures
        x == spec_u64_from_be_bytes(s@),
{
    let rev = reverse_bytes(s);
    u64_from_le_bytes(rev.as_slice())
}

proof fn lemma_be_round_trip_u16(x: u16)
    ensures
        spec_u16_to_be_bytes(x).len() == 2,
        spec_u16_from_be_bytes(spec_u16_to_be_bytes(x)) == x,
{
    lemma_auto_spec_u16_to_from_le_bytes();
    assert(spec_u16_to_le_bytes(x).reverse().reverse() =~= spec_u16_to_le_bytes(x));
}

proof fn lemma_be_round_trip_u64(x: u64)
    ensures
        spec_u64_to_be_bytes(x).len() == 8,
        spec_u64_from_be_bytes(spec_u64_to_be_bytes(x)) == x,
{
    lemma_auto_spec_u64_to_from_le_bytes();
    assert(spec_u64_to_le_bytes(x).reverse().reverse() =~= spec_u64_to_le_bytes(x));
}

// ---------------------------------------------------------------------------
// The header.
// ---------------------------------------------------------------------------

/// The fixed-size log header: magic, version, three region offsets, and
/// the committed record count.
#[derive(Debug, Clone, Copy, PartialEq, Eq, Structural)]
pub struct LogHeader {
    pub version: u16,
    pub metadata_offset: u64,
    pub index_offset: u64,
    pub vector_data_offset: u64,
    pub total_records: u64,
}

impl LogHeader {
    /// Offset monotonicity: the regions follow the header in order.
    pub open spec fn wf(self) -> bool {
        HEADER_SIZE <= self.metadata_offset <= self.index_offset <= self.vector_data_offset
    }

    /// A fresh header: every region starts right after the header, no
    /// records are committed yet.
    pub fn new() -> (r: LogHeader)
        ensures
            r.version == CURRENT_VERSION,
            r.metadata_offset == HEADER_SIZE,
            r.index_offset == HEADER_SIZE,
            r.vector_data_offset == HEADER_SIZE,
            r.total_records == 0,
            r.wf(),
    {
        LogHeader {
            version: CURRENT_VERSION,
            metadata_offset: HEADER_SIZE as u64,
            index_offset: HEADER_SIZE as u64,
            vector_data_offset: HEADER_SIZE as u64,
            total_records: 0,
        }
    }
}

/// Encoding of a header: magic, then the five big-endian fields.
pub open spec fn spec_ser_header(h: LogHeader) -> Seq<u8> {
    spec_magic() + spec_u16_to_be_bytes(h.version) + spec_u64_to_be_bytes(h.metadata_offset)
        + spec_u64_to_be_bytes(h.index_offset) + spec_u64_to_be_bytes(h.vector_data_offset)
        + spec_u64_to_be_bytes(h.total_records)
}

/// What decoding a header from the start of `b` yields: the magic must
/// match and the version must be one this implementation understands.
pub open spec fn spec_decode_header(b: Seq<u8>) -> Result<LogHeader, AlloyError> {
    if b.len() < HEADER_LEN {
        Err(AlloyError::CorruptFormat)
    } else if b.subrange(0, 4) != spec_magic() {
        Err(AlloyError::CorruptFormat)
    } else {
        let version = spec_u16_from_be_bytes(b.subrange(4, 6));
        if version > CURRENT_VERSION {
            Err(AlloyError::UnsupportedVersion)
        } else {
            Ok(
                LogHeader {
                    version,
                    metadata_offset: spec_u64_from_be_bytes(b.subrange(6, 14)),
                    index_offset: spec_u64_from_be_bytes(b.subrange(14, 22)),
                    vector_data_offset: spec_u64_from_be_bytes(b.subrange(22, 30)),
                    total_records: spec_u64_from_be_bytes(b.subrange(30, 38)),
                },
            )
        }
    }
}

impl LogHeader {
    /// Serialize this header into its fixed-size form.
    pub fn encode(&self) -> (r: Vec<u8>)
        ensures
            r@ == spec_ser_header(*self),
            r@.len() == HEADER_LEN,
    {
        let mut out: Vec<u8> = Vec::new();
        out.push(MAGIC_0);
        out.push(MAGIC_1);
        out.push(MAGIC_2);
        out.push(MAGIC_3);
        proof {
            assert(out@ =~= spec_magic());
        }
        let mut f = u16_to_be_vec(self.version);
        out.append(&mut f);
        let mut f = u64_to_be_vec(self.metadata_offset);
        out.append(&mut f);
        let mut f = u64_to_be_vec(self.index_offset);
        out.append(&mut f);
        let mut f = u64_to_be_vec(self.vector_data_offset);
        out.append(&mut f);
        let mut f = u64_to_be_vec(self.total_records);
        out.append(&mut f);
        proof {
            assert(out@ =~= spec_ser_header(*self));
        }
        out
    }

    /// Decode a header from the encoded preamble — the first
    /// [`HEADER_LEN`] (38) bytes of `b` — validating the magic value and
    /// the version field.
    pub fn decode(b: &[u8]) -> (r: Result<LogHeader, AlloyError>)
        ensures
            r == spec_decode_header(b@),
    {
        if b.len() < HEADER_LEN {
            return Err(AlloyError::CorruptFormat);
        }
        let m0 = *slice_subrange(b, 0, 1).first().unwrap();
        let m1 = *slice_subrange(b, 1, 2).first().unwrap();
        let m2 = *slice_subrange(b, 2, 3).first().unwrap();
        let m3 = *slice_subrange(b, 3, 4).first().unwrap();
        if m0 != MAGIC_0 || m1 != MAGIC_1 || m2 != MAGIC_2 || m3 != MAGIC_3 {
            proof {
                assert(b@.subrange(0, 4) != spec_magic());
            }
            return Err(AlloyError::CorruptFormat);
        }
        proof {
            assert(b@.subrange(0, 4) =~= spec_magic());
        }
        let version = u16_from_be_bytes(slice_subrange(b, 4, 6));
        if version > CURRENT_VERSION {
            return Err(AlloyError::UnsupportedVersion);
        }
        let metadata_offset = u64_from_be_bytes(slice_subrange(b, 6, 14));
        let index_offset = u64_from_be_bytes(slice_subrange(b, 14, 22));
        let vector_data_offset = u64_from_be_bytes(slice_subrange(b, 22, 30));
        let total_records = u64_from_be_bytes(slice_subrange(b, 30, 38));
        Ok(LogHeader { version, metadata_offset, index_offset, vector_data_offset, total_records })
    }
}

/// Round trip for headers: decoding an encoded header yields the header.
pub proof fn lemma_header_round_trip(h: LogHeader)
    requires
        h.version <= CURRENT_VERSION,
    ensures
        spec_decode_header(spec_ser_header(h)) == Ok::<LogHeader, AlloyError>(h),
{
    lemma_be_round_trip_u16(h.version);
    lemma_be_round_trip_u64(h.metadata_offset);
    lemma_be_round_trip_u64(h.index_offset);
    lemma_be_round_trip_u64(h.vector_data_offset);
    lemma_be_round_trip_u64(h.total_records);
    let b = spec_ser_header(h);
    assert(b.subrange(0, 4) =~= spec_magic());
    assert(b.subrange(4, 6) =~= spec_u16_to_be_bytes(h.version));
    assert(b.subrange(6, 14) =~= spec_u64_to_be_bytes(h.metadata_offset));
    assert(b.subrange(14, 22) =~= spec_u64_to_be_bytes(h.index_offset));
    assert(b.subrange(22, 30) =~= spec_u64_to_be_bytes(h.vector_data_offset));
    assert(b.subrange(30, 38) =~= spec_u64_to_be_bytes(h.total_records));
}

// ---------------------------------------------------------------------------
// Record framing and the log itself.
// ---------------------------------------------------------------------------

/// Framing of one record: an 8-byte little-endian length prefix, then
/// exactly that many payload bytes.
pub open spec fn spec_frame(p: Seq<u8>) -> Seq<u8>
    recommends
        p.len() <= u64::MAX,
{
    spec_u64_to_le_bytes(p.len() as u64) + p
}

/// The records a scan of the data region yields, in append order.  A
/// malformed trailing fragment (fewer than 8 bytes left, or fewer bytes than
/// the declared length) ends the sequence early.
pub open spec fn spec_scan(b: Seq<u8>) -> Seq<Seq<u8>>
    decreases b.len(),
{
    if b.len() < 8 {
        Seq::empty()
    } else {
        let n = spec_u64_from_le_bytes(b.take(8)) as int;
        if 8 + n <= b.len() {
            seq![b.subrange(8, 8 + n)] + spec_scan(b.skip(8 + n))
        } else {
            Seq::empty()
        }
    }
}

/// Scanning framed data yields the framed record and then whatever the rest
/// yields: appending a record never disturbs the records before it.
pub proof fn lemma_scan_frame(p: Seq<u8>, rest: Seq<u8>)
    requires
        p.len() <= u64::MAX,
    ensures
        spec_scan(spec_frame(p) + rest) == seq![p] + spec_scan(rest),
{
    lemma_auto_spec_u64_to_from_le_bytes();
    let b = spec_frame(p) + rest;
    assert(b.take(8) =~= spec_u64_to_le_bytes(p.len() as u64));
    assert(b.subrange(8, 8 + p.len() as int) =~= p);
    assert(b.skip(8 + p.len() as int) =~= rest);
}

/// A scan of fewer than 8 bytes yields nothing: a torn length prefix ends
/// the stream quietly.
pub proof fn lemma_scan_short_tail(b: Seq<u8>)
    requires
        b.len() < 8,
    ensures
        spec_scan(b) == Seq::<Seq<u8>>::empty(),
{
}

/// An in-memory image of a storage log: the header, and the framed record
/// data that follows it.  Callers that persist a log write
/// [`StorageLog::to_bytes`] to durable storage and reopen it with
/// [`StorageLog::open`].
#[derive(Debug, Clone)]
pub struct StorageLog {
    pub header: LogHeader,
    pub data: Vec<u8>,
}

impl StorageLog {
    /// The log is well formed: current version, ordered region offsets.
    pub open spec fn wf(self) -> bool {
        self.header.wf() && self.header.version == CURRENT_VERSION
    }

    /// A fresh, empty log: every region offset equals the fixed header size
    /// and no record is committed.
    pub fn create() -> (r: StorageLog)
        ensures
            r.header.version == CURRENT_VERSION,
            r.header.metadata_offset == HEADER_SIZE,
            r.header.index_offset == HEADER_SIZE,
            r.header.vector_data_offset == HEADER_SIZE,
            r.header.total_records == 0,
            r.data@ == Seq::<u8>::empty(),
            spec_scan_consumed(r.data@),
            r.wf(),
    {
        StorageLog { header: LogHeader::new(), data: Vec::new() }
    }

    /// Append one record: frame the payload with its little-endian length
    /// prefix and count it.  The records already present are untouched, so a
    /// later scan yields them first, then this one.
    pub fn append(&mut self, payload: &[u8]) -> (r: u64)
        requires
            old(self).header.total_records < u64::MAX,
        ensures
            final(self).data@ == old(self).data@ + spec_frame(payload@),
            final(self).header == (LogHeader {
                total_records: (old(self).header.total_records + 1) as u64,
                ..old(self).header
            }),
            r == old(self).header.total_records,
            spec_scan_consumed(old(self).data@) ==> spec_scan(final(self).data@) == spec_scan(
                old(self).data@,
            ).push(payload@) && spec_scan_consumed(final(self).data@),
    {
        let at = self.header.total_records;
        let mut frame = u64_to_le_bytes(payload.len() as u64);
        self.data.append(&mut frame);
        let mut body = slice_to_vec(payload);
        self.data.append(&mut body);
        self.header.total_records = at + 1;
        proof {
            assert(self.data@ =~= old(self).data@ + spec_frame(payload@));
            if spec_scan_consumed(old(self).data@) {
                lemma_scan_of_appended(old(self).data@, payload@);
            }
        }
        at
    }

    /// Scan the data region: the records in append order, stopping cleanly
    /// at a malformed trailing fragment.
    pub fn scan(&self) -> (r: Vec<Vec<u8>>)
        ensures
            r@.map_values(|v: Vec<u8>| v@) == spec_scan(self.data@),
    {
        scan_frames(self.data.as_slice())
    }

    /// The byte image of the whole log: the encoded header, then the data
    /// region.
    pub fn to_bytes(&self) -> (r: Vec<u8>)
        ensures
            r@ == spec_ser_header(self.header) + self.data@,
    {
        let mut out = self.header.encode();
        let mut body = slice_to_vec(self.data.as_slice());
        out.append(&mut body);
        out
    }

    /// Reopen a log from its byte image, validating the magic value and the
    /// version field.  A mismatched magic is `CorruptFormat`; a version this
    /// implementation does not understand is `UnsupportedVersion`.
    pub fn open(b: &[u8]) -> (r: Result<StorageLog, AlloyError>)
        ensures
            r matches Ok(log) ==> spec_decode_header(b@) == Ok::<LogHeader, AlloyError>(log.header)
                && log.data@ == b@.skip(HEADER_LEN as int),
            r matches Err(e) ==> spec_decode_header(b@) == Err::<LogHeader, AlloyError>(e),
    {
        let header = match LogHeader::decode(b) {
            Ok(h) => h,
            Err(e) => {
                return Err(e);
            },
        };
        let data = slice_to_vec(slice_subrange(b, HEADER_LEN, b.len()));
        proof {
            assert(b@.skip(HEADER_LEN as int) =~= b@.subrange(HEADER_LEN as int, b@.len() as int));
        }
        Ok(StorageLog { header, data })
    }
}

/// Whether a scan consumes every byte of `b`: the data ends on a record
/// boundary, with no torn tail.
pub open spec fn spec_scan_consumed(b: Seq<u8>) -> bool
    decreases b.len(),
{
    if b.len() == 0 {
        true
    } else if b.len() < 8 {
        false
    } else {
        let n = spec_u64_from_le_bytes(b.take(8)) as int;
        if 8 + n <= b.len() {
            spec_scan_consumed(b.skip(8 + n))
        } else {
            false
        }
    }
}

/// Appending a frame to data whose scan consumes every byte extends the
/// scan by exactly that one record, and the result is again fully consumed.
pub proof fn lemma_scan_of_appended(b: Seq<u8>, p: Seq<u8>)
    requires
        p.len() <= u64::MAX,
        spec_scan_consumed(b),
    ensures
        spec_scan(b + spec_frame(p)) == spec_scan(b).push(p),
        spec_scan_consumed(b + spec_frame(p)),
    decreases b.len(),
{
    if b.len() == 0 {
        assert(b + spec_frame(p) =~= spec_frame(p) + Seq::<u8>::empty());
        lemma_scan_frame(p, Seq::<u8>::empty());
        assert(seq![p] + spec_scan(Seq::<u8>::empty()) =~= Seq::<Seq<u8>>::empty().push(p));
        lemma_auto_spec_u64_to_from_le_bytes();
        let c = spec_frame(p) + Seq::<u8>::empty();
        assert(c.take(8) =~= spec_u64_to_le_bytes(p.len() as u64));
        assert(c.skip(8 + p.len() as int) =~= Seq::<u8>::empty());
        assert(spec_scan_consumed(Seq::<u8>::empty()));
        assert(spec_scan_consumed(c));
    } else {
        lemma_auto_spec_u64_to_from_le_bytes();
        let n = spec_u64_from_le_bytes(b.take(8)) as int;
        let c = b + spec_frame(p);
        assert(c.take(8) =~= b.take(8));
        assert(c.subrange(8, 8 + n) =~= b.subrange(8, 8 + n));
        assert(c.skip(8 + n) =~= b.skip(8 + n) + spec_frame(p));
        lemma_scan_of_appended(b.skip(8 + n), p);
        assert(seq![b.subrange(8, 8 + n)] + spec_scan(b.skip(8 + n)).push(p) =~= (seq![
            b.subrange(8, 8 + n),
        ] + spec_scan(b.skip(8 + n))).push(p));
        assert(spec_scan_consumed(c.skip(8 + n)));
        assert(spec_scan_consumed(c));
    }
}

/// Scan framed records out of a byte region, in order, stopping cleanly at
/// a malformed trailing fragment.
pub fn scan_frames(b: &[u8]) -> (r: Vec<Vec<u8>>)
    ensures
        r@.map_values(|v: Vec<u8>| v@) == spec_scan(b@),
{
    let mut acc: Vec<Vec<u8>> = Vec::new();
    let mut cur: &[u8] = b;
    proof {
        assert(acc@.map_values(|v: Vec<u8>| v@) =~= Seq::<Seq<u8>>::empty());
        if spec_scan(cur@) == spec_scan(b@) {
        }
        assert(Seq::<Seq<u8>>::empty() + spec_scan(cur@) =~= spec_scan(cur@));
    }
    loop
        invariant
            spec_scan(b@) == acc@.map_values(|v: Vec<u8>| v@) + spec_scan(cur@),
        decreases cur@.len(),
    {
        let ghost pre_acc = acc@.map_values(|v: Vec<u8>| v@);
        if cur.len() < 8 {
            proof {
                assert(pre_acc + spec_scan(cur@) =~= pre_acc);
            }
            return acc;
        }
        let n = u64_from_le_bytes(slice_subrange(cur, 0, 8));
        proof {
            assert(cur@.take(8) =~= cur@.subrange(0, 8));
        }
        if n > (cur.len() - 8) as u64 {
            proof {
                assert(pre_acc + spec_scan(cur@) =~= pre_acc);
            }
            return acc;
        }
        let nn = n as usize;
        let payload = slice_to_vec(slice_subrange(cur, 8, 8 + nn));
        let rest = slice_subrange(cur, 8 + nn, cur.len());
        proof {
            assert(cur@.skip(8 + nn as int) =~= cur@.subrange(8 + nn as int, cur@.len() as int));
        }
        let ghost pre_cur = cur@;
        acc.push(payload);
        cur = rest;
        proof {
            let av = acc@.map_values(|v: Vec<u8>| v@);
            assert(av =~= pre_acc.push(pre_cur.subrange(8, 8 + nn as int)));
            assert(pre_acc + (seq![pre_cur.subrange(8, 8 + nn as int)] + spec_scan(cur@)) =~= av
                + spec_scan(cur@));
        }
    }
}

} // verus!
