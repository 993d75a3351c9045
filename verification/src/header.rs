//! The 28-byte lead-in that starts every segment.

use vstd::prelude::*;
use crate::endian::{
    le_bytes_u32, le_bytes_u64, le_u32_at, lemma_le_u32_roundtrip, lemma_le_u64_roundtrip, read_u32_at,
    read_u64_at, u64_at,
};
use crate::error::TdmsError;

verus! {

/// Size in bytes of a segment's lead-in.
pub const HEADER_SIZE: usize = 28;

/// The four bytes `TDSm` that open every segment.
pub const TDMS_LEAD_IN: [u8; 4] = [0x54, 0x44, 0x53, 0x6d];

/// The bytes of `TDMS_LEAD_IN`.
pub open spec fn lead_in() -> Seq<u8> {
    seq![0x54u8, 0x44u8, 0x53u8, 0x6du8]
}

#[derive(Debug, Clone, Copy, PartialEq, Eq, Structural)]
pub struct SegmentHeader {
    pub toc_flags: u32,
    pub version: u32,
    pub next_segment_offset: u64,
    pub raw_data_offset: u64,
    pub has_metadata: bool,
    pub has_raw_data: bool,
    pub has_daqmx: bool,
    pub is_interleaved: bool,
    pub is_big_endian: bool,
    pub is_new_object_list: bool,
}

/// The header that a lead-in with these stored values describes: the flags are
/// bits 1, 2, 3, 5, 6 and 7 of the table of contents.
pub open spec fn spec_header(toc: u32, version: u32, next: u64, raw: u64) -> SegmentHeader {
    SegmentHeader {
        toc_flags: toc,
        version: version,
        next_segment_offset: next,
        raw_data_offset: raw,
        has_metadata: toc & 0x02 != 0,
        is_new_object_list: toc & 0x04 != 0,
        has_raw_data: toc & 0x08 != 0,
        is_interleaved: toc & 0x20 != 0,
        is_big_endian: toc & 0x40 != 0,
        has_daqmx: toc & 0x80 != 0,
    }
}

/// The header stored in `b`: the table of contents and the version are always
/// little-endian, the two offsets are in the byte order that bit 6 of the table
/// of contents selects.
pub open spec fn spec_header_of(b: Seq<u8>) -> SegmentHeader {
    let toc = le_u32_at(b, 4);
    let be = toc & 0x40 != 0;
    spec_header(toc, le_u32_at(b, 8), u64_at(b, 12, be), u64_at(b, 20, be))
}

/// The lead-in of a little-endian segment with these values.
pub open spec fn spec_lead_in_bytes(toc: u32, version: u32, next: u64, raw: u64) -> Seq<u8> {
    lead_in() + le_bytes_u32(toc) + le_bytes_u32(version) + le_bytes_u64(next) + le_bytes_u64(raw)
}

impl SegmentHeader {
    /// Reads a lead-in. It fails exactly when the first four bytes are not `TDSm`,
    /// and then reports those four bytes.
    pub fn parse(bytes: &[u8; HEADER_SIZE]) -> (r: Result<Self, TdmsError>)
        ensures
            r is Ok <==> bytes@.subrange(0, 4) == lead_in(),
            r matches Ok(h) ==> h == spec_header_of(bytes@),
            r matches Err(e) ==> (e matches TdmsError::InvalidLeadIn(a) && a@ == bytes@.subrange(0, 4)),
    {
        let b = bytes.as_slice();
        if !(b[0] == 0x54 && b[1] == 0x44 && b[2] == 0x53 && b[3] == 0x6d) {
            let lead: [u8; 4] = [b[0], b[1], b[2], b[3]];
            proof {
                if bytes@.subrange(0, 4) == lead_in() {
                    assert(bytes@.subrange(0, 4)[0] == bytes@[0]);
                    assert(bytes@.subrange(0, 4)[1] == bytes@[1]);
                    assert(bytes@.subrange(0, 4)[2] == bytes@[2]);
                    assert(bytes@.subrange(0, 4)[3] == bytes@[3]);
                }
                assert(lead@ =~= bytes@.subrange(0, 4));
            }
            return Err(TdmsError::InvalidLeadIn(lead));
        }
        assert(bytes@.subrange(0, 4) =~= lead_in());

        let toc_flags = read_u32_at(b, 4, false);
        let version = read_u32_at(b, 8, false);

        let is_big_endian = (toc_flags & 0x40) != 0;

        let next_segment_offset = read_u64_at(b, 12, is_big_endian);
        let raw_data_offset = read_u64_at(b, 20, is_big_endian);

        Ok(Self {
            toc_flags,
            version,
            next_segment_offset,
            raw_data_offset,
            has_metadata: (toc_flags & 0x02) != 0,
            is_new_object_list: (toc_flags & 0x04) != 0,
            has_raw_data: (toc_flags & 0x08) != 0,
            is_interleaved: (toc_flags & 0x20) != 0,
            is_big_endian,
            has_daqmx: (toc_flags & 0x80) != 0,
        })
    }
}

/// What a written lead-in is read back as: the lead-in of a segment whose table of
/// contents leaves bit 6 clear (little-endian) is read as the header with exactly
/// the values it was written from.
pub proof fn lemma_lead_in_roundtrip(toc: u32, version: u32, next: u64, raw: u64, rest: Seq<u8>)
    requires
        toc & 0x40 == 0,
    ensures
        ({
            let b = spec_lead_in_bytes(toc, version, next, raw) + rest;
            &&& b.subrange(0, 4) == lead_in()
            &&& spec_header_of(b) == spec_header(toc, version, next, raw)
        }),
{
    let b = spec_lead_in_bytes(toc, version, next, raw) + rest;
    assert(b.subrange(0, 4) =~= lead_in());
    lemma_le_u32_roundtrip(lead_in(), toc,
        le_bytes_u32(version) + le_bytes_u64(next) + le_bytes_u64(raw) + rest);
    assert(b =~= lead_in() + le_bytes_u32(toc)
        + (le_bytes_u32(version) + le_bytes_u64(next) + le_bytes_u64(raw) + rest));
    lemma_le_u32_roundtrip(lead_in() + le_bytes_u32(toc), version,
        le_bytes_u64(next) + le_bytes_u64(raw) + rest);
    assert(b =~= lead_in() + le_bytes_u32(toc) + le_bytes_u32(version)
        + (le_bytes_u64(next) + le_bytes_u64(raw) + rest));
    lemma_le_u64_roundtrip(lead_in() + le_bytes_u32(toc) + le_bytes_u32(version), next,
        le_bytes_u64(raw) + rest);
    assert(b =~= lead_in() + le_bytes_u32(toc) + le_bytes_u32(version) + le_bytes_u64(next)
        + (le_bytes_u64(raw) + rest));
    lemma_le_u64_roundtrip(lead_in() + le_bytes_u32(toc) + le_bytes_u32(version)
        + le_bytes_u64(next), raw, rest);
    assert(b =~= lead_in() + le_bytes_u32(toc) + le_bytes_u32(version) + le_bytes_u64(next)
        + le_bytes_u64(raw) + rest);
}

} // verus!
