//! Bytes after the last segment of a file.

use vstd::prelude::*;
use crate::file::{apply_objects, empty_index, spec_index, spec_walk, IndexModel};
use crate::header::{lead_in, spec_header_of, HEADER_SIZE};
use crate::header::SegmentHeader;
use crate::segment::{spec_segment, spec_segment_total_size, ObjectRawDataIndex};
use crate::successive::{lemma_index_walk, lemma_walk_stops};

verus! {

/// From `offset` on, the data is whole segments, one after the other, up to its
/// very end: each has a good lead-in, a size that its header gives (not left
/// open to the end of the file) and metadata that can be read.
pub open spec fn tiles(data: Seq<u8>, offset: nat, prev: Map<Seq<char>, ObjectRawDataIndex>) -> bool
    decreases data.len() - offset,
{
    if offset >= data.len() {
        offset == data.len()
    } else if data.len() - offset < HEADER_SIZE {
        false
    } else {
        let hb = data.subrange(offset as int, offset + HEADER_SIZE);
        let h = spec_header_of(hb);
        let start = offset + HEADER_SIZE;
        let end = start + h.raw_data_offset;
        if hb.subrange(0, 4) != lead_in() || end > data.len() || h.next_segment_offset == 0xFFFF_FFFF_FFFF_FFFFu64 {
            false
        } else {
            match spec_segment(data.subrange(start as int, end), 0, h.is_big_endian, h, offset as u64, data.len() as u64, prev) {
                Err(_) => false,
                Ok((seg, _, prev2)) => {
                    let size = seg.segment_total_size;
                    size != 0 && offset + size <= data.len() && tiles(data, (offset + size) as nat, prev2)
                },
            }
        }
    }
}

/// A segment whose size its header gives is read the same whatever the file's length.
proof fn lemma_segment_any_length(
    s: Seq<u8>,
    be: bool,
    h: SegmentHeader,
    header_offset: u64,
    t1: u64,
    t2: u64,
    prev: Map<Seq<char>, ObjectRawDataIndex>,
)
    requires
        h.next_segment_offset != 0xFFFF_FFFF_FFFF_FFFFu64,
    ensures
        spec_segment(s, 0, be, h, header_offset, t1, prev) == spec_segment(s, 0, be, h, header_offset, t2, prev),
{
    assert(spec_segment_total_size(h, header_offset, t1) == spec_segment_total_size(h, header_offset, t2));
}

/// Indexing the data followed by bytes that begin no segment, from a place
/// where whole segments run to the end of the data, goes as indexing the data.
#[verifier::spinoff_prover]
#[verifier::rlimit(60)]
proof fn lemma_walk_with_tail(
    s: Seq<u8>,
    tail: Seq<u8>,
    offset: nat,
    st: IndexModel,
    prev: Map<Seq<char>, ObjectRawDataIndex>,
)
    requires
        s.len() > 0,
        tiles(s, offset, prev),
        tail.len() < HEADER_SIZE || tail.subrange(0, 4) != lead_in(),
    ensures
        spec_walk(s + tail, offset, st, prev) == spec_walk(s, offset, st, prev),
    decreases s.len() - offset,
{
    let data = s + tail;
    if offset >= s.len() {
        assert(offset == s.len());
        if tail.len() >= HEADER_SIZE {
            assert(data.subrange(offset as int, offset + 4int) =~= tail.subrange(0, 4));
        }
        lemma_walk_stops(data, offset, st, prev);
    } else {
        let hb = s.subrange(offset as int, offset + HEADER_SIZE);
        assert(data.subrange(offset as int, offset + HEADER_SIZE) =~= hb);
        let h = spec_header_of(hb);
        let start = offset + HEADER_SIZE;
        let end = start + h.raw_data_offset;
        assert(data.subrange(start as int, end) =~= s.subrange(start as int, end));
        let sub = s.subrange(start as int, end);
        lemma_segment_any_length(sub, h.is_big_endian, h, offset as u64, data.len() as u64, s.len() as u64, prev);
        let r = spec_segment(sub, 0, h.is_big_endian, h, offset as u64, s.len() as u64, prev);
        let (seg, _, prev2) = r->Ok_0;
        let size = seg.segment_total_size;
        let next = (offset + size) as nat;
        let (p2, g2) = apply_objects(st.properties, st.groups, seg.objects);
        let st2 = IndexModel { properties: p2, groups: g2, segments: st.segments.push(seg) };
        lemma_walk_with_tail(s, tail, next, st2, prev2);
    }
}

/// Bytes after a file that are too few for a lead-in, or that begin with a bad
/// one, leave its index unchanged, where the file is whole segments up to its
/// end, each of a size that its header gives.
pub proof fn lemma_trailing_bytes_any(s: Seq<u8>, tail: Seq<u8>)
    requires
        s.len() > 0,
        tiles(s, 0, Map::empty()),
        tail.len() < HEADER_SIZE || tail.subrange(0, 4) != lead_in(),
    ensures
        spec_index(s + tail) == spec_index(s),
{
    lemma_walk_with_tail(s, tail, 0, empty_index(), Map::empty());
    lemma_index_walk(s + tail);
    lemma_index_walk(s);
}

} // verus!
