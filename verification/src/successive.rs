//! What is read back of written segments: two, one after the other, and one
//! followed by bytes that begin no segment.

use vstd::prelude::*;
use vstd::utf8::encode_utf8;
use crate::channel_data::{segment_values, segments_values};
use crate::error::TdmsError;
use crate::file::{apply_objects, empty_index, spec_index, spec_walk, IndexModel};
use crate::header::{lead_in, lemma_lead_in_roundtrip, spec_header_of, spec_lead_in_bytes, HEADER_SIZE};
use crate::model::apply_object;
use crate::property::PropertyValueModel;
use crate::readback::{
    lemma_channel_metadata_read, lemma_channel_path, lemma_group_path, lemma_root_path, lemma_written_contiguous,
    lemma_written_objects_apply, plain_name, values_of, written_groups, written_header, written_index,
    written_objects,
};
use crate::segment::{spec_segment, spec_segment_total_size, ObjectModel, ObjectRawDataIndex, SegmentModel};
use crate::types::DataType;
use crate::writer::{
    spec_channel_metadata, spec_channel_path, spec_group_path, spec_segment_bytes, WRITTEN_TOC, WRITTEN_VERSION,
};

verus! {

/// The index of a written one-channel segment that starts at `offset`.
pub open spec fn written_segment_at(g: Seq<char>, c: Seq<char>, d: DataType, count: u64, rlen: int, offset: int) -> SegmentModel {
    let mlen = spec_channel_metadata(g, c, d, count).len() as int;
    SegmentModel {
        header: written_header(mlen, rlen),
        header_offset: offset as u64,
        metadata_offset: (offset + HEADER_SIZE) as u64,
        raw_data_offset: (offset + HEADER_SIZE + mlen) as u64,
        segment_total_size: (HEADER_SIZE + mlen + rlen) as u64,
        objects: written_objects(g, c, d, count),
    }
}

/// `x + y`, or `u64::MAX` where that is larger.
pub open spec fn sat_add(x: u64, y: u64) -> u64 {
    if x + y <= u64::MAX { (x + y) as u64 } else { u64::MAX }
}

/// The requirements of a written segment: names a path holds unchanged, whole
/// values of a fixed-size type, paths whose byte counts fit.
pub open spec fn writable(g: Seq<char>, c: Seq<char>, d: DataType, raw: Seq<u8>, count: u64) -> bool {
    &&& plain_name(g)
    &&& plain_name(c)
    &&& d.spec_element_size() matches Some(n) && n > 0 && raw.len() == count * n
    &&& encode_utf8(spec_group_path(g)).len() <= u32::MAX
    &&& encode_utf8(spec_channel_path(g, c)).len() <= u32::MAX
}

/// Walking a file from a written segment at `offset` reads that segment.
#[verifier::spinoff_prover]
#[verifier::rlimit(60)]
proof fn lemma_walk_written(
    data: Seq<u8>,
    offset: int,
    g: Seq<char>,
    c: Seq<char>,
    d: DataType,
    raw: Seq<u8>,
    count: u64,
    st: IndexModel,
    prev: Map<Seq<char>, ObjectRawDataIndex>,
)
    requires
        writable(g, c, d, raw, count),
        0 <= offset,
        offset + spec_segment_bytes(spec_channel_metadata(g, c, d, count), raw).len() <= data.len(),
        data.len() <= usize::MAX,
        data.subrange(offset, offset + spec_segment_bytes(spec_channel_metadata(g, c, d, count), raw).len())
            == spec_segment_bytes(spec_channel_metadata(g, c, d, count), raw),
    ensures
        ({
            let w = spec_segment_bytes(spec_channel_metadata(g, c, d, count), raw);
            let seg = written_segment_at(g, c, d, count, raw.len() as int, offset);
            let r = apply_objects(st.properties, st.groups, written_objects(g, c, d, count));
            let st2 = IndexModel { properties: r.0, groups: r.1, segments: st.segments.push(seg) };
            spec_walk(data, offset as nat, st, prev)
                == spec_walk(data, (offset + w.len()) as nat, st2, prev.insert(spec_channel_path(g, c), written_index(d, count)))
        }),
{
    let meta = spec_channel_metadata(g, c, d, count);
    let mlen = meta.len() as int;
    let rlen = raw.len() as int;
    let w = spec_segment_bytes(meta, raw);
    let next = (mlen + rlen) as u64;
    let lead = spec_lead_in_bytes(WRITTEN_TOC, WRITTEN_VERSION, next, mlen as u64);
    assert(lead.len() == 28);
    assert(w =~= lead + meta + raw);
    let hb = data.subrange(offset, offset + HEADER_SIZE);
    assert(hb =~= w.subrange(0, 28));
    assert(hb =~= lead + Seq::<u8>::empty());
    assert((0x0eu32 & 0x40u32) == 0u32) by (bit_vector);
    assert((0x0eu32 & 0x02u32) != 0u32) by (bit_vector);
    lemma_lead_in_roundtrip(WRITTEN_TOC, WRITTEN_VERSION, next, mlen as u64, Seq::<u8>::empty());
    let h = written_header(mlen, rlen);
    assert(spec_header_of(hb) == h);
    assert(h.raw_data_offset == mlen);
    assert(!h.is_big_endian);
    assert(h.has_metadata);
    assert(data.subrange(offset + 28, offset + 28 + mlen) =~= meta) by {
        assert(data.subrange(offset + 28, offset + 28 + mlen) =~= w.subrange(28, 28 + mlen));
    }
    lemma_channel_metadata_read(g, c, d, count, prev);
    let prev2 = prev.insert(spec_channel_path(g, c), written_index(d, count));
    let seg = written_segment_at(g, c, d, count, rlen, offset);
    assert(spec_segment_total_size(h, offset as u64, data.len() as u64) == (HEADER_SIZE + mlen + rlen) as u64);
    assert(spec_segment(meta, 0, false, h, offset as u64, data.len() as u64, prev)
        == Ok::<(SegmentModel, int, Map<Seq<char>, ObjectRawDataIndex>), TdmsError>((seg, mlen, prev2)));
}

/// The objects of a second written segment for the same group and channel add
/// its value count to the channel.
#[verifier::spinoff_prover]
proof fn lemma_second_objects_apply(g: Seq<char>, c: Seq<char>, d: DataType, count1: u64, count2: u64)
    requires
        plain_name(g),
        plain_name(c),
    ensures
        apply_objects(Map::empty(), written_groups(g, c, d, count1), written_objects(g, c, d, count2))
            == (Map::<Seq<char>, PropertyValueModel>::empty(), written_groups(g, c, d, sat_add(count1, count2))),
{
    reveal(apply_object);
    let objs = written_objects(g, c, d, count2);
    lemma_root_path();
    lemma_group_path(g);
    lemma_channel_path(g, c);
    let e1: Map<Seq<char>, PropertyValueModel> = Map::empty();
    let gs = written_groups(g, c, d, count1);
    assert(objs.drop_last().drop_last().drop_last() =~= Seq::<ObjectModel>::empty());
    assert(apply_objects(e1, gs, objs.drop_last().drop_last().drop_last()) == (e1, gs));
    let r1 = apply_objects(e1, gs, objs.drop_last().drop_last());
    assert(objs.drop_last().drop_last().last() == objs[0]);
    assert(r1 == apply_object(e1, gs, objs[0]));
    assert(e1.union_prefer_right(e1) =~= e1);
    assert(r1 == (e1, gs));
    let r2 = apply_objects(e1, gs, objs.drop_last());
    assert(objs.drop_last().last() == objs[1]);
    assert(r2 == apply_object(r1.0, r1.1, objs[1]));
    assert(gs[g].properties.union_prefer_right(e1) =~= gs[g].properties);
    assert(r2.1 =~= gs);
    let r3 = apply_objects(e1, gs, objs);
    assert(r3 == apply_object(r2.0, r2.1, objs[2]));
    assert(gs[g].channels[c].properties.union_prefer_right(e1) =~= e1);
    assert(r3.1[g].channels =~= written_groups(g, c, d, sat_add(count1, count2))[g].channels);
    assert(r3.1 =~= written_groups(g, c, d, sat_add(count1, count2)));
}

/// Reading the channel from a written segment at `offset` gives its raw data, value by value.
#[verifier::spinoff_prover]
#[verifier::rlimit(60)]
proof fn lemma_segment_values_at(
    data: Seq<u8>,
    offset: int,
    g: Seq<char>,
    c: Seq<char>,
    d: DataType,
    raw: Seq<u8>,
    count: u64,
)
    requires
        writable(g, c, d, raw, count),
        0 <= offset,
        offset + spec_segment_bytes(spec_channel_metadata(g, c, d, count), raw).len() <= data.len(),
        data.len() <= usize::MAX,
        data.subrange(offset, offset + spec_segment_bytes(spec_channel_metadata(g, c, d, count), raw).len())
            == spec_segment_bytes(spec_channel_metadata(g, c, d, count), raw),
    ensures
        segment_values(written_segment_at(g, c, d, count, raw.len() as int, offset), data, g, c,
            d.spec_element_size()->0 as int)
            == Ok::<Seq<(Seq<u8>, bool)>, TdmsError>(values_of(raw, d.spec_element_size()->0 as int)),
{
    let e = d.spec_element_size()->0 as int;
    let meta = spec_channel_metadata(g, c, d, count);
    let mlen = meta.len() as int;
    let rlen = raw.len() as int;
    let w = spec_segment_bytes(meta, raw);
    let seg = written_segment_at(g, c, d, count, rlen, offset);
    assert((0x0eu32 & 0x08u32) != 0u32) by (bit_vector);
    assert((0x0eu32 & 0x20u32) == 0u32) by (bit_vector);
    assert((0x0eu32 & 0x40u32) == 0u32) by (bit_vector);
    assert(seg.header.has_raw_data);
    assert(!seg.header.is_interleaved);
    assert(!seg.header.is_big_endian);
    let start = offset + HEADER_SIZE + mlen;
    let end = offset + HEADER_SIZE + mlen + rlen;
    assert(crate::channel_data::raw_end(seg) == end);
    if rlen == 0 {
        assert(count == 0) by (nonlinear_arith)
            requires
                0 == count * e,
                e > 0,
        ;
        assert(values_of(raw, e) =~= Seq::<(Seq<u8>, bool)>::empty());
    } else {
        assert(w =~= spec_lead_in_bytes(WRITTEN_TOC, WRITTEN_VERSION, (mlen + rlen) as u64, mlen as u64) + meta + raw);
        assert(data.subrange(start, end) =~= w.subrange(HEADER_SIZE + mlen, HEADER_SIZE + mlen + rlen));
        assert(data.subrange(start, end) =~= raw);
        lemma_written_contiguous(g, c, d, raw, count, e);
    }
}

/// The state after the first of two written segments.
pub open spec fn first_state(g: Seq<char>, c: Seq<char>, d: DataType, raw1: Seq<u8>, count1: u64) -> IndexModel {
    IndexModel {
        properties: Map::empty(),
        groups: written_groups(g, c, d, count1),
        segments: seq![written_segment_at(g, c, d, count1, raw1.len() as int, 0)],
    }
}

#[verifier::spinoff_prover]
#[verifier::rlimit(60)]
proof fn lemma_walk_first(data: Seq<u8>, l1: int, g: Seq<char>, c: Seq<char>, d: DataType, raw1: Seq<u8>, count1: u64)
    requires
        writable(g, c, d, raw1, count1),
        l1 == spec_segment_bytes(spec_channel_metadata(g, c, d, count1), raw1).len(),
        l1 <= data.len(),
        data.len() <= usize::MAX,
        data.subrange(0, l1) == spec_segment_bytes(spec_channel_metadata(g, c, d, count1), raw1),
    ensures
        spec_walk(data, 0, empty_index(), Map::empty())
            == spec_walk(data, l1 as nat, first_state(g, c, d, raw1, count1),
                Map::<Seq<char>, ObjectRawDataIndex>::empty().insert(spec_channel_path(g, c), written_index(d, count1))),
{
    lemma_walk_written(data, 0, g, c, d, raw1, count1, empty_index(), Map::empty());
    lemma_written_objects_apply(g, c, d, count1);
    assert(empty_index().segments.push(written_segment_at(g, c, d, count1, raw1.len() as int, 0))
        =~= first_state(g, c, d, raw1, count1).segments);
}

#[verifier::spinoff_prover]
#[verifier::rlimit(60)]
proof fn lemma_walk_second(data: Seq<u8>, l1: int, g: Seq<char>, c: Seq<char>, d: DataType, raw1: Seq<u8>, count1: u64,
    raw2: Seq<u8>, count2: u64)
    requires
        writable(g, c, d, raw2, count2),
        0 <= l1,
        data.len() == l1 + spec_segment_bytes(spec_channel_metadata(g, c, d, count2), raw2).len(),
        data.len() <= usize::MAX,
        data.subrange(l1, data.len() as int) == spec_segment_bytes(spec_channel_metadata(g, c, d, count2), raw2),
        plain_name(g),
        plain_name(c),
    ensures
        spec_walk(data, l1 as nat, first_state(g, c, d, raw1, count1),
            Map::<Seq<char>, ObjectRawDataIndex>::empty().insert(spec_channel_path(g, c), written_index(d, count1)))
            == Ok::<IndexModel, TdmsError>(IndexModel {
                properties: Map::empty(),
                groups: written_groups(g, c, d, sat_add(count1, count2)),
                segments: first_state(g, c, d, raw1, count1).segments.push(
                    written_segment_at(g, c, d, count2, raw2.len() as int, l1)),
            }),
{
    let st1 = first_state(g, c, d, raw1, count1);
    let p1 = Map::<Seq<char>, ObjectRawDataIndex>::empty().insert(spec_channel_path(g, c), written_index(d, count1));
    lemma_walk_written(data, l1, g, c, d, raw2, count2, st1, p1);
    lemma_second_objects_apply(g, c, d, count1, count2);
    let seg2 = written_segment_at(g, c, d, count2, raw2.len() as int, l1);
    let st2 = IndexModel {
        properties: Map::empty(),
        groups: written_groups(g, c, d, sat_add(count1, count2)),
        segments: st1.segments.push(seg2),
    };
    let p2 = p1.insert(spec_channel_path(g, c), written_index(d, count2));
    assert(spec_walk(data, data.len(), st2, p2) == Ok::<IndexModel, TdmsError>(st2));
}

#[verifier::spinoff_prover]
#[verifier::rlimit(60)]
proof fn lemma_two_writes_index(data: Seq<u8>, l1: int, g: Seq<char>, c: Seq<char>, d: DataType, raw1: Seq<u8>,
    count1: u64, raw2: Seq<u8>, count2: u64)
    requires
        writable(g, c, d, raw1, count1),
        writable(g, c, d, raw2, count2),
        l1 == spec_segment_bytes(spec_channel_metadata(g, c, d, count1), raw1).len(),
        data.len() == l1 + spec_segment_bytes(spec_channel_metadata(g, c, d, count2), raw2).len(),
        data.len() <= usize::MAX,
        data.subrange(0, l1) == spec_segment_bytes(spec_channel_metadata(g, c, d, count1), raw1),
        data.subrange(l1, data.len() as int) == spec_segment_bytes(spec_channel_metadata(g, c, d, count2), raw2),
    ensures
        spec_index(data) == Ok::<IndexModel, TdmsError>(IndexModel {
            properties: Map::empty(),
            groups: written_groups(g, c, d, sat_add(count1, count2)),
            segments: first_state(g, c, d, raw1, count1).segments.push(
                written_segment_at(g, c, d, count2, raw2.len() as int, l1)),
        }),
{
    lemma_walk_first(data, l1, g, c, d, raw1, count1);
    lemma_walk_second(data, l1, g, c, d, raw1, count1, raw2, count2);
    lemma_index_walk(data);
}

/// The index of a file is the walk over its segments from the start.
pub(crate) proof fn lemma_index_walk(data: Seq<u8>)
    ensures
        spec_index(data) == spec_walk(data, 0, empty_index(), Map::empty()),
{
    reveal(spec_index);
}

/// The walk from the end of the segments read so far ends there where too few
/// bytes for a lead-in remain, or where they begin with a bad one.
pub(crate) proof fn lemma_walk_stops(data: Seq<u8>, offset: nat, st: IndexModel, prev: Map<Seq<char>, ObjectRawDataIndex>)
    requires
        0 < offset <= data.len(),
        data.len() - offset < HEADER_SIZE || data.subrange(offset as int, offset + 4int) != lead_in(),
    ensures
        spec_walk(data, offset, st, prev) == Ok::<IndexModel, TdmsError>(st),
{
    if data.len() - offset >= HEADER_SIZE {
        let hb = data.subrange(offset as int, offset + HEADER_SIZE);
        assert(hb.subrange(0, 4) =~= data.subrange(offset as int, offset + 4int));
    }
}

/// Bytes after a written segment that are too few for a lead-in, or that
/// begin with a bad one, leave the index of the file unchanged: it holds the
/// written segment alone.
#[verifier::spinoff_prover]
#[verifier::rlimit(60)]
pub proof fn lemma_trailing_bytes(g: Seq<char>, c: Seq<char>, d: DataType, raw: Seq<u8>, count: u64, tail: Seq<u8>)
    requires
        writable(g, c, d, raw, count),
        spec_segment_bytes(spec_channel_metadata(g, c, d, count), raw).len() + tail.len() <= usize::MAX,
        tail.len() < HEADER_SIZE || tail.subrange(0, 4) != lead_in(),
    ensures
        ({
            let w = spec_segment_bytes(spec_channel_metadata(g, c, d, count), raw);
            &&& spec_index(w + tail) == spec_index(w)
            &&& spec_index(w) == Ok::<IndexModel, TdmsError>(first_state(g, c, d, raw, count))
        }),
{
    let w = spec_segment_bytes(spec_channel_metadata(g, c, d, count), raw);
    let data = w + tail;
    let l1 = w.len() as int;
    let st1 = first_state(g, c, d, raw, count);
    let p1 = Map::<Seq<char>, ObjectRawDataIndex>::empty().insert(spec_channel_path(g, c), written_index(d, count));
    assert(w.len() >= HEADER_SIZE) by {
        let meta = spec_channel_metadata(g, c, d, count);
        let mlen = meta.len() as int;
        let lead = spec_lead_in_bytes(WRITTEN_TOC, WRITTEN_VERSION, (mlen + raw.len()) as u64, mlen as u64);
        assert(w =~= lead + meta + raw);
    }
    assert(data.subrange(0, l1) =~= w);
    assert(w.subrange(0, l1) =~= w);
    lemma_walk_first(data, l1, g, c, d, raw, count);
    lemma_walk_first(w, l1, g, c, d, raw, count);
    if tail.len() >= HEADER_SIZE {
        assert(data.subrange(l1, l1 + 4) =~= tail.subrange(0, 4));
    }
    lemma_walk_stops(data, l1 as nat, st1, p1);
    lemma_walk_stops(w, l1 as nat, st1, p1);
    lemma_index_walk(data);
    lemma_index_walk(w);
}

/// Two writes, one after the other: the bytes of two segments that
/// `channel_segment` writes for the same group and channel, with raw data of
/// whole values of the same fixed-size type, index as two segments; the file
/// has no properties, its only group holds only that channel, whose value
/// count is the sum of the two (saturating); and reading it gives the first
/// raw data, then the second, value by value.
#[verifier::spinoff_prover]
#[verifier::rlimit(60)]
pub proof fn lemma_two_writes(g: Seq<char>, c: Seq<char>, d: DataType, raw1: Seq<u8>, count1: u64, raw2: Seq<u8>, count2: u64)
    requires
        writable(g, c, d, raw1, count1),
        writable(g, c, d, raw2, count2),
        spec_segment_bytes(spec_channel_metadata(g, c, d, count1), raw1).len()
            + spec_segment_bytes(spec_channel_metadata(g, c, d, count2), raw2).len() <= usize::MAX,
    ensures
        ({
            let data = spec_segment_bytes(spec_channel_metadata(g, c, d, count1), raw1)
                + spec_segment_bytes(spec_channel_metadata(g, c, d, count2), raw2);
            let e = d.spec_element_size()->0 as int;
            &&& spec_index(data) is Ok
            &&& spec_index(data)->Ok_0.properties == Map::<Seq<char>, PropertyValueModel>::empty()
            &&& spec_index(data)->Ok_0.groups == written_groups(g, c, d, sat_add(count1, count2))
            &&& spec_index(data)->Ok_0.segments.len() == 2
            &&& segments_values(spec_index(data)->Ok_0.segments, data, g, c, e, 2)
                == Ok::<Seq<(Seq<u8>, bool)>, TdmsError>(values_of(raw1, e) + values_of(raw2, e))
        }),
{
    let w1 = spec_segment_bytes(spec_channel_metadata(g, c, d, count1), raw1);
    let w2 = spec_segment_bytes(spec_channel_metadata(g, c, d, count2), raw2);
    let data = w1 + w2;
    let e = d.spec_element_size()->0 as int;
    let l1 = w1.len() as int;
    assert(data.subrange(0, l1) =~= w1);
    assert(data.subrange(l1, l1 + w2.len()) =~= w2);
    assert(data.subrange(l1, data.len() as int) =~= w2);
    lemma_two_writes_index(data, l1, g, c, d, raw1, count1, raw2, count2);
    let segs = first_state(g, c, d, raw1, count1).segments.push(
        written_segment_at(g, c, d, count2, raw2.len() as int, l1));
    let seg1 = written_segment_at(g, c, d, count1, raw1.len() as int, 0);
    let seg2 = written_segment_at(g, c, d, count2, raw2.len() as int, l1);
    lemma_segment_values_at(data, 0, g, c, d, raw1, count1);
    lemma_segment_values_at(data, l1, g, c, d, raw2, count2);
    assert(segs[0] == seg1 && segs[1] == seg2);
    assert(segments_values(segs, data, g, c, e, 0) == Ok::<Seq<(Seq<u8>, bool)>, TdmsError>(Seq::empty()));
    assert(Seq::<(Seq<u8>, bool)>::empty() + values_of(raw1, e) =~= values_of(raw1, e));
    assert(segments_values(segs, data, g, c, e, 1) == Ok::<Seq<(Seq<u8>, bool)>, TdmsError>(values_of(raw1, e)));
}

} // verus!
