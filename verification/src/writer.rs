//! Building the bytes of a segment that holds one channel.

use vstd::prelude::*;
use vstd::string::StringExecFns;
use crate::endian::{le_bytes_u32, le_bytes_u64, push_bytes, push_u32_le, push_u64_le, set_u64_le_at};
use crate::header::{lead_in, spec_lead_in_bytes, HEADER_SIZE};
use crate::property::{spec_string_bytes, write_string};
use crate::types::DataType;
use crate::primitive::TdmsPrimitive;

verus! {

/// The table of contents of a written segment: metadata, a new object list and raw data.
pub const WRITTEN_TOC: u32 = 0x0e;

/// The format version that written segments declare.
pub const WRITTEN_VERSION: u32 = 4713;

/// An object without raw data: its path, the all-ones index word and its stored properties.
pub open spec fn spec_plain_object_bytes(path: Seq<char>, props: Seq<u8>) -> Seq<u8> {
    spec_string_bytes(path) + le_bytes_u32(0xFFFF_FFFF) + props
}

/// The raw data index of a one-dimensional channel of `count` values of type `d`.
pub open spec fn spec_index_bytes(d: DataType, count: u64) -> Seq<u8> {
    le_bytes_u32(16) + le_bytes_u32(d.spec_code()) + le_bytes_u32(1) + le_bytes_u64(count)
}

/// The path of a group: `/'group'`.
pub open spec fn spec_group_path(g: Seq<char>) -> Seq<char> {
    seq!['/', '\''] + g + seq!['\'']
}

/// The path of a channel: `/'group'/'channel'`.
pub open spec fn spec_channel_path(g: Seq<char>, c: Seq<char>) -> Seq<char> {
    seq!['/', '\''] + g + seq!['\'', '/', '\''] + c + seq!['\'']
}

/// The metadata of a one-channel segment: three objects (the root, the group and
/// the channel), none with properties.
pub open spec fn spec_channel_metadata(g: Seq<char>, c: Seq<char>, d: DataType, count: u64) -> Seq<u8> {
    le_bytes_u32(3)
        + spec_plain_object_bytes(seq!['/'], le_bytes_u32(0))
        + spec_plain_object_bytes(spec_group_path(g), le_bytes_u32(0))
        + spec_string_bytes(spec_channel_path(g, c)) + spec_index_bytes(d, count) + le_bytes_u32(0)
}

/// A whole segment: the lead-in, whose offsets give the segment's length and
/// where its raw data starts, then the metadata, then the raw data.
pub open spec fn spec_segment_bytes(meta: Seq<u8>, raw: Seq<u8>) -> Seq<u8> {
    spec_lead_in_bytes(WRITTEN_TOC, WRITTEN_VERSION, (meta.len() + raw.len()) as u64, meta.len() as u64) + meta + raw
}

/// Appends the metadata of a one-channel segment.
pub fn write_channel_metadata(buffer: &mut Vec<u8>, group_name: &str, channel_name: &str, data_type: DataType, value_count: u64)
    ensures
        final(buffer)@ == old(buffer)@ + spec_channel_metadata(group_name@, channel_name@, data_type, value_count),
{
    let ghost b0 = buffer@;
    // 3 Objects: "/", "/'Group'", "/'Group'/'Channel'"
    push_u32_le(buffer, 3);

    // Root "/"
    let root_path = "/";
    proof {
        reveal_strlit("/");
        assert(root_path@ =~= seq!['/']);
    }
    write_string(buffer, root_path);
    push_u32_le(buffer, 0xFFFF_FFFF);
    push_u32_le(buffer, 0);
    let ghost b1 = buffer@;
    assert(b1 =~= b0 + le_bytes_u32(3) + spec_plain_object_bytes(seq!['/'], le_bytes_u32(0)));

    // Group
    let mut group_path = String::from_str("/'");
    group_path.append(group_name);
    group_path.append("'");
    proof {
        reveal_strlit("/'");
        reveal_strlit("'");
        assert(group_path@ =~= spec_group_path(group_name@));
    }
    write_string(buffer, group_path.as_str());
    push_u32_le(buffer, 0xFFFF_FFFF);
    push_u32_le(buffer, 0);
    let ghost b2 = buffer@;
    assert(b2 =~= b1 + spec_plain_object_bytes(spec_group_path(group_name@), le_bytes_u32(0)));

    // Channel
    let mut chan_path = String::from_str("/'");
    chan_path.append(group_name);
    chan_path.append("'/'");
    chan_path.append(channel_name);
    chan_path.append("'");
    proof {
        reveal_strlit("'/'");
        assert(chan_path@ =~= spec_channel_path(group_name@, channel_name@));
    }
    write_string(buffer, chan_path.as_str());
    let ghost b3 = buffer@;
    push_u32_le(buffer, 16);
    push_u32_le(buffer, data_type.code());
    push_u32_le(buffer, 1);
    push_u64_le(buffer, value_count);
    assert(buffer@ =~= b3 + spec_index_bytes(data_type, value_count));
    push_u32_le(buffer, 0);
    assert(buffer@ =~= b0 + spec_channel_metadata(group_name@, channel_name@, data_type, value_count));
}

/// Finishes a segment started at the front of `buffer` with a lead-in whose
/// offsets are still to be filled: the metadata took the bytes from 28 up to
/// `raw_data_start`, the raw data the rest.
pub fn finish_segment(buffer: &mut Vec<u8>, raw_data_start: usize)
    requires
        HEADER_SIZE <= raw_data_start <= old(buffer)@.len(),
        old(buffer)@.subrange(0, 4) == lead_in(),
    ensures
        final(buffer)@ == old(buffer)@.subrange(0, 12)
            + le_bytes_u64((old(buffer)@.len() - HEADER_SIZE) as u64)
            + le_bytes_u64((raw_data_start - HEADER_SIZE) as u64)
            + old(buffer)@.subrange(HEADER_SIZE as int, old(buffer)@.len() as int),
{
    let total_size = buffer.len() as u64;
    let next_segment_offset = total_size - 28;
    let raw_data_offset = (raw_data_start - HEADER_SIZE) as u64;
    let ghost b0 = buffer@;
    set_u64_le_at(buffer, 12, next_segment_offset);
    set_u64_le_at(buffer, 20, raw_data_offset);
    assert(buffer@ =~= b0.subrange(0, 12) + le_bytes_u64(next_segment_offset) + le_bytes_u64(raw_data_offset)
        + b0.subrange(HEADER_SIZE as int, b0.len() as int));
}

/// The bytes of a segment that holds `group_name`, its channel `channel_name`
/// with `value_count` values of type `data_type`, and `raw` as the channel's
/// raw data.
pub fn channel_segment(group_name: &str, channel_name: &str, data_type: DataType, value_count: u64, raw: &[u8])
    -> (r: Vec<u8>)
    ensures
        r@ == spec_segment_bytes(spec_channel_metadata(group_name@, channel_name@, data_type, value_count), raw@),
{
    let mut buffer: Vec<u8> = Vec::new();

    // Lead-in Header (28 bytes)
    push_bytes(&mut buffer, &[0x54u8, 0x44u8, 0x53u8, 0x6du8]);
    push_u32_le(&mut buffer, WRITTEN_TOC);
    push_u32_le(&mut buffer, WRITTEN_VERSION);
    push_u64_le(&mut buffer, 0);
    push_u64_le(&mut buffer, 0);
    let ghost h = buffer@;
    assert(h.subrange(0, 4) =~= lead_in());
    assert(h.subrange(0, 12) =~= lead_in() + le_bytes_u32(WRITTEN_TOC) + le_bytes_u32(WRITTEN_VERSION));
    assert(h.len() == HEADER_SIZE);

    write_channel_metadata(&mut buffer, group_name, channel_name, data_type, value_count);
    let raw_data_start = buffer.len();
    push_bytes(&mut buffer, raw);
    let ghost meta = spec_channel_metadata(group_name@, channel_name@, data_type, value_count);
    assert(buffer@ =~= h + meta + raw@);
    assert(buffer@.subrange(0, 4) =~= lead_in());
    let ghost b = buffer@;
    finish_segment(&mut buffer, raw_data_start);
    proof {
        assert(b.subrange(0, 12) =~= h.subrange(0, 12));
        assert(b.subrange(HEADER_SIZE as int, b.len() as int) =~= meta + raw@);
        assert(buffer@ =~= spec_segment_bytes(meta, raw@));
    }
    buffer
}

/// The little-endian bytes of the values, one after the other.
pub open spec fn spec_encode_all<T: TdmsPrimitive>(vs: Seq<T>) -> Seq<u8>
    decreases vs.len(),
{
    if vs.len() == 0 { Seq::empty() } else { spec_encode_all(vs.drop_last()) + T::spec_encode(vs.last()) }
}

/// The values' stored bytes take the type's size each, one after the other.
pub proof fn lemma_encode_all<T: TdmsPrimitive>(vs: Seq<T>)
    ensures
        ({
            let e = T::spec_data_type().spec_element_size()->0 as int;
            &&& spec_encode_all(vs).len() == vs.len() * e
            &&& forall|i: int| 0 <= i < vs.len()
                ==> spec_encode_all(vs).subrange(i * e, i * e + e) == T::spec_encode(#[trigger] vs[i])
        }),
    decreases vs.len(),
{
    let e = T::spec_data_type().spec_element_size()->0 as int;
    if vs.len() > 0 {
        let v0 = vs.drop_last();
        lemma_encode_all(v0);
        T::lemma_encode_decode(vs.last());
        let a = spec_encode_all(v0);
        let b = T::spec_encode(vs.last());
        assert(spec_encode_all(vs) == a + b);
        assert(vs.len() * e == v0.len() * e + e) by (nonlinear_arith)
            requires
                vs.len() == v0.len() + 1,
        ;
        assert forall|i: int| 0 <= i < vs.len() implies spec_encode_all(vs).subrange(i * e, i * e + e)
            == T::spec_encode(#[trigger] vs[i]) by {
            if i < v0.len() {
                assert(i * e + e <= v0.len() * e) by (nonlinear_arith)
                    requires
                        0 <= i < v0.len(),
                        e >= 0,
                ;
                assert(0 <= i * e) by (nonlinear_arith)
                    requires
                        0 <= i,
                        e >= 0,
                ;
                assert(spec_encode_all(vs).subrange(i * e, i * e + e) =~= a.subrange(i * e, i * e + e));
                assert(vs[i] == v0[i]);
            } else {
                assert(i * e == v0.len() * e) by (nonlinear_arith)
                    requires
                        i == v0.len(),
                ;
                assert(spec_encode_all(vs).subrange(i * e, i * e + e) =~= b);
            }
        }
    } else {
        assert(vs.len() * e == 0) by (nonlinear_arith)
            requires
                vs.len() == 0,
        ;
    }
}

/// The little-endian bytes of the values, one after the other.
pub fn encode_values<T: TdmsPrimitive>(data: &[T]) -> (r: Vec<u8>)
    ensures
        r@ == spec_encode_all(data@),
{
    let mut raw: Vec<u8> = Vec::new();
    let mut i: usize = 0;
    assert(data@.take(0) =~= Seq::<T>::empty());
    while i < data.len()
        invariant
            i <= data@.len(),
            raw@ == spec_encode_all(data@.take(i as int)),
        decreases data@.len() - i,
    {
        data[i].push_le(&mut raw);
        proof {
            let t = data@.take(i + 1);
            assert(t.drop_last() =~= data@.take(i as int));
            assert(t.last() == data@[i as int]);
        }
        i = i + 1;
    }
    assert(data@.take(data@.len() as int) =~= data@);
    raw
}

/// The bytes of a segment that holds `group_name` and its channel
/// `channel_name` with the values `data`: as many values as `data` holds, of
/// their type, and their little-endian bytes as the raw data.
pub fn values_segment<T: TdmsPrimitive>(group_name: &str, channel_name: &str, data: &[T]) -> (r: Vec<u8>)
    ensures
        r@ == spec_segment_bytes(
            spec_channel_metadata(group_name@, channel_name@, T::spec_data_type(), data@.len() as u64),
            spec_encode_all(data@),
        ),
{
    let raw = encode_values(data);
    channel_segment(group_name, channel_name, T::data_type(), data.len() as u64, raw.as_slice())
}

} // verus!
