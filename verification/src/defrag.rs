//! Consolidating a file into one segment.

use vstd::prelude::*;
use crate::channel_data::{all_sized, raw_values_view, segments_values, RawValue};
use crate::endian::{
    le_bytes_u16, le_bytes_u32, le_bytes_u64, push_bytes, push_u16_le, push_u32_le, push_u64_le, read_u16_at,
    read_u32_at, read_u64_at, u16_at, u32_at, u64_at,
};
use crate::file::{segments_view, TdmsFile};
use crate::header::{lead_in, HEADER_SIZE};
use crate::model::{TdmsChannel, TdmsGroup};
use crate::namemap::PropertyMap;
use crate::property::{
    lemma_property_value_roundtrip, lemma_string_roundtrip, spec_property_value_bytes, spec_string_bytes,
    value_fits, write_property_value, write_string, PropertyValueModel,
};
use crate::reader::spec_u32;
use crate::segment::spec_properties;
use crate::endian::{be_u64_at, le_u16_at, le_u32_at, le_u64_at, lemma_le_u16_roundtrip, lemma_le_u32_roundtrip, lemma_le_u64_roundtrip};
use vstd::utf8::encode_utf8;
use crate::types::DataType;
use crate::writer::{finish_segment, spec_index_bytes, WRITTEN_TOC, WRITTEN_VERSION};
use crate::readback::written_index;
use crate::segment::ObjectRawDataIndex;
use crate::strings::{join_strings, joined_strings, segments_blocks};

verus! {

/// The stored properties in order, each its name and its value.
pub open spec fn spec_property_list(es: Seq<(Seq<char>, PropertyValueModel)>) -> Seq<u8>
    decreases es.len(),
{
    if es.len() == 0 {
        Seq::empty()
    } else {
        spec_property_list(es.drop_last()) + spec_string_bytes(es.last().0) + spec_property_value_bytes(es.last().1)
    }
}

/// A stored property map: the number of properties (cut to 32 bits), then the properties.
pub open spec fn spec_properties_bytes(es: Seq<(Seq<char>, PropertyValueModel)>) -> Seq<u8> {
    le_bytes_u32(es.len() as u32) + spec_property_list(es)
}

/// Appends the stored form of a property map, in the map's order.
pub fn write_properties(buffer: &mut Vec<u8>, props: &PropertyMap)
    ensures
        final(buffer)@ == old(buffer)@ + spec_properties_bytes(props.entries()),
{
    push_u32_le(buffer, props.len() as u32);
    let ghost b0 = buffer@;
    let mut i: usize = 0;
    assert(props.entries().take(0) =~= Seq::<(Seq<char>, PropertyValueModel)>::empty());
    while i < props.len()
        invariant
            i <= props.entries().len(),
            buffer@ == b0 + spec_property_list(props.entries().take(i as int)),
        decreases props.entries().len() - i,
    {
        write_string(buffer, props.key_at(i).as_str());
        write_property_value(buffer, props.value_at(i));
        proof {
            let t = props.entries().take(i + 1);
            assert(t.drop_last() =~= props.entries().take(i as int));
        }
        i = i + 1;
    }
    assert(props.entries().take(props.entries().len() as int) =~= props.entries());
}

/// Every name and value of a property list can be stored: names fit a `u32` byte count.
pub open spec fn properties_fit(es: Seq<(Seq<char>, PropertyValueModel)>) -> bool {
    forall|i: int| 0 <= i < es.len() ==> encode_utf8((#[trigger] es[i]).0).len() <= u32::MAX && value_fits(es[i].1)
}

/// A written property list is read back as itself: reading as many properties as
/// were written, from where they start, gives them in order and stops at their end.
#[verifier::spinoff_prover]
#[verifier::rlimit(60)]
pub proof fn lemma_property_list_roundtrip(pre: Seq<u8>, es: Seq<(Seq<char>, PropertyValueModel)>, post: Seq<u8>)
    requires
        properties_fit(es),
    ensures
        spec_properties(pre + spec_property_list(es) + post, false, pre.len() as int, es.len())
            == Ok::<(Seq<(Seq<char>, PropertyValueModel)>, int), crate::error::TdmsError>(
                (es, pre.len() + spec_property_list(es).len() as int)),
    decreases es.len(),
{
    let all = pre + spec_property_list(es) + post;
    if es.len() > 0 {
        let l = es.drop_last();
        let k = es.last().0;
        let v = es.last().1;
        assert(encode_utf8(es[es.len() - 1].0).len() <= u32::MAX && value_fits(es[es.len() - 1].1));
        let tail = spec_string_bytes(k) + spec_property_value_bytes(v) + post;
        assert(all =~= pre + spec_property_list(l) + tail);
        assert(properties_fit(l)) by {
            assert forall|i: int| 0 <= i < l.len() implies
                encode_utf8((#[trigger] l[i]).0).len() <= u32::MAX && value_fits(l[i].1) by {
                assert(l[i] == es[i]);
            }
        }
        lemma_property_list_roundtrip(pre, l, tail);
        let p1 = pre.len() + spec_property_list(l).len() as int;
        assert(spec_properties(all, false, pre.len() as int, l.len())
            == Ok::<(Seq<(Seq<char>, PropertyValueModel)>, int), crate::error::TdmsError>((l, p1)));
        let q = pre + spec_property_list(l);
        assert(all =~= q + spec_string_bytes(k) + (spec_property_value_bytes(v) + post));
        lemma_string_roundtrip(q, k, spec_property_value_bytes(v) + post);
        let p2 = p1 + spec_string_bytes(k).len() as int;
        assert(crate::reader::spec_string(all, false, p1) == Ok::<(Seq<char>, int), crate::error::TdmsError>((k, p2)));
        assert(all =~= (q + spec_string_bytes(k)) + spec_property_value_bytes(v) + post);
        lemma_property_value_roundtrip(q + spec_string_bytes(k), v, post);
        let p3 = p2 + spec_property_value_bytes(v).len() as int;
        assert(crate::property::spec_property_value(all, false, p2)
            == Ok::<(PropertyValueModel, int), crate::error::TdmsError>((v, p3)));
        assert(l.push((k, v)) =~= es);
        assert(spec_property_list(es) == spec_property_list(l) + spec_string_bytes(k) + spec_property_value_bytes(v));
        assert(p3 == pre.len() + spec_property_list(es).len() as int);
    } else {
        assert(es =~= Seq::<(Seq<char>, PropertyValueModel)>::empty());
    }
}

/// What `write_properties` writes is read back as the map it wrote: the count,
/// then that many properties, which make up the same map.
pub proof fn lemma_properties_read_back(pre: Seq<u8>, es: Seq<(Seq<char>, PropertyValueModel)>, post: Seq<u8>)
    requires
        properties_fit(es),
        es.len() <= u32::MAX,
    ensures
        ({
            let all = pre + spec_properties_bytes(es) + post;
            let n_at = pre.len() as int;
            &&& spec_u32(all, false, n_at) == Ok::<(u32, int), crate::error::TdmsError>((es.len() as u32, n_at + 4))
            &&& spec_properties(all, false, n_at + 4, es.len())
                == Ok::<(Seq<(Seq<char>, PropertyValueModel)>, int), crate::error::TdmsError>(
                    (es, n_at + spec_properties_bytes(es).len() as int))
        }),
{
    let all = pre + spec_properties_bytes(es) + post;
    assert(all =~= pre + le_bytes_u32(es.len() as u32) + (spec_property_list(es) + post));
    lemma_le_u32_roundtrip(pre, es.len() as u32, spec_property_list(es) + post);
    assert(all =~= (pre + le_bytes_u32(es.len() as u32)) + spec_property_list(es) + post);
    lemma_property_list_roundtrip(pre + le_bytes_u32(es.len() as u32), es, post);
}

/// The values that the consolidated segment holds for the channel `ch` of the
/// group `g`: for a channel of a copied type whose values can be read, that
/// type and those values; nothing for any other channel.
pub open spec fn copied_values(f: TdmsFile, g: Seq<char>, ch: TdmsChannel) -> Option<(DataType, Seq<(Seq<u8>, bool)>)> {
    match ch.data_type {
        Some(d) => if copied_type(d) {
            match read_outcome(f, g, ch.name@, d) {
                Some(vs) => Some((d, vs)),
                None => None,
            }
        } else {
            None
        },
        None => None,
    }
}

/// The number of values that the consolidated segment declares for a channel
/// of type `d`: for a copied type, the values it holds (none where they cannot
/// be read); for a type whose values take no bytes, the channel's own count.
pub open spec fn declared_values(f: TdmsFile, g: Seq<char>, ch: TdmsChannel, d: DataType) -> u64 {
    if copied_type(d) {
        match read_outcome(f, g, ch.name@, d) {
            Some(vs) => vs.len() as u64,
            None => 0,
        }
    } else {
        ch.number_of_values
    }
}

/// The stored strings of a string channel, joined: the end offsets and the
/// text of all of them, in order; none for a channel of another type, or
/// where they cannot be joined or their size does not fit a `u64`.
pub open spec fn string_outcome(f: TdmsFile, g: Seq<char>, ch: TdmsChannel) -> Option<(Seq<u8>, Seq<u8>)> {
    if ch.data_type == Some(DataType::String) {
        channel_strings(f, g, ch.name@)
    } else {
        None
    }
}

/// The stored strings of the channel `c` of the group `g`, joined, where they
/// can be and their size fits a `u64`.
#[verifier::opaque]
pub open spec fn channel_strings(f: TdmsFile, g: Seq<char>, c: Seq<char>) -> Option<(Seq<u8>, Seq<u8>)> {
    match joined_strings(segments_blocks(segments_view(f.segments@), f.bytes(), g, c, f.segments@.len())) {
        Some((offs, text)) => if offs.len() + text.len() <= u64::MAX { Some((offs, text)) } else { None },
        None => None,
    }
}

/// Joined strings take at most `u64::MAX` bytes.
pub proof fn lemma_channel_strings_fit(f: TdmsFile, g: Seq<char>, c: Seq<char>)
    ensures
        channel_strings(f, g, c) matches Some((offs, text)) ==> offs.len() + text.len() <= u64::MAX,
{
    reveal(channel_strings);
}

/// The raw data index of joined strings: one end offset per string, then the text.
pub open spec fn string_index(offs: Seq<u8>, text: Seq<u8>) -> ObjectRawDataIndex {
    ObjectRawDataIndex {
        data_type: DataType::String,
        dimension: 1,
        number_of_values: (offs.len() / 4) as u64,
        total_size_bytes: Some((offs.len() + text.len()) as u64),
    }
}

/// The raw data index that the consolidated segment declares for a channel: its
/// type, one dimension and the number of values it declares (for strings, with
/// their total size: that of the joined strings, or nothing where they cannot
/// be joined); none for a channel without a type.
pub open spec fn channel_index(f: TdmsFile, g: Seq<char>, ch: TdmsChannel) -> Option<ObjectRawDataIndex> {
    match ch.data_type {
        Some(d) => if d == DataType::String {
            match string_outcome(f, g, ch) {
                Some((offs, text)) => Some(string_index(offs, text)),
                None => Some(string_index(Seq::empty(), Seq::empty())),
            }
        } else {
            Some(written_index(d, declared_values(f, g, ch, d)))
        },
        None => None,
    }
}

/// The stored raw data index of strings: its length, the type, one dimension,
/// the string count and the total size.
pub open spec fn spec_string_index_bytes(count: u64, total: u64) -> Seq<u8> {
    le_bytes_u32(24) + le_bytes_u32(DataType::String.spec_code()) + le_bytes_u32(1) + le_bytes_u64(count)
        + le_bytes_u64(total)
}

/// The stored raw data part of a channel in the consolidated segment: the
/// one-dimensional index that `channel_index` gives, or the all-ones word (no
/// raw data) where it gives none.
pub open spec fn spec_channel_index_bytes(f: TdmsFile, g: Seq<char>, ch: TdmsChannel) -> Seq<u8> {
    match channel_index(f, g, ch) {
        Some(idx) => if idx.data_type == DataType::String {
            spec_string_index_bytes(idx.number_of_values, idx.total_size_bytes->0)
        } else {
            spec_index_bytes(idx.data_type, idx.number_of_values)
        },
        None => le_bytes_u32(0xFFFF_FFFF),
    }
}

pub open spec fn spec_channel_object(f: TdmsFile, g: Seq<char>, ch: TdmsChannel) -> Seq<u8> {
    spec_string_bytes(ch.path@) + spec_channel_index_bytes(f, g, ch) + spec_properties_bytes(ch.properties.entries())
}

pub open spec fn spec_channel_objects(f: TdmsFile, g: Seq<char>, chs: Seq<TdmsChannel>) -> Seq<u8>
    decreases chs.len(),
{
    if chs.len() == 0 {
        Seq::empty()
    } else {
        spec_channel_objects(f, g, chs.drop_last()) + spec_channel_object(f, g, chs.last())
    }
}

/// A group object followed by the objects of its channels.
pub open spec fn spec_group_objects(f: TdmsFile, grp: TdmsGroup) -> Seq<u8> {
    spec_string_bytes(grp.path@) + le_bytes_u32(0xFFFF_FFFF) + spec_properties_bytes(grp.properties.entries())
        + spec_channel_objects(f, grp.name@, grp.channels.values())
}

pub open spec fn spec_groups_objects(f: TdmsFile, gs: Seq<TdmsGroup>) -> Seq<u8>
    decreases gs.len(),
{
    if gs.len() == 0 { Seq::empty() } else { spec_groups_objects(f, gs.drop_last()) + spec_group_objects(f, gs.last()) }
}

/// `x`, or `usize::MAX` where it is larger.
pub open spec fn sat_usize(x: int) -> int {
    if x <= usize::MAX { x } else { usize::MAX as int }
}

/// The number of objects: the root, each group and each of its channels (at most `usize::MAX`).
pub open spec fn spec_object_count(gs: Seq<TdmsGroup>) -> int
    decreases gs.len(),
{
    if gs.len() == 0 {
        1
    } else {
        sat_usize(sat_usize(spec_object_count(gs.drop_last()) + 1) + gs.last().channels.values().len())
    }
}

/// The metadata of the consolidated segment: the object count (cut to 32 bits),
/// the root with the file's properties, then each group and its channels.
pub open spec fn spec_defrag_metadata(f: TdmsFile) -> Seq<u8> {
    le_bytes_u32(spec_object_count(f.groups.values()) as u32)
        + spec_string_bytes(seq!['/']) + le_bytes_u32(0xFFFF_FFFF) + spec_properties_bytes(f.properties.entries())
        + spec_groups_objects(f, f.groups.values())
}

/// The types whose values are copied into the consolidated segment: those
/// whose values have a fixed, positive size.
pub open spec fn copied_type(d: DataType) -> bool {
    match d {
        DataType::DoubleFloat | DataType::SingleFloat | DataType::I8 | DataType::I16 | DataType::I32
        | DataType::I64 | DataType::U8 | DataType::U16 | DataType::U32 | DataType::U64
        | DataType::Boolean | DataType::Timestamp | DataType::ExtendedFloat | DataType::SingleFloatComplex
        | DataType::DoubleFloatComplex | DataType::ExtendedFloatComplex => true,
        _ => false,
    }
}

/// What reading the channel `c` of the group `g` as type `d` gives: its stored
/// values, or `None` where the read fails.
#[verifier::opaque]
pub open spec fn read_outcome(f: TdmsFile, g: Seq<char>, c: Seq<char>, d: DataType) -> Option<Seq<(Seq<u8>, bool)>> {
    if !(f.groups@.dom().contains(g) && f.groups@[g].channels.dom().contains(c)) {
        None
    } else if f.groups@[g].channels[c].data_type matches Some(x) && x != d {
        None
    } else {
        match segments_values(segments_view(f.segments@), f.bytes(), g, c, d.spec_element_size()->0 as int, f.segments@.len()) {
            Ok(vs) => Some(vs),
            Err(_) => None,
        }
    }
}

/// The 16 bytes at `p` of `b`, reversed where they are stored big-endian.
#[verifier::opaque]
pub open spec fn wide_le(b: Seq<u8>, p: int, big_endian: bool) -> Seq<u8> {
    if big_endian {
        le_bytes_u64(u64_at(b, p + 8, true)) + le_bytes_u64(u64_at(b, p, true))
    } else {
        le_bytes_u64(u64_at(b, p, false)) + le_bytes_u64(u64_at(b, p + 8, false))
    }
}

/// A stored value rewritten little-endian; a boolean becomes 1 or 0, a timestamp
/// its fraction, then its seconds; a complex value its real part, then its
/// imaginary part; an extended float its 16 bytes in little-endian order.
pub open spec fn normalized(d: DataType, v: (Seq<u8>, bool)) -> Seq<u8> {
    match d {
        DataType::Boolean => seq![if v.0[0] != 0 { 1u8 } else { 0u8 }],
        DataType::I8 | DataType::U8 => seq![v.0[0]],
        DataType::I16 | DataType::U16 => le_bytes_u16(u16_at(v.0, 0, v.1)),
        DataType::I32 | DataType::U32 | DataType::SingleFloat => le_bytes_u32(u32_at(v.0, 0, v.1)),
        DataType::SingleFloatComplex => le_bytes_u32(u32_at(v.0, 0, v.1)) + le_bytes_u32(u32_at(v.0, 4, v.1)),
        DataType::Timestamp | DataType::DoubleFloatComplex =>
            le_bytes_u64(u64_at(v.0, 0, v.1)) + le_bytes_u64(u64_at(v.0, 8, v.1)),
        DataType::ExtendedFloat => wide_le(v.0, 0, v.1),
        DataType::ExtendedFloatComplex => wide_le(v.0, 0, v.1) + wide_le(v.0, 16, v.1),
        _ => le_bytes_u64(u64_at(v.0, 0, v.1)),
    }
}

/// The 16-byte value at `p` of `b` in the given byte order, as a number.
pub open spec fn wide_at(b: Seq<u8>, p: int, big_endian: bool) -> int {
    if big_endian {
        be_u64_at(b, p + 8) + be_u64_at(b, p) * 0x1_0000_0000_0000_0000
    } else {
        le_u64_at(b, p) + le_u64_at(b, p + 8) * 0x1_0000_0000_0000_0000
    }
}

/// Rewriting a stored value keeps what it is: the rewritten bytes, read
/// little-endian, are the value that the stored bytes hold read in their own
/// byte order, part by part (each half of a complex value, the fraction and
/// the seconds of a timestamp); a boolean stays true or false, as 1 or 0.
#[verifier::spinoff_prover]
pub proof fn lemma_normalized_keeps_values(d: DataType, b: Seq<u8>, be: bool)
    requires
        copied_type(d),
        b.len() == d.spec_element_size()->0,
    ensures
        ({
            let n = normalized(d, (b, be));
            match d {
                DataType::Boolean => n.len() == 1 && n[0] <= 1 && (n[0] != 0) == (b[0] != 0),
                DataType::I8 | DataType::U8 => n.len() == 1 && n[0] == b[0],
                DataType::I16 | DataType::U16 => n.len() == 2 && le_u16_at(n, 0) == u16_at(b, 0, be),
                DataType::I32 | DataType::U32 | DataType::SingleFloat => n.len() == 4 && le_u32_at(n, 0) == u32_at(b, 0, be),
                DataType::SingleFloatComplex => n.len() == 8 && le_u32_at(n, 0) == u32_at(b, 0, be)
                    && le_u32_at(n, 4) == u32_at(b, 4, be),
                DataType::I64 | DataType::U64 | DataType::DoubleFloat => n.len() == 8
                    && le_u64_at(n, 0) == u64_at(b, 0, be),
                DataType::Timestamp | DataType::DoubleFloatComplex => n.len() == 16
                    && le_u64_at(n, 0) == u64_at(b, 0, be) && le_u64_at(n, 8) == u64_at(b, 8, be),
                DataType::ExtendedFloat => n.len() == 16 && wide_at(n, 0, false) == wide_at(b, 0, be),
                DataType::ExtendedFloatComplex => n.len() == 32 && wide_at(n, 0, false) == wide_at(b, 0, be)
                    && wide_at(n, 16, false) == wide_at(b, 16, be),
                _ => true,
            }
        }),
{
    match d {
        DataType::I16 | DataType::U16 => lemma_normalized_16(d, b, be),
        DataType::I32 | DataType::U32 | DataType::SingleFloat => lemma_normalized_32(d, b, be),
        DataType::SingleFloatComplex => lemma_normalized_complex32(b, be),
        DataType::I64 | DataType::U64 | DataType::DoubleFloat => lemma_normalized_64(d, b, be),
        DataType::Timestamp | DataType::DoubleFloatComplex => lemma_normalized_64_pair(d, b, be),
        DataType::ExtendedFloat => {
            let e = Seq::<u8>::empty();
            lemma_wide_le_keeps(b, 0, be, e, e);
            lemma_wide_le_len(b, 0, be);
            assert(e + wide_le(b, 0, be) + e =~= wide_le(b, 0, be));
        },
        DataType::ExtendedFloatComplex => {
            let e = Seq::<u8>::empty();
            let w1 = wide_le(b, 0, be);
            let w2 = wide_le(b, 16, be);
            lemma_wide_le_len(b, 0, be);
            lemma_wide_le_len(b, 16, be);
            lemma_wide_le_keeps(b, 0, be, e, w2);
            lemma_wide_le_keeps(b, 16, be, w1, e);
            assert(e + w1 + w2 =~= w1 + w2);
            assert(w1 + w2 + e =~= w1 + w2);
        },
        _ => {},
    }
}

proof fn lemma_normalized_16(d: DataType, b: Seq<u8>, be: bool)
    requires
        d == DataType::I16 || d == DataType::U16,
    ensures
        normalized(d, (b, be)).len() == 2 && le_u16_at(normalized(d, (b, be)), 0) == u16_at(b, 0, be),
{
    let e = Seq::<u8>::empty();
    let x = u16_at(b, 0, be);
    lemma_le_u16_roundtrip(e, x, e);
    assert(e + le_bytes_u16(x) + e =~= le_bytes_u16(x));
}

proof fn lemma_normalized_32(d: DataType, b: Seq<u8>, be: bool)
    requires
        d == DataType::I32 || d == DataType::U32 || d == DataType::SingleFloat,
    ensures
        normalized(d, (b, be)).len() == 4 && le_u32_at(normalized(d, (b, be)), 0) == u32_at(b, 0, be),
{
    let e = Seq::<u8>::empty();
    let x = u32_at(b, 0, be);
    lemma_le_u32_roundtrip(e, x, e);
    assert(e + le_bytes_u32(x) + e =~= le_bytes_u32(x));
}

proof fn lemma_normalized_complex32(b: Seq<u8>, be: bool)
    ensures
        ({
            let n = normalized(DataType::SingleFloatComplex, (b, be));
            n.len() == 8 && le_u32_at(n, 0) == u32_at(b, 0, be) && le_u32_at(n, 4) == u32_at(b, 4, be)
        }),
{
    let e = Seq::<u8>::empty();
    let x = u32_at(b, 0, be);
    let y = u32_at(b, 4, be);
    lemma_le_u32_roundtrip(e, x, le_bytes_u32(y));
    lemma_le_u32_roundtrip(le_bytes_u32(x), y, e);
    assert(e + le_bytes_u32(x) + le_bytes_u32(y) =~= le_bytes_u32(x) + le_bytes_u32(y));
    assert(le_bytes_u32(x) + le_bytes_u32(y) + e =~= le_bytes_u32(x) + le_bytes_u32(y));
}

proof fn lemma_normalized_64(d: DataType, b: Seq<u8>, be: bool)
    requires
        d == DataType::I64 || d == DataType::U64 || d == DataType::DoubleFloat,
    ensures
        normalized(d, (b, be)).len() == 8 && le_u64_at(normalized(d, (b, be)), 0) == u64_at(b, 0, be),
{
    let e = Seq::<u8>::empty();
    let x = u64_at(b, 0, be);
    lemma_le_u64_roundtrip(e, x, e);
    assert(e + le_bytes_u64(x) + e =~= le_bytes_u64(x));
}

proof fn lemma_normalized_64_pair(d: DataType, b: Seq<u8>, be: bool)
    requires
        d == DataType::Timestamp || d == DataType::DoubleFloatComplex,
    ensures
        ({
            let n = normalized(d, (b, be));
            n.len() == 16 && le_u64_at(n, 0) == u64_at(b, 0, be) && le_u64_at(n, 8) == u64_at(b, 8, be)
        }),
{
    let e = Seq::<u8>::empty();
    let x = u64_at(b, 0, be);
    let y = u64_at(b, 8, be);
    lemma_le_u64_roundtrip(e, x, le_bytes_u64(y));
    lemma_le_u64_roundtrip(le_bytes_u64(x), y, e);
    assert(e + le_bytes_u64(x) + le_bytes_u64(y) =~= le_bytes_u64(x) + le_bytes_u64(y));
    assert(le_bytes_u64(x) + le_bytes_u64(y) + e =~= le_bytes_u64(x) + le_bytes_u64(y));
}

/// A 16-byte value rewritten little-endian, wherever it stands, reads back
/// little-endian as the value it held in its own byte order.
proof fn lemma_wide_le_keeps(b: Seq<u8>, p: int, be: bool, pre: Seq<u8>, post: Seq<u8>)
    ensures
        wide_at(pre + wide_le(b, p, be) + post, pre.len() as int, false) == wide_at(b, p, be),
{
    reveal(wide_le);
    let (first, second) = if be { (p + 8, p) } else { (p, p + 8) };
    let x = u64_at(b, first, be);
    let y = u64_at(b, second, be);
    let s = pre + wide_le(b, p, be) + post;
    assert(s =~= pre + le_bytes_u64(x) + (le_bytes_u64(y) + post));
    lemma_le_u64_roundtrip(pre, x, le_bytes_u64(y) + post);
    assert(s =~= (pre + le_bytes_u64(x)) + le_bytes_u64(y) + post);
    lemma_le_u64_roundtrip(pre + le_bytes_u64(x), y, post);
}

pub open spec fn all_normalized(d: DataType, vs: Seq<(Seq<u8>, bool)>) -> Seq<u8>
    decreases vs.len(),
{
    if vs.len() == 0 { Seq::empty() } else { all_normalized(d, vs.drop_last()) + normalized(d, vs.last()) }
}

/// The raw data of a channel in the consolidated segment: the values it holds
/// there, rewritten little-endian; for strings, the end offsets of all of them
/// (little-endian), then their text.
#[verifier::opaque]
pub open spec fn spec_channel_raw(f: TdmsFile, g: Seq<char>, ch: TdmsChannel) -> Seq<u8> {
    match copied_values(f, g, ch) {
        Some((d, vs)) => all_normalized(d, vs),
        None => match string_outcome(f, g, ch) {
            Some((offs, text)) => offs + text,
            None => Seq::empty(),
        },
    }
}

pub open spec fn spec_channels_raw(f: TdmsFile, g: Seq<char>, chs: Seq<TdmsChannel>) -> Seq<u8>
    decreases chs.len(),
{
    if chs.len() == 0 { Seq::empty() } else { spec_channels_raw(f, g, chs.drop_last()) + spec_channel_raw(f, g, chs.last()) }
}

pub open spec fn spec_groups_raw(f: TdmsFile, gs: Seq<TdmsGroup>) -> Seq<u8>
    decreases gs.len(),
{
    if gs.len() == 0 {
        Seq::empty()
    } else {
        spec_groups_raw(f, gs.drop_last()) + spec_channels_raw(f, gs.last().name@, gs.last().channels.values())
    }
}

/// The consolidated segment: a little-endian lead-in whose offsets give the
/// segment's length and where its raw data starts, the metadata, the raw data.
pub open spec fn spec_defrag_bytes(f: TdmsFile) -> Seq<u8> {
    let meta = spec_defrag_metadata(f);
    let raw = spec_groups_raw(f, f.groups.values());
    lead_in() + le_bytes_u32(WRITTEN_TOC) + le_bytes_u32(WRITTEN_VERSION)
        + le_bytes_u64((meta.len() + raw.len()) as u64) + le_bytes_u64(meta.len() as u64) + meta + raw
}

/// Appends the 16 bytes at `p` of `b`, reversed where they are stored big-endian.
fn push_wide_le(buffer: &mut Vec<u8>, b: &[u8], p: usize, be: bool)
    requires
        p + 16 <= b@.len(),
    ensures
        final(buffer)@ == old(buffer)@ + wide_le(b@, p as int, be),
{
    let ghost b0 = buffer@;
    let n = b.len();
    assert(p + 16 <= n);
    let (first, second) = if be { (p + 8, p) } else { (p, p + 8) };
    let x1 = read_u64_at(b, first, be);
    let x2 = read_u64_at(b, second, be);
    push_u64_le(buffer, x1);
    push_u64_le(buffer, x2);
    proof {
        reveal(wide_le);
        assert(buffer@ =~= b0 + (le_bytes_u64(x1) + le_bytes_u64(x2)));
    }
}

/// A 16-byte value rewritten little-endian is 16 bytes long.
pub proof fn lemma_wide_le_len(b: Seq<u8>, p: int, be: bool)
    ensures
        wide_le(b, p, be).len() == 16,
{
    reveal(wide_le);
    let (first, second) = if be { (p + 8, p) } else { (p, p + 8) };
    lemma_le_bytes_u64_len(u64_at(b, first, be));
    lemma_le_bytes_u64_len(u64_at(b, second, be));
}

proof fn lemma_le_bytes_u64_len(x: u64)
    ensures
        le_bytes_u64(x).len() == 8,
{
}

/// Appends the stored values, rewritten little-endian.
fn write_normalized(buffer: &mut Vec<u8>, d: DataType, values: &Vec<RawValue>)
    requires
        copied_type(d),
        all_sized(raw_values_view(values@), d.spec_element_size()->0 as int),
    ensures
        final(buffer)@ == old(buffer)@ + all_normalized(d, raw_values_view(values@)),
{
    let ghost b0 = buffer@;
    let ghost vs = raw_values_view(values@);
    let mut k: usize = 0;
    assert(vs.take(0) =~= Seq::<(Seq<u8>, bool)>::empty());
    while k < values.len()
        invariant
            copied_type(d),
            vs == raw_values_view(values@),
            all_sized(vs, d.spec_element_size()->0 as int),
            k <= values@.len(),
            buffer@ == b0 + all_normalized(d, vs.take(k as int)),
        decreases values@.len() - k,
    {
        let v = &values[k];
        assert(vs[k as int] == v@);
        let b = v.bytes.as_slice();
        let be = v.big_endian;
        match d {
            DataType::Boolean => buffer.push(if b[0] != 0 { 1 } else { 0 }),
            DataType::I8 | DataType::U8 => buffer.push(b[0]),
            DataType::I16 | DataType::U16 => push_u16_le(buffer, read_u16_at(b, 0, be)),
            DataType::I32 | DataType::U32 | DataType::SingleFloat => push_u32_le(buffer, read_u32_at(b, 0, be)),
            DataType::SingleFloatComplex => {
                push_u32_le(buffer, read_u32_at(b, 0, be));
                push_u32_le(buffer, read_u32_at(b, 4, be));
            },
            DataType::Timestamp | DataType::DoubleFloatComplex => {
                push_u64_le(buffer, read_u64_at(b, 0, be));
                push_u64_le(buffer, read_u64_at(b, 8, be));
            },
            DataType::ExtendedFloat => push_wide_le(buffer, b, 0, be),
            DataType::ExtendedFloatComplex => {
                push_wide_le(buffer, b, 0, be);
                push_wide_le(buffer, b, 16, be);
            },
            _ => push_u64_le(buffer, read_u64_at(b, 0, be)),
        }
        proof {
            let t = vs.take(k + 1);
            assert(t.drop_last() =~= vs.take(k as int));
            assert(buffer@ =~= b0 + all_normalized(d, t));
        }
        k = k + 1;
    }
    assert(vs.take(vs.len() as int) =~= vs);
}

/// Whether the type's values are copied into the consolidated segment.
fn is_copied_type(d: DataType) -> (r: bool)
    ensures
        r == copied_type(d),
{
    match d {
        DataType::DoubleFloat | DataType::SingleFloat | DataType::I8 | DataType::I16 | DataType::I32
        | DataType::I64 | DataType::U8 | DataType::U16 | DataType::U32 | DataType::U64
        | DataType::Boolean | DataType::Timestamp | DataType::ExtendedFloat | DataType::SingleFloatComplex
        | DataType::DoubleFloatComplex | DataType::ExtendedFloatComplex => true,
        _ => false,
    }
}

/// The values that the consolidated segment holds for a channel of the group.
fn copied_values_exec(tdms_file: &TdmsFile, group: &TdmsGroup, channel: &TdmsChannel)
    -> (r: Option<(DataType, Vec<RawValue>)>)
    ensures
        match copied_values(*tdms_file, group.name@, *channel) {
            Some((d, vs)) => r matches Some((d2, v)) && d2 == d && raw_values_view(v@) == vs
                && copied_type(d) && all_sized(vs, d.spec_element_size()->0 as int),
            None => r is None,
        },
{
    reveal(read_outcome);
    match channel.data_type {
        Some(dtype) => {
            if is_copied_type(dtype) {
                match tdms_file.read_channel_values(group.name.as_str(), channel.name.as_str(), dtype) {
                    Ok(values) => Some((dtype, values)),
                    Err(_) => None,
                }
            } else {
                None
            }
        },
        None => None,
    }
}

/// The joined strings of a string channel of the group, as `string_outcome` gives them.
fn joined_string_data(tdms_file: &TdmsFile, group: &TdmsGroup, channel: &TdmsChannel) -> (r: Option<(Vec<u8>, Vec<u8>)>)
    ensures
        match string_outcome(*tdms_file, group.name@, *channel) {
            Some((offs, text)) => r matches Some((o, t)) && o@ == offs && t@ == text,
            None => r is None,
        },
{
    proof {
        reveal(channel_strings);
    }
    match channel.data_type {
        Some(DataType::String) => {
            let blocks = tdms_file.string_blocks(group.name.as_str(), channel.name.as_str());
            match join_strings(&blocks) {
                Some((offs, text)) => {
                    if (offs.len() as u64) <= u64::MAX - (text.len() as u64) {
                        Some((offs, text))
                    } else {
                        None
                    }
                },
                None => None,
            }
        },
        _ => None,
    }
}

/// Appends the objects of a group's channels to `meta`, and the values they
/// hold to `raw`.
/// Appends the index part of a channel's object to `meta`.
fn write_channel_index(meta: &mut Vec<u8>, tdms_file: &TdmsFile, group: &TdmsGroup, channel: &TdmsChannel,
    copied: &Option<(DataType, Vec<RawValue>)>, strings: &Option<(Vec<u8>, Vec<u8>)>)
    requires
        match copied_values(*tdms_file, group.name@, *channel) {
            Some((d, vs)) => copied matches Some((d2, v)) && d2 == d && raw_values_view(v@) == vs,
            None => copied is None,
        },
        match string_outcome(*tdms_file, group.name@, *channel) {
            Some((offs, text)) => strings matches Some((o, t)) && o@ == offs && t@ == text,
            None => strings is None,
        },
    ensures
        final(meta)@ == old(meta)@ + spec_channel_index_bytes(*tdms_file, group.name@, *channel),
{
    let ghost g = group.name@;
    proof {
        lemma_channel_strings_fit(*tdms_file, g, channel.name@);
    }
    match channel.data_type {
        Some(dtype) => {
            if dtype == DataType::String {
                let (count, total): (u64, u64) = match strings {
                    Some((offs, text)) => ((offs.len() / 4) as u64, (offs.len() as u64) + (text.len() as u64)),
                    None => (0, 0),
                };
                push_u32_le(meta, 24);
                push_u32_le(meta, dtype.code());
                push_u32_le(meta, 1);
                push_u64_le(meta, count);
                push_u64_le(meta, total);
                assert(spec_channel_index_bytes(*tdms_file, g, *channel) == spec_string_index_bytes(count, total));
            } else {
                let count: u64 = match copied {
                    Some((_, values)) => values.len() as u64,
                    None => if is_copied_type(dtype) { 0 } else { channel.number_of_values },
                };
                push_u32_le(meta, 16);
                push_u32_le(meta, dtype.code());
                push_u32_le(meta, 1);
                push_u64_le(meta, count);
                assert(spec_channel_index_bytes(*tdms_file, g, *channel) == spec_index_bytes(dtype, count));
            }
        },
        None => {
            push_u32_le(meta, 0xFFFF_FFFF);
        },
    }
}

/// Appends a channel's object to `meta`, and the values it holds to `raw`.
fn write_channel(meta: &mut Vec<u8>, raw: &mut Vec<u8>, tdms_file: &TdmsFile, group: &TdmsGroup, channel: &TdmsChannel)
    ensures
        final(meta)@ == old(meta)@ + spec_channel_object(*tdms_file, group.name@, *channel),
        final(raw)@ == old(raw)@ + spec_channel_raw(*tdms_file, group.name@, *channel),
{
    let ghost mb = meta@;
    let ghost rb = raw@;
    let copied = copied_values_exec(tdms_file, group, channel);
    let strings = joined_string_data(tdms_file, group, channel);
    write_string(meta, channel.path.as_str());
    write_channel_index(meta, tdms_file, group, channel, &copied, &strings);
    write_properties(meta, &channel.properties);
    match &copied {
        Some((dtype, values)) => write_normalized(raw, *dtype, values),
        None => match &strings {
            Some((offs, text)) => {
                push_bytes(raw, offs.as_slice());
                push_bytes(raw, text.as_slice());
            },
            None => {},
        },
    }
    proof {
        reveal(spec_channel_raw);
        assert(meta@ =~= mb + spec_channel_object(*tdms_file, group.name@, *channel));
        assert(raw@ =~= rb + spec_channel_raw(*tdms_file, group.name@, *channel));
    }
}

fn write_channels(meta: &mut Vec<u8>, raw: &mut Vec<u8>, tdms_file: &TdmsFile, group: &TdmsGroup)
    ensures
        final(meta)@ == old(meta)@ + spec_channel_objects(*tdms_file, group.name@, group.channels.values()),
        final(raw)@ == old(raw)@ + spec_channels_raw(*tdms_file, group.name@, group.channels.values()),
{
    let ghost m0 = meta@;
    let ghost r0 = raw@;
    let ghost chs = group.channels.values();
    let ghost g = group.name@;
    proof {
        group.channels.lemma_values();
    }
    let mut j: usize = 0;
    assert(chs.take(0) =~= Seq::<TdmsChannel>::empty());
    while j < group.channels.len()
        invariant
            chs == group.channels.values(),
            g == group.name@,
            chs.len() == group.channels.entries().len(),
            j <= chs.len(),
            meta@ == m0 + spec_channel_objects(*tdms_file, g, chs.take(j as int)),
            raw@ == r0 + spec_channels_raw(*tdms_file, g, chs.take(j as int)),
        decreases chs.len() - j,
    {
        let channel = group.channels.value_at(j);
        write_channel(meta, raw, tdms_file, group, channel);
        proof {
            let t = chs.take(j + 1);
            assert(t.drop_last() =~= chs.take(j as int));
            assert(t.last() == *channel);
            assert(meta@ =~= m0 + spec_channel_objects(*tdms_file, g, t));
            assert(raw@ =~= r0 + spec_channels_raw(*tdms_file, g, t));
        }
        j = j + 1;
    }
    assert(chs.take(chs.len() as int) =~= chs);
}

/// The number of objects the consolidated segment holds.
fn count_objects(tdms_file: &TdmsFile) -> (r: usize)
    ensures
        r == spec_object_count(tdms_file.groups.values()),
{
    let ghost gs = tdms_file.groups.values();
    proof {
        tdms_file.groups.lemma_values();
    }
    let mut total_objects: usize = 1;
    let mut i: usize = 0;
    assert(gs.take(0) =~= Seq::<TdmsGroup>::empty());
    while i < tdms_file.groups.len()
        invariant
            gs == tdms_file.groups.values(),
            gs.len() == tdms_file.groups.entries().len(),
            i <= gs.len(),
            total_objects == spec_object_count(gs.take(i as int)),
        decreases gs.len() - i,
    {
        let group = tdms_file.groups.value_at(i);
        total_objects = total_objects.saturating_add(1);
        total_objects = total_objects.saturating_add(group.channels.len());
        proof {
            group.channels.lemma_values();
            let t = gs.take(i + 1);
            assert(t.drop_last() =~= gs.take(i as int));
            assert(t.last() == *group);
        }
        i = i + 1;
    }
    assert(gs.take(gs.len() as int) =~= gs);
    total_objects
}

/// Appends the metadata of the consolidated segment to `meta`, and its raw data to `raw`.
fn write_defrag_parts(meta: &mut Vec<u8>, raw: &mut Vec<u8>, tdms_file: &TdmsFile)
    ensures
        final(meta)@ == old(meta)@ + spec_defrag_metadata(*tdms_file),
        final(raw)@ == old(raw)@ + spec_groups_raw(*tdms_file, tdms_file.groups.values()),
{
    let ghost gs = tdms_file.groups.values();
    proof {
        tdms_file.groups.lemma_values();
    }
    let total_objects = count_objects(tdms_file);
    let ghost m0 = meta@;
    let ghost r0 = raw@;
    push_u32_le(meta, total_objects as u32);

    // Object 1: Root "/"
    let root_path = "/";
    proof {
        reveal_strlit("/");
        assert(root_path@ =~= seq!['/']);
    }
    write_string(meta, root_path);
    push_u32_le(meta, 0xFFFF_FFFF);
    write_properties(meta, &tdms_file.properties);

    // Object Groups & Channels
    let ghost m1 = meta@;
    let mut i: usize = 0;
    assert(gs.take(0) =~= Seq::<TdmsGroup>::empty());
    while i < tdms_file.groups.len()
        invariant
            gs == tdms_file.groups.values(),
            gs.len() == tdms_file.groups.entries().len(),
            i <= gs.len(),
            meta@ == m1 + spec_groups_objects(*tdms_file, gs.take(i as int)),
            raw@ == r0 + spec_groups_raw(*tdms_file, gs.take(i as int)),
        decreases gs.len() - i,
    {
        let group = tdms_file.groups.value_at(i);
        let ghost b = meta@;
        write_string(meta, group.path.as_str());
        push_u32_le(meta, 0xFFFF_FFFF);
        write_properties(meta, &group.properties);
        write_channels(meta, raw, tdms_file, group);
        proof {
            let t = gs.take(i + 1);
            assert(t.drop_last() =~= gs.take(i as int));
            assert(t.last() == *group);
            assert(meta@ =~= b + spec_group_objects(*tdms_file, *group));
            assert(meta@ =~= m1 + spec_groups_objects(*tdms_file, t));
        }
        i = i + 1;
    }
    assert(gs.take(gs.len() as int) =~= gs);
    assert(meta@ =~= m0 + spec_defrag_metadata(*tdms_file));
}

/// Consolidates files into one segment.
pub struct Defragmenter;

impl Defragmenter {
    /// The bytes of one segment that holds the properties, the groups and the
    /// channels of `tdms_file`, in their order. Every channel keeps its type.
    /// A channel of a copied type declares the values it holds, rewritten
    /// little-endian: all of them, or none where they cannot be read. A string
    /// channel holds its strings joined: the end offsets of all of them, counted
    /// from the start of their joined text, then that text (none where they
    /// cannot be joined). A channel of a type whose values take no bytes keeps
    /// its value count. So the segment declares no data that it does not hold.
    #[verifier::spinoff_prover]
    #[verifier::rlimit(40)]
    pub fn defragmented_bytes(tdms_file: &TdmsFile) -> (r: Vec<u8>)
        ensures
            r@ == spec_defrag_bytes(*tdms_file),
    {
        let mut buffer: Vec<u8> = Vec::new();

        // 1. Header & Lead-in
        push_bytes(&mut buffer, &[0x54u8, 0x44u8, 0x53u8, 0x6du8]);
        push_u32_le(&mut buffer, WRITTEN_TOC);
        push_u32_le(&mut buffer, WRITTEN_VERSION);
        push_u64_le(&mut buffer, 0);
        push_u64_le(&mut buffer, 0);
        let ghost h = buffer@;
        assert(h.subrange(0, 4) =~= lead_in());
        assert(h.subrange(0, 12) =~= lead_in() + le_bytes_u32(WRITTEN_TOC) + le_bytes_u32(WRITTEN_VERSION));

        let mut raw_data: Vec<u8> = Vec::new();
        write_defrag_parts(&mut buffer, &mut raw_data, tdms_file);
        let raw_data_start = buffer.len();
        push_bytes(&mut buffer, raw_data.as_slice());

        let ghost meta = spec_defrag_metadata(*tdms_file);
        let ghost raw = spec_groups_raw(*tdms_file, tdms_file.groups.values());
        assert(raw_data@ =~= raw);
        assert(buffer@ =~= h + meta + raw);
        assert(buffer@.subrange(0, 4) =~= lead_in());
        let ghost b = buffer@;
        finish_segment(&mut buffer, raw_data_start);
        proof {
            assert(b.subrange(0, 12) =~= h.subrange(0, 12));
            assert(b.subrange(HEADER_SIZE as int, b.len() as int) =~= meta + raw);
            assert(buffer@ =~= spec_defrag_bytes(*tdms_file));
        }
        buffer
    }
}

} // verus!
