//! Consolidating a file that the writer wrote gives back its bytes.

use vstd::prelude::*;
use crate::defrag::{
    all_normalized, copied_type, copied_values, normalized, wide_le, read_outcome, spec_channel_raw, spec_channels_raw,
    spec_defrag_bytes, spec_groups_raw, spec_channel_index_bytes, spec_channel_objects,
    spec_defrag_metadata, spec_group_objects, spec_groups_objects, spec_object_count, spec_properties_bytes,
    spec_property_list,
};
use crate::file::{segments_view, spec_index, TdmsFile};
use crate::model::{TdmsChannel, TdmsGroup};
use crate::namemap::{keys_distinct, lemma_map_of_dom, map_of};
use crate::property::{spec_string_bytes, PropertyValueModel};
use crate::readback::{lemma_write_then_read, plain_name, written_groups};
use crate::writer::{
    spec_channel_metadata, spec_channel_path, spec_group_path, spec_index_bytes, spec_segment_bytes,
};
use vstd::utf8::encode_utf8;
use crate::endian::{le_bytes_u16, le_bytes_u32, le_bytes_u64, le_u16_at, le_u32_at, le_u64_at};
use crate::readback::values_of;
use crate::types::DataType;

verus! {

proof fn lemma_u16_bytes(b: Seq<u8>, p: int)
    requires
        0 <= p,
        p + 2 <= b.len(),
    ensures
        le_bytes_u16(le_u16_at(b, p)) == b.subrange(p, p + 2),
{
    let b0 = b[p] as int;
    let b1 = b[p + 1] as int;
    let x = b0 + b1 * 0x100;
    assert(0 <= x < 0x1_0000);
    assert(x % 0x100 == b0 && x / 0x100 == b1) by (nonlinear_arith)
        requires
            x == b0 + b1 * 0x100,
            0 <= b0 < 0x100,
            0 <= b1 < 0x100,
    ;
    assert(le_bytes_u16(le_u16_at(b, p)) =~= b.subrange(p, p + 2));
}

proof fn lemma_u32_bytes(b: Seq<u8>, p: int)
    requires
        0 <= p,
        p + 4 <= b.len(),
    ensures
        le_bytes_u32(le_u32_at(b, p)) == b.subrange(p, p + 4),
{
    let b0 = b[p] as int;
    let b1 = b[p + 1] as int;
    let b2 = b[p + 2] as int;
    let b3 = b[p + 3] as int;
    let x = b0 + b1 * 0x100 + b2 * 0x1_0000 + b3 * 0x100_0000;
    assert(0 <= x < 0x1_0000_0000);
    assert(x % 0x100 == b0 && (x / 0x100) % 0x100 == b1 && (x / 0x1_0000) % 0x100 == b2 && x / 0x100_0000 == b3)
        by (nonlinear_arith)
        requires
            x == b0 + b1 * 0x100 + b2 * 0x1_0000 + b3 * 0x100_0000,
            0 <= b0 < 0x100,
            0 <= b1 < 0x100,
            0 <= b2 < 0x100,
            0 <= b3 < 0x100,
    ;
    assert(le_bytes_u32(le_u32_at(b, p)) =~= b.subrange(p, p + 4));
}

proof fn lemma_u64_bytes(b: Seq<u8>, p: int)
    requires
        0 <= p,
        p + 8 <= b.len(),
    ensures
        le_bytes_u64(le_u64_at(b, p)) == b.subrange(p, p + 8),
{
    let lo = le_u32_at(b, p) as int;
    let hi = le_u32_at(b, p + 4) as int;
    let x = lo + hi * 0x1_0000_0000;
    assert(0 <= x < 0x1_0000_0000_0000_0000) by (nonlinear_arith)
        requires
            x == lo + hi * 0x1_0000_0000,
            0 <= lo < 0x1_0000_0000,
            0 <= hi < 0x1_0000_0000,
    ;
    assert(x % 0x1_0000_0000 == lo && x / 0x1_0000_0000 == hi) by (nonlinear_arith)
        requires
            x == lo + hi * 0x1_0000_0000,
            0 <= lo < 0x1_0000_0000,
            0 <= hi < 0x1_0000_0000,
    ;
    lemma_u32_bytes(b, p);
    lemma_u32_bytes(b, p + 4);
    assert(le_bytes_u64(le_u64_at(b, p)) =~= b.subrange(p, p + 4) + b.subrange(p + 4, p + 8));
    assert(b.subrange(p, p + 4) + b.subrange(p + 4, p + 8) =~= b.subrange(p, p + 8));
}

/// A little-endian value of a copied type is rewritten as the same bytes; for
/// the boolean type, where its byte is 0 or 1.
pub proof fn lemma_normalized_same(d: DataType, b: Seq<u8>)
    requires
        copied_type(d),
        b.len() == d.spec_element_size()->0,
        d == DataType::Boolean ==> b[0] <= 1,
    ensures
        normalized(d, (b, false)) == b,
{
    match d {
        DataType::Boolean => {
            assert(normalized(d, (b, false)) =~= b);
        },
        DataType::I8 | DataType::U8 => {
            assert(normalized(d, (b, false)) =~= b);
        },
        DataType::I16 | DataType::U16 => {
            lemma_u16_bytes(b, 0);
            assert(b.subrange(0, 2) =~= b);
        },
        DataType::I32 | DataType::U32 | DataType::SingleFloat => {
            lemma_u32_bytes(b, 0);
            assert(b.subrange(0, 4) =~= b);
        },
        DataType::SingleFloatComplex => {
            lemma_u32_bytes(b, 0);
            lemma_u32_bytes(b, 4);
            assert(b.subrange(0, 4) + b.subrange(4, 8) =~= b);
        },
        DataType::Timestamp | DataType::DoubleFloatComplex => {
            lemma_u64_bytes(b, 0);
            lemma_u64_bytes(b, 8);
            assert(b.subrange(0, 8) + b.subrange(8, 16) =~= b);
        },
        DataType::ExtendedFloat => {
            reveal(wide_le);
            lemma_u64_bytes(b, 0);
            lemma_u64_bytes(b, 8);
            assert(b.subrange(0, 8) + b.subrange(8, 16) =~= b);
        },
        DataType::ExtendedFloatComplex => {
            reveal(wide_le);
            lemma_u64_bytes(b, 0);
            lemma_u64_bytes(b, 8);
            lemma_u64_bytes(b, 16);
            lemma_u64_bytes(b, 24);
            assert(b.subrange(0, 8) + b.subrange(8, 16) + (b.subrange(16, 24) + b.subrange(24, 32)) =~= b);
        },
        _ => {
            lemma_u64_bytes(b, 0);
            assert(b.subrange(0, 8) =~= b);
        },
    }
}

/// Little-endian values of a copied type, cut from raw data and rewritten,
/// give the raw data back; for the boolean type, where each byte is 0 or 1.
pub proof fn lemma_all_normalized_same(d: DataType, raw: Seq<u8>, count: nat)
    requires
        copied_type(d),
        raw.len() == count * (d.spec_element_size()->0 as int),
        d == DataType::Boolean ==> forall|i: int| 0 <= i < raw.len() ==> raw[i] <= 1,
    ensures
        all_normalized(d, values_of(raw, d.spec_element_size()->0 as int)) == raw,
    decreases count,
{
    let e = d.spec_element_size()->0 as int;
    assert(e > 0);
    let vs = values_of(raw, e);
    assert(raw.len() as int / e == count) by (nonlinear_arith)
        requires
            raw.len() == count * e,
            e > 0,
    ;
    if count == 0 {
        assert(vs =~= Seq::<(Seq<u8>, bool)>::empty());
        assert(raw.len() == 0) by (nonlinear_arith)
            requires
                raw.len() == count * e,
                count == 0,
        ;
        assert(raw =~= Seq::<u8>::empty());
    } else {
        let k = (count - 1) as nat;
        let front = raw.subrange(0, k * e);
        assert(k * e + e == count * e) by (nonlinear_arith)
            requires
                k == count - 1,
        ;
        assert(0 <= k * e) by (nonlinear_arith)
            requires
                e > 0,
        ;
        if d == DataType::Boolean {
            assert forall|i: int| 0 <= i < front.len() implies front[i] <= 1 by {
                assert(front[i] == raw[i]);
            }
        }
        lemma_all_normalized_same(d, front, k);
        assert(front.len() as int / e == k) by (nonlinear_arith)
            requires
                front.len() == k * e,
                e > 0,
        ;
        assert(vs.drop_last() =~= values_of(front, e)) by {
            assert forall|i: int| 0 <= i < k implies #[trigger] vs.drop_last()[i] == values_of(front, e)[i] by {
                assert(i * e + e <= k * e) by (nonlinear_arith)
                    requires
                        0 <= i < k,
                        e > 0,
                ;
                assert(0 <= i * e) by (nonlinear_arith)
                    requires
                        0 <= i,
                        e > 0,
                ;
                assert(front.subrange(i * e, i * e + e) =~= raw.subrange(i * e, i * e + e));
            }
        }
        let last = raw.subrange(k * e, k * e + e);
        assert(vs.last() == (last, false));
        if d == DataType::Boolean {
            assert(last[0] == raw[k * e]);
        }
        lemma_normalized_same(d, last);
        assert(front + last =~= raw);
    }
}

/// Entries that make up the empty map are none.
proof fn lemma_no_entries<V>(es: Seq<(Seq<char>, V)>)
    requires
        map_of(es) == Map::<Seq<char>, V>::empty(),
    ensures
        es.len() == 0,
{
    if es.len() > 0 {
        assert(map_of(es).dom().contains(es.last().0));
    }
}

/// Entries, stored once each, that make up a map of one name are that one entry.
proof fn lemma_one_entry<V>(es: Seq<(Seq<char>, V)>, k: Seq<char>, v: V)
    requires
        keys_distinct(es),
        map_of(es) == map![k => v],
    ensures
        es.len() == 1,
        es[0] == (k, v),
{
    if es.len() == 0 {
        assert(map_of(es).dom().contains(k));
    }
    lemma_map_of_dom(es, es[0].0);
    assert(es[0].0 == k);
    if es.len() > 1 {
        lemma_map_of_dom(es, es[1].0);
        assert(es[1].0 == k);
    }
    assert(es.drop_last() =~= Seq::<(Seq<char>, V)>::empty());
    assert(map_of(es) == Map::<Seq<char>, V>::empty().insert(es[0].0, es[0].1));
    assert(map_of(es)[k] == es[0].1);
}

/// The values that the consolidated segment holds for a channel.
pub open spec fn held_values(f: TdmsFile, g: Seq<char>, ch: TdmsChannel) -> Seq<(Seq<u8>, bool)> {
    match copied_values(f, g, ch) {
        Some((_, vs)) => vs,
        None => Seq::empty(),
    }
}

/// The file that a written one-channel segment indexes as, with its names
/// stored once each.
pub open spec fn is_written_file(f: TdmsFile, g: Seq<char>, c: Seq<char>, d: DataType, count: u64) -> bool {
    &&& f.properties@ == Map::<Seq<char>, PropertyValueModel>::empty()
    &&& f.groups@ == written_groups(g, c, d, count)
    &&& keys_distinct(f.groups.entries())
    &&& forall|i: int| 0 <= i < f.groups.values().len() ==> keys_distinct((#[trigger] f.groups.values()[i]).channels.entries())
}

/// A written file holds one group with one channel; where the consolidated
/// segment holds values of that channel, its metadata is the written metadata
/// with their number as the value count.
#[verifier::spinoff_prover]
#[verifier::rlimit(40)]
proof fn lemma_written_file_metadata(f: TdmsFile, g: Seq<char>, c: Seq<char>, d: DataType, count: u64)
    requires
        is_written_file(f, g, c, d, count),
    ensures
        f.groups.values().len() == 1,
        f.groups.values()[0].name@ == g,
        f.groups.values()[0].channels.values().len() == 1,
        f.groups.values()[0].channels.values()[0]@ == written_groups(g, c, d, count)[g].channels[c],
        copied_values(f, g, f.groups.values()[0].channels.values()[0]) is Some ==> ({
            let vs = held_values(f, g, f.groups.values()[0].channels.values()[0]);
            spec_defrag_metadata(f) == spec_channel_metadata(g, c, d, vs.len() as u64)
        }),
{
    let gm = written_groups(g, c, d, count)[g];
    let chm = gm.channels[c];
    lemma_no_entries(f.properties.entries());
    assert(f.properties.entries() =~= Seq::<(Seq<char>, PropertyValueModel)>::empty());
    f.groups.lemma_values();
    assert(written_groups(g, c, d, count) == map![g => gm]);
    lemma_one_entry(f.groups.entries(), g, gm);
    let grp = f.groups.values()[0];
    assert(grp@ == gm);
    assert(keys_distinct(grp.channels.entries()));
    grp.channels.lemma_values();
    assert(gm.channels == map![c => chm]);
    lemma_one_entry(grp.channels.entries(), c, chm);
    lemma_no_entries(grp.properties.entries());
    let ch = grp.channels.values()[0];
    assert(ch@ == chm);
    lemma_no_entries(ch.properties.entries());
    let gs = f.groups.values();
    assert(gs.drop_last() =~= Seq::<TdmsGroup>::empty());
    assert(spec_object_count(gs.drop_last()) == 1);
    assert(spec_object_count(gs) == 3);
    let chs = grp.channels.values();
    assert(chs.drop_last() =~= Seq::<TdmsChannel>::empty());
    if copied_values(f, g, ch) is Some {
        let vs = held_values(f, g, ch);
        let e0: Seq<(Seq<char>, PropertyValueModel)> = Seq::empty();
        assert(spec_property_list(e0) == Seq::<u8>::empty());
        assert(spec_properties_bytes(e0) =~= le_bytes_u32(0));
        assert(grp.properties.entries() =~= e0);
        assert(ch.properties.entries() =~= e0);
        assert(spec_channel_index_bytes(f, g, ch) == spec_index_bytes(d, vs.len() as u64));
        assert(chs.last() == ch);
        assert(spec_channel_objects(f, g, chs.drop_last()) == Seq::<u8>::empty());
        assert(spec_channel_objects(f, g, chs) =~= spec_string_bytes(spec_channel_path(g, c))
            + spec_index_bytes(d, vs.len() as u64) + le_bytes_u32(0));
        assert(gs.last() == grp);
        assert(spec_groups_objects(f, gs.drop_last()) == Seq::<u8>::empty());
        assert(spec_groups_objects(f, gs) =~= spec_group_objects(f, grp));
        assert(spec_defrag_metadata(f) =~= spec_channel_metadata(g, c, d, vs.len() as u64));
    }
}

/// The requirements on a file that holds just a written one-channel segment.
pub open spec fn holds_written(f: TdmsFile, g: Seq<char>, c: Seq<char>, d: DataType, raw: Seq<u8>, count: u64) -> bool {
    &&& plain_name(g)
    &&& plain_name(c)
    &&& copied_type(d)
    &&& raw.len() == count * (d.spec_element_size()->0 as int)
    &&& encode_utf8(spec_group_path(g)).len() <= u32::MAX
    &&& encode_utf8(spec_channel_path(g, c)).len() <= u32::MAX
    &&& spec_segment_bytes(spec_channel_metadata(g, c, d, count), raw).len() <= usize::MAX
    &&& f.bytes() == spec_segment_bytes(spec_channel_metadata(g, c, d, count), raw)
    &&& spec_index(f.bytes()) is Ok
    &&& f.properties@ == spec_index(f.bytes())->Ok_0.properties
    &&& f.groups@ == spec_index(f.bytes())->Ok_0.groups
    &&& segments_view(f.segments@) == spec_index(f.bytes())->Ok_0.segments
}

/// Reading the written channel of such a file gives the raw data, value by value.
#[verifier::spinoff_prover]
#[verifier::rlimit(40)]
proof fn lemma_written_outcome(f: TdmsFile, g: Seq<char>, c: Seq<char>, d: DataType, raw: Seq<u8>, count: u64)
    requires
        holds_written(f, g, c, d, raw, count),
    ensures
        f.properties@ == Map::<Seq<char>, PropertyValueModel>::empty(),
        f.groups@ == written_groups(g, c, d, count),
        read_outcome(f, g, c, d) == Some(values_of(raw, d.spec_element_size()->0 as int)),
{
    lemma_write_then_read(g, c, d, raw, count);
    reveal(read_outcome);
    assert(f.segments@.len() == segments_view(f.segments@).len());
}

/// The consolidated segment of such a file holds the written values of its
/// one channel, as many as were written.
#[verifier::spinoff_prover]
#[verifier::rlimit(40)]
proof fn lemma_written_held(f: TdmsFile, g: Seq<char>, c: Seq<char>, d: DataType, raw: Seq<u8>, count: u64)
    requires
        holds_written(f, g, c, d, raw, count),
        keys_distinct(f.groups.entries()),
        forall|i: int| 0 <= i < f.groups.values().len() ==> keys_distinct((#[trigger] f.groups.values()[i]).channels.entries()),
    ensures
        f.groups.values().len() == 1,
        f.groups.values()[0].name@ == g,
        f.groups.values()[0].channels.values().len() == 1,
        copied_values(f, g, f.groups.values()[0].channels.values()[0])
            == Some((d, values_of(raw, d.spec_element_size()->0 as int))),
        values_of(raw, d.spec_element_size()->0 as int).len() == count,
        spec_defrag_metadata(f) == spec_channel_metadata(g, c, d, count),
{
    let e = d.spec_element_size()->0 as int;
    lemma_written_outcome(f, g, c, d, raw, count);
    f.groups.lemma_values();
    assert(is_written_file(f, g, c, d, count));
    lemma_written_file_metadata(f, g, c, d, count);
    let vs = values_of(raw, e);
    assert(vs.len() == count) by (nonlinear_arith)
        requires
            vs.len() == raw.len() as int / e,
            raw.len() == count * e,
            e > 0,
    ;
}

/// The consolidated segment of such a file holds the written raw data.
#[verifier::spinoff_prover]
#[verifier::rlimit(40)]
proof fn lemma_written_raw(f: TdmsFile, g: Seq<char>, d: DataType, raw: Seq<u8>, count: u64)
    requires
        copied_type(d),
        raw.len() == count * (d.spec_element_size()->0 as int),
        d == DataType::Boolean ==> forall|i: int| 0 <= i < raw.len() ==> raw[i] <= 1,
        f.groups.values().len() == 1,
        f.groups.values()[0].name@ == g,
        f.groups.values()[0].channels.values().len() == 1,
        copied_values(f, g, f.groups.values()[0].channels.values()[0])
            == Some((d, values_of(raw, d.spec_element_size()->0 as int))),
    ensures
        spec_groups_raw(f, f.groups.values()) == raw,
{
    let gs = f.groups.values();
    let chs = gs[0].channels.values();
    let ch = chs[0];
    lemma_all_normalized_same(d, raw, count as nat);
    assert(spec_channel_raw(f, g, ch) == raw) by {
        reveal(spec_channel_raw);
    }
    assert(chs.drop_last() =~= Seq::<TdmsChannel>::empty());
    assert(chs.last() == ch);
    assert(spec_channels_raw(f, g, chs.drop_last()) == Seq::<u8>::empty());
    assert(spec_channels_raw(f, g, chs) =~= raw);
    assert(gs.drop_last() =~= Seq::<TdmsGroup>::empty());
    assert(gs.last() == gs[0]);
    assert(spec_groups_raw(f, gs.drop_last()) == Seq::<u8>::empty());
    assert(spec_groups_raw(f, gs) =~= raw);
}

/// Consolidating what the writer wrote gives it back: a file that holds just
/// the segment that `channel_segment` writes for a group and a channel whose
/// names a path holds unchanged, with raw data of whole little-endian values
/// of a copied type (booleans stored as 0 or 1), and that stores each name
/// once, consolidates to its own bytes.
pub proof fn lemma_defrag_written(f: TdmsFile, g: Seq<char>, c: Seq<char>, d: DataType, raw: Seq<u8>, count: u64)
    requires
        holds_written(f, g, c, d, raw, count),
        d == DataType::Boolean ==> forall|i: int| 0 <= i < raw.len() ==> raw[i] <= 1,
        keys_distinct(f.groups.entries()),
        forall|i: int| 0 <= i < f.groups.values().len() ==> keys_distinct((#[trigger] f.groups.values()[i]).channels.entries()),
    ensures
        spec_defrag_bytes(f) == f.bytes(),
{
    lemma_written_held(f, g, c, d, raw, count);
    lemma_written_raw(f, g, d, raw, count);
    let meta = spec_channel_metadata(g, c, d, count);
    assert(spec_defrag_bytes(f) =~= spec_segment_bytes(meta, raw));
}

} // verus!
