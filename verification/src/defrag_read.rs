//! What is read back of a consolidated segment.

use vstd::prelude::*;
use vstd::utf8::encode_utf8;
use crate::defrag::{
    channel_index, copied_type, copied_values, lemma_properties_read_back, spec_string_index_bytes,
    string_outcome, properties_fit, spec_channel_index_bytes, spec_channel_object, spec_channel_objects,
    spec_defrag_bytes, spec_defrag_metadata, spec_group_objects, spec_groups_raw, spec_groups_objects,
    spec_object_count, spec_properties_bytes,
};
use crate::endian::{le_bytes_u32, le_bytes_u64};
use crate::error::TdmsError;
use crate::file::TdmsFile;
use crate::model::{
    apply_object, new_channel_model, new_group_model, ChannelModel, GroupModel, TdmsChannel, TdmsGroup,
};
use crate::path::spec_parse_object_path;
use crate::namemap::{keys_distinct, map_of};
use crate::property::{lemma_string_roundtrip, spec_string_bytes, PropertyValueModel};
use crate::readback::{lemma_index_read, lemma_u32_read, lemma_u64_read, written_header};
use crate::file::{apply_objects, empty_index, spec_index, spec_walk, IndexModel};
use crate::header::{lemma_lead_in_roundtrip, spec_header_of, spec_lead_in_bytes, HEADER_SIZE};
use crate::writer::{WRITTEN_TOC, WRITTEN_VERSION};
use crate::reader::spec_u32;
use crate::segment::{
    spec_object, spec_objects, spec_segment, spec_segment_total_size, ObjectModel, ObjectRawDataIndex,
    SegmentModel,
};
use crate::types::DataType;
use crate::writer::spec_index_bytes;

verus! {

/// A written object: what it is read back as, and its bytes.
pub type WrittenObject = (ObjectModel, Seq<u8>);

/// The bytes of written objects, one after the other.
pub open spec fn concat_objects(l: Seq<WrittenObject>) -> Seq<u8>
    decreases l.len(),
{
    if l.len() == 0 { Seq::empty() } else { concat_objects(l.drop_last()) + l.last().1 }
}

/// What written objects are read back as.
pub open spec fn object_models(l: Seq<WrittenObject>) -> Seq<ObjectModel> {
    l.map_values(|o: WrittenObject| o.0)
}

/// A written object is read back as its model wherever it stands, whatever raw
/// data indexes are stored, and the read ends where its bytes end.
pub open spec fn reads_back(o: WrittenObject) -> bool {
    forall|pre: Seq<u8>, post: Seq<u8>, prev: Map<Seq<char>, ObjectRawDataIndex>|
        #![trigger spec_object(pre + o.1 + post, false, pre.len() as int, prev)]
        spec_object(pre + o.1 + post, false, pre.len() as int, prev) is Ok
            && spec_object(pre + o.1 + post, false, pre.len() as int, prev)->Ok_0.0 == o.0
            && spec_object(pre + o.1 + post, false, pre.len() as int, prev)->Ok_0.1 == pre.len() + o.1.len()
}

pub proof fn lemma_concat_add(a: Seq<WrittenObject>, b: Seq<WrittenObject>)
    ensures
        concat_objects(a + b) == concat_objects(a) + concat_objects(b),
    decreases b.len(),
{
    if b.len() == 0 {
        assert(a + b =~= a);
        assert(concat_objects(a) + Seq::<u8>::empty() =~= concat_objects(a));
    } else {
        lemma_concat_add(a, b.drop_last());
        assert((a + b).drop_last() =~= a + b.drop_last());
        assert((a + b).last() == b.last());
        assert(concat_objects(a) + concat_objects(b.drop_last()) + b.last().1
            =~= concat_objects(a) + (concat_objects(b.drop_last()) + b.last().1));
    }
}

/// Objects that are each read back are read back one after the other.
proof fn lemma_objects_read(pre: Seq<u8>, l: Seq<WrittenObject>, post: Seq<u8>, prev: Map<Seq<char>, ObjectRawDataIndex>)
    requires
        forall|i: int| 0 <= i < l.len() ==> reads_back(#[trigger] l[i]),
    ensures
        ({
            let r = spec_objects(pre + concat_objects(l) + post, false, pre.len() as int, l.len(), prev);
            &&& r is Ok
            &&& r->Ok_0.0 == object_models(l)
            &&& r->Ok_0.1 == pre.len() + concat_objects(l).len()
        }),
    decreases l.len(),
{
    if l.len() == 0 {
        assert(object_models(l) =~= Seq::<ObjectModel>::empty());
    } else {
        let l0 = l.drop_last();
        let o = l.last();
        let s = pre + concat_objects(l) + post;
        assert(s =~= pre + concat_objects(l0) + (o.1 + post));
        assert forall|i: int| 0 <= i < l0.len() implies reads_back(#[trigger] l0[i]) by {
            assert(l0[i] == l[i]);
        }
        lemma_objects_read(pre, l0, o.1 + post, prev);
        let r0 = spec_objects(s, false, pre.len() as int, l0.len(), prev);
        let q = pre + concat_objects(l0);
        assert(s =~= q + o.1 + post);
        assert(reads_back(l[l.len() - 1]));
        assert(l[l.len() - 1] == o);
        let ro = spec_object(q + o.1 + post, false, q.len() as int, r0->Ok_0.2);
        assert(ro is Ok && ro->Ok_0.0 == o.0 && ro->Ok_0.1 == q.len() + o.1.len());
        assert((l.len() - 1) as nat == l0.len());
        assert(object_models(l) =~= object_models(l0).push(o.0));
    }
}

/// An object without raw data, with the given stored properties.
pub open spec fn plain_written(path: Seq<char>, es: Seq<(Seq<char>, PropertyValueModel)>) -> WrittenObject {
    (
        ObjectModel { path: path, raw_data_index: None, properties: map_of(es) },
        spec_string_bytes(path) + le_bytes_u32(0xFFFF_FFFF) + spec_properties_bytes(es),
    )
}

/// Stored properties that can be read back: each fits, and their count fits a `u32`.
pub open spec fn properties_storable(es: Seq<(Seq<char>, PropertyValueModel)>) -> bool {
    properties_fit(es) && es.len() <= u32::MAX
}

#[verifier::spinoff_prover]
#[verifier::rlimit(40)]
proof fn lemma_plain_written_reads_back(path: Seq<char>, es: Seq<(Seq<char>, PropertyValueModel)>)
    requires
        encode_utf8(path).len() <= u32::MAX,
        properties_storable(es),
    ensures
        reads_back(plain_written(path, es)),
{
    let o = plain_written(path, es);
    assert forall|pre: Seq<u8>, post: Seq<u8>, prev: Map<Seq<char>, ObjectRawDataIndex>|
        #![trigger spec_object(pre + o.1 + post, false, pre.len() as int, prev)]
        spec_object(pre + o.1 + post, false, pre.len() as int, prev) is Ok
            && spec_object(pre + o.1 + post, false, pre.len() as int, prev)->Ok_0.0 == o.0
            && spec_object(pre + o.1 + post, false, pre.len() as int, prev)->Ok_0.1 == pre.len() + o.1.len() by {
        reveal(spec_object);
        let s = pre + o.1 + post;
        let sb = spec_string_bytes(path);
        let pb = spec_properties_bytes(es);
        let w = le_bytes_u32(0xFFFF_FFFF);
        assert(s =~= pre + sb + (w + pb + post));
        lemma_string_roundtrip(pre, path, w + pb + post);
        assert(s =~= (pre + sb) + w + (pb + post));
        lemma_u32_read(pre + sb, 0xFFFF_FFFF, pb + post);
        assert(s =~= (pre + sb + w) + pb + post);
        lemma_properties_read_back(pre + sb + w, es, post);
    }
}

/// A channel's object in the consolidated segment.
pub open spec fn channel_written(f: TdmsFile, g: Seq<char>, ch: TdmsChannel) -> WrittenObject {
    (
        ObjectModel { path: ch.path@, raw_data_index: channel_index(f, g, ch), properties: ch.properties@ },
        spec_channel_object(f, g, ch),
    )
}

/// A channel whose object can be read back: its path and properties fit.
pub open spec fn channel_storable(ch: TdmsChannel) -> bool {
    &&& encode_utf8(ch.path@).len() <= u32::MAX
    &&& properties_storable(ch.properties.entries())
}

/// The stored raw data index of strings is read back as itself.
proof fn lemma_string_index_read(q2: Seq<u8>, count: u64, total: u64, post: Seq<u8>)
    ensures
        crate::segment::spec_raw_index(q2 + spec_string_index_bytes(count, total).subrange(4, 28) + post, false,
            q2.len() as int, 24)
            == Ok::<(ObjectRawDataIndex, int), TdmsError>((
                ObjectRawDataIndex { data_type: DataType::String, dimension: 1, number_of_values: count,
                    total_size_bytes: Some(total) },
                q2.len() as int + 24,
            )),
{
    reveal(crate::segment::spec_raw_index);
    let d = DataType::String;
    let code = d.spec_code();
    let body = spec_string_index_bytes(count, total).subrange(4, 28);
    assert(body =~= le_bytes_u32(code) + le_bytes_u32(1) + le_bytes_u64(count) + le_bytes_u64(total));
    let all = q2 + body + post;
    assert(all =~= q2 + le_bytes_u32(code) + (le_bytes_u32(1) + le_bytes_u64(count) + le_bytes_u64(total) + post));
    lemma_u32_read(q2, code, le_bytes_u32(1) + le_bytes_u64(count) + le_bytes_u64(total) + post);
    crate::types::lemma_code_from_u32_roundtrip(d);
    let q3 = q2 + le_bytes_u32(code);
    assert(all =~= q3 + le_bytes_u32(1) + (le_bytes_u64(count) + le_bytes_u64(total) + post));
    lemma_u32_read(q3, 1, le_bytes_u64(count) + le_bytes_u64(total) + post);
    let q4 = q3 + le_bytes_u32(1);
    assert(all =~= q4 + le_bytes_u64(count) + (le_bytes_u64(total) + post));
    lemma_u64_read(q4, count, le_bytes_u64(total) + post);
    let q5 = q4 + le_bytes_u64(count);
    assert(all =~= q5 + le_bytes_u64(total) + post);
    lemma_u64_read(q5, total, post);
}

#[verifier::spinoff_prover]
#[verifier::rlimit(40)]
proof fn lemma_string_channel_reads_back(f: TdmsFile, g: Seq<char>, ch: TdmsChannel)
    requires
        channel_storable(ch),
        channel_index(f, g, ch) is Some,
        channel_index(f, g, ch)->0.data_type == DataType::String,
    ensures
        reads_back(channel_written(f, g, ch)),
{
    let o = channel_written(f, g, ch);
    let es = ch.properties.entries();
        let idx = channel_index(f, g, ch)->0;
        let n = idx.number_of_values;
        let t = idx.total_size_bytes->0;
        assert forall|pre: Seq<u8>, post: Seq<u8>, prev: Map<Seq<char>, ObjectRawDataIndex>|
            #![trigger spec_object(pre + o.1 + post, false, pre.len() as int, prev)]
            spec_object(pre + o.1 + post, false, pre.len() as int, prev) is Ok
                && spec_object(pre + o.1 + post, false, pre.len() as int, prev)->Ok_0.0 == o.0
                && spec_object(pre + o.1 + post, false, pre.len() as int, prev)->Ok_0.1 == pre.len() + o.1.len() by {
            reveal(spec_object);
            let s = pre + o.1 + post;
            let sb = spec_string_bytes(ch.path@);
            let pb = spec_properties_bytes(es);
            let body = spec_string_index_bytes(n, t).subrange(4, 28);
            assert(spec_string_index_bytes(n, t) =~= le_bytes_u32(24) + body);
            assert(spec_channel_index_bytes(f, g, ch) == spec_string_index_bytes(n, t));
            assert(s =~= pre + sb + (le_bytes_u32(24) + body + pb + post));
            lemma_string_roundtrip(pre, ch.path@, le_bytes_u32(24) + body + pb + post);
            let q1 = pre + sb;
            assert(s =~= q1 + le_bytes_u32(24) + (body + pb + post));
            lemma_u32_read(q1, 24, body + pb + post);
            let q2 = q1 + le_bytes_u32(24);
            assert(s =~= q2 + body + (pb + post));
            lemma_string_index_read(q2, n, t, pb + post);
            assert(idx == ObjectRawDataIndex { data_type: DataType::String, dimension: 1, number_of_values: n,
                total_size_bytes: Some(t) });
            let q3 = q2 + body;
            assert(s =~= q3 + pb + post);
            lemma_properties_read_back(q3, es, post);
        }
}

#[verifier::spinoff_prover]
#[verifier::rlimit(40)]
proof fn lemma_typed_channel_reads_back(f: TdmsFile, g: Seq<char>, ch: TdmsChannel)
    requires
        channel_storable(ch),
        channel_index(f, g, ch) is Some,
        channel_index(f, g, ch)->0.data_type != DataType::String,
    ensures
        reads_back(channel_written(f, g, ch)),
{
    let o = channel_written(f, g, ch);
    let es = ch.properties.entries();
        let d = channel_index(f, g, ch)->0.data_type;
        let n = channel_index(f, g, ch)->0.number_of_values;
        assert(d != DataType::String);
        assert forall|pre: Seq<u8>, post: Seq<u8>, prev: Map<Seq<char>, ObjectRawDataIndex>|
            #![trigger spec_object(pre + o.1 + post, false, pre.len() as int, prev)]
            spec_object(pre + o.1 + post, false, pre.len() as int, prev) is Ok
                && spec_object(pre + o.1 + post, false, pre.len() as int, prev)->Ok_0.0 == o.0
                && spec_object(pre + o.1 + post, false, pre.len() as int, prev)->Ok_0.1 == pre.len() + o.1.len() by {
            reveal(spec_object);
            let s = pre + o.1 + post;
            let sb = spec_string_bytes(ch.path@);
            let pb = spec_properties_bytes(es);
            let body = spec_index_bytes(d, n).subrange(4, 20);
            assert(spec_index_bytes(d, n) =~= le_bytes_u32(16) + body);
            assert(spec_channel_index_bytes(f, g, ch) == spec_index_bytes(d, n));
            assert(s =~= pre + sb + (le_bytes_u32(16) + body + pb + post));
            lemma_string_roundtrip(pre, ch.path@, le_bytes_u32(16) + body + pb + post);
            let q1 = pre + sb;
            assert(s =~= q1 + le_bytes_u32(16) + (body + pb + post));
            lemma_u32_read(q1, 16, body + pb + post);
            let q2 = q1 + le_bytes_u32(16);
            assert(s =~= q2 + body + (pb + post));
            lemma_index_read(q2, d, n, pb + post);
            let q3 = q2 + body;
            assert(s =~= q3 + pb + post);
            lemma_properties_read_back(q3, es, post);
        }
}

proof fn lemma_channel_written_reads_back(f: TdmsFile, g: Seq<char>, ch: TdmsChannel)
    requires
        channel_storable(ch),
    ensures
        reads_back(channel_written(f, g, ch)),
{
    let o = channel_written(f, g, ch);
    let es = ch.properties.entries();
    if channel_index(f, g, ch) is None {
        lemma_plain_written_reads_back(ch.path@, es);
        assert(plain_written(ch.path@, es) == o);
    } else if channel_index(f, g, ch)->0.data_type == DataType::String {
        lemma_string_channel_reads_back(f, g, ch);
    } else {
        lemma_typed_channel_reads_back(f, g, ch);
    }
}

/// The objects of channels of the group `g`, in order.
pub open spec fn channels_written(f: TdmsFile, g: Seq<char>, chs: Seq<TdmsChannel>) -> Seq<WrittenObject>
    decreases chs.len(),
{
    if chs.len() == 0 {
        Seq::empty()
    } else {
        channels_written(f, g, chs.drop_last()).push(channel_written(f, g, chs.last()))
    }
}

/// A group's object, then those of its channels.
pub open spec fn group_written(f: TdmsFile, grp: TdmsGroup) -> Seq<WrittenObject> {
    seq![plain_written(grp.path@, grp.properties.entries())] + channels_written(f, grp.name@, grp.channels.values())
}

/// The objects of groups, in order.
pub open spec fn groups_written(f: TdmsFile, gs: Seq<TdmsGroup>) -> Seq<WrittenObject>
    decreases gs.len(),
{
    if gs.len() == 0 { Seq::empty() } else { groups_written(f, gs.drop_last()) + group_written(f, gs.last()) }
}

/// The objects of the consolidated segment: the root with the file's
/// properties, then each group followed by its channels.
pub open spec fn defrag_written(f: TdmsFile) -> Seq<WrittenObject> {
    seq![plain_written(seq!['/'], f.properties.entries())] + groups_written(f, f.groups.values())
}

/// What the objects of the consolidated segment are read back as.
pub open spec fn defrag_objects(f: TdmsFile) -> Seq<ObjectModel> {
    object_models(defrag_written(f))
}

/// A group whose objects can be read back.
pub open spec fn group_storable(g: TdmsGroup) -> bool {
    &&& encode_utf8(g.path@).len() <= u32::MAX
    &&& properties_storable(g.properties.entries())
    &&& forall|j: int| 0 <= j < g.channels.values().len() ==> channel_storable(#[trigger] g.channels.values()[j])
}

/// A file whose consolidated objects can be read back.
pub open spec fn defrag_storable(f: TdmsFile) -> bool {
    &&& properties_storable(f.properties.entries())
    &&& forall|i: int| 0 <= i < f.groups.values().len() ==> group_storable(#[trigger] f.groups.values()[i])
}

proof fn lemma_channels_written(f: TdmsFile, g: Seq<char>, chs: Seq<TdmsChannel>)
    requires
        forall|j: int| 0 <= j < chs.len() ==> channel_storable(#[trigger] chs[j]),
    ensures
        concat_objects(channels_written(f, g, chs)) == spec_channel_objects(f, g, chs),
        channels_written(f, g, chs).len() == chs.len(),
        forall|i: int| 0 <= i < channels_written(f, g, chs).len() ==> reads_back(#[trigger] channels_written(f, g, chs)[i]),
    decreases chs.len(),
{
    if chs.len() > 0 {
        let c0 = chs.drop_last();
        assert forall|j: int| 0 <= j < c0.len() implies channel_storable(#[trigger] c0[j]) by {
            assert(c0[j] == chs[j]);
        }
        lemma_channels_written(f, g, c0);
        assert(channel_storable(chs[chs.len() - 1]));
        lemma_channel_written_reads_back(f, g, chs.last());
        let l = channels_written(f, g, chs);
        assert(l.drop_last() =~= channels_written(f, g, c0));
        assert(forall|i: int| 0 <= i < l.len() - 1 ==> l[i] == channels_written(f, g, c0)[i]);
    }
}

#[verifier::spinoff_prover]
proof fn lemma_group_written(f: TdmsFile, g: TdmsGroup)
    requires
        group_storable(g),
    ensures
        concat_objects(group_written(f, g)) == spec_group_objects(f, g),
        group_written(f, g).len() == 1 + g.channels.values().len(),
        forall|i: int| 0 <= i < group_written(f, g).len() ==> reads_back(#[trigger] group_written(f, g)[i]),
{
    let head = seq![plain_written(g.path@, g.properties.entries())];
    let chs = g.channels.values();
    lemma_channels_written(f, g.name@, chs);
    lemma_plain_written_reads_back(g.path@, g.properties.entries());
    lemma_concat_add(head, channels_written(f, g.name@, chs));
    assert(head.drop_last() =~= Seq::<WrittenObject>::empty());
    assert(concat_objects(head.drop_last()) == Seq::<u8>::empty());
    assert(head.last() == head[0]);
    assert(concat_objects(head) =~= head[0].1);
    let l = group_written(f, g);
    assert forall|i: int| 0 <= i < l.len() implies reads_back(#[trigger] l[i]) by {
        if i > 0 {
            assert(l[i] == channels_written(f, g.name@, chs)[i - 1]);
        }
    }
}

proof fn lemma_groups_written(f: TdmsFile, gs: Seq<TdmsGroup>)
    requires
        forall|i: int| 0 <= i < gs.len() ==> group_storable(#[trigger] gs[i]),
    ensures
        concat_objects(groups_written(f, gs)) == spec_groups_objects(f, gs),
        forall|i: int| 0 <= i < groups_written(f, gs).len() ==> reads_back(#[trigger] groups_written(f, gs)[i]),
    decreases gs.len(),
{
    if gs.len() > 0 {
        let g0 = gs.drop_last();
        assert forall|i: int| 0 <= i < g0.len() implies group_storable(#[trigger] g0[i]) by {
            assert(g0[i] == gs[i]);
        }
        lemma_groups_written(f, g0);
        assert(group_storable(gs[gs.len() - 1]));
        lemma_group_written(f, gs.last());
        lemma_concat_add(groups_written(f, g0), group_written(f, gs.last()));
        let a = groups_written(f, g0);
        let b = group_written(f, gs.last());
        assert forall|i: int| 0 <= i < (a + b).len() implies reads_back(#[trigger] (a + b)[i]) by {
            if i < a.len() {
                assert((a + b)[i] == a[i]);
            } else {
                assert((a + b)[i] == b[i - a.len()]);
            }
        }
    }
}

proof fn lemma_channels_written_len(f: TdmsFile, g: Seq<char>, chs: Seq<TdmsChannel>)
    ensures
        channels_written(f, g, chs).len() == chs.len(),
    decreases chs.len(),
{
    if chs.len() > 0 {
        lemma_channels_written_len(f, g, chs.drop_last());
    }
}

/// The object count that the consolidated segment stores is its number of objects.
proof fn lemma_object_count(f: TdmsFile, gs: Seq<TdmsGroup>)
    requires
        1 + groups_written(f, gs).len() <= usize::MAX,
    ensures
        spec_object_count(gs) == 1 + groups_written(f, gs).len(),
    decreases gs.len(),
{
    if gs.len() > 0 {
        let g0 = gs.drop_last();
        let g = gs.last();
        lemma_channels_written_len(f, g.name@, g.channels.values());
        assert(group_written(f, g).len() == 1 + g.channels.values().len());
        assert(groups_written(f, gs).len() == groups_written(f, g0).len() + group_written(f, g).len());
        lemma_object_count(f, g0);
    }
}

proof fn lemma_root_path_fits()
    ensures
        encode_utf8(seq!['/']).len() <= 4,
{
    let sl = seq!['/'];
    assert(sl.drop_first() =~= Seq::<char>::empty());
    assert(encode_utf8(sl.drop_first()) == Seq::<u8>::empty());
    assert(vstd::utf8::encode_scalar(sl[0] as u32).len() <= 4);
    assert(encode_utf8(sl) == vstd::utf8::encode_scalar(sl[0] as u32) + encode_utf8(sl.drop_first()));
}

/// The metadata of the consolidated segment is read back as what it holds: the
/// number of objects, then the root object with the file's properties, each
/// group's object with its path and properties, and after each group the
/// objects of its channels, each with its path, its properties and, for a
/// channel with a type, a one-dimensional index of that type and the
/// channel's value count.
#[verifier::spinoff_prover]
#[verifier::rlimit(40)]
pub proof fn lemma_defrag_metadata_read(f: TdmsFile)
    requires
        defrag_storable(f),
        defrag_objects(f).len() <= u32::MAX,
    ensures
        ({
            let meta = spec_defrag_metadata(f);
            let n = defrag_objects(f).len();
            let r = spec_objects(meta, false, 4, n, Map::empty());
            &&& spec_u32(meta, false, 0) == Ok::<(u32, int), TdmsError>((n as u32, 4))
            &&& r is Ok
            &&& r->Ok_0.0 == defrag_objects(f)
            &&& r->Ok_0.1 == meta.len()
        }),
{
    let gs = f.groups.values();
    let root = seq![plain_written(seq!['/'], f.properties.entries())];
    let l = defrag_written(f);
    lemma_groups_written(f, gs);
    lemma_root_path_fits();
    lemma_plain_written_reads_back(seq!['/'], f.properties.entries());
    lemma_concat_add(root, groups_written(f, gs));
    assert(concat_objects(root.drop_last()) == Seq::<u8>::empty());
    assert(root.last() == root[0]);
    assert(concat_objects(root) =~= root[0].1);
    assert forall|i: int| 0 <= i < l.len() implies reads_back(#[trigger] l[i]) by {
        if i > 0 {
            assert(l[i] == groups_written(f, gs)[i - 1]);
        }
    }
    assert(object_models(l).len() == l.len());
    lemma_object_count(f, gs);
    let cnt = l.len();
    let body = concat_objects(l);
    let meta = spec_defrag_metadata(f);
    assert(meta =~= le_bytes_u32(cnt as u32) + body);
    assert(meta =~= Seq::<u8>::empty() + le_bytes_u32(cnt as u32) + body);
    lemma_u32_read(Seq::<u8>::empty(), cnt as u32, body);
    assert(meta =~= le_bytes_u32(cnt as u32) + body + Seq::<u8>::empty());
    lemma_objects_read(le_bytes_u32(cnt as u32), l, Seq::<u8>::empty(), Map::empty());
}

/// The index of the consolidated segment.
pub open spec fn defrag_segment(f: TdmsFile) -> SegmentModel {
    let mlen = spec_defrag_metadata(f).len() as int;
    let rlen = spec_groups_raw(f, f.groups.values()).len() as int;
    SegmentModel {
        header: written_header(mlen, rlen),
        header_offset: 0,
        metadata_offset: HEADER_SIZE as u64,
        raw_data_offset: (HEADER_SIZE + mlen) as u64,
        segment_total_size: (HEADER_SIZE + mlen + rlen) as u64,
        objects: defrag_objects(f),
    }
}

/// Indexing the consolidated file finds its one segment, with the objects it
/// was written with, and the properties and groups that those objects give.
#[verifier::spinoff_prover]
#[verifier::rlimit(60)]
pub proof fn lemma_defrag_index(f: TdmsFile)
    requires
        defrag_storable(f),
        defrag_objects(f).len() <= u32::MAX,
        spec_defrag_bytes(f).len() <= usize::MAX,
    ensures
        ({
            let r = apply_objects(Map::empty(), Map::empty(), defrag_objects(f));
            spec_index(spec_defrag_bytes(f)) == Ok::<IndexModel, TdmsError>(IndexModel {
                properties: r.0,
                groups: r.1,
                segments: seq![defrag_segment(f)],
            })
        }),
{
    let meta = spec_defrag_metadata(f);
    let raw = spec_groups_raw(f, f.groups.values());
    let mlen = meta.len() as int;
    let rlen = raw.len() as int;
    let data = spec_defrag_bytes(f);
    let next = (mlen + rlen) as u64;
    let lead = spec_lead_in_bytes(WRITTEN_TOC, WRITTEN_VERSION, next, mlen as u64);
    assert(lead.len() == 28);
    assert(data =~= lead + meta + raw);
    let hb = data.subrange(0, 28);
    assert(hb =~= lead + Seq::<u8>::empty());
    assert((0x0eu32 & 0x40u32) == 0u32) by (bit_vector);
    assert((0x0eu32 & 0x02u32) != 0u32) by (bit_vector);
    lemma_lead_in_roundtrip(WRITTEN_TOC, WRITTEN_VERSION, next, mlen as u64, Seq::<u8>::empty());
    let h = written_header(mlen, rlen);
    assert(spec_header_of(hb) == h);
    assert(h.raw_data_offset == mlen);
    assert(!h.is_big_endian);
    assert(h.has_metadata);
    assert(data.subrange(28, 28 + mlen) =~= meta);
    lemma_defrag_metadata_read(f);
    let n = defrag_objects(f).len();
    let prev2 = spec_objects(meta, false, 4, n, Map::empty())->Ok_0.2;
    let seg = defrag_segment(f);
    assert(spec_segment_total_size(h, 0, data.len() as u64) == (HEADER_SIZE + mlen + rlen) as u64);
    assert(spec_segment(meta, 0, false, h, 0, data.len() as u64, Map::empty())
        == Ok::<(SegmentModel, int, Map<Seq<char>, ObjectRawDataIndex>), TdmsError>((seg, mlen, prev2)));
    let r = apply_objects(Map::empty(), Map::empty(), defrag_objects(f));
    let st2 = IndexModel { properties: r.0, groups: r.1, segments: seq![seg] };
    assert(empty_index().segments.push(seg) =~= seq![seg]);
    assert(spec_walk(data, data.len(), st2, prev2) == Ok::<IndexModel, TdmsError>(st2));
    assert(spec_walk(data, 0, empty_index(), Map::empty()) == spec_walk(data, data.len(), st2, prev2));
    reveal(spec_index);
}


/// The path names the group `g` and the channel `c`.
#[verifier::opaque]
pub open spec fn names_channel(path: Seq<char>, g: Seq<char>, c: Seq<char>) -> bool {
    spec_parse_object_path(path) == (Some(g), Some(c))
}

/// The path names the group `g`.
#[verifier::opaque]
pub open spec fn names_group(path: Seq<char>, g: Seq<char>) -> bool {
    spec_parse_object_path(path) == (Some(g), None::<Seq<char>>)
}

/// A channel stored under `key` in the group `g` as indexing makes it: its
/// path names the group and the channel, it knows both names, and without a
/// type it has no values.
pub open spec fn channel_consistent(g: Seq<char>, key: Seq<char>, ch: ChannelModel) -> bool {
    &&& names_channel(ch.path, g, key)
    &&& ch.group_name == g
    &&& ch.name == key
    &&& ch.data_type is None ==> ch.number_of_values == 0
}

/// A group stored under `key` as indexing makes it: its path names it, it knows
/// its name, and its channels are stored once each and consistent.
pub open spec fn group_consistent(key: Seq<char>, g: TdmsGroup) -> bool {
    &&& names_group(g.path@, key)
    &&& g.name@ == key
    &&& keys_distinct(g.channels.entries())
    &&& forall|j: int| 0 <= j < g.channels.entries().len()
        ==> channel_consistent(key, (#[trigger] g.channels.entries()[j]).0, g.channels.entries()[j].1)
}

/// A file whose groups are stored once each and are consistent.
pub open spec fn file_consistent(f: TdmsFile) -> bool {
    &&& keys_distinct(f.groups.entries())
    &&& forall|i: int| 0 <= i < f.groups.entries().len()
        ==> group_consistent((#[trigger] f.groups.entries()[i]).0, f.groups.values()[i])
}

/// A channel whose values the consolidated segment holds in full: with a type,
/// where it is a copied type, reading the channel as it gives values; for the
/// string type, its strings can be joined; either way, as many as the channel
/// counts. A type whose values take no bytes is held in full as it is.
#[verifier::opaque]
pub open spec fn channel_full(f: TdmsFile, g: Seq<char>, ch: TdmsChannel) -> bool {
    match ch.data_type {
        Some(d) => if d == DataType::String {
            match string_outcome(f, g, ch) {
                Some((offs, text)) => offs.len() / 4 == ch.number_of_values,
                None => false,
            }
        } else {
            copied_type(d) ==> match copied_values(f, g, ch) {
                Some((_, vs)) => vs.len() == ch.number_of_values,
                None => false,
            }
        },
        None => true,
    }
}

/// Every channel of the group is held in full.
pub open spec fn group_full(f: TdmsFile, g: TdmsGroup) -> bool {
    forall|j: int| 0 <= j < g.channels.values().len() ==> channel_full(f, g.name@, #[trigger] g.channels.values()[j])
}

/// Every channel of the file is held in full.
pub open spec fn defrag_full(f: TdmsFile) -> bool {
    forall|i: int| 0 <= i < f.groups.values().len() ==> group_full(f, #[trigger] f.groups.values()[i])
}

/// A channel held in full is declared with its own type and value count.
proof fn lemma_full_index(f: TdmsFile, g: Seq<char>, ch: TdmsChannel)
    requires
        channel_full(f, g, ch),
    ensures
        match ch.data_type {
            Some(d) => channel_index(f, g, ch) matches Some(idx) && idx.data_type == d
                && idx.number_of_values == ch.number_of_values,
            None => channel_index(f, g, ch) is None,
        },
{
    reveal(channel_full);
}

proof fn lemma_apply_concat(
    props: Map<Seq<char>, PropertyValueModel>,
    groups: Map<Seq<char>, GroupModel>,
    a: Seq<ObjectModel>,
    b: Seq<ObjectModel>,
)
    ensures
        apply_objects(props, groups, a + b) == ({
            let r = apply_objects(props, groups, a);
            apply_objects(r.0, r.1, b)
        }),
    decreases b.len(),
{
    if b.len() == 0 {
        assert(a + b =~= a);
    } else {
        lemma_apply_concat(props, groups, a, b.drop_last());
        assert((a + b).drop_last() =~= a + b.drop_last());
        assert((a + b).last() == b.last());
    }
}

pub proof fn lemma_models_add(a: Seq<WrittenObject>, b: Seq<WrittenObject>)
    ensures
        object_models(a + b) == object_models(a) + object_models(b),
{
    assert(object_models(a + b) =~= object_models(a) + object_models(b));
}


/// One channel object, for a channel not yet in its group, stores the channel.
#[verifier::spinoff_prover]
proof fn lemma_apply_channel_object(
    props: Map<Seq<char>, PropertyValueModel>,
    groups: Map<Seq<char>, GroupModel>,
    k: Seq<char>,
    ck: Seq<char>,
    ch: ChannelModel,
    obj: ObjectModel,
)
    requires
        channel_consistent(k, ck, ch),
        groups.dom().contains(k),
        !groups[k].channels.dom().contains(ck),
        obj.path == ch.path,
        obj.properties == ch.properties,
        match ch.data_type {
            Some(d) => obj.raw_data_index matches Some(idx) && idx.data_type == d
                && idx.number_of_values == ch.number_of_values,
            None => obj.raw_data_index is None,
        },
    ensures
        apply_object(props, groups, obj)
            == (props, groups.insert(k, GroupModel { channels: groups[k].channels.insert(ck, ch), ..groups[k] })),
{
    reveal(names_channel);
    reveal(apply_object);
    let grp = groups[k];
    let nc = new_channel_model(obj.path, k, ck);
    let ch1 = ChannelModel { properties: nc.properties.union_prefer_right(obj.properties), ..nc };
    assert(ch1.properties =~= ch.properties);
    let ch2 = match obj.raw_data_index {
        Some(idx) => ChannelModel {
            data_type: Some(idx.data_type),
            number_of_values: if ch1.number_of_values + idx.number_of_values <= u64::MAX {
                (ch1.number_of_values + idx.number_of_values) as u64
            } else {
                u64::MAX
            },
            ..ch1
        },
        None => ch1,
    };
    assert(ch2 == ch);
}

/// One group object, for a group not yet stored, stores the group without channels.
#[verifier::spinoff_prover]
proof fn lemma_apply_group_object(
    props: Map<Seq<char>, PropertyValueModel>,
    groups: Map<Seq<char>, GroupModel>,
    k: Seq<char>,
    obj: ObjectModel,
)
    requires
        names_group(obj.path, k),
        !groups.dom().contains(k),
    ensures
        apply_object(props, groups, obj) == (props, groups.insert(k, GroupModel {
            name: k,
            path: obj.path,
            properties: obj.properties,
            channels: Map::empty(),
        })),
{
    reveal(names_group);
    reveal(apply_object);
    let ng = new_group_model(k, obj.path);
    assert(ng.properties.union_prefer_right(obj.properties) =~= obj.properties);
}


/// What the channels and their entries satisfy, the channels but the last and
/// their entries satisfy too.
proof fn lemma_channel_entries_prefix(k: Seq<char>, chs: Seq<TdmsChannel>, es: Seq<(Seq<char>, ChannelModel)>)
    requires
        es.len() == chs.len(),
        es.len() > 0,
        forall|j: int| 0 <= j < es.len() ==> (#[trigger] es[j]).1 == chs[j]@,
        keys_distinct(es),
        forall|j: int| 0 <= j < es.len() ==> channel_consistent(k, (#[trigger] es[j]).0, es[j].1),
    ensures
        ({
            let c0 = chs.drop_last();
            let e0 = es.drop_last();
            &&& forall|j: int| 0 <= j < e0.len() ==> (#[trigger] e0[j]).1 == c0[j]@
            &&& keys_distinct(e0)
            &&& forall|j: int| 0 <= j < e0.len() ==> channel_consistent(k, (#[trigger] e0[j]).0, e0[j].1)
        }),
{
    let c0 = chs.drop_last();
    let e0 = es.drop_last();
    assert forall|j: int| 0 <= j < e0.len() implies (#[trigger] e0[j]).1 == c0[j]@ by {
        assert(e0[j] == es[j]);
    }
    assert forall|j: int| 0 <= j < e0.len() implies channel_consistent(k, (#[trigger] e0[j]).0, e0[j].1) by {
        assert(e0[j] == es[j]);
    }
    assert forall|i: int, j: int| 0 <= i < j < e0.len() implies #[trigger] e0[i].0 != #[trigger] e0[j].0 by {
        assert(e0[i] == es[i] && e0[j] == es[j]);
    }
}

/// Indexing a group's channel objects stores each channel in the group as it was.
#[verifier::spinoff_prover]
#[verifier::rlimit(100)]
proof fn lemma_apply_channels(
    props: Map<Seq<char>, PropertyValueModel>,
    groups: Map<Seq<char>, GroupModel>,
    f: TdmsFile,
    k: Seq<char>,
    chs: Seq<TdmsChannel>,
    es: Seq<(Seq<char>, ChannelModel)>,
)
    requires
        forall|j: int| 0 <= j < chs.len() ==> channel_full(f, k, #[trigger] chs[j]),
        es.len() == chs.len(),
        forall|j: int| 0 <= j < es.len() ==> (#[trigger] es[j]).1 == chs[j]@,
        keys_distinct(es),
        forall|j: int| 0 <= j < es.len() ==> channel_consistent(k, (#[trigger] es[j]).0, es[j].1),
        groups.dom().contains(k),
        groups[k].channels == Map::<Seq<char>, ChannelModel>::empty(),
    ensures
        apply_objects(props, groups, object_models(channels_written(f, k, chs)))
            == (props, groups.insert(k, GroupModel { channels: map_of(es), ..groups[k] })),
    decreases chs.len(),
{
    if chs.len() == 0 {
        assert(object_models(channels_written(f, k, chs)) =~= Seq::<ObjectModel>::empty());
        assert(es =~= Seq::<(Seq<char>, ChannelModel)>::empty());
        assert(groups.insert(k, GroupModel { channels: map_of(es), ..groups[k] }) =~= groups);
    } else {
        let c0 = chs.drop_last();
        let e0 = es.drop_last();
        lemma_channel_entries_prefix(k, chs, es);
        assert forall|j: int| 0 <= j < c0.len() implies channel_full(f, k, #[trigger] c0[j]) by {
            assert(c0[j] == chs[j]);
        }
        lemma_apply_channels(props, groups, f, k, c0, e0);
        assert(channel_full(f, k, chs[chs.len() - 1]));
        lemma_full_index(f, k, chs.last());
        let ch = chs.last();
        let e = es.last();
        assert(e == es[es.len() - 1]);
        assert(e.1 == ch@);
        assert(channel_consistent(k, e.0, e.1));
        let l = channels_written(f, k, chs);
        assert(object_models(l) =~= object_models(channels_written(f, k, c0)).push(channel_written(f, k, ch).0));
        let g1 = groups.insert(k, GroupModel { channels: map_of(e0), ..groups[k] });
        crate::namemap::lemma_map_of_dom(e0, e.0);
        assert(!map_of(e0).dom().contains(e.0)) by {
            if map_of(e0).dom().contains(e.0) {
                let i = choose|i: int| 0 <= i < e0.len() && #[trigger] e0[i].0 == e.0;
                assert(es[i].0 == es[es.len() - 1].0);
            }
        }
        let obj = channel_written(f, k, ch).0;
        lemma_apply_channel_object(props, g1, k, e.0, e.1, obj);
        let grp = g1[k];
        assert(map_of(es) == map_of(e0).insert(e.0, e.1));
        assert(g1.insert(k, GroupModel { channels: grp.channels.insert(e.0, e.1), ..grp })
            =~= groups.insert(k, GroupModel { channels: map_of(es), ..groups[k] }));
        let ml = object_models(l);
        assert(ml.drop_last() =~= object_models(channels_written(f, k, c0)));
        assert(ml.last() == obj);
        assert(apply_objects(props, groups, ml) == apply_object(props, g1, obj));
    }
}


/// What the groups and their entries satisfy, the groups but the last and
/// their entries satisfy too.
proof fn lemma_group_entries_prefix(gs: Seq<TdmsGroup>, es: Seq<(Seq<char>, GroupModel)>)
    requires
        es.len() == gs.len(),
        es.len() > 0,
        forall|i: int| 0 <= i < es.len() ==> (#[trigger] es[i]).1 == gs[i]@,
        keys_distinct(es),
        forall|i: int| 0 <= i < es.len() ==> group_consistent((#[trigger] es[i]).0, gs[i]),
    ensures
        ({
            let g0 = gs.drop_last();
            let e0 = es.drop_last();
            &&& forall|i: int| 0 <= i < e0.len() ==> (#[trigger] e0[i]).1 == g0[i]@
            &&& keys_distinct(e0)
            &&& forall|i: int| 0 <= i < e0.len() ==> group_consistent((#[trigger] e0[i]).0, g0[i])
        }),
{
    let g0 = gs.drop_last();
    let e0 = es.drop_last();
    assert forall|i: int| 0 <= i < e0.len() implies (#[trigger] e0[i]).1 == g0[i]@ by {
        assert(e0[i] == es[i]);
    }
    assert forall|i: int| 0 <= i < e0.len() implies group_consistent((#[trigger] e0[i]).0, g0[i]) by {
        assert(e0[i] == es[i]);
    }
    assert forall|i: int, j: int| 0 <= i < j < e0.len() implies #[trigger] e0[i].0 != #[trigger] e0[j].0 by {
        assert(e0[i] == es[i] && e0[j] == es[j]);
    }
}

/// Indexing the objects of groups stores each group, with its channels, as it was.
#[verifier::spinoff_prover]
#[verifier::rlimit(100)]
proof fn lemma_apply_groups(
    props: Map<Seq<char>, PropertyValueModel>,
    f: TdmsFile,
    gs: Seq<TdmsGroup>,
    es: Seq<(Seq<char>, GroupModel)>,
)
    requires
        forall|i: int| 0 <= i < gs.len() ==> group_full(f, #[trigger] gs[i]),
        es.len() == gs.len(),
        forall|i: int| 0 <= i < es.len() ==> (#[trigger] es[i]).1 == gs[i]@,
        keys_distinct(es),
        forall|i: int| 0 <= i < es.len() ==> group_consistent((#[trigger] es[i]).0, gs[i]),
    ensures
        apply_objects(props, Map::empty(), object_models(groups_written(f, gs))) == (props, map_of(es)),
    decreases gs.len(),
{
    if gs.len() == 0 {
        assert(object_models(groups_written(f, gs)) =~= Seq::<ObjectModel>::empty());
        assert(es =~= Seq::<(Seq<char>, GroupModel)>::empty());
    } else {
        let g0 = gs.drop_last();
        let e0 = es.drop_last();
        lemma_group_entries_prefix(gs, es);
        assert forall|i: int| 0 <= i < g0.len() implies group_full(f, #[trigger] g0[i]) by {
            assert(g0[i] == gs[i]);
        }
        lemma_apply_groups(props, f, g0, e0);
        assert(group_full(f, gs[gs.len() - 1]));
        let g = gs.last();
        let e = es.last();
        let k = e.0;
        assert(e == es[es.len() - 1]);
        assert(e.1 == g@);
        assert(group_consistent(k, g));
        lemma_models_add(groups_written(f, g0), group_written(f, g));
        lemma_apply_concat(props, Map::empty(), object_models(groups_written(f, g0)), object_models(group_written(f, g)));
        crate::namemap::lemma_map_of_dom(e0, k);
        assert(!map_of(e0).dom().contains(k)) by {
            if map_of(e0).dom().contains(k) {
                let i = choose|i: int| 0 <= i < e0.len() && #[trigger] e0[i].0 == k;
                assert(es[i].0 == es[es.len() - 1].0);
            }
        }
        lemma_apply_group(props, map_of(e0), f, k, g);
        assert(map_of(es) == map_of(e0).insert(k, e.1));
    }
}

/// A group's objects, for a group not yet stored, store the group as it was.
#[verifier::spinoff_prover]
proof fn lemma_apply_group(
    props: Map<Seq<char>, PropertyValueModel>,
    groups: Map<Seq<char>, GroupModel>,
    f: TdmsFile,
    k: Seq<char>,
    g: TdmsGroup,
)
    requires
        group_consistent(k, g),
        group_full(f, g),
        !groups.dom().contains(k),
    ensures
        apply_objects(props, groups, object_models(group_written(f, g))) == (props, groups.insert(k, g@)),
{
    let head = seq![plain_written(g.path@, g.properties.entries())];
    let chs = g.channels.values();
    lemma_models_add(head, channels_written(f, g.name@, chs));
    let mh = object_models(head);
    let mc = object_models(channels_written(f, g.name@, chs));
    lemma_apply_concat(props, groups, mh, mc);
    assert(mh.len() == 1);
    assert(mh.drop_last() =~= Seq::<ObjectModel>::empty());
    let obj = mh[0];
    assert(mh.last() == obj);
    assert(obj == plain_written(g.path@, g.properties.entries()).0);
    let g1 = groups.insert(k, GroupModel { name: k, path: g.path@, properties: obj.properties, channels: Map::empty() });
    assert(apply_objects(props, groups, mh.drop_last()) == (props, groups));
    assert(apply_objects(props, groups, mh) == apply_object(props, groups, obj));
    lemma_apply_group_object(props, groups, k, obj);
    g.channels.lemma_values();
    lemma_apply_channels(props, g1, f, k, chs, g.channels.entries());
    assert(g1.insert(k, GroupModel { channels: map_of(g.channels.entries()), ..g1[k] }) =~= groups.insert(k, g@));
}


/// The root object with stored properties gives the file those properties.
#[verifier::spinoff_prover]
proof fn lemma_apply_root(es: Seq<(Seq<char>, PropertyValueModel)>)
    ensures
        apply_objects(Map::empty(), Map::empty(), object_models(seq![plain_written(seq!['/'], es)]))
            == (map_of(es), Map::<Seq<char>, GroupModel>::empty()),
{
    let mr = object_models(seq![plain_written(seq!['/'], es)]);
    assert(mr.drop_last() =~= Seq::<ObjectModel>::empty());
    assert(mr.last() == mr[0]);
    crate::readback::lemma_root_path();
    reveal(apply_object);
    let e: Map<Seq<char>, PropertyValueModel> = Map::empty();
    assert(e.union_prefer_right(map_of(es)) =~= map_of(es));
    assert(apply_objects(Map::empty(), Map::empty(), mr.drop_last()) == (e, Map::<Seq<char>, GroupModel>::empty()));
}

/// Consolidating a file keeps what it describes: indexing the consolidated
/// segment of a file whose groups and channels are stored as indexing stores
/// them, and whose channels are held in full, gives the file's properties, and
/// its groups with their paths, properties and channels, each channel with its
/// path, properties, type and value count.
#[verifier::spinoff_prover]
#[verifier::rlimit(40)]
pub proof fn lemma_defrag_keeps_description(f: TdmsFile)
    requires
        defrag_storable(f),
        file_consistent(f),
        defrag_full(f),
        defrag_objects(f).len() <= u32::MAX,
        spec_defrag_bytes(f).len() <= usize::MAX,
    ensures
        spec_index(spec_defrag_bytes(f)) is Ok,
        spec_index(spec_defrag_bytes(f))->Ok_0.properties == f.properties@,
        spec_index(spec_defrag_bytes(f))->Ok_0.groups == f.groups@,
{
    lemma_defrag_index(f);
    let gs = f.groups.values();
    let root = seq![plain_written(seq!['/'], f.properties.entries())];
    lemma_models_add(root, groups_written(f, gs));
    let mr = object_models(root);
    let mg = object_models(groups_written(f, gs));
    lemma_apply_concat(Map::empty(), Map::empty(), mr, mg);
    lemma_apply_root(f.properties.entries());
    f.groups.lemma_values();
    lemma_apply_groups(f.properties@, f, gs, f.groups.entries());
}

} // verus!
