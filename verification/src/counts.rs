//! How the objects of segments add up a channel's values and settle its type.

use vstd::prelude::*;
use crate::file::{apply_objects, empty_index, spec_index, spec_walk, IndexModel};
use crate::header::{lead_in, spec_header_of, HEADER_SIZE};
use crate::model::{apply_object, ChannelModel, GroupModel};
use crate::path::spec_parse_object_path;
use crate::property::PropertyValueModel;
use crate::segment::{spec_segment, ObjectModel, ObjectRawDataIndex};
use crate::types::DataType;

verus! {

/// The value count of the channel `c` of the group `g`: zero where there is no such channel.
pub open spec fn channel_count(groups: Map<Seq<char>, GroupModel>, g: Seq<char>, c: Seq<char>) -> u64 {
    if groups.dom().contains(g) && groups[g].channels.dom().contains(c) {
        groups[g].channels[c].number_of_values
    } else {
        0
    }
}

/// The type of the channel `c` of the group `g`: none where there is no such channel.
pub open spec fn channel_type(groups: Map<Seq<char>, GroupModel>, g: Seq<char>, c: Seq<char>) -> Option<DataType> {
    if groups.dom().contains(g) && groups[g].channels.dom().contains(c) {
        groups[g].channels[c].data_type
    } else {
        None
    }
}

/// The object names the channel `c` of the group `g` and declares a raw data index.
pub open spec fn indexes_channel(obj: ObjectModel, g: Seq<char>, c: Seq<char>) -> bool {
    spec_parse_object_path(obj.path) == (Some(g), Some(c)) && obj.raw_data_index is Some
}

/// `n` plus the value counts that the objects declare for the channel, saturating at `u64::MAX`.
pub open spec fn declared_count(objs: Seq<ObjectModel>, g: Seq<char>, c: Seq<char>, n: u64) -> u64
    decreases objs.len(),
{
    if objs.len() == 0 {
        n
    } else {
        let before = declared_count(objs.drop_last(), g, c, n);
        if indexes_channel(objs.last(), g, c) {
            let k = objs.last().raw_data_index->0.number_of_values;
            if before + k <= u64::MAX { (before + k) as u64 } else { u64::MAX }
        } else {
            before
        }
    }
}

/// The type that the last object declaring an index for the channel gives, or `t` where none does.
pub open spec fn declared_type(objs: Seq<ObjectModel>, g: Seq<char>, c: Seq<char>, t: Option<DataType>) -> Option<DataType>
    decreases objs.len(),
{
    if objs.len() == 0 {
        t
    } else if indexes_channel(objs.last(), g, c) {
        Some(objs.last().raw_data_index->0.data_type)
    } else {
        declared_type(objs.drop_last(), g, c, t)
    }
}

/// One object: it adds its value count to the channel it indexes, and sets its
/// type; any other object leaves that channel's count and type as they were.
proof fn lemma_object_count(
    props: Map<Seq<char>, PropertyValueModel>,
    groups: Map<Seq<char>, GroupModel>,
    obj: ObjectModel,
    g: Seq<char>,
    c: Seq<char>,
)
    ensures
        ({
            let after = apply_object(props, groups, obj).1;
            &&& channel_count(after, g, c) == declared_count(seq![obj], g, c, channel_count(groups, g, c))
            &&& channel_type(after, g, c) == declared_type(seq![obj], g, c, channel_type(groups, g, c))
        }),
{
    reveal(apply_object);
    let objs = seq![obj];
    assert(objs.drop_last() =~= Seq::<ObjectModel>::empty());
    assert(objs.last() == obj);
    assert(declared_count(objs.drop_last(), g, c, channel_count(groups, g, c)) == channel_count(groups, g, c));
    assert(declared_type(objs.drop_last(), g, c, channel_type(groups, g, c)) == channel_type(groups, g, c));
    let after = apply_object(props, groups, obj).1;
    match spec_parse_object_path(obj.path) {
        (None, None) => {},
        (None, Some(_)) => {},
        (Some(g1), None) => {
            if g1 == g {
                assert(after[g].channels == (if groups.dom().contains(g) { groups[g].channels } else {
                    Map::<Seq<char>, ChannelModel>::empty() }));
            } else {
                assert(after.dom().contains(g) == groups.dom().contains(g));
            }
        },
        (Some(g1), Some(c1)) => {
            if g1 == g {
                if c1 != c {
                    assert(after[g].channels.dom().contains(c) == (groups.dom().contains(g)
                        && groups[g].channels.dom().contains(c)));
                }
            } else {
                assert(after.dom().contains(g) == groups.dom().contains(g));
            }
        },
    }
}

/// A channel's value count, after the objects of segments are applied in
/// order, is its count before plus the counts that the objects indexing it
/// declare (saturating at `u64::MAX`), and its type is the one that the last
/// of them declares, or the one it had where none does.
pub proof fn lemma_objects_count(
    props: Map<Seq<char>, PropertyValueModel>,
    groups: Map<Seq<char>, GroupModel>,
    objs: Seq<ObjectModel>,
    g: Seq<char>,
    c: Seq<char>,
)
    ensures
        ({
            let after = apply_objects(props, groups, objs).1;
            &&& channel_count(after, g, c) == declared_count(objs, g, c, channel_count(groups, g, c))
            &&& channel_type(after, g, c) == declared_type(objs, g, c, channel_type(groups, g, c))
        }),
    decreases objs.len(),
{
    if objs.len() > 0 {
        lemma_objects_count(props, groups, objs.drop_last(), g, c);
        let r = apply_objects(props, groups, objs.drop_last());
        lemma_object_count(r.0, r.1, objs.last(), g, c);
        let one = seq![objs.last()];
        assert(one.drop_last() =~= Seq::<ObjectModel>::empty());
        assert(one.last() == objs.last());
        let m = channel_count(r.1, g, c);
        let t = channel_type(r.1, g, c);
        assert(declared_count(one.drop_last(), g, c, m) == m);
        assert(declared_type(one.drop_last(), g, c, t) == t);
        assert(apply_objects(props, groups, objs) == apply_object(r.0, r.1, objs.last()));
    }
}

/// Applying two runs of objects one after the other is applying the run of both.
proof fn lemma_apply_concat(
    props: Map<Seq<char>, PropertyValueModel>,
    groups: Map<Seq<char>, GroupModel>,
    a: Seq<ObjectModel>,
    b: Seq<ObjectModel>,
)
    ensures
        apply_objects(props, groups, a + b)
            == apply_objects(apply_objects(props, groups, a).0, apply_objects(props, groups, a).1, b),
    decreases b.len(),
{
    if b.len() == 0 {
        assert(a + b =~= a);
    } else {
        lemma_apply_concat(props, groups, a, b.drop_last());
        assert((a + b).drop_last() =~= a + b.drop_last());
        assert((a + b).last() == b.last());
    }
}

/// The objects of the segments that indexing a file from `offset` reads, in
/// order: those of each segment it reads, whether it keeps the segment or not.
pub open spec fn walk_objects(data: Seq<u8>, offset: nat, prev: Map<Seq<char>, ObjectRawDataIndex>) -> Seq<ObjectModel>
    decreases data.len() - offset,
{
    if offset > data.len() || data.len() - offset < HEADER_SIZE {
        Seq::empty()
    } else {
        let hb = data.subrange(offset as int, offset + HEADER_SIZE);
        let h = spec_header_of(hb);
        let start = offset + HEADER_SIZE;
        let end = start + h.raw_data_offset;
        if hb.subrange(0, 4) != lead_in() || end > data.len() {
            Seq::empty()
        } else {
            match spec_segment(data.subrange(start as int, end), 0, h.is_big_endian, h, offset as u64, data.len() as u64, prev) {
                Err(_) => Seq::empty(),
                Ok((seg, _, prev2)) => {
                    let size = seg.segment_total_size;
                    if size != 0 && offset + size <= data.len() {
                        seg.objects + walk_objects(data, (offset + size) as nat, prev2)
                    } else {
                        seg.objects
                    }
                },
            }
        }
    }
}

/// Indexing from `offset` applies the objects that the walk reads, in order.
#[verifier::spinoff_prover]
#[verifier::rlimit(60)]
pub(crate) proof fn lemma_walk_applies(data: Seq<u8>, offset: nat, st: IndexModel, prev: Map<Seq<char>, ObjectRawDataIndex>)
    requires
        spec_walk(data, offset, st, prev) is Ok,
    ensures
        ({
            let m = spec_walk(data, offset, st, prev)->Ok_0;
            let r = apply_objects(st.properties, st.groups, walk_objects(data, offset, prev));
            m.properties == r.0 && m.groups == r.1
        }),
    decreases data.len() - offset,
{
    if offset > data.len() || data.len() - offset < HEADER_SIZE {
        assert(apply_objects(st.properties, st.groups, Seq::<ObjectModel>::empty()) == (st.properties, st.groups));
    } else {
        let hb = data.subrange(offset as int, offset + HEADER_SIZE);
        let h = spec_header_of(hb);
        let start = offset + HEADER_SIZE;
        let end = start + h.raw_data_offset;
        if hb.subrange(0, 4) != lead_in() || end > data.len() {
            assert(apply_objects(st.properties, st.groups, Seq::<ObjectModel>::empty()) == (st.properties, st.groups));
        } else {
            let r = spec_segment(data.subrange(start as int, end), 0, h.is_big_endian, h, offset as u64, data.len() as u64, prev);
            if let Ok((seg, _, prev2)) = r {
                let (p2, g2) = apply_objects(st.properties, st.groups, seg.objects);
                let size = seg.segment_total_size;
                if size != 0 && offset + size <= data.len() {
                    let st2 = IndexModel { properties: p2, groups: g2, segments: st.segments.push(seg) };
                    lemma_walk_applies(data, (offset + size) as nat, st2, prev2);
                    lemma_apply_concat(st.properties, st.groups, seg.objects,
                        walk_objects(data, (offset + size) as nat, prev2));
                }
            }
        }
    }
}

/// A channel's value count in the index of a file is the sum (saturating at
/// `u64::MAX`) of the counts that the objects indexing it declare, over the
/// segments the index reads, and its type is the one that the last of them
/// declares; a channel that no object indexes has no values and no type.
pub proof fn lemma_index_count(data: Seq<u8>, g: Seq<char>, c: Seq<char>)
    requires
        spec_index(data) is Ok,
    ensures
        ({
            let m = spec_index(data)->Ok_0;
            let objs = walk_objects(data, 0, Map::empty());
            &&& channel_count(m.groups, g, c) == declared_count(objs, g, c, 0)
            &&& channel_type(m.groups, g, c) == declared_type(objs, g, c, None)
        }),
{
    reveal(spec_index);
    lemma_walk_applies(data, 0, empty_index(), Map::empty());
    lemma_objects_count(Map::empty(), Map::empty(), walk_objects(data, 0, Map::empty()), g, c);
}

} // verus!
