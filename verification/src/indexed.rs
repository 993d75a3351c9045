//! What indexing builds: groups and channels that agree with their paths.

use vstd::prelude::*;
use crate::defrag_read::{channel_consistent, file_consistent, group_consistent, names_channel, names_group};

use crate::file::{apply_objects, spec_index, spec_walk, IndexModel, TdmsFile};
use crate::model::{apply_object, GroupModel};
use crate::namemap::{is_last_with_key, keys_distinct, lemma_map_of_last, map_of};
use crate::property::PropertyValueModel;
use crate::segment::{ObjectModel, ObjectRawDataIndex};

verus! {

/// Groups as indexing builds them: each knows its name, and each of its
/// channels knows its group and its name, has a path that names both, and
/// has no values without a type.
pub open spec fn groups_consistent(groups: Map<Seq<char>, GroupModel>) -> bool {
    forall|k: Seq<char>| #[trigger] groups.dom().contains(k) ==> {
        &&& groups[k].name == k
        &&& forall|ck: Seq<char>| #[trigger] groups[k].channels.dom().contains(ck)
            ==> channel_consistent(k, ck, groups[k].channels[ck])
    }
}

/// Every group's path names the group.
pub open spec fn paths_name_groups(groups: Map<Seq<char>, GroupModel>) -> bool {
    forall|k: Seq<char>| #[trigger] groups.dom().contains(k) ==> names_group(groups[k].path, k)
}

proof fn lemma_apply_object_consistent(
    props: Map<Seq<char>, PropertyValueModel>,
    groups: Map<Seq<char>, GroupModel>,
    obj: ObjectModel,
)
    requires
        groups_consistent(groups),
    ensures
        groups_consistent(apply_object(props, groups, obj).1),
{
    reveal(apply_object);
    reveal(names_channel);
    let r = apply_object(props, groups, obj).1;
    assert forall|k: Seq<char>| #[trigger] r.dom().contains(k) implies {
        &&& r[k].name == k
        &&& forall|ck: Seq<char>| #[trigger] r[k].channels.dom().contains(ck)
            ==> channel_consistent(k, ck, r[k].channels[ck])
    } by {
        if groups.dom().contains(k) {
            assert(groups[k].name == k);
        }
        assert forall|ck: Seq<char>| #[trigger] r[k].channels.dom().contains(ck)
            implies channel_consistent(k, ck, r[k].channels[ck]) by {
            if groups.dom().contains(k) && groups[k].channels.dom().contains(ck) {
                assert(channel_consistent(k, ck, groups[k].channels[ck]));
            }
        }
    }
}

proof fn lemma_apply_objects_consistent(
    props: Map<Seq<char>, PropertyValueModel>,
    groups: Map<Seq<char>, GroupModel>,
    objs: Seq<ObjectModel>,
)
    requires
        groups_consistent(groups),
    ensures
        groups_consistent(apply_objects(props, groups, objs).1),
    decreases objs.len(),
{
    if objs.len() > 0 {
        lemma_apply_objects_consistent(props, groups, objs.drop_last());
        let r = apply_objects(props, groups, objs.drop_last());
        lemma_apply_object_consistent(r.0, r.1, objs.last());
    }
}

proof fn lemma_walk_consistent(data: Seq<u8>, offset: nat, st: IndexModel, prev: Map<Seq<char>, ObjectRawDataIndex>)
    requires
        groups_consistent(st.groups),
        spec_walk(data, offset, st, prev) is Ok,
    ensures
        groups_consistent(spec_walk(data, offset, st, prev)->Ok_0.groups),
    decreases data.len() - offset,
{
    if offset > data.len() || data.len() - offset < crate::header::HEADER_SIZE {
    } else {
        let hb = data.subrange(offset as int, offset + crate::header::HEADER_SIZE);
        if hb.subrange(0, 4) != crate::header::lead_in() {
        } else {
            let h = crate::header::spec_header_of(hb);
            let start = offset + crate::header::HEADER_SIZE;
            let end = start + h.raw_data_offset;
            if end <= data.len() {
                let r = crate::segment::spec_segment(data.subrange(start as int, end), 0, h.is_big_endian, h, offset as u64, data.len() as u64, prev);
                if r is Ok {
                    let (seg, _, prev2) = r->Ok_0;
                    lemma_apply_objects_consistent(st.properties, st.groups, seg.objects);
                    let (p2, g2) = apply_objects(st.properties, st.groups, seg.objects);
                    let size = seg.segment_total_size;
                    if size != 0 {
                        let st2 = IndexModel { properties: p2, groups: g2, segments: st.segments.push(seg) };
                        if offset + size <= data.len() {
                            lemma_walk_consistent(data, (offset + size) as nat, st2, prev2);
                        }
                    }
                }
            }
        }
    }
}

/// Indexing builds consistent groups: each group of an indexed file knows its
/// name, and each of its channels knows its group and its name, has a path
/// that names both, and has no values without a type.
pub proof fn lemma_index_consistent(data: Seq<u8>)
    requires
        spec_index(data) is Ok,
    ensures
        groups_consistent(spec_index(data)->Ok_0.groups),
{
    reveal(spec_index);
    lemma_walk_consistent(data, 0, crate::file::empty_index(), Map::empty());
}

/// The entry of a name, among entries stored once each, holds the map's value for it.
proof fn lemma_entry_value<V>(es: Seq<(Seq<char>, V)>, i: int)
    requires
        keys_distinct(es),
        0 <= i < es.len(),
    ensures
        map_of(es).dom().contains(es[i].0),
        map_of(es)[es[i].0] == es[i].1,
{
    assert forall|j: int| i < j < es.len() implies #[trigger] es[j].0 != es[i].0 by {}
    assert(is_last_with_key(es, i, es[i].0));
    lemma_map_of_last(es, i, es[i].0);
}

/// A file whose names are stored once each, whose groups are consistent and
/// whose group paths name their groups is consistent entry by entry.
pub proof fn lemma_file_consistent(f: TdmsFile)
    requires
        keys_distinct(f.groups.entries()),
        forall|i: int| 0 <= i < f.groups.values().len() ==> keys_distinct((#[trigger] f.groups.values()[i]).channels.entries()),
        groups_consistent(f.groups@),
        paths_name_groups(f.groups@),
    ensures
        file_consistent(f),
{
    let es = f.groups.entries();
    f.groups.lemma_values();
    assert forall|i: int| 0 <= i < es.len() implies group_consistent((#[trigger] es[i]).0, f.groups.values()[i]) by {
        let k = es[i].0;
        let g = f.groups.values()[i];
        lemma_entry_value(es, i);
        assert(f.groups@[k] == g@);
        assert(f.groups@.dom().contains(k));
        assert(names_group(f.groups@[k].path, k));
        let ces = g.channels.entries();
        assert(keys_distinct(ces));
        assert forall|j: int| 0 <= j < ces.len() implies channel_consistent(k, (#[trigger] ces[j]).0, ces[j].1) by {
            lemma_entry_value(ces, j);
            assert(g@.channels == map_of(ces));
            assert(f.groups@[k].channels.dom().contains(ces[j].0));
        }
    }
}

} // verus!
