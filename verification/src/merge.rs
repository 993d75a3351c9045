//! How the properties that segments list for an object add up.

use vstd::prelude::*;
use crate::counts::{lemma_walk_applies, walk_objects};
use crate::file::{apply_objects, empty_index, spec_index};
use crate::model::{apply_object, GroupModel};
use crate::path::spec_parse_object_path;
use crate::property::PropertyValueModel;
use crate::segment::ObjectModel;

verus! {

/// `result` holds the names of `old` and of `new`; a name that `new` gives
/// takes its value there, and any other keeps its value in `old`.
pub open spec fn merged(
    old: Map<Seq<char>, PropertyValueModel>,
    new: Map<Seq<char>, PropertyValueModel>,
    result: Map<Seq<char>, PropertyValueModel>,
) -> bool {
    &&& forall|k: Seq<char>| #[trigger] result.dom().contains(k) <==> (old.dom().contains(k) || new.dom().contains(k))
    &&& forall|k: Seq<char>| new.dom().contains(k) ==> #[trigger] result[k] == new[k]
    &&& forall|k: Seq<char>| old.dom().contains(k) && !new.dom().contains(k) ==> #[trigger] result[k] == old[k]
}

/// The properties of the group `g`: none where there is no such group.
pub open spec fn group_props(groups: Map<Seq<char>, GroupModel>, g: Seq<char>) -> Map<Seq<char>, PropertyValueModel> {
    if groups.dom().contains(g) { groups[g].properties } else { Map::empty() }
}

/// The properties of the channel `c` of the group `g`: none where there is no such channel.
pub open spec fn channel_props(groups: Map<Seq<char>, GroupModel>, g: Seq<char>, c: Seq<char>)
    -> Map<Seq<char>, PropertyValueModel>
{
    if groups.dom().contains(g) && groups[g].channels.dom().contains(c) {
        groups[g].channels[c].properties
    } else {
        Map::empty()
    }
}

/// Listing an object adds its properties to those the object already has: the
/// root's to the file's, a group's to the group's, a channel's to the
/// channel's. Each name it lists takes the listed value, and every other name
/// keeps its value; a listing without properties changes none.
pub proof fn lemma_object_merges_properties(
    props: Map<Seq<char>, PropertyValueModel>,
    groups: Map<Seq<char>, GroupModel>,
    obj: ObjectModel,
)
    ensures
        ({
            let (p2, g2) = apply_object(props, groups, obj);
            match spec_parse_object_path(obj.path) {
                (None, None) => merged(props, obj.properties, p2) && g2 == groups,
                (Some(g), None) => g2.dom().contains(g) && merged(group_props(groups, g), obj.properties, g2[g].properties)
                    && p2 == props,
                (Some(g), Some(c)) => g2.dom().contains(g) && g2[g].channels.dom().contains(c)
                    && merged(channel_props(groups, g, c), obj.properties, g2[g].channels[c].properties)
                    && p2 == props,
                (None, Some(_)) => p2 == props && g2 == groups,
            }
        }),
{
    reveal(apply_object);
}

/// An object leaves the properties of a group that it does not list as they were.
proof fn lemma_object_keeps_other_group(
    props: Map<Seq<char>, PropertyValueModel>,
    groups: Map<Seq<char>, GroupModel>,
    obj: ObjectModel,
    g: Seq<char>,
)
    requires
        groups.dom().contains(g),
        spec_parse_object_path(obj.path) != (Some(g), None::<Seq<char>>),
    ensures
        apply_object(props, groups, obj).1.dom().contains(g),
        apply_object(props, groups, obj).1[g].properties == groups[g].properties,
{
    reveal(apply_object);
}

/// A group's properties add up over the listings of segments: a property that
/// a listing of the group gives, and that no later listing of it gives again,
/// keeps that listing's value after all the objects.
pub proof fn lemma_group_property_kept(
    props: Map<Seq<char>, PropertyValueModel>,
    groups: Map<Seq<char>, GroupModel>,
    objs: Seq<ObjectModel>,
    g: Seq<char>,
    k: Seq<char>,
    j: int,
)
    requires
        0 <= j < objs.len(),
        spec_parse_object_path(objs[j].path) == (Some(g), None::<Seq<char>>),
        objs[j].properties.dom().contains(k),
        forall|i: int| j < i < objs.len() && spec_parse_object_path(#[trigger] objs[i].path) == (Some(g), None::<Seq<char>>)
            ==> !objs[i].properties.dom().contains(k),
    ensures
        apply_objects(props, groups, objs).1.dom().contains(g),
        apply_objects(props, groups, objs).1[g].properties.dom().contains(k),
        apply_objects(props, groups, objs).1[g].properties[k] == objs[j].properties[k],
    decreases objs.len(),
{
    let r = apply_objects(props, groups, objs.drop_last());
    let last = objs.last();
    lemma_object_merges_properties(r.0, r.1, last);
    if j == objs.len() - 1 {
    } else {
        let o0 = objs.drop_last();
        assert forall|i: int| j < i < o0.len() && spec_parse_object_path(#[trigger] o0[i].path) == (Some(g), None::<Seq<char>>)
            implies !o0[i].properties.dom().contains(k) by {
            assert(o0[i] == objs[i]);
        }
        assert(o0[j] == objs[j]);
        lemma_group_property_kept(props, groups, o0, g, k, j);
        if spec_parse_object_path(last.path) == (Some(g), None::<Seq<char>>) {
            assert(last == objs[objs.len() - 1]);
        } else {
            lemma_object_keeps_other_group(r.0, r.1, last, g);
        }
    }
}

/// In the index of a file, a group's property that a listing of the group in
/// one of the segments read gives, and that no later listing gives again,
/// has that listing's value.
pub proof fn lemma_index_group_property(data: Seq<u8>, g: Seq<char>, k: Seq<char>, j: int)
    requires
        spec_index(data) is Ok,
        0 <= j < walk_objects(data, 0, Map::empty()).len(),
        spec_parse_object_path(walk_objects(data, 0, Map::empty())[j].path) == (Some(g), None::<Seq<char>>),
        walk_objects(data, 0, Map::empty())[j].properties.dom().contains(k),
        forall|i: int| j < i < walk_objects(data, 0, Map::empty()).len()
            && spec_parse_object_path(#[trigger] walk_objects(data, 0, Map::empty())[i].path) == (Some(g), None::<Seq<char>>)
            ==> !walk_objects(data, 0, Map::empty())[i].properties.dom().contains(k),
    ensures
        spec_index(data)->Ok_0.groups.dom().contains(g),
        spec_index(data)->Ok_0.groups[g].properties.dom().contains(k),
        spec_index(data)->Ok_0.groups[g].properties[k] == walk_objects(data, 0, Map::empty())[j].properties[k],
{
    reveal(spec_index);
    lemma_walk_applies(data, 0, empty_index(), Map::empty());
    lemma_group_property_kept(Map::empty(), Map::empty(), walk_objects(data, 0, Map::empty()), g, k, j);
}

} // verus!
