//! Groups and channels, and how the objects of a segment update them.

use vstd::prelude::*;
use vstd::string::StringExecFns;
use crate::namemap::{is_last_with_key, lemma_map_of_update_last, NameMap, PropertyMap};
use crate::path::{parse_object_path, spec_parse_object_path};
use crate::property::PropertyValueModel;
use crate::segment::{ObjectMetadata, ObjectModel};
use crate::types::DataType;

verus! {

/// A channel: a named series of values inside a group.
#[derive(Debug)]
pub struct TdmsChannel {
    pub path: String,
    pub group_name: String,
    pub name: String,
    pub properties: PropertyMap,
    pub data_type: Option<DataType>,
    pub number_of_values: u64,
}

/// A channel as contracts speak of it.
pub struct ChannelModel {
    pub path: Seq<char>,
    pub group_name: Seq<char>,
    pub name: Seq<char>,
    pub properties: Map<Seq<char>, PropertyValueModel>,
    pub data_type: Option<DataType>,
    pub number_of_values: u64,
}

impl View for TdmsChannel {
    type V = ChannelModel;

    open spec fn view(&self) -> ChannelModel {
        ChannelModel {
            path: self.path@,
            group_name: self.group_name@,
            name: self.name@,
            properties: self.properties@,
            data_type: self.data_type,
            number_of_values: self.number_of_values,
        }
    }
}

/// A channel with no properties, no type and no values yet.
pub open spec fn new_channel_model(path: Seq<char>, group_name: Seq<char>, name: Seq<char>) -> ChannelModel {
    ChannelModel {
        path: path,
        group_name: group_name,
        name: name,
        properties: Map::empty(),
        data_type: None,
        number_of_values: 0,
    }
}

impl TdmsChannel {
    pub fn new(path: String, group_name: String, name: String) -> (r: Self)
        ensures
            r@ == new_channel_model(path@, group_name@, name@),
    {
        TdmsChannel {
            path,
            group_name,
            name,
            properties: NameMap::new(),
            data_type: None,
            number_of_values: 0,
        }
    }
}

/// A group: a named set of channels.
#[derive(Debug)]
pub struct TdmsGroup {
    pub name: String,
    pub path: String,
    pub properties: PropertyMap,
    pub channels: NameMap<TdmsChannel>,
}

/// A group as contracts speak of it.
pub struct GroupModel {
    pub name: Seq<char>,
    pub path: Seq<char>,
    pub properties: Map<Seq<char>, PropertyValueModel>,
    pub channels: Map<Seq<char>, ChannelModel>,
}

impl View for TdmsGroup {
    type V = GroupModel;

    open spec fn view(&self) -> GroupModel {
        GroupModel {
            name: self.name@,
            path: self.path@,
            properties: self.properties@,
            channels: self.channels@,
        }
    }
}

/// A group with no properties and no channels yet.
pub open spec fn new_group_model(name: Seq<char>, path: Seq<char>) -> GroupModel {
    GroupModel { name: name, path: path, properties: Map::empty(), channels: Map::empty() }
}

impl TdmsGroup {
    pub fn new(name: String, path: String) -> (r: Self)
        ensures
            r@ == new_group_model(name@, path@),
    {
        TdmsGroup { name, path, properties: NameMap::new(), channels: NameMap::new() }
    }

    /// The channel of this name.
    pub fn channel(&self, name: &str) -> (r: Option<&TdmsChannel>)
        ensures
            r matches Some(c) ==> self@.channels.dom().contains(name@) && c@ == self@.channels[name@],
            r is None ==> !self@.channels.dom().contains(name@),
    {
        self.channels.get(name)
    }
}

/// The path under which a group is created when a channel names it first: `/'name'`.
pub open spec fn group_path(name: Seq<char>) -> Seq<char> {
    seq!['/', '\''] + name + seq!['\'']
}

/// The file-level properties and groups after one object of a segment: the root
/// object's properties go to the file; a group's to the group, created with the
/// object's path when new; a channel's to the channel, created when new (its
/// group with the path `/'group'`), which also takes the object's data type and
/// adds its value count (saturating).
#[verifier::opaque]
pub open spec fn apply_object(
    props: Map<Seq<char>, PropertyValueModel>,
    groups: Map<Seq<char>, GroupModel>,
    obj: ObjectModel,
) -> (Map<Seq<char>, PropertyValueModel>, Map<Seq<char>, GroupModel>) {
    match spec_parse_object_path(obj.path) {
        (None, None) => (props.union_prefer_right(obj.properties), groups),
        (Some(g), None) => {
            let grp = if groups.dom().contains(g) { groups[g] } else { new_group_model(g, obj.path) };
            (props, groups.insert(g, GroupModel { properties: grp.properties.union_prefer_right(obj.properties), ..grp }))
        },
        (Some(g), Some(c)) => {
            let grp = if groups.dom().contains(g) { groups[g] } else { new_group_model(g, group_path(g)) };
            let ch = if grp.channels.dom().contains(c) { grp.channels[c] } else { new_channel_model(obj.path, g, c) };
            let ch1 = ChannelModel { properties: ch.properties.union_prefer_right(obj.properties), ..ch };
            let ch2 = match obj.raw_data_index {
                Some(idx) => ChannelModel {
                    data_type: Some(idx.data_type),
                    number_of_values: if ch1.number_of_values + idx.number_of_values <= u64::MAX {
                        (ch1.number_of_values + idx.number_of_values) as u64
                    } else {
                        u64::MAX
                    },
                    ..ch1
                },
                None => ch1,
            };
            (props, groups.insert(g, GroupModel { channels: grp.channels.insert(c, ch2), ..grp }))
        },
        (None, Some(_)) => (props, groups),
    }
}

/// The index of the entry named `key`, inserting `make` under it first when there is none.
fn find_or_insert<V: View>(map: &mut NameMap<V>, key: &String, make: V) -> (r: usize)
    ensures
        is_last_with_key(final(map).entries(), r as int, key@),
        old(map)@.dom().contains(key@) ==> *final(map) == *old(map),
        !old(map)@.dom().contains(key@) ==> final(map)@ == old(map)@.insert(key@, make@),
{
    match map.find(key.as_str()) {
        Some(i) => {
            proof {
                crate::namemap::lemma_map_of_last(map.entries(), i as int, key@);
            }
            i
        },
        None => {
            proof {
                crate::namemap::lemma_map_of_dom(map.entries(), key@);
            }
            map.insert(key.clone(), make);
            proof {
                assert(!exists|j: int| is_last_with_key(old(map).entries(), j, key@));
                assert(map.entries() == old(map).entries().push((key@, make@)));
            }
            map.len() - 1
        },
    }
}

/// Updates the file-level properties and the groups with one object of a segment.
pub fn apply_object_to(props: &mut PropertyMap, groups: &mut NameMap<TdmsGroup>, obj: &ObjectMetadata)
    ensures
        (final(props)@, final(groups)@) == apply_object(old(props)@, old(groups)@, obj@),
{
    reveal(apply_object);
    let (g_opt, c_opt) = parse_object_path(obj.path.as_str());
    match (g_opt, c_opt) {
        (None, None) => {
            props.extend_from(&obj.properties);
            proof {
                let sp = apply_object(old(props)@, old(groups)@, obj@);
                assert(props@ =~= sp.0);
                assert(groups@ =~= sp.1);
            }
        },
        (Some(g), None) => {
            let i = find_or_insert(groups, &g, TdmsGroup::new(g.clone(), obj.path.clone()));
            let ghost e = groups.entries();
            let mut grp = groups.replace_value_at(i, TdmsGroup::new(String::new(), String::new()));
            grp.properties.extend_from(&obj.properties);
            groups.replace_value_at(i, grp);
            proof {
                assert(groups.entries() =~= e.update(i as int, (g@, grp@)));
                lemma_map_of_update_last(e, i as int, g@, grp@);
                crate::namemap::lemma_map_of_last(e, i as int, g@);
                let sp = apply_object(old(props)@, old(groups)@, obj@);
                assert(props@ =~= sp.0);
                assert(groups@ =~= sp.1);
            }
        },
        (Some(g), Some(c)) => {
            let mut gpath = String::from_str("/'");
            gpath.append(g.as_str());
            gpath.append("'");
            proof {
                reveal_strlit("/'");
                reveal_strlit("'");
                assert(gpath@ =~= group_path(g@));
            }
            let i = find_or_insert(groups, &g, TdmsGroup::new(g.clone(), gpath));
            let ghost e = groups.entries();
            proof {
                crate::namemap::lemma_map_of_last(e, i as int, g@);
            }
            let mut grp = groups.replace_value_at(i, TdmsGroup::new(String::new(), String::new()));
            let ghost grp0 = grp@;
            let j = find_or_insert(&mut grp.channels, &c, TdmsChannel::new(obj.path.clone(), g.clone(), c.clone()));
            let ghost ce = grp.channels.entries();
            let ghost chs1 = grp.channels@;
            proof {
                crate::namemap::lemma_map_of_last(ce, j as int, c@);
            }
            let mut ch = grp.channels.replace_value_at(j, TdmsChannel::new(String::new(), String::new(), String::new()));
            let ghost ch0 = ch@;
            ch.properties.extend_from(&obj.properties);
            match obj.raw_data_index {
                Some(idx) => {
                    ch.data_type = Some(idx.data_type);
                    ch.number_of_values = ch.number_of_values.saturating_add(idx.number_of_values);
                },
                None => {},
            }
            grp.channels.replace_value_at(j, ch);
            proof {
                assert(grp.channels.entries() =~= ce.update(j as int, (c@, ch@)));
            }
            groups.replace_value_at(i, grp);
            proof {
                assert(groups.entries() =~= e.update(i as int, (g@, grp@)));
                let sp = apply_object(old(props)@, old(groups)@, obj@);
                let gm = if old(groups)@.dom().contains(g@) { old(groups)@[g@] } else { new_group_model(g@, group_path(g@)) };
                assert(grp0 == gm);
                let chm = if gm.channels.dom().contains(c@) { gm.channels[c@] } else { new_channel_model(obj.path@, g@, c@) };
                assert(ch0 == chm);
                lemma_map_of_update_last(ce, j as int, c@, ch@);
                assert(grp@.channels =~= chs1.insert(c@, ch@));
                assert(grp@.channels =~= gm.channels.insert(c@, ch@));
                lemma_map_of_update_last(e, i as int, g@, grp@);
                assert(props@ =~= sp.0);
                assert(groups@ =~= sp.1);
            }
        },
        (None, Some(_)) => {},
    }
}

} // verus!
