//! A whole TDMS file: its segments, and the groups, channels and properties they describe.

use vstd::prelude::*;
use memmap2::Mmap;
use crate::error::TdmsError;
use crate::header::{lead_in, spec_header_of, SegmentHeader, HEADER_SIZE};
use crate::model::{apply_object, apply_object_to, GroupModel, TdmsChannel, TdmsGroup};
use crate::namemap::{NameMap, PropertyMap};
use crate::property::PropertyValueModel;
use crate::reader::SliceReader;
use crate::segment::{
    objects_view, spec_segment, ObjectMetadata, ObjectModel, ObjectRawDataIndex, SegmentIndex, SegmentModel,
};

verus! {

#[verifier::external_type_specification]
#[verifier::external_body]
pub struct ExMmap(Mmap);

/// The bytes that a memory map holds.
pub uninterp spec fn mmap_bytes(m: Mmap) -> Seq<u8>;

/// `Mmap`'s `Deref` to `[u8]`: the mapped bytes.
#[verifier::external_body]
pub(crate) fn mmap_slice(m: &Mmap) -> (r: &[u8])
    ensures
        r@ == mmap_bytes(*m),
{
    &m[..]
}

/// The properties, groups and segments of a file as contracts speak of them.
pub struct IndexModel {
    pub properties: Map<Seq<char>, PropertyValueModel>,
    pub groups: Map<Seq<char>, GroupModel>,
    pub segments: Seq<SegmentModel>,
}

pub open spec fn empty_index() -> IndexModel {
    IndexModel { properties: Map::empty(), groups: Map::empty(), segments: Seq::empty() }
}

/// The properties and groups after the objects of a segment, in order.
pub open spec fn apply_objects(
    props: Map<Seq<char>, PropertyValueModel>,
    groups: Map<Seq<char>, GroupModel>,
    objs: Seq<ObjectModel>,
) -> (Map<Seq<char>, PropertyValueModel>, Map<Seq<char>, GroupModel>)
    decreases objs.len(),
{
    if objs.len() == 0 {
        (props, groups)
    } else {
        let r = apply_objects(props, groups, objs.drop_last());
        apply_object(r.0, r.1, objs.last())
    }
}

/// An array holding the given four bytes.
pub open spec fn bytes4(b: Seq<u8>) -> [u8; 4] {
    choose|a: [u8; 4]| a@ == b
}

pub open spec fn segments_view(v: Seq<SegmentIndex>) -> Seq<SegmentModel> {
    v.map_values(|s: SegmentIndex| s@)
}

/// Indexing a file from the segment at `offset` on. A segment is read while a
/// whole lead-in remains; a bad lead-in fails the file when it is the first,
/// and ends the index otherwise. The metadata must lie inside the file. Each
/// segment's objects update the properties and groups; a segment of size zero
/// ends the index without being kept, and the next segment starts where the
/// segment's size says.
pub open spec fn spec_walk(data: Seq<u8>, offset: nat, st: IndexModel, prev: Map<Seq<char>, ObjectRawDataIndex>)
    -> Result<IndexModel, TdmsError>
    decreases data.len() - offset,
{
    if offset > data.len() || data.len() - offset < HEADER_SIZE {
        Ok(st)
    } else {
        let hb = data.subrange(offset as int, offset + HEADER_SIZE);
        if hb.subrange(0, 4) != lead_in() {
            if offset == 0 { Err(TdmsError::InvalidLeadIn(bytes4(hb.subrange(0, 4)))) } else { Ok(st) }
        } else {
            let h = spec_header_of(hb);
            let start = offset + HEADER_SIZE;
            let end = start + h.raw_data_offset;
            if end > data.len() {
                Err(TdmsError::UnexpectedEof {
                    required: if end <= usize::MAX { end as usize } else { usize::MAX },
                    available: data.len() as usize,
                })
            } else {
                match spec_segment(data.subrange(start as int, end), 0, h.is_big_endian, h, offset as u64, data.len() as u64, prev) {
                    Err(e) => Err(e),
                    Ok((seg, _, prev2)) => {
                        let (p2, g2) = apply_objects(st.properties, st.groups, seg.objects);
                        let size = seg.segment_total_size;
                        if size == 0 {
                            Ok(IndexModel { properties: p2, groups: g2, segments: st.segments })
                        } else {
                            let st2 = IndexModel { properties: p2, groups: g2, segments: st.segments.push(seg) };
                            if offset + size <= data.len() {
                                spec_walk(data, (offset + size) as nat, st2, prev2)
                            } else {
                                Ok(st2)
                            }
                        }
                    },
                }
            }
        }
    }
}

/// The index of the whole file.
#[verifier::opaque]
pub open spec fn spec_index(data: Seq<u8>) -> Result<IndexModel, TdmsError> {
    spec_walk(data, 0, empty_index(), Map::empty())
}

/// The properties and groups after each object of a segment, in order.
fn apply_segment_objects(props: &mut PropertyMap, groups: &mut NameMap<TdmsGroup>, objects: &Vec<ObjectMetadata>)
    ensures
        (final(props)@, final(groups)@) == apply_objects(old(props)@, old(groups)@, objects_view(objects@)),
{
    let ghost objs = objects_view(objects@);
    let mut i: usize = 0;
    assert(objs.take(0) =~= Seq::<ObjectModel>::empty());
    while i < objects.len()
        invariant
            i <= objects@.len(),
            objs == objects_view(objects@),
            (props@, groups@) == apply_objects(old(props)@, old(groups)@, objs.take(i as int)),
        decreases objects@.len() - i,
    {
        apply_object_to(props, groups, &objects[i]);
        proof {
            assert(objs.take(i + 1).drop_last() =~= objs.take(i as int));
            assert(objs.take(i + 1).last() == objects@[i as int]@);
        }
        i = i + 1;
    }
    assert(objs.take(objs.len() as int) =~= objs);
}

/// The model of the indexing state.
pub open spec fn state_of(props: &PropertyMap, groups: &NameMap<TdmsGroup>, segments: &Vec<SegmentIndex>) -> IndexModel {
    IndexModel { properties: props@, groups: groups@, segments: segments_view(segments@) }
}

/// Indexes the segment at `offset`: `None` where indexing ends there, else the
/// offset of the next segment.
fn index_one(
    data: &[u8],
    offset: u64,
    props: &mut PropertyMap,
    groups: &mut NameMap<TdmsGroup>,
    segments: &mut Vec<SegmentIndex>,
    prev_index_map: &mut NameMap<ObjectRawDataIndex>,
) -> (r: Result<Option<u64>, TdmsError>)
    requires
        offset <= data@.len(),
    ensures
        match r {
            Err(e) => spec_walk(data@, offset as nat, state_of(old(props), old(groups), old(segments)), old(prev_index_map)@)
                == Err::<IndexModel, TdmsError>(e),
            Ok(None) => spec_walk(data@, offset as nat, state_of(old(props), old(groups), old(segments)), old(prev_index_map)@)
                == Ok::<IndexModel, TdmsError>(state_of(final(props), final(groups), final(segments))),
            Ok(Some(o)) => offset < o <= data@.len()
                && spec_walk(data@, offset as nat, state_of(old(props), old(groups), old(segments)), old(prev_index_map)@)
                == spec_walk(data@, o as nat, state_of(final(props), final(groups), final(segments)), final(prev_index_map)@),
        },
{
    let total_size = data.len() as u64;
    if total_size - offset < HEADER_SIZE as u64 {
        return Ok(None);
    }
    let off = offset as usize;
    let mut header_bytes = [0u8; HEADER_SIZE];
    let mut k: usize = 0;
    while k < HEADER_SIZE
        invariant
            k <= HEADER_SIZE,
            data@.len() <= usize::MAX,
            off + HEADER_SIZE <= data@.len(),
            forall|j: int| 0 <= j < k ==> header_bytes@[j] == data@[off + j],
        decreases HEADER_SIZE - k,
    {
        header_bytes[k] = data[off + k];
        k = k + 1;
    }
    let ghost hb = data@.subrange(off as int, off + HEADER_SIZE);
    assert(header_bytes@ =~= hb);

    let header = match SegmentHeader::parse(&header_bytes) {
        Ok(h) => h,
        Err(e) => {
            if offset == 0 {
                proof {
                    let a = bytes4(hb.subrange(0, 4));
                    if let TdmsError::InvalidLeadIn(x) = e {
                        assert(exists|b: [u8; 4]| b@ == hb.subrange(0, 4));
                        assert(x =~= a);
                    }
                }
                return Err(e);
            } else {
                return Ok(None);
            }
        },
    };

    let metadata_slice_start = off + HEADER_SIZE;
    let end_opt = (metadata_slice_start as u64).checked_add(header.raw_data_offset);
    let end_u64 = match end_opt {
        Some(e) => e,
        None => u64::MAX,
    };
    if end_opt.is_none() || end_u64 > total_size {
        let required: usize = if end_opt.is_some() && end_u64 <= usize::MAX as u64 {
            end_u64 as usize
        } else {
            usize::MAX
        };
        return Err(TdmsError::UnexpectedEof { required, available: data.len() });
    }
    let metadata_slice_end = end_u64 as usize;

    let metadata_slice = &data[metadata_slice_start..metadata_slice_end];
    let mut reader = SliceReader::new(metadata_slice, header.is_big_endian);

    let segment_index = SegmentIndex::parse_metadata(&mut reader, &header, offset, total_size, prev_index_map)?;

    // Update Object Hierarchy & Properties
    apply_segment_objects(props, groups, &segment_index.objects);

    let size = segment_index.segment_total_size;
    if size == 0 {
        return Ok(None);
    }
    let ghost before = segments@;
    segments.push(segment_index);
    proof {
        assert(segments_view(segments@) =~= segments_view(before).push(segments@.last()@));
    }
    if total_size - offset < size {
        return Ok(None);
    }
    Ok(Some(offset + size))
}

/// Indexes the segments of a file held in `data`.
pub fn index_segments(data: &[u8]) -> (r: Result<(PropertyMap, NameMap<TdmsGroup>, Vec<SegmentIndex>), TdmsError>)
    ensures
        match spec_index(data@) {
            Ok(m) => r matches Ok((p, g, s)) && p@ == m.properties && g@ == m.groups
                && segments_view(s@) == m.segments,
            Err(e) => r matches Err(x) && x == e,
        },
{
    reveal(spec_index);
    let mut offset: u64 = 0;
    let mut segments: Vec<SegmentIndex> = Vec::new();
    let mut root_properties: PropertyMap = NameMap::new();
    let mut groups: NameMap<TdmsGroup> = NameMap::new();
    let mut prev_index_map: NameMap<ObjectRawDataIndex> = NameMap::new();
    assert(segments_view(segments@) =~= Seq::<SegmentModel>::empty());

    loop
        invariant_except_break
            offset <= data@.len(),
            spec_index(data@) == spec_walk(data@, offset as nat,
                state_of(&root_properties, &groups, &segments), prev_index_map@),
        ensures
            spec_index(data@) == Ok::<IndexModel, TdmsError>(state_of(&root_properties, &groups, &segments)),
        decreases data@.len() - offset,
    {
        match index_one(data, offset, &mut root_properties, &mut groups, &mut segments, &mut prev_index_map) {
            Err(e) => return Err(e),
            Ok(None) => break,
            Ok(Some(o)) => {
                offset = o;
            },
        }
    }
    Ok((root_properties, groups, segments))
}

/// A parsed TDMS file over the memory map that holds it.
#[derive(Debug)]
pub struct TdmsFile {
    pub properties: PropertyMap,
    pub groups: NameMap<TdmsGroup>,
    pub segments: Vec<SegmentIndex>,
    pub mmap: Mmap,
}

impl TdmsFile {
    /// The bytes of the file.
    pub open spec fn bytes(&self) -> Seq<u8> {
        mmap_bytes(self.mmap)
    }

    /// Parse TDMS file directly from an existing memory map.
    pub fn from_mmap(mmap: Mmap) -> (r: Result<Self, TdmsError>)
        ensures
            match spec_index(mmap_bytes(mmap)) {
                Ok(m) => r matches Ok(f) && f.properties@ == m.properties && f.groups@ == m.groups
                    && segments_view(f.segments@) == m.segments && f.bytes() == mmap_bytes(mmap),
                Err(e) => r matches Err(x) && x == e,
            },
    {
        let data = mmap_slice(&mmap);
        let (properties, groups, segments) = index_segments(data)?;
        Ok(TdmsFile { properties, groups, segments, mmap })
    }

    pub fn group(&self, name: &str) -> (r: Option<&TdmsGroup>)
        ensures
            r matches Some(g) ==> self.groups@.dom().contains(name@) && g@ == self.groups@[name@],
            r is None ==> !self.groups@.dom().contains(name@),
    {
        self.groups.get(name)
    }

    pub fn channel(&self, group_name: &str, channel_name: &str) -> (r: Option<&TdmsChannel>)
        ensures
            r matches Some(c) ==> self.groups@.dom().contains(group_name@)
                && self.groups@[group_name@].channels.dom().contains(channel_name@)
                && c@ == self.groups@[group_name@].channels[channel_name@],
            r is None ==> !(self.groups@.dom().contains(group_name@)
                && self.groups@[group_name@].channels.dom().contains(channel_name@)),
    {
        match self.group(group_name) {
            Some(g) => g.channel(channel_name),
            None => None,
        }
    }

    /// The memory map that holds the file.
    pub fn mmap(&self) -> (r: &Mmap)
        ensures
            mmap_bytes(*r) == self.bytes(),
    {
        &self.mmap
    }
}

} // verus!
