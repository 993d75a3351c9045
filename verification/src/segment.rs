//! The metadata block of a segment: its objects, their raw data layout and their properties.

use vstd::prelude::*;
use crate::error::TdmsError;
use crate::header::{SegmentHeader, HEADER_SIZE};
use crate::namemap::{map_of, NameMap, PropertyMap};
use crate::property::{spec_property_value, PropertyValue, PropertyValueModel};
use crate::reader::{spec_bytes, spec_data_type, spec_string, spec_u32, spec_u64, SliceReader};
use crate::types::DataType;

verus! {

/// Where an object's raw data stands in a segment and how much of it there is.
#[derive(Debug, Clone, Copy, PartialEq, Eq, Structural)]
pub struct ObjectRawDataIndex {
    pub data_type: DataType,
    pub dimension: u32,
    pub number_of_values: u64,
    pub total_size_bytes: Option<u64>,
}

impl View for ObjectRawDataIndex {
    type V = ObjectRawDataIndex;

    open spec fn view(&self) -> ObjectRawDataIndex {
        *self
    }
}

/// One object (the file, a group or a channel) as a segment describes it.
#[derive(Debug)]
pub struct ObjectMetadata {
    pub path: String,
    pub raw_data_index: Option<ObjectRawDataIndex>,
    pub properties: PropertyMap,
}

/// An object's description as contracts speak of it.
pub struct ObjectModel {
    pub path: Seq<char>,
    pub raw_data_index: Option<ObjectRawDataIndex>,
    pub properties: Map<Seq<char>, PropertyValueModel>,
}

impl View for ObjectMetadata {
    type V = ObjectModel;

    open spec fn view(&self) -> ObjectModel {
        ObjectModel {
            path: self.path@,
            raw_data_index: self.raw_data_index,
            properties: self.properties@,
        }
    }
}

/// The index of one segment: its header, where its parts stand in the file and its objects.
#[derive(Debug)]
pub struct SegmentIndex {
    pub header: SegmentHeader,
    pub header_offset: u64,
    pub metadata_offset: u64,
    pub raw_data_offset: u64,
    pub segment_total_size: u64,
    pub objects: Vec<ObjectMetadata>,
}

/// A segment's index as contracts speak of it.
pub struct SegmentModel {
    pub header: SegmentHeader,
    pub header_offset: u64,
    pub metadata_offset: u64,
    pub raw_data_offset: u64,
    pub segment_total_size: u64,
    pub objects: Seq<ObjectModel>,
}

pub open spec fn objects_view(v: Seq<ObjectMetadata>) -> Seq<ObjectModel> {
    v.map_values(|o: ObjectMetadata| o@)
}

impl View for SegmentIndex {
    type V = SegmentModel;

    open spec fn view(&self) -> SegmentModel {
        SegmentModel {
            header: self.header,
            header_offset: self.header_offset,
            metadata_offset: self.metadata_offset,
            raw_data_offset: self.raw_data_offset,
            segment_total_size: self.segment_total_size,
            objects: objects_view(self.objects@),
        }
    }
}

/// `n` properties, each a name and a value, read one after the other from `p`.
pub open spec fn spec_properties(s: Seq<u8>, be: bool, p: int, n: nat)
    -> Result<(Seq<(Seq<char>, PropertyValueModel)>, int), TdmsError>
    decreases n,
{
    if n == 0 {
        Ok((Seq::empty(), p))
    } else {
        match spec_properties(s, be, p, (n - 1) as nat) {
            Err(e) => Err(e),
            Ok((es, p1)) => match spec_string(s, be, p1) {
                Err(e) => Err(e),
                Ok((k, p2)) => match spec_property_value(s, be, p2) {
                    Err(e) => Err(e),
                    Ok((v, p3)) => Ok((es.push((k, v)), p3)),
                },
            },
        }
    }
}

/// The stored total byte count of a raw data index, present for strings only.
pub open spec fn spec_total_size(s: Seq<u8>, be: bool, p: int, d: DataType) -> Result<(Option<u64>, int), TdmsError> {
    if d == DataType::String {
        match spec_u64(s, be, p) {
            Ok((t, p1)) => Ok((Some(t), p1)),
            Err(e) => Err(e),
        }
    } else {
        Ok((None, p))
    }
}

/// A raw data index whose stored length is `len`: type, dimension, value count,
/// for strings the total byte count, then as many more bytes as the length
/// gives beyond those read, which are skipped.
#[verifier::opaque]
pub open spec fn spec_raw_index(s: Seq<u8>, be: bool, p: int, len: u32) -> Result<(ObjectRawDataIndex, int), TdmsError> {
    match spec_data_type(s, be, p) {
        Err(e) => Err(e),
        Ok((d, p1)) => match spec_u32(s, be, p1) {
            Err(e) => Err(e),
            Ok((dim, p2)) => match spec_u64(s, be, p2) {
                Err(e) => Err(e),
                Ok((nv, p3)) => match spec_total_size(s, be, p3, d) {
                    Err(e) => Err(e),
                    Ok((tot, p4)) => {
                        let idx = ObjectRawDataIndex {
                            data_type: d,
                            dimension: dim,
                            number_of_values: nv,
                            total_size_bytes: tot,
                        };
                        let read: int = if d == DataType::String { 24 } else { 16 };
                        if len > read {
                            match spec_bytes(s, p4, len - read) {
                                Ok((_, p5)) => Ok((idx, p5)),
                                Err(e) => Err(e),
                            }
                        } else {
                            Ok((idx, p4))
                        }
                    },
                },
            },
        },
    }
}

/// The raw data part of an object whose stored length word is `len`: none for
/// `0xFFFF_FFFF`, the index last stored for the path for `0`, else a new index,
/// which is stored for the path.
pub open spec fn spec_raw_part(
    s: Seq<u8>,
    be: bool,
    p: int,
    len: u32,
    path: Seq<char>,
    prev: Map<Seq<char>, ObjectRawDataIndex>,
) -> Result<(Option<ObjectRawDataIndex>, int, Map<Seq<char>, ObjectRawDataIndex>), TdmsError> {
    if len == 0xFFFF_FFFF {
        Ok((None, p, prev))
    } else if len == 0 {
        Ok((if prev.dom().contains(path) { Some(prev[path]) } else { None }, p, prev))
    } else {
        match spec_raw_index(s, be, p, len) {
            Ok((idx, p1)) => Ok((Some(idx), p1, prev.insert(path, idx))),
            Err(e) => Err(e),
        }
    }
}

/// One object: its path, its raw data part and its properties.
#[verifier::opaque]
pub open spec fn spec_object(s: Seq<u8>, be: bool, p: int, prev: Map<Seq<char>, ObjectRawDataIndex>)
    -> Result<(ObjectModel, int, Map<Seq<char>, ObjectRawDataIndex>), TdmsError>
{
    match spec_string(s, be, p) {
        Err(e) => Err(e),
        Ok((path, p1)) => match spec_u32(s, be, p1) {
            Err(e) => Err(e),
            Ok((len, p2)) => match spec_raw_part(s, be, p2, len, path, prev) {
                Err(e) => Err(e),
                Ok((rdi, p3, prev2)) => match spec_u32(s, be, p3) {
                    Err(e) => Err(e),
                    Ok((np, p4)) => match spec_properties(s, be, p4, np as nat) {
                        Err(e) => Err(e),
                        Ok((es, p5)) => Ok((
                            ObjectModel { path: path, raw_data_index: rdi, properties: map_of(es) },
                            p5,
                            prev2,
                        )),
                    },
                },
            },
        },
    }
}

/// `n` objects read one after the other from `p`.
pub open spec fn spec_objects(s: Seq<u8>, be: bool, p: int, n: nat, prev: Map<Seq<char>, ObjectRawDataIndex>)
    -> Result<(Seq<ObjectModel>, int, Map<Seq<char>, ObjectRawDataIndex>), TdmsError>
    decreases n,
{
    if n == 0 {
        Ok((Seq::empty(), p, prev))
    } else {
        match spec_objects(s, be, p, (n - 1) as nat, prev) {
            Err(e) => Err(e),
            Ok((os, p1, m1)) => match spec_object(s, be, p1, m1) {
                Err(e) => Err(e),
                Ok((o, p2, m2)) => Ok((os.push(o), p2, m2)),
            },
        }
    }
}

/// The bytes a segment takes: up to the end of the file when its next-segment
/// offset is all ones, else the lead-in and that offset (at most `u64::MAX`).
pub open spec fn spec_segment_total_size(h: SegmentHeader, header_offset: u64, total_file_size: u64) -> u64 {
    if h.next_segment_offset == 0xFFFF_FFFF_FFFF_FFFF {
        if total_file_size >= header_offset { (total_file_size - header_offset) as u64 } else { 0 }
    } else if HEADER_SIZE + h.next_segment_offset <= u64::MAX {
        (HEADER_SIZE + h.next_segment_offset) as u64
    } else {
        u64::MAX
    }
}

/// The index of a segment whose metadata is read from `p` in the byte order `be`: an object count and
/// that many objects when the header says there is metadata, no objects otherwise.
pub open spec fn spec_segment(
    s: Seq<u8>,
    p: int,
    be: bool,
    h: SegmentHeader,
    header_offset: u64,
    total_file_size: u64,
    prev: Map<Seq<char>, ObjectRawDataIndex>,
) -> Result<(SegmentModel, int, Map<Seq<char>, ObjectRawDataIndex>), TdmsError> {
    let metadata_offset = (header_offset + HEADER_SIZE) as u64;
    let model = |objects: Seq<ObjectModel>| SegmentModel {
        header: h,
        header_offset: header_offset,
        metadata_offset: metadata_offset,
        raw_data_offset: (metadata_offset + h.raw_data_offset) as u64,
        segment_total_size: spec_segment_total_size(h, header_offset, total_file_size),
        objects: objects,
    };
    if h.has_metadata {
        match spec_u32(s, be, p) {
            Err(e) => Err(e),
            Ok((n, p1)) => match spec_objects(s, be, p1, n as nat, prev) {
                Err(e) => Err(e),
                Ok((os, p2, m2)) => Ok((model(os), p2, m2)),
            },
        }
    } else {
        Ok((model(Seq::empty()), p, prev))
    }
}

/// Once a read of the first `k` properties fails, reading more fails the same way.
proof fn lemma_properties_error(s: Seq<u8>, be: bool, p: int, k: nat, n: nat)
    requires
        k <= n,
        spec_properties(s, be, p, k) is Err,
    ensures
        spec_properties(s, be, p, n) == spec_properties(s, be, p, k),
    decreases n,
{
    if n > k {
        lemma_properties_error(s, be, p, k, (n - 1) as nat);
    }
}

/// Once a read of the first `k` objects fails, reading more fails the same way.
proof fn lemma_objects_error(s: Seq<u8>, be: bool, p: int, k: nat, n: nat, prev: Map<Seq<char>, ObjectRawDataIndex>)
    requires
        k <= n,
        spec_objects(s, be, p, k, prev) is Err,
    ensures
        spec_objects(s, be, p, n, prev) == spec_objects(s, be, p, k, prev),
    decreases n,
{
    if n > k {
        lemma_objects_error(s, be, p, k, (n - 1) as nat, prev);
    }
}

/// Reads `n` properties into a map; a later property of the same name wins.
pub fn parse_properties(reader: &mut SliceReader, n: u32) -> (r: Result<PropertyMap, TdmsError>)
    requires
        old(reader).wf(),
    ensures
        final(reader).wf(),
        final(reader).bytes() == old(reader).bytes(),
        final(reader).is_big_endian() == old(reader).is_big_endian(),
        match spec_properties(old(reader).bytes(), old(reader).is_big_endian(), old(reader).position(), n as nat) {
            Ok((es, p)) => r matches Ok(m) && m@ == map_of(es) && final(reader).position() == p,
            Err(e) => r matches Err(x) && x == e,
        },
{
    let ghost s = reader.bytes();
    let ghost be = reader.is_big_endian();
    let ghost p0 = reader.position();
    let mut properties: PropertyMap = NameMap::new();
    let ghost mut es: Seq<(Seq<char>, PropertyValueModel)> = Seq::empty();
    let mut i: u32 = 0;
    while i < n
        invariant
            i <= n,
            reader.wf(),
            old(reader).position() == p0,
            old(reader).bytes() == s,
            old(reader).is_big_endian() == be,
            reader.bytes() == s,
            reader.is_big_endian() == be,
            spec_properties(s, be, p0, i as nat) == Ok::<(Seq<(Seq<char>, PropertyValueModel)>, int), TdmsError>((es, reader.position())),
            properties@ == map_of(es),
        decreases n - i,
    {
        let ghost p1 = reader.position();
        let name = match reader.read_string() {
            Ok(x) => x,
            Err(e) => {
                proof {
                    assert(spec_properties(s, be, p0, (i + 1) as nat) == Err::<(Seq<(Seq<char>, PropertyValueModel)>, int), TdmsError>(e));
                    lemma_properties_error(s, be, p0, (i + 1) as nat, n as nat);
                }
                return Err(e);
            },
        };
        let value = match PropertyValue::parse(reader) {
            Ok(x) => x,
            Err(e) => {
                proof {
                    assert(spec_properties(s, be, p0, (i + 1) as nat) == Err::<(Seq<(Seq<char>, PropertyValueModel)>, int), TdmsError>(e));
                    lemma_properties_error(s, be, p0, (i + 1) as nat, n as nat);
                }
                return Err(e);
            },
        };
        proof {
            assert(es.push((name@, value@)).drop_last() =~= es);
            es = es.push((name@, value@));
        }
        properties.insert(name, value);
        i = i + 1;
    }
    Ok(properties)
}

/// Reads the raw data part of an object whose stored length word is `len`.
fn parse_raw_part(
    reader: &mut SliceReader,
    len: u32,
    path: &String,
    prev_index_map: &mut NameMap<ObjectRawDataIndex>,
) -> (r: Result<Option<ObjectRawDataIndex>, TdmsError>)
    requires
        old(reader).wf(),
    ensures
        final(reader).wf(),
        final(reader).bytes() == old(reader).bytes(),
        final(reader).is_big_endian() == old(reader).is_big_endian(),
        match spec_raw_part(old(reader).bytes(), old(reader).is_big_endian(), old(reader).position(), len, path@, old(prev_index_map)@) {
            Ok((rdi, p, m)) => r == Ok::<Option<ObjectRawDataIndex>, TdmsError>(rdi)
                && final(reader).position() == p && final(prev_index_map)@ == m,
            Err(e) => r matches Err(x) && x == e,
        },
{
    if len == 0xFFFF_FFFF {
        // No raw data for this object in this segment
        return Ok(None);
    }
    if len == 0 {
        // Reuses previous segment raw data index layout
        return match prev_index_map.get(path.as_str()) {
            Some(idx) => Ok(Some(*idx)),
            None => Ok(None),
        };
    }
    reveal(spec_raw_index);
    let dtype = reader.read_data_type()?;
    let dimension = reader.read_u32()?;
    let number_of_values = reader.read_u64()?;
    let mut bytes_read: u32 = 16;
    let total_size_bytes = if dtype == DataType::String {
        bytes_read = bytes_read + 8;
        Some(reader.read_u64()?)
    } else {
        None
    };
    if len > bytes_read {
        reader.read_bytes((len - bytes_read) as usize)?;
    }
    let idx = ObjectRawDataIndex { data_type: dtype, dimension, number_of_values, total_size_bytes };
    prev_index_map.insert(path.clone(), idx);
    Ok(Some(idx))
}

/// Reads one object.
fn parse_object(reader: &mut SliceReader, prev_index_map: &mut NameMap<ObjectRawDataIndex>)
    -> (r: Result<ObjectMetadata, TdmsError>)
    requires
        old(reader).wf(),
    ensures
        final(reader).wf(),
        final(reader).bytes() == old(reader).bytes(),
        final(reader).is_big_endian() == old(reader).is_big_endian(),
        match spec_object(old(reader).bytes(), old(reader).is_big_endian(), old(reader).position(), old(prev_index_map)@) {
            Ok((o, p, m)) => r matches Ok(x) && x@ == o && final(reader).position() == p
                && final(prev_index_map)@ == m,
            Err(e) => r matches Err(x) && x == e,
        },
{
    reveal(spec_object);
    let path = reader.read_string()?;
    let raw_data_header = reader.read_u32()?;
    let raw_data_index = parse_raw_part(reader, raw_data_header, &path, prev_index_map)?;
    let num_properties = reader.read_u32()?;
    let properties = parse_properties(reader, num_properties)?;
    Ok(ObjectMetadata { path, raw_data_index, properties })
}

impl SegmentIndex {
    /// Reads the metadata of the segment whose header is `header` and that starts
    /// at `header_offset` in a file of `total_file_size` bytes. The raw data
    /// indexes that objects define are stored in `prev_index_map` by path, and an
    /// object whose index length word is zero takes the index stored there.
    pub fn parse_metadata(
        reader: &mut SliceReader,
        header: &SegmentHeader,
        header_offset: u64,
        total_file_size: u64,
        prev_index_map: &mut NameMap<ObjectRawDataIndex>,
    ) -> (r: Result<Self, TdmsError>)
        requires
            old(reader).wf(),
            header_offset + HEADER_SIZE + header.raw_data_offset <= u64::MAX,
        ensures
            final(reader).wf(),
            final(reader).bytes() == old(reader).bytes(),
            final(reader).is_big_endian() == old(reader).is_big_endian(),
            match spec_segment(old(reader).bytes(), old(reader).position(), old(reader).is_big_endian(), *header, header_offset,
                total_file_size, old(prev_index_map)@) {
                Ok((m, p, prev)) => r matches Ok(x) && x@ == m && final(reader).position() == p
                    && final(prev_index_map)@ == prev,
                Err(e) => r matches Err(x) && x == e,
            },
    {
        let ghost s = reader.bytes();
        let ghost be = reader.is_big_endian();
        let ghost prev0 = prev_index_map@;
        let metadata_offset = header_offset + HEADER_SIZE as u64;
        let raw_data_offset = metadata_offset + header.raw_data_offset;

        let segment_total_size = if header.next_segment_offset == 0xFFFF_FFFF_FFFF_FFFF {
            total_file_size.saturating_sub(header_offset)
        } else {
            (HEADER_SIZE as u64).saturating_add(header.next_segment_offset)
        };

        let mut objects: Vec<ObjectMetadata> = Vec::new();

        if header.has_metadata {
            let num_objects = reader.read_u32()?;
            let ghost p1 = reader.position();
            let mut i: u32 = 0;
            assert(objects_view(objects@) =~= Seq::<ObjectModel>::empty());
            while i < num_objects
                invariant
                    i <= num_objects,
                    reader.wf(),
                    header.has_metadata,
                    spec_u32(s, be, old(reader).position()) == Ok::<(u32, int), TdmsError>((num_objects, p1)),
                    old(prev_index_map)@ == prev0,
                    old(reader).bytes() == s,
                    old(reader).is_big_endian() == be,
                    reader.bytes() == s,
                    reader.is_big_endian() == be,
                    spec_objects(s, be, p1, i as nat, prev0)
                        == Ok::<(Seq<ObjectModel>, int, Map<Seq<char>, ObjectRawDataIndex>), TdmsError>(
                            (objects_view(objects@), reader.position(), prev_index_map@)),
                decreases num_objects - i,
            {
                let obj = match parse_object(reader, prev_index_map) {
                    Ok(o) => o,
                    Err(e) => {
                        proof {
                            assert(spec_objects(s, be, p1, (i + 1) as nat, prev0)
                                == Err::<(Seq<ObjectModel>, int, Map<Seq<char>, ObjectRawDataIndex>), TdmsError>(e));
                            lemma_objects_error(s, be, p1, (i + 1) as nat, num_objects as nat, prev0);
                        }
                        return Err(e);
                    },
                };
                let ghost before = objects@;
                objects.push(obj);
                proof {
                    assert(objects_view(objects@) =~= objects_view(before).push(objects@.last()@));
                }
                i = i + 1;
            }
        }

        let r = SegmentIndex {
            header: *header,
            header_offset,
            metadata_offset,
            raw_data_offset,
            segment_total_size,
            objects,
        };
        proof {
            if !header.has_metadata {
                assert(objects_view(r.objects@) =~= Seq::<ObjectModel>::empty());
            }
        }
        Ok(r)
    }
}

} // verus!
