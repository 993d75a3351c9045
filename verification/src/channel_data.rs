//! Where a channel's values lie in the raw data of the segments, and reading them.

use vstd::prelude::*;
use vstd::string::StringExecFns;
use crate::error::TdmsError;
use crate::file::TdmsFile;
use crate::namemap::str_equal;
use crate::path::{parse_object_path, spec_parse_object_path};
use crate::segment::{ObjectMetadata, ObjectModel, ObjectRawDataIndex, SegmentIndex, SegmentModel};
use crate::types::DataType;

verus! {

/// One stored value: its bytes, and whether its segment is big-endian.
#[derive(Debug)]
pub struct RawValue {
    pub bytes: Vec<u8>,
    pub big_endian: bool,
}

impl View for RawValue {
    type V = (Seq<u8>, bool);

    open spec fn view(&self) -> (Seq<u8>, bool) {
        (self.bytes@, self.big_endian)
    }
}

pub open spec fn raw_values_view(v: Seq<RawValue>) -> Seq<(Seq<u8>, bool)> {
    v.map_values(|r: RawValue| r@)
}

/// Every value holds `e` bytes.
pub open spec fn all_sized(v: Seq<(Seq<u8>, bool)>, e: int) -> bool {
    forall|i: int| 0 <= i < v.len() ==> (#[trigger] v[i]).0.len() == e
}

/// `x`, or `usize::MAX` where it is larger.
pub open spec fn sat(x: int) -> int {
    if x <= usize::MAX { x } else { usize::MAX as int }
}

/// The object is the channel `c` of the group `g`.
#[verifier::opaque]
pub open spec fn object_is(o: ObjectModel, g: Seq<char>, c: Seq<char>) -> bool {
    spec_parse_object_path(o.path) == (Some(g), Some(c))
}

/// The fixed size of one value of the object's type, zero for types without one.
pub open spec fn elem_size(idx: ObjectRawDataIndex) -> int {
    match idx.data_type.spec_element_size() {
        Some(n) => n as int,
        None => 0,
    }
}

/// The bytes an object's raw data takes in a chunk: the stored total for
/// strings, else the value count times the value size.
pub open spec fn obj_size(idx: ObjectRawDataIndex) -> int {
    match idx.total_size_bytes {
        Some(t) => sat(t as int),
        None => sat(idx.number_of_values * elem_size(idx)),
    }
}

/// `count` values of `e` bytes each from the start of `b`, or the error for a
/// slice too short for them.
pub open spec fn read_count(b: Seq<u8>, count: int, e: int, be: bool) -> Result<Seq<(Seq<u8>, bool)>, TdmsError> {
    if count * e <= b.len() {
        Ok(Seq::new(count as nat, |i: int| (b.subrange(i * e, i * e + e), be)))
    } else {
        Err(TdmsError::UnexpectedEof { required: sat(count * e) as usize, available: b.len() as usize })
    }
}

/// The layout of one frame of an interleaved segment over its first `k`
/// objects: the frame size, whether the channel is among them, and the offset
/// and size of its value in the frame (its last occurrence).
pub open spec fn frame_layout(objs: Seq<ObjectModel>, g: Seq<char>, c: Seq<char>, k: nat) -> (int, bool, int, int)
    decreases k,
{
    if k == 0 || k > objs.len() {
        (0, false, 0, 0)
    } else {
        let (f, found, off, ts) = frame_layout(objs, g, c, (k - 1) as nat);
        let o = objs[k - 1];
        match o.raw_data_index {
            None => (f, found, off, ts),
            Some(idx) => {
                let e = elem_size(idx);
                if object_is(o, g, c) { (sat(f + e), true, f, e) } else { (sat(f + e), found, off, ts) }
            },
        }
    }
}

/// The channel's values in the first `n` frames of an interleaved raw data block.
pub open spec fn frame_values(raw: Seq<u8>, be: bool, frame: int, off: int, ts: int, e: int, n: nat)
    -> Result<Seq<(Seq<u8>, bool)>, TdmsError>
    decreases n,
{
    if n == 0 {
        Ok(Seq::empty())
    } else {
        match frame_values(raw, be, frame, off, ts, e, (n - 1) as nat) {
            Err(x) => Err(x),
            Ok(vs) => {
                let start = (n - 1) * frame + off;
                if start + ts <= raw.len() {
                    match read_count(raw.subrange(start, start + ts), 1, e, be) {
                        Err(x) => Err(x),
                        Ok(v) => Ok(vs + v),
                    }
                } else {
                    Ok(vs)
                }
            },
        }
    }
}

/// The channel's values in an interleaved raw data block: one value from each
/// whole frame, where the channel has a value of positive size in the frame.
pub open spec fn interleaved_values(objs: Seq<ObjectModel>, raw: Seq<u8>, be: bool, g: Seq<char>, c: Seq<char>, e: int)
    -> Result<Seq<(Seq<u8>, bool)>, TdmsError>
{
    let (frame, found, off, ts) = frame_layout(objs, g, c, objs.len());
    if found && frame > 0 && ts > 0 {
        frame_values(raw, be, frame, off, ts, e, (raw.len() as int / frame) as nat)
    } else {
        Ok(Seq::empty())
    }
}

/// The bytes one chunk of the first `k` objects takes.
pub open spec fn chunk_size(objs: Seq<ObjectModel>, k: nat) -> int
    decreases k,
{
    if k == 0 || k > objs.len() {
        0
    } else {
        match objs[k - 1].raw_data_index {
            None => chunk_size(objs, (k - 1) as nat),
            Some(idx) => sat(chunk_size(objs, (k - 1) as nat) + obj_size(idx)),
        }
    }
}

/// The channel's values in the chunk at `start` over the first `k` objects, and
/// where the next object's data starts in the chunk.
pub open spec fn chunk_values(objs: Seq<ObjectModel>, raw: Seq<u8>, be: bool, start: int, g: Seq<char>, c: Seq<char>, e: int, k: nat)
    -> Result<(Seq<(Seq<u8>, bool)>, int), TdmsError>
    decreases k,
{
    if k == 0 || k > objs.len() {
        Ok((Seq::empty(), 0))
    } else {
        match chunk_values(objs, raw, be, start, g, c, e, (k - 1) as nat) {
            Err(x) => Err(x),
            Ok((vs, pos)) => {
                let o = objs[k - 1];
                match o.raw_data_index {
                    None => Ok((vs, pos)),
                    Some(idx) => {
                        let size = obj_size(idx);
                        let p = start + pos;
                        if object_is(o, g, c) && p + size <= raw.len() {
                            match read_count(raw.subrange(p, p + size), sat(idx.number_of_values as int), e, be) {
                                Err(x) => Err(x),
                                Ok(v) => Ok((vs + v, sat(pos + size))),
                            }
                        } else {
                            Ok((vs, sat(pos + size)))
                        }
                    },
                }
            },
        }
    }
}

/// The channel's values in the first `n` chunks.
pub open spec fn chunks_values(objs: Seq<ObjectModel>, raw: Seq<u8>, be: bool, size: int, g: Seq<char>, c: Seq<char>, e: int, n: nat)
    -> Result<Seq<(Seq<u8>, bool)>, TdmsError>
    decreases n,
{
    if n == 0 {
        Ok(Seq::empty())
    } else {
        match chunks_values(objs, raw, be, size, g, c, e, (n - 1) as nat) {
            Err(x) => Err(x),
            Ok(vs) => match chunk_values(objs, raw, be, (n - 1) * size, g, c, e, objs.len()) {
                Err(x) => Err(x),
                Ok((v, _)) => Ok(vs + v),
            },
        }
    }
}

/// The channel's values in a contiguous raw data block: the block holds as many
/// whole chunks as fit (at least one), and each chunk holds each object's data
/// in order.
pub open spec fn contiguous_values(objs: Seq<ObjectModel>, raw: Seq<u8>, be: bool, g: Seq<char>, c: Seq<char>, e: int)
    -> Result<Seq<(Seq<u8>, bool)>, TdmsError>
{
    let size = chunk_size(objs, objs.len());
    let n: int = if size > 0 && raw.len() as int / size >= 1 { raw.len() as int / size } else { 1 };
    chunks_values(objs, raw, be, size, g, c, e, n as nat)
}

/// Where a segment's raw data ends in the file.
pub open spec fn raw_end(s: SegmentModel) -> int {
    sat(s.header_offset + s.segment_total_size)
}

/// The channel's values in one segment: none where the segment has no raw data
/// or its raw data range is empty or runs past the file.
pub open spec fn segment_values(s: SegmentModel, data: Seq<u8>, g: Seq<char>, c: Seq<char>, e: int)
    -> Result<Seq<(Seq<u8>, bool)>, TdmsError>
{
    let start = sat(s.raw_data_offset as int);
    let end = raw_end(s);
    if !s.header.has_raw_data || start >= end || end > data.len() {
        Ok(Seq::empty())
    } else if s.header.is_interleaved {
        interleaved_values(s.objects, data.subrange(start, end), s.header.is_big_endian, g, c, e)
    } else {
        contiguous_values(s.objects, data.subrange(start, end), s.header.is_big_endian, g, c, e)
    }
}

/// The channel's values in the first `n` segments, in order.
pub open spec fn segments_values(segs: Seq<SegmentModel>, data: Seq<u8>, g: Seq<char>, c: Seq<char>, e: int, n: nat)
    -> Result<Seq<(Seq<u8>, bool)>, TdmsError>
    decreases n,
{
    if n == 0 || n > segs.len() {
        Ok(Seq::empty())
    } else {
        match segments_values(segs, data, g, c, e, (n - 1) as nat) {
            Err(x) => Err(x),
            Ok(vs) => match segment_values(segs[n - 1], data, g, c, e) {
                Err(x) => Err(x),
                Ok(v) => Ok(vs + v),
            },
        }
    }
}

/// The bytes `b[a..z]`.
pub(crate) fn copy_range(b: &[u8], a: usize, z: usize) -> (r: Vec<u8>)
    requires
        a <= z <= b@.len(),
    ensures
        r@ == b@.subrange(a as int, z as int),
{
    let mut out: Vec<u8> = Vec::new();
    let mut k = a;
    while k < z
        invariant
            a <= k <= z <= b@.len(),
            out@ == b@.subrange(a as int, k as int),
        decreases z - k,
    {
        out.push(b[k]);
        k = k + 1;
        assert(out@ =~= b@.subrange(a as int, k as int));
    }
    out
}

/// Whether the object is the channel `c` of the group `g`.
pub(crate) fn object_is_channel(obj: &ObjectMetadata, g: &str, c: &str) -> (r: bool)
    ensures
        r == object_is(obj@, g@, c@),
{
    reveal(object_is);
    let (go, co) = parse_object_path(obj.path.as_str());
    match (go, co) {
        (Some(a), Some(b)) => str_equal(a.as_str(), g) && str_equal(b.as_str(), c),
        _ => false,
    }
}

/// Reads `count` values of `e` bytes from the start of `b`.
fn read_count_exec(b: &[u8], count: usize, e: usize, be: bool) -> (r: Result<Vec<RawValue>, TdmsError>)
    ensures
        match read_count(b@, count as int, e as int, be) {
            Ok(vs) => r matches Ok(v) && raw_values_view(v@) == vs,
            Err(x) => r matches Err(y) && y == x,
        },
        r matches Ok(v) ==> all_sized(raw_values_view(v@), e as int),
{
    let total = match count.checked_mul(e) {
        None => {
            return Err(TdmsError::UnexpectedEof { required: usize::MAX, available: b.len() });
        },
        Some(t) => t,
    };
    if total > b.len() {
        return Err(TdmsError::UnexpectedEof { required: total, available: b.len() });
    }
    let mut out: Vec<RawValue> = Vec::new();
    let mut i: usize = 0;
    while i < count
        invariant
            i <= count,
            total == count * e,
            total <= b@.len(),
            raw_values_view(out@) == Seq::new(i as nat, |j: int| (b@.subrange(j * e, j * e + e), be)),
        decreases count - i,
    {
        assert((i + 1) * e <= count * e) by (nonlinear_arith)
            requires
                i < count,
        ;
        assert((i + 1) * e == i * e + e) by (nonlinear_arith);
        let start = i * e;
        let v = copy_range(b, start, start + e);
        let ghost before = out@;
        out.push(RawValue { bytes: v, big_endian: be });
        i = i + 1;
        proof {
            assert(raw_values_view(out@) =~= raw_values_view(before).push((b@.subrange(start as int, start + e), be)));
            assert(raw_values_view(out@) =~= Seq::new(i as nat, |j: int| (b@.subrange(j * e, j * e + e), be)));
        }
    }
    assert forall|j: int| 0 <= j < raw_values_view(out@).len() implies
        (#[trigger] raw_values_view(out@)[j]).0.len() == e by {
        assert(0 <= j * e && j * e + e <= count * e) by (nonlinear_arith)
            requires
                0 <= j < count,
        ;
    }
    Ok(out)
}

pub open spec fn objects_models(v: Seq<ObjectMetadata>) -> Seq<ObjectModel> {
    v.map_values(|o: ObjectMetadata| o@)
}

proof fn lemma_frame_values_error(raw: Seq<u8>, be: bool, frame: int, off: int, ts: int, e: int, k: nat, n: nat)
    requires
        k <= n,
        frame_values(raw, be, frame, off, ts, e, k) is Err,
    ensures
        frame_values(raw, be, frame, off, ts, e, n) == frame_values(raw, be, frame, off, ts, e, k),
    decreases n,
{
    if n > k {
        lemma_frame_values_error(raw, be, frame, off, ts, e, k, (n - 1) as nat);
    }
}

/// The frame layout of an interleaved segment.
fn frame_layout_exec(objs: &Vec<ObjectMetadata>, g: &str, c: &str) -> (r: (usize, bool, usize, usize))
    ensures
        (r.0 as int, r.1, r.2 as int, r.3 as int) == frame_layout(objects_models(objs@), g@, c@, objs@.len()),
{
    let ghost os = objects_models(objs@);
    let mut frame_size: usize = 0;
    let mut target_offset_in_frame: usize = 0;
    let mut target_elem_size: usize = 0;
    let mut found = false;
    let mut k: usize = 0;
    while k < objs.len()
        invariant
            k <= objs@.len(),
            os == objects_models(objs@),
            (frame_size as int, found, target_offset_in_frame as int, target_elem_size as int)
                == frame_layout(os, g@, c@, k as nat),
        decreases objs@.len() - k,
    {
        let obj = &objs[k];
        assert(os[k as int] == obj@);
        match obj.raw_data_index {
            Some(idx) => {
                let elem_size = match idx.data_type.element_size() {
                    Some(n) => n,
                    None => 0,
                };
                if object_is_channel(obj, g, c) {
                    target_offset_in_frame = frame_size;
                    target_elem_size = elem_size;
                    found = true;
                }
                frame_size = frame_size.saturating_add(elem_size);
            },
            None => {},
        }
        k = k + 1;
    }
    (frame_size, found, target_offset_in_frame, target_elem_size)
}

/// The channel's values in an interleaved raw data block.
fn interleaved_exec(objs: &Vec<ObjectMetadata>, raw: &[u8], be: bool, g: &str, c: &str, e: usize)
    -> (r: Result<Vec<RawValue>, TdmsError>)
    ensures
        match interleaved_values(objects_models(objs@), raw@, be, g@, c@, e as int) {
            Ok(vs) => r matches Ok(v) && raw_values_view(v@) == vs,
            Err(x) => r matches Err(y) && y == x,
        },
        r matches Ok(v) ==> all_sized(raw_values_view(v@), e as int),
{
    let mut data: Vec<RawValue> = Vec::new();
    let (frame_size, found, off, ts) = frame_layout_exec(objs, g, c);
    if !(found && frame_size > 0 && ts > 0) {
        assert(raw_values_view(data@) =~= Seq::<(Seq<u8>, bool)>::empty());
        return Ok(data);
    }
    let total_frames = raw.len() / frame_size;
    let mut f: usize = 0;
    assert(raw_values_view(data@) =~= Seq::<(Seq<u8>, bool)>::empty());
    while f < total_frames
        invariant
            f <= total_frames,
            frame_size > 0,
            ts > 0,
            found,
            frame_layout(objects_models(objs@), g@, c@, objs@.len())
                == (frame_size as int, found, off as int, ts as int),
            raw@.len() <= usize::MAX,
            total_frames == raw@.len() as int / (frame_size as int),
            match frame_values(raw@, be, frame_size as int, off as int, ts as int, e as int, f as nat) {
                Ok(vs) => raw_values_view(data@) == vs,
                Err(_) => false,
            },
            all_sized(raw_values_view(data@), e as int),
        decreases total_frames - f,
    {
        assert(f * frame_size <= raw@.len()) by (nonlinear_arith)
            requires
                f < total_frames,
                total_frames == raw@.len() as int / (frame_size as int),
                frame_size > 0,
        ;
        let base = f * frame_size;
        let fits = match base.checked_add(off) {
            Some(s) => match s.checked_add(ts) {
                Some(z) => z <= raw.len(),
                None => false,
            },
            None => false,
        };
        if fits {
            let sample_start = base + off;
            let sample = &raw[sample_start..sample_start + ts];
            assert(sample@ == raw@.subrange(sample_start as int, sample_start + ts));
            let ghost before = data@;
            match read_count_exec(sample, 1, e, be) {
                Err(x) => {
                    proof {
                        assert(frame_values(raw@, be, frame_size as int, off as int, ts as int, e as int, (f + 1) as nat)
                            == Err::<Seq<(Seq<u8>, bool)>, TdmsError>(x));
                        lemma_frame_values_error(raw@, be, frame_size as int, off as int, ts as int, e as int,
                            (f + 1) as nat, total_frames as nat);
                    }
                    return Err(x);
                },
                Ok(mut v) => {
                    let ghost vv = v@;
                    data.append(&mut v);
                    proof {
                        assert(raw_values_view(data@) =~= raw_values_view(before) + raw_values_view(vv));
                    }
                },
            }
        }
        f = f + 1;
    }
    Ok(data)
}

/// The bytes an object's raw data takes in a chunk.
pub(crate) fn obj_size_exec(idx: &ObjectRawDataIndex) -> (r: usize)
    ensures
        r == obj_size(*idx),
{
    match idx.total_size_bytes {
        Some(total_bytes) => if total_bytes <= usize::MAX as u64 { total_bytes as usize } else { usize::MAX },
        None => {
            let e = match idx.data_type.element_size() {
                Some(n) => n,
                None => 0,
            };
            if idx.number_of_values <= usize::MAX as u64 {
                match (idx.number_of_values as usize).checked_mul(e) {
                    Some(x) => x,
                    None => usize::MAX,
                }
            } else if e == 0 {
                0
            } else {
                assert(idx.number_of_values * e > usize::MAX) by (nonlinear_arith)
                    requires
                        idx.number_of_values > usize::MAX,
                        e >= 1,
                ;
                usize::MAX
            }
        },
    }
}

/// The bytes one chunk of a contiguous segment takes.
pub(crate) fn chunk_size_exec(objs: &Vec<ObjectMetadata>) -> (r: usize)
    ensures
        r == chunk_size(objects_models(objs@), objs@.len()),
{
    let ghost os = objects_models(objs@);
    let mut single_chunk_size: usize = 0;
    let mut k: usize = 0;
    while k < objs.len()
        invariant
            k <= objs@.len(),
            os == objects_models(objs@),
            single_chunk_size == chunk_size(os, k as nat),
        decreases objs@.len() - k,
    {
        assert(os[k as int] == objs@[k as int]@);
        match objs[k].raw_data_index {
            Some(idx) => {
                single_chunk_size = single_chunk_size.saturating_add(obj_size_exec(&idx));
            },
            None => {},
        }
        k = k + 1;
    }
    single_chunk_size
}

proof fn lemma_chunk_values_error(objs: Seq<ObjectModel>, raw: Seq<u8>, be: bool, start: int, g: Seq<char>, c: Seq<char>, e: int, k: nat, n: nat)
    requires
        k <= n <= objs.len(),
        chunk_values(objs, raw, be, start, g, c, e, k) is Err,
    ensures
        chunk_values(objs, raw, be, start, g, c, e, n) == chunk_values(objs, raw, be, start, g, c, e, k),
    decreases n,
{
    if n > k {
        lemma_chunk_values_error(objs, raw, be, start, g, c, e, k, (n - 1) as nat);
    }
}

proof fn lemma_chunks_values_error(objs: Seq<ObjectModel>, raw: Seq<u8>, be: bool, size: int, g: Seq<char>, c: Seq<char>, e: int, k: nat, n: nat)
    requires
        k <= n,
        chunks_values(objs, raw, be, size, g, c, e, k) is Err,
    ensures
        chunks_values(objs, raw, be, size, g, c, e, n) == chunks_values(objs, raw, be, size, g, c, e, k),
    decreases n,
{
    if n > k {
        lemma_chunks_values_error(objs, raw, be, size, g, c, e, k, (n - 1) as nat);
    }
}

/// The channel's values in the chunk that starts at `chunk_start`.
fn chunk_exec(objs: &Vec<ObjectMetadata>, raw: &[u8], be: bool, chunk_start: usize, g: &str, c: &str, e: usize)
    -> (r: Result<Vec<RawValue>, TdmsError>)
    ensures
        match chunk_values(objects_models(objs@), raw@, be, chunk_start as int, g@, c@, e as int, objs@.len()) {
            Ok((vs, _)) => r matches Ok(v) && raw_values_view(v@) == vs,
            Err(x) => r matches Err(y) && y == x,
        },
        r matches Ok(v) ==> all_sized(raw_values_view(v@), e as int),
{
    let ghost os = objects_models(objs@);
    let _raw_len = raw.len();
    let mut data: Vec<RawValue> = Vec::new();
    let mut raw_byte_offset: usize = 0;
    let mut k: usize = 0;
    assert(raw_values_view(data@) =~= Seq::<(Seq<u8>, bool)>::empty());
    while k < objs.len()
        invariant
            k <= objs@.len(),
            os == objects_models(objs@),
            raw@.len() <= usize::MAX,
            chunk_values(os, raw@, be, chunk_start as int, g@, c@, e as int, k as nat)
                == Ok::<(Seq<(Seq<u8>, bool)>, int), TdmsError>((raw_values_view(data@), raw_byte_offset as int)),
            all_sized(raw_values_view(data@), e as int),
        decreases objs@.len() - k,
    {
        let obj = &objs[k];
        assert(os[k as int] == obj@);
        match obj.raw_data_index {
            Some(idx) => {
                let size = obj_size_exec(&idx);
                if object_is_channel(obj, g, c) {
                    let fits = match chunk_start.checked_add(raw_byte_offset) {
                        Some(p) => match p.checked_add(size) {
                            Some(z) => z <= raw.len(),
                            None => false,
                        },
                        None => false,
                    };
                    if fits {
                        let start_pos = chunk_start + raw_byte_offset;
                        let count: usize = if idx.number_of_values <= usize::MAX as u64 {
                            idx.number_of_values as usize
                        } else {
                            usize::MAX
                        };
                        let obj_slice = &raw[start_pos..start_pos + size];
                        assert(obj_slice@ == raw@.subrange(start_pos as int, start_pos + size));
                        let ghost before = data@;
                        match read_count_exec(obj_slice, count, e, be) {
                            Err(x) => {
                                proof {
                                    assert(chunk_values(os, raw@, be, chunk_start as int, g@, c@, e as int, (k + 1) as nat)
                                        == Err::<(Seq<(Seq<u8>, bool)>, int), TdmsError>(x));
                                    lemma_chunk_values_error(os, raw@, be, chunk_start as int, g@, c@, e as int,
                                        (k + 1) as nat, objs@.len());
                                }
                                return Err(x);
                            },
                            Ok(mut v) => {
                                let ghost vv = v@;
                                data.append(&mut v);
                                proof {
                                    assert(raw_values_view(data@) =~= raw_values_view(before) + raw_values_view(vv));
                                }
                            },
                        }
                    }
                }
                raw_byte_offset = raw_byte_offset.saturating_add(size);
            },
            None => {},
        }
        k = k + 1;
    }
    Ok(data)
}

/// The channel's values in a contiguous raw data block.
fn contiguous_exec(objs: &Vec<ObjectMetadata>, raw: &[u8], be: bool, g: &str, c: &str, e: usize)
    -> (r: Result<Vec<RawValue>, TdmsError>)
    ensures
        match contiguous_values(objects_models(objs@), raw@, be, g@, c@, e as int) {
            Ok(vs) => r matches Ok(v) && raw_values_view(v@) == vs,
            Err(x) => r matches Err(y) && y == x,
        },
        r matches Ok(v) ==> all_sized(raw_values_view(v@), e as int),
{
    let ghost os = objects_models(objs@);
    let single_chunk_size = chunk_size_exec(objs);
    let raw_len = raw.len();
    let num_chunks: usize = if single_chunk_size > 0 {
        let q = raw_len / single_chunk_size;
        if q >= 1 { q } else { 1 }
    } else {
        1
    };
    let mut data: Vec<RawValue> = Vec::new();
    let mut ci: usize = 0;
    assert(raw_values_view(data@) =~= Seq::<(Seq<u8>, bool)>::empty());
    while ci < num_chunks
        invariant
            ci <= num_chunks,
            os == objects_models(objs@),
            raw@.len() <= usize::MAX,
            single_chunk_size == chunk_size(os, os.len()),
            num_chunks == (if single_chunk_size > 0 && raw@.len() as int / single_chunk_size as int >= 1 {
                raw@.len() as int / single_chunk_size as int
            } else {
                1
            }),
            chunks_values(os, raw@, be, single_chunk_size as int, g@, c@, e as int, ci as nat)
                == Ok::<Seq<(Seq<u8>, bool)>, TdmsError>(raw_values_view(data@)),
            all_sized(raw_values_view(data@), e as int),
        decreases num_chunks - ci,
    {
        assert(ci * single_chunk_size <= raw@.len()) by (nonlinear_arith)
            requires
                ci < num_chunks,
                single_chunk_size > 0 ==> num_chunks <= raw@.len() as int / single_chunk_size as int || num_chunks == 1,
                num_chunks == 1 ==> ci == 0,
        ;
        let chunk_start = ci * single_chunk_size;
        let ghost before = data@;
        match chunk_exec(objs, raw, be, chunk_start, g, c, e) {
            Err(x) => {
                proof {
                    lemma_chunks_values_error(os, raw@, be, single_chunk_size as int, g@, c@, e as int,
                        (ci + 1) as nat, num_chunks as nat);
                }
                return Err(x);
            },
            Ok(mut v) => {
                let ghost vv = v@;
                data.append(&mut v);
                proof {
                    assert(raw_values_view(data@) =~= raw_values_view(before) + raw_values_view(vv));
                }
            },
        }
        ci = ci + 1;
    }
    Ok(data)
}

/// The channel's values in one segment.
fn segment_exec(seg: &SegmentIndex, data: &[u8], g: &str, c: &str, e: usize) -> (r: Result<Vec<RawValue>, TdmsError>)
    ensures
        match segment_values(seg@, data@, g@, c@, e as int) {
            Ok(vs) => r matches Ok(v) && raw_values_view(v@) == vs,
            Err(x) => r matches Err(y) && y == x,
        },
        r matches Ok(v) ==> all_sized(raw_values_view(v@), e as int),
{
    let empty: Vec<RawValue> = Vec::new();
    assert(raw_values_view(empty@) =~= Seq::<(Seq<u8>, bool)>::empty());
    if !seg.header.has_raw_data {
        return Ok(empty);
    }
    let raw_start: usize = if seg.raw_data_offset <= usize::MAX as u64 { seg.raw_data_offset as usize } else { usize::MAX };
    let raw_end: usize = match seg.header_offset.checked_add(seg.segment_total_size) {
        Some(x) => if x <= usize::MAX as u64 { x as usize } else { usize::MAX },
        None => usize::MAX,
    };
    if raw_start >= raw_end || raw_end > data.len() {
        return Ok(empty);
    }
    let raw_slice = &data[raw_start..raw_end];
    assert(raw_slice@ == data@.subrange(raw_start as int, raw_end as int));
    assert(seg@.objects == objects_models(seg.objects@));
    if seg.header.is_interleaved {
        interleaved_exec(&seg.objects, raw_slice, seg.header.is_big_endian, g, c, e)
    } else {
        contiguous_exec(&seg.objects, raw_slice, seg.header.is_big_endian, g, c, e)
    }
}

proof fn lemma_segments_values_error(segs: Seq<SegmentModel>, data: Seq<u8>, g: Seq<char>, c: Seq<char>, e: int, k: nat, n: nat)
    requires
        k <= n <= segs.len(),
        segments_values(segs, data, g, c, e, k) is Err,
    ensures
        segments_values(segs, data, g, c, e, n) == segments_values(segs, data, g, c, e, k),
    decreases n,
{
    if n > k {
        lemma_segments_values_error(segs, data, g, c, e, k, (n - 1) as nat);
    }
}

/// The message for a channel that the file does not hold.
pub open spec fn not_found_message(g: Seq<char>, c: Seq<char>) -> Seq<char> {
    "Channel '/\""@ + g + "\"/\""@ + c + "\"' not found"@
}

/// The message for a channel whose values are of another type than asked for.
pub open spec fn mismatch_message(expected: DataType, found: DataType) -> Seq<char> {
    "Channel data type mismatch: expected "@ + expected.spec_name() + ", found "@ + found.spec_name()
}

impl TdmsFile {
    /// The stored values of the channel `channel_name` of the group `group_name`,
    /// each of the size of `dtype`, from every segment in order. It fails where
    /// the file has no such channel, where the channel's values are of another
    /// type, and where an object's data is too short for its value count.
    pub fn read_channel_values(&self, group_name: &str, channel_name: &str, dtype: DataType)
        -> (r: Result<Vec<RawValue>, TdmsError>)
        requires
            dtype.spec_element_size() matches Some(n) && n > 0,
        ensures
            !(self.groups@.dom().contains(group_name@)
                && self.groups@[group_name@].channels.dom().contains(channel_name@))
                ==> (r matches Err(TdmsError::CorruptedMetadata { offset, reason })
                    && offset == 0 && reason@ == not_found_message(group_name@, channel_name@)),
            (self.groups@.dom().contains(group_name@)
                && self.groups@[group_name@].channels.dom().contains(channel_name@))
                ==> ({
                    let ch = self.groups@[group_name@].channels[channel_name@];
                    if ch.data_type matches Some(d) && d != dtype {
                        r matches Err(TdmsError::CorruptedMetadata { offset, reason })
                            && offset == 0 && reason@ == mismatch_message(dtype, ch.data_type->0)
                    } else {
                        match segments_values(crate::file::segments_view(self.segments@), self.bytes(),
                            group_name@, channel_name@, dtype.spec_element_size()->0 as int, self.segments@.len()) {
                            Ok(vs) => r matches Ok(v) && raw_values_view(v@) == vs,
                            Err(x) => r matches Err(y) && y == x,
                        }
                    }
                }),
            r matches Ok(v) ==> all_sized(raw_values_view(v@), dtype.spec_element_size()->0 as int),
    {
        let channel = match self.channel(group_name, channel_name) {
            Some(ch) => ch,
            None => {
                let mut reason = String::from_str("Channel '/\"");
                reason.append(group_name);
                reason.append("\"/\"");
                reason.append(channel_name);
                reason.append("\"' not found");
                return Err(TdmsError::CorruptedMetadata { offset: 0, reason });
            },
        };
        match channel.data_type {
            Some(d) => {
                if d != dtype {
                    let mut reason = String::from_str("Channel data type mismatch: expected ");
                    reason.append(dtype.name());
                    reason.append(", found ");
                    reason.append(d.name());
                    return Err(TdmsError::CorruptedMetadata { offset: 0, reason });
                }
            },
            None => {},
        }
        let e = match dtype.element_size() {
            Some(n) => n,
            None => 0,
        };
        let data = crate::file::mmap_slice(&self.mmap);
        let ghost segs = crate::file::segments_view(self.segments@);
        let mut out: Vec<RawValue> = Vec::new();
        let mut i: usize = 0;
        assert(raw_values_view(out@) =~= Seq::<(Seq<u8>, bool)>::empty());
        while i < self.segments.len()
            invariant
                i <= self.segments@.len(),
                segs == crate::file::segments_view(self.segments@),
                self.groups@.dom().contains(group_name@),
                self.groups@[group_name@].channels.dom().contains(channel_name@),
                !(self.groups@[group_name@].channels[channel_name@].data_type matches Some(d) && d != dtype),
                e == dtype.spec_element_size()->0,
                data@ == self.bytes(),
                segments_values(segs, data@, group_name@, channel_name@, e as int, i as nat)
                    == Ok::<Seq<(Seq<u8>, bool)>, TdmsError>(raw_values_view(out@)),
                all_sized(raw_values_view(out@), e as int),
            decreases self.segments@.len() - i,
        {
            assert(segs[i as int] == self.segments@[i as int]@);
            let ghost before = out@;
            match segment_exec(&self.segments[i], data, group_name, channel_name, e) {
                Err(x) => {
                    proof {
                        lemma_segments_values_error(segs, data@, group_name@, channel_name@, e as int,
                            (i + 1) as nat, self.segments@.len());
                    }
                    return Err(x);
                },
                Ok(mut v) => {
                    let ghost vv = v@;
                    out.append(&mut v);
                    proof {
                        assert(raw_values_view(out@) =~= raw_values_view(before) + raw_values_view(vv));
                    }
                },
            }
            i = i + 1;
        }
        Ok(out)
    }
}

} // verus!
