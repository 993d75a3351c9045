//! Where the stored strings of a channel lie in the raw data of the segments.

use vstd::prelude::*;
use crate::channel_data::{
    chunk_size, chunk_size_exec, copy_range, obj_size, obj_size_exec, object_is, object_is_channel, objects_models, raw_end,
    sat,
};
use crate::endian::{le_bytes_u32, push_u32_le, read_u32_at, u32_at};
use crate::file::{segments_view, TdmsFile};
use crate::segment::{ObjectMetadata, ObjectModel, SegmentIndex, SegmentModel};

verus! {

/// The stored data of one object of a string channel in one chunk: its bytes
/// (the end offsets of its strings, then their text), whether its segment is
/// big-endian, and how many strings it holds.
pub struct StringBlock {
    pub bytes: Vec<u8>,
    pub big_endian: bool,
    pub count: u64,
}

impl View for StringBlock {
    type V = (Seq<u8>, bool, u64);

    open spec fn view(&self) -> (Seq<u8>, bool, u64) {
        (self.bytes@, self.big_endian, self.count)
    }
}

pub open spec fn blocks_view(v: Seq<StringBlock>) -> Seq<(Seq<u8>, bool, u64)> {
    v.map_values(|b: StringBlock| b@)
}

/// The channel's blocks in the chunk at `start` over the first `k` objects, and
/// where the next object's data starts in the chunk.
pub open spec fn chunk_blocks(objs: Seq<ObjectModel>, raw: Seq<u8>, be: bool, start: int, g: Seq<char>, c: Seq<char>, k: nat)
    -> (Seq<(Seq<u8>, bool, u64)>, int)
    decreases k,
{
    if k == 0 || k > objs.len() {
        (Seq::empty(), 0)
    } else {
        let (bs, pos) = chunk_blocks(objs, raw, be, start, g, c, (k - 1) as nat);
        let o = objs[k - 1];
        match o.raw_data_index {
            None => (bs, pos),
            Some(idx) => {
                let size = obj_size(idx);
                let p = start + pos;
                if object_is(o, g, c) && p + size <= raw.len() {
                    (bs.push((raw.subrange(p, p + size), be, idx.number_of_values)), sat(pos + size))
                } else {
                    (bs, sat(pos + size))
                }
            },
        }
    }
}

/// The channel's blocks in the first `n` chunks.
pub open spec fn chunks_blocks(objs: Seq<ObjectModel>, raw: Seq<u8>, be: bool, size: int, g: Seq<char>, c: Seq<char>, n: nat)
    -> Seq<(Seq<u8>, bool, u64)>
    decreases n,
{
    if n == 0 {
        Seq::empty()
    } else {
        chunks_blocks(objs, raw, be, size, g, c, (n - 1) as nat)
            + chunk_blocks(objs, raw, be, (n - 1) * size, g, c, objs.len()).0
    }
}

/// The channel's blocks in a contiguous raw data block, chunk by chunk as
/// values are read.
pub open spec fn contiguous_blocks(objs: Seq<ObjectModel>, raw: Seq<u8>, be: bool, g: Seq<char>, c: Seq<char>)
    -> Seq<(Seq<u8>, bool, u64)>
{
    let size = chunk_size(objs, objs.len());
    let n: int = if size > 0 && raw.len() as int / size >= 1 { raw.len() as int / size } else { 1 };
    chunks_blocks(objs, raw, be, size, g, c, n as nat)
}

/// The channel's blocks in one segment: none where the segment has no raw
/// data, where its raw data range is empty or runs past the file, or where
/// it is interleaved.
pub open spec fn segment_blocks(s: SegmentModel, data: Seq<u8>, g: Seq<char>, c: Seq<char>) -> Seq<(Seq<u8>, bool, u64)> {
    let start = sat(s.raw_data_offset as int);
    let end = raw_end(s);
    if !s.header.has_raw_data || start >= end || end > data.len() || s.header.is_interleaved {
        Seq::empty()
    } else {
        contiguous_blocks(s.objects, data.subrange(start, end), s.header.is_big_endian, g, c)
    }
}

/// The channel's blocks in the first `n` segments, in order.
pub open spec fn segments_blocks(segs: Seq<SegmentModel>, data: Seq<u8>, g: Seq<char>, c: Seq<char>, n: nat)
    -> Seq<(Seq<u8>, bool, u64)>
    decreases n,
{
    if n == 0 || n > segs.len() {
        Seq::empty()
    } else {
        segments_blocks(segs, data, g, c, (n - 1) as nat) + segment_blocks(segs[n - 1], data, g, c)
    }
}

fn chunk_blocks_exec(objs: &Vec<ObjectMetadata>, raw: &[u8], be: bool, chunk_start: usize, g: &str, c: &str)
    -> (r: Vec<StringBlock>)
    ensures
        blocks_view(r@) == chunk_blocks(objects_models(objs@), raw@, be, chunk_start as int, g@, c@, objs@.len()).0,
{
    let ghost os = objects_models(objs@);
    let _raw_len = raw.len();
    let mut out: Vec<StringBlock> = Vec::new();
    let mut pos: usize = 0;
    let mut k: usize = 0;
    assert(blocks_view(out@) =~= Seq::<(Seq<u8>, bool, u64)>::empty());
    while k < objs.len()
        invariant
            k <= objs@.len(),
            os == objects_models(objs@),
            raw@.len() <= usize::MAX,
            chunk_blocks(os, raw@, be, chunk_start as int, g@, c@, k as nat) == (blocks_view(out@), pos as int),
        decreases objs@.len() - k,
    {
        let obj = &objs[k];
        assert(os[k as int] == obj@);
        match obj.raw_data_index {
            Some(idx) => {
                let size = obj_size_exec(&idx);
                if object_is_channel(obj, g, c) {
                    let fits = match chunk_start.checked_add(pos) {
                        Some(p) => match p.checked_add(size) {
                            Some(z) => z <= raw.len(),
                            None => false,
                        },
                        None => false,
                    };
                    if fits {
                        let p = chunk_start + pos;
                        let bytes = copy_range(raw, p, p + size);
                        let ghost before = out@;
                        out.push(StringBlock { bytes, big_endian: be, count: idx.number_of_values });
                        assert(blocks_view(out@) =~= blocks_view(before).push(
                            (raw@.subrange(p as int, p + size), be, idx.number_of_values)));
                    }
                }
                pos = pos.saturating_add(size);
            },
            None => {},
        }
        k = k + 1;
    }
    out
}

fn contiguous_blocks_exec(objs: &Vec<ObjectMetadata>, raw: &[u8], be: bool, g: &str, c: &str) -> (r: Vec<StringBlock>)
    ensures
        blocks_view(r@) == contiguous_blocks(objects_models(objs@), raw@, be, g@, c@),
{
    let ghost os = objects_models(objs@);
    let single_chunk_size = chunk_size_exec(objs);
    let raw_len = raw.len();
    let num_chunks: usize = if single_chunk_size > 0 {
        let q = raw_len / single_chunk_size;
        if q >= 1 { q } else { 1 }
    } else {
        1
    };
    let mut out: Vec<StringBlock> = Vec::new();
    let mut ci: usize = 0;
    assert(blocks_view(out@) =~= Seq::<(Seq<u8>, bool, u64)>::empty());
    while ci < num_chunks
        invariant
            ci <= num_chunks,
            os == objects_models(objs@),
            raw@.len() <= usize::MAX,
            single_chunk_size == chunk_size(os, os.len()),
            num_chunks == (if single_chunk_size > 0 && raw@.len() as int / single_chunk_size as int >= 1 {
                raw@.len() as int / single_chunk_size as int
            } else {
                1
            }),
            chunks_blocks(os, raw@, be, single_chunk_size as int, g@, c@, ci as nat) == blocks_view(out@),
        decreases num_chunks - ci,
    {
        assert(ci * single_chunk_size <= raw@.len()) by (nonlinear_arith)
            requires
                ci < num_chunks,
                single_chunk_size > 0 ==> num_chunks <= raw@.len() as int / single_chunk_size as int || num_chunks == 1,
                num_chunks == 1 ==> ci == 0,
        ;
        let chunk_start = ci * single_chunk_size;
        let ghost before = out@;
        let mut v = chunk_blocks_exec(objs, raw, be, chunk_start, g, c);
        let ghost vv = v@;
        out.append(&mut v);
        assert(blocks_view(out@) =~= blocks_view(before) + blocks_view(vv));
        ci = ci + 1;
    }
    out
}

fn segment_blocks_exec(seg: &SegmentIndex, data: &[u8], g: &str, c: &str) -> (r: Vec<StringBlock>)
    ensures
        blocks_view(r@) == segment_blocks(seg@, data@, g@, c@),
{
    let empty: Vec<StringBlock> = Vec::new();
    assert(blocks_view(empty@) =~= Seq::<(Seq<u8>, bool, u64)>::empty());
    if !seg.header.has_raw_data || seg.header.is_interleaved {
        return empty;
    }
    let raw_start: usize = if seg.raw_data_offset <= usize::MAX as u64 { seg.raw_data_offset as usize } else { usize::MAX };
    let raw_end: usize = match seg.header_offset.checked_add(seg.segment_total_size) {
        Some(x) => if x <= usize::MAX as u64 { x as usize } else { usize::MAX },
        None => usize::MAX,
    };
    if raw_start >= raw_end || raw_end > data.len() {
        return empty;
    }
    let raw_slice = &data[raw_start..raw_end];
    assert(raw_slice@ == data@.subrange(raw_start as int, raw_end as int));
    assert(seg@.objects == objects_models(seg.objects@));
    contiguous_blocks_exec(&seg.objects, raw_slice, seg.header.is_big_endian, g, c)
}

impl TdmsFile {
    /// The stored blocks of the channel `channel_name` of the group
    /// `group_name`, from every segment in order.
    pub fn string_blocks(&self, group_name: &str, channel_name: &str) -> (r: Vec<StringBlock>)
        ensures
            blocks_view(r@) == segments_blocks(segments_view(self.segments@), self.bytes(), group_name@, channel_name@,
                self.segments@.len()),
    {
        let data = crate::file::mmap_slice(&self.mmap);
        let ghost segs = segments_view(self.segments@);
        let mut out: Vec<StringBlock> = Vec::new();
        let mut i: usize = 0;
        assert(blocks_view(out@) =~= Seq::<(Seq<u8>, bool, u64)>::empty());
        while i < self.segments.len()
            invariant
                i <= self.segments@.len(),
                segs == segments_view(self.segments@),
                data@ == self.bytes(),
                segments_blocks(segs, data@, group_name@, channel_name@, i as nat) == blocks_view(out@),
            decreases self.segments@.len() - i,
        {
            assert(segs[i as int] == self.segments@[i as int]@);
            let ghost before = out@;
            let mut v = segment_blocks_exec(&self.segments[i], data, group_name, channel_name);
            let ghost vv = v@;
            out.append(&mut v);
            assert(blocks_view(out@) =~= blocks_view(before) + blocks_view(vv));
            i = i + 1;
        }
        out
    }
}

/// The end offsets of the first `k` strings of a block, read in its byte
/// order, each plus `base`, little-endian; none where one would not fit a `u32`.
pub open spec fn rebased(b: Seq<u8>, be: bool, base: int, k: nat) -> Option<Seq<u8>>
    decreases k,
{
    if k == 0 {
        Some(Seq::empty())
    } else {
        match rebased(b, be, base, (k - 1) as nat) {
            None => None,
            Some(o) => {
                let x = base + u32_at(b, 4 * (k - 1), be);
                if x <= u32::MAX { Some(o + le_bytes_u32(x as u32)) } else { None }
            },
        }
    }
}

/// The strings of the blocks, joined: the end offsets of all of them, counted
/// from the start of the joined text, little-endian; and the text of all of
/// them. None where a block is shorter than its offsets, or where an offset
/// would not fit a `u32`.
pub open spec fn joined_strings(bs: Seq<(Seq<u8>, bool, u64)>) -> Option<(Seq<u8>, Seq<u8>)>
    decreases bs.len(),
{
    if bs.len() == 0 {
        Some((Seq::empty(), Seq::empty()))
    } else {
        match joined_strings(bs.drop_last()) {
            None => None,
            Some((offs, text)) => {
                let b = bs.last();
                if 4 * b.2 > b.0.len() {
                    None
                } else {
                    match rebased(b.0, b.1, text.len() as int, b.2 as nat) {
                        None => None,
                        Some(o) => Some((offs + o, text + b.0.subrange(4 * b.2, b.0.len() as int))),
                    }
                }
            },
        }
    }
}

/// Appends the end offsets of a block's strings, each plus `base`, little-endian.
fn push_rebased(out: &mut Vec<u8>, b: &[u8], be: bool, base: usize, n: u64) -> (ok: bool)
    requires
        4 * n <= b@.len(),
    ensures
        match rebased(b@, be, base as int, n as nat) {
            Some(o) => ok && final(out)@ == old(out)@ + o,
            None => !ok,
        },
{
    let ghost o0 = out@;
    let _blen = b.len();
    let mut k: u64 = 0;
    while k < n
        invariant
            k <= n,
            4 * n <= b@.len(),
            b@.len() <= usize::MAX,
            rebased(b@, be, base as int, k as nat) matches Some(o) && out@ == o0 + o,
        decreases n - k,
    {
        let pos = (4 * k) as usize;
        let off = read_u32_at(b, pos, be);
        if base > 0xFFFF_FFFFusize || (base as u64) + (off as u64) > 0xFFFF_FFFFu64 {
            proof {
                lemma_rebased_none(b@, be, base as int, (k + 1) as nat, n as nat);
            }
            return false;
        }
        let x = (base as u64 + off as u64) as u32;
        let ghost before = out@;
        push_u32_le(out, x);
        proof {
            let o = rebased(b@, be, base as int, k as nat)->0;
            assert(out@ =~= o0 + (o + le_bytes_u32(x)));
        }
        k = k + 1;
    }
    true
}

proof fn lemma_rebased_none(b: Seq<u8>, be: bool, base: int, k: nat, n: nat)
    requires
        k <= n,
        rebased(b, be, base, k) is None,
    ensures
        rebased(b, be, base, n) is None,
    decreases n,
{
    if n > k {
        lemma_rebased_none(b, be, base, k, (n - 1) as nat);
    }
}

proof fn lemma_joined_none(bs: Seq<(Seq<u8>, bool, u64)>, k: nat)
    requires
        k <= bs.len(),
        joined_strings(bs.take(k as int)) is None,
    ensures
        joined_strings(bs) is None,
    decreases bs.len() - k,
{
    if k < bs.len() {
        let t = bs.take(k + 1 as int);
        assert(t.drop_last() =~= bs.take(k as int));
        lemma_joined_none(bs, k + 1);
    } else {
        assert(bs.take(k as int) =~= bs);
    }
}

/// The strings of the blocks, joined as `joined_strings` says.
pub fn join_strings(blocks: &Vec<StringBlock>) -> (r: Option<(Vec<u8>, Vec<u8>)>)
    ensures
        match joined_strings(blocks_view(blocks@)) {
            Some((offs, text)) => r matches Some((o, t)) && o@ == offs && t@ == text,
            None => r is None,
        },
{
    let ghost bs = blocks_view(blocks@);
    let mut offs: Vec<u8> = Vec::new();
    let mut text: Vec<u8> = Vec::new();
    let mut i: usize = 0;
    assert(bs.take(0) =~= Seq::<(Seq<u8>, bool, u64)>::empty());
    while i < blocks.len()
        invariant
            i <= blocks@.len(),
            bs == blocks_view(blocks@),
            joined_strings(bs.take(i as int)) == Some((offs@, text@)),
        decreases blocks@.len() - i,
    {
        let b = &blocks[i];
        assert(bs[i as int] == b@);
        let ghost t = bs.take(i + 1 as int);
        assert(t.drop_last() =~= bs.take(i as int));
        assert(t.last() == b@);
        let blen = b.bytes.len();
        if b.count > (blen / 4) as u64 {
            proof {
                lemma_joined_none(bs, (i + 1) as nat);
            }
            return None;
        }
        let base = text.len();
        let ghost o_before = offs@;
        if !push_rebased(&mut offs, b.bytes.as_slice(), b.big_endian, base, b.count) {
            proof {
                lemma_joined_none(bs, (i + 1) as nat);
            }
            return None;
        }
        let n = (4 * b.count) as usize;
        let ghost t_before = text@;
        let piece = copy_range(b.bytes.as_slice(), n, blen);
        let mut piece = piece;
        text.append(&mut piece);
        proof {
            assert(text@ =~= t_before + b.bytes@.subrange(4 * b.count, b.bytes@.len() as int));
        }
        i = i + 1;
    }
    assert(bs.take(bs.len() as int) =~= bs);
    Some((offs, text))
}

} // verus!
