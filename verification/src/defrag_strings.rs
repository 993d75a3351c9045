//! What is read back of the strings of a consolidated segment.

use vstd::prelude::*;
use crate::channel_data::{chunk_size, obj_size, object_is};
use crate::defrag::{channel_index, channel_strings, spec_channel_raw, spec_defrag_bytes, spec_defrag_metadata, spec_groups_raw, string_outcome};
use crate::defrag_read::{
    channel_consistent, channel_written, defrag_objects, defrag_storable, file_consistent, group_consistent,
    lemma_defrag_index, defrag_segment, plain_written,
};
use crate::defrag_values::{
    channel_parts, defrag_parts, group_parts, groups_parts, lemma_channel_entries_front, lemma_channel_object_is,
    lemma_channel_parts_len, lemma_defrag_aligned, lemma_defrag_parts, lemma_find_channel, lemma_group_entries_front,
    lemma_part_raw_add, part_aligned, part_models, part_raw, Part,
};
use crate::file::{spec_index, TdmsFile};
use crate::header::{spec_lead_in_bytes, HEADER_SIZE};
use crate::model::{ChannelModel, GroupModel, TdmsChannel, TdmsGroup};
use crate::segment::SegmentModel;
use crate::namemap::keys_distinct;
use crate::strings::{chunk_blocks, segment_blocks, segments_blocks};
use crate::types::DataType;
use crate::writer::{WRITTEN_TOC, WRITTEN_VERSION};

verus! {

/// A stored string block: its bytes, their byte order, its string count.
pub type Block = (Seq<u8>, bool, u64);

/// The blocks of the channel `c` of the group `g` in the first `k` parts: the
/// raw data of each part whose object is the channel and has an index.
pub open spec fn parts_blocks(ps: Seq<Part>, g: Seq<char>, c: Seq<char>, k: nat) -> Seq<Block>
    decreases k,
{
    if k == 0 || k > ps.len() {
        Seq::empty()
    } else {
        let before = parts_blocks(ps, g, c, (k - 1) as nat);
        let o = ps[k - 1].0;
        match o.raw_data_index {
            Some(idx) => if object_is(o, g, c) {
                before.push((ps[k - 1].1, false, idx.number_of_values))
            } else {
                before
            },
            None => before,
        }
    }
}

/// A chunk laid out part by part gives the blocks part by part.
proof fn lemma_chunk_parts_blocks(ps: Seq<Part>, post: Seq<u8>, g: Seq<char>, c: Seq<char>, k: nat)
    requires
        k <= ps.len(),
        forall|i: int| 0 <= i < ps.len() ==> part_aligned(#[trigger] ps[i]),
        part_raw(ps).len() <= usize::MAX,
    ensures
        chunk_blocks(part_models(ps), part_raw(ps) + post, false, 0, g, c, k)
            == (parts_blocks(ps, g, c, k), part_raw(ps.take(k as int)).len() as int),
    decreases k,
{
    let objs = part_models(ps);
    let raw = part_raw(ps) + post;
    if k == 0 {
        assert(ps.take(0) =~= Seq::<Part>::empty());
    } else {
        lemma_chunk_parts_blocks(ps, post, g, c, (k - 1) as nat);
        let a = ps.take(k - 1);
        let t = ps.take(k as int);
        assert(t.drop_last() =~= a);
        assert(t.last() == ps[k - 1]);
        assert(ps =~= t + ps.skip(k as int));
        lemma_part_raw_add(t, ps.skip(k as int));
        let pos = part_raw(a).len() as int;
        let p1 = ps[k - 1];
        assert(part_aligned(ps[k - 1]));
        assert(objs[k - 1] == p1.0);
        assert(raw =~= part_raw(a) + p1.1 + (part_raw(ps.skip(k as int)) + post));
        match p1.0.raw_data_index {
            None => {},
            Some(idx) => {
                let size = obj_size(idx);
                assert(raw.subrange(pos, pos + size) =~= p1.1);
                assert(0 + pos == pos);
            },
        }
    }
}

proof fn lemma_parts_blocks_prefix(ps: Seq<Part>, qs: Seq<Part>, g: Seq<char>, c: Seq<char>, k: nat)
    requires
        k <= ps.len(),
        k <= qs.len(),
        forall|i: int| 0 <= i < k ==> ps[i] == qs[i],
    ensures
        parts_blocks(ps, g, c, k) == parts_blocks(qs, g, c, k),
    decreases k,
{
    if k > 0 {
        lemma_parts_blocks_prefix(ps, qs, g, c, (k - 1) as nat);
        assert(ps[k - 1] == qs[k - 1]);
    }
}

proof fn lemma_parts_blocks_shift(a: Seq<Part>, b: Seq<Part>, g: Seq<char>, c: Seq<char>, j: nat)
    requires
        j <= b.len(),
    ensures
        parts_blocks(a + b, g, c, a.len() + j) == parts_blocks(a, g, c, a.len()) + parts_blocks(b, g, c, j),
    decreases j,
{
    if j == 0 {
        lemma_parts_blocks_prefix(a + b, a, g, c, a.len());
        assert(parts_blocks(a, g, c, a.len()) + Seq::<Block>::empty() =~= parts_blocks(a, g, c, a.len()));
    } else {
        lemma_parts_blocks_shift(a, b, g, c, (j - 1) as nat);
        assert((a + b)[a.len() + j - 1] == b[j - 1]);
        let pa = parts_blocks(a, g, c, a.len());
        let pb = parts_blocks(b, g, c, (j - 1) as nat);
        let o = b[j - 1].0;
        if let Some(idx) = o.raw_data_index {
            if object_is(o, g, c) {
                assert((pa + pb).push((b[j - 1].1, false, idx.number_of_values))
                    =~= pa + pb.push((b[j - 1].1, false, idx.number_of_values)));
            }
        }
    }
}

/// The blocks of two runs of parts one after the other.
proof fn lemma_parts_blocks_add(a: Seq<Part>, b: Seq<Part>, g: Seq<char>, c: Seq<char>)
    ensures
        parts_blocks(a + b, g, c, (a + b).len()) == parts_blocks(a, g, c, a.len()) + parts_blocks(b, g, c, b.len()),
{
    lemma_parts_blocks_shift(a, b, g, c, b.len());
}

/// The block that the channel's part gives, where it has an index.
pub open spec fn channel_block(f: TdmsFile, g: Seq<char>, ch: TdmsChannel) -> Seq<Block> {
    match channel_index(f, g, ch) {
        Some(idx) => seq![(spec_channel_raw(f, g, ch), false, idx.number_of_values)],
        None => Seq::empty(),
    }
}

/// The channels of the group `k` where none is the channel `c` of the group `g` give no blocks.
#[verifier::spinoff_prover]
proof fn lemma_channel_blocks_none(
    f: TdmsFile,
    k: Seq<char>,
    chs: Seq<TdmsChannel>,
    es: Seq<(Seq<char>, ChannelModel)>,
    g: Seq<char>,
    c: Seq<char>,
)
    requires
        es.len() == chs.len(),
        forall|j: int| 0 <= j < es.len() ==> (#[trigger] es[j]).1 == chs[j]@,
        forall|j: int| 0 <= j < es.len() ==> channel_consistent(k, (#[trigger] es[j]).0, es[j].1),
        forall|j: int| 0 <= j < es.len() ==> !(k == g && (#[trigger] es[j]).0 == c),
    ensures
        parts_blocks(channel_parts(f, k, chs), g, c, chs.len()) == Seq::<Block>::empty(),
    decreases chs.len(),
{
    if chs.len() > 0 {
        let c0 = chs.drop_last();
        let e0 = es.drop_last();
        lemma_channel_entries_front(k, chs, es, g, c);
        lemma_channel_blocks_none(f, k, c0, e0, g, c);
        lemma_channel_parts_len(f, k, c0);
        let ps = channel_parts(f, k, chs);
        assert(ps.drop_last() =~= channel_parts(f, k, c0));
        lemma_parts_blocks_prefix(ps, channel_parts(f, k, c0), g, c, c0.len());
        let n = (chs.len() - 1) as int;
        assert(es[n].1 == chs[n]@);
        assert(channel_consistent(k, es[n].0, es[n].1));
        assert(!(k == g && es[n].0 == c));
        lemma_channel_object_is(f, k, es[n].0, chs[n], g, c);
        assert(ps[n] == (channel_written(f, k, chs.last()).0, spec_channel_raw(f, k, chs.last())));
    }
}

/// The channels of the group `g` where the channel at `t` is the channel `c` give its block.
#[verifier::spinoff_prover]
proof fn lemma_channel_blocks_target(
    f: TdmsFile,
    g: Seq<char>,
    chs: Seq<TdmsChannel>,
    es: Seq<(Seq<char>, ChannelModel)>,
    c: Seq<char>,
    t: int,
)
    requires
        es.len() == chs.len(),
        forall|j: int| 0 <= j < es.len() ==> (#[trigger] es[j]).1 == chs[j]@,
        forall|j: int| 0 <= j < es.len() ==> channel_consistent(g, (#[trigger] es[j]).0, es[j].1),
        keys_distinct(es),
        0 <= t < es.len(),
        es[t].0 == c,
    ensures
        parts_blocks(channel_parts(f, g, chs), g, c, chs.len()) == channel_block(f, g, chs[t]),
    decreases chs.len(),
{
    let c0 = chs.drop_last();
    let e0 = es.drop_last();
    lemma_channel_entries_front(g, chs, es, g, c);
    lemma_channel_parts_len(f, g, c0);
    let ps = channel_parts(f, g, chs);
    assert(ps.drop_last() =~= channel_parts(f, g, c0));
    lemma_parts_blocks_prefix(ps, channel_parts(f, g, c0), g, c, c0.len());
    let n = (chs.len() - 1) as int;
    assert(es[n].1 == chs[n]@);
    assert(channel_consistent(g, es[n].0, es[n].1));
    lemma_channel_object_is(f, g, es[n].0, chs[n], g, c);
    assert(ps[n] == (channel_written(f, g, chs.last()).0, spec_channel_raw(f, g, chs.last())));
    if t == n {
        assert forall|j: int| 0 <= j < e0.len() implies !(g == g && (#[trigger] e0[j]).0 == c) by {
            assert(e0[j] == es[j]);
            assert(es[j].0 != es[t].0);
        }
        lemma_channel_blocks_none(f, g, c0, e0, g, c);
        let r = channel_block(f, g, chs[t]);
        assert(Seq::<Block>::empty() + r =~= r);
        if channel_index(f, g, chs[t]) is Some {
            assert(Seq::<Block>::empty().push(r[0]) =~= r);
        }
    } else {
        assert(e0[t] == es[t]);
        lemma_channel_blocks_target(f, g, c0, e0, c, t);
        assert(chs[t] == c0[t]);
        assert(es[n].0 != es[t].0);
    }
}

proof fn lemma_head_blocks(p: Part, g: Seq<char>, c: Seq<char>)
    requires
        p.0.raw_data_index is None,
    ensures
        parts_blocks(seq![p], g, c, 1) == Seq::<Block>::empty(),
{
    assert(seq![p][0] == p);
    assert(parts_blocks(seq![p], g, c, 0) == Seq::<Block>::empty());
}

/// A group other than `g` gives no blocks of the channel `c` of `g`.
#[verifier::spinoff_prover]
proof fn lemma_group_blocks_none(f: TdmsFile, key: Seq<char>, grp: TdmsGroup, g: Seq<char>, c: Seq<char>)
    requires
        group_consistent(key, grp),
        key != g,
    ensures
        parts_blocks(group_parts(f, grp), g, c, group_parts(f, grp).len()) == Seq::<Block>::empty(),
{
    let head = seq![(plain_written(grp.path@, grp.properties.entries()).0, Seq::<u8>::empty())];
    let chs = grp.channels.values();
    let es = grp.channels.entries();
    grp.channels.lemma_values();
    lemma_channel_parts_len(f, grp.name@, chs);
    assert forall|j: int| 0 <= j < es.len() implies (#[trigger] es[j]).1 == chs[j]@ by {}
    assert forall|j: int| 0 <= j < es.len() implies !(key == g && (#[trigger] es[j]).0 == c) by {}
    lemma_channel_blocks_none(f, key, chs, es, g, c);
    lemma_head_blocks(head[0], g, c);
    assert(head == seq![head[0]]);
    lemma_parts_blocks_add(head, channel_parts(f, grp.name@, chs), g, c);
    assert(Seq::<Block>::empty() + Seq::<Block>::empty() =~= Seq::<Block>::empty());
}

/// The group `g` gives the block of its channel at `t`, when that is the channel `c`.
#[verifier::spinoff_prover]
proof fn lemma_group_blocks_target(f: TdmsFile, grp: TdmsGroup, g: Seq<char>, c: Seq<char>, t: int)
    requires
        group_consistent(g, grp),
        0 <= t < grp.channels.entries().len(),
        grp.channels.entries()[t].0 == c,
    ensures
        parts_blocks(group_parts(f, grp), g, c, group_parts(f, grp).len()) == channel_block(f, g, grp.channels.values()[t]),
{
    let head = seq![(plain_written(grp.path@, grp.properties.entries()).0, Seq::<u8>::empty())];
    let chs = grp.channels.values();
    let es = grp.channels.entries();
    grp.channels.lemma_values();
    lemma_channel_parts_len(f, grp.name@, chs);
    assert forall|j: int| 0 <= j < es.len() implies (#[trigger] es[j]).1 == chs[j]@ by {}
    lemma_channel_blocks_target(f, g, chs, es, c, t);
    lemma_head_blocks(head[0], g, c);
    assert(head == seq![head[0]]);
    lemma_parts_blocks_add(head, channel_parts(f, grp.name@, chs), g, c);
    let r = channel_block(f, g, chs[t]);
    assert(Seq::<Block>::empty() + r =~= r);
}

proof fn lemma_groups_blocks_none(f: TdmsFile, gs: Seq<TdmsGroup>, es: Seq<(Seq<char>, GroupModel)>, g: Seq<char>, c: Seq<char>)
    requires
        es.len() == gs.len(),
        forall|i: int| 0 <= i < es.len() ==> group_consistent((#[trigger] es[i]).0, gs[i]),
        forall|i: int| 0 <= i < es.len() ==> (#[trigger] es[i]).0 != g,
    ensures
        parts_blocks(groups_parts(f, gs), g, c, groups_parts(f, gs).len()) == Seq::<Block>::empty(),
    decreases gs.len(),
{
    if gs.len() > 0 {
        let g0 = gs.drop_last();
        let e0 = es.drop_last();
        lemma_group_entries_front(gs, es, g);
        lemma_groups_blocks_none(f, g0, e0, g, c);
        let n = (gs.len() - 1) as int;
        assert(group_consistent(es[n].0, gs[n]));
        assert(es[n].0 != g);
        lemma_group_blocks_none(f, es[n].0, gs[n], g, c);
        lemma_parts_blocks_add(groups_parts(f, g0), group_parts(f, gs.last()), g, c);
        assert(Seq::<Block>::empty() + Seq::<Block>::empty() =~= Seq::<Block>::empty());
    } else {
        assert(groups_parts(f, gs).len() == 0);
    }
}

proof fn lemma_groups_blocks_target(f: TdmsFile, gs: Seq<TdmsGroup>, es: Seq<(Seq<char>, GroupModel)>, g: Seq<char>,
    c: Seq<char>, i: int, t: int)
    requires
        es.len() == gs.len(),
        forall|k: int| 0 <= k < es.len() ==> group_consistent((#[trigger] es[k]).0, gs[k]),
        keys_distinct(es),
        0 <= i < es.len(),
        es[i].0 == g,
        0 <= t < gs[i].channels.entries().len(),
        gs[i].channels.entries()[t].0 == c,
    ensures
        parts_blocks(groups_parts(f, gs), g, c, groups_parts(f, gs).len()) == channel_block(f, g, gs[i].channels.values()[t]),
    decreases gs.len(),
{
    let g0 = gs.drop_last();
    let e0 = es.drop_last();
    let n = (gs.len() - 1) as int;
    lemma_group_entries_front(gs, es, g);
    lemma_parts_blocks_add(groups_parts(f, g0), group_parts(f, gs.last()), g, c);
    assert(group_consistent(es[n].0, gs[n]));
    let r = channel_block(f, g, gs[i].channels.values()[t]);
    if i == n {
        assert forall|k: int| 0 <= k < e0.len() implies (#[trigger] e0[k]).0 != g by {
            assert(e0[k] == es[k]);
        }
        lemma_groups_blocks_none(f, g0, e0, g, c);
        lemma_group_blocks_target(f, gs[n], g, c, t);
        assert(Seq::<Block>::empty() + r =~= r);
    } else {
        assert(e0[i] == es[i]);
        assert(g0[i] == gs[i]);
        lemma_groups_blocks_target(f, g0, e0, g, c, i, t);
        assert(es[n].0 != es[i].0);
        lemma_group_blocks_none(f, es[n].0, gs[n], g, c);
        assert(r + Seq::<Block>::empty() =~= r);
    }
}

/// The parts of the consolidated segment give the block of the channel at `t`
/// of the group at `i`, which is the channel `c` of the group `g`.
#[verifier::spinoff_prover]
proof fn lemma_defrag_parts_blocks(f: TdmsFile, g: Seq<char>, c: Seq<char>, i: int, t: int)
    requires
        file_consistent(f),
        0 <= i < f.groups.entries().len(),
        f.groups.entries()[i].0 == g,
        0 <= t < f.groups.values()[i].channels.entries().len(),
        f.groups.values()[i].channels.entries()[t].0 == c,
    ensures
        parts_blocks(defrag_parts(f), g, c, defrag_parts(f).len())
            == channel_block(f, g, f.groups.values()[i].channels.values()[t]),
{
    let gs = f.groups.values();
    let ges = f.groups.entries();
    f.groups.lemma_values();
    assert forall|k: int| 0 <= k < ges.len() implies group_consistent((#[trigger] ges[k]).0, gs[k]) by {}
    lemma_groups_blocks_target(f, gs, ges, g, c, i, t);
    let head = seq![(plain_written(seq!['/'], f.properties.entries()).0, Seq::<u8>::empty())];
    lemma_head_blocks(head[0], g, c);
    assert(head == seq![head[0]]);
    lemma_parts_blocks_add(head, groups_parts(f, gs), g, c);
    let r = channel_block(f, g, gs[i].channels.values()[t]);
    assert(Seq::<Block>::empty() + r =~= r);
}

/// The one chunk of the consolidated segment, read part by part.
#[verifier::spinoff_prover]
proof fn lemma_defrag_chunk_blocks(f: TdmsFile, g: Seq<char>, c: Seq<char>)
    requires
        spec_groups_raw(f, f.groups.values()).len() <= usize::MAX,
    ensures
        ({
            let raw = spec_groups_raw(f, f.groups.values());
            let objs = defrag_objects(f);
            &&& chunk_size(objs, objs.len()) == raw.len()
            &&& chunk_blocks(objs, raw, false, 0, g, c, objs.len()).0
                == parts_blocks(defrag_parts(f), g, c, defrag_parts(f).len())
        }),
{
    lemma_defrag_parts(f);
    let ps = defrag_parts(f);
    let raw = spec_groups_raw(f, f.groups.values());
    lemma_defrag_aligned(f);
    lemma_chunk_parts_blocks(ps, Seq::empty(), g, c, ps.len());
    crate::defrag_values::lemma_chunk_parts(ps, Seq::empty(), g, c, 1, ps.len());
    assert(ps.take(ps.len() as int) =~= ps);
    assert(raw + Seq::<u8>::empty() =~= raw);
}

/// A little-endian, contiguous segment whose raw data is one chunk gives the
/// blocks of that chunk.
#[verifier::spinoff_prover]
proof fn lemma_one_chunk_blocks(seg: SegmentModel, data: Seq<u8>, raw: Seq<u8>, g: Seq<char>, c: Seq<char>)
    requires
        seg.header.has_raw_data,
        !seg.header.is_interleaved,
        !seg.header.is_big_endian,
        seg.raw_data_offset <= usize::MAX,
        seg.raw_data_offset < crate::channel_data::raw_end(seg) <= data.len(),
        data.subrange(seg.raw_data_offset as int, crate::channel_data::raw_end(seg)) == raw,
        raw.len() > 0,
        chunk_size(seg.objects, seg.objects.len()) == raw.len(),
    ensures
        segments_blocks(seq![seg], data, g, c, 1) == chunk_blocks(seg.objects, raw, false, 0, g, c, seg.objects.len()).0,
{
    let objs = seg.objects;
    let rl = raw.len() as int;
    assert(rl / rl == 1) by (nonlinear_arith)
        requires
            rl > 0,
    ;
    let b = chunk_blocks(objs, raw, false, 0, g, c, objs.len()).0;
    assert(crate::strings::chunks_blocks(objs, raw, false, rl, g, c, 0) == Seq::<Block>::empty());
    assert(0 * rl == 0);
    assert(Seq::<Block>::empty() + b =~= b);
    assert(crate::strings::chunks_blocks(objs, raw, false, rl, g, c, 1) == b);
    assert(crate::strings::contiguous_blocks(objs, raw, false, g, c) == b);
    assert(segment_blocks(seg, data, g, c) == b);
    let segs = seq![seg];
    assert(segs[0] == seg);
    assert(segments_blocks(segs, data, g, c, 0) == Seq::<Block>::empty());
}

/// The consolidated segment, of some raw data, read as one chunk.
#[verifier::spinoff_prover]
#[verifier::rlimit(40)]
proof fn lemma_defrag_segment_blocks(f: TdmsFile, g: Seq<char>, c: Seq<char>)
    requires
        spec_defrag_bytes(f).len() <= usize::MAX,
        spec_groups_raw(f, f.groups.values()).len() > 0,
        chunk_size(defrag_objects(f), defrag_objects(f).len()) == spec_groups_raw(f, f.groups.values()).len(),
    ensures
        segments_blocks(seq![defrag_segment(f)], spec_defrag_bytes(f), g, c, 1)
            == chunk_blocks(defrag_objects(f), spec_groups_raw(f, f.groups.values()), false, 0, g, c,
                defrag_objects(f).len()).0,
{
    let data = spec_defrag_bytes(f);
    let raw = spec_groups_raw(f, f.groups.values());
    let meta = spec_defrag_metadata(f);
    let seg = defrag_segment(f);
    let lead = spec_lead_in_bytes(WRITTEN_TOC, WRITTEN_VERSION, (meta.len() + raw.len()) as u64, meta.len() as u64);
    assert(data =~= lead + meta + raw);
    assert((0x0eu32 & 0x08u32) != 0u32) by (bit_vector);
    assert((0x0eu32 & 0x20u32) == 0u32) by (bit_vector);
    assert((0x0eu32 & 0x40u32) == 0u32) by (bit_vector);
    let start = HEADER_SIZE + meta.len();
    let end = HEADER_SIZE + meta.len() + raw.len();
    assert(crate::channel_data::raw_end(seg) == end);
    assert(data.subrange(start, end) =~= raw);
    lemma_one_chunk_blocks(seg, data, raw, g, c);
}

/// A string channel whose strings can be joined gives one block: the joined
/// strings, little-endian, with their count.
proof fn lemma_string_block(f: TdmsFile, g: Seq<char>, ch: TdmsChannel)
    requires
        ch.data_type == Some(DataType::String),
        channel_strings(f, g, ch.name@) is Some,
    ensures
        ({
            let (offs, text) = channel_strings(f, g, ch.name@)->0;
            &&& spec_channel_raw(f, g, ch) == offs + text
            &&& channel_block(f, g, ch) == seq![(offs + text, false, (offs.len() / 4) as u64)]
        }),
{
    let (offs, text) = channel_strings(f, g, ch.name@)->0;
    assert(string_outcome(f, g, ch) == Some((offs, text)));
    assert(spec_channel_raw(f, g, ch) == offs + text) by {
        reveal(spec_channel_raw);
    }
}

/// The consolidated segment gives the block of the string channel at `t` of
/// the group at `i`, which is the channel `c` of the group `g`.
#[verifier::spinoff_prover]
#[verifier::rlimit(40)]
proof fn lemma_defrag_strings_at(f: TdmsFile, g: Seq<char>, c: Seq<char>, i: int, t: int)
    requires
        file_consistent(f),
        spec_defrag_bytes(f).len() <= usize::MAX,
        0 <= i < f.groups.entries().len(),
        f.groups.entries()[i].0 == g,
        0 <= t < f.groups.values()[i].channels.entries().len(),
        f.groups.values()[i].channels.entries()[t].0 == c,
        f.groups.values()[i].name@ == g,
        f.groups.values()[i].channels.values()[t].name@ == c,
        f.groups.values()[i].channels.values()[t].data_type == Some(DataType::String),
        channel_strings(f, g, c) matches Some((offs, _)) && offs.len() > 0,
    ensures
        ({
            let (offs, text) = channel_strings(f, g, c)->0;
            segments_blocks(seq![defrag_segment(f)], spec_defrag_bytes(f), g, c, 1)
                == seq![(offs + text, false, (offs.len() / 4) as u64)]
        }),
{
    let (offs, text) = channel_strings(f, g, c)->0;
    let block = seq![(offs + text, false, (offs.len() / 4) as u64)];
    let gs = f.groups.values();
    let ch = gs[i].channels.values()[t];
    let ps = defrag_parts(f);
    let raw = spec_groups_raw(f, gs);
    let objs = defrag_objects(f);
    assert(parts_blocks(ps, g, c, ps.len()) == block) by {
        lemma_string_block(f, g, ch);
        lemma_defrag_parts_blocks(f, g, c, i, t);
    }
    assert(spec_defrag_bytes(f).len() >= raw.len());
    assert(chunk_size(objs, objs.len()) == raw.len() && chunk_blocks(objs, raw, false, 0, g, c, objs.len()).0 == block) by {
        lemma_defrag_chunk_blocks(f, g, c);
    }
    assert(raw.len() > 0) by {
        f.groups.lemma_values();
        gs[i].channels.lemma_values();
        lemma_string_block(f, g, ch);
        crate::defrag_values::lemma_groups_raw_within(f, gs, i, t);
        lemma_defrag_parts(f);
        let head = seq![(plain_written(seq!['/'], f.properties.entries()).0, Seq::<u8>::empty())];
        lemma_part_raw_add(head, groups_parts(f, gs));
        assert(spec_channel_raw(f, g, ch).len() <= part_raw(groups_parts(f, gs)).len());
        assert(spec_channel_raw(f, g, ch).len() >= offs.len());
        assert(part_raw(head) =~= Seq::<u8>::empty()) by {
            assert(head.drop_last() =~= Seq::<Part>::empty());
            assert(part_raw(head.drop_last()) == Seq::<u8>::empty());
            assert(head.last().1 == Seq::<u8>::empty());
        }
    }
    lemma_defrag_segment_blocks(f, g, c);
}

/// Consolidating keeps a string channel's strings: reading the string blocks of
/// the channel from the consolidated segment of a file whose groups and
/// channels are stored as indexing stores them gives one block, little-endian,
/// that holds the end offsets of all its strings, counted from the start of
/// their joined text, then that text; where the channel has strings.
pub proof fn lemma_defrag_strings(f: TdmsFile, g: Seq<char>, c: Seq<char>)
    requires
        defrag_storable(f),
        file_consistent(f),
        defrag_objects(f).len() <= u32::MAX,
        spec_defrag_bytes(f).len() <= usize::MAX,
        f.groups@.dom().contains(g),
        f.groups@[g].channels.dom().contains(c),
        f.groups@[g].channels[c].data_type == Some(DataType::String),
        channel_strings(f, g, c) matches Some((offs, _)) && offs.len() > 0,
    ensures
        ({
            let (offs, text) = channel_strings(f, g, c)->0;
            let data = spec_defrag_bytes(f);
            let m = spec_index(data)->Ok_0;
            &&& spec_index(data) is Ok
            &&& segments_blocks(m.segments, data, g, c, m.segments.len())
                == seq![(offs + text, false, (offs.len() / 4) as u64)]
        }),
{
    lemma_defrag_index(f);
    let (i, t) = lemma_find_channel(f, g, c);
    lemma_defrag_strings_at(f, g, c, i, t);
}

} // verus!
