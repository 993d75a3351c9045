//! What is read back of the values of a consolidated segment.

use vstd::prelude::*;
use crate::channel_data::{
    chunk_size, chunk_values, chunks_values, contiguous_values, elem_size, obj_size, object_is, read_count, sat,
    segment_values, segments_values,
};
use crate::defrag::{
    all_normalized, channel_index, lemma_channel_strings_fit, lemma_wide_le_len, copied_values, copied_type, normalized, read_outcome, spec_channel_raw, spec_channels_raw, spec_defrag_bytes,
    spec_defrag_metadata, spec_groups_raw,
};
use crate::defrag_read::{
    channel_consistent, channel_written, channels_written, defrag_objects, defrag_segment, defrag_storable,
    file_consistent, group_consistent, group_written, groups_written, lemma_defrag_index,
    names_channel, object_models, plain_written,
};
use crate::error::TdmsError;
use crate::file::{spec_index, TdmsFile};
use crate::header::{spec_lead_in_bytes, HEADER_SIZE};
use crate::model::{ChannelModel, GroupModel, TdmsChannel, TdmsGroup};
use crate::namemap::{keys_distinct, lemma_map_of_dom, lemma_map_of_last, map_of};
use crate::segment::ObjectModel;
use crate::types::DataType;
use crate::writer::{WRITTEN_TOC, WRITTEN_VERSION};

verus! {

/// An object of the consolidated segment, with the raw data it holds there.
pub type Part = (ObjectModel, Seq<u8>);

/// What the parts are read back as.
pub open spec fn part_models(ps: Seq<Part>) -> Seq<ObjectModel> {
    ps.map_values(|p: Part| p.0)
}

/// The raw data of the parts, one after the other.
pub open spec fn part_raw(ps: Seq<Part>) -> Seq<u8>
    decreases ps.len(),
{
    if ps.len() == 0 { Seq::empty() } else { part_raw(ps.drop_last()) + ps.last().1 }
}

/// The parts of channels of the group `g`.
pub open spec fn channel_parts(f: TdmsFile, g: Seq<char>, chs: Seq<TdmsChannel>) -> Seq<Part>
    decreases chs.len(),
{
    if chs.len() == 0 {
        Seq::empty()
    } else {
        channel_parts(f, g, chs.drop_last()).push((channel_written(f, g, chs.last()).0, spec_channel_raw(f, g, chs.last())))
    }
}

/// A group's part, which holds no raw data, then those of its channels.
pub open spec fn group_parts(f: TdmsFile, g: TdmsGroup) -> Seq<Part> {
    seq![(plain_written(g.path@, g.properties.entries()).0, Seq::<u8>::empty())]
        + channel_parts(f, g.name@, g.channels.values())
}

pub open spec fn groups_parts(f: TdmsFile, gs: Seq<TdmsGroup>) -> Seq<Part>
    decreases gs.len(),
{
    if gs.len() == 0 { Seq::empty() } else { groups_parts(f, gs.drop_last()) + group_parts(f, gs.last()) }
}

/// The parts of the consolidated segment: the root, then each group and its channels.
pub open spec fn defrag_parts(f: TdmsFile) -> Seq<Part> {
    seq![(plain_written(seq!['/'], f.properties.entries()).0, Seq::<u8>::empty())]
        + groups_parts(f, f.groups.values())
}

pub(crate) proof fn lemma_part_raw_add(a: Seq<Part>, b: Seq<Part>)
    ensures
        part_raw(a + b) == part_raw(a) + part_raw(b),
    decreases b.len(),
{
    if b.len() == 0 {
        assert(a + b =~= a);
        assert(part_raw(a) + Seq::<u8>::empty() =~= part_raw(a));
    } else {
        lemma_part_raw_add(a, b.drop_last());
        assert((a + b).drop_last() =~= a + b.drop_last());
        assert((a + b).last() == b.last());
        assert(part_raw(a) + part_raw(b.drop_last()) + b.last().1 =~= part_raw(a) + (part_raw(b.drop_last()) + b.last().1));
    }
}

proof fn lemma_part_models_add(a: Seq<Part>, b: Seq<Part>)
    ensures
        part_models(a + b) == part_models(a) + part_models(b),
{
    assert(part_models(a + b) =~= part_models(a) + part_models(b));
}

proof fn lemma_single_part(p: Part)
    ensures
        part_raw(seq![p]) == p.1,
        part_models(seq![p]) == seq![p.0],
{
    assert(seq![p].drop_last() =~= Seq::<Part>::empty());
    assert(part_raw(seq![p].drop_last()) == Seq::<u8>::empty());
    assert(seq![p].last() == p);
    assert(Seq::<u8>::empty() + p.1 =~= p.1);
    assert(part_models(seq![p]) =~= seq![p.0]);
}

proof fn lemma_channel_parts(f: TdmsFile, g: Seq<char>, chs: Seq<TdmsChannel>)
    ensures
        part_models(channel_parts(f, g, chs)) == object_models(channels_written(f, g, chs)),
        part_raw(channel_parts(f, g, chs)) == spec_channels_raw(f, g, chs),
    decreases chs.len(),
{
    if chs.len() > 0 {
        lemma_channel_parts(f, g, chs.drop_last());
        let ps = channel_parts(f, g, chs);
        assert(ps.drop_last() =~= channel_parts(f, g, chs.drop_last()));
        assert(part_models(ps) =~= part_models(ps.drop_last()).push(ps.last().0));
        assert(object_models(channels_written(f, g, chs)) =~= object_models(channels_written(f, g, chs.drop_last())).push(channel_written(f, g, chs.last()).0));
    } else {
        assert(part_models(channel_parts(f, g, chs)) =~= Seq::<ObjectModel>::empty());
        assert(object_models(channels_written(f, g, chs)) =~= Seq::<ObjectModel>::empty());
    }
}

proof fn lemma_groups_parts(f: TdmsFile, gs: Seq<TdmsGroup>)
    ensures
        part_models(groups_parts(f, gs)) == object_models(groups_written(f, gs)),
        part_raw(groups_parts(f, gs)) == spec_groups_raw(f, gs),
    decreases gs.len(),
{
    if gs.len() > 0 {
        let g0 = gs.drop_last();
        let g = gs.last();
        lemma_groups_parts(f, g0);
        let head = seq![(plain_written(g.path@, g.properties.entries()).0, Seq::<u8>::empty())];
        let chs = g.channels.values();
        lemma_channel_parts(f, g.name@, chs);
        lemma_single_part(head[0]);
        assert(head == seq![head[0]]);
        lemma_part_models_add(head, channel_parts(f, g.name@, chs));
        lemma_part_raw_add(head, channel_parts(f, g.name@, chs));
        lemma_part_models_add(groups_parts(f, g0), group_parts(f, g));
        lemma_part_raw_add(groups_parts(f, g0), group_parts(f, g));
        let hw = seq![plain_written(g.path@, g.properties.entries())];
        assert(object_models(hw) =~= seq![hw[0].0]);
        crate::defrag_read::lemma_models_add(hw, channels_written(f, g.name@, chs));
        crate::defrag_read::lemma_models_add(groups_written(f, g0), group_written(f, g));
        assert(Seq::<u8>::empty() + spec_channels_raw(f, g.name@, chs) =~= spec_channels_raw(f, g.name@, chs));
    } else {
        assert(part_models(groups_parts(f, gs)) =~= Seq::<ObjectModel>::empty());
        assert(object_models(groups_written(f, gs)) =~= Seq::<ObjectModel>::empty());
    }
}

/// The parts of the consolidated segment are its objects, and their raw data is its raw data.
pub(crate) proof fn lemma_defrag_parts(f: TdmsFile)
    ensures
        part_models(defrag_parts(f)) == defrag_objects(f),
        part_raw(defrag_parts(f)) == spec_groups_raw(f, f.groups.values()),
{
    let gs = f.groups.values();
    let head = seq![(plain_written(seq!['/'], f.properties.entries()).0, Seq::<u8>::empty())];
    lemma_groups_parts(f, gs);
    lemma_single_part(head[0]);
    assert(head == seq![head[0]]);
    lemma_part_models_add(head, groups_parts(f, gs));
    lemma_part_raw_add(head, groups_parts(f, gs));
    let hw = seq![plain_written(seq!['/'], f.properties.entries())];
    assert(object_models(hw) =~= seq![hw[0].0]);
    crate::defrag_read::lemma_models_add(hw, groups_written(f, gs));
    assert(Seq::<u8>::empty() + spec_groups_raw(f, gs) =~= spec_groups_raw(f, gs));
}

/// A part holds as much raw data as its object's index gives, none without an index.
pub open spec fn part_aligned(p: Part) -> bool {
    match p.0.raw_data_index {
        None => p.1.len() == 0,
        Some(idx) => p.1.len() == obj_size(idx),
    }
}

/// The values of the channel `c` of the group `g` in the first `k` parts: those
/// of each part whose object is the channel, read from its raw data.
pub open spec fn parts_values(ps: Seq<Part>, g: Seq<char>, c: Seq<char>, e: int, k: nat)
    -> Result<Seq<(Seq<u8>, bool)>, TdmsError>
    decreases k,
{
    if k == 0 || k > ps.len() {
        Ok(Seq::empty())
    } else {
        match parts_values(ps, g, c, e, (k - 1) as nat) {
            Err(x) => Err(x),
            Ok(vs) => {
                let o = ps[k - 1].0;
                match o.raw_data_index {
                    None => Ok(vs),
                    Some(idx) => if object_is(o, g, c) {
                        match read_count(ps[k - 1].1, sat(idx.number_of_values as int), e, false) {
                            Err(x) => Err(x),
                            Ok(v) => Ok(vs + v),
                        }
                    } else {
                        Ok(vs)
                    },
                }
            },
        }
    }
}

/// A chunk laid out part by part is read part by part.
pub(crate) proof fn lemma_chunk_parts(ps: Seq<Part>, post: Seq<u8>, g: Seq<char>, c: Seq<char>, e: int, k: nat)
    requires
        k <= ps.len(),
        forall|i: int| 0 <= i < ps.len() ==> part_aligned(#[trigger] ps[i]),
        part_raw(ps).len() <= usize::MAX,
    ensures
        chunk_size(part_models(ps), k) == part_raw(ps.take(k as int)).len(),
        chunk_values(part_models(ps), part_raw(ps) + post, false, 0, g, c, e, k) == (match parts_values(ps, g, c, e, k) {
            Ok(vs) => Ok::<(Seq<(Seq<u8>, bool)>, int), TdmsError>((vs, part_raw(ps.take(k as int)).len() as int)),
            Err(x) => Err(x),
        }),
    decreases k,
{
    let objs = part_models(ps);
    let raw = part_raw(ps) + post;
    if k == 0 {
        assert(ps.take(0) =~= Seq::<Part>::empty());
    } else {
        lemma_chunk_parts(ps, post, g, c, e, (k - 1) as nat);
        let a = ps.take(k - 1);
        let t = ps.take(k as int);
        assert(t.drop_last() =~= a);
        assert(t.last() == ps[k - 1]);
        assert(ps =~= t + ps.skip(k as int));
        lemma_part_raw_add(t, ps.skip(k as int));
        let pos = part_raw(a).len() as int;
        let p1 = ps[k - 1];
        assert(part_aligned(ps[k - 1]));
        assert(objs[k - 1] == p1.0);
        assert(raw =~= part_raw(a) + p1.1 + (part_raw(ps.skip(k as int)) + post));
        match p1.0.raw_data_index {
            None => {},
            Some(idx) => {
                let size = obj_size(idx);
                assert(raw.subrange(pos, pos + size) =~= p1.1);
                assert(0 + pos == pos);
            },
        }
    }
}

/// The values of two reads one after the other: the first error, or both values.
pub open spec fn then_values(a: Result<Seq<(Seq<u8>, bool)>, TdmsError>, b: Result<Seq<(Seq<u8>, bool)>, TdmsError>)
    -> Result<Seq<(Seq<u8>, bool)>, TdmsError>
{
    match a {
        Err(x) => Err(x),
        Ok(va) => match b {
            Err(x) => Err(x),
            Ok(vb) => Ok(va + vb),
        },
    }
}

proof fn lemma_parts_values_prefix(ps: Seq<Part>, qs: Seq<Part>, g: Seq<char>, c: Seq<char>, e: int, k: nat)
    requires
        k <= ps.len(),
        k <= qs.len(),
        forall|i: int| 0 <= i < k ==> ps[i] == qs[i],
    ensures
        parts_values(ps, g, c, e, k) == parts_values(qs, g, c, e, k),
    decreases k,
{
    if k > 0 {
        lemma_parts_values_prefix(ps, qs, g, c, e, (k - 1) as nat);
        assert(ps[k - 1] == qs[k - 1]);
    }
}

proof fn lemma_parts_values_shift(a: Seq<Part>, b: Seq<Part>, g: Seq<char>, c: Seq<char>, e: int, j: nat)
    requires
        j <= b.len(),
    ensures
        parts_values(a + b, g, c, e, a.len() + j)
            == then_values(parts_values(a, g, c, e, a.len()), parts_values(b, g, c, e, j)),
    decreases j,
{
    if j == 0 {
        lemma_parts_values_prefix(a + b, a, g, c, e, a.len());
        if parts_values(a, g, c, e, a.len()) is Ok {
            let va = parts_values(a, g, c, e, a.len())->Ok_0;
            assert(va + Seq::<(Seq<u8>, bool)>::empty() =~= va);
        }
    } else {
        lemma_parts_values_shift(a, b, g, c, e, (j - 1) as nat);
        assert((a + b)[a.len() + j - 1] == b[j - 1]);
        let pa = parts_values(a, g, c, e, a.len());
        let pb = parts_values(b, g, c, e, (j - 1) as nat);
        if pa is Ok && pb is Ok {
            let va = pa->Ok_0;
            let vb = pb->Ok_0;
            let o = b[j - 1].0;
            if let Some(idx) = o.raw_data_index {
                if object_is(o, g, c) {
                    let r = read_count(b[j - 1].1, sat(idx.number_of_values as int), e, false);
                    if r is Ok {
                        assert(va + vb + r->Ok_0 =~= va + (vb + r->Ok_0));
                    }
                }
            }
        }
    }
}

/// Reading two runs of parts one after the other.
proof fn lemma_parts_values_add(a: Seq<Part>, b: Seq<Part>, g: Seq<char>, c: Seq<char>, e: int)
    ensures
        parts_values(a + b, g, c, e, (a + b).len())
            == then_values(parts_values(a, g, c, e, a.len()), parts_values(b, g, c, e, b.len())),
{
    lemma_parts_values_shift(a, b, g, c, e, b.len());
}

/// What reading the channel `ch` of the group `k` in the consolidated segment gives.
pub open spec fn channel_read(f: TdmsFile, k: Seq<char>, ch: TdmsChannel, e: int) -> Result<Seq<(Seq<u8>, bool)>, TdmsError> {
    match channel_index(f, k, ch) {
        Some(idx) => read_count(spec_channel_raw(f, k, ch), sat(idx.number_of_values as int), e, false),
        None => Ok(Seq::empty()),
    }
}

pub(crate) proof fn lemma_channel_object_is(f: TdmsFile, k: Seq<char>, ck: Seq<char>, ch: TdmsChannel, g: Seq<char>, c: Seq<char>)
    requires
        channel_consistent(k, ck, ch@),
    ensures
        object_is(channel_written(f, k, ch).0, g, c) <==> (k == g && ck == c),
{
    reveal(names_channel);
    reveal(object_is);
}



pub(crate) proof fn lemma_channel_parts_len(f: TdmsFile, k: Seq<char>, chs: Seq<TdmsChannel>)
    ensures
        channel_parts(f, k, chs).len() == chs.len(),
    decreases chs.len(),
{
    if chs.len() > 0 {
        lemma_channel_parts_len(f, k, chs.drop_last());
    }
}

/// What channels and their entries satisfy, all but the last satisfy too.
pub(crate) proof fn lemma_channel_entries_front(
    k: Seq<char>,
    chs: Seq<TdmsChannel>,
    es: Seq<(Seq<char>, ChannelModel)>,
    g: Seq<char>,
    c: Seq<char>,
)
    requires
        es.len() == chs.len(),
        es.len() > 0,
        forall|j: int| 0 <= j < es.len() ==> (#[trigger] es[j]).1 == chs[j]@,
        forall|j: int| 0 <= j < es.len() ==> channel_consistent(k, (#[trigger] es[j]).0, es[j].1),
    ensures
        ({
            let c0 = chs.drop_last();
            let e0 = es.drop_last();
            &&& forall|j: int| 0 <= j < e0.len() ==> (#[trigger] e0[j]).1 == c0[j]@
            &&& forall|j: int| 0 <= j < e0.len() ==> channel_consistent(k, (#[trigger] e0[j]).0, e0[j].1)
            &&& (forall|j: int| 0 <= j < es.len() ==> !(k == g && (#[trigger] es[j]).0 == c))
                ==> forall|j: int| 0 <= j < e0.len() ==> !(k == g && (#[trigger] e0[j]).0 == c)
            &&& keys_distinct(es) ==> keys_distinct(e0)
        }),
{
    let c0 = chs.drop_last();
    let e0 = es.drop_last();
    assert forall|j: int| 0 <= j < e0.len() implies (#[trigger] e0[j]).1 == c0[j]@ by {
        assert(e0[j] == es[j]);
    }
    assert forall|j: int| 0 <= j < e0.len() implies channel_consistent(k, (#[trigger] e0[j]).0, e0[j].1) by {
        assert(e0[j] == es[j]);
    }
    if forall|j: int| 0 <= j < es.len() ==> !(k == g && (#[trigger] es[j]).0 == c) {
        assert forall|j: int| 0 <= j < e0.len() implies !(k == g && (#[trigger] e0[j]).0 == c) by {
            assert(e0[j] == es[j]);
        }
    }
    if keys_distinct(es) {
        assert forall|i: int, j: int| 0 <= i < j < e0.len() implies #[trigger] e0[i].0 != #[trigger] e0[j].0 by {
            assert(e0[i] == es[i] && e0[j] == es[j]);
        }
    }
}

/// The channels of the group `k` where none is the channel `c` of the group `g` give no values.
#[verifier::spinoff_prover]
proof fn lemma_channel_parts_none(
    f: TdmsFile,
    k: Seq<char>,
    chs: Seq<TdmsChannel>,
    es: Seq<(Seq<char>, ChannelModel)>,
    g: Seq<char>,
    c: Seq<char>,
    e: int,
)
    requires
        es.len() == chs.len(),
        forall|j: int| 0 <= j < es.len() ==> (#[trigger] es[j]).1 == chs[j]@,
        forall|j: int| 0 <= j < es.len() ==> channel_consistent(k, (#[trigger] es[j]).0, es[j].1),
        forall|j: int| 0 <= j < es.len() ==> !(k == g && (#[trigger] es[j]).0 == c),
    ensures
        parts_values(channel_parts(f, k, chs), g, c, e, chs.len()) == Ok::<Seq<(Seq<u8>, bool)>, TdmsError>(Seq::empty()),
    decreases chs.len(),
{
    if chs.len() > 0 {
        let c0 = chs.drop_last();
        let e0 = es.drop_last();
        lemma_channel_entries_front(k, chs, es, g, c);
        lemma_channel_parts_none(f, k, c0, e0, g, c, e);
        lemma_channel_parts_len(f, k, c0);
        let ps = channel_parts(f, k, chs);
        assert(ps.drop_last() =~= channel_parts(f, k, c0));
        lemma_parts_values_prefix(ps, channel_parts(f, k, c0), g, c, e, c0.len());
        let n = (chs.len() - 1) as int;
        assert(es[n].1 == chs[n]@);
        assert(channel_consistent(k, es[n].0, es[n].1));
        assert(!(k == g && es[n].0 == c));
        lemma_channel_object_is(f, k, es[n].0, chs[n], g, c);
        assert(ps[n] == (channel_written(f, k, chs.last()).0, spec_channel_raw(f, k, chs.last())));
    }
}

/// The channels of the group `g` where the channel at `t` is the channel `c` give its values.
#[verifier::spinoff_prover]
proof fn lemma_channel_parts_target(
    f: TdmsFile,
    g: Seq<char>,
    chs: Seq<TdmsChannel>,
    es: Seq<(Seq<char>, ChannelModel)>,
    c: Seq<char>,
    e: int,
    t: int,
)
    requires
        es.len() == chs.len(),
        forall|j: int| 0 <= j < es.len() ==> (#[trigger] es[j]).1 == chs[j]@,
        forall|j: int| 0 <= j < es.len() ==> channel_consistent(g, (#[trigger] es[j]).0, es[j].1),
        keys_distinct(es),
        0 <= t < es.len(),
        es[t].0 == c,
    ensures
        parts_values(channel_parts(f, g, chs), g, c, e, chs.len()) == channel_read(f, g, chs[t], e),
    decreases chs.len(),
{
    let c0 = chs.drop_last();
    let e0 = es.drop_last();
    lemma_channel_entries_front(g, chs, es, g, c);
    lemma_channel_parts_len(f, g, c0);
    let ps = channel_parts(f, g, chs);
    assert(ps.drop_last() =~= channel_parts(f, g, c0));
    lemma_parts_values_prefix(ps, channel_parts(f, g, c0), g, c, e, c0.len());
    let n = (chs.len() - 1) as int;
    assert(es[n].1 == chs[n]@);
    assert(channel_consistent(g, es[n].0, es[n].1));
    lemma_channel_object_is(f, g, es[n].0, chs[n], g, c);
    assert(ps[n] == (channel_written(f, g, chs.last()).0, spec_channel_raw(f, g, chs.last())));
    if t == n {
        assert forall|j: int| 0 <= j < e0.len() implies !(g == g && (#[trigger] e0[j]).0 == c) by {
            assert(e0[j] == es[j]);
            assert(es[j].0 != es[t].0);
        }
        lemma_channel_parts_none(f, g, c0, e0, g, c, e);
        let r = channel_read(f, g, chs[t], e);
        if r is Ok {
            assert(Seq::<(Seq<u8>, bool)>::empty() + r->Ok_0 =~= r->Ok_0);
        }
    } else {
        assert(e0[t] == es[t]);
        lemma_channel_parts_target(f, g, c0, e0, c, e, t);
        assert(chs[t] == c0[t]);
        assert(es[n].0 != es[t].0);
    }
}

proof fn lemma_head_values(p: Part, g: Seq<char>, c: Seq<char>, e: int)
    requires
        p.0.raw_data_index is None,
    ensures
        parts_values(seq![p], g, c, e, 1) == Ok::<Seq<(Seq<u8>, bool)>, TdmsError>(Seq::empty()),
{
    assert(seq![p][0] == p);
    assert(parts_values(seq![p], g, c, e, 0) == Ok::<Seq<(Seq<u8>, bool)>, TdmsError>(Seq::empty()));
}

/// A group other than `g` gives no values of the channel `c` of `g`.
#[verifier::spinoff_prover]
proof fn lemma_group_parts_none(f: TdmsFile, key: Seq<char>, grp: TdmsGroup, g: Seq<char>, c: Seq<char>, e: int)
    requires
        group_consistent(key, grp),
        key != g,
    ensures
        parts_values(group_parts(f, grp), g, c, e, group_parts(f, grp).len())
            == Ok::<Seq<(Seq<u8>, bool)>, TdmsError>(Seq::empty()),
{
    let head = seq![(plain_written(grp.path@, grp.properties.entries()).0, Seq::<u8>::empty())];
    let chs = grp.channels.values();
    let es = grp.channels.entries();
    grp.channels.lemma_values();
    lemma_channel_parts_len(f, grp.name@, chs);
    assert forall|j: int| 0 <= j < es.len() implies (#[trigger] es[j]).1 == chs[j]@ by {}
    assert forall|j: int| 0 <= j < es.len() implies !(key == g && (#[trigger] es[j]).0 == c) by {}
    lemma_channel_parts_none(f, key, chs, es, g, c, e);
    lemma_head_values(head[0], g, c, e);
    assert(head == seq![head[0]]);
    lemma_parts_values_add(head, channel_parts(f, grp.name@, chs), g, c, e);
    assert(Seq::<(Seq<u8>, bool)>::empty() + Seq::<(Seq<u8>, bool)>::empty() =~= Seq::<(Seq<u8>, bool)>::empty());
}

/// The group `g` gives the values of its channel at `t`, when that is the channel `c`.
#[verifier::spinoff_prover]
proof fn lemma_group_parts_target(f: TdmsFile, grp: TdmsGroup, g: Seq<char>, c: Seq<char>, e: int, t: int)
    requires
        group_consistent(g, grp),
        0 <= t < grp.channels.entries().len(),
        grp.channels.entries()[t].0 == c,
    ensures
        parts_values(group_parts(f, grp), g, c, e, group_parts(f, grp).len())
            == channel_read(f, g, grp.channels.values()[t], e),
{
    let head = seq![(plain_written(grp.path@, grp.properties.entries()).0, Seq::<u8>::empty())];
    let chs = grp.channels.values();
    let es = grp.channels.entries();
    grp.channels.lemma_values();
    lemma_channel_parts_len(f, grp.name@, chs);
    assert forall|j: int| 0 <= j < es.len() implies (#[trigger] es[j]).1 == chs[j]@ by {}
    lemma_channel_parts_target(f, g, chs, es, c, e, t);
    lemma_head_values(head[0], g, c, e);
    assert(head == seq![head[0]]);
    lemma_parts_values_add(head, channel_parts(f, grp.name@, chs), g, c, e);
    let r = channel_read(f, g, chs[t], e);
    if r is Ok {
        assert(Seq::<(Seq<u8>, bool)>::empty() + r->Ok_0 =~= r->Ok_0);
    }
}

/// What groups and their entries satisfy, all but the last satisfy too.
pub(crate) proof fn lemma_group_entries_front(gs: Seq<TdmsGroup>, es: Seq<(Seq<char>, GroupModel)>, g: Seq<char>)
    requires
        es.len() == gs.len(),
        es.len() > 0,
        forall|i: int| 0 <= i < es.len() ==> group_consistent((#[trigger] es[i]).0, gs[i]),
    ensures
        ({
            let g0 = gs.drop_last();
            let e0 = es.drop_last();
            &&& forall|i: int| 0 <= i < e0.len() ==> group_consistent((#[trigger] e0[i]).0, g0[i])
            &&& (forall|i: int| 0 <= i < es.len() ==> (#[trigger] es[i]).0 != g)
                ==> forall|i: int| 0 <= i < e0.len() ==> (#[trigger] e0[i]).0 != g
            &&& keys_distinct(es) ==> keys_distinct(e0)
        }),
{
    let g0 = gs.drop_last();
    let e0 = es.drop_last();
    assert forall|i: int| 0 <= i < e0.len() implies group_consistent((#[trigger] e0[i]).0, g0[i]) by {
        assert(e0[i] == es[i]);
    }
    if forall|i: int| 0 <= i < es.len() ==> (#[trigger] es[i]).0 != g {
        assert forall|i: int| 0 <= i < e0.len() implies (#[trigger] e0[i]).0 != g by {
            assert(e0[i] == es[i]);
        }
    }
    if keys_distinct(es) {
        assert forall|i: int, j: int| 0 <= i < j < e0.len() implies #[trigger] e0[i].0 != #[trigger] e0[j].0 by {
            assert(e0[i] == es[i] && e0[j] == es[j]);
        }
    }
}

proof fn lemma_groups_parts_none(f: TdmsFile, gs: Seq<TdmsGroup>, es: Seq<(Seq<char>, GroupModel)>, g: Seq<char>, c: Seq<char>, e: int)
    requires
        es.len() == gs.len(),
        forall|i: int| 0 <= i < es.len() ==> group_consistent((#[trigger] es[i]).0, gs[i]),
        forall|i: int| 0 <= i < es.len() ==> (#[trigger] es[i]).0 != g,
    ensures
        parts_values(groups_parts(f, gs), g, c, e, groups_parts(f, gs).len())
            == Ok::<Seq<(Seq<u8>, bool)>, TdmsError>(Seq::empty()),
    decreases gs.len(),
{
    if gs.len() > 0 {
        let g0 = gs.drop_last();
        let e0 = es.drop_last();
        lemma_group_entries_front(gs, es, g);
        lemma_groups_parts_none(f, g0, e0, g, c, e);
        let n = (gs.len() - 1) as int;
        assert(group_consistent(es[n].0, gs[n]));
        assert(es[n].0 != g);
        lemma_group_parts_none(f, es[n].0, gs[n], g, c, e);
        lemma_parts_values_add(groups_parts(f, g0), group_parts(f, gs.last()), g, c, e);
        assert(Seq::<(Seq<u8>, bool)>::empty() + Seq::<(Seq<u8>, bool)>::empty() =~= Seq::<(Seq<u8>, bool)>::empty());
    } else {
        assert(groups_parts(f, gs).len() == 0);
    }
}

proof fn lemma_groups_parts_target(f: TdmsFile, gs: Seq<TdmsGroup>, es: Seq<(Seq<char>, GroupModel)>, g: Seq<char>, c: Seq<char>, e: int, i: int, t: int)
    requires
        es.len() == gs.len(),
        forall|k: int| 0 <= k < es.len() ==> group_consistent((#[trigger] es[k]).0, gs[k]),
        keys_distinct(es),
        0 <= i < es.len(),
        es[i].0 == g,
        0 <= t < gs[i].channels.entries().len(),
        gs[i].channels.entries()[t].0 == c,
    ensures
        parts_values(groups_parts(f, gs), g, c, e, groups_parts(f, gs).len())
            == channel_read(f, g, gs[i].channels.values()[t], e),
    decreases gs.len(),
{
    let g0 = gs.drop_last();
    let e0 = es.drop_last();
    let n = (gs.len() - 1) as int;
    lemma_group_entries_front(gs, es, g);
    lemma_parts_values_add(groups_parts(f, g0), group_parts(f, gs.last()), g, c, e);
    assert(group_consistent(es[n].0, gs[n]));
    let r = channel_read(f, g, gs[i].channels.values()[t], e);
    if i == n {
        assert forall|k: int| 0 <= k < e0.len() implies (#[trigger] e0[k]).0 != g by {
            assert(e0[k] == es[k]);
        }
        lemma_groups_parts_none(f, g0, e0, g, c, e);
        lemma_group_parts_target(f, gs[n], g, c, e, t);
        if r is Ok {
            assert(Seq::<(Seq<u8>, bool)>::empty() + r->Ok_0 =~= r->Ok_0);
        }
    } else {
        assert(e0[i] == es[i]);
        assert(g0[i] == gs[i]);
        lemma_groups_parts_target(f, g0, e0, g, c, e, i, t);
        assert(es[n].0 != es[i].0);
        lemma_group_parts_none(f, es[n].0, gs[n], g, c, e);
        if r is Ok {
            assert(r->Ok_0 + Seq::<(Seq<u8>, bool)>::empty() =~= r->Ok_0);
        }
    }
}

/// The size of a value of a copied type.
pub open spec fn copied_size(d: DataType) -> int {
    d.spec_element_size()->0 as int
}

proof fn lemma_normalized_len(d: DataType, v: (Seq<u8>, bool))
    requires
        copied_type(d),
    ensures
        normalized(d, v).len() == copied_size(d),
        copied_size(d) > 0,
{
    lemma_wide_le_len(v.0, 0, v.1);
    lemma_wide_le_len(v.0, 16, v.1);
}

/// Values rewritten little-endian lie one after the other, each as long as the type's values.
proof fn lemma_all_normalized(d: DataType, vs: Seq<(Seq<u8>, bool)>)
    requires
        copied_type(d),
    ensures
        all_normalized(d, vs).len() == vs.len() * copied_size(d),
        forall|i: int| 0 <= i < vs.len() ==> all_normalized(d, vs).subrange(i * copied_size(d), i * copied_size(d) + copied_size(d))
            == normalized(d, #[trigger] vs[i]),
    decreases vs.len(),
{
    let e = copied_size(d);
    lemma_normalized_len(d, vs[0]);
    if vs.len() > 0 {
        let v0 = vs.drop_last();
        lemma_all_normalized(d, v0);
        lemma_normalized_len(d, vs.last());
        let a = all_normalized(d, v0);
        let b = normalized(d, vs.last());
        assert(all_normalized(d, vs) == a + b);
        assert(vs.len() * e == v0.len() * e + e) by (nonlinear_arith)
            requires
                vs.len() == v0.len() + 1,
        ;
        assert forall|i: int| 0 <= i < vs.len() implies all_normalized(d, vs).subrange(i * e, i * e + e)
            == normalized(d, #[trigger] vs[i]) by {
            if i < v0.len() {
                assert(i * e + e <= v0.len() * e) by (nonlinear_arith)
                    requires
                        0 <= i < v0.len(),
                        e > 0,
                ;
                assert(0 <= i * e) by (nonlinear_arith)
                    requires
                        0 <= i,
                        e > 0,
                ;
                assert(v0[i] == vs[i]);
                assert((a + b).subrange(i * e, i * e + e) =~= a.subrange(i * e, i * e + e));
            } else {
                assert(i == v0.len());
                assert(i * e == v0.len() * e);
                assert((a + b).subrange(i * e, i * e + e) =~= b);
            }
        }
    }
}

/// Reading the rewritten values back, as many as there are, gives them one by one.
proof fn lemma_read_normalized(d: DataType, vs: Seq<(Seq<u8>, bool)>)
    requires
        copied_type(d),
        vs.len() * copied_size(d) <= usize::MAX,
    ensures
        read_count(all_normalized(d, vs), sat(vs.len() as int), copied_size(d), false)
            == Ok::<Seq<(Seq<u8>, bool)>, TdmsError>(vs.map_values(|v: (Seq<u8>, bool)| (normalized(d, v), false))),
{
    let e = copied_size(d);
    lemma_all_normalized(d, vs);
    lemma_normalized_len(d, vs[0]);
    assert(vs.len() <= vs.len() * e) by (nonlinear_arith)
        requires
            e > 0,
    ;
    let b = all_normalized(d, vs);
    let r = Seq::new(vs.len(), |i: int| (b.subrange(i * e, i * e + e), false));
    assert(r =~= vs.map_values(|v: (Seq<u8>, bool)| (normalized(d, v), false))) by {
        assert forall|i: int| 0 <= i < vs.len() implies #[trigger] r[i] == (normalized(d, vs[i]), false) by {}
    }
}

/// A part holds as many bytes as its index gives: the total it stores, or else
/// its count of values times their size (where that count fits its field);
/// none without an index.
pub open spec fn part_shape(p: Part) -> bool {
    match p.0.raw_data_index {
        None => p.1.len() == 0,
        Some(idx) => match idx.total_size_bytes {
            Some(t) => p.1.len() == t,
            None => p.1.len() <= u64::MAX ==> p.1.len() == idx.number_of_values * elem_size(idx),
        },
    }
}

pub open spec fn all_shaped(ps: Seq<Part>) -> bool {
    forall|i: int| 0 <= i < ps.len() ==> part_shape(#[trigger] ps[i])
}

proof fn lemma_shaped_add(a: Seq<Part>, b: Seq<Part>)
    requires
        all_shaped(a),
        all_shaped(b),
    ensures
        all_shaped(a + b),
{
    assert forall|i: int| 0 <= i < (a + b).len() implies part_shape(#[trigger] (a + b)[i]) by {
        if i < a.len() {
            assert((a + b)[i] == a[i]);
        } else {
            assert((a + b)[i] == b[i - a.len()]);
        }
    }
}

proof fn lemma_channel_parts_shaped(f: TdmsFile, k: Seq<char>, chs: Seq<TdmsChannel>)
    ensures
        all_shaped(channel_parts(f, k, chs)),
    decreases chs.len(),
{
    if chs.len() > 0 {
        let c0 = chs.drop_last();
        lemma_channel_parts_shaped(f, k, c0);
        lemma_channel_parts_len(f, k, c0);
        let ch = chs.last();
        let p = (channel_written(f, k, ch).0, spec_channel_raw(f, k, ch));
        assert(part_shape(p)) by {
            reveal(spec_channel_raw);
            if copied_values(f, k, ch) is Some {
                let (d, vs) = copied_values(f, k, ch)->0;
                lemma_all_normalized(d, vs);
                lemma_normalized_len(d, vs[0]);
                let e = copied_size(d);
                assert(vs.len() <= vs.len() * e) by (nonlinear_arith)
                    requires
                        e > 0,
                ;
            } else if channel_index(f, k, ch) is Some && channel_index(f, k, ch)->0.data_type == DataType::String {
                lemma_channel_strings_fit(f, k, ch.name@);
            } else if channel_index(f, k, ch) is Some {
                let idx = channel_index(f, k, ch)->0;
                reveal(read_outcome);
                assert(idx.number_of_values == 0 || elem_size(idx) == 0);
                assert(idx.number_of_values * elem_size(idx) == 0) by (nonlinear_arith)
                    requires
                        idx.number_of_values == 0 || elem_size(idx) == 0,
                ;
            }
        }
        let ps = channel_parts(f, k, chs);
        assert(ps == channel_parts(f, k, c0).push(p));
        assert forall|i: int| 0 <= i < ps.len() implies part_shape(#[trigger] ps[i]) by {
            if i < c0.len() {
                assert(ps[i] == channel_parts(f, k, c0)[i]);
            }
        }
    }
}

proof fn lemma_groups_parts_shaped(f: TdmsFile, gs: Seq<TdmsGroup>)
    ensures
        all_shaped(groups_parts(f, gs)),
    decreases gs.len(),
{
    if gs.len() > 0 {
        let g0 = gs.drop_last();
        lemma_groups_parts_shaped(f, g0);
        let g = gs.last();
        lemma_channel_parts_shaped(f, g.name@, g.channels.values());
        let head = seq![(plain_written(g.path@, g.properties.entries()).0, Seq::<u8>::empty())];
        assert(all_shaped(head)) by {
            assert forall|i: int| 0 <= i < head.len() implies part_shape(#[trigger] head[i]) by {}
        }
        lemma_shaped_add(head, channel_parts(f, g.name@, g.channels.values()));
        lemma_shaped_add(groups_parts(f, g0), group_parts(f, g));
    }
}

proof fn lemma_part_raw_each(ps: Seq<Part>)
    ensures
        forall|i: int| 0 <= i < ps.len() ==> (#[trigger] ps[i]).1.len() <= part_raw(ps).len(),
    decreases ps.len(),
{
    if ps.len() > 0 {
        lemma_part_raw_each(ps.drop_last());
        assert forall|i: int| 0 <= i < ps.len() implies (#[trigger] ps[i]).1.len() <= part_raw(ps).len() by {
            if i < ps.len() - 1 {
                assert(ps[i] == ps.drop_last()[i]);
            }
        }
    }
}

/// The parts of a file, of at most `usize::MAX` bytes of raw data, are laid
/// out as their indexes give.
pub(crate) proof fn lemma_defrag_aligned(f: TdmsFile)
    requires
        part_raw(defrag_parts(f)).len() <= usize::MAX,
    ensures
        forall|i: int| 0 <= i < defrag_parts(f).len() ==> part_aligned(#[trigger] defrag_parts(f)[i]),
{
    let gs = f.groups.values();
    lemma_groups_parts_shaped(f, gs);
    let head = seq![(plain_written(seq!['/'], f.properties.entries()).0, Seq::<u8>::empty())];
    assert(all_shaped(head)) by {
        assert forall|i: int| 0 <= i < head.len() implies part_shape(#[trigger] head[i]) by {}
    }
    lemma_shaped_add(head, groups_parts(f, gs));
    let ps = defrag_parts(f);
    lemma_part_raw_each(ps);
    assert forall|i: int| 0 <= i < ps.len() implies part_aligned(#[trigger] ps[i]) by {
        assert(part_shape(ps[i]));
    }
}

proof fn lemma_channel_raw_within(f: TdmsFile, k: Seq<char>, chs: Seq<TdmsChannel>, t: int)
    requires
        0 <= t < chs.len(),
    ensures
        spec_channel_raw(f, k, chs[t]).len() <= part_raw(channel_parts(f, k, chs)).len(),
    decreases chs.len(),
{
    let c0 = chs.drop_last();
    lemma_channel_parts_len(f, k, c0);
    let ps = channel_parts(f, k, chs);
    assert(ps.drop_last() =~= channel_parts(f, k, c0));
    if t < chs.len() - 1 {
        assert(c0[t] == chs[t]);
        lemma_channel_raw_within(f, k, c0, t);
    }
}

pub(crate) proof fn lemma_groups_raw_within(f: TdmsFile, gs: Seq<TdmsGroup>, i: int, t: int)
    requires
        0 <= i < gs.len(),
        0 <= t < gs[i].channels.values().len(),
    ensures
        spec_channel_raw(f, gs[i].name@, gs[i].channels.values()[t]).len() <= part_raw(groups_parts(f, gs)).len(),
    decreases gs.len(),
{
    let g0 = gs.drop_last();
    lemma_part_raw_add(groups_parts(f, g0), group_parts(f, gs.last()));
    if i < gs.len() - 1 {
        assert(g0[i] == gs[i]);
        lemma_groups_raw_within(f, g0, i, t);
    } else {
        let g = gs.last();
        let head = seq![(plain_written(g.path@, g.properties.entries()).0, Seq::<u8>::empty())];
        lemma_part_raw_add(head, channel_parts(f, g.name@, g.channels.values()));
        lemma_channel_raw_within(f, g.name@, g.channels.values(), t);
    }
}

/// In the consolidated segment, the channel at `t` of the group at `i` of a
/// consistent file is read as `channel_read` gives, and its raw data is part
/// of the segment's.
proof fn lemma_defrag_parts_values(f: TdmsFile, g: Seq<char>, c: Seq<char>, e: int, i: int, t: int)
    requires
        file_consistent(f),
        0 <= i < f.groups.entries().len(),
        f.groups.entries()[i].0 == g,
        0 <= t < f.groups.values()[i].channels.entries().len(),
        f.groups.values()[i].channels.entries()[t].0 == c,
    ensures
        parts_values(defrag_parts(f), g, c, e, defrag_parts(f).len())
            == channel_read(f, g, f.groups.values()[i].channels.values()[t], e),
        spec_channel_raw(f, g, f.groups.values()[i].channels.values()[t]).len() <= part_raw(defrag_parts(f)).len(),
{
    let gs = f.groups.values();
    let es = f.groups.entries();
    f.groups.lemma_values();
    gs[i].channels.lemma_values();
    assert(group_consistent(es[i].0, gs[i]));
    lemma_groups_parts_target(f, gs, es, g, c, e, i, t);
    lemma_groups_raw_within(f, gs, i, t);
    let head = seq![(plain_written(seq!['/'], f.properties.entries()).0, Seq::<u8>::empty())];
    lemma_head_values(head[0], g, c, e);
    assert(head == seq![head[0]]);
    lemma_parts_values_add(head, groups_parts(f, gs), g, c, e);
    lemma_part_raw_add(head, groups_parts(f, gs));
    let r = channel_read(f, g, gs[i].channels.values()[t], e);
    if r is Ok {
        assert(Seq::<(Seq<u8>, bool)>::empty() + r->Ok_0 =~= r->Ok_0);
    }
}

/// The entry of a name in entries stored once each.
proof fn lemma_distinct_entry<V>(es: Seq<(Seq<char>, V)>, k: Seq<char>) -> (i: int)
    requires
        keys_distinct(es),
        map_of(es).dom().contains(k),
    ensures
        0 <= i < es.len(),
        es[i].0 == k,
        map_of(es)[k] == es[i].1,
{
    lemma_map_of_dom(es, k);
    let i = choose|i: int| 0 <= i < es.len() && #[trigger] es[i].0 == k;
    assert forall|j: int| i < j < es.len() implies #[trigger] es[j].0 != k by {
        assert(es[i].0 != es[j].0);
    }
    lemma_map_of_last(es, i, k);
    i
}

/// The group and the channel stored under `g` and `c` in a consistent file: the
/// group at `i`, the channel at `t` of it.
#[verifier::spinoff_prover]
pub(crate) proof fn lemma_find_channel(f: TdmsFile, g: Seq<char>, c: Seq<char>) -> (it: (int, int))
    requires
        file_consistent(f),
        f.groups@.dom().contains(g),
        f.groups@[g].channels.dom().contains(c),
    ensures
        0 <= it.0 < f.groups.entries().len(),
        f.groups.entries()[it.0].0 == g,
        0 <= it.1 < f.groups.values()[it.0].channels.entries().len(),
        f.groups.values()[it.0].channels.entries()[it.1].0 == c,
        f.groups.values()[it.0].name@ == g,
        f.groups@[g].channels[c] == f.groups.values()[it.0].channels.values()[it.1]@,
        f.groups.values()[it.0].channels.values()[it.1].name@ == c,
{
    let gs = f.groups.values();
    let ges = f.groups.entries();
    f.groups.lemma_values();
    let i = lemma_distinct_entry(ges, g);
    assert(group_consistent(ges[i].0, gs[i]));
    let grp = gs[i];
    let ces = grp.channels.entries();
    grp.channels.lemma_values();
    let t = lemma_distinct_entry(ces, c);
    assert(channel_consistent(g, ces[t].0, ces[t].1));
    (i, t)
}

/// A typed channel copied in full is read from the consolidated segment as its
/// values in the file, rewritten little-endian.
#[verifier::spinoff_prover]
proof fn lemma_channel_read_full(f: TdmsFile, g: Seq<char>, ch: TdmsChannel, bound: int)
    requires
        copied_values(f, g, ch) is Some,
        spec_channel_raw(f, g, ch).len() <= bound,
        bound <= usize::MAX,
    ensures
        ({
            let d = ch.data_type->0;
            &&& ch.data_type is Some
            &&& copied_type(d)
            &&& read_outcome(f, g, ch.name@, d) is Some
            &&& channel_read(f, g, ch, copied_size(d)) == Ok::<Seq<(Seq<u8>, bool)>, TdmsError>(
                read_outcome(f, g, ch.name@, d)->0.map_values(|v: (Seq<u8>, bool)| (normalized(d, v), false)))
        }),
{
    reveal(spec_channel_raw);
    let d = ch.data_type->0;
    let vs = read_outcome(f, g, ch.name@, d)->0;
    let e = copied_size(d);
    lemma_all_normalized(d, vs);
    lemma_normalized_len(d, vs[0]);
    assert(vs.len() <= vs.len() * e) by (nonlinear_arith)
        requires
            e > 0,
    ;
    assert((vs.len() as u64) as int == vs.len());
    lemma_read_normalized(d, vs);
}

/// The consolidated segment read as one chunk: where its chunk gives the
/// channel's values, so does the segment.
#[verifier::spinoff_prover]
#[verifier::rlimit(40)]
proof fn lemma_defrag_segment_values(f: TdmsFile, g: Seq<char>, c: Seq<char>, e: int, expected: Seq<(Seq<u8>, bool)>)
    requires
        e > 0,
        spec_defrag_bytes(f).len() <= usize::MAX,
        chunk_size(defrag_objects(f), defrag_objects(f).len()) == spec_groups_raw(f, f.groups.values()).len(),
        chunk_values(defrag_objects(f), spec_groups_raw(f, f.groups.values()), false, 0, g, c, e, defrag_objects(f).len())
            == Ok::<(Seq<(Seq<u8>, bool)>, int), TdmsError>((expected, spec_groups_raw(f, f.groups.values()).len() as int)),
        spec_groups_raw(f, f.groups.values()).len() == 0 ==> expected.len() == 0,
    ensures
        segments_values(seq![defrag_segment(f)], spec_defrag_bytes(f), g, c, e, 1)
            == Ok::<Seq<(Seq<u8>, bool)>, TdmsError>(expected),
{
    let data = spec_defrag_bytes(f);
    let raw = spec_groups_raw(f, f.groups.values());
    let meta = spec_defrag_metadata(f);
    let objs = defrag_objects(f);
    let seg = defrag_segment(f);
    let segs = seq![seg];
    assert((0x0eu32 & 0x08u32) != 0u32) by (bit_vector);
    assert((0x0eu32 & 0x20u32) == 0u32) by (bit_vector);
    assert((0x0eu32 & 0x40u32) == 0u32) by (bit_vector);
    assert(seg.header.has_raw_data);
    assert(!seg.header.is_interleaved);
    assert(!seg.header.is_big_endian);
    assert(segs[0] == seg);
    assert(segments_values(segs, data, g, c, e, 0) == Ok::<Seq<(Seq<u8>, bool)>, TdmsError>(Seq::empty()));
    let start = HEADER_SIZE + meta.len();
    let end = HEADER_SIZE + meta.len() + raw.len();
    assert(crate::channel_data::raw_end(seg) == end);
    if raw.len() == 0 {
        assert(expected =~= Seq::<(Seq<u8>, bool)>::empty());
        assert(segment_values(seg, data, g, c, e) == Ok::<Seq<(Seq<u8>, bool)>, TdmsError>(Seq::empty()));
        assert(Seq::<(Seq<u8>, bool)>::empty() + Seq::<(Seq<u8>, bool)>::empty() =~= Seq::<(Seq<u8>, bool)>::empty());
    } else {
        let lead = spec_lead_in_bytes(WRITTEN_TOC, WRITTEN_VERSION, (meta.len() + raw.len()) as u64, meta.len() as u64);
        assert(data =~= lead + meta + raw);
        assert(data.subrange(start, end) =~= raw);
        let rl = raw.len() as int;
        assert(rl / rl == 1) by (nonlinear_arith)
            requires
                rl > 0,
        ;
        assert(chunks_values(objs, raw, false, rl, g, c, e, 0) == Ok::<Seq<(Seq<u8>, bool)>, TdmsError>(Seq::empty()));
        assert(0 * rl == 0);
        assert(Seq::<(Seq<u8>, bool)>::empty() + expected =~= expected);
        assert(chunks_values(objs, raw, false, rl, g, c, e, 1) == Ok::<Seq<(Seq<u8>, bool)>, TdmsError>(expected));
        assert(contiguous_values(objs, raw, false, g, c, e) == Ok::<Seq<(Seq<u8>, bool)>, TdmsError>(expected));
        assert(segment_values(seg, data, g, c, e) == Ok::<Seq<(Seq<u8>, bool)>, TdmsError>(expected));
        assert(Seq::<(Seq<u8>, bool)>::empty() + expected =~= expected);
    }
}

/// The preconditions of reading the channel at `t` of the group at `i`.
pub open spec fn channel_at(f: TdmsFile, g: Seq<char>, c: Seq<char>, i: int, t: int) -> bool {
    &&& 0 <= i < f.groups.entries().len()
    &&& f.groups.entries()[i].0 == g
    &&& 0 <= t < f.groups.values()[i].channels.entries().len()
    &&& f.groups.values()[i].channels.entries()[t].0 == c
    &&& f.groups.values()[i].name@ == g
    &&& f.groups.values()[i].channels.values()[t].name@ == c
    &&& copied_values(f, g, f.groups.values()[i].channels.values()[t]) is Some
}

/// The values of the channel at `t` of the group at `i`, rewritten little-endian.
pub open spec fn expected_values(f: TdmsFile, g: Seq<char>, c: Seq<char>, i: int, t: int) -> Seq<(Seq<u8>, bool)> {
    let d = f.groups.values()[i].channels.values()[t].data_type->0;
    read_outcome(f, g, c, d)->0.map_values(|v: (Seq<u8>, bool)| (normalized(d, v), false))
}

/// Read part by part, the consolidated segment gives the channel's values.
#[verifier::spinoff_prover]
#[verifier::rlimit(40)]
proof fn lemma_defrag_target_values(f: TdmsFile, g: Seq<char>, c: Seq<char>, i: int, t: int)
    requires
        file_consistent(f),
        spec_groups_raw(f, f.groups.values()).len() <= usize::MAX,
        channel_at(f, g, c, i, t),
    ensures
        ({
            let d = f.groups.values()[i].channels.values()[t].data_type->0;
            &&& copied_type(d)
            &&& read_outcome(f, g, c, d) is Some
            &&& parts_values(defrag_parts(f), g, c, copied_size(d), defrag_parts(f).len())
                == Ok::<Seq<(Seq<u8>, bool)>, TdmsError>(expected_values(f, g, c, i, t))
            &&& spec_groups_raw(f, f.groups.values()).len() == 0 ==> expected_values(f, g, c, i, t).len() == 0
        }),
{
    let grp = f.groups.values()[i];
    let ch = grp.channels.values()[t];
    let d = ch.data_type->0;
    let e = copied_size(d);
    lemma_defrag_parts_values(f, g, c, e, i, t);
    lemma_defrag_parts(f);
    let raw = spec_groups_raw(f, f.groups.values());
    lemma_channel_read_full(f, g, ch, raw.len() as int);
    let vs = read_outcome(f, g, c, d)->0;
    if raw.len() == 0 {
        lemma_all_normalized(d, vs);
        assert(spec_channel_raw(f, g, ch) == all_normalized(d, vs)) by {
            reveal(spec_channel_raw);
        }
        assert(vs.len() == 0) by (nonlinear_arith)
            requires
                vs.len() * e == 0,
                e > 0,
        ;
    }
}

/// The one chunk of the consolidated segment holds the channel's values.
#[verifier::spinoff_prover]
#[verifier::rlimit(40)]
proof fn lemma_defrag_chunk(f: TdmsFile, g: Seq<char>, c: Seq<char>, i: int, t: int)
    requires
        file_consistent(f),
        spec_groups_raw(f, f.groups.values()).len() <= usize::MAX,
        channel_at(f, g, c, i, t),
    ensures
        ({
            let d = f.groups.values()[i].channels.values()[t].data_type->0;
            let e = copied_size(d);
            let raw = spec_groups_raw(f, f.groups.values());
            let objs = defrag_objects(f);
            &&& copied_type(d)
            &&& read_outcome(f, g, c, d) is Some
            &&& chunk_size(objs, objs.len()) == raw.len()
            &&& chunk_values(objs, raw, false, 0, g, c, e, objs.len())
                == Ok::<(Seq<(Seq<u8>, bool)>, int), TdmsError>((expected_values(f, g, c, i, t), raw.len() as int))
            &&& raw.len() == 0 ==> expected_values(f, g, c, i, t).len() == 0
        }),
{
    let d = f.groups.values()[i].channels.values()[t].data_type->0;
    let e = copied_size(d);
    lemma_defrag_target_values(f, g, c, i, t);
    lemma_defrag_parts(f);
    let ps = defrag_parts(f);
    let raw = spec_groups_raw(f, f.groups.values());
    lemma_defrag_aligned(f);
    lemma_chunk_parts(ps, Seq::empty(), g, c, e, ps.len());
    assert(ps.take(ps.len() as int) =~= ps);
    assert(raw + Seq::<u8>::empty() =~= raw);
}

/// Reading the channel at `t` of the group at `i` of a consistent file, copied
/// in full, from the consolidated segment.
#[verifier::spinoff_prover]
proof fn lemma_defrag_values_at(f: TdmsFile, g: Seq<char>, c: Seq<char>, i: int, t: int)
    requires
        file_consistent(f),
        spec_defrag_bytes(f).len() <= usize::MAX,
        channel_at(f, g, c, i, t),
    ensures
        ({
            let d = f.groups.values()[i].channels.values()[t].data_type->0;
            &&& read_outcome(f, g, c, d) is Some
            &&& segments_values(seq![defrag_segment(f)], spec_defrag_bytes(f), g, c, copied_size(d), 1)
                == Ok::<Seq<(Seq<u8>, bool)>, TdmsError>(expected_values(f, g, c, i, t))
        }),
{
    let d = f.groups.values()[i].channels.values()[t].data_type->0;
    assert(spec_defrag_bytes(f).len() >= spec_groups_raw(f, f.groups.values()).len());
    lemma_defrag_chunk(f, g, c, i, t);
    lemma_defrag_segment_values(f, g, c, copied_size(d), expected_values(f, g, c, i, t));
}

/// Where the consolidated segment holds what: indexing it gives one segment,
/// whose objects are those of the parts (the root, then each group and its
/// channels), whose raw data is the parts' raw data one after the other, and
/// where each part holds as many bytes as its index gives: for a string
/// channel the total it stores, for another its values times their size.
pub proof fn lemma_defrag_layout(f: TdmsFile)
    requires
        defrag_storable(f),
        defrag_objects(f).len() <= u32::MAX,
        spec_defrag_bytes(f).len() <= usize::MAX,
    ensures
        ({
            let data = spec_defrag_bytes(f);
            let ps = defrag_parts(f);
            &&& spec_index(data) is Ok
            &&& spec_index(data)->Ok_0.segments.len() == 1
            &&& spec_index(data)->Ok_0.segments[0].objects == part_models(ps)
            &&& data.subrange(spec_index(data)->Ok_0.segments[0].raw_data_offset as int, data.len() as int) == part_raw(ps)
            &&& forall|i: int| 0 <= i < ps.len() ==> part_aligned(#[trigger] ps[i])
        }),
{
    lemma_defrag_index(f);
    lemma_defrag_parts(f);
    let data = spec_defrag_bytes(f);
    let meta = spec_defrag_metadata(f);
    let raw = spec_groups_raw(f, f.groups.values());
    let lead = spec_lead_in_bytes(WRITTEN_TOC, WRITTEN_VERSION, (meta.len() + raw.len()) as u64, meta.len() as u64);
    assert(data =~= lead + meta + raw);
    assert(data.subrange(HEADER_SIZE + meta.len(), data.len() as int) =~= raw);
    lemma_defrag_aligned(f);
}

/// What a read gives back of a consolidation: in the consolidated segment of a
/// file whose groups and channels are stored as indexing stores them, reading
/// a channel of a copied type whose values the file gives yields, value by
/// value, those values rewritten little-endian.
pub proof fn lemma_defrag_values(f: TdmsFile, g: Seq<char>, c: Seq<char>)
    requires
        defrag_storable(f),
        file_consistent(f),
        defrag_objects(f).len() <= u32::MAX,
        spec_defrag_bytes(f).len() <= usize::MAX,
        f.groups@.dom().contains(g),
        f.groups@[g].channels.dom().contains(c),
        f.groups@[g].channels[c].data_type is Some,
        copied_type(f.groups@[g].channels[c].data_type->0),
        read_outcome(f, g, c, f.groups@[g].channels[c].data_type->0) is Some,
    ensures
        ({
            let d = f.groups@[g].channels[c].data_type->0;
            let data = spec_defrag_bytes(f);
            let e = d.spec_element_size()->0 as int;
            &&& read_outcome(f, g, c, d) is Some
            &&& spec_index(data) is Ok
            &&& segments_values(spec_index(data)->Ok_0.segments, data, g, c, e, spec_index(data)->Ok_0.segments.len())
                == Ok::<Seq<(Seq<u8>, bool)>, TdmsError>(
                    read_outcome(f, g, c, d)->0.map_values(|v: (Seq<u8>, bool)| (normalized(d, v), false)))
        }),
{
    lemma_defrag_index(f);
    let (i, t) = lemma_find_channel(f, g, c);
    assert(copied_values(f, g, f.groups.values()[i].channels.values()[t]) is Some);
    lemma_defrag_values_at(f, g, c, i, t);
}

} // verus!
