//! What is read back of what the writer writes.

use vstd::prelude::*;
use crate::path::{
    clean_part, cleaned_parts, spec_parse_object_path, split, trim_by, trim_end, trim_start, trimmed,
    TrimMode,
};
use vstd::utf8::encode_utf8;
use crate::endian::{le_bytes_u32, le_bytes_u64, lemma_le_u32_roundtrip, lemma_le_u64_roundtrip};
use crate::error::TdmsError;
use crate::namemap::map_of;
use crate::property::{lemma_string_roundtrip, spec_string_bytes, PropertyValueModel};
use crate::reader::{spec_u32, spec_u64};
use crate::segment::{spec_object, spec_objects, spec_properties, ObjectModel, ObjectRawDataIndex};
use crate::types::DataType;
use crate::writer::{
    spec_channel_metadata, spec_channel_path, spec_group_path, spec_index_bytes, spec_plain_object_bytes,
    spec_segment_bytes, spec_encode_all, lemma_encode_all, WRITTEN_TOC, WRITTEN_VERSION,
};
use crate::primitive::TdmsPrimitive;
use crate::file::{apply_objects, empty_index, spec_index, spec_walk, IndexModel};
use crate::header::{lemma_lead_in_roundtrip, spec_header, spec_lead_in_bytes, HEADER_SIZE};
use crate::model::{apply_object, ChannelModel, GroupModel};
use crate::segment::{spec_segment, SegmentModel};
use crate::channel_data::{
    chunk_size, chunk_values, chunks_values, contiguous_values, obj_size, object_is, read_count,
    segment_values, segments_values,
};

verus! {

/// A name that a path holds unchanged: not empty, without a slash, and left as
/// it is by the trimming of quotes and white space.
pub open spec fn plain_name(n: Seq<char>) -> bool {
    n.len() > 0 && !n.contains('/') && clean_part(n) == n
}

proof fn lemma_split_len(s: Seq<char>, sep: char)
    ensures
        split(s, sep).len() >= 1,
    decreases s.len(),
{
    if s.len() > 0 {
        lemma_split_len(s.drop_last(), sep);
    }
}

/// Appending characters other than the separator extends the last piece.
proof fn lemma_split_extend(a: Seq<char>, b: Seq<char>, sep: char)
    requires
        !b.contains(sep),
    ensures
        split(a + b, sep) == split(a, sep).update(split(a, sep).len() - 1, split(a, sep).last() + b),
    decreases b.len(),
{
    lemma_split_len(a, sep);
    if b.len() == 0 {
        assert(a + b =~= a);
        assert(split(a, sep).last() + b =~= split(a, sep).last());
        assert(split(a, sep).update(split(a, sep).len() - 1, split(a, sep).last()) =~= split(a, sep));
    } else {
        let b0 = b.drop_last();
        assert(!b0.contains(sep)) by {
            if b0.contains(sep) {
                let i = choose|i: int| 0 <= i < b0.len() && b0[i] == sep;
                assert(b[i] == sep);
            }
        }
        lemma_split_extend(a, b0, sep);
        assert((a + b).drop_last() =~= a + b0);
        assert((a + b).last() == b.last());
        assert(b.last() != sep) by {
            assert(b[b.len() - 1] == b.last());
        }
        let r = split(a, sep);
        let r0 = split(a + b0, sep);
        assert(r0.len() == r.len());
        assert(split(a + b, sep) == r0.update(r0.len() - 1, r0.last().push(b.last())));
        assert(r0.last() == r.last() + b0);
        assert((r.last() + b0).push(b.last()) =~= r.last() + b);
        assert(split(a + b, sep) =~= r.update(r.len() - 1, r.last() + b));
    }
}

proof fn lemma_trim_start_front(x: char, s: Seq<char>, m: TrimMode)
    requires
        trimmed(m, x),
    ensures
        trim_start(seq![x] + s, m) == trim_start(s, m),
{
    assert((seq![x] + s).drop_first() =~= s);
}

/// A trimmed character at the end of a string does not change what trimming both ends leaves.
proof fn lemma_trim_by_back(s: Seq<char>, x: char, m: TrimMode)
    requires
        trimmed(m, x),
    ensures
        trim_end(trim_start(s + seq![x], m), m) == trim_end(trim_start(s, m), m),
    decreases s.len(),
{
    if s.len() == 0 {
        assert(seq![x].drop_first() =~= Seq::<char>::empty());
        assert(s + seq![x] =~= seq![x]);
        assert(trim_start(seq![x], m) == trim_start(Seq::<char>::empty(), m));
        assert(trim_start(Seq::<char>::empty(), m) == Seq::<char>::empty());
        assert(trim_start(s, m) == s);
    } else if trimmed(m, s[0]) {
        assert((s + seq![x]).drop_first() =~= s.drop_first() + seq![x]);
        assert((s + seq![x])[0] == s[0]);
        assert(trim_start(s + seq![x], m) == trim_start(s.drop_first() + seq![x], m));
        assert(trim_start(s, m) == trim_start(s.drop_first(), m));
        lemma_trim_by_back(s.drop_first(), x, m);
    } else {
        assert((s + seq![x])[0] == s[0]);
        assert(trim_start(s + seq![x], m) == s + seq![x]);
        assert((s + seq![x]).drop_last() =~= s);
        assert((s + seq![x]).last() == x);
        assert(trim_end(s + seq![x], m) == trim_end(s, m));
        assert(trim_start(s, m) == s);
    }
}

/// Quotes around a name come off with the name's own quotes.
proof fn lemma_clean_quoted(n: Seq<char>)
    ensures
        clean_part(seq!['\''] + n + seq!['\'']) == clean_part(n),
{
    let q = TrimMode::Char('\'');
    let s = seq!['\''] + n + seq!['\''];
    assert(s =~= seq!['\''] + (n + seq!['\'']));
    lemma_trim_start_front('\'', n + seq!['\''], q);
    lemma_trim_by_back(n, '\'', q);
}

proof fn lemma_trim_untouched(s: Seq<char>, m: TrimMode)
    requires
        s.len() > 0,
        !trimmed(m, s[0]),
        !trimmed(m, s.last()),
    ensures
        trim_by(s, m) == s,
{
}

proof fn lemma_empty_clean()
    ensures
        clean_part(Seq::<char>::empty()) == Seq::<char>::empty(),
{
}

/// The root path names neither a group nor a channel.
pub proof fn lemma_root_path()
    ensures
        spec_parse_object_path(seq!['/']) == (None::<Seq<char>>, None::<Seq<char>>),
{
    lemma_trim_untouched(seq!['/'], TrimMode::Whitespace);
}

/// A written group path names the group.
pub proof fn lemma_group_path(g: Seq<char>)
    requires
        plain_name(g),
    ensures
        spec_parse_object_path(spec_group_path(g)) == (Some(g), None::<Seq<char>>),
{
    let p = spec_group_path(g);
    assert(p[0] == '/');
    assert(p.last() == '\'');
    lemma_trim_untouched(p, TrimMode::Whitespace);
    let quoted = seq!['\''] + g + seq!['\''];
    assert(p =~= seq!['/'] + quoted);
    assert(!quoted.contains('/')) by {
        if quoted.contains('/') {
            let i = choose|i: int| 0 <= i < quoted.len() && quoted[i] == '/';
            assert(g[i - 1] == '/');
        }
    }
    lemma_split_extend(seq!['/'], quoted, '/');
    assert(seq!['/'].drop_last() =~= Seq::<char>::empty());
    assert(split(Seq::<char>::empty(), '/') == seq![Seq::<char>::empty()]);
    assert(seq!['/'].last() == '/');
    assert(split(seq!['/'], '/') =~= seq![Seq::<char>::empty(), Seq::<char>::empty()]);
    let parts = seq![Seq::<char>::empty(), quoted];
    assert(split(p, '/') =~= parts);
    lemma_clean_quoted(g);
    lemma_empty_clean();
    assert(parts.drop_last() =~= seq![Seq::<char>::empty()]);
    assert(seq![Seq::<char>::empty()].drop_last() =~= Seq::<Seq<char>>::empty());
    assert(cleaned_parts(Seq::<Seq<char>>::empty()) == Seq::<Seq<char>>::empty());
    assert(cleaned_parts(seq![Seq::<char>::empty()]) == Seq::<Seq<char>>::empty());
    assert(parts.last() == quoted);
    assert(clean_part(quoted) == g);
    assert(cleaned_parts(parts) == Seq::<Seq<char>>::empty().push(g));
    assert(cleaned_parts(parts) =~= seq![g]);
    assert(p.len() >= 4);
}

/// A written channel path names the group and the channel.
pub proof fn lemma_channel_path(g: Seq<char>, c: Seq<char>)
    requires
        plain_name(g),
        plain_name(c),
    ensures
        spec_parse_object_path(spec_channel_path(g, c)) == (Some(g), Some(c)),
{
    let p = spec_channel_path(g, c);
    assert(p[0] == '/');
    assert(p.last() == '\'');
    lemma_trim_untouched(p, TrimMode::Whitespace);
    let qg = seq!['\''] + g + seq!['\''];
    let qc = seq!['\''] + c + seq!['\''];
    assert(!qg.contains('/')) by {
        if qg.contains('/') {
            let i = choose|i: int| 0 <= i < qg.len() && qg[i] == '/';
            assert(g[i - 1] == '/');
        }
    }
    assert(!qc.contains('/')) by {
        if qc.contains('/') {
            let i = choose|i: int| 0 <= i < qc.len() && qc[i] == '/';
            assert(c[i - 1] == '/');
        }
    }
    let a = seq!['/'] + qg;
    lemma_split_extend(seq!['/'], qg, '/');
    assert(seq!['/'].drop_last() =~= Seq::<char>::empty());
    assert(split(Seq::<char>::empty(), '/') == seq![Seq::<char>::empty()]);
    assert(seq!['/'].last() == '/');
    assert(split(seq!['/'], '/') =~= seq![Seq::<char>::empty(), Seq::<char>::empty()]);
    assert(split(a, '/') =~= seq![Seq::<char>::empty(), qg]);
    let b = a + seq!['/'];
    assert(b.drop_last() =~= a);
    assert(split(b, '/') =~= seq![Seq::<char>::empty(), qg, Seq::<char>::empty()]);
    assert(p =~= b + qc);
    lemma_split_extend(b, qc, '/');
    let parts = seq![Seq::<char>::empty(), qg, qc];
    assert(split(p, '/') =~= parts);
    lemma_clean_quoted(g);
    lemma_clean_quoted(c);
    lemma_empty_clean();
    assert(parts.drop_last() =~= seq![Seq::<char>::empty(), qg]);
    assert(parts.drop_last().drop_last() =~= seq![Seq::<char>::empty()]);
    assert(seq![Seq::<char>::empty()].drop_last() =~= Seq::<Seq<char>>::empty());
    assert(cleaned_parts(Seq::<Seq<char>>::empty()) == Seq::<Seq<char>>::empty());
    assert(cleaned_parts(seq![Seq::<char>::empty()]) == Seq::<Seq<char>>::empty());
    assert(parts.drop_last().last() == qg);
    assert(clean_part(qg) == g);
    assert(cleaned_parts(seq![Seq::<char>::empty(), qg]) == Seq::<Seq<char>>::empty().push(g));
    assert(parts.last() == qc);
    assert(clean_part(qc) == c);
    assert(cleaned_parts(parts) == Seq::<Seq<char>>::empty().push(g).push(c));
    assert(cleaned_parts(parts) =~= seq![g, c]);
    assert(p.len() >= 7);
}

/// A written `u32` is read back.
pub proof fn lemma_u32_read(pre: Seq<u8>, x: u32, post: Seq<u8>)
    ensures
        spec_u32(pre + le_bytes_u32(x) + post, false, pre.len() as int)
            == Ok::<(u32, int), TdmsError>((x, pre.len() as int + 4)),
{
    lemma_le_u32_roundtrip(pre, x, post);
}

/// A written `u64` is read back.
pub proof fn lemma_u64_read(pre: Seq<u8>, x: u64, post: Seq<u8>)
    ensures
        spec_u64(pre + le_bytes_u64(x) + post, false, pre.len() as int)
            == Ok::<(u64, int), TdmsError>((x, pre.len() as int + 8)),
{
    lemma_le_u64_roundtrip(pre, x, post);
}

/// The object a written object without raw data and without properties is read back as.
pub open spec fn plain_object_model(path: Seq<char>) -> ObjectModel {
    ObjectModel { path: path, raw_data_index: None, properties: Map::empty() }
}

/// A written object without raw data and without properties is read back, and
/// leaves the stored raw data indexes as they are.
pub proof fn lemma_plain_object_read(pre: Seq<u8>, path: Seq<char>, post: Seq<u8>, prev: Map<Seq<char>, ObjectRawDataIndex>)
    requires
        encode_utf8(path).len() <= u32::MAX,
    ensures
        spec_object(pre + spec_plain_object_bytes(path, le_bytes_u32(0)) + post, false, pre.len() as int, prev)
            == Ok::<(ObjectModel, int, Map<Seq<char>, ObjectRawDataIndex>), TdmsError>((
                plain_object_model(path),
                pre.len() + spec_plain_object_bytes(path, le_bytes_u32(0)).len() as int,
                prev,
            )),
{
    reveal(spec_object);
    let all = pre + spec_plain_object_bytes(path, le_bytes_u32(0)) + post;
    let sb = spec_string_bytes(path);
    assert(all =~= pre + sb + (le_bytes_u32(0xFFFF_FFFF) + le_bytes_u32(0) + post));
    lemma_string_roundtrip(pre, path, le_bytes_u32(0xFFFF_FFFF) + le_bytes_u32(0) + post);
    let p1 = pre.len() + sb.len() as int;
    assert(all =~= (pre + sb) + le_bytes_u32(0xFFFF_FFFF) + (le_bytes_u32(0) + post));
    lemma_u32_read(pre + sb, 0xFFFF_FFFF, le_bytes_u32(0) + post);
    assert(all =~= (pre + sb + le_bytes_u32(0xFFFF_FFFF)) + le_bytes_u32(0) + post);
    lemma_u32_read(pre + sb + le_bytes_u32(0xFFFF_FFFF), 0, post);
    let p3 = p1 + 8;
    assert(spec_properties(all, false, p3, 0) == Ok::<(Seq<(Seq<char>, PropertyValueModel)>, int), TdmsError>((Seq::empty(), p3)));
    assert(map_of(Seq::<(Seq<char>, PropertyValueModel)>::empty()) == Map::<Seq<char>, PropertyValueModel>::empty());
}

/// The raw data index that a written one-channel segment declares.
pub open spec fn written_index(d: DataType, count: u64) -> ObjectRawDataIndex {
    ObjectRawDataIndex { data_type: d, dimension: 1, number_of_values: count, total_size_bytes: None }
}

/// The bytes of a written channel object.
pub open spec fn spec_channel_object_bytes(path: Seq<char>, d: DataType, count: u64) -> Seq<u8> {
    spec_string_bytes(path) + spec_index_bytes(d, count) + le_bytes_u32(0)
}

/// A written raw data index is read back.
#[verifier::spinoff_prover]
pub(crate) proof fn lemma_index_read(q2: Seq<u8>, d: DataType, count: u64, post: Seq<u8>)
    requires
        d != DataType::String,
    ensures
        crate::segment::spec_raw_index(q2 + spec_index_bytes(d, count).subrange(4, 20) + post, false, q2.len() as int, 16)
            == Ok::<(ObjectRawDataIndex, int), TdmsError>((written_index(d, count), q2.len() as int + 16)),
{
    reveal(crate::segment::spec_raw_index);
    let code = d.spec_code();
    let body = spec_index_bytes(d, count).subrange(4, 20);
    assert(body =~= le_bytes_u32(code) + le_bytes_u32(1) + le_bytes_u64(count));
    let all = q2 + body + post;
    assert(all =~= q2 + le_bytes_u32(code) + (le_bytes_u32(1) + le_bytes_u64(count) + post));
    lemma_u32_read(q2, code, le_bytes_u32(1) + le_bytes_u64(count) + post);
    crate::types::lemma_code_from_u32_roundtrip(d);
    let q3 = q2 + le_bytes_u32(code);
    assert(all =~= q3 + le_bytes_u32(1) + (le_bytes_u64(count) + post));
    lemma_u32_read(q3, 1, le_bytes_u64(count) + post);
    let q4 = q3 + le_bytes_u32(1);
    assert(all =~= q4 + le_bytes_u64(count) + post);
    lemma_u64_read(q4, count, post);
}

/// A written channel object is read back with its raw data index, which is
/// stored for its path.
#[verifier::spinoff_prover]
#[verifier::rlimit(100)]
pub proof fn lemma_channel_object_read(pre: Seq<u8>, path: Seq<char>, d: DataType, count: u64, post: Seq<u8>,
    prev: Map<Seq<char>, ObjectRawDataIndex>)
    requires
        encode_utf8(path).len() <= u32::MAX,
        d != DataType::String,
    ensures
        spec_object(pre + spec_channel_object_bytes(path, d, count) + post, false, pre.len() as int, prev)
            == Ok::<(ObjectModel, int, Map<Seq<char>, ObjectRawDataIndex>), TdmsError>((
                ObjectModel { path: path, raw_data_index: Some(written_index(d, count)), properties: Map::empty() },
                pre.len() + spec_channel_object_bytes(path, d, count).len() as int,
                prev.insert(path, written_index(d, count)),
            )),
{
    reveal(spec_object);
    let all = pre + spec_channel_object_bytes(path, d, count) + post;
    let sb = spec_string_bytes(path);
    let body = spec_index_bytes(d, count).subrange(4, 20);
    let rest = le_bytes_u32(16) + body + le_bytes_u32(0) + post;
    assert(spec_index_bytes(d, count) =~= le_bytes_u32(16) + body);
    assert(all =~= pre + sb + rest);
    lemma_string_roundtrip(pre, path, rest);
    let q1 = pre + sb;
    assert(all =~= q1 + le_bytes_u32(16) + (body + le_bytes_u32(0) + post));
    lemma_u32_read(q1, 16, body + le_bytes_u32(0) + post);
    let q2 = q1 + le_bytes_u32(16);
    assert(all =~= q2 + body + (le_bytes_u32(0) + post));
    lemma_index_read(q2, d, count, le_bytes_u32(0) + post);
    let q5 = q2 + body;
    assert(all =~= q5 + le_bytes_u32(0) + post);
    lemma_u32_read(q5, 0, post);
    let p6: int = q5.len() as int + 4;
    assert(spec_properties(all, false, p6, 0) == Ok::<(Seq<(Seq<char>, PropertyValueModel)>, int), TdmsError>((Seq::empty(), p6)));
    assert(map_of(Seq::<(Seq<char>, PropertyValueModel)>::empty()) == Map::<Seq<char>, PropertyValueModel>::empty());
}

/// The objects of a written one-channel segment, as read back.
pub open spec fn written_objects(g: Seq<char>, c: Seq<char>, d: DataType, count: u64) -> Seq<ObjectModel> {
    seq![
        plain_object_model(seq!['/']),
        plain_object_model(spec_group_path(g)),
        ObjectModel {
            path: spec_channel_path(g, c),
            raw_data_index: Some(written_index(d, count)),
            properties: Map::empty(),
        },
    ]
}

/// The metadata of a written one-channel segment is read back as its three objects.
#[verifier::spinoff_prover]
#[verifier::rlimit(60)]
pub proof fn lemma_channel_metadata_read(g: Seq<char>, c: Seq<char>, d: DataType, count: u64,
    prev: Map<Seq<char>, ObjectRawDataIndex>)
    requires
        encode_utf8(spec_group_path(g)).len() <= u32::MAX,
        encode_utf8(spec_channel_path(g, c)).len() <= u32::MAX,
        d != DataType::String,
    ensures
        ({
            let meta = spec_channel_metadata(g, c, d, count);
            &&& spec_u32(meta, false, 0) == Ok::<(u32, int), TdmsError>((3, 4))
            &&& spec_objects(meta, false, 4, 3, prev)
                == Ok::<(Seq<ObjectModel>, int, Map<Seq<char>, ObjectRawDataIndex>), TdmsError>((
                    written_objects(g, c, d, count),
                    meta.len() as int,
                    prev.insert(spec_channel_path(g, c), written_index(d, count)),
                ))
        }),
{
    let meta = spec_channel_metadata(g, c, d, count);
    let gp = spec_group_path(g);
    let cp = spec_channel_path(g, c);
    let o1 = spec_plain_object_bytes(seq!['/'], le_bytes_u32(0));
    let o2 = spec_plain_object_bytes(gp, le_bytes_u32(0));
    let o3 = spec_channel_object_bytes(cp, d, count);
    let m0 = le_bytes_u32(3);
    assert(meta =~= m0 + o1 + o2 + o3);
    assert(meta =~= Seq::<u8>::empty() + m0 + (o1 + o2 + o3));
    lemma_u32_read(Seq::<u8>::empty(), 3, o1 + o2 + o3);
    assert(Seq::<u8>::empty() + m0 + (o1 + o2 + o3) =~= meta);
    let e = prev;
    assert(encode_utf8(seq!['/']).len() <= 4) by {
        let sl = seq!['/'];
        assert(sl.drop_first() =~= Seq::<char>::empty());
        assert(encode_utf8(sl.drop_first()) == Seq::<u8>::empty());
        assert(vstd::utf8::encode_scalar(sl[0] as u32).len() <= 4);
        assert(encode_utf8(sl) == vstd::utf8::encode_scalar(sl[0] as u32) + encode_utf8(sl.drop_first()));
    }
    assert(meta =~= m0 + o1 + (o2 + o3));
    lemma_plain_object_read(m0, seq!['/'], o2 + o3, e);
    assert(meta =~= (m0 + o1) + o2 + o3);
    lemma_plain_object_read(m0 + o1, gp, o3, e);
    assert(meta =~= (m0 + o1 + o2) + o3 + Seq::<u8>::empty());
    lemma_channel_object_read(m0 + o1 + o2, cp, d, count, Seq::<u8>::empty(), e);
    let s0 = Seq::<ObjectModel>::empty();
    assert(spec_objects(meta, false, 4, 0, e) == Ok::<(Seq<ObjectModel>, int, Map<Seq<char>, ObjectRawDataIndex>), TdmsError>((s0, 4, e)));
    let p1 = 4 + o1.len() as int;
    assert(spec_objects(meta, false, 4, 1, e) == Ok::<(Seq<ObjectModel>, int, Map<Seq<char>, ObjectRawDataIndex>), TdmsError>((s0.push(plain_object_model(seq!['/'])), p1, e)));
    let p2 = p1 + o2.len() as int;
    assert(spec_objects(meta, false, 4, 2, e) == Ok::<(Seq<ObjectModel>, int, Map<Seq<char>, ObjectRawDataIndex>), TdmsError>((
        s0.push(plain_object_model(seq!['/'])).push(plain_object_model(gp)), p2, e)));
    assert(s0.push(plain_object_model(seq!['/'])).push(plain_object_model(gp)).push(written_objects(g, c, d, count)[2])
        =~= written_objects(g, c, d, count));
}

/// The header of a written segment whose metadata takes `mlen` bytes and whose raw data takes `rlen`.
pub open spec fn written_header(mlen: int, rlen: int) -> crate::header::SegmentHeader {
    spec_header(WRITTEN_TOC, WRITTEN_VERSION, (mlen + rlen) as u64, mlen as u64)
}

/// The index of a written one-channel segment.
pub open spec fn written_segment(g: Seq<char>, c: Seq<char>, d: DataType, count: u64, rlen: int) -> SegmentModel {
    let mlen = spec_channel_metadata(g, c, d, count).len() as int;
    SegmentModel {
        header: written_header(mlen, rlen),
        header_offset: 0,
        metadata_offset: HEADER_SIZE as u64,
        raw_data_offset: (HEADER_SIZE + mlen) as u64,
        segment_total_size: (HEADER_SIZE + mlen + rlen) as u64,
        objects: written_objects(g, c, d, count),
    }
}

/// The groups that a written one-channel segment describes: the group alone,
/// with the path `/'g'` and no properties, holding the channel alone, with
/// its path, no properties, the written type and the written value count.
pub open spec fn written_groups(g: Seq<char>, c: Seq<char>, d: DataType, count: u64) -> Map<Seq<char>, GroupModel> {
    map![g => GroupModel {
        name: g,
        path: spec_group_path(g),
        properties: Map::empty(),
        channels: map![c => ChannelModel {
            path: spec_channel_path(g, c),
            group_name: g,
            name: c,
            properties: Map::empty(),
            data_type: Some(d),
            number_of_values: count,
        }],
    }]
}

/// The group and channel that the objects of a written segment create.
#[verifier::spinoff_prover]
pub proof fn lemma_written_objects_apply(g: Seq<char>, c: Seq<char>, d: DataType, count: u64)
    requires
        plain_name(g),
        plain_name(c),
    ensures
        apply_objects(Map::empty(), Map::empty(), written_objects(g, c, d, count))
            == (Map::<Seq<char>, PropertyValueModel>::empty(), written_groups(g, c, d, count)),
{
    reveal(apply_object);
    let objs = written_objects(g, c, d, count);
    lemma_root_path();
    lemma_group_path(g);
    lemma_channel_path(g, c);
    let e1: Map<Seq<char>, PropertyValueModel> = Map::empty();
    let e2: Map<Seq<char>, GroupModel> = Map::empty();
    assert(objs.drop_last().drop_last().drop_last() =~= Seq::<ObjectModel>::empty());
    let r0 = apply_objects(e1, e2, objs.drop_last().drop_last().drop_last());
    assert(r0 == (e1, e2));
    let r1 = apply_objects(e1, e2, objs.drop_last().drop_last());
    assert(objs.drop_last().drop_last().last() == objs[0]);
    assert(r1 == apply_object(e1, e2, objs[0]));
    assert(r1.1 == e2);
    let r2 = apply_objects(e1, e2, objs.drop_last());
    assert(objs.drop_last().last() == objs[1]);
    assert(r2 == apply_object(r1.0, r1.1, objs[1]));
    assert(r2.1.dom().contains(g));
    assert(r2.1[g].channels == Map::<Seq<char>, ChannelModel>::empty());
    let r3 = apply_objects(e1, e2, objs);
    assert(r3 == apply_object(r2.0, r2.1, objs[2]));
    assert(e1.union_prefer_right(e1) =~= e1);
    assert(r3.0 =~= e1);
    assert(r3.1[g].channels =~= written_groups(g, c, d, count)[g].channels);
    assert(r3.1[g].properties =~= e1);
    assert(r3.1[g].channels[c].properties =~= e1);
    assert(r3.1 =~= written_groups(g, c, d, count));
}

/// Indexing a written one-channel segment finds the one segment, as written.
#[verifier::spinoff_prover]
#[verifier::rlimit(60)]
pub proof fn lemma_written_index(g: Seq<char>, c: Seq<char>, d: DataType, raw: Seq<u8>, count: u64)
    requires
        plain_name(g),
        plain_name(c),
        d != DataType::String,
        encode_utf8(spec_group_path(g)).len() <= u32::MAX,
        encode_utf8(spec_channel_path(g, c)).len() <= u32::MAX,
        spec_segment_bytes(spec_channel_metadata(g, c, d, count), raw).len() <= usize::MAX,
    ensures
        ({
            let r = apply_objects(Map::empty(), Map::empty(), written_objects(g, c, d, count));
            spec_index(spec_segment_bytes(spec_channel_metadata(g, c, d, count), raw))
                == Ok::<IndexModel, TdmsError>(IndexModel {
                    properties: r.0,
                    groups: r.1,
                    segments: seq![written_segment(g, c, d, count, raw.len() as int)],
                })
        }),
{
    let meta = spec_channel_metadata(g, c, d, count);
    let mlen = meta.len() as int;
    let rlen = raw.len() as int;
    let data = spec_segment_bytes(meta, raw);
    let next = (mlen + rlen) as u64;
    let lead = spec_lead_in_bytes(WRITTEN_TOC, WRITTEN_VERSION, next, mlen as u64);
    assert(lead.len() == 28);
    assert(data =~= lead + meta + raw);
    let hb = data.subrange(0, 28);
    assert(hb =~= lead + Seq::<u8>::empty());
    assert((0x0eu32 & 0x40u32) == 0u32) by (bit_vector);
    assert((0x0eu32 & 0x02u32) != 0u32) by (bit_vector);
    lemma_lead_in_roundtrip(WRITTEN_TOC, WRITTEN_VERSION, next, mlen as u64, Seq::<u8>::empty());
    let h = written_header(mlen, rlen);
    assert(crate::header::spec_header_of(hb) == h);
    assert(h.raw_data_offset == mlen);
    assert(!h.is_big_endian);
    assert(h.has_metadata);
    assert(data.subrange(28, 28 + mlen) =~= meta);
    lemma_channel_metadata_read(g, c, d, count, Map::empty());
    let prev2 = Map::<Seq<char>, ObjectRawDataIndex>::empty().insert(spec_channel_path(g, c), written_index(d, count));
    let seg = written_segment(g, c, d, count, rlen);
    assert(crate::segment::spec_segment_total_size(h, 0, data.len() as u64) == (HEADER_SIZE + mlen + rlen) as u64);
    assert(spec_segment(meta, 0, false, h, 0, data.len() as u64, Map::empty())
        == Ok::<(SegmentModel, int, Map<Seq<char>, ObjectRawDataIndex>), TdmsError>((seg, mlen, prev2)));
    let r = apply_objects(Map::empty(), Map::empty(), written_objects(g, c, d, count));
    let st2 = IndexModel { properties: r.0, groups: r.1, segments: seq![seg] };
    assert(empty_index().segments.push(seg) =~= seq![seg]);
    assert(spec_walk(data, data.len(), st2, prev2) == Ok::<IndexModel, TdmsError>(st2));
    assert(spec_walk(data, 0, empty_index(), Map::empty()) == spec_walk(data, data.len(), st2, prev2));
    reveal(spec_index);
}

/// The values of `e` bytes each that `raw` holds, from a little-endian segment.
pub open spec fn values_of(raw: Seq<u8>, e: int) -> Seq<(Seq<u8>, bool)> {
    Seq::new((raw.len() as int / e) as nat, |i: int| (raw.subrange(i * e, i * e + e), false))
}

/// The written channel's values in its raw data block.
#[verifier::spinoff_prover]
#[verifier::rlimit(60)]
pub(crate) proof fn lemma_written_contiguous(g: Seq<char>, c: Seq<char>, d: DataType, raw: Seq<u8>, count: u64, e: int)
    requires
        plain_name(g),
        plain_name(c),
        d.spec_element_size() matches Some(n) && n as int == e,
        e > 0,
        raw.len() == count * e,
        raw.len() > 0,
        raw.len() <= usize::MAX,
    ensures
        contiguous_values(written_objects(g, c, d, count), raw, false, g, c, e)
            == Ok::<Seq<(Seq<u8>, bool)>, TdmsError>(values_of(raw, e)),
{
    let rlen = raw.len() as int;
    let objs = written_objects(g, c, d, count);
    let idx = written_index(d, count);
    crate::types::lemma_element_size_bounded(d);
    assert(crate::channel_data::elem_size(idx) == e);
    assert(obj_size(idx) == rlen);
    assert(chunk_size(objs, 0) == 0);
    assert(chunk_size(objs, 1) == 0);
    assert(chunk_size(objs, 2) == 0);
    assert(chunk_size(objs, 3) == rlen);
    assert(rlen / rlen == 1) by (nonlinear_arith)
        requires
            rlen > 0,
    ;
    lemma_channel_path(g, c);
    assert(object_is(objs[2], g, c)) by {
        reveal(object_is);
    }
    assert(chunk_values(objs, raw, false, 0, g, c, e, 0)
        == Ok::<(Seq<(Seq<u8>, bool)>, int), TdmsError>((Seq::empty(), 0)));
    assert(chunk_values(objs, raw, false, 0, g, c, e, 1)
        == Ok::<(Seq<(Seq<u8>, bool)>, int), TdmsError>((Seq::empty(), 0)));
    assert(chunk_values(objs, raw, false, 0, g, c, e, 2)
        == Ok::<(Seq<(Seq<u8>, bool)>, int), TdmsError>((Seq::empty(), 0)));
    assert(raw.subrange(0, rlen) =~= raw);
    assert(rlen / e == count) by (nonlinear_arith)
        requires
            rlen == count * e,
            e > 0,
    ;
    assert(read_count(raw, count as int, e, false) == Ok::<Seq<(Seq<u8>, bool)>, TdmsError>(values_of(raw, e)));
    assert(Seq::<(Seq<u8>, bool)>::empty() + values_of(raw, e) =~= values_of(raw, e));
    assert(chunk_values(objs, raw, false, 0, g, c, e, 3)
        == Ok::<(Seq<(Seq<u8>, bool)>, int), TdmsError>((values_of(raw, e), rlen)));
    assert(chunks_values(objs, raw, false, rlen, g, c, e, 0) == Ok::<Seq<(Seq<u8>, bool)>, TdmsError>(Seq::empty()));
    assert(chunks_values(objs, raw, false, rlen, g, c, e, 1)
        == Ok::<Seq<(Seq<u8>, bool)>, TdmsError>(values_of(raw, e)));
}

/// Reading the channel of a written one-channel segment gives its raw data, cut
/// into values of the type's size.
#[verifier::spinoff_prover]
#[verifier::rlimit(60)]
pub proof fn lemma_written_values(g: Seq<char>, c: Seq<char>, d: DataType, raw: Seq<u8>, count: u64, e: int)
    requires
        plain_name(g),
        plain_name(c),
        d.spec_element_size() matches Some(n) && n as int == e,
        e > 0,
        raw.len() == count * e,
        spec_segment_bytes(spec_channel_metadata(g, c, d, count), raw).len() <= usize::MAX,
    ensures
        ({
            let data = spec_segment_bytes(spec_channel_metadata(g, c, d, count), raw);
            let segs = seq![written_segment(g, c, d, count, raw.len() as int)];
            segments_values(segs, data, g, c, e, 1) == Ok::<Seq<(Seq<u8>, bool)>, TdmsError>(values_of(raw, e))
        }),
{
    let meta = spec_channel_metadata(g, c, d, count);
    let mlen = meta.len() as int;
    let rlen = raw.len() as int;
    let data = spec_segment_bytes(meta, raw);
    let seg = written_segment(g, c, d, count, rlen);
    let segs = seq![seg];
    assert((0x0eu32 & 0x08u32) != 0u32) by (bit_vector);
    assert((0x0eu32 & 0x20u32) == 0u32) by (bit_vector);
    assert((0x0eu32 & 0x40u32) == 0u32) by (bit_vector);
    assert(seg.header.has_raw_data);
    assert(!seg.header.is_interleaved);
    assert(!seg.header.is_big_endian);
    assert(segments_values(segs, data, g, c, e, 0) == Ok::<Seq<(Seq<u8>, bool)>, TdmsError>(Seq::empty()));
    assert(segs[0] == seg);
    let start = HEADER_SIZE + mlen;
    let end = HEADER_SIZE + mlen + rlen;
    assert(crate::channel_data::raw_end(seg) == end);
    if rlen == 0 {
        assert(count == 0) by (nonlinear_arith)
            requires
                0 == count * e,
                e > 0,
        ;
        assert(values_of(raw, e) =~= Seq::<(Seq<u8>, bool)>::empty());
        assert(segment_values(seg, data, g, c, e) == Ok::<Seq<(Seq<u8>, bool)>, TdmsError>(Seq::empty()));
        assert(Seq::<(Seq<u8>, bool)>::empty() + Seq::<(Seq<u8>, bool)>::empty() =~= Seq::<(Seq<u8>, bool)>::empty());
    } else {
        let r2 = data.subrange(start, end);
        assert(data =~= spec_lead_in_bytes(WRITTEN_TOC, WRITTEN_VERSION, (mlen + rlen) as u64, mlen as u64) + meta + raw);
        assert(r2 =~= raw);
        lemma_written_contiguous(g, c, d, raw, count, e);
        assert(segment_values(seg, data, g, c, e) == Ok::<Seq<(Seq<u8>, bool)>, TdmsError>(values_of(raw, e)));
        assert(Seq::<(Seq<u8>, bool)>::empty() + values_of(raw, e) =~= values_of(raw, e));
    }
}

/// What a read gives back of a write: the bytes that `channel_segment` writes for
/// a group and a channel whose names a path holds unchanged, with raw data of
/// whole values of a fixed-size type, index as a file without properties whose
/// only group holds only that channel, with the written type and value count,
/// and reading that channel gives back the raw data, value by value.
pub proof fn lemma_write_then_read(g: Seq<char>, c: Seq<char>, d: DataType, raw: Seq<u8>, count: u64)
    requires
        plain_name(g),
        plain_name(c),
        d.spec_element_size() matches Some(n) && n > 0 && raw.len() == count * n,
        encode_utf8(spec_group_path(g)).len() <= u32::MAX,
        encode_utf8(spec_channel_path(g, c)).len() <= u32::MAX,
        spec_segment_bytes(spec_channel_metadata(g, c, d, count), raw).len() <= usize::MAX,
    ensures
        ({
            let data = spec_segment_bytes(spec_channel_metadata(g, c, d, count), raw);
            let n = d.spec_element_size()->0 as int;
            &&& spec_index(data) is Ok
            &&& spec_index(data)->Ok_0.properties == Map::<Seq<char>, PropertyValueModel>::empty()
            &&& spec_index(data)->Ok_0.groups == written_groups(g, c, d, count)
            &&& segments_values(spec_index(data)->Ok_0.segments, data, g, c, n, spec_index(data)->Ok_0.segments.len())
                == Ok::<Seq<(Seq<u8>, bool)>, TdmsError>(values_of(raw, n))
        }),
{
    let n = d.spec_element_size()->0 as int;
    lemma_written_index(g, c, d, raw, count);
    lemma_written_objects_apply(g, c, d, count);
    lemma_written_values(g, c, d, raw, count, n);
}

/// Writing values and reading them back: the bytes of the segment that
/// `values_segment` builds index as one group holding the channel, with as
/// many values as were written, and reading the channel gives back each value.
pub proof fn lemma_values_write_then_read<T: TdmsPrimitive>(g: Seq<char>, c: Seq<char>, data: Seq<T>)
    requires
        plain_name(g),
        plain_name(c),
        data.len() <= u64::MAX,
        encode_utf8(spec_group_path(g)).len() <= u32::MAX,
        encode_utf8(spec_channel_path(g, c)).len() <= u32::MAX,
        spec_segment_bytes(spec_channel_metadata(g, c, T::spec_data_type(), data.len() as u64), spec_encode_all(data)).len()
            <= usize::MAX,
    ensures
        ({
            let d = T::spec_data_type();
            let bytes = spec_segment_bytes(spec_channel_metadata(g, c, d, data.len() as u64), spec_encode_all(data));
            let n = d.spec_element_size()->0 as int;
            let read = segments_values(spec_index(bytes)->Ok_0.segments, bytes, g, c, n, spec_index(bytes)->Ok_0.segments.len());
            &&& spec_index(bytes) is Ok
            &&& spec_index(bytes)->Ok_0.properties == Map::<Seq<char>, PropertyValueModel>::empty()
            &&& spec_index(bytes)->Ok_0.groups == written_groups(g, c, d, data.len() as u64)
            &&& read is Ok
            &&& read->Ok_0.len() == data.len()
            &&& forall|i: int| 0 <= i < data.len() ==> T::spec_decode((#[trigger] read->Ok_0[i]).0, read->Ok_0[i].1) == data[i]
        }),
{
    let d = T::spec_data_type();
    let raw = spec_encode_all(data);
    lemma_encoded_values(data);
    lemma_write_then_read(g, c, d, raw, data.len() as u64);
}

/// The values cut from the bytes of encoded values decode to them.
proof fn lemma_encoded_values<T: TdmsPrimitive>(data: Seq<T>)
    ensures
        ({
            let d = T::spec_data_type();
            let n = d.spec_element_size()->0 as int;
            let raw = spec_encode_all(data);
            let vs = values_of(raw, n);
            &&& d.spec_element_size() matches Some(m) && m > 0
            &&& raw.len() == data.len() * n
            &&& vs.len() == data.len()
            &&& forall|i: int| 0 <= i < data.len() ==> T::spec_decode((#[trigger] vs[i]).0, vs[i].1) == data[i]
        }),
{
    let d = T::spec_data_type();
    let n = d.spec_element_size()->0 as int;
    let raw = spec_encode_all(data);
    T::lemma_encode_decode(arbitrary());
    lemma_encode_all(data);
    let vs = values_of(raw, n);
    assert(raw.len() as int / n == data.len()) by (nonlinear_arith)
        requires
            raw.len() == data.len() * n,
            n > 0,
    ;
    assert forall|i: int| 0 <= i < data.len() implies T::spec_decode((#[trigger] vs[i]).0, vs[i].1) == data[i] by {
        T::lemma_encode_decode(data[i]);
    }
}

} // verus!
