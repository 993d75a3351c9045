//! Reading the chunks of a contiguous raw data block one after the other.

use vstd::prelude::*;
use crate::channel_data::{chunk_size, chunk_values, chunks_values, contiguous_values, obj_size, object_is, sat};
use crate::error::TdmsError;
use crate::segment::ObjectModel;

verus! {

/// The values of one read, then those of another: the first error, or both values.
pub open spec fn then_read(
    a: Result<Seq<(Seq<u8>, bool)>, TdmsError>,
    b: Result<Seq<(Seq<u8>, bool)>, TdmsError>,
) -> Result<Seq<(Seq<u8>, bool)>, TdmsError> {
    match a {
        Err(x) => Err(x),
        Ok(va) => match b {
            Err(x) => Err(x),
            Ok(vb) => Ok(va + vb),
        },
    }
}

/// A chunk's size grows with the objects it covers.
proof fn lemma_chunk_size_grows(objs: Seq<ObjectModel>, k: nat, n: nat)
    requires
        k <= n <= objs.len(),
    ensures
        0 <= chunk_size(objs, k) <= chunk_size(objs, n) <= usize::MAX,
    decreases n,
{
    if n > 0 {
        if k < n {
            lemma_chunk_size_grows(objs, k, (n - 1) as nat);
        } else {
            lemma_chunk_size_grows(objs, (n - 1) as nat, (n - 1) as nat);
        }
        match objs[n - 1].raw_data_index {
            None => {},
            Some(idx) => {
                assert(obj_size(idx) >= 0);
            },
        }
    }
}

/// Reading a chunk depends only on its own bytes: reading it where it starts
/// at `start` gives what reading those bytes alone gives, and its objects'
/// data ends where the chunk's size says.
proof fn lemma_chunk_local(
    objs: Seq<ObjectModel>,
    raw: Seq<u8>,
    be: bool,
    start: int,
    g: Seq<char>,
    c: Seq<char>,
    e: int,
    k: nat,
)
    requires
        k <= objs.len(),
        0 <= start,
        start + chunk_size(objs, objs.len()) <= raw.len(),
        raw.len() <= usize::MAX,
    ensures
        chunk_values(objs, raw, be, start, g, c, e, k)
            == chunk_values(objs, raw.subrange(start, start + chunk_size(objs, objs.len())), be, 0, g, c, e, k),
        chunk_values(objs, raw, be, start, g, c, e, k) is Ok
            ==> chunk_values(objs, raw, be, start, g, c, e, k)->Ok_0.1 == chunk_size(objs, k),
    decreases k,
{
    let s = chunk_size(objs, objs.len());
    let sub = raw.subrange(start, start + s);
    lemma_chunk_size_grows(objs, k, objs.len());
    if k > 0 && k <= objs.len() {
        lemma_chunk_local(objs, raw, be, start, g, c, e, (k - 1) as nat);
        lemma_chunk_size_grows(objs, (k - 1) as nat, objs.len());
        let o = objs[k - 1];
        match chunk_values(objs, raw, be, start, g, c, e, (k - 1) as nat) {
            Err(_) => {},
            Ok((vs, pos)) => {
                assert(pos == chunk_size(objs, (k - 1) as nat));
                match o.raw_data_index {
                    None => {},
                    Some(idx) => {
                        let size = obj_size(idx);
                        let p = start + pos;
                        assert(size >= 0);
                        if pos + size <= usize::MAX {
                            assert(chunk_size(objs, k) == pos + size);
                            assert(p + size <= raw.len());
                            assert(pos + size <= sub.len());
                            assert(raw.subrange(p, p + size) =~= sub.subrange(0 + pos, 0 + pos + size));
                        } else {
                            assert(!(p + size <= raw.len()));
                            assert(!(0 + pos + size <= sub.len()));
                        }
                    },
                }
            },
        }
    }
}

/// Reading `a`, one whole chunk, then `b`, whole chunks, is reading `a + b`
/// chunk by chunk, up to the first `m` chunks of `b`.
proof fn lemma_chunks_split(
    objs: Seq<ObjectModel>,
    a: Seq<u8>,
    b: Seq<u8>,
    be: bool,
    g: Seq<char>,
    c: Seq<char>,
    e: int,
    m: nat,
)
    requires
        chunk_size(objs, objs.len()) > 0,
        a.len() == chunk_size(objs, objs.len()),
        m * chunk_size(objs, objs.len()) <= b.len(),
        a.len() + b.len() <= usize::MAX,
    ensures
        chunks_values(objs, a + b, be, chunk_size(objs, objs.len()), g, c, e, m + 1)
            == then_read(chunks_values(objs, a, be, chunk_size(objs, objs.len()), g, c, e, 1),
                chunks_values(objs, b, be, chunk_size(objs, objs.len()), g, c, e, m)),
    decreases m,
{
    let s = chunk_size(objs, objs.len());
    let ab = a + b;
    let n = objs.len();
    if m == 0 {
        lemma_chunk_local(objs, ab, be, 0, g, c, e, n);
        lemma_chunk_local(objs, a, be, 0, g, c, e, n);
        assert(0 * s == 0);
        assert(ab.subrange(0, s) =~= a.subrange(0, s));
        let r1 = chunks_values(objs, a, be, s, g, c, e, 1);
        let cab = chunk_values(objs, ab, be, 0, g, c, e, n);
        let ca = chunk_values(objs, a, be, 0, g, c, e, n);
        assert(cab == ca);
        assert((1 - 1) as nat * s == 0);
        let em = Seq::<(Seq<u8>, bool)>::empty();
        assert(chunks_values(objs, ab, be, s, g, c, e, 0) == Ok::<Seq<(Seq<u8>, bool)>, TdmsError>(em));
        assert(chunks_values(objs, b, be, s, g, c, e, 0) == Ok::<Seq<(Seq<u8>, bool)>, TdmsError>(em));
        assert(chunks_values(objs, a, be, s, g, c, e, 0) == Ok::<Seq<(Seq<u8>, bool)>, TdmsError>(em));
        assert(chunks_values(objs, ab, be, s, g, c, e, 1) == match cab {
            Err(x) => Err(x),
            Ok((v, _)) => Ok::<Seq<(Seq<u8>, bool)>, TdmsError>(em + v),
        });
        assert(r1 == match ca {
            Err(x) => Err(x),
            Ok((v, _)) => Ok::<Seq<(Seq<u8>, bool)>, TdmsError>(em + v),
        });
        if r1 is Ok {
            assert(r1->Ok_0 + em =~= r1->Ok_0);
        }
    } else {
        let m1 = (m - 1) as nat;
        assert(m * s == m1 * s + s) by (nonlinear_arith)
            requires
                m == m1 + 1,
        ;
        assert(0 <= m1 * s) by (nonlinear_arith)
            requires
                s > 0,
        ;
        lemma_chunks_split(objs, a, b, be, g, c, e, m1);
        lemma_chunk_local(objs, ab, be, m * s, g, c, e, n);
        lemma_chunk_local(objs, b, be, m1 * s, g, c, e, n);
        assert(ab.subrange(m * s, m * s + s) =~= b.subrange(m1 * s, m1 * s + s));
        let cab = chunk_values(objs, ab, be, m * s, g, c, e, n);
        let cb = chunk_values(objs, b, be, m1 * s, g, c, e, n);
        assert(cab == cb);
        assert(((m + 1) - 1) as nat * s == m * s);
        assert((m - 1) as nat * s == m1 * s);
        let ra = chunks_values(objs, a, be, s, g, c, e, 1);
        let rb = chunks_values(objs, b, be, s, g, c, e, m1);
        let rab = chunks_values(objs, ab, be, s, g, c, e, m);
        assert(rab == then_read(ra, rb));
        assert(chunks_values(objs, ab, be, s, g, c, e, m + 1) == match rab {
            Err(x) => Err(x),
            Ok(vs) => match cab {
                Err(x) => Err(x),
                Ok((v, _)) => Ok::<Seq<(Seq<u8>, bool)>, TdmsError>(vs + v),
            },
        });
        assert(chunks_values(objs, b, be, s, g, c, e, m) == match rb {
            Err(x) => Err(x),
            Ok(vs) => match cb {
                Err(x) => Err(x),
                Ok((v, _)) => Ok::<Seq<(Seq<u8>, bool)>, TdmsError>(vs + v),
            },
        });
        if ra is Ok && rb is Ok && cb is Ok {
            assert(ra->Ok_0 + rb->Ok_0 + cb->Ok_0.0 =~= ra->Ok_0 + (rb->Ok_0 + cb->Ok_0.0));
        }
    }
}

/// A contiguous raw data block of whole chunks is read chunk after chunk:
/// reading one whole chunk followed by more whole chunks gives the values of
/// the first, then those of the rest.
pub proof fn lemma_contiguous_chunks(
    objs: Seq<ObjectModel>,
    a: Seq<u8>,
    b: Seq<u8>,
    be: bool,
    g: Seq<char>,
    c: Seq<char>,
    e: int,
)
    requires
        chunk_size(objs, objs.len()) > 0,
        a.len() == chunk_size(objs, objs.len()),
        b.len() as int % chunk_size(objs, objs.len()) == 0,
        b.len() > 0,
        a.len() + b.len() <= usize::MAX,
    ensures
        contiguous_values(objs, a + b, be, g, c, e)
            == then_read(contiguous_values(objs, a, be, g, c, e), contiguous_values(objs, b, be, g, c, e)),
{
    let s = chunk_size(objs, objs.len());
    let m = b.len() as int / s;
    assert(b.len() == m * s && m >= 1) by (nonlinear_arith)
        requires
            b.len() as int % s == 0,
            b.len() > 0,
            s > 0,
            m == b.len() as int / s,
    ;
    assert((a + b).len() as int / s == m + 1) by (nonlinear_arith)
        requires
            (a + b).len() == s + m * s,
            s > 0,
    ;
    assert(a.len() as int / s == 1) by (nonlinear_arith)
        requires
            a.len() == s,
            s > 0,
    ;
    lemma_chunks_split(objs, a, b, be, g, c, e, m as nat);
}

} // verus!
