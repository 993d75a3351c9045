//! Walking a slice of values in chunks of a fixed size.

use vstd::prelude::*;

verus! {

/// The `i`th chunk of `s` in chunks of `n`: `n` values, fewer for the last chunk.
pub open spec fn chunk_of<T>(s: Seq<T>, n: int, i: int) -> Seq<T> {
    s.subrange(i * n, if (i + 1) * n <= s.len() { (i + 1) * n } else { s.len() as int })
}

/// The number of chunks of `n` that `len` values make.
pub open spec fn chunk_count(len: int, n: int) -> int {
    (len + n - 1) / n
}

/// The first `k` chunks of `s` in chunks of `n`, one after the other.
pub open spec fn chunks_joined<T>(s: Seq<T>, n: int, k: nat) -> Seq<T>
    decreases k,
{
    if k == 0 { Seq::empty() } else { chunks_joined(s, n, (k - 1) as nat) + chunk_of(s, n, k - 1) }
}

/// The first `k` chunks, joined, are the values up to the end of the `k`th chunk.
proof fn lemma_chunks_joined_prefix<T>(s: Seq<T>, n: int, k: nat)
    requires
        n > 0,
        (k - 1) * n < s.len() || k == 0,
    ensures
        chunks_joined(s, n, k) == s.subrange(0, if k * n <= s.len() { k * n } else { s.len() as int }),
    decreases k,
{
    if k == 0 {
        assert(s.subrange(0, 0) =~= Seq::<T>::empty());
    } else {
        let j = (k - 1) as nat;
        assert(j * n + n == k * n) by (nonlinear_arith)
            requires
                j == k - 1,
        ;
        if j > 0 {
            assert((j - 1) * n < j * n) by (nonlinear_arith)
                requires
                    n > 0,
                    j > 0,
            ;
        }
        lemma_chunks_joined_prefix(s, n, j);
        assert(0 <= j * n) by (nonlinear_arith)
            requires
                n > 0,
        ;
        assert(j * n <= s.len());
        let end = if k * n <= s.len() { k * n } else { s.len() as int };
        assert(s.subrange(0, j * n) + s.subrange(j * n, end) =~= s.subrange(0, end));
    }
}

/// Taken in chunks of any positive size, the chunks joined in order are the values.
pub proof fn lemma_chunks_cover<T>(s: Seq<T>, n: int)
    requires
        n > 0,
    ensures
        chunks_joined(s, n, chunk_count(s.len() as int, n) as nat) == s,
{
    let k = chunk_count(s.len() as int, n);
    assert(k >= 0) by (nonlinear_arith)
        requires
            n > 0,
            k == (s.len() + n - 1) / n,
    ;
    assert(k * n >= s.len() && (k == 0 || (k - 1) * n < s.len())) by (nonlinear_arith)
        requires
            n > 0,
            k == (s.len() + n - 1) / n,
            s.len() >= 0,
    ;
    lemma_chunks_joined_prefix(s, n, k as nat);
    assert(s.subrange(0, s.len() as int) =~= s);
}

/// The chunks of a slice, in order.
pub struct ChunkIterator<'a, T> {
    data: &'a [T],
    chunk_size: usize,
    pos: usize,
}

impl<'a, T> ChunkIterator<'a, T> {
    /// The values the chunks are taken from.
    pub closed spec fn values(&self) -> Seq<T> {
        self.data@
    }

    pub closed spec fn size(&self) -> int {
        self.chunk_size as int
    }

    /// Where the next chunk starts.
    pub closed spec fn position(&self) -> int {
        self.pos as int
    }

    pub closed spec fn wf(&self) -> bool {
        &&& self.chunk_size > 0
        &&& self.pos <= self.data@.len()
        &&& self.pos % self.chunk_size == 0 || self.pos == self.data@.len()
    }

    pub fn new(data: &'a [T], chunk_size: usize) -> (r: Self)
        requires
            chunk_size > 0,
        ensures
            r.wf(),
            r.values() == data@,
            r.size() == chunk_size,
            r.position() == 0,
    {
        assert(0usize % chunk_size == 0) by (nonlinear_arith)
            requires
                chunk_size > 0,
        ;
        ChunkIterator { data, chunk_size, pos: 0 }
    }

    /// The next chunk: the `chunk_size` values from the current position, fewer
    /// at the end, or `None` once every value has been handed out.
    pub fn next_chunk(&mut self) -> (r: Option<&'a [T]>)
        requires
            old(self).wf(),
        ensures
            final(self).wf(),
            final(self).values() == old(self).values(),
            final(self).size() == old(self).size(),
            old(self).position() == old(self).values().len() ==> r is None
                && final(self).position() == old(self).position(),
            old(self).position() < old(self).values().len() ==> ({
                let end = if old(self).position() + old(self).size() <= old(self).values().len() {
                    old(self).position() + old(self).size()
                } else {
                    old(self).values().len() as int
                };
                &&& r matches Some(c) && c@ == old(self).values().subrange(old(self).position(), end)
                &&& final(self).position() == end
            }),
    {
        let d: &'a [T] = self.data;
        if self.pos >= d.len() {
            return None;
        }
        let remaining = d.len() - self.pos;
        let end = if self.chunk_size <= remaining { self.pos + self.chunk_size } else { d.len() };
        let chunk = &d[self.pos..end];
        proof {
            let p: int = self.pos as int;
            let n: int = self.chunk_size as int;
            if end < d@.len() {
                assert((p + n) % n == 0) by (nonlinear_arith)
                    requires
                        p % n == 0,
                        n > 0,
                ;
            }
        }
        self.pos = end;
        Some(chunk)
    }

    /// The chunks that remain, in order: those of the values from the current
    /// position on.
    pub fn collect_chunks(self) -> (r: Vec<&'a [T]>)
        requires
            self.wf(),
        ensures
            ({
                let rest = self.values().subrange(self.position(), self.values().len() as int);
                &&& r@.len() == chunk_count(rest.len() as int, self.size())
                &&& forall|i: int| 0 <= i < r@.len() ==> (#[trigger] r@[i])@ == chunk_of(rest, self.size(), i)
            }),
    {
        let mut it = self;
        let ghost s = it.values();
        let ghost n = it.size();
        let ghost p0 = it.position();
        let ghost rest = s.subrange(p0, s.len() as int);
        let mut out: Vec<&'a [T]> = Vec::new();
        assert(0 * n == 0);
        loop
            invariant
                it.wf(),
                it.values() == s,
                it.size() == n,
                n > 0,
                0 <= p0 <= s.len(),
                rest == s.subrange(p0, s.len() as int),
                p0 <= it.position() <= s.len(),
                it.position() == p0 + out@.len() * n
                    || (it.position() == s.len() && out@.len() == chunk_count(rest.len() as int, n)),
                it.position() < s.len() ==> it.position() == p0 + out@.len() * n,
                forall|i: int| 0 <= i < out@.len() ==> (#[trigger] out@[i])@ == chunk_of(rest, n, i),
            ensures
                out@.len() == chunk_count(rest.len() as int, n),
                forall|i: int| 0 <= i < out@.len() ==> (#[trigger] out@[i])@ == chunk_of(rest, n, i),
            decreases s.len() - it.position(),
        {
            let ghost k = out@.len() as int;
            let ghost p = it.position();
            match it.next_chunk() {
                Some(c) => {
                    out.push(c);
                    proof {
                        assert(p == p0 + k * n);
                        assert((k + 1) * n == k * n + n) by (nonlinear_arith);
                        assert(0 <= k * n) by (nonlinear_arith)
                            requires
                                k >= 0,
                                n > 0,
                        ;
                        let end = if (k + 1) * n <= rest.len() { (k + 1) * n } else { rest.len() as int };
                        assert(c@ =~= rest.subrange(k * n, end));
                        assert(c@ == chunk_of(rest, n, k));
                        if it.position() == s.len() {
                            assert(chunk_count(rest.len() as int, n) == k + 1) by (nonlinear_arith)
                                requires
                                    k * n < rest.len(),
                                    rest.len() <= k * n + n,
                                    n > 0,
                                    chunk_count(rest.len() as int, n) == (rest.len() + n - 1) / n,
                            ;
                        }
                    }
                },
                None => {
                    proof {
                        if p == p0 + k * n {
                            assert(chunk_count(rest.len() as int, n) == k) by (nonlinear_arith)
                                requires
                                    k * n == rest.len(),
                                    n > 0,
                                    chunk_count(rest.len() as int, n) == (rest.len() + n - 1) / n,
                            ;
                        }
                    }
                    break;
                },
            }
        }
        out
    }
}

} // verus!
