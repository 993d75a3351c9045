//! Object paths such as `/'Group'/'Channel'`.

use vstd::prelude::*;
use vstd::std_specs::iter::IteratorSpec;

verus! {

/// Every character of `s`, in order.
pub fn chars_of(s: &str) -> (r: Vec<char>)
    ensures
        r@ == s@,
{
    broadcast use {vstd::string::axiom_spec_iter, vstd::string::next_postcondition};
    let mut out: Vec<char> = Vec::new();
    let mut it = s.chars();
    loop
        invariant
            out@ + it.remaining() == s@,
        ensures
            out@ == s@,
        decreases s@.len() - out@.len(),
    {
        let ghost before = it.remaining();
        match it.next() {
            Some(c) => {
                out.push(c);
                assert(out@ + it.remaining() =~= s@);
            },
            None => {
                assert(out@ =~= s@);
                break;
            },
        }
    }
    out
}

} // verus!

verus! {

/// Whether `c` has the Unicode `White_Space` property, as `char::is_whitespace` has it.
pub open spec fn is_whitespace(c: char) -> bool {
    let u = c as u32;
    ||| 0x09 <= u <= 0x0D
    ||| u == 0x20
    ||| u == 0x85
    ||| u == 0xA0
    ||| u == 0x1680
    ||| 0x2000 <= u <= 0x200A
    ||| u == 0x2028
    ||| u == 0x2029
    ||| u == 0x202F
    ||| u == 0x205F
    ||| u == 0x3000
}

/// What a trim removes from the ends of a string.
#[derive(Clone, Copy)]
pub enum TrimMode {
    /// White space.
    Whitespace,
    /// Copies of one character.
    Char(char),
}

pub open spec fn trimmed(m: TrimMode, c: char) -> bool {
    match m {
        TrimMode::Whitespace => is_whitespace(c),
        TrimMode::Char(x) => c == x,
    }
}

/// `s` without the characters that `m` removes at its start.
pub open spec fn trim_start(s: Seq<char>, m: TrimMode) -> Seq<char>
    decreases s.len(),
{
    if s.len() > 0 && trimmed(m, s[0]) { trim_start(s.drop_first(), m) } else { s }
}

/// `s` without the characters that `m` removes at its end.
pub open spec fn trim_end(s: Seq<char>, m: TrimMode) -> Seq<char>
    decreases s.len(),
{
    if s.len() > 0 && trimmed(m, s.last()) { trim_end(s.drop_last(), m) } else { s }
}

/// `s` without the characters that `m` removes at either end (`trim`, `trim_matches`).
pub open spec fn trim_by(s: Seq<char>, m: TrimMode) -> Seq<char> {
    trim_end(trim_start(s, m), m)
}

/// The pieces of `s` between the separators, empty pieces included (`str::split`).
pub open spec fn split(s: Seq<char>, sep: char) -> Seq<Seq<char>>
    decreases s.len(),
{
    if s.len() == 0 {
        seq![Seq::empty()]
    } else {
        let r = split(s.drop_last(), sep);
        if s.last() == sep {
            r.push(Seq::empty())
        } else {
            r.update(r.len() - 1, r.last().push(s.last()))
        }
    }
}

/// A piece of a path without its quotes: single quotes, then double quotes,
/// then white space are trimmed.
pub open spec fn clean_part(p: Seq<char>) -> Seq<char> {
    trim_by(trim_by(trim_by(p, TrimMode::Char('\'')), TrimMode::Char('"')), TrimMode::Whitespace)
}

/// The cleaned pieces that are not empty, in order.
pub open spec fn cleaned_parts(ps: Seq<Seq<char>>) -> Seq<Seq<char>>
    decreases ps.len(),
{
    if ps.len() == 0 {
        Seq::empty()
    } else {
        let r = cleaned_parts(ps.drop_last());
        let c = clean_part(ps.last());
        if c.len() > 0 { r.push(c) } else { r }
    }
}

/// The group and channel that a path names: the trimmed path `/`, `'/'` or
/// nothing names neither; otherwise the first cleaned, non-empty piece between
/// slashes is the group and the second, if any, the channel.
pub open spec fn spec_parse_object_path(s: Seq<char>) -> (Option<Seq<char>>, Option<Seq<char>>) {
    let clean = trim_by(s, TrimMode::Whitespace);
    if clean == seq!['/'] || clean == seq!['\'', '/', '\''] || clean.len() == 0 {
        (None, None)
    } else {
        let parts = cleaned_parts(split(clean, '/'));
        if parts.len() == 1 {
            (Some(parts[0]), None)
        } else if parts.len() >= 2 {
            (Some(parts[0]), Some(parts[1]))
        } else {
            (None, None)
        }
    }
}

/// `o` holds a string exactly when `m` holds one, and then the same characters.
pub open spec fn same_name(o: Option<String>, m: Option<Seq<char>>) -> bool {
    match (o, m) {
        (Some(a), Some(b)) => a@ == b,
        (None, None) => true,
        _ => false,
    }
}

/// Whether `c` has the Unicode `White_Space` property.
pub fn is_whitespace_char(c: char) -> (r: bool)
    ensures
        r == is_whitespace(c),
{
    let u = c as u32;
    (0x09 <= u && u <= 0x0D) || u == 0x20 || u == 0x85 || u == 0xA0 || u == 0x1680
        || (0x2000 <= u && u <= 0x200A) || u == 0x2028 || u == 0x2029 || u == 0x202F
        || u == 0x205F || u == 0x3000
}

fn is_trimmed(m: TrimMode, c: char) -> (r: bool)
    ensures
        r == trimmed(m, c),
{
    match m {
        TrimMode::Whitespace => is_whitespace_char(c),
        TrimMode::Char(x) => c == x,
    }
}

/// The bounds of what is left of `cs[lo..hi]` once `m` trims both its ends.
pub fn trim_bounds(cs: &Vec<char>, lo: usize, hi: usize, m: TrimMode) -> (r: (usize, usize))
    requires
        lo <= hi <= cs@.len(),
    ensures
        lo <= r.0 <= r.1 <= hi,
        cs@.subrange(r.0 as int, r.1 as int) == trim_by(cs@.subrange(lo as int, hi as int), m),
{
    let mut a = lo;
    while a < hi && is_trimmed(m, cs[a])
        invariant
            lo <= a <= hi <= cs@.len(),
            trim_start(cs@.subrange(lo as int, hi as int), m) == trim_start(cs@.subrange(a as int, hi as int), m),
        decreases hi - a,
    {
        assert(cs@.subrange(a as int, hi as int).drop_first() =~= cs@.subrange(a + 1, hi as int));
        a = a + 1;
    }
    let mut b = hi;
    while b > a && is_trimmed(m, cs[b - 1])
        invariant
            lo <= a <= b <= hi <= cs@.len(),
            trim_end(cs@.subrange(a as int, hi as int), m) == trim_end(cs@.subrange(a as int, b as int), m),
        decreases b - a,
    {
        assert(cs@.subrange(a as int, b as int).drop_last() =~= cs@.subrange(a as int, b - 1));
        b = b - 1;
    }
    (a, b)
}

/// The bounds of the cleaned form of the piece `cs[lo..hi]`.
fn clean_bounds(cs: &Vec<char>, lo: usize, hi: usize) -> (r: (usize, usize))
    requires
        lo <= hi <= cs@.len(),
    ensures
        lo <= r.0 <= r.1 <= hi,
        cs@.subrange(r.0 as int, r.1 as int) == clean_part(cs@.subrange(lo as int, hi as int)),
{
    let (a1, b1) = trim_bounds(cs, lo, hi, TrimMode::Char('\''));
    let (a2, b2) = trim_bounds(cs, a1, b1, TrimMode::Char('"'));
    trim_bounds(cs, a2, b2, TrimMode::Whitespace)
}

/// `String::from_iter`: the string of the characters `cs[a..b]`.
#[verifier::external_body]
fn string_from_chars(cs: &[char], a: usize, b: usize) -> (r: String)
    requires
        a <= b <= cs@.len(),
    ensures
        r@ == cs@.subrange(a as int, b as int),
{
    cs[a..b].iter().collect()
}

pub open spec fn bounds_view(cs: Seq<char>, ps: Seq<(usize, usize)>) -> Seq<Seq<char>> {
    ps.map_values(|p: (usize, usize)| cs.subrange(p.0 as int, p.1 as int))
}

/// Splits an object path into its group and channel names.
pub fn parse_object_path(path: &str) -> (r: (Option<String>, Option<String>))
    ensures
        same_name(r.0, spec_parse_object_path(path@).0),
        same_name(r.1, spec_parse_object_path(path@).1),
{
    let cs = chars_of(path);
    let n = cs.len();
    assert(cs@.subrange(0, n as int) =~= cs@);
    let (ta, tb) = trim_bounds(&cs, 0, n, TrimMode::Whitespace);
    let ghost clean = cs@.subrange(ta as int, tb as int);
    if tb == ta || (tb - ta == 1 && cs[ta] == '/')
        || (tb - ta == 3 && cs[ta] == '\'' && cs[ta + 1] == '/' && cs[ta + 2] == '\'') {
        proof {
            if tb - ta == 1 {
                assert(clean =~= seq!['/']);
            } else if tb - ta == 3 {
                assert(clean =~= seq!['\'', '/', '\'']);
            }
        }
        return (None, None);
    }
    proof {
        if clean == seq!['/'] {
            assert(clean[0] == cs@[ta as int]);
        }
        if clean == seq!['\'', '/', '\''] {
            assert(clean[0] == cs@[ta as int]);
            assert(clean[1] == cs@[ta + 1]);
            assert(clean[2] == cs@[ta + 2]);
        }
    }

    let mut parts: Vec<(usize, usize)> = Vec::new();
    let ghost mut done: Seq<Seq<char>> = Seq::empty();
    let mut start = ta;
    let mut i = ta;
    assert(cs@.subrange(ta as int, ta as int) =~= Seq::<char>::empty());
    assert(split(cs@.subrange(ta as int, ta as int), '/') =~= done.push(cs@.subrange(start as int, i as int)));
    while i < tb
        invariant
            ta <= start <= i <= tb <= cs@.len(),
            split(cs@.subrange(ta as int, i as int), '/') == done.push(cs@.subrange(start as int, i as int)),
            bounds_view(cs@, parts@) == cleaned_parts(done),
            forall|j: int| 0 <= j < parts@.len() ==> (#[trigger] parts@[j]).0 <= parts@[j].1 <= cs@.len(),
        decreases tb - i,
    {
        let ghost sub = cs@.subrange(ta as int, i + 1);
        assert(sub.drop_last() =~= cs@.subrange(ta as int, i as int));
        assert(sub.last() == cs@[i as int]);
        if cs[i] == '/' {
            let (a, b) = clean_bounds(&cs, start, i);
            let ghost before = parts@;
            if a < b {
                parts.push((a, b));
            }
            proof {
                let d2 = done.push(cs@.subrange(start as int, i as int));
                assert(d2.drop_last() =~= done);
                assert(bounds_view(cs@, parts@) =~= cleaned_parts(d2));
                done = d2;
                assert(cs@.subrange(i + 1, i + 1) =~= Seq::<char>::empty());
            }
            start = i + 1;
        } else {
            proof {
                assert(cs@.subrange(start as int, i + 1) =~= cs@.subrange(start as int, i as int).push(cs@[i as int]));
                assert(split(sub, '/') =~= done.push(cs@.subrange(start as int, i + 1)));
            }
        }
        i = i + 1;
    }
    let (a, b) = clean_bounds(&cs, start, tb);
    if a < b {
        parts.push((a, b));
    }
    proof {
        let d2 = done.push(cs@.subrange(start as int, tb as int));
        assert(d2.drop_last() =~= done);
        assert(bounds_view(cs@, parts@) =~= cleaned_parts(d2));
        done = d2;
    }
    let ghost ps = cleaned_parts(split(clean, '/'));
    if parts.len() == 1 {
        let g = string_from_chars(cs.as_slice(), parts[0].0, parts[0].1);
        proof {
            assert(ps[0] == bounds_view(cs@, parts@)[0]);
        }
        (Some(g), None)
    } else if parts.len() >= 2 {
        let g = string_from_chars(cs.as_slice(), parts[0].0, parts[0].1);
        let c = string_from_chars(cs.as_slice(), parts[1].0, parts[1].1);
        proof {
            assert(ps[0] == bounds_view(cs@, parts@)[0]);
            assert(ps[1] == bounds_view(cs@, parts@)[1]);
        }
        (Some(g), Some(c))
    } else {
        (None, None)
    }
}

} // verus!
