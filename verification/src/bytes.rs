//! Small helpers over UTF-8 byte strings.
//!
//! All text handled by the pipeline is kept as raw UTF-8 bytes, so that every
//! offset computed here is an exact byte position in the original string.  The
//! delimiters the pipeline cares about (colons, hyphens, quotes, whitespace)
//! are ASCII, and ASCII bytes never occur inside a multi-byte UTF-8 sequence,
//! so scanning bytes is faithful even around multi-byte characters.

use vstd::prelude::*;

verus! {

/// ASCII whitespace as trimmed around comment delimiters and tag values.
pub open spec fn is_ws(b: u8) -> bool {
    b == 32 || b == 9 || b == 10 || b == 13
}

pub fn ws(b: u8) -> (r: bool)
    ensures
        r == is_ws(b),
{
    b == 32 || b == 9 || b == 10 || b == 13
}

pub open spec fn starts_with(s: Seq<u8>, p: Seq<u8>) -> bool {
    p.len() <= s.len() && (forall|i: int| 0 <= i < p.len() ==> s[i] == p[i])
}

pub open spec fn ends_with(s: Seq<u8>, p: Seq<u8>) -> bool {
    p.len() <= s.len() && (forall|i: int|
        0 <= i < p.len() ==> s[s.len() - p.len() + i] == p[i])
}

/// Length of `s` once trailing ASCII whitespace is removed.
pub open spec fn rtrim_len(s: Seq<u8>) -> int
    decreases s.len(),
{
    if s.len() > 0 && is_ws(s[s.len() - 1]) {
        rtrim_len(s.drop_last())
    } else {
        s.len() as int
    }
}

/// `s` with trailing ASCII whitespace removed.
pub open spec fn rtrimmed(s: Seq<u8>) -> Seq<u8> {
    s.subrange(0, rtrim_len(s))
}

/// Number of leading ASCII whitespace bytes of `s`.
pub open spec fn ltrim_len(s: Seq<u8>) -> int
    decreases s.len(),
{
    if s.len() > 0 && is_ws(s[0]) {
        1 + ltrim_len(s.subrange(1, s.len() as int))
    } else {
        0
    }
}

pub proof fn lemma_ltrim_len_bounds(s: Seq<u8>)
    ensures
        0 <= ltrim_len(s) <= s.len(),
    decreases s.len(),
{
    if s.len() > 0 && is_ws(s[0]) {
        lemma_ltrim_len_bounds(s.subrange(1, s.len() as int));
    }
}

/// `s` with surrounding ASCII whitespace removed.
pub open spec fn trimmed(s: Seq<u8>) -> Seq<u8> {
    let r = rtrimmed(s);
    r.subrange(ltrim_len(r), r.len() as int)
}

/// Index after the trailing-whitespace cut of `s`.
pub fn rtrim_end(s: &Vec<u8>) -> (r: usize)
    ensures
        r == rtrim_len(s@),
        r <= s.len(),
{
    proof {
        assert(s@.subrange(0, s@.len() as int) =~= s@);
    }
    let mut e: usize = s.len();
    while e > 0 && ws(s[e - 1])
        invariant
            e <= s.len(),
            rtrim_len(s@) == rtrim_len(s@.subrange(0, e as int)),
        decreases e,
    {
        proof {
            assert(s@.subrange(0, e as int).drop_last() =~= s@.subrange(0, e - 1));
        }
        e = e - 1;
    }
    proof {
        assert(s@.subrange(0, e as int).len() == e);
        if e > 0 {
            assert(s@.subrange(0, e as int)[e - 1] == s@[e - 1]);
        }
        assert(rtrim_len(s@.subrange(0, e as int)) == e);
    }
    e
}

/// Number of leading ASCII whitespace bytes of `s`.
pub fn ltrim_start(s: &Vec<u8>) -> (r: usize)
    ensures
        r == ltrim_len(s@),
        r <= s.len(),
{
    proof {
        lemma_ltrim_len_bounds(s@);
        assert(s@.subrange(0, s@.len() as int) =~= s@);
    }
    let mut i: usize = 0;
    while i < s.len() && ws(s[i])
        invariant
            i <= s.len(),
            ltrim_len(s@) == i + ltrim_len(s@.subrange(i as int, s@.len() as int)),
            ltrim_len(s@) <= s@.len(),
        decreases s.len() - i,
    {
        proof {
            let t = s@.subrange(i as int, s@.len() as int);
            assert(t[0] == s@[i as int]);
            assert(t.subrange(1, t.len() as int) =~= s@.subrange(i + 1, s@.len() as int));
        }
        i = i + 1;
    }
    proof {
        let t = s@.subrange(i as int, s@.len() as int);
        if i < s.len() {
            assert(t[0] == s@[i as int]);
        }
        assert(ltrim_len(t) == 0);
    }
    i
}

/// Whether `p` is a prefix of `s`.
pub fn has_prefix(s: &Vec<u8>, p: &Vec<u8>) -> (r: bool)
    ensures
        r == starts_with(s@, p@),
{
    if p.len() > s.len() {
        return false;
    }
    let mut i: usize = 0;
    while i < p.len()
        invariant
            i <= p.len() <= s.len(),
            forall|k: int| 0 <= k < i ==> s@[k] == p@[k],
        decreases p.len() - i,
    {
        if s[i] != p[i] {
            return false;
        }
        i = i + 1;
    }
    true
}

/// Whether `p` is a suffix of `s`.
pub fn has_suffix(s: &Vec<u8>, p: &Vec<u8>) -> (r: bool)
    ensures
        r == ends_with(s@, p@),
{
    if p.len() > s.len() {
        return false;
    }
    let off: usize = s.len() - p.len();
    let mut i: usize = 0;
    while i < p.len()
        invariant
            i <= p.len() <= s.len(),
            off == s.len() - p.len(),
            forall|k: int| 0 <= k < i ==> s@[off + k] == p@[k],
        decreases p.len() - i,
    {
        if s[off + i] != p[i] {
            return false;
        }
        i = i + 1;
    }
    true
}

/// First index at or after `from` holding byte `b`.
pub open spec fn find_byte_from(s: Seq<u8>, b: u8, from: int) -> Option<int>
    decreases s.len() - from
        when 0 <= from

{
    if from >= s.len() {
        None
    } else if s[from] == b {
        Some(from)
    } else {
        find_byte_from(s, b, from + 1)
    }
}

pub proof fn lemma_find_byte_props(s: Seq<u8>, b: u8, from: int)
    requires
        0 <= from,
    ensures
        match find_byte_from(s, b, from) {
            Some(i) => from <= i < s.len() && s[i] == b,
            None => true,
        },
    decreases s.len() - from,
{
    if from < s.len() && s[from] != b {
        lemma_find_byte_props(s, b, from + 1);
    }
}

pub fn find_byte(s: &Vec<u8>, b: u8, from: usize) -> (r: Option<usize>)
    ensures
        match r {
            Some(i) => Some(i as int) == find_byte_from(s@, b, from as int) && from <= i
                < s.len() && s@[i as int] == b,
            None => find_byte_from(s@, b, from as int) is None,
        },
{
    let mut i: usize = from;
    while i < s.len()
        invariant
            from <= i,
            find_byte_from(s@, b, from as int) == find_byte_from(s@, b, i as int),
        decreases s.len() - i,
    {
        if s[i] == b {
            return Some(i);
        }
        i = i + 1;
    }
    None
}

/// Whether `p` occurs in `s` starting at index `i`.
pub open spec fn matches_at(s: Seq<u8>, p: Seq<u8>, i: int) -> bool {
    0 <= i && i + p.len() <= s.len() && (forall|k: int| 0 <= k < p.len() ==> s[i + k] == p[k])
}

/// First index at or after `from` where `p` occurs in `s`.
pub open spec fn find_sub_from(s: Seq<u8>, p: Seq<u8>, from: int) -> Option<int>
    decreases s.len() - from
        when 0 <= from

{
    if from + p.len() > s.len() {
        None
    } else if matches_at(s, p, from) {
        Some(from)
    } else {
        find_sub_from(s, p, from + 1)
    }
}

fn matches_here(s: &Vec<u8>, p: &Vec<u8>, i: usize) -> (r: bool)
    requires
        i + p.len() <= s.len(),
    ensures
        r == matches_at(s@, p@, i as int),
{
    let mut k: usize = 0;
    while k < p.len()
        invariant
            k <= p.len(),
            i + p.len() <= s.len(),
            forall|m: int| 0 <= m < k ==> s@[i + m] == p@[m],
        decreases p.len() - k,
    {
        if s[i + k] != p[k] {
            return false;
        }
        k = k + 1;
    }
    true
}

pub fn find_sub(s: &Vec<u8>, p: &Vec<u8>, from: usize) -> (r: Option<usize>)
    ensures
        match r {
            Some(i) => Some(i as int) == find_sub_from(s@, p@, from as int) && from <= i
                && matches_at(s@, p@, i as int),
            None => find_sub_from(s@, p@, from as int) is None,
        },
{
    let mut i: usize = from;
    while p.len() <= s.len() && i <= s.len() - p.len()
        invariant
            from <= i,
            find_sub_from(s@, p@, from as int) == find_sub_from(s@, p@, i as int),
        decreases s.len() + 1 - i,
    {
        if matches_here(s, p, i) {
            return Some(i);
        }
        i = i + 1;
    }
    None
}

/// Copy of `s[from..to]` as a fresh vector.
pub fn subvec(s: &Vec<u8>, from: usize, to: usize) -> (r: Vec<u8>)
    requires
        from <= to <= s.len(),
    ensures
        r@ == s@.subrange(from as int, to as int),
{
    let mut r: Vec<u8> = Vec::new();
    let mut i: usize = from;
    while i < to
        invariant
            from <= i <= to <= s.len(),
            r@ =~= s@.subrange(from as int, i as int),
        decreases to - i,
    {
        r.push(s[i]);
        proof {
            assert(r@ =~= s@.subrange(from as int, i + 1));
        }
        i = i + 1;
    }
    proof {
        assert(r@ =~= s@.subrange(from as int, to as int));
    }
    r
}

/// Concatenation, in order, of a sequence of byte strings.
pub open spec fn concat_all(s: Seq<Seq<u8>>) -> Seq<u8>
    decreases s.len(),
{
    if s.len() == 0 {
        Seq::empty()
    } else {
        s[0] + concat_all(s.subrange(1, s.len() as int))
    }
}

pub proof fn lemma_concat_all_push(s: Seq<Seq<u8>>, x: Seq<u8>)
    ensures
        concat_all(s.push(x)) == concat_all(s) + x,
    decreases s.len(),
{
    if s.len() == 0 {
        assert(s.push(x)[0] == x);
        assert(s.push(x).subrange(1, s.push(x).len() as int) =~= Seq::<Seq<u8>>::empty());
        assert(concat_all(Seq::<Seq<u8>>::empty()) == Seq::<u8>::empty());
        assert(concat_all(s.push(x)) == x + Seq::<u8>::empty());
        assert(x + Seq::<u8>::empty() =~= Seq::<u8>::empty() + x);
    } else {
        let t = s.subrange(1, s.len() as int);
        assert(s.push(x).subrange(1, s.push(x).len() as int) =~= t.push(x));
        lemma_concat_all_push(t, x);
        assert(s.push(x)[0] == s[0]);
        assert(concat_all(s.push(x)) == s[0] + (concat_all(t) + x));
        assert(s[0] + (concat_all(t) + x) =~= (s[0] + concat_all(t)) + x);
    }
}

/// The views of a sequence of byte vectors.
pub open spec fn views_of(s: Seq<Vec<u8>>) -> Seq<Seq<u8>> {
    s.map_values(|v: Vec<u8>| v@)
}

/// Joins the accumulated chunks into one byte string.
pub fn concat_bytes(cs: &Vec<Vec<u8>>) -> (r: Vec<u8>)
    ensures
        r@ == concat_all(views_of(cs@)),
{
    let mut r: Vec<u8> = Vec::new();
    let mut i: usize = 0;
    while i < cs.len()
        invariant
            i <= cs.len(),
            r@ == concat_all(views_of(cs@.subrange(0, i as int))),
        decreases cs.len() - i,
    {
        let mut k: usize = 0;
        let chunk_len = cs[i].len();
        while k < chunk_len
            invariant
                i < cs.len(),
                k <= chunk_len == cs@[i as int]@.len(),
                r@ == concat_all(views_of(cs@.subrange(0, i as int))) + cs@[i as int]@.subrange(
                    0,
                    k as int,
                ),
            decreases chunk_len - k,
        {
            r.push(cs[i][k]);
            proof {
                assert(cs@[i as int]@.subrange(0, k as int).push(cs@[i as int]@[k as int])
                    =~= cs@[i as int]@.subrange(0, k + 1));
            }
            k = k + 1;
        }
        proof {
            assert(cs@[i as int]@.subrange(0, chunk_len as int) =~= cs@[i as int]@);
            assert(views_of(cs@.subrange(0, i + 1)) =~= views_of(cs@.subrange(0, i as int)).push(
                cs@[i as int]@,
            ));
            lemma_concat_all_push(views_of(cs@.subrange(0, i as int)), cs@[i as int]@);
        }
        i = i + 1;
    }
    proof {
        assert(cs@.subrange(0, cs@.len() as int) =~= cs@);
    }
    r
}

} // verus!
