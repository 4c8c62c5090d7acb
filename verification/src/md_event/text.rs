//! Emoji shortcode substitution in plain text runs.
//!
//! A shortcode is a colon, one or more ASCII alphanumerics, and a closing
//! colon, e.g. `:rocket:`.  The text is scanned left to right; after each hit
//! the cursor restarts two bytes before the end of the hit, so candidates that
//! share a colon with the previous hit (`:::rocket:::`) are found as well.
//! The recorded byte ranges are then rewritten from the highest start offset
//! down to the lowest, so splicing a glyph in never shifts a range that is
//! still waiting; a range is skipped when its name is not in the emoji table,
//! or when it overlaps a range that was already rewritten.  All offsets are
//! raw byte positions, which keeps the splices exact next to multi-byte
//! characters.

use vstd::prelude::*;

use crate::md_event::event::{Event, EventView};
use crate::md_event::workarea::{Workarea, WorkareaView};

verus! {

/// The byte value of an ASCII colon.
pub const COLON: u8 = 58;

/// Bytes allowed inside a shortcode name: ASCII alphanumerics.
pub open spec fn is_shortcode_byte(b: u8) -> bool {
    (48 <= b && b <= 57) || (65 <= b && b <= 90) || (97 <= b && b <= 122)
}

fn shortcode_byte(b: u8) -> (r: bool)
    ensures
        r == is_shortcode_byte(b),
{
    (48 <= b && b <= 57) || (65 <= b && b <= 90) || (97 <= b && b <= 122)
}

/// First index at or after `k` whose byte is not a shortcode name byte.
pub open spec fn alnum_run_end(s: Seq<u8>, k: int) -> int
    decreases s.len() - k
        when 0 <= k <= s.len()
{
    if k < s.len() && is_shortcode_byte(s[k]) {
        alnum_run_end(s, k + 1)
    } else {
        k
    }
}

proof fn lemma_alnum_run_end(s: Seq<u8>, k: int)
    requires
        0 <= k <= s.len(),
    ensures
        k <= alnum_run_end(s, k) <= s.len(),
        forall|m: int| k <= m < alnum_run_end(s, k) ==> is_shortcode_byte(s[m]),
    decreases s.len() - k,
{
    if k < s.len() && is_shortcode_byte(s[k]) {
        lemma_alnum_run_end(s, k + 1);
    }
}

/// Index of the closing colon of a shortcode starting at `i`, if any.
pub open spec fn match_end_at(s: Seq<u8>, i: int) -> Option<int>
    recommends
        0 <= i < s.len(),
{
    if s[i] == COLON {
        let j = alnum_run_end(s, i + 1);
        if j > i + 1 && j < s.len() && s[j] == COLON {
            Some(j)
        } else {
            None
        }
    } else {
        None
    }
}

/// Leftmost shortcode match starting at or after `pos`, as a half-open byte
/// range.
pub open spec fn find_match_from(s: Seq<u8>, pos: int) -> Option<(int, int)>
    decreases s.len() - pos
        when 0 <= pos
{
    if pos >= s.len() {
        None
    } else {
        match match_end_at(s, pos) {
            Some(j) => Some((pos, j + 1)),
            None => find_match_from(s, pos + 1),
        }
    }
}

pub proof fn lemma_find_match_props(s: Seq<u8>, pos: int)
    requires
        0 <= pos,
    ensures
        match find_match_from(s, pos) {
            Some(r) => pos <= r.0 && r.0 + 3 <= r.1 <= s.len() && s[r.0] == COLON && s[r.1 - 1]
                == COLON && (forall|k: int| r.0 < k < r.1 - 1 ==> is_shortcode_byte(s[k])),
            None => true,
        },
    decreases s.len() - pos,
{
    if pos < s.len() {
        match match_end_at(s, pos) {
            Some(j) => {
                lemma_alnum_run_end(s, pos + 1);
            },
            None => {
                lemma_find_match_props(s, pos + 1);
            },
        }
    }
}

/// All candidate ranges, in discovery order: after each hit the search cursor
/// restarts two bytes before the hit's end.
pub open spec fn scan_from(s: Seq<u8>, pos: int) -> Seq<(int, int)>
    decreases s.len() - pos
        when 0 <= pos
        via scan_from_dec
{
    match find_match_from(s, pos) {
        None => Seq::empty(),
        Some(r) => seq![r] + scan_from(s, r.1 - 2),
    }
}

#[via_fn]
proof fn scan_from_dec(s: Seq<u8>, pos: int) {
    lemma_find_match_props(s, pos);
}

pub proof fn lemma_scan_props(s: Seq<u8>, pos: int)
    requires
        0 <= pos,
    ensures
        forall|k: int|
            0 <= k < scan_from(s, pos).len() ==> {
                let r = #[trigger] scan_from(s, pos)[k];
                pos <= r.0 && r.0 + 3 <= r.1 <= s.len()
            },
    decreases s.len() - pos,
{
    lemma_find_match_props(s, pos);
    match find_match_from(s, pos) {
        None => {},
        Some(r) => {
            lemma_scan_props(s, r.1 - 2);
            assert forall|k: int| 0 <= k < scan_from(s, pos).len() implies {
                let q = #[trigger] scan_from(s, pos)[k];
                pos <= q.0 && q.0 + 3 <= q.1 <= s.len()
            } by {
                if k > 0 {
                    assert(scan_from(s, pos)[k] == scan_from(s, r.1 - 2)[k - 1]);
                }
            }
        },
    }
}

/// The shortcode name inside a candidate range, without its colons.
pub open spec fn range_name(s: Seq<u8>, r: (int, int)) -> Seq<u8> {
    s.subrange(r.0 + 1, r.1 - 1)
}

/// The emoji glyph, as UTF-8 bytes, that the embedded shortcode table maps a
/// name to, if any.
pub uninterp spec fn emoji_glyph(name: Seq<u8>) -> Option<Seq<u8>>;

/// Relies on `emojis::get_by_shortcode`: the lookup reads a table compiled
/// into that crate, so the result is a function of the name alone; that
/// function is named `emoji_glyph`.  A name that is not valid UTF-8 has no
/// entry.
#[verifier::external_body]
fn lookup_emoji(name: &Vec<u8>) -> (r: Option<Vec<u8>>)
    ensures
        match r {
            Some(g) => emoji_glyph(name@) == Some(g@),
            None => emoji_glyph(name@) is None,
        },
{
    std::str::from_utf8(name)
        .ok()
        .and_then(|s| emojis::get_by_shortcode(s))
        .map(|e| e.as_str().as_bytes().to_vec())
}

/// State after rewriting the ranges `ranges[k..]`, processed from the last
/// (highest start offset) to the first: the rewritten string, and the lowest
/// start offset rewritten so far (`s.len()` when none is).  A range is
/// rewritten when its name has a glyph and it does not reach into an already
/// rewritten range.
pub open spec fn sub_from(s: Seq<u8>, ranges: Seq<(int, int)>, k: int) -> (Seq<u8>, int)
    decreases ranges.len() - k
        when 0 <= k <= ranges.len()
{
    if k >= ranges.len() {
        (s, s.len() as int)
    } else {
        let tb = sub_from(s, ranges, k + 1);
        let r = ranges[k];
        let g = emoji_glyph(range_name(s, r));
        if g is Some && 0 <= r.0 && r.0 + 2 <= r.1 && r.1 <= tb.1 {
            (tb.0.subrange(0, r.0) + g->0 + tb.0.subrange(r.1, tb.0.len() as int), r.0)
        } else {
            tb
        }
    }
}

/// The bound tracked by `sub_from` never exceeds the current string's length,
/// and the string agrees with `s` below the bound.
proof fn lemma_sub_from_frame(s: Seq<u8>, ranges: Seq<(int, int)>, k: int)
    requires
        0 <= k <= ranges.len(),
    ensures
        0 <= sub_from(s, ranges, k).1 <= sub_from(s, ranges, k).0.len(),
        sub_from(s, ranges, k).1 <= s.len(),
        forall|m: int|
            0 <= m < sub_from(s, ranges, k).1 ==> sub_from(s, ranges, k).0[m] == s[m],
    decreases ranges.len() - k,
{
    if k < ranges.len() {
        lemma_sub_from_frame(s, ranges, k + 1);
    }
}

/// The full substitution: scan, then rewrite in reverse discovery order.
pub open spec fn emoji_substituted(s: Seq<u8>) -> Seq<u8> {
    sub_from(s, scan_from(s, 0), 0).0
}

fn find_match(s: &Vec<u8>, pos: usize) -> (r: Option<(usize, usize)>)
    ensures
        match r {
            Some(p) => find_match_from(s@, pos as int) == Some((p.0 as int, p.1 as int)) && pos
                <= p.0 && p.0 + 3 <= p.1 <= s.len(),
            None => find_match_from(s@, pos as int) is None,
        },
{
    let mut i: usize = pos;
    while i < s.len()
        invariant
            pos <= i,
            find_match_from(s@, pos as int) == find_match_from(s@, i as int),
        decreases s.len() - i,
    {
        if s[i] == COLON {
            let mut j: usize = i + 1;
            while j < s.len() && shortcode_byte(s[j])
                invariant
                    i + 1 <= j <= s.len(),
                    alnum_run_end(s@, i + 1) == alnum_run_end(s@, j as int),
                decreases s.len() - j,
            {
                j = j + 1;
            }
            assert(alnum_run_end(s@, i + 1) == j);
            if j > i + 1 && j < s.len() && s[j] == COLON {
                proof {
                    lemma_find_match_props(s@, pos as int);
                }
                return Some((i, j + 1));
            }
            assert(match_end_at(s@, i as int) is None);
        }
        i = i + 1;
    }
    None
}

/// The candidate ranges of `s`, in discovery order.
spec fn ranges_view(v: Seq<(usize, usize)>) -> Seq<(int, int)> {
    v.map_values(|p: (usize, usize)| (p.0 as int, p.1 as int))
}

fn scan_shortcodes(s: &Vec<u8>) -> (rs: Vec<(usize, usize)>)
    ensures
        ranges_view(rs@) == scan_from(s@, 0),
{
    let mut rs: Vec<(usize, usize)> = Vec::new();
    let mut pos: usize = 0;
    proof {
        assert(ranges_view(rs@) =~= Seq::<(int, int)>::empty());
    }
    loop
        invariant
            pos <= s.len() + 1,
            scan_from(s@, 0) == ranges_view(rs@) + scan_from(s@, pos as int),
        ensures
            scan_from(s@, 0) == ranges_view(rs@),
        decreases s@.len() + 2 - pos,
    {
        match find_match(s, pos) {
            None => {
                proof {
                    assert(scan_from(s@, pos as int) =~= Seq::<(int, int)>::empty());
                    assert(ranges_view(rs@) + Seq::<(int, int)>::empty() =~= ranges_view(rs@));
                }
                break ;
            },
            Some((i, e)) => {
                proof {
                    let old_rs = rs@;
                    assert(scan_from(s@, pos as int) == seq![(i as int, e as int)] + scan_from(
                        s@,
                        e - 2,
                    ));
                    assert(ranges_view(old_rs.push((i, e))) =~= ranges_view(old_rs).push(
                        (i as int, e as int),
                    ));
                    assert(ranges_view(old_rs).push((i as int, e as int)) + scan_from(s@, e - 2)
                        =~= ranges_view(old_rs) + (seq![(i as int, e as int)] + scan_from(
                        s@,
                        e - 2,
                    )));
                }
                rs.push((i, e));
                pos = e - 2;
            },
        }
    }
    rs
}

fn splice(t: &Vec<u8>, i: usize, e: usize, g: &Vec<u8>) -> (r: Vec<u8>)
    requires
        i <= e <= t.len(),
    ensures
        r@ == t@.subrange(0, i as int) + g@ + t@.subrange(e as int, t@.len() as int),
{
    let mut r: Vec<u8> = Vec::new();
    let mut k: usize = 0;
    while k < i
        invariant
            k <= i <= t.len(),
            r@ =~= t@.subrange(0, k as int),
        decreases i - k,
    {
        r.push(t[k]);
        proof {
            assert(r@ =~= t@.subrange(0, k + 1));
        }
        k = k + 1;
    }
    let mut k2: usize = 0;
    while k2 < g.len()
        invariant
            k2 <= g.len(),
            i <= t.len(),
            r@ =~= t@.subrange(0, i as int) + g@.subrange(0, k2 as int),
        decreases g.len() - k2,
    {
        r.push(g[k2]);
        proof {
            assert(r@ =~= t@.subrange(0, i as int) + g@.subrange(0, k2 + 1));
        }
        k2 = k2 + 1;
    }
    proof {
        assert(g@.subrange(0, g@.len() as int) =~= g@);
    }
    let mut k3: usize = e;
    while k3 < t.len()
        invariant
            e <= k3 <= t.len(),
            i <= e,
            r@ =~= t@.subrange(0, i as int) + g@ + t@.subrange(e as int, k3 as int),
        decreases t.len() - k3,
    {
        r.push(t[k3]);
        proof {
            assert(r@ =~= t@.subrange(0, i as int) + g@ + t@.subrange(e as int, k3 + 1));
        }
        k3 = k3 + 1;
    }
    r
}

/// Rewrites every known emoji shortcode of `content` into its glyph.
pub fn replace_emoji_shortcode(content: &Vec<u8>) -> (r: Vec<u8>)
    ensures
        r@ == emoji_substituted(content@),
{
    let ranges = scan_shortcodes(content);
    proof {
        lemma_scan_props(content@, 0);
    }
    let mut result: Vec<u8> = crate::bytes::subvec(content, 0, content.len());
    proof {
        assert(content@.subrange(0, content@.len() as int) =~= content@);
    }
    let mut bound: usize = content.len();
    let mut k: usize = ranges.len();
    while k > 0
        invariant
            k <= ranges.len(),
            ranges_view(ranges@) == scan_from(content@, 0),
            bound <= result.len(),
            (result@, bound as int) == sub_from(content@, scan_from(content@, 0), k as int),
        decreases k,
    {
        k = k - 1;
        let (i, e) = ranges[k];
        proof {
            assert(ranges_view(ranges@)[k as int] == (i as int, e as int));
            lemma_scan_props(content@, 0);
            assert(scan_from(content@, 0)[k as int] == (i as int, e as int));
            assert(i + 3 <= e <= content@.len());
            lemma_sub_from_frame(content@, scan_from(content@, 0), k + 1);
        }
        let name = crate::bytes::subvec(content, i + 1, e - 1);
        assert(name@ == range_name(content@, (i as int, e as int)));
        match lookup_emoji(&name) {
            Some(g) => {
                if e <= bound {
                    result = splice(&result, i, e, &g);
                    bound = i;
                } else {
                    proof {
                        assert((result@, bound as int) == sub_from(
                            content@,
                            scan_from(content@, 0),
                            k as int,
                        ));
                    }
                }
            },
            None => {},
        }
    }
    result
}

/// The effect of a plain text event: inside a code block the text joins the
/// raw-text accumulator and nothing is emitted; outside one, the text is
/// emitted with its emoji shortcodes substituted.
pub open spec fn text_step(w: WorkareaView, content: Seq<u8>) -> WorkareaView {
    if w.is_code {
        WorkareaView { contents: w.contents.push(content), ..w }
    } else {
        WorkareaView {
            events: w.events.push(EventView::Text(emoji_substituted(content))),
            ..w
        }
    }
}

/// Handles a plain text event.
pub fn event(workarea: &mut Workarea, content: Vec<u8>)
    ensures
        final(workarea)@ == text_step(old(workarea)@, content@),
{
    if workarea.is_code {
        workarea.push_content(content);
    } else {
        let result = replace_emoji_shortcode(&content);
        workarea.push_event(Event::Text(result));
    }
}

/// When no candidate of `s` names a known emoji, substitution leaves `s`
/// untouched; in particular an unknown shortcode passes through as literal
/// text.
pub proof fn lemma_unknown_shortcodes_unchanged(s: Seq<u8>)
    requires
        forall|k: int|
            0 <= k < scan_from(s, 0).len() ==> emoji_glyph(
                range_name(s, #[trigger] scan_from(s, 0)[k]),
            ) is None,
    ensures
        emoji_substituted(s) == s,
{
    lemma_sub_all_none(s, scan_from(s, 0), 0);
}

proof fn lemma_sub_all_none(s: Seq<u8>, ranges: Seq<(int, int)>, k: int)
    requires
        0 <= k <= ranges.len(),
        forall|m: int|
            k <= m < ranges.len() ==> emoji_glyph(range_name(s, #[trigger] ranges[m])) is None,
    ensures
        sub_from(s, ranges, k) == (s, s.len() as int),
    decreases ranges.len() - k,
{
    if k < ranges.len() {
        lemma_sub_all_none(s, ranges, k + 1);
    }
}

/// A shortcode match of `s` as a half-open byte range: an opening colon, a
/// non-empty run of name bytes, and a closing colon.
pub open spec fn is_match(s: Seq<u8>, p: int, q: int) -> bool {
    &&& 0 <= p
    &&& p + 3 <= q <= s.len()
    &&& s[p] == COLON
    &&& s[q - 1] == COLON
    &&& forall|x: int| p < x < q - 1 ==> is_shortcode_byte(s[x])
}

proof fn lemma_alnum_run_end_exact(s: Seq<u8>, a: int, c: int)
    requires
        0 <= a <= c <= s.len(),
        forall|x: int| a <= x < c ==> is_shortcode_byte(s[x]),
        c < s.len() ==> !is_shortcode_byte(s[c]),
    ensures
        alnum_run_end(s, a) == c,
    decreases c - a,
{
    if a < c {
        lemma_alnum_run_end_exact(s, a + 1, c);
    }
}

/// A match is exactly what `match_end_at` reports, so each start has at most
/// one match.
proof fn lemma_match_end_iff(s: Seq<u8>, p: int, q: int)
    requires
        is_match(s, p, q),
    ensures
        match_end_at(s, p) == Some(q - 1),
{
    lemma_alnum_run_end_exact(s, p + 1, q - 1);
}

proof fn lemma_find_match_none(s: Seq<u8>, pos: int)
    requires
        0 <= pos,
        find_match_from(s, pos) is None,
    ensures
        forall|p: int| pos <= p < s.len() ==> #[trigger] match_end_at(s, p) is None,
    decreases s.len() - pos,
{
    if pos < s.len() {
        lemma_find_match_none(s, pos + 1);
    }
}

proof fn lemma_find_match_first(s: Seq<u8>, pos: int)
    requires
        0 <= pos,
        find_match_from(s, pos) is Some,
    ensures
        forall|p: int|
            pos <= p < (find_match_from(s, pos)->0).0 ==> #[trigger] match_end_at(s, p) is None,
    decreases s.len() - pos,
{
    if pos < s.len() && match_end_at(s, pos) is None {
        lemma_find_match_first(s, pos + 1);
    }
}

/// Every range the scan records is a match.
proof fn lemma_scan_matches(s: Seq<u8>, pos: int)
    requires
        0 <= pos,
    ensures
        forall|k: int|
            0 <= k < scan_from(s, pos).len() ==> is_match(
                s,
                (#[trigger] scan_from(s, pos)[k]).0,
                scan_from(s, pos)[k].1,
            ),
    decreases s.len() - pos,
{
    lemma_find_match_props(s, pos);
    match find_match_from(s, pos) {
        None => {},
        Some(r) => {
            lemma_scan_matches(s, r.1 - 2);
            assert forall|k: int| 0 <= k < scan_from(s, pos).len() implies is_match(
                s,
                (#[trigger] scan_from(s, pos)[k]).0,
                scan_from(s, pos)[k].1,
            ) by {
                if k > 0 {
                    assert(scan_from(s, pos)[k] == scan_from(s, r.1 - 2)[k - 1]);
                }
            }
        },
    }
}

/// The recorded starts strictly increase in discovery order.
proof fn lemma_scan_sorted(s: Seq<u8>, pos: int)
    requires
        0 <= pos,
    ensures
        forall|a: int, b: int|
            0 <= a < b < scan_from(s, pos).len() ==> (#[trigger] scan_from(s, pos)[a]).0 < (
            #[trigger] scan_from(s, pos)[b]).0,
    decreases s.len() - pos,
{
    lemma_find_match_props(s, pos);
    match find_match_from(s, pos) {
        None => {},
        Some(r) => {
            lemma_scan_sorted(s, r.1 - 2);
            lemma_scan_props(s, r.1 - 2);
            assert forall|a: int, b: int|
                0 <= a < b < scan_from(s, pos).len() implies (#[trigger] scan_from(s, pos)[a]).0
                < (#[trigger] scan_from(s, pos)[b]).0 by {
                if a > 0 {
                    assert(scan_from(s, pos)[a] == scan_from(s, r.1 - 2)[a - 1]);
                }
                assert(scan_from(s, pos)[b] == scan_from(s, r.1 - 2)[b - 1]);
            }
        },
    }
}

/// Every match whose start the cursor has not passed is recorded: the cursor
/// restarts early enough that no candidate is skipped.
proof fn lemma_scan_complete(s: Seq<u8>, pos: int)
    requires
        0 <= pos,
    ensures
        forall|p: int, q: int|
            pos <= p && #[trigger] is_match(s, p, q) ==> scan_from(s, pos).contains((p, q)),
    decreases s.len() - pos,
{
    lemma_find_match_props(s, pos);
    match find_match_from(s, pos) {
        None => {
            assert forall|p: int, q: int|
                pos <= p && #[trigger] is_match(s, p, q) implies scan_from(s, pos).contains(
                (p, q),
            ) by {
                lemma_find_match_none(s, pos);
                lemma_match_end_iff(s, p, q);
            }
        },
        Some(r) => {
            let i = r.0;
            let e = r.1;
            lemma_scan_complete(s, e - 2);
            assert forall|p: int, q: int|
                pos <= p && #[trigger] is_match(s, p, q) implies scan_from(s, pos).contains(
                (p, q),
            ) by {
                lemma_match_end_iff(s, p, q);
                if p < i {
                    lemma_find_match_first(s, pos);
                    assert(false);
                } else if p == i {
                    assert(match_end_at(s, i) == Some(e - 1));
                    assert((p, q) == (i, e));
                    assert(scan_from(s, pos)[0] == (i, e));
                } else if p < e - 2 {
                    // an interior byte of the recorded match cannot open one
                    assert(is_shortcode_byte(s[p]));
                    assert(s[p] == COLON);
                    assert(false);
                } else {
                    assert(scan_from(s, e - 2).contains((p, q)));
                    let k = choose|k: int|
                        0 <= k < scan_from(s, e - 2).len() && #[trigger] scan_from(s, e - 2)[k]
                            == (p, q);
                    assert(scan_from(s, pos)[k + 1] == (p, q));
                }
            }
        },
    }
}

/// What makes the glyph table safe to splice: a glyph is non-empty, never
/// contains a colon, and ends in a byte that is not a shortcode name byte
/// (its last character is never ASCII), so no glyph can take part in a
/// shortcode match.
pub open spec fn glyph_ok(g: Seq<u8>) -> bool {
    &&& g.len() > 0
    &&& forall|x: int| 0 <= x < g.len() ==> g[x] != COLON
    &&& !is_shortcode_byte(g[g.len() - 1])
}

/// Every glyph of the table is safe to splice.
pub open spec fn glyph_table_ok() -> bool {
    forall|n: Seq<u8>| #[trigger] emoji_glyph(n) is Some ==> glyph_ok(emoji_glyph(n)->0)
}

/// The invariant of the rewriting fold: once the ranges past `k` are done,
/// every range that survives whole below the bound had no glyph, and every
/// match reaching at or above the bound has none either.
proof fn lemma_sub_from_safe(s: Seq<u8>, ranges: Seq<(int, int)>, k: int)
    requires
        0 <= k <= ranges.len(),
        glyph_table_ok(),
        forall|m: int|
            0 <= m < ranges.len() ==> is_match(s, (#[trigger] ranges[m]).0, ranges[m].1),
        forall|a: int, b: int|
            0 <= a < b < ranges.len() ==> (#[trigger] ranges[a]).0 < (#[trigger] ranges[b]).0,
        forall|p: int, q: int| #[trigger] is_match(s, p, q) ==> ranges.contains((p, q)),
    ensures
        forall|m: int|
            k <= m < ranges.len() && (#[trigger] ranges[m]).1 <= sub_from(s, ranges, k).1
                ==> emoji_glyph(range_name(s, ranges[m])) is None,
        forall|p: int, q: int|
            #[trigger] is_match(sub_from(s, ranges, k).0, p, q) && q > sub_from(s, ranges, k).1
                ==> emoji_glyph(sub_from(s, ranges, k).0.subrange(p + 1, q - 1)) is None,
    decreases ranges.len() - k,
{
    if k == ranges.len() {
        return ;
    }
    lemma_sub_from_safe(s, ranges, k + 1);
    lemma_sub_from_frame(s, ranges, k + 1);
    let tp = sub_from(s, ranges, k + 1).0;
    let bp = sub_from(s, ranges, k + 1).1;
    let r = ranges[k];
    let i = r.0;
    let e = r.1;
    let g = emoji_glyph(range_name(s, r));
    assert(is_match(s, i, e));
    if !(g is Some && 0 <= i && i + 2 <= e && e <= bp) {
        assert(sub_from(s, ranges, k) == sub_from(s, ranges, k + 1));
        return ;
    }
    let gl = g->0;
    let glen = gl.len() as int;
    assert(glyph_ok(gl));
    let t = sub_from(s, ranges, k).0;
    assert(t == tp.subrange(0, i) + gl + tp.subrange(e, tp.len() as int));
    assert(sub_from(s, ranges, k).1 == i);
    assert(t.len() == i + glen + (tp.len() - e));
    assert forall|y: int| 0 <= y < i implies t[y] == tp[y] by {}
    assert forall|y: int| i <= y < i + glen implies t[y] == gl[y - i] by {}
    assert forall|y: int| i + glen <= y < t.len() implies t[y] == tp[y - glen - i + e] by {}
    // ranges surviving whole below the new bound had no glyph
    assert forall|m: int|
        k <= m < ranges.len() && (#[trigger] ranges[m]).1 <= i implies emoji_glyph(
        range_name(s, ranges[m]),
    ) is None by {
        if m == k {
            assert(ranges[k].1 == e);
            assert(e > i);
            assert(false);
        } else {
            assert(ranges[m].1 <= bp);
        }
    }
    // matches reaching at or above the new bound have no glyph
    assert forall|p: int, q: int|
        #[trigger] is_match(t, p, q) && q > i implies emoji_glyph(
        t.subrange(p + 1, q - 1),
    ) is None by {
        let last = i + glen - 1;
        // the closing colon cannot be a glyph byte: glyphs hold no colon
        assert(q - 1 >= i);
        assert(!(i <= q - 1 < i + glen)) by {
            if i <= q - 1 < i + glen {
                if q - 1 == last {
                    assert(t[last] == gl[glen - 1]);
                    assert(gl[glen - 1] != COLON);
                } else {
                    assert(t[q - 1] == gl[q - 1 - i]);
                    assert(gl[q - 1 - i] != COLON);
                }
                assert(false);
            }
        }
        assert(q - 1 >= i + glen);
        // nor can the glyph's closing byte stand anywhere else in the match
        assert(p >= i + glen) by {
            if p < i + glen {
                assert(p <= last && i <= last && last <= q - 2);
                assert(t[last] == gl[glen - 1]);
                if last == p {
                    assert(gl[glen - 1] != COLON);
                } else {
                    assert(is_shortcode_byte(t[last]));
                    assert(!is_shortcode_byte(gl[glen - 1]));
                }
                assert(false);
            }
        }
        let off = e - i - glen;
        let p2 = p + off;
        let q2 = q + off;
        assert forall|x: int| p <= x < q implies #[trigger] t[x] == tp[x + off] by {
            assert(x >= i + glen);
        }
        assert(t[p] == tp[p2]);
        assert(t[q - 1] == tp[q2 - 1]);
        assert forall|x2: int| p2 < x2 < q2 - 1 implies is_shortcode_byte(#[trigger] tp[x2]) by {
            assert(t[x2 - off] == tp[x2]);
            assert(is_shortcode_byte(t[x2 - off]));
        }
        assert(q2 <= tp.len());
        assert(is_match(tp, p2, q2));
        assert(t.subrange(p + 1, q - 1) =~= tp.subrange(p2 + 1, q2 - 1));
        if q2 > bp {
            assert(emoji_glyph(tp.subrange(p2 + 1, q2 - 1)) is None);
        } else {
            // the match lies in a stretch still agreeing with the source
            assert forall|x: int| p2 <= x < q2 implies #[trigger] tp[x] == s[x] by {
                assert(x < bp);
            }
            assert(is_match(s, p2, q2));
            assert(ranges.contains((p2, q2)));
            let m = choose|m: int|
                0 <= m < ranges.len() && #[trigger] ranges[m] == (p2, q2);
            assert(p2 >= e);
            assert(ranges[m].0 == p2 > i);
            assert(m > k) by {
                if m < k {
                    assert(ranges[m].0 < ranges[k].0);
                    assert(false);
                } else if m == k {
                    assert(ranges[m].0 == i);
                    assert(false);
                }
            }
            assert(ranges[m].1 == q2 <= bp);
            assert(emoji_glyph(range_name(s, ranges[m])) is None);
            assert(range_name(s, ranges[m]) =~= tp.subrange(p2 + 1, q2 - 1));
        }
    }
}

/// Re-running emoji substitution on already-substituted output is a no-op:
/// spliced glyphs never take part in a shortcode match, and every surviving
/// shortcode already failed its lookup.  The premise states the glyph table
/// fact the splicing argument rests on: glyphs never match the shortcode
/// token pattern.
pub proof fn lemma_substitution_idempotent(s: Seq<u8>)
    requires
        glyph_table_ok(),
    ensures
        emoji_substituted(emoji_substituted(s)) == emoji_substituted(s),
{
    let ranges = scan_from(s, 0);
    lemma_scan_matches(s, 0);
    lemma_scan_sorted(s, 0);
    lemma_scan_complete(s, 0);
    assert forall|p: int, q: int| #[trigger] is_match(s, p, q) implies ranges.contains(
        (p, q),
    ) by {}
    lemma_sub_from_safe(s, ranges, 0);
    lemma_sub_from_frame(s, ranges, 0);
    let t = sub_from(s, ranges, 0).0;
    let b = sub_from(s, ranges, 0).1;
    assert(t == emoji_substituted(s));
    let ranges2 = scan_from(t, 0);
    lemma_scan_matches(t, 0);
    assert forall|m: int|
        0 <= m < ranges2.len() implies emoji_glyph(
        range_name(t, #[trigger] ranges2[m]),
    ) is None by {
        let p = ranges2[m].0;
        let q = ranges2[m].1;
        assert(is_match(t, p, q));
        if q > b {
            assert(emoji_glyph(t.subrange(p + 1, q - 1)) is None);
        } else {
            assert forall|x: int| p <= x < q implies #[trigger] t[x] == s[x] by {
                assert(x < b);
            }
            assert(is_match(s, p, q));
            assert(ranges.contains((p, q)));
            let mm = choose|mm: int|
                0 <= mm < ranges.len() && #[trigger] ranges[mm] == (p, q);
            assert(ranges[mm].1 == q <= b);
            assert(emoji_glyph(range_name(s, ranges[mm])) is None);
            assert(range_name(s, ranges[mm]) =~= t.subrange(p + 1, q - 1));
        }
        assert(range_name(t, ranges2[m]) == t.subrange(p + 1, q - 1));
    }
    lemma_unknown_shortcodes_unchanged(t);
}

} // verus!
