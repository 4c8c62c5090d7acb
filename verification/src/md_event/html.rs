//! The comment metadata scanner.
//!
//! A raw-markup chunk opening with the triple-hyphen marker `<!---` is a
//! special comment: an out-of-band metadata channel.  Its body may carry a
//! tag — a colon, a key, a colon, and a value running to the comment's
//! closing delimiter or the end of the chunk — which is recorded into the
//! metadata map.  A special comment may be split by the upstream parser into
//! several consecutive raw-markup chunks; the continuation flag carries the
//! open state across them.  Every chunk belonging to a special comment is
//! suppressed from the output.  Ordinary comments (and any other raw markup)
//! are forwarded untouched and never scanned, so a doubled-colon line such as
//! `::key: value` inside one can never leak into the metadata.

use vstd::prelude::*;

use crate::bytes::{
    ends_with, find_byte, find_byte_from, find_sub, find_sub_from, has_prefix, has_suffix,
    lemma_find_byte_props, ltrim_start, rtrim_end, rtrimmed, starts_with, subvec, trimmed,
};
use crate::md_event::event::{Event, EventView};
use crate::md_event::text::COLON;
use crate::md_event::workarea::{Workarea, WorkareaView};

verus! {

/// The byte value of an ASCII hyphen.
pub const HYPHEN: u8 = 45;

/// The opening marker of a special comment: `<!---`.
pub open spec fn special_open() -> Seq<u8> {
    seq![60u8, 33u8, 45u8, 45u8, 45u8]
}

/// The closing marker of a comment: `-->`.  The doubled form `--->` ends
/// with it, so both closing forms are accepted.
pub open spec fn close_marker() -> Seq<u8> {
    seq![45u8, 45u8, 62u8]
}

/// Whether a chunk opens a special comment.
pub open spec fn opens_special(body: Seq<u8>) -> bool {
    starts_with(body, special_open())
}

/// Whether a chunk closes the comment: only meaningful inside a special
/// comment, where either closing form, up to trailing whitespace, ends it.
pub open spec fn closes_comment(body: Seq<u8>, in_special: bool) -> bool {
    in_special && ends_with(rtrimmed(body), close_marker())
}

/// Index after the leading run of plain spaces starting at `k`.
pub open spec fn skip_spaces(s: Seq<u8>, k: int) -> int
    decreases s.len() - k
        when 0 <= k
{
    if k < s.len() && s[k] == 32 {
        skip_spaces(s, k + 1)
    } else {
        k
    }
}

proof fn lemma_skip_spaces(s: Seq<u8>, k: int)
    requires
        0 <= k <= s.len(),
    ensures
        k <= skip_spaces(s, k) <= s.len(),
    decreases s.len() - k,
{
    if k < s.len() && s[k] == 32 {
        lemma_skip_spaces(s, k + 1);
    }
}

/// The tag carried by a chunk body, if any: the key runs from the first colon
/// to the next one; the value, optionally quoted, runs to the closing marker
/// or the end of the chunk and is trimmed of surrounding whitespace.  A
/// doubled-colon line yields a key that itself starts with a colon, which the
/// recording step rejects.
pub open spec fn tag_of(body: Seq<u8>) -> Option<(Seq<u8>, Seq<u8>)> {
    match find_byte_from(body, COLON, 0) {
        None => None,
        Some(i) => match find_byte_from(body, COLON, i + 2) {
            None => None,
            Some(j) => {
                let key = body.subrange(i + 1, j);
                let k0 = skip_spaces(body, j + 1);
                let quote = if k0 < body.len() && (body[k0] == 34 || body[k0] == 39) {
                    Some(body[k0])
                } else {
                    None
                };
                let vstart = if quote is Some {
                    k0 + 1
                } else {
                    k0
                };
                let vend = match find_sub_from(body, close_marker(), vstart) {
                    Some(t) => if t > vstart && body[t - 1] == HYPHEN {
                        t - 1
                    } else {
                        t
                    },
                    None => body.len() as int,
                };
                let raw = rtrimmed(body.subrange(vstart, vend));
                let unquoted = if quote is Some && raw.len() > 0 && raw.last() == quote->0 {
                    raw.drop_last()
                } else {
                    raw
                };
                let value = trimmed(unquoted);
                if value.len() == 0 {
                    None
                } else {
                    Some((key, value))
                }
            },
        },
    }
}

/// The continuation flag after a chunk: a special comment stays open until a
/// chunk carries a closing marker.
pub open spec fn comment_continues(body: Seq<u8>, prev: bool) -> bool {
    let in_special = opens_special(body) || prev;
    !closes_comment(body, in_special) && in_special
}

/// Whether a chunk is withheld from the output: exactly the chunks belonging
/// to a special comment.
pub open spec fn comment_suppresses(body: Seq<u8>, prev: bool) -> bool {
    let in_special = opens_special(body) || prev;
    opens_special(body) || closes_comment(body, in_special) || comment_continues(body, prev)
}

/// Whether a chunk's tag is recorded: it must carry one, stand in a special
/// comment that the chunk closes or continues, and its key must not begin
/// with the doubled-colon escape.
pub open spec fn comment_records(body: Seq<u8>, prev: bool) -> bool {
    let in_special = opens_special(body) || prev;
    match tag_of(body) {
        Some(kv) => (closes_comment(body, in_special) || comment_continues(body, prev)) && !(
        kv.0.len() > 0 && kv.0[0] == COLON),
        None => false,
    }
}

/// The whole effect of one raw-markup chunk on the pass state: events, the
/// metadata map and the continuation flag.
pub open spec fn html_step(w: WorkareaView, body: Seq<u8>) -> WorkareaView {
    WorkareaView {
        events: if comment_suppresses(body, w.is_comment) {
            w.events
        } else {
            w.events.push(EventView::Html(body))
        },
        meta: if comment_records(body, w.is_comment) {
            w.meta.insert((tag_of(body)->0).0, (tag_of(body)->0).1)
        } else {
            w.meta
        },
        is_comment: comment_continues(body, w.is_comment),
        ..w
    }
}

/// Parses the tag of a chunk body.
fn parse_tag(body: &Vec<u8>) -> (r: Option<(Vec<u8>, Vec<u8>)>)
    ensures
        match r {
            Some(kv) => tag_of(body@) == Some((kv.0@, kv.1@)) && kv.0@.len() > 0,
            None => tag_of(body@) is None,
        },
{
    let i = match find_byte(body, COLON, 0) {
        Some(i) => i,
        None => {
            return None;
        },
    };
    if i + 1 >= body.len() {
        proof {
            assert(find_byte_from(body@, COLON, i + 2) is None);
        }
        return None;
    }
    let j = match find_byte(body, COLON, i + 2) {
        Some(j) => j,
        None => {
            return None;
        },
    };
    let key = subvec(body, i + 1, j);
    let mut k0: usize = j + 1;
    while k0 < body.len() && body[k0] == 32
        invariant
            j + 1 <= k0 <= body.len(),
            skip_spaces(body@, j + 1) == skip_spaces(body@, k0 as int),
        decreases body.len() - k0,
    {
        k0 = k0 + 1;
    }
    assert(skip_spaces(body@, j + 1) == k0);
    let quote: Option<u8> = if k0 < body.len() && (body[k0] == 34 || body[k0] == 39) {
        Some(body[k0])
    } else {
        None
    };
    let vstart: usize = match quote {
        Some(_) => k0 + 1,
        None => k0,
    };
    let close = close_pat();
    let vend: usize = match find_sub(body, &close, vstart) {
        Some(t) => {
            if t > vstart && body[t - 1] == HYPHEN {
                t - 1
            } else {
                t
            }
        },
        None => body.len(),
    };
    assert(vstart <= vend <= body.len());
    let region = subvec(body, vstart, vend);
    let raw_end = rtrim_end(&region);
    let ghost raw = rtrimmed(body@.subrange(vstart as int, vend as int));
    proof {
        assert(raw =~= region@.subrange(0, raw_end as int));
    }
    let unq_end: usize = match quote {
        Some(q) => {
            if raw_end > 0 && region[raw_end - 1] == q {
                raw_end - 1
            } else {
                raw_end
            }
        },
        None => raw_end,
    };
    let ghost unquoted = if quote is Some && raw.len() > 0 && raw.last() == quote->0 {
        raw.drop_last()
    } else {
        raw
    };
    proof {
        assert(unquoted =~= region@.subrange(0, unq_end as int));
    }
    let unq = subvec(&region, 0, unq_end);
    let t_end = rtrim_end(&unq);
    let trimmed_vec = subvec(&unq, 0, t_end);
    let t_start = ltrim_start(&trimmed_vec);
    let value = subvec(&trimmed_vec, t_start, trimmed_vec.len());
    proof {
        assert(rtrimmed(unquoted) =~= trimmed_vec@);
        assert(value@ =~= trimmed(unquoted));
    }
    if value.len() == 0 {
        None
    } else {
        Some((key, value))
    }
}

/// The closing marker as a vector.
fn close_pat() -> (r: Vec<u8>)
    ensures
        r@ == close_marker(),
{
    let mut r: Vec<u8> = Vec::new();
    r.push(45);
    r.push(45);
    r.push(62);
    proof {
        assert(r@ =~= close_marker());
    }
    r
}

/// The opening marker as a vector.
fn open_pat() -> (r: Vec<u8>)
    ensures
        r@ == special_open(),
{
    let mut r: Vec<u8> = Vec::new();
    r.push(60);
    r.push(33);
    r.push(45);
    r.push(45);
    r.push(45);
    proof {
        assert(r@ =~= special_open());
    }
    r
}

/// Handles one raw-markup chunk: updates the continuation flag, records a
/// special comment's tag, and forwards the chunk unless it belongs to a
/// special comment.
pub fn event(workarea: &mut Workarea, content: Vec<u8>)
    ensures
        final(workarea)@ == html_step(old(workarea)@, content@),
{
    let prev = workarea.is_comment;
    let opens = has_prefix(&content, &open_pat());
    let trimmed_len = rtrim_end(&content);
    let head = subvec(&content, 0, trimmed_len);
    let closes_raw = has_suffix(&head, &close_pat());
    proof {
        assert(head@ == rtrimmed(content@));
    }
    let in_special = opens || prev;
    let closes = in_special && closes_raw;
    let cont = !closes && in_special;
    assert(cont == comment_continues(content@, prev));
    workarea.is_comment = cont;
    match parse_tag(&content) {
        Some((key, value)) => {
            if (closes || cont) && !(key[0] == COLON) {
                assert(comment_records(content@, prev));
                workarea.meta.insert(key, value);
            } else {
                assert(!comment_records(content@, prev));
            }
        },
        None => {
            assert(!comment_records(content@, prev));
        },
    }
    if !(opens || closes || cont) {
        assert(!comment_suppresses(content@, prev));
        workarea.push_event(Event::Html(content));
    } else {
        assert(comment_suppresses(content@, prev));
    }
}

/// A special comment split across two consecutive raw-markup chunks still
/// yields exactly one recorded key/value pair, and neither chunk reaches the
/// output: the opening chunk only raises the continuation flag, and the
/// closing chunk records its tag and drops the flag.
pub proof fn lemma_split_special_comment(w: WorkareaView, b1: Seq<u8>, b2: Seq<u8>)
    requires
        !w.is_comment,
        opens_special(b1),
        !ends_with(rtrimmed(b1), close_marker()),
        tag_of(b1) is None,
        ends_with(rtrimmed(b2), close_marker()),
        tag_of(b2) is Some,
        !((tag_of(b2)->0).0.len() > 0 && (tag_of(b2)->0).0[0] == COLON),
    ensures
        ({
            let w2 = html_step(html_step(w, b1), b2);
            w2.events == w.events && w2.meta == w.meta.insert(
                (tag_of(b2)->0).0,
                (tag_of(b2)->0).1,
            ) && !w2.is_comment
        }),
{
}

/// A line whose first colon is doubled is never recorded as metadata, inside
/// any comment: its parsed key begins with the extra colon, which the
/// recording step rejects.
pub proof fn lemma_doubled_colon_never_recorded(w: WorkareaView, body: Seq<u8>)
    requires
        ({
            let first = find_byte_from(body, COLON, 0);
            first is Some && first->0 + 1 < body.len() && body[first->0 + 1] == COLON
        }),
    ensures
        html_step(w, body).meta == w.meta,
{
    let i = find_byte_from(body, COLON, 0)->0;
    lemma_find_byte_props(body, COLON, 0);
    match find_byte_from(body, COLON, i + 2) {
        None => {},
        Some(j) => {
            lemma_find_byte_props(body, COLON, i + 2);
            assert((tag_of(body) is Some) ==> (tag_of(body)->0).0 == body.subrange(i + 1, j));
            assert(body.subrange(i + 1, j).len() > 0);
            assert(body.subrange(i + 1, j)[0] == COLON);
        },
    }
}

} // verus!
