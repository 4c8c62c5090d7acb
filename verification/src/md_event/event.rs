//! The event vocabulary of the pipeline.
//!
//! The pass consumes and produces a stream of these events.  Text payloads
//! are raw UTF-8 bytes.  Structural kinds the pass does not interpret are
//! carried as an opaque token chosen by the producer of the stream, so a
//! driver can pair every forwarded event back up with whatever richer value
//! the token stands for.

use vstd::prelude::*;

verus! {

/// A structural tag opening or closing a block or inline element.
#[derive(Debug, Clone, PartialEq, Eq)]
pub enum Tag {
    /// A code block; `lang` is the fence's info string, `None` for an
    /// indented block.
    CodeBlock { lang: Option<Vec<u8>> },
    /// An image reference; `link` is an opaque token for the link kind.
    Image { link: u64, src: Vec<u8>, title: Vec<u8> },
    /// Any other structural kind, carried through untouched.
    Other(u64),
}

/// One parsed markdown event.
#[derive(Debug, Clone, PartialEq, Eq)]
pub enum Event {
    Start(Tag),
    End(Tag),
    /// A plain text run.
    Text(Vec<u8>),
    /// A raw markup (HTML) chunk.
    Html(Vec<u8>),
    /// Any other event kind, carried through untouched.
    Other(u64),
}

/// The mathematical shape of a `Tag`.
pub enum TagView {
    CodeBlock { lang: Option<Seq<u8>> },
    Image { link: u64, src: Seq<u8>, title: Seq<u8> },
    Other(u64),
}

/// The mathematical shape of an `Event`.
pub enum EventView {
    Start(TagView),
    End(TagView),
    Text(Seq<u8>),
    Html(Seq<u8>),
    Other(u64),
}

impl View for Tag {
    type V = TagView;

    open spec fn view(&self) -> TagView {
        match self {
            Tag::CodeBlock { lang } => TagView::CodeBlock {
                lang: match lang {
                    Some(l) => Some(l@),
                    None => None,
                },
            },
            Tag::Image { link, src, title } => TagView::Image {
                link: *link,
                src: src@,
                title: title@,
            },
            Tag::Other(t) => TagView::Other(*t),
        }
    }
}

impl View for Event {
    type V = EventView;

    open spec fn view(&self) -> EventView {
        match self {
            Event::Start(t) => EventView::Start(t@),
            Event::End(t) => EventView::End(t@),
            Event::Text(s) => EventView::Text(s@),
            Event::Html(s) => EventView::Html(s@),
            Event::Other(t) => EventView::Other(*t),
        }
    }
}

/// The view of an optional byte payload.
pub open spec fn opt_bytes_view(l: Option<Vec<u8>>) -> Option<Seq<u8>> {
    match l {
        Some(v) => Some(v@),
        None => None,
    }
}

/// Copies a byte payload.
fn dup_bytes(v: &Vec<u8>) -> (r: Vec<u8>)
    ensures
        r@ == v@,
{
    let r = crate::bytes::subvec(v, 0, v.len());
    proof {
        assert(v@.subrange(0, v@.len() as int) =~= v@);
    }
    r
}

/// Copies an optional byte payload.
pub fn dup_opt_bytes(v: &Option<Vec<u8>>) -> (r: Option<Vec<u8>>)
    ensures
        opt_bytes_view(r) == opt_bytes_view(*v),
{
    match v {
        Some(b) => Some(dup_bytes(b)),
        None => None,
    }
}

impl Tag {
    /// Copies the tag.
    pub fn dup(&self) -> (r: Tag)
        ensures
            r@ == self@,
    {
        match self {
            Tag::CodeBlock { lang } => Tag::CodeBlock { lang: dup_opt_bytes(lang) },
            Tag::Image { link, src, title } => Tag::Image {
                link: *link,
                src: dup_bytes(src),
                title: dup_bytes(title),
            },
            Tag::Other(t) => Tag::Other(*t),
        }
    }
}

impl Event {
    /// Copies the event.
    pub fn dup(&self) -> (r: Event)
        ensures
            r@ == self@,
    {
        match self {
            Event::Start(t) => Event::Start(t.dup()),
            Event::End(t) => Event::End(t.dup()),
            Event::Text(s) => Event::Text(dup_bytes(s)),
            Event::Html(s) => Event::Html(dup_bytes(s)),
            Event::Other(t) => Event::Other(*t),
        }
    }
}

/// The views of a sequence of events.
pub open spec fn event_views(s: Seq<Event>) -> Seq<EventView> {
    s.map_values(|e: Event| e@)
}

} // verus!
