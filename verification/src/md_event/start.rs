//! Opening events: code block starts and image references.

use vstd::prelude::*;

use crate::md_event::event::{Event, EventView, Tag, TagView, opt_bytes_view};
use crate::md_event::workarea::{Workarea, WorkareaView};
use crate::settings::settings::Settings;

verus! {

/// Forwards a code block start event unchanged.
pub fn event_code(workarea: &mut Workarea, lang: Option<Vec<u8>>)
    ensures
        final(workarea)@ == (WorkareaView {
            events: old(workarea)@.events.push(
                EventView::Start(TagView::CodeBlock { lang: opt_bytes_view(lang) }),
            ),
            ..old(workarea)@
        }),
{
    workarea.push_event(Event::Start(Tag::CodeBlock { lang }));
}

/// The prefix of an inline image source: `data:image/png;base64,`.
pub open spec fn data_uri_prefix() -> Seq<u8> {
    seq![
        100u8, 97u8, 116u8, 97u8, 58u8, 105u8, 109u8, 97u8, 103u8, 101u8, 47u8, 112u8, 110u8,
        103u8, 59u8, 98u8, 97u8, 115u8, 101u8, 54u8, 52u8, 44u8,
    ]
}

/// The base64 encoding (standard alphabet, padded) of a byte string.
pub uninterp spec fn base64_of(data: Seq<u8>) -> Seq<u8>;

/// Relies on `base64::encode`: the standard-alphabet, padded encoding of the
/// input, a function of the bytes alone; it is named `base64_of`.
#[verifier::external_body]
fn encode_base64(data: &Vec<u8>) -> (r: Vec<u8>)
    ensures
        r@ == base64_of(data@),
{
    base64::encode(data).into_bytes()
}

/// The image source an image reference is rewritten to: a self-contained
/// data URI built from the image file's bytes.
pub open spec fn data_uri(bytes: Seq<u8>) -> Seq<u8> {
    data_uri_prefix() + base64_of(bytes)
}

/// The effect of an image start event: in base64 mode, when the image file's
/// bytes are at hand, the reference is rewritten into a data URI; otherwise
/// the event is forwarded unchanged.
pub open spec fn image_step(
    w: WorkareaView,
    link: u64,
    src: Seq<u8>,
    title: Seq<u8>,
    data: Option<Seq<u8>>,
    use_base64: bool,
) -> WorkareaView {
    let src2 = if use_base64 && data is Some {
        data_uri(data->0)
    } else {
        src
    };
    WorkareaView {
        events: w.events.push(EventView::Start(TagView::Image { link, src: src2, title })),
        ..w
    }
}

/// The data URI prefix as a vector.
fn data_uri_prefix_pat() -> (r: Vec<u8>)
    ensures
        r@ == data_uri_prefix(),
{
    let mut r: Vec<u8> = Vec::new();
    r.push(100);
    r.push(97);
    r.push(116);
    r.push(97);
    r.push(58);
    r.push(105);
    r.push(109);
    r.push(97);
    r.push(103);
    r.push(101);
    r.push(47);
    r.push(112);
    r.push(110);
    r.push(103);
    r.push(59);
    r.push(98);
    r.push(97);
    r.push(115);
    r.push(101);
    r.push(54);
    r.push(52);
    r.push(44);
    proof {
        assert(r@ =~= data_uri_prefix());
    }
    r
}

/// Handles an image start event.  Reading the image file is the caller's
/// concern: `data` carries its bytes when inlining is on and the read
/// succeeded, and a failed read degrades to forwarding the reference
/// unchanged.
pub fn event_image(
    workarea: &mut Workarea,
    settings: &Settings,
    link: u64,
    src: Vec<u8>,
    title: Vec<u8>,
    data: Option<Vec<u8>>,
)
    ensures
        final(workarea)@ == image_step(
            old(workarea)@,
            link,
            src@,
            title@,
            opt_bytes_view(data),
            settings.output.image.use_base64,
        ),
{
    if settings.output.image.use_base64 {
        match data {
            Some(bytes) => {
                let mut uri = data_uri_prefix_pat();
                let mut encoded = encode_base64(&bytes);
                uri.append(&mut encoded);
                workarea.push_event(Event::Start(Tag::Image { link, src: uri, title }));
            },
            None => {
                workarea.push_event(Event::Start(Tag::Image { link, src, title }));
            },
        }
    } else {
        workarea.push_event(Event::Start(Tag::Image { link, src, title }));
    }
}

} // verus!
