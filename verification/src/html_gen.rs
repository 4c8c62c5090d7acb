//! The dispatcher: one forward pass over a document's event stream.
//!
//! Each event is routed by its kind and the current state: code block
//! boundaries reset the fragment flags and select the accumulator, text is
//! accumulated or emoji-substituted, raw markup goes through the comment
//! metadata scanner, image references may be rewritten, and everything else
//! passes through untouched.  The pass yields the transformed stream and the
//! metadata map, or fails for the whole document when a code block's
//! rendering step fails.

use vstd::prelude::*;

use crate::md_event::end;
use crate::md_event::end::{HighlightError, code_end_step};
use crate::md_event::event::{Event, EventView, Tag, TagView, dup_opt_bytes, event_views, opt_bytes_view};
use crate::md_event::html;
use crate::md_event::html::html_step;
use crate::md_event::start;
use crate::md_event::start::image_step;
use crate::md_event::text;
use crate::md_event::text::text_step;
use crate::md_event::workarea::{MetaMap, Workarea, WorkareaView};
use crate::settings::settings::Settings;

verus! {

/// The state a pass starts from.
pub open spec fn empty_workarea() -> WorkareaView {
    WorkareaView {
        events: Seq::empty(),
        contents: Seq::empty(),
        meta: Map::empty(),
        is_comment: false,
        is_code: false,
        is_html: false,
    }
}

/// The views of a sequence of optional image payloads.
pub open spec fn opt_views(s: Seq<Option<Vec<u8>>>) -> Seq<Option<Seq<u8>>> {
    s.map_values(|l: Option<Vec<u8>>| opt_bytes_view(l))
}

/// The effect of one event on the pass state; `None` is a fatal rendering
/// failure.
pub open spec fn step(
    w: WorkareaView,
    ev: EventView,
    img: Option<Seq<u8>>,
    theme: Seq<char>,
    use_base64: bool,
) -> Option<WorkareaView> {
    match ev {
        EventView::Start(tag) => match tag {
            TagView::CodeBlock { lang } => Some(
                WorkareaView {
                    events: w.events.push(EventView::Start(TagView::CodeBlock { lang })),
                    is_comment: false,
                    is_code: true,
                    is_html: false,
                    ..w
                },
            ),
            TagView::Image { link, src, title } => Some(
                image_step(w, link, src, title, img, use_base64),
            ),
            TagView::Other(t) => Some(
                WorkareaView {
                    events: w.events.push(EventView::Start(TagView::Other(t))),
                    ..w
                },
            ),
        },
        EventView::End(tag) => match tag {
            TagView::CodeBlock { lang } => {
                let entered = WorkareaView {
                    is_comment: false,
                    is_code: true,
                    is_html: false,
                    ..w
                };
                match code_end_step(entered, lang, theme) {
                    Some(w2) => Some(WorkareaView { is_code: false, ..w2 }),
                    None => None,
                }
            },
            t => Some(WorkareaView { events: w.events.push(EventView::End(t)), ..w }),
        },
        EventView::Text(s) => Some(text_step(w, s)),
        EventView::Html(s) => Some(
            html_step(WorkareaView { is_code: false, is_html: true, ..w }, s),
        ),
        EventView::Other(t) => Some(
            WorkareaView { events: w.events.push(EventView::Other(t)), ..w },
        ),
    }
}

/// The pass over a whole event sequence, event by event.
pub open spec fn run(
    w: WorkareaView,
    evs: Seq<EventView>,
    imgs: Seq<Option<Seq<u8>>>,
    theme: Seq<char>,
    use_base64: bool,
) -> Option<WorkareaView>
    decreases evs.len(),
{
    if evs.len() == 0 {
        Some(w)
    } else {
        match step(w, evs[0], imgs[0], theme, use_base64) {
            Some(w2) => run(w2, evs.drop_first(), imgs.drop_first(), theme, use_base64),
            None => None,
        }
    }
}

/// Routes one event to its handler.  `image_data` carries the bytes of the
/// referenced image file for an image start event, when the caller read
/// them; every other event ignores it.
pub fn handle_event(
    workarea: &mut Workarea,
    settings: &Settings,
    ev: Event,
    image_data: Option<Vec<u8>>,
) -> (r: Result<(), HighlightError>)
    ensures
        match r {
            Ok(_) => step(
                old(workarea)@,
                ev@,
                opt_bytes_view(image_data),
                settings.code.highlight.theme@,
                settings.output.image.use_base64,
            ) == Some(final(workarea)@),
            Err(_) => step(
                old(workarea)@,
                ev@,
                opt_bytes_view(image_data),
                settings.code.highlight.theme@,
                settings.output.image.use_base64,
            ) is None,
        },
{
    match ev {
        Event::Start(tag) => match tag {
            Tag::CodeBlock { lang } => {
                workarea.break_frags();
                workarea.is_code = true;
                start::event_code(workarea, lang);
                Ok(())
            },
            Tag::Image { link, src, title } => {
                start::event_image(workarea, settings, link, src, title, image_data);
                Ok(())
            },
            Tag::Other(t) => {
                workarea.push_event(Event::Start(Tag::Other(t)));
                Ok(())
            },
        },
        Event::End(tag) => match tag {
            Tag::CodeBlock { lang } => {
                workarea.break_frags();
                workarea.is_code = true;
                let res = end::event_code(workarea, settings, lang);
                workarea.is_code = false;
                match res {
                    Ok(_) => Ok(()),
                    Err(e) => Err(e),
                }
            },
            t => {
                workarea.push_event(Event::End(t));
                Ok(())
            },
        },
        Event::Text(s) => {
            text::event(workarea, s);
            Ok(())
        },
        Event::Html(s) => {
            let prev = workarea.is_comment;
            workarea.break_frags();
            workarea.is_html = true;
            workarea.is_comment = prev;
            html::event(workarea, s);
            Ok(())
        },
        Event::Other(t) => {
            workarea.push_event(Event::Other(t));
            Ok(())
        },
    }
}

/// Runs the whole pass: consumes the events in order, once each, and yields
/// the transformed stream and the metadata map.  `images` pairs every event
/// with the bytes of its image file, where the caller chose to read them;
/// pass `None` everywhere when images are copied rather than inlined.
pub fn setup_parser(
    events: &Vec<Event>,
    images: &Vec<Option<Vec<u8>>>,
    settings: &Settings,
) -> (r: Result<(Vec<Event>, MetaMap), HighlightError>)
    requires
        events@.len() == images@.len(),
    ensures
        ({
            let outcome = run(
                empty_workarea(),
                event_views(events@),
                opt_views(images@),
                settings.code.highlight.theme@,
                settings.output.image.use_base64,
            );
            match r {
                Ok(out) => outcome is Some && event_views(out.0@) == (outcome->0).events && out.1@
                    == (outcome->0).meta,
                Err(_) => outcome is None,
            }
        }),
{
    let ghost evs = event_views(events@);
    let ghost imgs = opt_views(images@);
    let ghost theme = settings.code.highlight.theme@;
    let ghost b64 = settings.output.image.use_base64;
    let mut workarea = Workarea::new();
    proof {
        assert(workarea@ =~= empty_workarea());
        assert(evs.subrange(0, evs.len() as int) =~= evs);
        assert(imgs.subrange(0, imgs.len() as int) =~= imgs);
    }
    let mut i: usize = 0;
    while i < events.len()
        invariant
            i <= events@.len() == images@.len(),
            evs == event_views(events@),
            imgs == opt_views(images@),
            theme == settings.code.highlight.theme@,
            b64 == settings.output.image.use_base64,
            run(empty_workarea(), evs, imgs, theme, b64) == run(
                workarea@,
                evs.subrange(i as int, evs.len() as int),
                imgs.subrange(i as int, imgs.len() as int),
                theme,
                b64,
            ),
        decreases events@.len() - i,
    {
        let ghost w_before = workarea@;
        let ev = events[i].dup();
        let img = dup_opt_bytes(&images[i]);
        proof {
            assert(evs.subrange(i as int, evs.len() as int)[0] == evs[i as int]);
            assert(evs[i as int] == ev@);
            assert(imgs.subrange(i as int, imgs.len() as int)[0] == imgs[i as int]);
            assert(imgs[i as int] == opt_bytes_view(img));
            assert(evs.subrange(i as int, evs.len() as int).drop_first() =~= evs.subrange(
                i + 1,
                evs.len() as int,
            ));
            assert(imgs.subrange(i as int, imgs.len() as int).drop_first() =~= imgs.subrange(
                i + 1,
                imgs.len() as int,
            ));
        }
        match handle_event(&mut workarea, settings, ev, img) {
            Ok(_) => {},
            Err(e) => {
                proof {
                    assert(run(
                        w_before,
                        evs.subrange(i as int, evs.len() as int),
                        imgs.subrange(i as int, imgs.len() as int),
                        theme,
                        b64,
                    ) is None);
                }
                return Err(e);
            },
        }
        i = i + 1;
    }
    proof {
        assert(evs.subrange(i as int, evs.len() as int).len() == 0);
    }
    let Workarea { events: out_events, meta, .. } = workarea;
    Ok((out_events, meta))
}

} // verus!
