//! Closing a code block: rendering the accumulated body as highlighted
//! markup.
//!
//! The fence's language tag is resolved through a fixed alias table to one of
//! the grammar names bundled with the highlighter; an unrecognized or absent
//! tag resolves to the plain text grammar, so resolution never fails.  The
//! whole accumulated body is rendered in one step and replaces the original
//! text events: the output carries exactly one raw-markup event followed by
//! the structural end event, keeping the document's nesting balanced.  A
//! failure of the rendering step itself is fatal for the current document.

use vstd::prelude::*;

use crate::bytes::concat_all;
use crate::md_event::event::{Event, EventView, Tag, TagView, opt_bytes_view};
use crate::md_event::workarea::{Workarea, WorkareaView};
use crate::settings::settings::Settings;

verus! {

/// The error of a failed rendering step: fatal for the current document.
#[derive(Debug, PartialEq, Eq)]
pub struct HighlightError;

/// The fence info string naming Rust.
pub open spec fn lang_rust() -> Seq<u8> {
    seq![114u8, 117u8, 115u8, 116u8]
}

/// The fence info string naming Python.
pub open spec fn lang_python() -> Seq<u8> {
    seq![112u8, 121u8, 116u8, 104u8, 111u8, 110u8]
}

/// The fence info string naming C++.
pub open spec fn lang_cpp() -> Seq<u8> {
    seq![99u8, 112u8, 112u8]
}

/// The grammar name a fence tag resolves to; unrecognized or absent tags
/// fall back to the plain text grammar, so resolution is total.
pub open spec fn resolved_lang(lang: Option<Seq<u8>>) -> Seq<char> {
    match lang {
        Some(l) => if l == lang_rust() {
            "Rust"@
        } else if l == lang_python() {
            "Python"@
        } else if l == lang_cpp() {
            "C++"@
        } else {
            "Plain Text"@
        },
        None => "Plain Text"@,
    }
}

/// The markup the bundled highlighter renders for a code body under a
/// grammar name and a theme name, when it renders at all.  The grammar and
/// theme tables are compiled into the highlighter, so the result is a
/// function of these three values alone.
pub uninterp spec fn rendered_markup(code: Seq<u8>, syntax: Seq<char>, theme: Seq<char>) -> Option<
    Seq<u8>,
>;

/// Relies on syntect: `SyntaxSet::load_defaults_newlines` and
/// `ThemeSet::load_defaults` decompress tables compiled into the crate,
/// `SyntaxSet::find_syntax_by_name` and the `themes` map look the two names
/// up in them, and `highlighted_html_for_string` renders the code under what
/// was found.  Every step is a function of the three arguments alone; the
/// composition is named `rendered_markup`.  `None` stands for any failure:
/// code that is not UTF-8, a grammar or theme name absent from the bundled
/// tables, or a rendering error.
#[verifier::external_body]
fn render_highlighted(code: &Vec<u8>, syntax_name: &str, theme_name: &str) -> (r: Option<Vec<u8>>)
    ensures
        match r {
            Some(h) => rendered_markup(code@, syntax_name@, theme_name@) == Some(h@),
            None => rendered_markup(code@, syntax_name@, theme_name@) is None,
        },
{
    let text = std::str::from_utf8(code).ok()?;
    let ps = syntect::parsing::SyntaxSet::load_defaults_newlines();
    let ts = syntect::highlighting::ThemeSet::load_defaults();
    let syntax = ps.find_syntax_by_name(syntax_name)?;
    let theme = ts.themes.get(theme_name)?;
    syntect::html::highlighted_html_for_string(text, &ps, syntax, theme).ok().map(
        |h| h.into_bytes(),
    )
}

/// Resolves a fence tag to a bundled grammar name.
pub fn lang_name(lang: &Option<Vec<u8>>) -> (r: &'static str)
    ensures
        r@ == resolved_lang(opt_bytes_view(*lang)),
{
    match lang {
        None => "Plain Text",
        Some(l) => {
            if l.len() == 4 && l[0] == 114 && l[1] == 117 && l[2] == 115 && l[3] == 116 {
                proof {
                    assert(l@ =~= lang_rust());
                }
                "Rust"
            } else if l.len() == 6 && l[0] == 112 && l[1] == 121 && l[2] == 116 && l[3] == 104
                && l[4] == 111 && l[5] == 110 {
                proof {
                    assert(l@ =~= lang_python());
                }
                "Python"
            } else if l.len() == 3 && l[0] == 99 && l[1] == 112 && l[2] == 112 {
                proof {
                    assert(l@ =~= lang_cpp());
                }
                "C++"
            } else {
                "Plain Text"
            }
        },
    }
}

/// The effect of closing a code block when rendering succeeds: the
/// accumulated body is dropped, and the rendered markup plus the structural
/// end event are appended.
pub open spec fn code_end_step(
    w: WorkareaView,
    lang: Option<Seq<u8>>,
    theme: Seq<char>,
) -> Option<WorkareaView> {
    match rendered_markup(concat_all(w.contents), resolved_lang(lang), theme) {
        Some(h) => Some(
            WorkareaView {
                events: w.events.push(EventView::Html(h)).push(
                    EventView::End(TagView::CodeBlock { lang }),
                ),
                contents: Seq::empty(),
                ..w
            },
        ),
        None => None,
    }
}

/// Closes a code block: renders the accumulated body under the configured
/// theme, replaces it with one raw-markup event followed by the end event,
/// and clears the accumulator whether or not rendering succeeded.
pub fn event_code(workarea: &mut Workarea, settings: &Settings, lang: Option<Vec<u8>>) -> (r:
    Result<(), HighlightError>)
    ensures
        match r {
            Ok(_) => code_end_step(
                old(workarea)@,
                opt_bytes_view(lang),
                settings.code.highlight.theme@,
            ) == Some(final(workarea)@),
            Err(_) => code_end_step(
                old(workarea)@,
                opt_bytes_view(lang),
                settings.code.highlight.theme@,
            ) is None && final(workarea)@ == (WorkareaView {
                contents: Seq::empty(),
                ..old(workarea)@
            }),
        },
{
    let code = crate::bytes::concat_bytes(&workarea.contents);
    let name = lang_name(&lang);
    let rendered = render_highlighted(&code, name, settings.code.highlight.theme.as_str());
    workarea.clear_content();
    match rendered {
        Some(h) => {
            workarea.push_event(Event::Html(h));
            workarea.push_event(Event::End(Tag::CodeBlock { lang }));
            Ok(())
        },
        None => Err(HighlightError),
    }
}

} // verus!
