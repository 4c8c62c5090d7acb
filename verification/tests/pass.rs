//! Dispatcher behaviour on hand-built event streams: comment suppression and
//! continuation, the doubled-colon escape, passthrough of opaque events, and
//! image rewriting.

use mtoh::html_gen::setup_parser;
use mtoh::md_event::event::{Event, Tag};
use mtoh::settings::output::Output;
use mtoh::settings::output_settings::image::OutputImage;
use mtoh::settings::settings::Settings;

fn run_pass(events: Vec<Event>) -> (Vec<Event>, Vec<(Vec<u8>, Vec<u8>)>) {
    let settings = Settings::new(None, None, None);
    let images = vec![None; events.len()];
    let (out, meta) = setup_parser(&events, &images, &settings).unwrap();
    (out, meta.entries)
}

fn html(s: &str) -> Event {
    Event::Html(s.as_bytes().to_vec())
}

#[test]
fn test_standard_comment_forwarded_and_not_recorded() {
    let (out, meta) = run_pass(vec![html("<!-- :test: data -->\n")]);
    assert!(meta.is_empty());
    assert_eq!(out, vec![html("<!-- :test: data -->\n")]);
}

#[test]
fn test_special_comment_recorded_and_suppressed() {
    let (out, meta) = run_pass(vec![html("<!--- :author: name --->\n")]);
    assert_eq!(meta, vec![(b"author".to_vec(), b"name".to_vec())]);
    assert!(out.is_empty());
}

#[test]
fn test_special_comment_standard_close_accepted() {
    let (out, meta) = run_pass(vec![html("<!--- :author: name -->\n")]);
    assert_eq!(meta, vec![(b"author".to_vec(), b"name".to_vec())]);
    assert!(out.is_empty());
}

#[test]
fn test_split_special_comment_one_pair_no_output() {
    let (out, meta) = run_pass(vec![
        html("<!---\n"),
        html("    :memo: split value --->\n"),
        html("<!-- tail -->\n"),
    ]);
    assert_eq!(meta, vec![(b"memo".to_vec(), b"split value".to_vec())]);
    assert_eq!(out, vec![html("<!-- tail -->\n")]);
}

#[test]
fn test_doubled_colon_line_never_recorded() {
    let (out, meta) = run_pass(vec![
        html("<!---\n"),
        html("    ::ignored: test\n"),
        html("--->\n"),
    ]);
    assert!(meta.is_empty());
    assert!(out.is_empty());
}

#[test]
fn test_duplicate_key_last_write_wins() {
    let (_, meta) = run_pass(vec![
        html("<!--- :key: first --->\n"),
        html("<!--- :key: second --->\n"),
    ]);
    let last = meta.iter().rev().find(|(k, _)| k == b"key").unwrap();
    assert_eq!(last.1, b"second".to_vec());
}

#[test]
fn test_quoted_value_unwrapped() {
    let (_, meta) = run_pass(vec![html("<!--- :title: \"a quoted value\" --->\n")]);
    assert_eq!(meta, vec![(b"title".to_vec(), b"a quoted value".to_vec())]);
}

#[test]
fn test_opaque_events_pass_through_in_order() {
    let events = vec![
        Event::Other(7),
        Event::Start(Tag::Other(1)),
        Event::Text(b"plain".to_vec()),
        Event::End(Tag::Other(1)),
    ];
    let (out, meta) = run_pass(events.clone());
    assert!(meta.is_empty());
    assert_eq!(out, events);
}

#[test]
fn test_image_copy_mode_forwards_reference() {
    let ev = Event::Start(Tag::Image {
        link: 0,
        src: b"img/a.png".to_vec(),
        title: b"t".to_vec(),
    });
    let (out, _) = run_pass(vec![ev.clone()]);
    assert_eq!(out, vec![ev]);
}

#[test]
fn test_image_base64_mode_inlines_bytes() {
    let mut output = Output::new(None, None, None, None);
    output.image = OutputImage::new(Some(true));
    let settings = Settings::new(None, Some(output), None);
    let events = vec![Event::Start(Tag::Image {
        link: 0,
        src: b"img/a.png".to_vec(),
        title: b"t".to_vec(),
    })];
    let images = vec![Some(vec![1u8, 2, 3])];
    let (out, _) = setup_parser(&events, &images, &settings).unwrap();
    match &out[0] {
        Event::Start(Tag::Image { src, .. }) => {
            let src = String::from_utf8(src.clone()).unwrap();
            assert_eq!(src, "data:image/png;base64,AQID");
        }
        other => panic!("expected an image start event, got {:?}", other),
    }
}

#[test]
fn test_image_base64_mode_without_bytes_leaves_reference() {
    let mut output = Output::new(None, None, None, None);
    output.image = OutputImage::new(Some(true));
    let settings = Settings::new(None, Some(output), None);
    let ev = Event::Start(Tag::Image {
        link: 0,
        src: b"img/a.png".to_vec(),
        title: b"t".to_vec(),
    });
    let events = vec![ev.clone()];
    let images = vec![None];
    let (out, _) = setup_parser(&events, &images, &settings).unwrap();
    assert_eq!(out, vec![ev]);
}

#[test]
fn test_text_outside_code_is_substituted() {
    let (out, _) = run_pass(vec![Event::Text(b"go :rocket: now".to_vec())]);
    assert_eq!(
        out,
        vec![Event::Text("go \u{1F680} now".as_bytes().to_vec())]
    );
}
