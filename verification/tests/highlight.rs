//! Code block handling: a fenced block collapses into exactly one
//! highlighted raw-markup event followed by the end event, for known and
//! unknown language tags alike.

use mtoh::html_gen::setup_parser;
use mtoh::md_event::event::{Event, Tag};
use mtoh::settings::settings::Settings;

fn run_pass(events: Vec<Event>) -> (Vec<Event>, Vec<(Vec<u8>, Vec<u8>)>) {
    let settings = Settings::new(None, None, None);
    let images = vec![None; events.len()];
    let (out, meta) = setup_parser(&events, &images, &settings).unwrap();
    (out, meta.entries)
}

fn code_block(lang: Option<&str>, body: &str) -> Vec<Event> {
    let lang_bytes = lang.map(|l| l.as_bytes().to_vec());
    vec![
        Event::Start(Tag::CodeBlock {
            lang: lang_bytes.clone(),
        }),
        Event::Text(body.as_bytes().to_vec()),
        Event::End(Tag::CodeBlock { lang: lang_bytes }),
    ]
}

#[test]
fn test_fenced_rust_block_single_html_event() {
    let (out, meta) = run_pass(code_block(Some("rust"), "fn x(){}"));
    assert!(meta.is_empty());
    assert_eq!(out.len(), 3);
    assert!(matches!(&out[0], Event::Start(Tag::CodeBlock { .. })));
    match &out[1] {
        Event::Html(h) => {
            let html = String::from_utf8(h.clone()).unwrap();
            assert!(html.contains("<pre"));
            assert_ne!(html.as_bytes(), b"fn x(){}");
        }
        other => panic!("expected a raw-markup event, got {:?}", other),
    }
    assert!(matches!(&out[2], Event::End(Tag::CodeBlock { .. })));
    let residual_text = out.iter().any(|e| matches!(e, Event::Text(_)));
    assert!(!residual_text);
}

#[test]
fn test_unknown_language_tag_still_highlights() {
    let (out, _) = run_pass(code_block(Some("nosuchlanguage"), "plain body"));
    assert_eq!(out.len(), 3);
    match &out[1] {
        Event::Html(h) => {
            let html = String::from_utf8(h.clone()).unwrap();
            assert!(html.contains("plain body"));
        }
        other => panic!("expected a raw-markup event, got {:?}", other),
    }
}

#[test]
fn test_indented_block_highlights_as_plain_text() {
    let (out, _) = run_pass(code_block(None, "indented body"));
    assert_eq!(out.len(), 3);
    assert!(matches!(&out[1], Event::Html(_)));
}

#[test]
fn test_code_text_is_not_emoji_substituted() {
    let (out, _) = run_pass(code_block(Some("rust"), "let a = \":rocket:\";"));
    match &out[1] {
        Event::Html(h) => {
            let html = String::from_utf8(h.clone()).unwrap();
            assert!(html.contains(":rocket:"));
            assert!(!html.contains("\u{1F680}"));
        }
        other => panic!("expected a raw-markup event, got {:?}", other),
    }
}

#[test]
fn test_non_utf8_code_body_fails_the_document() {
    let events = vec![
        Event::Start(Tag::CodeBlock { lang: None }),
        Event::Text(vec![0xff, 0xfe]),
        Event::End(Tag::CodeBlock { lang: None }),
    ];
    let settings = Settings::new(None, None, None);
    let images = vec![None; events.len()];
    let result = setup_parser(&events, &images, &settings);
    assert!(result.is_err());
}
