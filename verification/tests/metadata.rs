//! Whole-pass behaviour on real markdown documents: special comments are
//! recorded into metadata and withheld from the output, ordinary comments
//! pass through verbatim.

use std::borrow::Cow;
use std::collections::{BTreeMap, HashMap};

use mtoh::html_gen::setup_parser;
use mtoh::md_event::event::{Event as MdEvent, Tag as MdTag};
use mtoh::settings::settings::Settings;
use pulldown_cmark::{html, CodeBlockKind, CowStr, Event, Options, Parser, Tag};

fn code_tag(kind: &CodeBlockKind) -> MdTag {
    match kind {
        CodeBlockKind::Fenced(l) => MdTag::CodeBlock { lang: Some(l.as_bytes().to_vec()) },
        CodeBlockKind::Indented => MdTag::CodeBlock { lang: None },
    }
}

fn to_lib<'a>(evs: Vec<Event<'a>>) -> (Vec<MdEvent>, Vec<Event<'a>>) {
    let mut stash: Vec<Event<'a>> = Vec::new();
    let mut out = Vec::new();
    for ev in evs {
        let conv = match &ev {
            Event::Start(Tag::CodeBlock(kind)) => MdEvent::Start(code_tag(kind)),
            Event::End(Tag::CodeBlock(kind)) => MdEvent::End(code_tag(kind)),
            Event::Start(Tag::Image(_, src, title)) => {
                let tag = MdTag::Image {
                    link: stash.len() as u64,
                    src: src.as_bytes().to_vec(),
                    title: title.as_bytes().to_vec(),
                };
                stash.push(ev.clone());
                MdEvent::Start(tag)
            }
            Event::Text(t) => MdEvent::Text(t.as_bytes().to_vec()),
            Event::Html(h) => MdEvent::Html(h.as_bytes().to_vec()),
            Event::Start(_) => {
                stash.push(ev.clone());
                MdEvent::Start(MdTag::Other((stash.len() - 1) as u64))
            }
            Event::End(_) => {
                stash.push(ev.clone());
                MdEvent::End(MdTag::Other((stash.len() - 1) as u64))
            }
            _ => {
                stash.push(ev.clone());
                MdEvent::Other((stash.len() - 1) as u64)
            }
        };
        out.push(conv);
    }
    (out, stash)
}

fn cow<'a>(v: Vec<u8>) -> CowStr<'a> {
    CowStr::from(String::from_utf8(v).unwrap())
}

fn back_kind<'a>(lang: Option<Vec<u8>>) -> CodeBlockKind<'a> {
    match lang {
        Some(l) => CodeBlockKind::Fenced(cow(l)),
        None => CodeBlockKind::Indented,
    }
}

fn from_lib<'a>(evs: Vec<MdEvent>, stash: &[Event<'a>]) -> Vec<Event<'a>> {
    evs.into_iter()
        .map(|ev| match ev {
            MdEvent::Start(MdTag::CodeBlock { lang }) => Event::Start(Tag::CodeBlock(back_kind(lang))),
            MdEvent::End(MdTag::CodeBlock { lang }) => Event::End(Tag::CodeBlock(back_kind(lang))),
            MdEvent::Start(MdTag::Image { link, src, title }) => {
                let lt = match &stash[link as usize] {
                    Event::Start(Tag::Image(lt, _, _)) => *lt,
                    _ => panic!("image token out of step"),
                };
                Event::Start(Tag::Image(lt, cow(src), cow(title)))
            }
            MdEvent::End(MdTag::Image { link, .. }) => stash[link as usize].clone(),
            MdEvent::Start(MdTag::Other(i)) => stash[i as usize].clone(),
            MdEvent::End(MdTag::Other(i)) => stash[i as usize].clone(),
            MdEvent::Other(i) => stash[i as usize].clone(),
            MdEvent::Text(t) => Event::Text(cow(t)),
            MdEvent::Html(h) => Event::Html(cow(h)),
        })
        .collect()
}

fn generate(markdown: &str) -> (Cow<'_, str>, HashMap<String, String>) {
    let settings = Settings::new(None, None, None);
    let mut options = Options::empty();
    options.insert(Options::ENABLE_STRIKETHROUGH);
    options.insert(Options::ENABLE_TABLES);
    options.insert(Options::ENABLE_HEADING_ATTRIBUTES);

    let parsed: Vec<Event> = Parser::new_ext(markdown, options).collect();
    let (lib_events, stash) = to_lib(parsed);
    let images = vec![None; lib_events.len()];
    let (out, meta) = setup_parser(&lib_events, &images, &settings).unwrap();

    let mut html_out = String::new();
    html::push_html(&mut html_out, from_lib(out, &stash).into_iter());

    let mut metadata: HashMap<String, String> = HashMap::new();
    for (k, v) in meta.entries {
        metadata.insert(String::from_utf8(k).unwrap(), String::from_utf8(v).unwrap());
    }
    (html_out.into(), metadata)
}

#[test]
fn test_metadata() {
    let md = r#"# Hello
<!-- :test: data -->
<!--- :author: hogehoge piyopiyo --->
<!--- 
:memo: テストデータ
::ignored: test
--->
<!--
:ignored2: test
-->
<!--
:ignored3: test -->
<!---
:date: 2022/11/19 --->
<!---
:pat1: value
--->
<!--- :pat2: value --->
<!---
:pat3: value --->
<!--- :pat4: value
--->
plain text
"#;

    let expected_output = r#"<h1>Hello</h1>
<!-- :test: data -->
<!--
:ignored2: test
-->
<!--
:ignored3: test -->
<p>plain text</p>
"#;
    let expected_metadata: BTreeMap<String, String> = BTreeMap::from([
        ("author".to_string(), "hogehoge piyopiyo".to_string()),
        ("date".to_string(), "2022/11/19".to_string()),
        ("memo".to_string(), "テストデータ".to_string()),
        ("pat1".to_string(), "value".to_string()),
        ("pat2".to_string(), "value".to_string()),
        ("pat3".to_string(), "value".to_string()),
        ("pat4".to_string(), "value".to_string()),
    ]);
    let (actual_output, actual_metadata) = generate(md);

    assert_eq!(
        expected_metadata,
        actual_metadata
            .into_iter()
            .collect::<BTreeMap<String, String>>(),
    );
    assert_eq!(expected_output, actual_output);
}

#[test]
fn test_metadata_with_emoji() {
    let md = r#"# Hello
<!-- :🚿test🚿: 🚿data🚿 -->
<!--- :🚿author🚿: 🚿hogehoge piyopiyo🚿 --->
<!--- 
:🚿memo🚿: 🚿テストデータ🚿
::🚿ignored🚿: 🚿test🚿
--->
<!--
:🚿ignored2🚿: 🚿test🚿
-->
<!--
:🚿ignored3🚿: 🚿test🚿 -->
<!---
:🚿date🚿: 🚿2022/11/19🚿 --->
<!---
:🚿pat1🚿: 🚿value🚿
--->
<!--- :🚿pat2🚿: 🚿value🚿 --->
<!---
:🚿pat3🚿: 🚿value🚿 --->
<!--- :🚿pat4🚿: 🚿value🚿
--->
plain text
"#;

    let expected_output = r#"<h1>Hello</h1>
<!-- :🚿test🚿: 🚿data🚿 -->
<!--
:🚿ignored2🚿: 🚿test🚿
-->
<!--
:🚿ignored3🚿: 🚿test🚿 -->
<p>plain text</p>
"#;
    let expected_metadata: BTreeMap<String, String> = BTreeMap::from([
        (
            "🚿author🚿".to_string(),
            "🚿hogehoge piyopiyo🚿".to_string(),
        ),
        ("🚿date🚿".to_string(), "🚿2022/11/19🚿".to_string()),
        ("🚿memo🚿".to_string(), "🚿テストデータ🚿".to_string()),
        ("🚿pat1🚿".to_string(), "🚿value🚿".to_string()),
        ("🚿pat2🚿".to_string(), "🚿value🚿".to_string()),
        ("🚿pat3🚿".to_string(), "🚿value🚿".to_string()),
        ("🚿pat4🚿".to_string(), "🚿value🚿".to_string()),
    ]);
    let (actual_output, actual_metadata) = generate(md);

    assert_eq!(
        expected_metadata,
        actual_metadata
            .into_iter()
            .collect::<BTreeMap<String, String>>(),
    );
    assert_eq!(expected_output, actual_output);
}

#[test]
fn test_metadata_with_surrogate() {
    let md = r#"# Hello
<!-- :𩸽test𩸽: 𩸽data𩸽 -->
<!--- :𩸽author𩸽: 𩸽hogehoge piyopiyo𩸽 --->
<!--- 
:𩸽memo𩸽: 𩸽テストデータ𩸽
::𩸽ignored𩸽: 𩸽test𩸽
--->
<!--
:𩸽ignored2𩸽: 𩸽test𩸽
-->
<!--
:𩸽ignored3𩸽: 𩸽test𩸽 -->
<!---
:𩸽date𩸽: 𩸽2022/11/19𩸽 --->
<!---
:𩸽pat1𩸽: 𩸽value𩸽
--->
<!--- :𩸽pat2𩸽: 𩸽value𩸽 --->
<!---
:𩸽pat3𩸽: 𩸽value𩸽 --->
<!--- :𩸽pat4𩸽: 𩸽value𩸽
--->
plain text
"#;

    let expected_output = r#"<h1>Hello</h1>
<!-- :𩸽test𩸽: 𩸽data𩸽 -->
<!--
:𩸽ignored2𩸽: 𩸽test𩸽
-->
<!--
:𩸽ignored3𩸽: 𩸽test𩸽 -->
<p>plain text</p>
"#;
    let expected_metadata: BTreeMap<String, String> = BTreeMap::from([
        (
            "𩸽author𩸽".to_string(),
            "𩸽hogehoge piyopiyo𩸽".to_string(),
        ),
        ("𩸽date𩸽".to_string(), "𩸽2022/11/19𩸽".to_string()),
        ("𩸽memo𩸽".to_string(), "𩸽テストデータ𩸽".to_string()),
        ("𩸽pat1𩸽".to_string(), "𩸽value𩸽".to_string()),
        ("𩸽pat2𩸽".to_string(), "𩸽value𩸽".to_string()),
        ("𩸽pat3𩸽".to_string(), "𩸽value𩸽".to_string()),
        ("𩸽pat4𩸽".to_string(), "𩸽value𩸽".to_string()),
    ]);
    let (actual_output, actual_metadata) = generate(md);

    assert_eq!(
        expected_metadata,
        actual_metadata
            .into_iter()
            .collect::<BTreeMap<String, String>>(),
    );
    assert_eq!(expected_output, actual_output);
}
