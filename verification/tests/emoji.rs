//! Emoji shortcode substitution on concrete strings, including overlap,
//! multi-byte neighbours and unknown shortcodes.

use mtoh::md_event::text::replace_emoji_shortcode;

fn replace_emoji(content: &str) -> String {
    String::from_utf8(replace_emoji_shortcode(&content.as_bytes().to_vec())).unwrap()
}

#[test]
fn test_emoji_only_1() {
    let content = ":rocket:";
    assert_eq!(replace_emoji(content), "🚀");
}

#[test]
fn test_emoji_only_many_colon() {
    let content = ": :: :::rocket::: :: :";
    assert_eq!(replace_emoji(content), ": :: ::🚀:: :: :");
}

#[test]
fn test_emoji_multiple() {
    let content = ":rocket::shower::alien:";
    assert_eq!(replace_emoji(content), "🚀🚿👽");
}

#[test]
fn test_emoji_multiple_with_space() {
    let content = ":rocket: :shower: :alien:";
    assert_eq!(replace_emoji(content), "🚀 🚿 👽");
}

#[test]
fn test_emoji_with_string() {
    let content = "rocket: :rocket: shower::shower: alien:alien:";
    assert_eq!(replace_emoji(content), "rocket: 🚀 shower:🚿 alien👽");
}

#[test]
fn test_emoji_with_japanese() {
    let content = "ロケット: :rocket:　シャワー::shower:\tエイリアン:alien:";
    assert_eq!(
        replace_emoji(content),
        "ロケット: 🚀　シャワー:🚿\tエイリアン👽"
    );

    // with surrogate
    let content = "𩸽ロケット: 𩸽:rocket:𩸽　シャワー:𩸽:shower:𩸽\tエイリアン𩸽:alien:𩸽";
    assert_eq!(
        replace_emoji(content),
        "𩸽ロケット: 𩸽🚀𩸽　シャワー:𩸽🚿𩸽\tエイリアン𩸽👽𩸽"
    );
}

#[test]
fn test_emoji_with_unknown_shortcode() {
    let content = "ロケット: :rocket1:　シャワー::🖤:\tエイリアン:𩸽:";
    assert_eq!(
        replace_emoji(content),
        "ロケット: :rocket1:　シャワー::🖤:\tエイリアン:𩸽:"
    );
}

#[test]
fn test_emoji_without_shortcode() {
    let content =
        "::Alice was beginning to get very tired of sitting by her sister on the bank::";
    assert_eq!(replace_emoji(content), content);
}

#[test]
fn test_emoji_substitution_idempotent() {
    let cases = [
        ": :: :::rocket::: :: :",
        ":rocket::shower::alien:",
        ":notarealemoji:",
        "rocket: :rocket: shower::shower: alien:alien:",
        "::Alice was beginning to get very tired of sitting by her sister on the bank::",
    ];
    for case in cases {
        let once = replace_emoji(case);
        let twice = replace_emoji(&once);
        assert_eq!(once, twice);
    }
}

#[test]
fn test_emoji_unknown_shortcode_alone() {
    assert_eq!(replace_emoji(":notarealemoji:"), ":notarealemoji:");
}

#[test]
fn test_emoji_empty_text() {
    assert_eq!(replace_emoji(""), "");
}
