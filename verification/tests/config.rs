//! Configuration defaults and overrides.

use mtoh::settings::code::Code;
use mtoh::settings::code_settings::highlight::CodeHighlight;
use mtoh::settings::input::Input;
use mtoh::settings::output::Output;
use mtoh::settings::output_settings::image::OutputImage;
use mtoh::settings::settings::Settings;

#[test]
fn test_settings_defaults() {
    let s = Settings::new(None, None, None);
    assert_eq!(s.version, 1);
    assert_eq!(s.input.markdown_dir, "md");
    assert_eq!(s.input.sass_dir, "sass");
    assert_eq!(s.input.template_dir, "template");
    assert_eq!(s.input.img_dir, "md/img");
    assert_eq!(s.output.html_dir, "html");
    assert_eq!(s.output.css_dir, "html/css");
    assert_eq!(s.output.js_dir, "html/css");
    assert_eq!(s.output.img_dir, "html/img");
    assert!(!s.output.image.use_base64);
    assert_eq!(s.code.highlight.theme, "Solarized (light)");
}

#[test]
fn test_settings_overrides() {
    let input = Input::new(Some("content"), None, None, None);
    assert_eq!(input.markdown_dir, "content");
    assert_eq!(input.img_dir, "content/img");
    let output = Output::new(Some("public"), None, Some("public/js"), None);
    assert_eq!(output.css_dir, "public/css");
    assert_eq!(output.js_dir, "public/js");
    assert_eq!(output.img_dir, "public/img");
    let code = Code::new(Some(CodeHighlight::new(Some("base16-ocean.dark"))));
    let s = Settings::new(Some(input), Some(output), Some(code));
    assert_eq!(s.code.highlight.theme, "base16-ocean.dark");
    assert_eq!(s.input.markdown_dir, "content");
}

#[test]
fn test_output_image_default_is_copy_mode() {
    assert!(!OutputImage::new(None).use_base64);
    assert!(OutputImage::new(Some(true)).use_base64);
}
