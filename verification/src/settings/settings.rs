//! The top-level configuration record.

use vstd::prelude::*;

use crate::settings::code::Code;
use crate::settings::input::Input;
use crate::settings::output::Output;

verus! {

/// The whole configuration of a run.  Loading it from a configuration file is
/// the caller's concern; this type only carries the values through the pass.
pub struct Settings {
    pub version: i32,
    pub input: Input,
    pub output: Output,
    pub code: Code,
}

impl Settings {
    /// Builds a configuration; every missing part falls back to its defaults.
    pub fn new(input: Option<Input>, output: Option<Output>, code: Option<Code>) -> (r: Settings)
        ensures
            r.version == 1,
            match input {
                Some(o) => r.input == o,
                None => r.input.markdown_dir@ == "md"@ && r.input.sass_dir@ == "sass"@
                    && r.input.template_dir@ == "template"@ && r.input.img_dir@ == "md"@
                    + "/img"@,
            },
            match output {
                Some(o) => r.output == o,
                None => r.output.html_dir@ == "html"@ && r.output.css_dir@ == "html"@ + "/css"@
                    && r.output.js_dir@ == "html"@ + "/css"@ && r.output.img_dir@ == "html"@
                    + "/img"@ && !r.output.image.use_base64,
            },
            match code {
                Some(o) => r.code == o,
                None => r.code.highlight.theme@ == "Solarized (light)"@,
            },
    {
        Settings {
            version: 1,
            input: match input {
                Some(o) => o,
                None => Input::new(None, None, None, None),
            },
            output: match output {
                Some(o) => o,
                None => Output::new(None, None, None, None),
            },
            code: match code {
                Some(o) => o,
                None => Code::new(None),
            },
        }
    }
}

} // verus!
