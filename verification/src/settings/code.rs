//! Code block handling configuration.

use vstd::prelude::*;

use crate::settings::code_settings::highlight::CodeHighlight;

verus! {

/// Options of the code block pipeline stage.
pub struct Code {
    pub highlight: CodeHighlight,
}

impl Code {
    pub fn new(highlight: Option<CodeHighlight>) -> (r: Code)
        ensures
            match highlight {
                Some(o) => r.highlight == o,
                None => r.highlight.theme@ == "Solarized (light)"@,
            },
    {
        Code {
            highlight: match highlight {
                Some(o) => o,
                None => CodeHighlight::new(None),
            },
        }
    }
}

impl Default for Code {
    fn default() -> (r: Code)
        ensures
            r.highlight.theme@ == "Solarized (light)"@,
    {
        Code::new(None)
    }
}

} // verus!
