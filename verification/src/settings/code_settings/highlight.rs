//! The highlighting theme selection.

use vstd::prelude::*;

verus! {

/// Code highlighting options.
pub struct CodeHighlight {
    pub theme: String,
}

impl CodeHighlight {
    /// Builds the options; a missing theme falls back to the default theme
    /// name.
    pub fn new(theme: Option<&str>) -> (r: CodeHighlight)
        ensures
            r.theme@ == (match theme {
                Some(t) => t@,
                None => "Solarized (light)"@,
            }),
    {
        CodeHighlight {
            theme: match theme {
                Some(t) => t.to_owned(),
                None => "Solarized (light)".to_owned(),
            },
        }
    }
}

impl Default for CodeHighlight {
    fn default() -> (r: CodeHighlight)
        ensures
            r.theme@ == "Solarized (light)"@,
    {
        CodeHighlight::new(None)
    }
}

} // verus!
