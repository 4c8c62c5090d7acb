//! Input directory configuration.

use vstd::prelude::*;
use vstd::string::StringExecFns;

verus! {

/// Where a run reads its sources from.
pub struct Input {
    pub markdown_dir: String,
    pub sass_dir: String,
    pub template_dir: String,
    pub img_dir: String,
}

impl Input {
    /// Builds the input directories; every missing entry falls back to its
    /// default, and the image directory defaults to `img` under the markdown
    /// directory.
    pub fn new(
        markdown_dir: Option<&str>,
        sass_dir: Option<&str>,
        template_dir: Option<&str>,
        img_dir: Option<&str>,
    ) -> (r: Input)
        ensures
            r.markdown_dir@ == (match markdown_dir {
                Some(s) => s@,
                None => "md"@,
            }),
            r.sass_dir@ == (match sass_dir {
                Some(s) => s@,
                None => "sass"@,
            }),
            r.template_dir@ == (match template_dir {
                Some(s) => s@,
                None => "template"@,
            }),
            r.img_dir@ == (match img_dir {
                Some(s) => s@,
                None => (match markdown_dir {
                    Some(s) => s@,
                    None => "md"@,
                }) + "/img"@,
            }),
    {
        let md: String = match markdown_dir {
            Some(s) => s.to_owned(),
            None => "md".to_owned(),
        };
        let img: String = match img_dir {
            Some(s) => s.to_owned(),
            None => {
                let mut joined = md.clone();
                joined.append("/img");
                joined
            },
        };
        Input {
            markdown_dir: md,
            sass_dir: match sass_dir {
                Some(s) => s.to_owned(),
                None => "sass".to_owned(),
            },
            template_dir: match template_dir {
                Some(s) => s.to_owned(),
                None => "template".to_owned(),
            },
            img_dir: img,
        }
    }
}

impl Default for Input {
    fn default() -> (r: Input)
        ensures
            r.markdown_dir@ == "md"@,
            r.sass_dir@ == "sass"@,
            r.template_dir@ == "template"@,
            r.img_dir@ == "md"@ + "/img"@,
    {
        Input::new(None, None, None, None)
    }
}

} // verus!
