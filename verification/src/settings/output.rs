//! Output directory configuration.

use vstd::prelude::*;
use vstd::string::StringExecFns;

use crate::settings::output_settings::image::OutputImage;

verus! {

/// Where a run writes its results, and how it treats images.
pub struct Output {
    pub html_dir: String,
    pub css_dir: String,
    pub js_dir: String,
    pub img_dir: String,
    pub image: OutputImage,
}

impl Output {
    /// Builds the output directories; missing entries fall back to defaults
    /// derived from the html directory, and image handling starts in copy
    /// mode.
    pub fn new(
        html_dir: Option<&str>,
        css_dir: Option<&str>,
        js_dir: Option<&str>,
        img_dir: Option<&str>,
    ) -> (r: Output)
        ensures
            r.html_dir@ == (match html_dir {
                Some(s) => s@,
                None => "html"@,
            }),
            r.css_dir@ == (match css_dir {
                Some(s) => s@,
                None => (match html_dir {
                    Some(s) => s@,
                    None => "html"@,
                }) + "/css"@,
            }),
            r.js_dir@ == (match js_dir {
                Some(s) => s@,
                None => (match html_dir {
                    Some(s) => s@,
                    None => "html"@,
                }) + "/css"@,
            }),
            r.img_dir@ == (match img_dir {
                Some(s) => s@,
                None => (match html_dir {
                    Some(s) => s@,
                    None => "html"@,
                }) + "/img"@,
            }),
            !r.image.use_base64,
    {
        let html: String = match html_dir {
            Some(s) => s.to_owned(),
            None => "html".to_owned(),
        };
        let css: String = match css_dir {
            Some(s) => s.to_owned(),
            None => {
                let mut joined = html.clone();
                joined.append("/css");
                joined
            },
        };
        let js: String = match js_dir {
            Some(s) => s.to_owned(),
            None => {
                let mut joined = html.clone();
                joined.append("/css");
                joined
            },
        };
        let img: String = match img_dir {
            Some(s) => s.to_owned(),
            None => {
                let mut joined = html.clone();
                joined.append("/img");
                joined
            },
        };
        Output {
            html_dir: html,
            css_dir: css,
            js_dir: js,
            img_dir: img,
            image: OutputImage::new(None),
        }
    }
}

impl Default for Output {
    fn default() -> (r: Output)
        ensures
            r.html_dir@ == "html"@,
            r.css_dir@ == "html"@ + "/css"@,
            r.js_dir@ == "html"@ + "/css"@,
            r.img_dir@ == "html"@ + "/img"@,
            !r.image.use_base64,
    {
        Output::new(None, None, None, None)
    }
}

} // verus!
