//! Image handling options.

use vstd::prelude::*;

verus! {

/// How locally referenced images are resolved: copied into the output image
/// directory, or inlined into the document as base64 data.
pub struct OutputImage {
    pub use_base64: bool,
}

impl OutputImage {
    pub fn new(use_base64: Option<bool>) -> (r: OutputImage)
        ensures
            r.use_base64 == (match use_base64 {
                Some(b) => b,
                None => false,
            }),
    {
        OutputImage {
            use_base64: match use_base64 {
                Some(b) => b,
                None => false,
            },
        }
    }
}

impl Default for OutputImage {
    fn default() -> (r: OutputImage)
        ensures
            !r.use_base64,
    {
        OutputImage::new(None)
    }
}

} // verus!
