//! Options for saving a rendered plot to an image file.

use vstd::prelude::*;

verus! {

/// Where to write the image, and its size in pixels.
pub struct SaveOptions<'path_lt> {
    pub path: &'path_lt str,
    pub width: u32,
    pub height: u32,
}

} // verus!
