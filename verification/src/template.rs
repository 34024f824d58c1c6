//! The data handed to the gallery-rendering collaborator.

use vstd::prelude::*;

verus! {

/// One image of the gallery: the request URI under which it can be fetched.
pub struct Imgs {
    path: String,
}

impl View for Imgs {
    type V = Seq<char>;

    closed spec fn view(&self) -> Seq<char> {
        self.path@
    }
}

impl Imgs {
    pub fn new(path: String) -> (img: Imgs)
        ensures
            img@ == path@,
    {
        Imgs { path }
    }

    /// The request URI of the image.
    pub fn path(&self) -> (s: &str)
        ensures
            s@ == self@,
    {
        self.path.as_str()
    }
}

/// Everything the gallery page renders: the image URIs in display order and
/// the column width of the waterfall layout.
pub struct ImageFallTemplate {
    pub imgs: Vec<Imgs>,
    pub column_width: usize,
}

} // verus!
