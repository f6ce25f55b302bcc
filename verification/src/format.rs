//! The output-format selectors: one marker type per subtitle file format,
//! each knowing its file extension. The serializers themselves live outside
//! this library, at the output edge.

use vstd::prelude::*;

verus! {

/// The SubRip format.
pub struct Srt {}

impl Srt {
    /// A SubRip selector.
    pub fn new() -> (r: Srt)
        ensures
            r == (Srt {  }),
    {
        Srt {  }
    }

    /// The file extension written for this format.
    pub fn ext(&self) -> (r: &'static str)
        ensures
            r@ == "srt"@,
    {
        "srt"
    }
}

/// The MicroDVD format.
pub struct Sub {}

impl Sub {
    /// A MicroDVD selector.
    pub fn new() -> (r: Sub)
        ensures
            r == (Sub {  }),
    {
        Sub {  }
    }

    /// The file extension written for this format.
    pub fn ext(&self) -> (r: &'static str)
        ensures
            r@ == "sub"@,
    {
        "sub"
    }
}

/// The Advanced SubStation format.
pub struct Ass {}

impl Ass {
    /// An Advanced SubStation selector.
    pub fn new() -> (r: Ass)
        ensures
            r == (Ass {  }),
    {
        Ass {  }
    }

    /// The file extension written for this format.
    pub fn ext(&self) -> (r: &'static str)
        ensures
            r@ == "ass"@,
    {
        "ass"
    }
}

} // verus!
