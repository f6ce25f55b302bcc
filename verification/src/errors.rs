//! The library's error taxonomy.

use vstd::prelude::*;

verus! {

/// What can go wrong while resolving identifiers and decoding payloads.
#[derive(Debug, PartialEq, Eq)]
pub enum LookupError {
    /// The remote envelope carried a non-zero code; the field is the server's
    /// message.
    Remote(String),
    /// The embedded state or the season-id pattern was absent.
    NotFound,
    /// A payload parsed as JSON but did not have the expected shape.
    Shape,
    /// A malformed numeric id or selector text.
    InvalidIdentifier,
}

/// The mathematical shape of an error.
pub enum ErrV {
    Remote(Seq<char>),
    NotFound,
    Shape,
    InvalidIdentifier,
}

impl View for LookupError {
    type V = ErrV;

    open spec fn view(&self) -> ErrV {
        match self {
            LookupError::Remote(m) => ErrV::Remote(m@),
            LookupError::NotFound => ErrV::NotFound,
            LookupError::Shape => ErrV::Shape,
            LookupError::InvalidIdentifier => ErrV::InvalidIdentifier,
        }
    }
}

impl LookupError {
    /// A short description, for diagnostics at the output edge.
    pub fn message(&self) -> (r: String)
        ensures
            self matches LookupError::Remote(m) ==> r@ == m@,
            self is NotFound ==> r@ == "not found"@,
            self is Shape ==> r@ == "unexpected payload shape"@,
            self is InvalidIdentifier ==> r@ == "invalid identifier"@,
    {
        match self {
            LookupError::Remote(m) => m.clone(),
            LookupError::NotFound => "not found".to_owned(),
            LookupError::Shape => "unexpected payload shape".to_owned(),
            LookupError::InvalidIdentifier => "invalid identifier".to_owned(),
        }
    }
}

} // verus!
