//! The conversion's error taxonomy.
//!
//! Every error is terminal for the whole conversion: there is no partial
//! success, no per-page retry, and no skip-and-continue.

use vstd::prelude::*;

verus! {

/// Why a conversion failed.  The page-carrying variants name the zero-based
/// index of the page on which the conversion was aborted.
#[derive(Debug, Clone, Copy, PartialEq, Eq, Structural)]
pub enum ConvertError {
    /// The input bytes are not a well-formed PDF document.
    Parse,
    /// The rendered buffer for a page is not a well-formed pixel buffer
    /// (its length does not match four bytes per pixel).
    Render { page: usize },
    /// A page's pixel buffer could not be compressed.
    Encode { page: usize },
    /// The output object graph could not be serialized.
    Assembly,
}

impl ConvertError {
    /// A human-readable description of the failure stage.
    pub fn describe(&self) -> (r: &'static str)
        ensures
            r@ == self.describe_spec(),
    {
        match self {
            ConvertError::Parse => "the input is not a well-formed PDF document",
            ConvertError::Render { .. } => "a page did not produce a well-formed pixel buffer",
            ConvertError::Encode { .. } => "a page's pixel buffer could not be encoded",
            ConvertError::Assembly => "the output document could not be serialized",
        }
    }

    /// The description each variant carries.
    pub open spec fn describe_spec(&self) -> Seq<char> {
        match self {
            ConvertError::Parse => "the input is not a well-formed PDF document"@,
            ConvertError::Render { .. } => "a page did not produce a well-formed pixel buffer"@,
            ConvertError::Encode { .. } => "a page's pixel buffer could not be encoded"@,
            ConvertError::Assembly => "the output document could not be serialized"@,
        }
    }

    /// The page on which the conversion was aborted, where one is known.
    pub fn page(&self) -> (r: Option<usize>)
        ensures
            r == self.page_spec(),
    {
        match self {
            ConvertError::Render { page } => Some(*page),
            ConvertError::Encode { page } => Some(*page),
            _ => None,
        }
    }

    /// The page index each variant carries.
    pub open spec fn page_spec(&self) -> Option<usize> {
        match self {
            ConvertError::Render { page } => Some(*page),
            ConvertError::Encode { page } => Some(*page),
            _ => None,
        }
    }
}

} // verus!
