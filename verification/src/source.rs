//! The parsed source document.
//!
//! Parsing is done by an outside PDF reader; the library keeps the parsed
//! handle together with the bytes it came from, so that everything later
//! stated about the document can be stated over those bytes.  Rendering a
//! page of the document is an outside service that the library does not
//! call (it takes a floating-point scale factor); callers render and hand
//! the pixel buffers to the conversion drivers.

use vstd::prelude::*;

use crate::errors::ConvertError;

verus! {

#[verifier::external_type_specification]
#[verifier::external_body]
pub struct ExPdf(hayro_syntax::Pdf);

/// Whether `bytes` parse as a well-formed PDF document.
pub uninterp spec fn pdf_parses(bytes: Seq<u8>) -> bool;

/// The number of pages of the document parsed from `bytes`.
pub uninterp spec fn pdf_page_count(bytes: Seq<u8>) -> int;

/// A parsed source document, paired with the bytes it was parsed from.
/// Its view is that byte sequence.
pub struct SourceDoc {
    pdf: hayro_syntax::Pdf,
    bytes: Vec<u8>,
}

impl View for SourceDoc {
    type V = Seq<u8>;

    closed spec fn view(&self) -> Seq<u8> {
        self.bytes@
    }
}

impl SourceDoc {
    /// Parse the given bytes as a PDF document.
    ///
    /// Relies on hayro_syntax::Pdf::new: whether the bytes parse, and what
    /// they parse to, are functions of the input bytes alone, so the result
    /// is `Ok` exactly when the bytes are a well-formed document.
    #[verifier::external_body]
    pub fn parse(bytes: Vec<u8>) -> (r: Result<SourceDoc, ConvertError>)
        ensures
            r is Ok <==> pdf_parses(bytes@),
            r is Ok ==> r->Ok_0@ == bytes@,
            r is Err ==> r->Err_0 == ConvertError::Parse,
    {
        match hayro_syntax::Pdf::new(bytes.clone()) {
            Ok(pdf) => Ok(SourceDoc { pdf, bytes }),
            Err(_) => Err(ConvertError::Parse),
        }
    }

    /// The number of pages of the document.
    ///
    /// Relies on hayro_syntax::Pdf::pages: the pages of the parsed document
    /// are held in one vector in document order, so their number is a
    /// function of the parsed bytes alone and fits in usize.
    #[verifier::external_body]
    pub fn page_count(&self) -> (r: usize)
        ensures
            r as int == pdf_page_count(self@),
    {
        self.pdf.pages().len()
    }

    /// The parsed document itself, for the outside rendering service.
    pub fn pdf(&self) -> &hayro_syntax::Pdf {
        &self.pdf
    }
}

} // verus!
