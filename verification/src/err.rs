//! Error kinds of the signing service.

use vstd::prelude::*;

verus! {

/// Every failure the library's own logic can report.
#[derive(Clone, Copy, PartialEq, Eq, Structural, Debug)]
pub enum Error {
    /// Malformed email, missing required field, recipient-count mismatch.
    InvalidInput,
    /// Failed CSRF check or wrong recipient key.
    AuthFailure,
    /// Unknown envelope, template, recipient or page.
    NotFound,
    /// Expired HMAC'd file key.
    Expired,
    /// Parse or write failure on a PDF.
    PdfError,
    /// PNG bit depth or colour type outside the supported set.
    UnsupportedImage,
    /// CMS SignedData exceeds the reserved `/Contents` slot.
    SignatureTooLarge,
}

impl Error {
    /// Stable lower-case label, for logs and HTTP bodies.
    pub fn label(&self) -> (r: &'static str)
        ensures
            r@ == self.spec_label(),
    {
        match self {
            Error::InvalidInput => "invalid_input",
            Error::AuthFailure => "auth_failure",
            Error::NotFound => "not_found",
            Error::Expired => "expired",
            Error::PdfError => "pdf_error",
            Error::UnsupportedImage => "unsupported_image",
            Error::SignatureTooLarge => "signature_too_large",
        }
    }

    pub open spec fn spec_label(&self) -> Seq<char> {
        match self {
            Error::InvalidInput => "invalid_input"@,
            Error::AuthFailure => "auth_failure"@,
            Error::NotFound => "not_found"@,
            Error::Expired => "expired"@,
            Error::PdfError => "pdf_error"@,
            Error::UnsupportedImage => "unsupported_image"@,
            Error::SignatureTooLarge => "signature_too_large"@,
        }
    }
}

} // verus!
