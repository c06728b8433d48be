//! Multi-party electronic document signing: an incremental signed-PDF
//! pipeline (overlays, AcroForm signature fields, byte ranges, CAdES
//! splicing), HMAC-gated file keys, and the envelope progression state
//! machine, with machine-checked contracts.

pub mod num;
pub mod obj;
pub mod err;
pub mod writer;
pub mod byterange;
pub mod geom;
pub mod image;
pub mod crypto;
pub mod filekey;
pub mod envelope;
pub mod sig;
pub mod auditlog;

use vstd::prelude::*;

verus! {

/// Number of bytes reserved for the CAdES SignedData in `/Contents`.
pub const CONTENTS_SLOT_LEN: usize = 8192;

pub fn contents_slot_len() -> (r: usize)
    ensures
        r == 8192,
{
    CONTENTS_SLOT_LEN
}

} // verus!
