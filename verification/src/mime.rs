//! Content-type sniffing and the allow-list for uploaded files.
//!
//! The caller-supplied type of an upload is never trusted: the type is
//! sniffed from the byte signature, and only PDF, image, audio and video
//! content is accepted.

use vstd::prelude::*;
use crate::strings::{spec_has_prefix, str_equal, str_has_prefix};

verus! {

/// The content type that signature sniffing reports for a byte sequence,
/// or `None` when no signature is recognized. Named but not written out:
/// the matcher table is trusted to the infer crate.
pub uninterp spec fn sniffed_mime_of(bytes: Seq<u8>) -> Option<Seq<char>>;

/// Relies on `infer::get` with its default matcher set: the sniffed type is
/// a function of the bytes alone, and `Type::mime_type` reads the matched
/// entry's mime string.
#[verifier::external_body]
pub(crate) fn sniff_mime(bytes: &Vec<u8>) -> (r: Option<String>)
    ensures
        match r {
            Some(m) => sniffed_mime_of(bytes@) == Some(m@),
            None => sniffed_mime_of(bytes@) is None,
        },
{
    match infer::get(bytes.as_slice()) {
        Some(kind) => Some(kind.mime_type().to_string()),
        None => None,
    }
}

/// The allow-list: `application/pdf`, or any type whose top-level category
/// is `image`, `audio` or `video`.
pub open spec fn spec_mime_allowed(m: Seq<char>) -> bool {
    ||| m == "application/pdf"@
    ||| spec_has_prefix(m, "image/"@)
    ||| spec_has_prefix(m, "audio/"@)
    ||| spec_has_prefix(m, "video/"@)
}

/// Decides the allow-list.
pub fn is_allowed_mime(m: &str) -> (r: bool)
    ensures
        r == spec_mime_allowed(m@),
{
    str_equal(m, "application/pdf") || str_has_prefix(m, "image/") || str_has_prefix(m, "audio/")
        || str_has_prefix(m, "video/")
}

/// Whether a file part passes the signature check and the allow-list, and
/// so yields an asset. A rejected file is skipped, never fatal.
pub open spec fn spec_file_accepted(bytes: Seq<u8>) -> bool {
    match sniffed_mime_of(bytes) {
        Some(m) => spec_mime_allowed(m),
        None => false,
    }
}

/// The sniffed type of an accepted file.
pub open spec fn spec_accepted_mime(bytes: Seq<u8>) -> Seq<char>
    recommends
        spec_file_accepted(bytes),
{
    sniffed_mime_of(bytes)->Some_0
}

/// Sniffs a file's type and applies the allow-list: the sniffed type when
/// the file is accepted, `None` when it must be skipped.
pub fn accepted_mime_of(bytes: &Vec<u8>) -> (r: Option<String>)
    ensures
        (r is Some) <==> spec_file_accepted(bytes@),
        r matches Some(m) ==> m@ == spec_accepted_mime(bytes@),
{
    match sniff_mime(bytes) {
        Some(m) => {
            if is_allowed_mime(m.as_str()) {
                Some(m)
            } else {
                None
            }
        },
        None => None,
    }
}

} // verus!
