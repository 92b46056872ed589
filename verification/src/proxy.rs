//! The media proxy's decisions and the storage endpoints' URLs. Fetching
//! itself is I/O and lives outside the library; what to answer for each
//! upstream outcome is decided here.

use vstd::prelude::*;
use vstd::string::StringExecFns;
use crate::errors::ShareError;
use crate::strings::{
    spec_trim_leading_slashes, spec_trim_trailing_slashes, trim_leading_slashes,
    trim_trailing_slashes,
};

verus! {

/// Query parameters of a proxy fetch: the upstream URL.
pub struct ProxyParams {
    pub url: String,
}

/// What one upstream fetch came to, as the I/O shell reports it.
pub enum UpstreamResult {
    /// The request could not be sent or no response arrived.
    TransportError,
    /// A response arrived but its body could not be read.
    BodyError { status: u16, content_type: Option<String> },
    /// A response arrived and its body was read.
    Body { status: u16, content_type: Option<String> },
}

/// What a proxy answers.
pub enum ProxyDecision {
    /// Answer an error with this status code and message, no body.
    Reject { status: u16, message: &'static str },
    /// Forward the upstream body with this status and content type.
    Forward { status: u16, content_type: String },
}

pub open spec fn spec_is_success(status: u16) -> bool {
    200 <= status < 300
}

pub fn is_success_status(status: u16) -> (r: bool)
    ensures
        r == spec_is_success(status),
{
    200 <= status && status < 300
}

/// The upstream-reported content type, or the default stream type.
pub open spec fn spec_content_type_or_default(ct: Option<String>) -> Seq<char> {
    match ct {
        Some(m) => m@,
        None => "application/octet-stream"@,
    }
}

pub fn content_type_or_default(ct: Option<String>) -> (r: String)
    ensures
        r@ == spec_content_type_or_default(ct),
{
    match ct {
        Some(m) => m,
        None => String::from_str("application/octet-stream"),
    }
}

/// Decides the fixed-type PDF proxy: a transport failure or a non-2xx
/// upstream answer is rejected as the caller's fault; a 2xx body that could
/// not be read is a server error; a read body is forwarded as a PDF.
pub fn proxy_pdf_decision(u: &UpstreamResult) -> (r: ProxyDecision)
    ensures
        *u is TransportError ==> (r matches ProxyDecision::Reject { status, .. } && status == 400),
        *u matches UpstreamResult::BodyError { status, .. } ==> (r matches ProxyDecision::Reject {
            status: s,
            ..
        } && s == (if spec_is_success(status) {
            500u16
        } else {
            400u16
        })),
        *u matches UpstreamResult::Body { status, .. } ==> (if spec_is_success(status) {
            r matches ProxyDecision::Forward { status: s, content_type } && s == 200
                && content_type@ == "application/pdf"@
        } else {
            r matches ProxyDecision::Reject { status: s, .. } && s == 400
        }),
{
    match u {
        UpstreamResult::TransportError => ProxyDecision::Reject {
            status: 400,
            message: "Invalid URL",
        },
        UpstreamResult::BodyError { status, .. } => {
            if !is_success_status(*status) {
                ProxyDecision::Reject { status: 400, message: "Failed to fetch PDF" }
            } else {
                ProxyDecision::Reject { status: 500, message: "Failed to read bytes" }
            }
        },
        UpstreamResult::Body { status, .. } => {
            if !is_success_status(*status) {
                ProxyDecision::Reject { status: 400, message: "Failed to fetch PDF" }
            } else {
                ProxyDecision::Forward {
                    status: 200,
                    content_type: String::from_str("application/pdf"),
                }
            }
        },
    }
}

/// Decides the generic media proxy: the upstream status and content type
/// are propagated as they came, the type defaulted when absent.
pub fn proxy_media_decision(u: UpstreamResult) -> (r: ProxyDecision)
    ensures
        u is TransportError ==> (r matches ProxyDecision::Reject { status, .. } && status == 400),
        u is BodyError ==> (r matches ProxyDecision::Reject { status, .. } && status == 500),
        u matches UpstreamResult::Body { status, content_type } ==> (
        r matches ProxyDecision::Forward { status: s, content_type: ct } && s == status && ct@
            == spec_content_type_or_default(content_type)),
{
    match u {
        UpstreamResult::TransportError => ProxyDecision::Reject {
            status: 400,
            message: "Invalid URL",
        },
        UpstreamResult::BodyError { .. } => ProxyDecision::Reject {
            status: 500,
            message: "Failed to read bytes",
        },
        UpstreamResult::Body { status, content_type } => ProxyDecision::Forward {
            status,
            content_type: content_type_or_default(content_type),
        },
    }
}

/// Decides the authenticated storage proxy: a transport failure is a server
/// error; otherwise status and content type are propagated, an unreadable
/// body standing in as an empty one.
pub fn proxy_storage_decision(u: UpstreamResult) -> (r: ProxyDecision)
    ensures
        u is TransportError ==> (r matches ProxyDecision::Reject { status, .. } && status == 500),
        u matches UpstreamResult::Body { status, content_type } ==> (
        r matches ProxyDecision::Forward { status: s, content_type: ct } && s == status && ct@
            == spec_content_type_or_default(content_type)),
        u matches UpstreamResult::BodyError { status, content_type } ==> (
        r matches ProxyDecision::Forward { status: s, content_type: ct } && s == status && ct@
            == spec_content_type_or_default(content_type)),
{
    match u {
        UpstreamResult::TransportError => ProxyDecision::Reject {
            status: 500,
            message: "Proxy error",
        },
        UpstreamResult::BodyError { status, content_type } => ProxyDecision::Forward {
            status,
            content_type: content_type_or_default(content_type),
        },
        UpstreamResult::Body { status, content_type } => ProxyDecision::Forward {
            status,
            content_type: content_type_or_default(content_type),
        },
    }
}

/// The endpoint a stored object is uploaded to.
pub open spec fn spec_upload_url(base: Seq<char>, bucket: Seq<char>, path: Seq<char>) -> Seq<
    char,
> {
    base + "/storage/v1/object/"@ + bucket + "/"@ + path
}

pub fn upload_object_url(base: &str, bucket: &str, path: &str) -> (r: String)
    ensures
        r@ == spec_upload_url(base@, bucket@, path@),
{
    let mut r = String::from_str(base);
    r.append("/storage/v1/object/");
    r.append(bucket);
    r.append("/");
    r.append(path);
    r
}

/// The authenticated endpoint a stored object is fetched from, under the
/// fixed bucket of case assets.
pub open spec fn spec_authenticated_object_url(base: Seq<char>, path: Seq<char>) -> Seq<char> {
    spec_trim_trailing_slashes(base) + "/storage/v1/object/authenticated/case-assets/"@ + path
}

pub fn authenticated_object_url(base: &str, path: &str) -> (r: String)
    ensures
        r@ == spec_authenticated_object_url(base@, path@),
{
    let trimmed = trim_trailing_slashes(base);
    let mut r = String::from_str(trimmed);
    r.append("/storage/v1/object/authenticated/case-assets/");
    r.append(path);
    r
}

/// The endpoint that signs a stored object's URL.
pub open spec fn spec_sign_url(base: Seq<char>, bucket: Seq<char>, path: Seq<char>) -> Seq<char> {
    base + "/storage/v1/object/sign/"@ + bucket + "/"@ + path
}

pub fn sign_object_url(base: &str, bucket: &str, path: &str) -> (r: String)
    ensures
        r@ == spec_sign_url(base@, bucket@, path@),
{
    let mut r = String::from_str(base);
    r.append("/storage/v1/object/sign/");
    r.append(bucket);
    r.append("/");
    r.append(path);
    r
}

/// Joins the storage base URL and a signed path without doubling the slash
/// between them.
pub open spec fn spec_signed_url_join(base: Seq<char>, signed_path: Seq<char>) -> Seq<char> {
    spec_trim_trailing_slashes(base) + "/"@ + spec_trim_leading_slashes(signed_path)
}

pub fn signed_url_join(base: &str, signed_path: &str) -> (r: String)
    ensures
        r@ == spec_signed_url_join(base@, signed_path@),
{
    let trimmed = trim_trailing_slashes(base);
    let mut r = String::from_str(trimmed);
    r.append("/");
    r.append(trim_leading_slashes(signed_path));
    r
}

/// Classifies an upload's status: success, or a conflict on an object that
/// already exists — identical fingerprint means identical content, so the
/// object needs no re-upload and the conflict counts as success. Anything
/// else is fatal to the request.
pub fn upload_outcome(status: u16) -> (r: Result<(), ShareError>)
    ensures
        (r is Ok) <==> (spec_is_success(status) || status == 409),
        r matches Err(e) ==> e == ShareError::UpstreamFailure,
{
    if is_success_status(status) || status == 409 {
        Ok(())
    } else {
        Err(ShareError::UpstreamFailure)
    }
}

} // verus!
