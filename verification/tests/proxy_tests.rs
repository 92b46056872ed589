use caseshare::errors::ShareError;
use caseshare::import::proxy_url_for;
use caseshare::proxy::{
    authenticated_object_url, content_type_or_default, is_success_status, proxy_media_decision,
    proxy_pdf_decision, proxy_storage_decision, sign_object_url, signed_url_join, upload_object_url,
    upload_outcome, ProxyDecision, UpstreamResult,
};

fn forward(d: ProxyDecision) -> (u16, String) {
    match d {
        ProxyDecision::Forward { status, content_type } => (status, content_type),
        ProxyDecision::Reject { .. } => panic!("expected a forward"),
    }
}

fn reject(d: ProxyDecision) -> u16 {
    match d {
        ProxyDecision::Reject { status, .. } => status,
        ProxyDecision::Forward { .. } => panic!("expected a reject"),
    }
}

#[test]
fn pdf_proxy_decisions() {
    assert_eq!(reject(proxy_pdf_decision(&UpstreamResult::TransportError)), 400);
    assert_eq!(
        reject(proxy_pdf_decision(&UpstreamResult::Body { status: 404, content_type: None })),
        400
    );
    assert_eq!(
        reject(proxy_pdf_decision(&UpstreamResult::BodyError { status: 200, content_type: None })),
        500
    );
    let (status, ct) =
        forward(proxy_pdf_decision(&UpstreamResult::Body { status: 200, content_type: None }));
    assert_eq!(status, 200);
    assert_eq!(ct, "application/pdf");
}

#[test]
fn media_proxy_propagates_status_and_content_type() {
    assert_eq!(reject(proxy_media_decision(UpstreamResult::TransportError)), 400);
    assert_eq!(
        reject(proxy_media_decision(UpstreamResult::BodyError { status: 200, content_type: None })),
        500
    );
    let (status, ct) = forward(proxy_media_decision(UpstreamResult::Body {
        status: 404,
        content_type: Some("image/png".to_string()),
    }));
    assert_eq!(status, 404);
    assert_eq!(ct, "image/png");
    let (_, ct) =
        forward(proxy_media_decision(UpstreamResult::Body { status: 200, content_type: None }));
    assert_eq!(ct, "application/octet-stream");
}

#[test]
fn storage_proxy_forwards_even_unreadable_bodies() {
    assert_eq!(reject(proxy_storage_decision(UpstreamResult::TransportError)), 500);
    let (status, ct) = forward(proxy_storage_decision(UpstreamResult::BodyError {
        status: 403,
        content_type: Some("application/json".to_string()),
    }));
    assert_eq!(status, 403);
    assert_eq!(ct, "application/json");
    let (status, ct) = forward(proxy_storage_decision(UpstreamResult::Body {
        status: 200,
        content_type: None,
    }));
    assert_eq!(status, 200);
    assert_eq!(ct, "application/octet-stream");
}

#[test]
fn upload_conflict_counts_as_success() {
    assert!(upload_outcome(200).is_ok());
    assert!(upload_outcome(201).is_ok());
    assert!(upload_outcome(409).is_ok());
    assert_eq!(upload_outcome(500).err(), Some(ShareError::UpstreamFailure));
    assert_eq!(upload_outcome(404).err(), Some(ShareError::UpstreamFailure));
}

#[test]
fn status_success_is_the_2xx_range() {
    assert!(!is_success_status(199));
    assert!(is_success_status(200));
    assert!(is_success_status(299));
    assert!(!is_success_status(300));
}

#[test]
fn storage_endpoint_urls() {
    assert_eq!(
        upload_object_url("https://store.test", "case-assets", "ab/cd/abcd"),
        "https://store.test/storage/v1/object/case-assets/ab/cd/abcd"
    );
    assert_eq!(
        authenticated_object_url("https://store.test///", "ab/cd/abcd"),
        "https://store.test/storage/v1/object/authenticated/case-assets/ab/cd/abcd"
    );
    assert_eq!(
        sign_object_url("https://store.test", "case-assets", "ab/cd/abcd"),
        "https://store.test/storage/v1/object/sign/case-assets/ab/cd/abcd"
    );
    assert_eq!(
        signed_url_join("https://store.test/", "/object/sign/abc?token=t"),
        "https://store.test/object/sign/abc?token=t"
    );
    assert_eq!(proxy_url_for("ab/cd/abcd"), "/storage/ab/cd/abcd");
}

#[test]
fn content_type_defaults_to_octet_stream() {
    assert_eq!(content_type_or_default(None), "application/octet-stream");
    assert_eq!(content_type_or_default(Some("audio/mpeg".to_string())), "audio/mpeg");
}
