use caseshare::errors::{ImportError, ShareError};
use caseshare::hashing::content_hash;
use caseshare::import::import_case;
use caseshare::json::JsonValue;
use caseshare::share::{share_case, share_case_with_generated_code, Part, ShareSuccess};
use caseshare::store::Store;
use caseshare::SHARE_LIFETIME_SECONDS;

const NOW: i64 = 1_700_000_000;

fn pdf_bytes(tail: &[u8]) -> Vec<u8> {
    let mut b = b"%PDF-1.4\n".to_vec();
    b.extend_from_slice(tail);
    b
}

fn png_bytes() -> Vec<u8> {
    let mut b = vec![0x89u8, 0x50, 0x4e, 0x47, 0x0d, 0x0a, 0x1a, 0x0a];
    b.extend_from_slice(&[0u8; 16]);
    b
}

fn doc(text: &str) -> JsonValue {
    JsonValue::Obj(vec![("note".to_string(), JsonValue::Str(text.to_string()))])
}

fn cands(tag: u8) -> Vec<String> {
    (0..10).map(|i| format!("C{}{:04}", tag, i)).collect()
}

fn share_ok(store: &mut Store, parts: Vec<Part>, tag: u8) -> ShareSuccess {
    share_case(store, parts, NOW, &cands(tag)).unwrap()
}

#[test]
fn sharing_same_bytes_twice_creates_one_asset_linked_to_both_cases() {
    let mut store = Store::new();
    let bytes = pdf_bytes(b"same content");
    let r1 = share_ok(
        &mut store,
        vec![Part::File(bytes.clone()), Part::CaseData(doc("first"))],
        1,
    );
    let r2 = share_ok(
        &mut store,
        vec![Part::File(bytes.clone()), Part::CaseData(doc("second"))],
        2,
    );
    assert_eq!(store.assets.len(), 1);
    assert_eq!(store.objects.len(), 1);
    assert_eq!(store.assets[0].file_hash, content_hash(&bytes));
    let aid = store.assets[0].id;
    assert!(store.link_present(r1.case_id, aid));
    assert!(store.link_present(r2.case_id, aid));
    assert_ne!(r1.case_id, r2.case_id);
}

#[test]
fn reference_to_uploaded_asset_links_without_reupload() {
    let mut store = Store::new();
    let bytes = png_bytes();
    let _ = share_ok(
        &mut store,
        vec![Part::File(bytes.clone()), Part::CaseData(doc("upload"))],
        1,
    );
    assert_eq!(store.objects.len(), 1);
    let hash = content_hash(&bytes);
    let marker = format!("asset://{}", hash);
    let r2 = share_ok(&mut store, vec![Part::CaseData(doc(&marker))], 2);
    assert_eq!(store.assets.len(), 1);
    assert_eq!(store.objects.len(), 1);
    assert!(store.link_present(r2.case_id, store.assets[0].id));

    let resp = import_case(&store, &r2.share_code, NOW).unwrap();
    assert_eq!(resp.assets.len(), 1);
    assert_eq!(resp.assets[0].hash, hash);
}

#[test]
fn unknown_reference_is_ignored_and_share_succeeds() {
    let mut store = Store::new();
    let marker = "asset://0000000000000000000000000000000000000000000000000000000000000000";
    let r = share_ok(&mut store, vec![Part::CaseData(doc(marker))], 1);
    assert_eq!(store.assets.len(), 0);
    let resp = import_case(&store, &r.share_code, NOW).unwrap();
    assert_eq!(resp.assets.len(), 0);
}

#[test]
fn import_returns_exact_body_and_proxied_urls() {
    let mut store = Store::new();
    let bytes = pdf_bytes(b"attachment");
    let body = JsonValue::Obj(vec![
        ("title".to_string(), JsonValue::Str("a case".to_string())),
        (
            "items".to_string(),
            JsonValue::Arr(vec![JsonValue::Number("42".to_string()), JsonValue::Bool(false)]),
        ),
    ]);
    let r = share_ok(
        &mut store,
        vec![Part::CaseData(body), Part::File(bytes.clone())],
        1,
    );
    assert_eq!(r.expires_at, NOW + SHARE_LIFETIME_SECONDS);

    let resp = import_case(&store, &r.share_code, NOW + 10).unwrap();
    let expected_body = JsonValue::Obj(vec![
        ("title".to_string(), JsonValue::Str("a case".to_string())),
        (
            "items".to_string(),
            JsonValue::Arr(vec![JsonValue::Number("42".to_string()), JsonValue::Bool(false)]),
        ),
    ]);
    assert_eq!(resp.case_data, expected_body);
    assert_eq!(resp.assets.len(), 1);
    let hash = content_hash(&bytes);
    let path = format!("{}/{}/{}", &hash[0..2], &hash[2..4], hash);
    assert_eq!(resp.assets[0].url, format!("/storage/{}", path));
    assert_eq!(resp.assets[0].hash, hash);
    assert_eq!(resp.assets[0].mime, "application/pdf");
}

#[test]
fn import_of_expired_code_is_expired_not_notfound() {
    let mut store = Store::new();
    let r = share_ok(&mut store, vec![Part::CaseData(doc("soon gone"))], 1);
    let after_expiry = r.expires_at + 1;
    assert_eq!(
        import_case(&store, &r.share_code, after_expiry).err(),
        Some(ImportError::Expired)
    );
    assert!(import_case(&store, &r.share_code, r.expires_at).is_ok());
}

#[test]
fn import_of_unknown_code_is_notfound() {
    let mut store = Store::new();
    let _ = share_ok(&mut store, vec![Part::CaseData(doc("present"))], 1);
    assert_eq!(
        import_case(&store, "ZZZZZZ", NOW).err(),
        Some(ImportError::NotFound)
    );
}

#[test]
fn unsniffable_file_is_skipped_and_share_succeeds() {
    let mut store = Store::new();
    let r = share_case(
        &mut store,
        vec![
            Part::File(b"just plain text, no signature".to_vec()),
            Part::CaseData(doc("text upload")),
        ],
        NOW,
        &cands(1),
    );
    assert!(r.is_ok());
    assert_eq!(store.assets.len(), 0);
    assert_eq!(store.objects.len(), 0);
}

#[test]
fn disallowed_sniffed_type_is_skipped_and_rejected_by_the_asset_store() {
    let mut zip = b"PK\x03\x04".to_vec();
    zip.extend_from_slice(&[0u8; 28]);

    let mut store = Store::new();
    assert_eq!(
        store.resolve_or_create(&zip).err(),
        Some(ShareError::UnsupportedContent)
    );
    let r = share_case(
        &mut store,
        vec![Part::File(zip), Part::CaseData(doc("zip upload"))],
        NOW,
        &cands(1),
    );
    assert!(r.is_ok());
    assert_eq!(store.assets.len(), 0);
}

#[test]
fn missing_case_data_fails_but_keeps_uploaded_assets() {
    let mut store = Store::new();
    let bytes = pdf_bytes(b"kept even so");
    let r = share_case(&mut store, vec![Part::File(bytes.clone())], NOW, &cands(1));
    assert_eq!(r.err(), Some(ShareError::MissingCaseData));
    assert_eq!(store.assets.len(), 1);
    assert_eq!(store.assets[0].file_hash, content_hash(&bytes));
    assert_eq!(store.cases.len(), 0);
    assert_eq!(store.links.len(), 0);
}

#[test]
fn last_case_data_part_wins() {
    let mut store = Store::new();
    let r = share_ok(
        &mut store,
        vec![Part::CaseData(doc("earlier")), Part::CaseData(doc("later"))],
        1,
    );
    let resp = import_case(&store, &r.share_code, NOW).unwrap();
    assert_eq!(resp.case_data, doc("later"));
}

#[test]
fn share_with_generated_code_yields_wellformed_fresh_code() {
    let mut store = Store::new();
    let r = share_case_with_generated_code(&mut store, vec![Part::CaseData(doc("auto"))], NOW)
        .unwrap();
    assert_eq!(r.share_code.len(), 6);
    assert!(r.share_code.chars().all(|c| c.is_ascii_digit() || c.is_ascii_uppercase()));
    assert!(import_case(&store, &r.share_code, NOW).is_ok());
}

#[test]
fn error_labels_name_each_failure() {
    assert_eq!(ShareError::MissingCaseData.label(), "missing case_data");
    assert_eq!(ShareError::UnsupportedContent.label(), "unsupported content type");
    assert_eq!(
        ShareError::CodeSpaceExhausted.label(),
        "could not allocate a unique share code"
    );
    assert_eq!(ShareError::UpstreamFailure.label(), "storage or database failure");
    assert_eq!(ImportError::NotFound.label(), "case not found");
    assert_eq!(ImportError::Expired.label(), "case expired");
}

#[test]
fn duplicate_file_in_one_request_links_once() {
    let mut store = Store::new();
    let bytes = pdf_bytes(b"twice in one request");
    let r = share_ok(
        &mut store,
        vec![
            Part::File(bytes.clone()),
            Part::File(bytes.clone()),
            Part::CaseData(doc("dup")),
        ],
        1,
    );
    assert_eq!(store.assets.len(), 1);
    assert_eq!(store.links.len(), 1);
    let resp = import_case(&store, &r.share_code, NOW).unwrap();
    assert_eq!(resp.assets.len(), 1);
}
