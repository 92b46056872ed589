use caseshare::json::{clone_value, extract_existing_hashes, JsonValue};

fn obj(members: Vec<(&str, JsonValue)>) -> JsonValue {
    JsonValue::Obj(members.into_iter().map(|(k, v)| (k.to_string(), v)).collect())
}

fn s(text: &str) -> JsonValue {
    JsonValue::Str(text.to_string())
}

#[test]
fn extracts_nothing_from_scalars_and_plain_strings() {
    let doc = obj(vec![
        ("title", s("a case")),
        ("count", JsonValue::Number("3".to_string())),
        ("open", JsonValue::Bool(true)),
        ("note", JsonValue::Null),
        ("link", s("https://example.test/asset")),
    ]);
    assert!(extract_existing_hashes(&doc).is_empty());
}

#[test]
fn extracts_markers_depth_first_in_order_with_duplicates() {
    let doc = obj(vec![
        ("first", s("asset://aa11")),
        (
            "nested",
            JsonValue::Arr(vec![
                s("asset://bb22"),
                obj(vec![("deep", s("asset://aa11"))]),
                s("plain"),
            ]),
        ),
        ("last", s("asset://cc33")),
    ]);
    let hashes = extract_existing_hashes(&doc);
    let expected: Vec<String> =
        vec!["aa11".to_string(), "bb22".to_string(), "aa11".to_string(), "cc33".to_string()];
    assert_eq!(hashes, expected);
}

#[test]
fn marker_prefix_must_match_exactly() {
    let doc = JsonValue::Arr(vec![
        s("asset:/aa11"),
        s("Asset://aa11"),
        s(" asset://aa11"),
        s("asset://"),
    ]);
    let hashes = extract_existing_hashes(&doc);
    let expected: Vec<String> = vec!["".to_string()];
    assert_eq!(hashes, expected);
}

#[test]
fn clone_preserves_the_document() {
    let doc = obj(vec![
        ("title", s("a case")),
        ("items", JsonValue::Arr(vec![JsonValue::Number("1".to_string()), s("asset://dd44")])),
    ]);
    let copy = clone_value(&doc);
    assert_eq!(copy, doc);
}
