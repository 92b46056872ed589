use caseshare::codes::generate_share_code;
use caseshare::json::JsonValue;
use caseshare::share::{choose_unique_code, generate_unique_share_code, share_case, Part};
use caseshare::store::Store;
use caseshare::errors::ShareError;

fn candidates(names: &[&str]) -> Vec<String> {
    names.iter().map(|s| s.to_string()).collect()
}

fn store_with_codes(codes: &[&str]) -> Store {
    let mut store = Store::new();
    for code in codes {
        let mut cands: Vec<String> = Vec::new();
        cands.push(code.to_string());
        let parts = vec![Part::CaseData(JsonValue::Null)];
        let r = share_case(&mut store, parts, 0, &cands);
        assert!(r.is_ok());
    }
    store
}

#[test]
fn generated_code_is_six_uppercase_alphanumerics() {
    for _ in 0..50 {
        let code = generate_share_code();
        assert_eq!(code.len(), 6);
        assert!(code.chars().all(|c| c.is_ascii_digit() || c.is_ascii_uppercase()));
    }
}

#[test]
fn first_three_candidates_collide_fourth_wins() {
    let store = store_with_codes(&["AAAAA1", "AAAAA2", "AAAAA3"]);
    let cands = candidates(&[
        "AAAAA1", "AAAAA2", "AAAAA3", "FRESH4", "FRESH5", "FRESH6", "FRESH7", "FRESH8", "FRESH9",
        "FRESHA",
    ]);
    let picked = choose_unique_code(&store, &cands);
    assert_eq!(picked, Some("FRESH4".to_string()));
}

#[test]
fn all_ten_candidates_collide_exhausts_the_code_space() {
    let taken = [
        "CODE01", "CODE02", "CODE03", "CODE04", "CODE05", "CODE06", "CODE07", "CODE08", "CODE09",
        "CODE10",
    ];
    let store = store_with_codes(&taken);
    let cands = candidates(&taken);
    assert_eq!(choose_unique_code(&store, &cands), None);

    let mut store = store;
    let parts = vec![Part::CaseData(JsonValue::Null)];
    let r = share_case(&mut store, parts, 0, &candidates(&taken));
    assert_eq!(r.err(), Some(ShareError::CodeSpaceExhausted));
}

#[test]
fn exactly_ten_attempts_an_eleventh_candidate_is_never_tried() {
    let taken = [
        "CODE01", "CODE02", "CODE03", "CODE04", "CODE05", "CODE06", "CODE07", "CODE08", "CODE09",
        "CODE10",
    ];
    let store = store_with_codes(&taken);
    let mut cands = candidates(&taken);
    cands.push("FRESHX".to_string());
    assert_eq!(choose_unique_code(&store, &cands), None);
}

#[test]
fn generated_unique_code_is_fresh_and_well_formed() {
    let store = store_with_codes(&["AAAAA1"]);
    let code = generate_unique_share_code(&store).unwrap();
    assert_eq!(code.len(), 6);
    assert!(code.chars().all(|c| c.is_ascii_digit() || c.is_ascii_uppercase()));
    assert!(!store.code_exists(&code));
}
