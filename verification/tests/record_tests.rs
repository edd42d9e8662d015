use update_store::record::parse_record;
use update_store::record::plan_append;
use update_store::record::record_fields;
use update_store::record::sorted_updates_name;
use update_store::record::updates_namespace;
use update_store::record::StoreError;
use update_store::record::Update;

fn pairs(raw: &[(&str, &str)]) -> Vec<(String, String)> {
    raw.iter().map(|(f, v)| (f.to_string(), v.to_string())).collect()
}

#[test]
fn update_new_sets_fields() {
    let u = Update::new(42, "hi".to_string());
    assert_eq!(u.user_id, 42);
    assert_eq!(u.message, "hi");
    assert_eq!(u.time, 0);
}

#[test]
fn record_fields_layout() {
    let fields = record_fields(42, "hi there", 1700000000);
    assert_eq!(
        fields,
        pairs(&[("user_id", "42"), ("message", "hi there"), ("time", "1700000000")])
    );
}

#[test]
fn record_round_trip() {
    let fields = record_fields(42, "hello", 1700000123);
    let u = parse_record(&fields).unwrap();
    assert_eq!(u.user_id, 42);
    assert_eq!(u.message, "hello");
    assert_eq!(u.time, 1700000123);
}

#[test]
fn record_round_trip_empty_message() {
    let fields = record_fields(0, "", 0);
    let u = parse_record(&fields).unwrap();
    assert_eq!(u.user_id, 0);
    assert_eq!(u.message, "");
    assert_eq!(u.time, 0);
}

#[test]
fn parse_accepts_any_field_order() {
    let fields = pairs(&[("time", "5"), ("message", "yo"), ("user_id", "7")]);
    let u = parse_record(&fields).unwrap();
    assert_eq!(u.user_id, 7);
    assert_eq!(u.message, "yo");
    assert_eq!(u.time, 5);
}

#[test]
fn parse_fails_on_missing_user_id() {
    let fields = pairs(&[("message", "yo"), ("time", "5")]);
    let e = parse_record(&fields).unwrap_err();
    assert_eq!(e, StoreError::Deserialization("user_id".to_string()));
}

#[test]
fn parse_fails_on_bad_user_id() {
    let fields = pairs(&[("user_id", "abc"), ("message", "yo"), ("time", "5")]);
    let e = parse_record(&fields).unwrap_err();
    assert_eq!(e, StoreError::Deserialization("user_id".to_string()));
}

#[test]
fn parse_fails_on_missing_message() {
    let fields = pairs(&[("user_id", "7"), ("time", "5")]);
    let e = parse_record(&fields).unwrap_err();
    assert_eq!(e, StoreError::Deserialization("message".to_string()));
}

#[test]
fn parse_fails_on_missing_time() {
    let fields = pairs(&[("user_id", "7"), ("message", "yo")]);
    let e = parse_record(&fields).unwrap_err();
    assert_eq!(e, StoreError::Deserialization("time".to_string()));
}

#[test]
fn parse_fails_on_bad_time() {
    let fields = pairs(&[("user_id", "7"), ("message", "yo"), ("time", "later")]);
    let e = parse_record(&fields).unwrap_err();
    assert_eq!(e, StoreError::Deserialization("time".to_string()));
}

#[test]
fn parse_fails_on_empty_record() {
    let fields: Vec<(String, String)> = Vec::new();
    let e = parse_record(&fields).unwrap_err();
    assert_eq!(e, StoreError::Deserialization("user_id".to_string()));
}

#[test]
fn parse_fails_on_oversized_user_id() {
    let fields = pairs(&[("user_id", "18446744073709551616"), ("message", "yo"), ("time", "5")]);
    let e = parse_record(&fields).unwrap_err();
    assert_eq!(e, StoreError::Deserialization("user_id".to_string()));
}

#[test]
fn store_names() {
    assert_eq!(updates_namespace(), "spiralbot:updates");
    assert_eq!(sorted_updates_name(), "spiralbot:sorted_updates");
}

#[test]
fn plan_append_lays_out_the_two_writes() {
    let p = plan_append(42, "hi");
    assert!(p.key.starts_with("spiralbot:updates:"));
    assert_eq!(p.key.len(), "spiralbot:updates:".len() + 36);
    assert_eq!(
        p.fields,
        pairs(&[
            ("user_id", "42"),
            ("message", "hi"),
            ("time", &p.time.to_string()),
        ])
    );
}

#[test]
fn plan_append_keys_differ() {
    let a = plan_append(1, "x");
    let b = plan_append(1, "x");
    assert_ne!(a.key, b.key);
}
