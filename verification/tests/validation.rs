use gust::tooling::VerifyMode;
use gust::validation::{
    civil_from_days, compact_validation_summary, json_string, measurements_json, sha256_hex,
    utc_timestamp, validation_json, ArtifactRecord, CheckRecord, Measurement,
};

#[test]
fn json_strings_escape_quotes_and_control_characters() {
    assert_eq!(json_string("a\"b\\c\n\t\r\u{1}"), "\"a\\\"b\\\\c\\n\\t\\r\\u0001\"");
    assert_eq!(json_string(""), "\"\"");
    assert_eq!(json_string("\u{1f}é"), "\"\\u001fé\"");
}

#[test]
fn sha256_matches_known_digests() {
    assert_eq!(sha256_hex(b""), "e3b0c44298fc1c149afbf4c8996fb92427ae41e4649b934ca495991b7852b855");
    assert_eq!(sha256_hex(b"abc"), "ba7816bf8f01cfea414140de5dae2223b00361a396177a9cb410ff61f20015ad");
    assert_eq!(
        sha256_hex(b"abcdbcdecdefdefgefghfghighijhijkijkljklmklmnlmnomnopnopq"),
        "248d6a61d20638b8e5c026930c3e6039a33ce45964ff2167f6ecedd419db06c1"
    );
    let long = vec![b'a'; 1000];
    assert_eq!(sha256_hex(&long), "41edece42d63e8d9bf515a9ba6932e1c20cbc9f5a5d134645adb5db1b9737ea3");
}

#[test]
fn civil_dates_of_day_numbers() {
    assert_eq!(civil_from_days(0), (1970, 1, 1));
    assert_eq!(civil_from_days(-1), (1969, 12, 31));
    assert_eq!(civil_from_days(11_016), (2000, 2, 29));
    assert_eq!(civil_from_days(19_723), (2024, 1, 1));
    assert_eq!(civil_from_days(-719_468), (0, 3, 1));
    assert_eq!(civil_from_days(i64::MIN), (-25_252_734_927_764_585, 6, 7));
    assert_eq!(civil_from_days(i64::MAX - 719_468), (25_252_734_927_766_554, 9, 25));
}

#[test]
fn utc_time_stamps() {
    assert_eq!(utc_timestamp(0), "1970-01-01T00:00:00Z");
    assert_eq!(utc_timestamp(951_782_400 + 3_661), "2000-02-29T01:01:01Z");
    assert_eq!(utc_timestamp(-1), "1969-12-31T23:59:59Z");
}

#[test]
fn validation_record_text_and_summary() {
    let checks = vec![CheckRecord {
        program: "cargo".to_owned(),
        arguments: vec!["fmt".to_owned(), "--check".to_owned()],
        exit_code: Some(0),
        stdout: "ok\n".to_owned(),
        stderr: String::new(),
    }];
    let artifacts = vec![ArtifactRecord { file: "k.spv".to_owned(), sha256: "ab".to_owned() }];
    let failure = "boom".to_owned();
    let json = validation_json(
        VerifyMode::Full,
        "2024-01-01T00:00:00Z",
        "2024-01-01T00:01:00Z",
        Some(&failure),
        &checks,
        &artifacts,
    );
    assert!(json.starts_with("{\n  \"schema_version\": 1,\n  \"started_utc\": \"2024-01-01T00:00:00Z\",\n"));
    assert!(json.contains("  \"mode\": \"full\",\n  \"passed\": false,\n  \"failure\": \"boom\",\n"));
    assert!(json.contains("      \"arguments\": [\"fmt\", \"--check\"],\n      \"exit_code\": 0,\n"));
    assert!(json.contains("      \"stdout\": \"ok\\n\",\n"));
    assert!(json.contains("      \"file\": \"k.spv\",\n      \"sha256\": \"ab\",\n"));
    assert!(json.ends_with("\n  ]\n}\n"));
    assert_eq!(
        compact_validation_summary(&json),
        "finished=2024-01-01T00:01:00Z mode=full passed=false"
    );
    let passed = validation_json(VerifyMode::Smoke, "s", "f", None, &[], &[]);
    assert!(passed.contains("  \"passed\": true,\n  \"failure\": null,\n"));
    assert!(passed.contains("  \"checks\": [\n\n  ],\n"));
    assert_eq!(compact_validation_summary("{}"), "finished=unknown mode=unknown passed=unknown");
}

#[test]
fn measurement_records() {
    let json = measurements_json(&[Measurement { command: "cargo test".to_owned(), elapsed_ms: 12, exit_code: -1 }]);
    assert_eq!(
        json,
        "{\n  \"schema_version\": 1,\n  \"measurements\": [\n    { \"command\": \"cargo test\", \"elapsed_ms\": 12, \"exit_code\": -1 }\n  ]\n}\n"
    );
}
