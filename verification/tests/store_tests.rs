use reframe_core::errors::RecError;
use reframe_core::metadata::{parse_metadata, rename_plan, serialize_metadata, Metadata};
use reframe_core::store::{list_sessions, SessionEntry};

fn entry(name: &str, meta: Option<&str>, created: u64, size: u64) -> SessionEntry {
    SessionEntry {
        name: name.to_string(),
        is_dir: true,
        has_artifact: true,
        metadata: meta.map(|m| m.to_string()),
        created_secs: created,
        artifact_size: size,
        artifact_path: format!("/root/{}/screen.mp4", name),
    }
}

#[test]
fn list_empty_root_yields_nothing() {
    let out = list_sessions(Vec::new());
    assert!(out.is_empty());
}

#[test]
fn list_skips_directory_without_artifact_even_with_metadata() {
    let mut e = entry(
        "Session_a",
        Some("{\"name\":\"A\",\"duration\":\"01:02\",\"timestamp\":100}"),
        5,
        0,
    );
    e.has_artifact = false;
    let out = list_sessions(vec![e]);
    assert!(out.is_empty());
}

#[test]
fn list_skips_non_session_names_and_files() {
    let good = entry("Session_ok", None, 7, 0);
    let bad_name = entry("Other_dir", None, 7, 0);
    let mut not_dir = entry("Session_file", None, 7, 0);
    not_dir.is_dir = false;
    let out = list_sessions(vec![bad_name, good, not_dir]);
    assert_eq!(out.len(), 1);
    assert_eq!(out[0].folder, "Session_ok");
}

#[test]
fn metadata_round_trip_through_listing() {
    let e = entry(
        "Session_x",
        Some("{\"name\":\"A\",\"duration\":\"01:02\",\"timestamp\":100}"),
        999,
        0,
    );
    let out = list_sessions(vec![e]);
    assert_eq!(out.len(), 1);
    assert_eq!(out[0].id, 100);
    assert_eq!(out[0].name, "A");
    assert_eq!(out[0].duration, "01:02");
    assert_eq!(out[0].size, "0.0 MB");
    assert_eq!(out[0].files, vec!["screen.mp4".to_string()]);
    assert_eq!(out[0].full_path, "/root/Session_x/screen.mp4");
}

#[test]
fn listing_defaults_without_metadata() {
    let e = entry("Session_y", None, 424242, 1572864);
    let out = list_sessions(vec![e]);
    assert_eq!(out.len(), 1);
    assert_eq!(out[0].id, 424242);
    assert_eq!(out[0].name, "Session_y");
    assert_eq!(out[0].duration, "00:00");
    assert_eq!(out[0].size, "1.5 MB");
}

#[test]
fn listing_falls_back_to_creation_time_for_zero_timestamp() {
    let e = entry(
        "Session_z",
        Some("{\"name\":\"Z\",\"duration\":\"00:10\",\"timestamp\":0}"),
        777,
        0,
    );
    let out = list_sessions(vec![e]);
    assert_eq!(out[0].id, 777);
    assert_eq!(out[0].name, "Z");
}

#[test]
fn corrupt_metadata_degrades_to_defaults() {
    let e = entry("Session_c", Some("{not json"), 11, 0);
    let out = list_sessions(vec![e]);
    assert_eq!(out[0].id, 11);
    assert_eq!(out[0].name, "Session_c");
    assert_eq!(out[0].duration, "00:00");
}

#[test]
fn listing_sorts_newest_first() {
    let a = entry(
        "Session_a",
        Some("{\"name\":\"a\",\"duration\":\"0\",\"timestamp\":5}"),
        0,
        0,
    );
    let b = entry(
        "Session_b",
        Some("{\"name\":\"b\",\"duration\":\"0\",\"timestamp\":10}"),
        0,
        0,
    );
    let c = entry(
        "Session_c",
        Some("{\"name\":\"c\",\"duration\":\"0\",\"timestamp\":7}"),
        0,
        0,
    );
    let out = list_sessions(vec![a, b, c]);
    let ids: Vec<u64> = out.iter().map(|r| r.id).collect();
    assert_eq!(ids, vec![10, 7, 5]);
}

#[test]
fn rename_without_metadata_is_a_silent_success() {
    assert_eq!(rename_plan(None, "New"), Ok(None));
}

#[test]
fn rename_of_corrupt_metadata_fails() {
    let content = "definitely { not json".to_string();
    assert_eq!(rename_plan(Some(&content), "New"), Err(RecError::Filesystem));
}

#[test]
fn rename_rewrites_only_the_name() {
    let content = "{\"name\":\"Old\",\"duration\":\"01:02\",\"timestamp\":100}".to_string();
    let out = rename_plan(Some(&content), "New").unwrap().unwrap();
    assert_eq!(out, "{\"name\":\"New\",\"duration\":\"01:02\",\"timestamp\":100}");
}

#[test]
fn serialize_then_parse_is_identity() {
    let m = Metadata {
        name: "a\"b\\c\nd\te/f".to_string(),
        duration: "01:02".to_string(),
        timestamp: 98765,
    };
    let text = serialize_metadata(&m);
    let back = parse_metadata(&text).unwrap();
    assert_eq!(back.name, m.name);
    assert_eq!(back.duration, m.duration);
    assert_eq!(back.timestamp, m.timestamp);
}

#[test]
fn serialize_escapes_control_characters() {
    let m = Metadata {
        name: "a\u{0001}b".to_string(),
        duration: "x".to_string(),
        timestamp: 1,
    };
    let text = serialize_metadata(&m);
    assert_eq!(text, "{\"name\":\"a\\u0001b\",\"duration\":\"x\",\"timestamp\":1}");
    let back = parse_metadata(&text).unwrap();
    assert_eq!(back.name, "a\u{0001}b");
}

#[test]
fn parse_accepts_whitespace_and_any_field_order() {
    let text = " { \"timestamp\" : 7 , \"duration\" : \"d\" , \"name\" : \"n\" } ";
    let m = parse_metadata(text).unwrap();
    assert_eq!(m.name, "n");
    assert_eq!(m.duration, "d");
    assert_eq!(m.timestamp, 7);
}

#[test]
fn parse_skips_unknown_scalar_fields() {
    let text = "{\"name\":\"n\",\"extra\":\"zz\",\"count\":12,\"duration\":\"d\",\"timestamp\":3}";
    let m = parse_metadata(text).unwrap();
    assert_eq!(m.timestamp, 3);
}

#[test]
fn parse_rejects_malformed_metadata() {
    assert!(parse_metadata("").is_none());
    assert!(parse_metadata("{}").is_none());
    assert!(parse_metadata("{\"name\":\"n\",\"duration\":\"d\"}").is_none());
    assert!(parse_metadata("{\"name\":\"n\",\"duration\":\"d\",\"timestamp\":\"3\"}").is_none());
    assert!(
        parse_metadata("{\"name\":\"n\",\"name\":\"m\",\"duration\":\"d\",\"timestamp\":3}")
            .is_none()
    );
    assert!(
        parse_metadata("{\"name\":\"n\",\"duration\":\"d\",\"timestamp\":3} trailing").is_none()
    );
    assert!(
        parse_metadata("{\"name\":\"n\",\"duration\":\"d\",\"timestamp\":99999999999999999999}")
            .is_none()
    );
    assert!(parse_metadata("{\"name\":\"\\uD800\",\"duration\":\"d\",\"timestamp\":3}").is_none());
}

#[test]
fn parse_decodes_unicode_escape() {
    let m = parse_metadata("{\"name\":\"\\u0041\",\"duration\":\"d\",\"timestamp\":3}").unwrap();
    assert_eq!(m.name, "A");
}

#[test]
fn serialize_handles_non_ascii_names() {
    let m = Metadata {
        name: "héllo wörld ✓".to_string(),
        duration: "10:00".to_string(),
        timestamp: 42,
    };
    let text = serialize_metadata(&m);
    let back = parse_metadata(&text).unwrap();
    assert_eq!(back.name, "héllo wörld ✓");
    assert_eq!(back.timestamp, 42);
}

#[test]
fn rename_output_parses_back_with_the_new_name() {
    let m = Metadata {
        name: "Old".to_string(),
        duration: "00:30".to_string(),
        timestamp: 7,
    };
    let content = serialize_metadata(&m);
    let renamed = rename_plan(Some(&content), "A \"quoted\" name").unwrap().unwrap();
    let back = parse_metadata(&renamed).unwrap();
    assert_eq!(back.name, "A \"quoted\" name");
    assert_eq!(back.duration, "00:30");
    assert_eq!(back.timestamp, 7);
}

#[test]
fn parse_decodes_surrogate_pairs() {
    let m = parse_metadata("{\"name\":\"\\uD834\\uDD1E\",\"duration\":\"d\",\"timestamp\":3}")
        .unwrap();
    assert_eq!(m.name, "\u{1D11E}");
}

#[test]
fn parse_skips_unknown_fields_of_any_shape() {
    let text = "{\"name\":\"n\",\"flag\":true,\"level\":null,\"off\":false,\"gain\":-1.5e3,\
\"tags\":[\"a\",{\"x\":1},[]],\"meta\":{\"a\":{\"b\":[false,null]}},\
\"duration\":\"d\",\"timestamp\":3}";
    let m = parse_metadata(text).unwrap();
    assert_eq!(m.name, "n");
    assert_eq!(m.duration, "d");
    assert_eq!(m.timestamp, 3);
}

#[test]
fn parse_rejects_malformed_unknown_values() {
    assert!(parse_metadata("{\"name\":\"n\",\"bad\":tru,\"duration\":\"d\",\"timestamp\":3}")
        .is_none());
    assert!(parse_metadata("{\"name\":\"n\",\"bad\":[1,,\"duration\":\"d\",\"timestamp\":3}")
        .is_none());
    assert!(parse_metadata("{\"name\":\"n\",\"bad\":{\"open\":1,\"duration\":\"d\",\"timestamp\":3}")
        .is_none());
    assert!(parse_metadata("{\"name\":\"\\uDC00\",\"duration\":\"d\",\"timestamp\":3}").is_none());
}
