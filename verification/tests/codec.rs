//! The manifest and registry codecs, exercised on concrete documents and
//! cross-checked against an independent JSON implementation.

use kmmgr::json::{records_from_json, records_to_json, registry_from_json};
use kmmgr::records::{Metadata, Record, Records};
use kmmgr::sources::{classify_source, decode_hex_payload, registry_from_hex_payload, SourceKind};

fn two_record_manifest() -> Records {
    let mut records = Records::new();
    records.insert(
        "m1".to_string(),
        Record {
            metadata: None,
            update_time: 1700000000,
            version: "1.0".to_string(),
            files: vec!["a.txt".to_string(), "dir/b.txt".to_string()],
        },
    );
    records.insert(
        "m2".to_string(),
        Record {
            metadata: Some(Metadata {}),
            update_time: 0,
            version: "0.2-beta".to_string(),
            files: vec![],
        },
    );
    records
}

#[test]
fn empty_manifest_round_trip() {
    let records = Records::new();
    let text = records_to_json(&records);
    assert_eq!(text, "{}");
    let back = records_from_json(&text).expect("empty manifest must parse");
    assert_eq!(back.records.len(), 0);
}

#[test]
fn manifest_round_trip_two_records() {
    let records = two_record_manifest();
    let text = records_to_json(&records);
    let back = records_from_json(&text).expect("written manifest must parse");
    assert_eq!(back.records.len(), 2);
    let m1 = back.get("m1").expect("m1 survives");
    assert_eq!(m1.version, "1.0");
    assert_eq!(m1.update_time, 1700000000);
    assert_eq!(m1.files, vec!["a.txt".to_string(), "dir/b.txt".to_string()]);
    assert!(m1.metadata.is_none());
    let m2 = back.get("m2").expect("m2 survives");
    assert_eq!(m2.version, "0.2-beta");
    assert_eq!(m2.update_time, 0);
    assert!(m2.files.is_empty());
    assert!(m2.metadata.is_some());
}

#[test]
fn manifest_round_trip_escaped_strings() {
    let mut records = Records::new();
    records.insert(
        "odd \"id\"\\with\nnoise".to_string(),
        Record {
            metadata: None,
            update_time: 7,
            version: "v\t1".to_string(),
            files: vec!["we\"ird\\名前\u{1}.txt".to_string()],
        },
    );
    let text = records_to_json(&records);
    let back = records_from_json(&text).expect("escapes must survive");
    let rec = back.get("odd \"id\"\\with\nnoise").expect("key survives");
    assert_eq!(rec.version, "v\t1");
    assert_eq!(rec.files, vec!["we\"ird\\名前\u{1}.txt".to_string()]);
}

#[test]
fn manifest_written_form_is_canonical() {
    let mut records = Records::new();
    records.insert(
        "m1".to_string(),
        Record {
            metadata: None,
            update_time: 42,
            version: "1.0".to_string(),
            files: vec!["a.txt".to_string()],
        },
    );
    let text = records_to_json(&records);
    assert_eq!(
        text,
        "{\"m1\":{\"metadata\":null,\"update_time\":42,\"version\":\"1.0\",\"files\":[\"a.txt\"]}}"
    );
}

#[test]
fn written_manifest_parses_with_independent_reader() {
    let records = two_record_manifest();
    let text = records_to_json(&records);
    let value: serde_json::Value =
        serde_json::from_str(&text).expect("an independent JSON reader accepts the manifest");
    let obj = value.as_object().expect("a manifest is an object");
    assert_eq!(obj.len(), 2);
    let m1 = obj.get("m1").and_then(|v| v.as_object()).expect("m1 is an object");
    assert_eq!(m1.get("version").and_then(|v| v.as_str()), Some("1.0"));
    assert_eq!(m1.get("update_time").and_then(|v| v.as_u64()), Some(1700000000));
    let files = m1.get("files").and_then(|v| v.as_array()).expect("files is an array");
    assert_eq!(files.len(), 2);
    assert_eq!(files[0].as_str(), Some("a.txt"));
    assert!(m1.get("metadata").expect("metadata present").is_null());
}

#[test]
fn independent_writer_output_parses() {
    // The same shape serde_json would emit for the manifest structure.
    let text = "{\"m9\":{\"metadata\":null,\"update_time\":5,\"version\":\"2\",\"files\":[\"x\",\"y/z\"]}}";
    let value: serde_json::Value = serde_json::from_str(text).unwrap();
    assert!(value.is_object());
    let records = records_from_json(text).expect("compact canonical form parses");
    let rec = records.get("m9").expect("m9 listed");
    assert_eq!(rec.update_time, 5);
    assert_eq!(rec.files, vec!["x".to_string(), "y/z".to_string()]);
}

#[test]
fn manifest_reader_tolerates_whitespace() {
    let text = "{ \"m1\" : {\"metadata\": null, \"update_time\": 1, \"version\": \"v\", \"files\": [ \"a\" , \"b\" ]} }";
    let records = records_from_json(text).expect("whitespace between tokens is fine");
    let rec = records.get("m1").expect("m1 listed");
    assert_eq!(rec.files, vec!["a".to_string(), "b".to_string()]);
}

#[test]
fn manifest_reader_rejects_bad_documents() {
    // trailing text
    assert!(records_from_json("{} trailing").is_none());
    // repeated id
    let dup = "{\"m\":{\"metadata\":null,\"update_time\":1,\"version\":\"a\",\"files\":[]},\"m\":{\"metadata\":null,\"update_time\":2,\"version\":\"b\",\"files\":[]}}";
    assert!(records_from_json(dup).is_none());
    // not even JSON
    assert!(records_from_json("").is_none());
    assert!(records_from_json("[]").is_none());
    // number too large for the update-time field
    let big = "{\"m\":{\"metadata\":null,\"update_time\":99999999999999999999999,\"version\":\"a\",\"files\":[]}}";
    assert!(records_from_json(big).is_none());
}

#[test]
fn registry_parses_one_entry() {
    let doc = "{\"m1\":{\"id\":\"m1\",\"version\":\"1.0\",\"url\":\"https://x/m1.zip\",\"image_url\":\"\",\"name\":\"Mod One\"}}";
    let reg = registry_from_json(doc).expect("registry document parses");
    assert_eq!(reg.len(), 1);
    let m = reg.get("m1").expect("m1 listed");
    assert_eq!(m.id, "m1");
    assert_eq!(m.version, "1.0");
    assert_eq!(m.url, "https://x/m1.zip");
    assert_eq!(m.image_url, "");
    assert_eq!(m.name, "Mod One");
}

#[test]
fn registry_rejects_bad_documents() {
    assert!(registry_from_json("{\"m1\":{}}").is_none());
    assert!(registry_from_json("{\"m1\":{\"id\":\"m1\"}}").is_none());
    assert!(registry_from_json("").is_none());
}

#[test]
fn data_hex_registry_decodes_to_one_entry() {
    let doc = "{\"m1\":{\"id\":\"m1\",\"version\":\"1.0\",\"url\":\"https://x/m1.zip\",\"image_url\":\"\",\"name\":\"Mod One\"}}";
    let payload = hex::encode(doc.as_bytes());
    let url = format!("data:hex;{}", payload);
    match classify_source(&url) {
        SourceKind::DataHex(p) => {
            assert_eq!(p, payload);
            let text = decode_hex_payload(&p).expect("hex payload decodes");
            assert_eq!(text, doc);
            let reg = registry_from_hex_payload(&p).expect("decoded registry parses");
            assert_eq!(reg.len(), 1);
            assert_eq!(reg.get("m1").unwrap().name, "Mod One");
        }
        other => panic!("expected a hex data source, got {:?}", other),
    }
}

#[test]
fn source_classification() {
    assert!(matches!(classify_source("https://host/reg"), SourceKind::Http));
    assert!(matches!(classify_source("HTTP://host/reg"), SourceKind::Http));
    assert!(matches!(classify_source("http://host"), SourceKind::Http));
    assert!(matches!(classify_source("file:///tmp/reg.json"), SourceKind::File));
    assert!(matches!(classify_source("ftp://host"), SourceKind::Unsupported));
    assert!(matches!(classify_source("no-scheme-here"), SourceKind::Unsupported));
    // an untagged data payload is taken as hex
    match classify_source("data:00ff") {
        SourceKind::DataHex(p) => assert_eq!(p, "00ff"),
        other => panic!("expected hex data, got {:?}", other),
    }
    // an unknown encoding tag is refused loudly
    assert!(matches!(classify_source("data:base64;AAAA"), SourceKind::Unsupported));
}

#[test]
fn hex_payload_errors_surface() {
    assert!(decode_hex_payload("0").is_none()); // odd length
    assert!(decode_hex_payload("zz").is_none()); // not hex
    assert!(decode_hex_payload("ff").is_none()); // not UTF-8
    assert_eq!(decode_hex_payload("7a").as_deref(), Some("z"));
}
