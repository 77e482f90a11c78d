use request_logging::record::{request_record, request_record_text};
use request_logging::router::RequestLogger;
use serde_json::Value;

fn sample_payload() -> Value {
    let mut inner = serde_json::Map::new();
    inner.insert("role".to_string(), Value::String("user".to_string()));
    inner.insert("text".to_string(), Value::String("hi\nthere".to_string()));
    let mut obj = serde_json::Map::new();
    obj.insert("model".to_string(), Value::String("m1".to_string()));
    obj.insert("input".to_string(), Value::Array(vec![Value::Object(inner)]));
    obj.insert("stream".to_string(), Value::Bool(true));
    Value::Object(obj)
}

#[test]
fn request_record_text_is_exact() {
    let text = request_record_text("T", 3, "https://example.com/v1", "{\n  \"a\": 1\n}");
    assert_eq!(
        text,
        "{\n  \"timestamp\": \"T\",\n  \"attempt\": 3,\n  \"url\": \"https://example.com/v1\",\n  \"payload\": {\n    \"a\": 1\n  }\n}\n"
    );
}

#[test]
fn request_record_with_scalar_payload() {
    let text = request_record_text("T", 0, "u\"", "null");
    assert_eq!(
        text,
        "{\n  \"timestamp\": \"T\",\n  \"attempt\": 0,\n  \"url\": \"u\\\"\",\n  \"payload\": null\n}\n"
    );
}

#[test]
fn request_record_parses_to_its_fields() {
    let payload = sample_payload();
    let text = request_record(12, "https://api.example/responses", &payload);
    assert!(text.ends_with("}\n"));
    let v: Value = serde_json::from_str(&text).unwrap();
    assert_eq!(v["attempt"], 12);
    assert_eq!(v["url"], "https://api.example/responses");
    assert_eq!(v["payload"], payload);
    assert!(v["timestamp"].as_str().unwrap().ends_with('Z'));
}

#[test]
fn nested_payload_is_indented_like_serde_json() {
    let payload = sample_payload();
    let mut record = serde_json::Map::new();
    record.insert("payload".to_string(), payload.clone());
    let expected_tail = serde_json::to_string_pretty(&Value::Object(record)).unwrap();
    let text = request_record_text("T", 1, "u", &serde_json::to_string_pretty(&payload).unwrap());
    let body = expected_tail.trim_start_matches("{\n").trim_end_matches("\n}");
    assert!(text.contains(body));
}

#[test]
fn prepared_attempt_names_both_files() {
    let logger = RequestLogger::from_env(Some("/logs"), "abc").unwrap();
    let files = logger.prepare_attempt(4, "https://x", &Value::Null);
    assert_eq!(files.request_path, "/logs/abc/attempt-004-request.json");
    assert_eq!(files.response_path, "/logs/abc/attempt-004-response.jsonl");
    let v: Value = serde_json::from_str(&files.request_text).unwrap();
    assert_eq!(v["attempt"], 4);
    assert_eq!(v["url"], "https://x");
    assert_eq!(v["payload"], Value::Null);
}
