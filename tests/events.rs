use request_logging::events::{encode_event_line, event_line_now, ResponseEvent};
use request_logging::headers::{group_headers, text_less};
use serde_json::Value;

fn pairs(items: &[(&str, &str)]) -> Vec<(String, String)> {
    items.iter().map(|(n, v)| (n.to_string(), v.to_string())).collect()
}

fn parse(line: &str) -> Value {
    assert!(line.ends_with('\n'));
    assert_eq!(line.matches('\n').count(), 1);
    serde_json::from_str(line.trim_end_matches('\n')).unwrap()
}

#[test]
fn stream_event_line_is_exact() {
    let ev = ResponseEvent::SseEvent { event: Some("delta".to_string()), data: "{\"x\":1}".to_string() };
    assert_eq!(
        encode_event_line("2024-01-02T03:04:05.678Z", &ev),
        "{\"timestamp\":\"2024-01-02T03:04:05.678Z\",\"type\":\"sse_event\",\"event\":\"delta\",\"data\":\"{\\\"x\\\":1}\"}\n"
    );
}

#[test]
fn stream_event_without_name_is_null() {
    let ev = ResponseEvent::SseEvent { event: None, data: "d".to_string() };
    assert_eq!(
        encode_event_line("T", &ev),
        "{\"timestamp\":\"T\",\"type\":\"sse_event\",\"event\":null,\"data\":\"d\"}\n"
    );
}

#[test]
fn closed_error_and_info_lines_are_exact() {
    let closed = ResponseEvent::SseClosed { reason: "eof".to_string() };
    assert_eq!(
        encode_event_line("T", &closed),
        "{\"timestamp\":\"T\",\"type\":\"sse_closed\",\"reason\":\"eof\"}\n"
    );
    let error = ResponseEvent::Error { message: "boom".to_string() };
    assert_eq!(
        encode_event_line("T", &error),
        "{\"timestamp\":\"T\",\"type\":\"error\",\"message\":\"boom\"}\n"
    );
    let info = ResponseEvent::Info { message: "hi".to_string() };
    assert_eq!(
        encode_event_line("T", &info),
        "{\"timestamp\":\"T\",\"type\":\"info\",\"message\":\"hi\"}\n"
    );
}

#[test]
fn error_response_line_is_exact() {
    let ev = ResponseEvent::ErrorResponse { status: 429, body: "slow down".to_string() };
    assert_eq!(
        encode_event_line("T", &ev),
        "{\"timestamp\":\"T\",\"type\":\"error_response\",\"status\":429,\"body\":\"slow down\"}\n"
    );
}

#[test]
fn response_started_groups_and_sorts_headers() {
    let headers = group_headers(&pairs(&[("x-b", "1"), ("content-type", "json"), ("x-b", "2")]));
    let ev = ResponseEvent::ResponseStarted { status: 200, headers };
    assert_eq!(
        encode_event_line("T", &ev),
        "{\"timestamp\":\"T\",\"type\":\"response_started\",\"status\":200,\"headers\":{\"content-type\":[\"json\"],\"x-b\":[\"1\",\"2\"]}}\n"
    );
}

#[test]
fn response_started_without_headers() {
    let ev = ResponseEvent::ResponseStarted { status: 0, headers: Vec::new() };
    assert_eq!(
        encode_event_line("T", &ev),
        "{\"timestamp\":\"T\",\"type\":\"response_started\",\"status\":0,\"headers\":{}}\n"
    );
}

#[test]
fn group_headers_keeps_value_order() {
    let groups = group_headers(&pairs(&[("b", "2"), ("a", "x"), ("b", "1"), ("c", ""), ("a", "y")]));
    assert_eq!(
        groups,
        vec![
            ("a".to_string(), vec!["x".to_string(), "y".to_string()]),
            ("b".to_string(), vec!["2".to_string(), "1".to_string()]),
            ("c".to_string(), vec!["".to_string()]),
        ]
    );
    assert!(group_headers(&Vec::new()).is_empty());
}

#[test]
fn text_less_orders_lexicographically() {
    assert!(text_less("a", "b"));
    assert!(text_less("ab", "abc"));
    assert!(!text_less("abc", "ab"));
    assert!(!text_less("same", "same"));
    assert!(text_less("", "a"));
    assert!(!text_less("b", "a"));
}

#[test]
fn escaped_fields_parse_back_to_the_same_values() {
    let nasty = "quote\" backslash\\ newline\n cr\r tab\t bell\u{7} unit\u{1f} é 日本 🎉";
    let ev = ResponseEvent::SseEvent { event: Some(nasty.to_string()), data: nasty.to_string() };
    let line = encode_event_line("T", &ev);
    assert!(line.contains("\\u0007"));
    assert!(line.contains("\\u001f"));
    let v = parse(&line);
    assert_eq!(v["event"], nasty);
    assert_eq!(v["data"], nasty);
    assert_eq!(v["type"], "sse_event");
}

#[test]
fn every_variant_parses_back_to_its_fields() {
    let headers = group_headers(&pairs(&[("set-cookie", "a=1"), ("date", "now"), ("set-cookie", "b=2")]));
    let started = parse(&encode_event_line("ts", &ResponseEvent::ResponseStarted { status: 201, headers }));
    assert_eq!(started["type"], "response_started");
    assert_eq!(started["status"], 201);
    assert_eq!(started["headers"]["date"], Value::Array(vec![Value::String("now".to_string())]));
    assert_eq!(started["headers"]["set-cookie"][0], "a=1");
    assert_eq!(started["headers"]["set-cookie"][1], "b=2");
    let keys: Vec<&String> = started["headers"].as_object().unwrap().keys().collect();
    assert_eq!(keys, vec!["date", "set-cookie"]);

    let closed = parse(&encode_event_line("ts", &ResponseEvent::SseClosed { reason: "done\n".to_string() }));
    assert_eq!(closed["reason"], "done\n");
    assert_eq!(closed["timestamp"], "ts");
    let err = parse(&encode_event_line("ts", &ResponseEvent::Error { message: "e\"".to_string() }));
    assert_eq!(err["message"], "e\"");
    let resp = parse(&encode_event_line("ts", &ResponseEvent::ErrorResponse { status: 503, body: "{}".to_string() }));
    assert_eq!(resp["status"], 503);
    assert_eq!(resp["body"], "{}");
    let info = parse(&encode_event_line("ts", &ResponseEvent::Info { message: "\\".to_string() }));
    assert_eq!(info["message"], "\\");
    assert_eq!(info["type"], "info");
}

#[test]
fn many_events_make_as_many_lines() {
    let mut stream = String::new();
    for i in 0..50u16 {
        let ev = match i % 3 {
            0 => ResponseEvent::Info { message: format!("line\nnumber {i}") },
            1 => ResponseEvent::SseEvent { event: None, data: format!("{i}\r\n") },
            _ => ResponseEvent::ErrorResponse { status: i, body: format!("\n{i}\n") },
        };
        stream.push_str(&encode_event_line("T", &ev));
    }
    let lines: Vec<&str> = stream.lines().collect();
    assert_eq!(lines.len(), 50);
    for (i, line) in lines.iter().enumerate() {
        let v: Value = serde_json::from_str(line).unwrap();
        match i % 3 {
            0 => assert_eq!(v["message"], format!("line\nnumber {i}")),
            1 => assert_eq!(v["data"], format!("{i}\r\n")),
            _ => assert_eq!(v["body"], format!("\n{i}\n")),
        }
    }
}

#[test]
fn line_stamped_now_has_a_utc_timestamp() {
    let line = event_line_now(&ResponseEvent::Info { message: "m".to_string() });
    let v = parse(&line);
    let ts = v["timestamp"].as_str().unwrap();
    assert_eq!(ts.len(), 24);
    assert!(ts.ends_with('Z'));
    assert_eq!(&ts[19..20], ".");
    assert_eq!(v["message"], "m");
}
