use request_logging::naming::{
    attempt_label, decimal_text, padded_decimal, request_file_name, response_file_name,
};
use request_logging::router::{join, RequestLogger};

#[test]
fn attempt_label_pads_to_three_digits() {
    assert_eq!(attempt_label(0), "attempt-000");
    assert_eq!(attempt_label(7), "attempt-007");
    assert_eq!(attempt_label(42), "attempt-042");
    assert_eq!(attempt_label(999), "attempt-999");
}

#[test]
fn attempt_label_keeps_wider_numbers() {
    assert_eq!(attempt_label(1234), "attempt-1234");
    assert_eq!(attempt_label(u64::MAX), "attempt-18446744073709551615");
}

#[test]
fn decimal_text_writes_digits() {
    assert_eq!(decimal_text(0), "0");
    assert_eq!(decimal_text(10), "10");
    assert_eq!(decimal_text(90210), "90210");
    assert_eq!(padded_decimal(5), "005");
    assert_eq!(padded_decimal(55), "055");
    assert_eq!(padded_decimal(555), "555");
}

#[test]
fn file_names_of_an_attempt() {
    assert_eq!(request_file_name(3), "attempt-003-request.json");
    assert_eq!(response_file_name(3), "attempt-003-response.jsonl");
    assert_eq!(response_file_name(1000), "attempt-1000-response.jsonl");
}

#[test]
fn join_puts_one_separator() {
    assert_eq!(join("/tmp/logs", "abc"), "/tmp/logs/abc");
    assert_eq!(join("/tmp/logs/", "abc"), "/tmp/logs/abc");
    assert_eq!(join("", "abc"), "abc");
    assert_eq!(join("/tmp/logs", "/abs"), "/abs");
}

#[test]
fn absent_base_directory_gives_no_logger() {
    assert!(RequestLogger::from_env(None, "conv-1").is_none());
}

#[test]
fn logger_paths_follow_conversation_and_attempt() {
    let logger = RequestLogger::from_env(Some("/var/log/req"), "conv-1").unwrap();
    assert_eq!(logger.conversation_dir(), "/var/log/req/conv-1");
    assert_eq!(logger.request_path(2), "/var/log/req/conv-1/attempt-002-request.json");
    assert_eq!(logger.response_path(2), "/var/log/req/conv-1/attempt-002-response.jsonl");
}

#[test]
fn same_attempt_maps_to_same_files() {
    let logger = RequestLogger::from_env(Some("base"), "c").unwrap();
    assert_eq!(logger.request_path(9), logger.request_path(9));
    assert_eq!(logger.response_path(9), logger.response_path(9));
    assert_ne!(logger.response_path(9), logger.response_path(10));
}
