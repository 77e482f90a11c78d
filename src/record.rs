use vstd::prelude::*;
use vstd::string::*;

use crate::json::{quoted, quote};
use crate::naming::{decimal, decimal_text};

verus! {

#[verifier::external_type_specification]
#[verifier::external_body]
pub struct ExJsonValue(serde_json::Value);

/// `s` with two spaces of indentation added after each line feed, which nests a
/// pretty-printed JSON value one level deeper.
pub open spec fn indented(s: Seq<char>) -> Seq<char>
    decreases s.len(),
{
    if s.len() == 0 {
        Seq::empty()
    } else {
        indented(s.drop_last()) + if s.last() == '\n' {
            seq!['\n', ' ', ' ']
        } else {
            seq![s.last()]
        }
    }
}

/// The request record of an attempt, pretty-printed with two-space indentation:
/// the timestamp, the attempt number, the url and the payload, then a line feed.
pub open spec fn request_record_spec(
    timestamp: Seq<char>,
    attempt: nat,
    url: Seq<char>,
    payload: Seq<char>,
) -> Seq<char> {
    "{\n  \"timestamp\": "@ + quoted(timestamp) + ",\n  \"attempt\": "@ + decimal(attempt)
        + ",\n  \"url\": "@ + quoted(url) + ",\n  \"payload\": "@ + indented(payload) + "\n}\n"@
}

/// Relies on `str::replace`: every line feed of `s` is replaced by a line feed
/// followed by two spaces, and every other character is kept in order.
#[verifier::external_body]
fn indent_lines(s: &str) -> (r: String)
    ensures
        r@ == indented(s@),
{
    s.replace('\n', "\n  ")
}

/// Relies on serde_json::to_string_pretty: the payload as pretty-printed JSON
/// with two-space indentation. A `Value` always serialises; what the text holds
/// is serde_json's to decide, so nothing is stated of it.
#[verifier::external_body]
fn pretty_json(v: &serde_json::Value) -> (r: String) {
    serde_json::to_string_pretty(v).unwrap_or_default()
}

/// Writes the request record of an attempt from the timestamp, the attempt number,
/// the url and the payload already rendered as pretty-printed JSON.
pub fn request_record_text(timestamp: &str, attempt: u64, url: &str, payload_pretty: &str) -> (r:
    String)
    ensures
        r@ == request_record_spec(timestamp@, attempt as nat, url@, payload_pretty@),
{
    proof {
        reveal_strlit("{\n  \"timestamp\": ");
        reveal_strlit(",\n  \"attempt\": ");
        reveal_strlit(",\n  \"url\": ");
        reveal_strlit(",\n  \"payload\": ");
        reveal_strlit("\n}\n");
    }
    let mut text = String::from_str("{\n  \"timestamp\": ");
    text.append(quote(timestamp).as_str());
    text.append(",\n  \"attempt\": ");
    text.append(decimal_text(attempt).as_str());
    text.append(",\n  \"url\": ");
    text.append(quote(url).as_str());
    text.append(",\n  \"payload\": ");
    text.append(indent_lines(payload_pretty).as_str());
    text.append("\n}\n");
    assert(text@ =~= request_record_spec(timestamp@, attempt as nat, url@, payload_pretty@));
    text
}

/// Writes the request record of an attempt stamped with the current time. The
/// payload is rendered by serde_json; the rest of the record is as
/// `request_record_text` writes it.
pub fn request_record(attempt: u64, url: &str, payload: &serde_json::Value) -> (r: String)
    ensures
        exists|ts: Seq<char>, p: Seq<char>| r@ == request_record_spec(ts, attempt as nat, url@, p),
{
    let ts = crate::clock::timestamp();
    let rendered = pretty_json(payload);
    request_record_text(ts.as_str(), attempt, url, rendered.as_str())
}

} // verus!
