use vstd::prelude::*;
use vstd::string::*;

use crate::json::{
    is_single_line, lemma_newline_count_concat, lemma_no_newline_concat,
    lemma_quoted_no_newline, lemma_single_line, lemma_single_line_count, newline_count,
    no_newline, quote, quoted,
};
use crate::naming::{decimal, decimal_text, lemma_decimal_no_newline};

verus! {

/// One event of a response stream, with the fields that its line records.
pub enum ResponseEvent {
    /// The response head arrived: its status code and its headers, grouped by name.
    ResponseStarted { status: u16, headers: Vec<(String, Vec<String>)> },
    /// One server-sent event of the stream.
    SseEvent { event: Option<String>, data: String },
    /// The stream ended.
    SseClosed { reason: String },
    /// A transport or protocol error.
    Error { message: String },
    /// The server answered with an error status.
    ErrorResponse { status: u16, body: String },
    /// A free-form note.
    Info { message: String },
}

/// The grouped headers as plain values: each name with its values.
pub open spec fn groups_view(h: Seq<(String, Vec<String>)>) -> Seq<(Seq<char>, Seq<Seq<char>>)> {
    h.map_values(|e: (String, Vec<String>)| (e.0@, e.1@.map_values(|v: String| v@)))
}

/// The JSON string literals of `vs`, separated by commas.
pub open spec fn string_list(vs: Seq<Seq<char>>) -> Seq<char>
    decreases vs.len(),
{
    if vs.len() == 0 {
        Seq::empty()
    } else if vs.len() == 1 {
        quoted(vs[0])
    } else {
        string_list(vs.drop_last()) + seq![','] + quoted(vs.last())
    }
}

/// One member of the headers object: the name and the array of its values.
pub open spec fn header_member(g: (Seq<char>, Seq<Seq<char>>)) -> Seq<char> {
    quoted(g.0) + seq![':', '['] + string_list(g.1) + seq![']']
}

/// The members of the headers object, separated by commas.
pub open spec fn header_members(gs: Seq<(Seq<char>, Seq<Seq<char>>)>) -> Seq<char>
    decreases gs.len(),
{
    if gs.len() == 0 {
        Seq::empty()
    } else if gs.len() == 1 {
        header_member(gs[0])
    } else {
        header_members(gs.drop_last()) + seq![','] + header_member(gs.last())
    }
}

/// The headers object: each name mapped to the array of its values, in the given order.
pub open spec fn headers_json(gs: Seq<(Seq<char>, Seq<Seq<char>>)>) -> Seq<char> {
    seq!['{'] + header_members(gs) + seq!['}']
}

/// The members that follow the timestamp: the type tag and the fields of the event.
pub open spec fn event_fields(ev: ResponseEvent) -> Seq<char> {
    match ev {
        ResponseEvent::ResponseStarted { status, headers } => "\"response_started\",\"status\":"@
            + decimal(status as nat) + ",\"headers\":"@ + headers_json(groups_view(headers@)),
        ResponseEvent::SseEvent { event, data } => "\"sse_event\",\"event\":"@ + match event {
            Some(e) => quoted(e@),
            None => "null"@,
        } + ",\"data\":"@ + quoted(data@),
        ResponseEvent::SseClosed { reason } => "\"sse_closed\",\"reason\":"@ + quoted(reason@),
        ResponseEvent::Error { message } => "\"error\",\"message\":"@ + quoted(message@),
        ResponseEvent::ErrorResponse { status, body } => "\"error_response\",\"status\":"@
            + decimal(status as nat) + ",\"body\":"@ + quoted(body@),
        ResponseEvent::Info { message } => "\"info\",\"message\":"@ + quoted(message@),
    }
}

/// The compact JSON object recorded for `ev` at time `ts`, without the line feed.
pub open spec fn event_object(ts: Seq<char>, ev: ResponseEvent) -> Seq<char> {
    "{\"timestamp\":"@ + quoted(ts) + ",\"type\":"@ + event_fields(ev) + "}"@
}

/// The line recorded for `ev` at time `ts`.
pub open spec fn event_line(ts: Seq<char>, ev: ResponseEvent) -> Seq<char> {
    event_object(ts, ev) + seq!['\n']
}

/// Appends `piece` to a text that holds no line feed.
fn append_piece(text: &mut String, piece: &str)
    requires
        no_newline(old(text)@),
        no_newline(piece@),
    ensures
        final(text)@ == old(text)@ + piece@,
        no_newline(final(text)@),
{
    proof {
        lemma_no_newline_concat(text@, piece@);
    }
    text.append(piece);
}

/// Appends the JSON string literal of `s`.
fn append_quoted(text: &mut String, s: &str)
    requires
        no_newline(old(text)@),
    ensures
        final(text)@ == old(text)@ + quoted(s@),
        no_newline(final(text)@),
{
    let q = quote(s);
    proof {
        lemma_quoted_no_newline(s@);
    }
    append_piece(text, q.as_str());
}

/// Appends a literal that holds no line feed.
fn append_literal(text: &mut String, lit: &'static str)
    requires
        no_newline(old(text)@),
        no_newline(lit@),
    ensures
        final(text)@ == old(text)@ + lit@,
        no_newline(final(text)@),
{
    append_piece(text, lit);
}

/// Appends the decimal digits of `n`.
fn append_decimal(text: &mut String, n: u64)
    requires
        no_newline(old(text)@),
    ensures
        final(text)@ == old(text)@ + decimal(n as nat),
        no_newline(final(text)@),
{
    let d = decimal_text(n);
    proof {
        lemma_decimal_no_newline(n as nat);
    }
    append_piece(text, d.as_str());
}

/// Appends the comma-separated JSON string literals of `vs`.
fn append_string_list(text: &mut String, vs: &Vec<String>)
    requires
        no_newline(old(text)@),
    ensures
        final(text)@ == old(text)@ + string_list(vs@.map_values(|v: String| v@)),
        no_newline(final(text)@),
{
    let ghost start = text@;
    let ghost views = vs@.map_values(|v: String| v@);
    proof {
        reveal_strlit(",");
        assert(views.take(0) =~= Seq::<Seq<char>>::empty());
        assert(text@ =~= start + string_list(views.take(0)));
    }
    let mut i: usize = 0;
    while i < vs.len()
        invariant
            i <= vs@.len(),
            views == vs@.map_values(|v: String| v@),
            text@ == start + string_list(views.take(i as int)),
            no_newline(text@),
        decreases vs@.len() - i,
    {
        proof {
            reveal_strlit(",");
        }
        if i > 0 {
            append_literal(text, ",");
        }
        append_quoted(text, vs[i].as_str());
        proof {
            let t = views.take(i + 1);
            assert(t.drop_last() =~= views.take(i as int));
            assert(t.last() == vs@[i as int]@);
            if i == 0 {
                assert(views.take(0) =~= Seq::<Seq<char>>::empty());
                assert(string_list(t) == quoted(t[0]));
            }
            assert(text@ =~= start + string_list(t));
        }
        i = i + 1;
    }
    proof {
        assert(views.take(vs@.len() as int) =~= views);
    }
}

/// Appends the headers object of `groups`.
fn append_headers(text: &mut String, groups: &Vec<(String, Vec<String>)>)
    requires
        no_newline(old(text)@),
    ensures
        final(text)@ == old(text)@ + headers_json(groups_view(groups@)),
        no_newline(final(text)@),
{
    let ghost start = text@;
    let ghost views = groups_view(groups@);
    proof {
        reveal_strlit("{");
        reveal_strlit("}");
        reveal_strlit(",");
        reveal_strlit(":[");
        reveal_strlit("]");
    }
    append_literal(text, "{");
    let ghost opened = text@;
    proof {
        assert(views.take(0) =~= Seq::<(Seq<char>, Seq<Seq<char>>)>::empty());
        assert(text@ =~= opened + header_members(views.take(0)));
    }
    let mut i: usize = 0;
    while i < groups.len()
        invariant
            i <= groups@.len(),
            views == groups_view(groups@),
            opened == start + seq!['{'],
            text@ == opened + header_members(views.take(i as int)),
            no_newline(text@),
        decreases groups@.len() - i,
    {
        proof {
            reveal_strlit(",");
            reveal_strlit(":[");
            reveal_strlit("]");
        }
        if i > 0 {
            append_literal(text, ",");
        }
        let ghost sep = text@;
        append_quoted(text, groups[i].0.as_str());
        append_literal(text, ":[");
        append_string_list(text, &groups[i].1);
        append_literal(text, "]");
        proof {
            let t = views.take(i + 1);
            assert(t.drop_last() =~= views.take(i as int));
            assert(t.last() == views[i as int]);
            assert(text@ =~= sep + header_member(views[i as int]));
            if i == 0 {
                assert(views.take(0) =~= Seq::<(Seq<char>, Seq<Seq<char>>)>::empty());
                assert(header_members(t) == header_member(t[0]));
            }
            assert(text@ =~= opened + header_members(t));
        }
        i = i + 1;
    }
    proof {
        assert(views.take(groups@.len() as int) =~= views);
    }
    append_literal(text, "}");
    assert(text@ =~= start + headers_json(views));
}

/// Appends the members of `ev` that follow its timestamp.
fn append_event_fields(text: &mut String, ev: &ResponseEvent)
    requires
        no_newline(old(text)@),
    ensures
        final(text)@ == old(text)@ + event_fields(*ev),
        no_newline(final(text)@),
{
    let ghost start = text@;
    match ev {
        ResponseEvent::ResponseStarted { status, headers } => {
            proof {
                reveal_strlit("\"response_started\",\"status\":");
                reveal_strlit(",\"headers\":");
            }
            append_literal(text, "\"response_started\",\"status\":");
            append_decimal(text, *status as u64);
            append_literal(text, ",\"headers\":");
            append_headers(text, headers);
        },
        ResponseEvent::SseEvent { event, data } => {
            proof {
                reveal_strlit("\"sse_event\",\"event\":");
                reveal_strlit("null");
                reveal_strlit(",\"data\":");
            }
            append_literal(text, "\"sse_event\",\"event\":");
            match event {
                Some(e) => append_quoted(text, e.as_str()),
                None => append_literal(text, "null"),
            }
            append_literal(text, ",\"data\":");
            append_quoted(text, data.as_str());
        },
        ResponseEvent::SseClosed { reason } => {
            proof {
                reveal_strlit("\"sse_closed\",\"reason\":");
            }
            append_literal(text, "\"sse_closed\",\"reason\":");
            append_quoted(text, reason.as_str());
        },
        ResponseEvent::Error { message } => {
            proof {
                reveal_strlit("\"error\",\"message\":");
            }
            append_literal(text, "\"error\",\"message\":");
            append_quoted(text, message.as_str());
        },
        ResponseEvent::ErrorResponse { status, body } => {
            proof {
                reveal_strlit("\"error_response\",\"status\":");
                reveal_strlit(",\"body\":");
            }
            append_literal(text, "\"error_response\",\"status\":");
            append_decimal(text, *status as u64);
            append_literal(text, ",\"body\":");
            append_quoted(text, body.as_str());
        },
        ResponseEvent::Info { message } => {
            proof {
                reveal_strlit("\"info\",\"message\":");
            }
            append_literal(text, "\"info\",\"message\":");
            append_quoted(text, message.as_str());
        },
    }
    assert(text@ =~= start + event_fields(*ev));
}

/// Writes the line recorded for `ev` at time `timestamp`: one compact JSON object
/// and a line feed, with no other line feed in it.
pub fn encode_event_line(timestamp: &str, ev: &ResponseEvent) -> (r: String)
    ensures
        r@ == event_line(timestamp@, *ev),
        is_single_line(r@),
{
    proof {
        reveal_strlit("{\"timestamp\":");
        reveal_strlit(",\"type\":");
        reveal_strlit("}");
        reveal_strlit("\n");
    }
    let mut text = String::new();
    append_literal(&mut text, "{\"timestamp\":");
    append_quoted(&mut text, timestamp);
    append_literal(&mut text, ",\"type\":");
    append_event_fields(&mut text, ev);
    append_literal(&mut text, "}");
    let ghost body = text@;
    proof {
        assert(body =~= event_object(timestamp@, *ev));
        lemma_single_line(body);
    }
    let r = text.concat("\n");
    assert(r@ =~= body + seq!['\n']);
    r
}

/// Writes the line recorded for `ev`, stamped with the current time.
pub fn event_line_now(ev: &ResponseEvent) -> (r: String)
    ensures
        exists|ts: Seq<char>| r@ == event_line(ts, *ev),
        is_single_line(r@),
{
    let ts = crate::clock::timestamp();
    encode_event_line(ts.as_str(), ev)
}

proof fn lemma_string_list_no_newline(vs: Seq<Seq<char>>)
    ensures
        no_newline(string_list(vs)),
    decreases vs.len(),
{
    if vs.len() == 1 {
        lemma_quoted_no_newline(vs[0]);
    } else if vs.len() > 1 {
        lemma_string_list_no_newline(vs.drop_last());
        lemma_quoted_no_newline(vs.last());
        lemma_no_newline_concat(string_list(vs.drop_last()), seq![',']);
        lemma_no_newline_concat(string_list(vs.drop_last()) + seq![','], quoted(vs.last()));
    }
}

proof fn lemma_header_member_no_newline(g: (Seq<char>, Seq<Seq<char>>))
    ensures
        no_newline(header_member(g)),
{
    lemma_quoted_no_newline(g.0);
    lemma_string_list_no_newline(g.1);
    lemma_no_newline_concat(quoted(g.0), seq![':', '[']);
    lemma_no_newline_concat(quoted(g.0) + seq![':', '['], string_list(g.1));
    lemma_no_newline_concat(quoted(g.0) + seq![':', '['] + string_list(g.1), seq![']']);
}

proof fn lemma_headers_json_no_newline(gs: Seq<(Seq<char>, Seq<Seq<char>>)>)
    ensures
        no_newline(header_members(gs)),
        no_newline(headers_json(gs)),
    decreases gs.len(),
{
    if gs.len() == 1 {
        lemma_header_member_no_newline(gs[0]);
    } else if gs.len() > 1 {
        lemma_headers_json_no_newline(gs.drop_last());
        lemma_header_member_no_newline(gs.last());
        lemma_no_newline_concat(header_members(gs.drop_last()), seq![',']);
        lemma_no_newline_concat(header_members(gs.drop_last()) + seq![','], header_member(gs.last()));
    }
    lemma_no_newline_concat(seq!['{'], header_members(gs));
    lemma_no_newline_concat(seq!['{'] + header_members(gs), seq!['}']);
}

/// Every event is recorded as exactly one line.
pub proof fn lemma_event_line_single(ts: Seq<char>, ev: ResponseEvent)
    ensures
        is_single_line(event_line(ts, ev)),
{
    reveal_strlit("{\"timestamp\":");
    reveal_strlit(",\"type\":");
    reveal_strlit("}");
    reveal_strlit("\"response_started\",\"status\":");
    reveal_strlit(",\"headers\":");
    reveal_strlit("\"sse_event\",\"event\":");
    reveal_strlit("null");
    reveal_strlit(",\"data\":");
    reveal_strlit("\"sse_closed\",\"reason\":");
    reveal_strlit("\"error\",\"message\":");
    reveal_strlit("\"error_response\",\"status\":");
    reveal_strlit(",\"body\":");
    reveal_strlit("\"info\",\"message\":");
    let f = event_fields(ev);
    match ev {
        ResponseEvent::ResponseStarted { status, headers } => {
            let a = "\"response_started\",\"status\":"@;
            let b = ",\"headers\":"@;
            let h = headers_json(groups_view(headers@));
            lemma_decimal_no_newline(status as nat);
            lemma_headers_json_no_newline(groups_view(headers@));
            lemma_no_newline_concat(a, decimal(status as nat));
            lemma_no_newline_concat(a + decimal(status as nat), b);
            lemma_no_newline_concat(a + decimal(status as nat) + b, h);
        },
        ResponseEvent::SseEvent { event, data } => {
            let a = "\"sse_event\",\"event\":"@;
            let e = match event {
                Some(x) => quoted(x@),
                None => "null"@,
            };
            if let Some(x) = event {
                lemma_quoted_no_newline(x@);
            }
            lemma_quoted_no_newline(data@);
            lemma_no_newline_concat(a, e);
            lemma_no_newline_concat(a + e, ",\"data\":"@);
            lemma_no_newline_concat(a + e + ",\"data\":"@, quoted(data@));
        },
        ResponseEvent::SseClosed { reason } => {
            lemma_quoted_no_newline(reason@);
            lemma_no_newline_concat("\"sse_closed\",\"reason\":"@, quoted(reason@));
        },
        ResponseEvent::Error { message } => {
            lemma_quoted_no_newline(message@);
            lemma_no_newline_concat("\"error\",\"message\":"@, quoted(message@));
        },
        ResponseEvent::ErrorResponse { status, body } => {
            let a = "\"error_response\",\"status\":"@;
            let b = ",\"body\":"@;
            lemma_decimal_no_newline(status as nat);
            lemma_quoted_no_newline(body@);
            lemma_no_newline_concat(a, decimal(status as nat));
            lemma_no_newline_concat(a + decimal(status as nat), b);
            lemma_no_newline_concat(a + decimal(status as nat) + b, quoted(body@));
        },
        ResponseEvent::Info { message } => {
            lemma_quoted_no_newline(message@);
            lemma_no_newline_concat("\"info\",\"message\":"@, quoted(message@));
        },
    }
    assert(no_newline(f));
    let p = "{\"timestamp\":"@;
    let q = ",\"type\":"@;
    lemma_quoted_no_newline(ts);
    lemma_no_newline_concat(p, quoted(ts));
    lemma_no_newline_concat(p + quoted(ts), q);
    lemma_no_newline_concat(p + quoted(ts) + q, f);
    lemma_no_newline_concat(p + quoted(ts) + q + f, "}"@);
    lemma_single_line(event_object(ts, ev));
}

/// The lines recorded for the events `evs`, stamped with the times `ts`, one after
/// the other.
pub open spec fn recorded_stream(ts: Seq<Seq<char>>, evs: Seq<ResponseEvent>) -> Seq<char>
    decreases evs.len(),
{
    if evs.len() == 0 || ts.len() < evs.len() {
        Seq::empty()
    } else {
        recorded_stream(ts.take(evs.len() - 1), evs.drop_last()) + event_line(
            ts[evs.len() - 1],
            evs.last(),
        )
    }
}

/// A stream of recorded events holds exactly one line per event: its line feeds
/// are as many as the events, and it ends with one unless it is empty.
pub proof fn lemma_recorded_stream_lines(ts: Seq<Seq<char>>, evs: Seq<ResponseEvent>)
    requires
        ts.len() == evs.len(),
    ensures
        newline_count(recorded_stream(ts, evs)) == evs.len(),
        evs.len() > 0 ==> recorded_stream(ts, evs).last() == '\n',
    decreases evs.len(),
{
    if evs.len() > 0 {
        let n = evs.len() - 1;
        lemma_recorded_stream_lines(ts.take(n), evs.drop_last());
        let line = event_line(ts[n], evs.last());
        lemma_event_line_single(ts[n], evs.last());
        lemma_single_line_count(line);
        lemma_newline_count_concat(recorded_stream(ts.take(n), evs.drop_last()), line);
    }
}

} // verus!
