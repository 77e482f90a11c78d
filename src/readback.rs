use vstd::prelude::*;

use crate::events::{
    event_fields, event_line, event_object, groups_view, header_member, header_members,
    headers_json, string_list, ResponseEvent,
};
use crate::json::{lemma_quoted_round_trip, quoted};
use crate::naming::{decimal, lemma_decimal_digits, lemma_decimal_injective};

verus! {

/// The text before the end of a longer text is determined by the whole.
proof fn lemma_strip_prefix(p: Seq<char>, a: Seq<char>, b: Seq<char>)
    requires
        p + a == p + b,
    ensures
        a == b,
{
    assert(a =~= (p + a).skip(p.len() as int));
    assert(b =~= (p + b).skip(p.len() as int));
}

/// A JSON string literal at the front of a text is read back whole.
proof fn lemma_quoted_prefix(x1: Seq<char>, r1: Seq<char>, x2: Seq<char>, r2: Seq<char>)
    requires
        quoted(x1) + r1 == quoted(x2) + r2,
    ensures
        x1 == x2,
        r1 == r2,
{
    lemma_quoted_round_trip(x1, r1);
    lemma_quoted_round_trip(x2, r2);
}

proof fn lemma_quoted_starts(x: Seq<char>)
    ensures
        quoted(x).len() >= 2,
        quoted(x)[0] == '"',
{
}

/// Decimal digits followed by a comma are read back whole.
proof fn lemma_decimal_prefix(n1: nat, r1: Seq<char>, n2: nat, r2: Seq<char>)
    requires
        decimal(n1) + r1 == decimal(n2) + r2,
        r1.len() > 0 && r1[0] == ',',
        r2.len() > 0 && r2[0] == ',',
    ensures
        n1 == n2,
        r1 == r2,
{
    let a = decimal(n1);
    let b = decimal(n2);
    lemma_decimal_digits(n1);
    lemma_decimal_digits(n2);
    if a.len() < b.len() {
        assert((a + r1)[a.len() as int] == r1[0]);
        assert((b + r2)[a.len() as int] == b[a.len() as int]);
    } else if b.len() < a.len() {
        assert((b + r2)[b.len() as int] == r2[0]);
        assert((a + r1)[b.len() as int] == a[b.len() as int]);
    } else {
        assert(a =~= (a + r1).take(a.len() as int));
        assert(b =~= (b + r2).take(b.len() as int));
        lemma_decimal_injective(n1, n2);
        lemma_strip_prefix(a, r1, r2);
    }
}

proof fn lemma_string_list_front(vs: Seq<Seq<char>>)
    requires
        vs.len() > 0,
    ensures
        string_list(vs) == quoted(vs[0]) + if vs.len() > 1 {
            seq![','] + string_list(vs.drop_first())
        } else {
            Seq::empty()
        },
    decreases vs.len(),
{
    if vs.len() == 1 {
        assert(string_list(vs) =~= quoted(vs[0]) + Seq::<char>::empty());
    } else if vs.len() == 2 {
        assert(vs.drop_last() =~= seq![vs[0]]);
        assert(vs.drop_first() =~= seq![vs[1]]);
        assert(string_list(vs.drop_last()) == quoted(vs[0]));
        assert(string_list(vs.drop_first()) == quoted(vs[1]));
        assert(string_list(vs) == string_list(vs.drop_last()) + seq![','] + quoted(vs.last()));
        assert(string_list(vs) =~= quoted(vs[0]) + (seq![','] + string_list(vs.drop_first())));
    } else {
        lemma_string_list_front(vs.drop_last());
        assert(vs.drop_last().drop_first() =~= vs.drop_first().drop_last());
        assert(vs.drop_first().last() == vs.last());
        assert(string_list(vs) =~= quoted(vs[0]) + (seq![','] + string_list(vs.drop_first())));
    }
}

/// A list of string literals closed by `]` is read back whole.
proof fn lemma_string_list_prefix(
    vs1: Seq<Seq<char>>,
    r1: Seq<char>,
    vs2: Seq<Seq<char>>,
    r2: Seq<char>,
)
    requires
        string_list(vs1) + seq![']'] + r1 == string_list(vs2) + seq![']'] + r2,
    ensures
        vs1 == vs2,
        r1 == r2,
    decreases vs1.len(),
{
    let s1 = string_list(vs1) + seq![']'] + r1;
    let s2 = string_list(vs2) + seq![']'] + r2;
    if vs1.len() == 0 && vs2.len() == 0 {
        assert(s1 =~= seq![']'] + r1);
        assert(s2 =~= seq![']'] + r2);
        lemma_strip_prefix(seq![']'], r1, r2);
        assert(vs1 =~= vs2);
    } else if vs1.len() == 0 {
        lemma_string_list_front(vs2);
        lemma_quoted_starts(vs2[0]);
        assert(s1[0] == ']');
        assert(s2[0] == '"');
    } else if vs2.len() == 0 {
        lemma_string_list_front(vs1);
        lemma_quoted_starts(vs1[0]);
        assert(s2[0] == ']');
        assert(s1[0] == '"');
    } else {
        lemma_string_list_front(vs1);
        lemma_string_list_front(vs2);
        let t1 = (if vs1.len() > 1 {
            seq![','] + string_list(vs1.drop_first())
        } else {
            Seq::empty()
        }) + seq![']'] + r1;
        let t2 = (if vs2.len() > 1 {
            seq![','] + string_list(vs2.drop_first())
        } else {
            Seq::empty()
        }) + seq![']'] + r2;
        assert(s1 =~= quoted(vs1[0]) + t1);
        assert(s2 =~= quoted(vs2[0]) + t2);
        lemma_quoted_prefix(vs1[0], t1, vs2[0], t2);
        if vs1.len() > 1 && vs2.len() > 1 {
            assert(t1 =~= seq![','] + (string_list(vs1.drop_first()) + seq![']'] + r1));
            assert(t2 =~= seq![','] + (string_list(vs2.drop_first()) + seq![']'] + r2));
            lemma_strip_prefix(seq![','], string_list(vs1.drop_first()) + seq![']'] + r1,
                string_list(vs2.drop_first()) + seq![']'] + r2);
            lemma_string_list_prefix(vs1.drop_first(), r1, vs2.drop_first(), r2);
            assert(vs1 =~= seq![vs1[0]] + vs1.drop_first());
            assert(vs2 =~= seq![vs2[0]] + vs2.drop_first());
        } else if vs1.len() > 1 {
            assert(t1[0] == ',');
            assert(t2[0] == ']');
        } else if vs2.len() > 1 {
            assert(t2[0] == ',');
            assert(t1[0] == ']');
        } else {
            assert(t1 =~= seq![']'] + r1);
            assert(t2 =~= seq![']'] + r2);
            lemma_strip_prefix(seq![']'], r1, r2);
            assert(vs1 =~= vs2);
        }
    }
}

/// One member of a headers object is read back whole.
proof fn lemma_member_prefix(
    g1: (Seq<char>, Seq<Seq<char>>),
    r1: Seq<char>,
    g2: (Seq<char>, Seq<Seq<char>>),
    r2: Seq<char>,
)
    requires
        header_member(g1) + r1 == header_member(g2) + r2,
    ensures
        g1 == g2,
        r1 == r2,
{
    let t1 = seq![':', '['] + (string_list(g1.1) + seq![']'] + r1);
    let t2 = seq![':', '['] + (string_list(g2.1) + seq![']'] + r2);
    assert(header_member(g1) + r1 =~= quoted(g1.0) + t1);
    assert(header_member(g2) + r2 =~= quoted(g2.0) + t2);
    lemma_quoted_prefix(g1.0, t1, g2.0, t2);
    lemma_strip_prefix(seq![':', '['], string_list(g1.1) + seq![']'] + r1, string_list(g2.1)
        + seq![']'] + r2);
    lemma_string_list_prefix(g1.1, r1, g2.1, r2);
}

proof fn lemma_header_members_front(gs: Seq<(Seq<char>, Seq<Seq<char>>)>)
    requires
        gs.len() > 0,
    ensures
        header_members(gs) == header_member(gs[0]) + if gs.len() > 1 {
            seq![','] + header_members(gs.drop_first())
        } else {
            Seq::empty()
        },
    decreases gs.len(),
{
    if gs.len() == 1 {
        assert(header_members(gs) =~= header_member(gs[0]) + Seq::<char>::empty());
    } else if gs.len() == 2 {
        assert(gs.drop_last() =~= seq![gs[0]]);
        assert(gs.drop_first() =~= seq![gs[1]]);
        assert(header_members(gs.drop_last()) == header_member(gs[0]));
        assert(header_members(gs.drop_first()) == header_member(gs[1]));
        assert(header_members(gs) == header_members(gs.drop_last()) + seq![','] + header_member(gs.last()));
        assert(header_members(gs) =~= header_member(gs[0]) + (seq![','] + header_members(
            gs.drop_first(),
        )));
    } else {
        lemma_header_members_front(gs.drop_last());
        assert(gs.drop_last().drop_first() =~= gs.drop_first().drop_last());
        assert(gs.drop_first().last() == gs.last());
        assert(header_members(gs) =~= header_member(gs[0]) + (seq![','] + header_members(
            gs.drop_first(),
        )));
    }
}

/// The members of a headers object closed by `}` are read back whole.
#[verifier::rlimit(60)]
proof fn lemma_header_members_prefix(
    gs1: Seq<(Seq<char>, Seq<Seq<char>>)>,
    r1: Seq<char>,
    gs2: Seq<(Seq<char>, Seq<Seq<char>>)>,
    r2: Seq<char>,
)
    requires
        header_members(gs1) + seq!['}'] + r1 == header_members(gs2) + seq!['}'] + r2,
    ensures
        gs1 == gs2,
        r1 == r2,
    decreases gs1.len(),
{
    let s1 = header_members(gs1) + seq!['}'] + r1;
    let s2 = header_members(gs2) + seq!['}'] + r2;
    if gs1.len() == 0 && gs2.len() == 0 {
        assert(s1 =~= seq!['}'] + r1);
        assert(s2 =~= seq!['}'] + r2);
        lemma_strip_prefix(seq!['}'], r1, r2);
        assert(gs1 =~= gs2);
    } else if gs1.len() == 0 {
        lemma_header_members_front(gs2);
        lemma_quoted_starts(gs2[0].0);
        assert(s1[0] == '}');
        assert(s2[0] == '"');
    } else if gs2.len() == 0 {
        lemma_header_members_front(gs1);
        lemma_quoted_starts(gs1[0].0);
        assert(s2[0] == '}');
        assert(s1[0] == '"');
    } else {
        lemma_header_members_front(gs1);
        lemma_header_members_front(gs2);
        let t1 = (if gs1.len() > 1 {
            seq![','] + header_members(gs1.drop_first())
        } else {
            Seq::empty()
        }) + seq!['}'] + r1;
        let t2 = (if gs2.len() > 1 {
            seq![','] + header_members(gs2.drop_first())
        } else {
            Seq::empty()
        }) + seq!['}'] + r2;
        assert(s1 =~= header_member(gs1[0]) + t1);
        assert(s2 =~= header_member(gs2[0]) + t2);
        lemma_member_prefix(gs1[0], t1, gs2[0], t2);
        if gs1.len() > 1 && gs2.len() > 1 {
            assert(t1 =~= seq![','] + (header_members(gs1.drop_first()) + seq!['}'] + r1));
            assert(t2 =~= seq![','] + (header_members(gs2.drop_first()) + seq!['}'] + r2));
            lemma_strip_prefix(seq![','], header_members(gs1.drop_first()) + seq!['}'] + r1,
                header_members(gs2.drop_first()) + seq!['}'] + r2);
            lemma_header_members_prefix(gs1.drop_first(), r1, gs2.drop_first(), r2);
            assert(gs1 =~= seq![gs1[0]] + gs1.drop_first());
            assert(gs2 =~= seq![gs2[0]] + gs2.drop_first());
        } else if gs1.len() > 1 {
            assert(t1[0] == ',');
            assert(t2[0] == '}');
        } else if gs2.len() > 1 {
            assert(t2[0] == ',');
            assert(t1[0] == '}');
        } else {
            assert(t1 =~= seq!['}'] + r1);
            assert(t2 =~= seq!['}'] + r2);
            lemma_strip_prefix(seq!['}'], r1, r2);
            assert(gs1 =~= gs2);
        }
    }
}

/// The two events are of one kind and carry the same field values.
pub open spec fn same_values(e1: ResponseEvent, e2: ResponseEvent) -> bool {
    match (e1, e2) {
        (
            ResponseEvent::ResponseStarted { status: s1, headers: h1 },
            ResponseEvent::ResponseStarted { status: s2, headers: h2 },
        ) => s1 == s2 && groups_view(h1@) == groups_view(h2@),
        (
            ResponseEvent::SseEvent { event: a1, data: d1 },
            ResponseEvent::SseEvent { event: a2, data: d2 },
        ) => (a1 is Some <==> a2 is Some) && (a1 is Some ==> a1->0@ == a2->0@) && d1@ == d2@,
        (ResponseEvent::SseClosed { reason: r1 }, ResponseEvent::SseClosed { reason: r2 }) => r1@
            == r2@,
        (ResponseEvent::Error { message: m1 }, ResponseEvent::Error { message: m2 }) => m1@ == m2@,
        (
            ResponseEvent::ErrorResponse { status: s1, body: b1 },
            ResponseEvent::ErrorResponse { status: s2, body: b2 },
        ) => s1 == s2 && b1@ == b2@,
        (ResponseEvent::Info { message: m1 }, ResponseEvent::Info { message: m2 }) => m1@ == m2@,
        _ => false,
    }
}

/// Three characters of the type tag that tell the kinds of event apart.
spec fn tag_signature(e: ResponseEvent) -> (char, char, char) {
    match e {
        ResponseEvent::ResponseStarted { .. } => ('r', 'o', 'n'),
        ResponseEvent::SseEvent { .. } => ('s', 'e', 'v'),
        ResponseEvent::SseClosed { .. } => ('s', 'c', 'l'),
        ResponseEvent::Error { .. } => ('e', 'r', '"'),
        ResponseEvent::ErrorResponse { .. } => ('e', 'r', '_'),
        ResponseEvent::Info { .. } => ('i', '"', ','),
    }
}

proof fn lemma_tag_signature(e: ResponseEvent, rest: Seq<char>)
    ensures
        (event_fields(e) + rest).len() > 6,
        (event_fields(e) + rest)[1] == tag_signature(e).0,
        (event_fields(e) + rest)[5] == tag_signature(e).1,
        (event_fields(e) + rest)[6] == tag_signature(e).2,
{
    reveal_strlit("\"response_started\",\"status\":");
    reveal_strlit("\"sse_event\",\"event\":");
    reveal_strlit("\"sse_closed\",\"reason\":");
    reveal_strlit("\"error\",\"message\":");
    reveal_strlit("\"error_response\",\"status\":");
    reveal_strlit("\"info\",\"message\":");
}

proof fn lemma_same_kind(e1: ResponseEvent, e2: ResponseEvent, end: Seq<char>)
    requires
        event_fields(e1) + end == event_fields(e2) + end,
    ensures
        tag_signature(e1) == tag_signature(e2),
{
    lemma_tag_signature(e1, end);
    lemma_tag_signature(e2, end);
}

proof fn lemma_started_injective(e1: ResponseEvent, e2: ResponseEvent, end: Seq<char>)
    requires
        e1 is ResponseStarted,
        e2 is ResponseStarted,
        event_fields(e1) + end == event_fields(e2) + end,
    ensures
        same_values(e1, e2),
{
    let s1 = e1->ResponseStarted_status;
    let s2 = e2->ResponseStarted_status;
    let g1 = groups_view(e1->ResponseStarted_headers@);
    let g2 = groups_view(e2->ResponseStarted_headers@);
    reveal_strlit(",\"headers\":");
    let tag = "\"response_started\",\"status\":"@;
    let mid = ",\"headers\":"@;
    let x1 = mid + (seq!['{'] + (header_members(g1) + seq!['}'] + end));
    let x2 = mid + (seq!['{'] + (header_members(g2) + seq!['}'] + end));
    assert(event_fields(e1) + end =~= tag + (decimal(s1 as nat) + x1));
    assert(event_fields(e2) + end =~= tag + (decimal(s2 as nat) + x2));
    lemma_strip_prefix(tag, decimal(s1 as nat) + x1, decimal(s2 as nat) + x2);
    lemma_decimal_prefix(s1 as nat, x1, s2 as nat, x2);
    assert(x1 =~= (mid + seq!['{']) + (header_members(g1) + seq!['}'] + end));
    assert(x2 =~= (mid + seq!['{']) + (header_members(g2) + seq!['}'] + end));
    lemma_strip_prefix(mid + seq!['{'], header_members(g1) + seq!['}'] + end,
        header_members(g2) + seq!['}'] + end);
    lemma_header_members_prefix(g1, end, g2, end);
}

proof fn lemma_sse_event_injective(e1: ResponseEvent, e2: ResponseEvent, end: Seq<char>)
    requires
        e1 is SseEvent,
        e2 is SseEvent,
        event_fields(e1) + end == event_fields(e2) + end,
    ensures
        same_values(e1, e2),
{
    let a1 = e1->SseEvent_event;
    let a2 = e2->SseEvent_event;
    let d1 = e1->SseEvent_data;
    let d2 = e2->SseEvent_data;
    reveal_strlit("null");
    let tag = "\"sse_event\",\"event\":"@;
    let mid = ",\"data\":"@;
    let n1 = match a1 {
        Some(x) => quoted(x@),
        None => "null"@,
    };
    let n2 = match a2 {
        Some(x) => quoted(x@),
        None => "null"@,
    };
    let y1 = mid + (quoted(d1@) + end);
    let y2 = mid + (quoted(d2@) + end);
    assert(event_fields(e1) + end =~= tag + (n1 + y1));
    assert(event_fields(e2) + end =~= tag + (n2 + y2));
    lemma_strip_prefix(tag, n1 + y1, n2 + y2);
    match (a1, a2) {
        (Some(x1), Some(x2)) => {
            lemma_quoted_prefix(x1@, y1, x2@, y2);
        },
        (Some(x1), None) => {
            lemma_quoted_starts(x1@);
            assert((n1 + y1)[0] == '"');
            assert((n2 + y2)[0] == 'n');
        },
        (None, Some(x2)) => {
            lemma_quoted_starts(x2@);
            assert((n2 + y2)[0] == '"');
            assert((n1 + y1)[0] == 'n');
        },
        (None, None) => {
            lemma_strip_prefix(n1, y1, y2);
        },
    }
    lemma_strip_prefix(mid, quoted(d1@) + end, quoted(d2@) + end);
    lemma_quoted_prefix(d1@, end, d2@, end);
}

proof fn lemma_error_response_injective(e1: ResponseEvent, e2: ResponseEvent, end: Seq<char>)
    requires
        e1 is ErrorResponse,
        e2 is ErrorResponse,
        event_fields(e1) + end == event_fields(e2) + end,
    ensures
        same_values(e1, e2),
{
    let s1 = e1->ErrorResponse_status;
    let s2 = e2->ErrorResponse_status;
    let b1 = e1->ErrorResponse_body;
    let b2 = e2->ErrorResponse_body;
    reveal_strlit(",\"body\":");
    let tag = "\"error_response\",\"status\":"@;
    let mid = ",\"body\":"@;
    let x1 = mid + (quoted(b1@) + end);
    let x2 = mid + (quoted(b2@) + end);
    assert(event_fields(e1) + end =~= tag + (decimal(s1 as nat) + x1));
    assert(event_fields(e2) + end =~= tag + (decimal(s2 as nat) + x2));
    lemma_strip_prefix(tag, decimal(s1 as nat) + x1, decimal(s2 as nat) + x2);
    lemma_decimal_prefix(s1 as nat, x1, s2 as nat, x2);
    lemma_strip_prefix(mid, quoted(b1@) + end, quoted(b2@) + end);
    lemma_quoted_prefix(b1@, end, b2@, end);
}

/// A tag followed by one string literal is read back whole.
proof fn lemma_text_event_injective(tag: Seq<char>, x1: Seq<char>, x2: Seq<char>, end: Seq<char>)
    requires
        tag + quoted(x1) + end == tag + quoted(x2) + end,
    ensures
        x1 == x2,
{
    assert(tag + quoted(x1) + end =~= tag + (quoted(x1) + end));
    assert(tag + quoted(x2) + end =~= tag + (quoted(x2) + end));
    lemma_strip_prefix(tag, quoted(x1) + end, quoted(x2) + end);
    lemma_quoted_prefix(x1, end, x2, end);
}

proof fn lemma_fields_injective(e1: ResponseEvent, e2: ResponseEvent, end: Seq<char>)
    requires
        event_fields(e1) + end == event_fields(e2) + end,
    ensures
        same_values(e1, e2),
{
    lemma_same_kind(e1, e2, end);
    match e1 {
        ResponseEvent::ResponseStarted { .. } => lemma_started_injective(e1, e2, end),
        ResponseEvent::SseEvent { .. } => lemma_sse_event_injective(e1, e2, end),
        ResponseEvent::ErrorResponse { .. } => lemma_error_response_injective(e1, e2, end),
        ResponseEvent::SseClosed { reason: r1 } => {
            let r2 = e2->SseClosed_reason;
            lemma_text_event_injective("\"sse_closed\",\"reason\":"@, r1@, r2@, end);
        },
        ResponseEvent::Error { message: m1 } => {
            let m2 = e2->Error_message;
            lemma_text_event_injective("\"error\",\"message\":"@, m1@, m2@, end);
        },
        ResponseEvent::Info { message: m1 } => {
            let m2 = e2->Info_message;
            lemma_text_event_injective("\"info\",\"message\":"@, m1@, m2@, end);
        },
    }
}

/// A recorded line can be read back: two events recorded as the same line were
/// stamped with the same time, are of one kind, and carry the same field values
/// (status codes, header names with all their values in order, event names and
/// data, reasons, messages and bodies).
pub proof fn lemma_event_line_injective(t1: Seq<char>, e1: ResponseEvent, t2: Seq<char>, e2: ResponseEvent)
    requires
        event_line(t1, e1) == event_line(t2, e2),
    ensures
        t1 == t2,
        same_values(e1, e2),
{
    let p = "{\"timestamp\":"@;
    let q = ",\"type\":"@;
    let end = "}"@ + seq!['\n'];
    let x1 = q + (event_fields(e1) + end);
    let x2 = q + (event_fields(e2) + end);
    assert(event_line(t1, e1) =~= p + (quoted(t1) + x1));
    assert(event_line(t2, e2) =~= p + (quoted(t2) + x2));
    lemma_strip_prefix(p, quoted(t1) + x1, quoted(t2) + x2);
    lemma_quoted_prefix(t1, x1, t2, x2);
    lemma_strip_prefix(q, event_fields(e1) + end, event_fields(e2) + end);
    lemma_fields_injective(e1, e2, end);
}

} // verus!
