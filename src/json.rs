use vstd::prelude::*;

verus! {

/// The lowercase hexadecimal digit for `d < 16`.
pub open spec fn hex_digit(d: nat) -> char {
    seq!['0', '1', '2', '3', '4', '5', '6', '7', '8', '9', 'a', 'b', 'c', 'd', 'e', 'f'][d as int]
}

/// How one character is written inside a JSON string literal: the quote, the
/// backslash and the control characters below U+0020 are escaped, with the short
/// forms where JSON has one and `\u00XX` otherwise; every other character is kept.
pub open spec fn escape_char(c: char) -> Seq<char> {
    if c == '"' {
        seq!['\\', '"']
    } else if c == '\\' {
        seq!['\\', '\\']
    } else if c == '\u{8}' {
        seq!['\\', 'b']
    } else if c == '\u{c}' {
        seq!['\\', 'f']
    } else if c == '\n' {
        seq!['\\', 'n']
    } else if c == '\r' {
        seq!['\\', 'r']
    } else if c == '\t' {
        seq!['\\', 't']
    } else if (c as u32) < 0x20 {
        seq!['\\', 'u', '0', '0', hex_digit((c as u32 / 16) as nat), hex_digit((c as u32 % 16) as nat)]
    } else {
        seq![c]
    }
}

/// The escaped contents of a JSON string literal for `s`.
pub open spec fn escaped(s: Seq<char>) -> Seq<char>
    decreases s.len(),
{
    if s.len() == 0 {
        Seq::empty()
    } else {
        escape_char(s[0]) + escaped(s.drop_first())
    }
}

/// The JSON string literal for `s`, quotes included.
pub open spec fn quoted(s: Seq<char>) -> Seq<char> {
    seq!['"'] + escaped(s) + seq!['"']
}

/// `s` holds no line feed.
pub open spec fn no_newline(s: Seq<char>) -> bool {
    forall|i: int| 0 <= i < s.len() ==> s[i] != '\n'
}

/// `s` is one line: it ends with a line feed and holds no other.
pub open spec fn is_single_line(s: Seq<char>) -> bool {
    &&& s.len() > 0
    &&& s.last() == '\n'
    &&& no_newline(s.drop_last())
}

/// Joining two texts without line feeds gives none.
pub proof fn lemma_no_newline_concat(a: Seq<char>, b: Seq<char>)
    requires
        no_newline(a),
        no_newline(b),
    ensures
        no_newline(a + b),
{
    assert forall|i: int| 0 <= i < (a + b).len() implies (a + b)[i] != '\n' by {
        if i < a.len() {
            assert((a + b)[i] == a[i]);
        } else {
            assert((a + b)[i] == b[i - a.len()]);
        }
    }
}

/// A line made of newline-free text and a final line feed is a single line.
pub proof fn lemma_single_line(body: Seq<char>)
    requires
        no_newline(body),
    ensures
        is_single_line(body + seq!['\n']),
{
    assert((body + seq!['\n']).drop_last() =~= body);
}

/// The number of line feeds in `s`.
pub open spec fn newline_count(s: Seq<char>) -> nat
    decreases s.len(),
{
    if s.len() == 0 {
        0
    } else {
        newline_count(s.drop_last()) + if s.last() == '\n' {
            1nat
        } else {
            0nat
        }
    }
}

/// Line feeds of a joined text are those of its parts.
pub proof fn lemma_newline_count_concat(a: Seq<char>, b: Seq<char>)
    ensures
        newline_count(a + b) == newline_count(a) + newline_count(b),
    decreases b.len(),
{
    if b.len() == 0 {
        assert(a + b =~= a);
    } else {
        lemma_newline_count_concat(a, b.drop_last());
        assert((a + b).drop_last() =~= a + b.drop_last());
    }
}

/// A text without line feeds counts none.
pub proof fn lemma_no_newline_count(s: Seq<char>)
    requires
        no_newline(s),
    ensures
        newline_count(s) == 0,
    decreases s.len(),
{
    if s.len() > 0 {
        lemma_no_newline_count(s.drop_last());
    }
}

/// A single line holds exactly one line feed.
pub proof fn lemma_single_line_count(s: Seq<char>)
    requires
        is_single_line(s),
    ensures
        newline_count(s) == 1,
{
    lemma_no_newline_count(s.drop_last());
}

/// Escaping never leaves a raw line feed.
pub proof fn lemma_escaped_no_newline(s: Seq<char>)
    ensures
        no_newline(escaped(s)),
    decreases s.len(),
{
    if s.len() > 0 {
        lemma_escaped_no_newline(s.drop_first());
        let c = s[0];
        let e = escape_char(c);
        if (c as u32) < 0x20 && c != '\u{8}' && c != '\u{c}' && c != '\n' && c != '\r' && c != '\t' {
            assert((c as u32 / 16) < 2);
        }
        assert(no_newline(e));
        lemma_no_newline_concat(e, escaped(s.drop_first()));
    }
}

/// A JSON string literal never holds a raw line feed.
pub proof fn lemma_quoted_no_newline(s: Seq<char>)
    ensures
        no_newline(quoted(s)),
{
    lemma_escaped_no_newline(s);
    lemma_no_newline_concat(seq!['"'], escaped(s));
    lemma_no_newline_concat(seq!['"'] + escaped(s), seq!['"']);
}

/// Relies on serde_json::to_string: a `str` is written as a JSON string literal,
/// escaped as its `format_escaped_str` does. Writing into a `Vec` cannot fail.
#[verifier::external_body]
pub(crate) fn quote(s: &str) -> (r: String)
    ensures
        r@ == quoted(s@),
{
    serde_json::to_string(s).unwrap_or_default()
}

/// The code point of a character.
pub open spec fn code_point(c: char) -> int {
    c as int
}

/// The value of a lowercase hexadecimal digit.
pub open spec fn hex_value(c: char) -> int {
    if '0' <= c <= '9' {
        c as int - '0' as int
    } else {
        c as int - 'a' as int + 10
    }
}

/// What the escape sequence at the start of `s` stands for, and its length.
pub open spec fn unescape(s: Seq<char>) -> Option<(char, nat)> {
    if s.len() < 2 || s[0] != '\\' {
        None
    } else if s[1] == '"' {
        Some(('"', 2))
    } else if s[1] == '\\' {
        Some(('\\', 2))
    } else if s[1] == 'b' {
        Some(('\u{8}', 2))
    } else if s[1] == 'f' {
        Some(('\u{c}', 2))
    } else if s[1] == 'n' {
        Some(('\n', 2))
    } else if s[1] == 'r' {
        Some(('\r', 2))
    } else if s[1] == 't' {
        Some(('\t', 2))
    } else if s[1] == 'u' && s.len() >= 6 && s[2] == '0' && s[3] == '0' {
        Some((choose|c: char| #[trigger] code_point(c) == 16 * hex_value(s[4]) + hex_value(s[5]), 6))
    } else {
        None
    }
}

/// Reads the contents of a JSON string literal up to its closing quote: the text
/// that they stand for, and what follows the quote.
pub open spec fn read_string_body(s: Seq<char>) -> Option<(Seq<char>, Seq<char>)>
    decreases s.len(),
{
    if s.len() == 0 {
        None
    } else if s[0] == '"' {
        Some((Seq::empty(), s.drop_first()))
    } else if s[0] == '\\' {
        match unescape(s) {
            Some((c, n)) => if 0 < n <= s.len() {
                match read_string_body(s.skip(n as int)) {
                    Some((x, r)) => Some((seq![c] + x, r)),
                    None => None,
                }
            } else {
                None
            },
            None => None,
        }
    } else {
        match read_string_body(s.drop_first()) {
            Some((x, r)) => Some((seq![s[0]] + x, r)),
            None => None,
        }
    }
}

/// Reads a JSON string literal at the start of `s`: the text that it stands for,
/// and what follows it.
pub open spec fn read_quoted(s: Seq<char>) -> Option<(Seq<char>, Seq<char>)> {
    if s.len() > 0 && s[0] == '"' {
        read_string_body(s.drop_first())
    } else {
        None
    }
}

proof fn lemma_hex_value_of_digit(d: nat)
    requires
        d < 16,
    ensures
        hex_value(hex_digit(d)) == d,
{
    let t = seq!['0', '1', '2', '3', '4', '5', '6', '7', '8', '9', 'a', 'b', 'c', 'd', 'e', 'f'];
    assert(hex_digit(d) == t[d as int]);
    if d == 0 { assert(t[0] == '0'); } else if d == 1 { assert(t[1] == '1'); }
    else if d == 2 { assert(t[2] == '2'); } else if d == 3 { assert(t[3] == '3'); }
    else if d == 4 { assert(t[4] == '4'); } else if d == 5 { assert(t[5] == '5'); }
    else if d == 6 { assert(t[6] == '6'); } else if d == 7 { assert(t[7] == '7'); }
    else if d == 8 { assert(t[8] == '8'); } else if d == 9 { assert(t[9] == '9'); }
    else if d == 10 { assert(t[10] == 'a'); } else if d == 11 { assert(t[11] == 'b'); }
    else if d == 12 { assert(t[12] == 'c'); } else if d == 13 { assert(t[13] == 'd'); }
    else if d == 14 { assert(t[14] == 'e'); } else { assert(t[15] == 'f'); }
}

/// Reading back the escape of one character gives that character.
proof fn lemma_unescape_char(c: char, rest: Seq<char>)
    requires
        escape_char(c).len() > 1,
    ensures
        unescape(escape_char(c) + rest) == Some((c, escape_char(c).len())),
{
    let s = escape_char(c) + rest;
    if (c as u32) < 0x20 && c != '\u{8}' && c != '\u{c}' && c != '\n' && c != '\r' && c != '\t' {
        let hi = (c as u32 / 16) as nat;
        let lo = (c as u32 % 16) as nat;
        lemma_hex_value_of_digit(hi);
        lemma_hex_value_of_digit(lo);
        assert(s[4] == hex_digit(hi));
        assert(s[5] == hex_digit(lo));
        let d = choose|d: char| #[trigger] code_point(d) == 16 * hex_value(s[4]) + hex_value(s[5]);
        assert(code_point(c) == 16 * hex_value(s[4]) + hex_value(s[5]));
        assert(d == c);
    }
}

/// Reading back escaped text followed by a closing quote gives the text and what
/// follows the quote.
pub proof fn lemma_read_string_body(x: Seq<char>, rest: Seq<char>)
    ensures
        read_string_body(escaped(x) + seq!['"'] + rest) == Some((x, rest)),
    decreases x.len(),
{
    let s = escaped(x) + seq!['"'] + rest;
    if x.len() == 0 {
        assert(s =~= seq!['"'] + rest);
        assert(s.drop_first() =~= rest);
    } else {
        let c = x[0];
        let e = escape_char(c);
        let tail = escaped(x.drop_first()) + seq!['"'] + rest;
        lemma_read_string_body(x.drop_first(), rest);
        assert(s =~= e + tail);
        if e.len() == 1 {
            assert(s.drop_first() =~= tail);
        } else {
            lemma_unescape_char(c, tail);
            assert(s.skip(e.len() as int) =~= tail);
        }
        assert(seq![c] + x.drop_first() =~= x);
    }
}

/// Reading a JSON string literal back gives the text it was written from, and
/// whatever follows the literal untouched.
pub proof fn lemma_quoted_round_trip(x: Seq<char>, rest: Seq<char>)
    ensures
        read_quoted(quoted(x) + rest) == Some((x, rest)),
{
    lemma_read_string_body(x, rest);
    assert((quoted(x) + rest).drop_first() =~= escaped(x) + seq!['"'] + rest);
}

} // verus!
