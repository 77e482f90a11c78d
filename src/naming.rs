use vstd::prelude::*;
use vstd::string::*;

verus! {

/// The decimal digit character for `d < 10`.
pub open spec fn digit_char(d: nat) -> char {
    seq!['0', '1', '2', '3', '4', '5', '6', '7', '8', '9'][d as int]
}

/// The decimal representation of `n`, without leading zeros.
pub open spec fn decimal(n: nat) -> Seq<char>
    decreases n,
{
    if n < 10 {
        seq![digit_char(n)]
    } else {
        decimal(n / 10) + seq![digit_char(n % 10)]
    }
}

/// `k` zero characters.
pub open spec fn zeros(k: nat) -> Seq<char> {
    Seq::new(k, |i: int| '0')
}

/// The decimal representation of `n`, left-padded with zeros to at least three digits.
pub open spec fn padded3(n: nat) -> Seq<char> {
    let d = decimal(n);
    if d.len() >= 3 {
        d
    } else {
        zeros((3 - d.len()) as nat) + d
    }
}

/// The label that names every file of one attempt: `attempt-NNN`.
pub open spec fn attempt_label_spec(attempt: nat) -> Seq<char> {
    "attempt-"@ + padded3(attempt)
}

/// Name of the file that holds the request record of an attempt.
pub open spec fn request_file_name_spec(attempt: nat) -> Seq<char> {
    attempt_label_spec(attempt) + "-request.json"@
}

/// Name of the file that holds the response events of an attempt.
pub open spec fn response_file_name_spec(attempt: nat) -> Seq<char> {
    attempt_label_spec(attempt) + "-response.jsonl"@
}

proof fn lemma_decimal_nonempty(n: nat)
    ensures
        decimal(n).len() >= 1,
    decreases n,
{
    if n >= 10 {
        lemma_decimal_nonempty(n / 10);
    }
}

/// Decimal digits hold no line feed.
pub proof fn lemma_decimal_no_newline(n: nat)
    ensures
        crate::json::no_newline(decimal(n)),
    decreases n,
{
    if n >= 10 {
        lemma_decimal_no_newline(n / 10);
        crate::json::lemma_no_newline_concat(decimal(n / 10), seq![digit_char(n % 10)]);
    }
}

/// The one-character string of the digit `d`.
fn digit_str(d: u64) -> (r: &'static str)
    requires
        d < 10,
    ensures
        r@ == seq![digit_char(d as nat)],
{
    let digits: &'static str = "0123456789";
    proof {
        reveal_strlit("0123456789");
    }
    let r = digits.substring_char(d as usize, d as usize + 1);
    assert(r@ =~= seq![digit_char(d as nat)]);
    r
}

/// Writes `n` in decimal.
pub fn decimal_text(n: u64) -> (r: String)
    ensures
        r@ == decimal(n as nat),
    decreases n,
{
    if n < 10 {
        String::from_str(digit_str(n))
    } else {
        let head = decimal_text(n / 10);
        head.concat(digit_str(n % 10))
    }
}

/// Writes `n` in decimal, left-padded with zeros to at least three digits.
pub fn padded_decimal(n: u64) -> (r: String)
    ensures
        r@ == padded3(n as nat),
{
    let d = decimal_text(n);
    let len = d.unicode_len();
    if len >= 3 {
        d
    } else if len == 2 {
        proof {
            reveal_strlit("0");
        }
        let r = String::from_str("0").concat(d.as_str());
        assert(r@ =~= padded3(n as nat));
        r
    } else {
        proof {
            reveal_strlit("00");
            lemma_decimal_nonempty(n as nat);
        }
        let r = String::from_str("00").concat(d.as_str());
        assert(r@ =~= padded3(n as nat));
        r
    }
}

/// The label shared by the files of one attempt, `attempt-` and the attempt
/// number padded to three digits.
pub fn attempt_label(attempt: u64) -> (r: String)
    ensures
        r@ == attempt_label_spec(attempt as nat),
{
    proof {
        reveal_strlit("attempt-");
    }
    String::from_str("attempt-").concat(padded_decimal(attempt).as_str())
}

/// File name of the request record of an attempt.
pub fn request_file_name(attempt: u64) -> (r: String)
    ensures
        r@ == request_file_name_spec(attempt as nat),
{
    proof {
        reveal_strlit("-request.json");
    }
    attempt_label(attempt).concat("-request.json")
}

/// File name of the response event stream of an attempt.
pub fn response_file_name(attempt: u64) -> (r: String)
    ensures
        r@ == response_file_name_spec(attempt as nat),
{
    proof {
        reveal_strlit("-response.jsonl");
    }
    attempt_label(attempt).concat("-response.jsonl")
}

/// The digit character of `d` is `d` places after `0`.
pub proof fn lemma_digit_char_value(d: nat)
    requires
        d < 10,
    ensures
        digit_char(d) as int == '0' as int + d,
{
    let t = seq!['0', '1', '2', '3', '4', '5', '6', '7', '8', '9'];
    assert(digit_char(d) == t[d as int]);
    if d == 0 { assert(t[0] == '0'); } else if d == 1 { assert(t[1] == '1'); }
    else if d == 2 { assert(t[2] == '2'); } else if d == 3 { assert(t[3] == '3'); }
    else if d == 4 { assert(t[4] == '4'); } else if d == 5 { assert(t[5] == '5'); }
    else if d == 6 { assert(t[6] == '6'); } else if d == 7 { assert(t[7] == '7'); }
    else if d == 8 { assert(t[8] == '8'); } else { assert(t[9] == '9'); }
}

/// Decimal text is made of digits, without a leading zero unless it is `0`.
pub proof fn lemma_decimal_digits(n: nat)
    ensures
        decimal(n).len() >= 1,
        n >= 10 ==> decimal(n).len() >= 2,
        forall|i: int| 0 <= i < decimal(n).len() ==> '0' <= #[trigger] decimal(n)[i] <= '9',
        decimal(n).len() >= 2 ==> decimal(n)[0] != '0',
    decreases n,
{
    lemma_digit_char_value(n % 10);
    if n >= 10 {
        lemma_decimal_digits(n / 10);
        let d = decimal(n / 10);
        if d.len() < 2 {
            lemma_digit_char_value(n / 10);
            assert(d[0] == digit_char(n / 10));
        }
        assert(decimal(n)[0] == d[0]);
        assert forall|i: int| 0 <= i < decimal(n).len() implies '0' <= #[trigger] decimal(n)[i] <= '9' by {
            if i < d.len() {
                assert(decimal(n)[i] == d[i]);
            }
        }
    }
}

/// Different numbers have different decimal texts.
pub proof fn lemma_decimal_injective(n1: nat, n2: nat)
    requires
        decimal(n1) == decimal(n2),
    ensures
        n1 == n2,
    decreases n1,
{
    lemma_decimal_digits(n1);
    lemma_decimal_digits(n2);
    lemma_digit_char_value(n1 % 10);
    lemma_digit_char_value(n2 % 10);
    if n1 < 10 && n2 < 10 {
        assert(decimal(n1)[0] == decimal(n2)[0]);
    } else if n1 >= 10 && n2 >= 10 {
        let a = decimal(n1);
        let b = decimal(n2);
        assert(a.last() == b.last());
        assert(a.drop_last() =~= decimal(n1 / 10));
        assert(b.drop_last() =~= decimal(n2 / 10));
        lemma_decimal_injective(n1 / 10, n2 / 10);
    } else {
        assert(decimal(n1).len() == decimal(n2).len());
    }
}

/// Different attempts never share a label, so they never share a file: the files
/// of an attempt are determined by its number alone.
pub proof fn lemma_attempt_label_injective(a1: nat, a2: nat)
    requires
        a1 != a2,
    ensures
        attempt_label_spec(a1) != attempt_label_spec(a2),
        request_file_name_spec(a1) != request_file_name_spec(a2),
        response_file_name_spec(a1) != response_file_name_spec(a2),
{
    let p1 = padded3(a1);
    let p2 = padded3(a2);
    let d1 = decimal(a1);
    let d2 = decimal(a2);
    lemma_decimal_digits(a1);
    lemma_decimal_digits(a2);
    if p1 == p2 {
        if d1.len() >= 3 && d2.len() >= 3 {
            lemma_decimal_injective(a1, a2);
        } else if d1.len() >= 3 {
            assert(p2[0] == '0');
            assert(p1[0] == d1[0]);
        } else if d2.len() >= 3 {
            assert(p1[0] == '0');
            assert(p2[0] == d2[0]);
        } else if d1.len() == d2.len() {
            assert(d1 =~= p1.skip(3 - d1.len()));
            assert(d2 =~= p2.skip(3 - d2.len()));
            lemma_decimal_injective(a1, a2);
        } else if d1.len() < d2.len() {
            let k = 3 - d2.len();
            assert(p2[k] == d2[0]);
            assert(p1[k] == '0');
        } else {
            let k = 3 - d1.len();
            assert(p1[k] == d1[0]);
            assert(p2[k] == '0');
        }
    }
    let pre = "attempt-"@;
    if attempt_label_spec(a1) == attempt_label_spec(a2) {
        assert(p1 =~= attempt_label_spec(a1).skip(pre.len() as int));
        assert(p2 =~= attempt_label_spec(a2).skip(pre.len() as int));
    }
    let rq = "-request.json"@;
    if request_file_name_spec(a1) == request_file_name_spec(a2) {
        assert(attempt_label_spec(a1) =~= request_file_name_spec(a1).take(
            request_file_name_spec(a1).len() - rq.len(),
        ));
        assert(attempt_label_spec(a2) =~= request_file_name_spec(a2).take(
            request_file_name_spec(a2).len() - rq.len(),
        ));
    }
    let rs = "-response.jsonl"@;
    if response_file_name_spec(a1) == response_file_name_spec(a2) {
        assert(attempt_label_spec(a1) =~= response_file_name_spec(a1).take(
            response_file_name_spec(a1).len() - rs.len(),
        ));
        assert(attempt_label_spec(a2) =~= response_file_name_spec(a2).take(
            response_file_name_spec(a2).len() - rs.len(),
        ));
    }
}

} // verus!
