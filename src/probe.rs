//! Decoding of what the active-window probe and the command line hand over:
//! raw command output, process ids and the tracking resolution.
use vstd::prelude::*;
use vstd::string::StrSliceExecFns;
use vstd::utf8::{decode_utf8, valid_utf8};

verus! {

/// `s` with every trailing carriage return and line feed removed.
pub open spec fn trim_line_end(s: Seq<char>) -> Seq<char>
    decreases s.len(),
{
    if s.len() > 0 && (s.last() == '\r' || s.last() == '\n') {
        trim_line_end(s.drop_last())
    } else {
        s
    }
}

/// Relies on `String::from_utf8`: it succeeds exactly on valid UTF-8, and the
/// string it returns holds the decoded characters.
#[verifier::external_body]
fn string_from_utf8(bytes: Vec<u8>) -> (r: Option<String>)
    ensures
        r is Some <==> valid_utf8(bytes@),
        r is Some ==> r->0@ == decode_utf8(bytes@),
{
    String::from_utf8(bytes).ok()
}

/// Decodes a probe's raw output and strips the line break(s) at its end.
///
/// Output that is not valid UTF-8 is malformed probe input and gives `None`.
pub fn parse_and_trim(stdout: Vec<u8>) -> (r: Option<String>)
    ensures
        r is Some <==> valid_utf8(stdout@),
        r is Some ==> r->0@ == trim_line_end(decode_utf8(stdout@)),
{
    let ghost bytes = stdout@;
    let data = match string_from_utf8(stdout) {
        Some(data) => data,
        None => return None,
    };
    let text = data.as_str();
    let mut len: usize = text.unicode_len();
    assert(text@.subrange(0, len as int) == text@);
    while len > 0 && (text.get_char(len - 1) == '\r' || text.get_char(len - 1) == '\n')
        invariant
            len <= text@.len(),
            valid_utf8(bytes),
            text@ == decode_utf8(bytes),
            trim_line_end(text@.subrange(0, len as int)) == trim_line_end(text@),
        decreases len,
    {
        assert(text@.subrange(0, len as int).drop_last() == text@.subrange(0, len - 1));
        len = len - 1;
    }
    assert(text@.subrange(0, len as int) == trim_line_end(text@.subrange(0, len as int)));
    Some(text.substring_char(0, len).to_owned())
}

/// `c` is an ASCII decimal digit.
pub open spec fn is_digit(c: char) -> bool {
    '0' <= c <= '9'
}

/// The number that the decimal digits `s` write.
pub open spec fn digits_value(s: Seq<char>) -> int
    decreases s.len(),
{
    if s.len() == 0 {
        0
    } else {
        digits_value(s.drop_last()) * 10 + (s.last() as u32 - '0' as u32)
    }
}

/// The digits of `s` once a leading `+` is dropped.
pub open spec fn unsigned_digits(s: Seq<char>) -> Seq<char> {
    if s.len() > 0 && s[0] == '+' {
        s.drop_first()
    } else {
        s
    }
}

/// The value of the unsigned decimal numeral `s` (digits, after an optional
/// `+`), or `None` when `s` is no such numeral.
pub open spec fn decimal_value(s: Seq<char>) -> Option<int> {
    let d = unsigned_digits(s);
    if d.len() > 0 && forall|i: int| 0 <= i < d.len() ==> is_digit(#[trigger] d[i]) {
        Some(digits_value(d))
    } else {
        None
    }
}

/// `decimal_value(s)` as a `u64`, or `None` when it is none or does not fit.
pub open spec fn decimal_u64(s: Seq<char>) -> Option<u64> {
    match decimal_value(s) {
        Some(v) => if v <= u64::MAX {
            Some(v as u64)
        } else {
            None
        },
        None => None,
    }
}

proof fn lemma_digits_prefix(s: Seq<char>, k: int)
    requires
        0 <= k <= s.len(),
        forall|i: int| 0 <= i < s.len() ==> is_digit(#[trigger] s[i]),
    ensures
        digits_value(s.subrange(0, k)) <= digits_value(s),
    decreases s.len(),
{
    if k < s.len() {
        let t = s.drop_last();
        assert(t.subrange(0, k) =~= s.subrange(0, k));
        lemma_digits_prefix(t, k);
        lemma_digits_nonneg(t);
    } else {
        assert(s.subrange(0, k) =~= s);
    }
}

proof fn lemma_digits_nonneg(s: Seq<char>)
    requires
        forall|i: int| 0 <= i < s.len() ==> is_digit(#[trigger] s[i]),
    ensures
        digits_value(s) >= 0,
    decreases s.len(),
{
    if s.len() > 0 {
        lemma_digits_nonneg(s.drop_last());
    }
}

/// Reads an unsigned decimal numeral that fits in a `u64`.
pub fn parse_unsigned(text: &str) -> (r: Option<u64>)
    ensures
        r == decimal_u64(text@),
{
    let n = text.unicode_len();
    let start: usize = if n > 0 && text.get_char(0) == '+' { 1 } else { 0 };
    let ghost d = unsigned_digits(text@);
    assert(d =~= text@.subrange(start as int, n as int));
    if start == n {
        return None;
    }
    let mut value: u64 = 0;
    let mut i: usize = start;
    assert(d.subrange(0, 0) =~= Seq::<char>::empty());
    while i < n
        invariant
            start <= i <= n,
            n == text@.len(),
            d == text@.subrange(start as int, n as int),
            d == unsigned_digits(text@),
            forall|k: int| 0 <= k < i - start ==> is_digit(#[trigger] d[k]),
            value == digits_value(d.subrange(0, i - start)),
        decreases n - i,
    {
        let c = text.get_char(i);
        if !('0' <= c && c <= '9') {
            assert(!is_digit(d[i - start]));
            return None;
        }
        let digit = (c as u32 - '0' as u32) as u64;
        let ghost p = d.subrange(0, i + 1 - start);
        assert(p.drop_last() =~= d.subrange(0, i - start));
        if value > (u64::MAX - digit) / 10 {
            proof {
                assert(digits_value(p) > u64::MAX) by (nonlinear_arith)
                    requires
                        value > (u64::MAX - digit) / 10,
                        digits_value(p) == value * 10 + digit,
                        digit <= 9;
                if forall|k: int| 0 <= k < d.len() ==> is_digit(#[trigger] d[k]) {
                    lemma_digits_prefix(d, i + 1 - start);
                }
            }
            return None;
        }
        assert(value * 10 + digit <= u64::MAX) by (nonlinear_arith)
            requires
                value <= (u64::MAX - digit) / 10,
                digit <= 9;
        value = value * 10 + digit;
        i = i + 1;
    }
    assert(d.subrange(0, n - start) =~= d);
    Some(value)
}

/// Reads a process id from a probe's raw output. Output that is not valid
/// UTF-8 or not a `u64` numeral once trimmed gives `None`.
pub fn parse_pid(stdout: Vec<u8>) -> (r: Option<u64>)
    ensures
        r == (if valid_utf8(stdout@) {
            decimal_u64(trim_line_end(decode_utf8(stdout@)))
        } else {
            None
        }),
{
    match parse_and_trim(stdout) {
        Some(text) => parse_unsigned(text.as_str()),
        None => None,
    }
}

/// Reads the tracking resolution, a positive number of seconds. Anything
/// else gives `None`.
pub fn parse_resolution(text: &str) -> (r: Option<u64>)
    ensures
        r == (match decimal_u64(text@) {
            Some(v) => if v > 0 {
                Some(v)
            } else {
                None
            },
            None => None,
        }),
{
    match parse_unsigned(text) {
        Some(v) => if v > 0 {
            Some(v)
        } else {
            None
        },
        None => None,
    }
}

} // verus!
