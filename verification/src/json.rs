//! The persisted alarm report format: a JSON array of alarm records,
//! written and read by this module. The serializer is specified
//! character by character, the parser is specified as the exact inverse
//! on serialized reports, and the round trip is proved.

use vstd::prelude::*;

use crate::alarms::lemma_operator_name_round_trip;
use crate::alarms::lemma_statistic_name_round_trip;
use crate::alarms::operator_from_name;
use crate::alarms::operator_name;
use crate::alarms::spec_is_number_char;
use crate::alarms::spec_number_text;
use crate::alarms::spec_operator_from_name;
use crate::alarms::spec_operator_name;
use crate::alarms::spec_statistic_from_name;
use crate::alarms::spec_statistic_name;
use crate::alarms::spec_string_views;
use crate::alarms::statistic_from_name;
use crate::alarms::statistic_name;
use crate::alarms::AlarmRecord;
use crate::alarms::AlarmRecordView;
use crate::alarms::spec_wf_record;
use crate::numbers::i32_to_dec;
use crate::numbers::lemma_dec_val_of_nat_dec;
use crate::numbers::lemma_dec_val_prefix_le;
use crate::numbers::lemma_nat_dec_digits;
use crate::numbers::spec_dec_val;
use crate::numbers::spec_digit_val;
use crate::numbers::spec_int_dec;
use crate::numbers::spec_is_digit;
use crate::numbers::spec_nat_dec;
use crate::text::push_char;

verus! {

/// The escape of one character inside a JSON string: quote and
/// backslash are preceded by a backslash, everything else stands for
/// itself.
pub open spec fn spec_escape_char(c: char) -> Seq<char> {
    if c == '"' || c == '\\' {
        seq!['\\', c]
    } else {
        seq![c]
    }
}

/// The escaped body of a JSON string.
pub open spec fn spec_escape(s: Seq<char>) -> Seq<char>
    decreases s.len(),
{
    if s.len() == 0 {
        Seq::<char>::empty()
    } else {
        spec_escape(s.drop_last()) + spec_escape_char(s.last())
    }
}

/// A JSON string token: quote, escaped body, quote.
pub open spec fn spec_json_string(s: Seq<char>) -> Seq<char> {
    seq!['"'] + spec_escape(s) + seq!['"']
}

/// Unfolding the escape from the front, as the parser consumes it.
pub proof fn lemma_escape_front(s: Seq<char>)
    requires
        s.len() > 0,
    ensures
        spec_escape(s) == spec_escape_char(s[0]) + spec_escape(s.skip(1)),
    decreases s.len(),
{
    if s.len() == 1 {
        assert(s.drop_last() =~= Seq::<char>::empty());
        assert(s.skip(1) =~= Seq::<char>::empty());
        assert(spec_escape(s) =~= spec_escape_char(s[0]) + spec_escape(s.skip(1)));
    } else {
        lemma_escape_front(s.drop_last());
        assert(s.drop_last()[0] == s[0]);
        assert(s.drop_last().skip(1) =~= s.skip(1).drop_last());
        assert(s.skip(1).last() == s.last());
        assert(spec_escape(s) == (spec_escape_char(s[0]) + spec_escape(s.skip(1).drop_last()))
            + spec_escape_char(s.skip(1).last()));
        assert(spec_escape(s) =~= spec_escape_char(s[0]) + spec_escape(s.skip(1)));
    }
}

/// Appends the JSON string token for `s` to `out`.
pub fn append_json_string(out: &mut String, s: &str)
    ensures
        final(out)@ == old(out)@ + spec_json_string(s@),
{
    let ghost base: Seq<char> = out@;
    push_char(out, '"');
    let n = s.unicode_len();
    let mut i: usize = 0;
    proof {
        assert(s@.take(0) =~= Seq::<char>::empty());
        assert(out@ =~= base + seq!['"'] + spec_escape(s@.take(0)));
    }
    while i < n
        invariant
            n == s@.len(),
            i <= n,
            out@ == base + seq!['"'] + spec_escape(s@.take(i as int)),
        decreases n - i,
    {
        let c = s.get_char(i);
        proof {
            assert(s@.take(i + 1).drop_last() =~= s@.take(i as int));
            assert(s@.take(i + 1).last() == s@[i as int]);
        }
        if c == '"' || c == '\\' {
            push_char(out, '\\');
            push_char(out, c);
        } else {
            push_char(out, c);
        }
        proof {
            assert(out@ =~= base + seq!['"'] + spec_escape(s@.take(i + 1)));
        }
        i += 1;
    }
    push_char(out, '"');
    proof {
        assert(s@.take(n as int) =~= s@);
        assert(out@ =~= base + spec_json_string(s@));
    }
}

/// The parser's scan of a string body from position `i` (just after
/// the opening quote): collects characters, taking the character after
/// a backslash literally, until the closing quote.
pub open spec fn spec_scan_string(s: Seq<char>, i: int) -> Option<(Seq<char>, int)>
    decreases s.len() - i,
{
    if i < 0 || i >= s.len() {
        None
    } else if s[i] == '"' {
        Some((Seq::<char>::empty(), i + 1))
    } else if s[i] == '\\' {
        if i + 1 < s.len() {
            match spec_scan_string(s, i + 2) {
                Some((t, j)) => Some((seq![s[i + 1]] + t, j)),
                None => None,
            }
        } else {
            None
        }
    } else {
        match spec_scan_string(s, i + 1) {
            Some((t, j)) => Some((seq![s[i]] + t, j)),
            None => None,
        }
    }
}

/// A string token parse: an opening quote, then the scanned body.
pub open spec fn spec_parse_string(s: Seq<char>, i: int) -> Option<(Seq<char>, int)> {
    if 0 <= i < s.len() && s[i] == '"' {
        spec_scan_string(s, i + 1)
    } else {
        None
    }
}

/// Scanning the escape of `content` followed by a closing quote yields
/// exactly `content`, whatever follows the quote.
pub proof fn lemma_scan_string_inverts(s: Seq<char>, i: int, content: Seq<char>)
    requires
        0 <= i,
        i + spec_escape(content).len() + 1 <= s.len(),
        s.subrange(i, i + spec_escape(content).len() as int) == spec_escape(content),
        s[i + spec_escape(content).len() as int] == '"',
    ensures
        spec_scan_string(s, i) == Some((content, i + spec_escape(content).len() + 1)),
    decreases content.len(),
{
    let esc = spec_escape(content);
    if content.len() == 0 {
        assert(esc.len() == 0);
        assert(s[i] == '"');
    } else {
        lemma_escape_front(content);
        let c = content[0];
        let rest = content.skip(1);
        let ec = spec_escape_char(c);
        let erest = spec_escape(rest);
        assert(esc == ec + erest);
        let win = s.subrange(i, i + esc.len() as int);
        assert(win == esc);
        if c == '"' || c == '\\' {
            assert(ec.len() == 2);
            assert(esc[0] == '\\');
            assert(esc[1] == c);
            assert(s[i + 0] == win[0]);
            assert(s[i] == '\\');
            assert(s[i + 1] == win[1]);
            assert(s[i + 1] == c);
            assert(s.subrange(i + 2, i + 2 + erest.len() as int) =~= erest) by {
                assert forall|t: int| 0 <= t < erest.len() implies s.subrange(
                    i + 2,
                    i + 2 + erest.len() as int,
                )[t] == erest[t] by {
                    assert(s.subrange(i + 2, i + 2 + erest.len() as int)[t] == s[i + 2 + t]);
                    assert(s[i + (2 + t)] == win[2 + t]);
                    assert(win[2 + t] == erest[t]);
                }
            }
            assert(s[(i + 2) + erest.len() as int] == '"');
            lemma_scan_string_inverts(s, i + 2, rest);
            assert(seq![s[i + 1]] + rest =~= content);
        } else {
            assert(ec.len() == 1);
            assert(esc[0] == c);
            assert(s[i + 0] == win[0]);
            assert(s[i] == c);
            assert(s[i] != '"' && s[i] != '\\');
            assert(s.subrange(i + 1, i + 1 + erest.len() as int) =~= erest) by {
                assert forall|t: int| 0 <= t < erest.len() implies s.subrange(
                    i + 1,
                    i + 1 + erest.len() as int,
                )[t] == erest[t] by {
                    assert(s.subrange(i + 1, i + 1 + erest.len() as int)[t] == s[i + 1 + t]);
                    assert(s[i + (1 + t)] == win[1 + t]);
                    assert(win[1 + t] == erest[t]);
                }
            }
            assert(s[(i + 1) + erest.len() as int] == '"');
            lemma_scan_string_inverts(s, i + 1, rest);
            assert(seq![s[i]] + rest =~= content);
        }
    }
}

/// The string token for `content` parses back to exactly `content`.
pub proof fn lemma_parse_string_inverts(s: Seq<char>, i: int, content: Seq<char>)
    requires
        0 <= i,
        i + spec_json_string(content).len() <= s.len(),
        s.subrange(i, i + spec_json_string(content).len() as int) == spec_json_string(content),
    ensures
        spec_parse_string(s, i) == Some((content, i + spec_json_string(content).len())),
{
    let js = spec_json_string(content);
    let esc = spec_escape(content);
    let win = s.subrange(i, i + js.len() as int);
    assert(win == js);
    assert(js.len() == esc.len() + 2);
    assert forall|k: int| 0 <= k < js.len() implies s[i + k] == js[k] by {
        assert(win[k] == s[i + k]);
        assert(win[k] == js[k]);
    }
    assert(js[0] == '"');
    assert(s[i + 0] == js[0]);
    assert(s[i] == '"');
    assert forall|t: int| 0 <= t < esc.len() implies js[1 + t] == esc[t] by {
        assert((seq!['"'] + esc)[1 + t] == esc[t]);
    }
    assert(s.subrange(i + 1, i + 1 + esc.len() as int) =~= esc) by {
        assert forall|t: int| 0 <= t < esc.len() implies s.subrange(
            i + 1,
            i + 1 + esc.len() as int,
        )[t] == esc[t] by {
            assert(s.subrange(i + 1, i + 1 + esc.len() as int)[t] == s[i + 1 + t]);
            assert(s[i + (1 + t)] == js[1 + t]);
            assert(js[1 + t] == esc[t]);
        }
    }
    assert(js[1 + esc.len() as int] == '"');
    assert(s[i + (1 + esc.len() as int)] == js[1 + esc.len() as int]);
    assert(s[i + 1 + esc.len() as int] == '"');
    lemma_scan_string_inverts(s, i + 1, content);
}

/// Parses a JSON string token at `i`, returning the decoded content
/// and the position after the closing quote.
pub fn parse_string(s: &str, i: usize) -> (r: Option<(String, usize)>)
    ensures
        match r {
            Some(v) => spec_parse_string(s@, i as int) == Some((v.0@, v.1 as int)) && i < v.1
                <= s@.len(),
            None => spec_parse_string(s@, i as int) is None,
        },
{
    let slen = s.unicode_len();
    if i >= slen {
        return None;
    }
    if s.get_char(i) != '"' {
        return None;
    }
    let mut cur: usize = i + 1;
    let mut out = String::new();
    proof {
        if spec_scan_string(s@, i + 1) is Some {
            let (t, j) = spec_scan_string(s@, i + 1).unwrap();
            assert(Seq::<char>::empty() + t =~= t);
        }
    }
    while cur < slen
        invariant
            slen == s@.len(),
            i < slen,
            s@[i as int] == '"',
            i + 1 <= cur <= slen,
            spec_scan_string(s@, i + 1) == (match spec_scan_string(s@, cur as int) {
                Some((t, j)) => Some((out@ + t, j)),
                None => None::<(Seq<char>, int)>,
            }),
        decreases slen - cur,
    {
        let c = s.get_char(cur);
        if c == '"' {
            proof {
                assert(spec_scan_string(s@, cur as int) == Some(
                    (Seq::<char>::empty(), cur + 1int),
                ));
                assert(out@ + Seq::<char>::empty() =~= out@);
            }
            return Some((out, cur + 1));
        } else if c == '\\' {
            if cur + 1 >= slen {
                assert(spec_scan_string(s@, cur as int) is None);
                return None;
            }
            let c2 = s.get_char(cur + 1);
            let ghost out0: Seq<char> = out@;
            push_char(&mut out, c2);
            proof {
                if spec_scan_string(s@, cur + 2) is Some {
                    let (t, j) = spec_scan_string(s@, cur + 2).unwrap();
                    assert(spec_scan_string(s@, cur as int) == Some((seq![c2] + t, j)));
                    assert(out0 + (seq![c2] + t) =~= out@ + t);
                } else {
                    assert(spec_scan_string(s@, cur as int) is None);
                }
            }
            cur = cur + 2;
        } else {
            let ghost out0: Seq<char> = out@;
            push_char(&mut out, c);
            proof {
                if spec_scan_string(s@, cur + 1) is Some {
                    let (t, j) = spec_scan_string(s@, cur + 1).unwrap();
                    assert(spec_scan_string(s@, cur as int) == Some((seq![c] + t, j)));
                    assert(out0 + (seq![c] + t) =~= out@ + t);
                } else {
                    assert(spec_scan_string(s@, cur as int) is None);
                }
            }
            cur = cur + 1;
        }
    }
    assert(spec_scan_string(s@, cur as int) is None);
    None
}

/// The maximal run of number characters starting at `i`, and the
/// position after it.
pub open spec fn spec_scan_number(s: Seq<char>, i: int) -> (Seq<char>, int)
    decreases s.len() - i,
{
    if 0 <= i < s.len() && spec_is_number_char(s[i]) {
        let r = spec_scan_number(s, i + 1);
        (seq![s[i]] + r.0, r.1)
    } else {
        (Seq::<char>::empty(), i)
    }
}

/// The maximal run of digits starting at `i`, and the position after
/// it.
pub open spec fn spec_scan_digits(s: Seq<char>, i: int) -> (Seq<char>, int)
    decreases s.len() - i,
{
    if 0 <= i < s.len() && spec_is_digit(s[i]) {
        let r = spec_scan_digits(s, i + 1);
        (seq![s[i]] + r.0, r.1)
    } else {
        (Seq::<char>::empty(), i)
    }
}

/// A number token parse: the run must be non-empty.
pub open spec fn spec_parse_number(s: Seq<char>, i: int) -> Option<(Seq<char>, int)> {
    let r = spec_scan_number(s, i);
    if r.0.len() > 0 {
        Some(r)
    } else {
        None
    }
}

/// A signed integer parse within the persisted width: an optional
/// minus sign, then a non-empty digit run whose value fits.
pub open spec fn spec_parse_i32(s: Seq<char>, i: int) -> Option<(int, int)> {
    if 0 <= i < s.len() && s[i] == '-' {
        let r = spec_scan_digits(s, i + 1);
        if r.0.len() > 0 && spec_dec_val(r.0) <= 2147483648 {
            Some((-(spec_dec_val(r.0) as int), r.1))
        } else {
            None
        }
    } else {
        let r = spec_scan_digits(s, i);
        if r.0.len() > 0 && spec_dec_val(r.0) <= 2147483647 {
            Some((spec_dec_val(r.0) as int, r.1))
        } else {
            None
        }
    }
}

/// Scanning a run that is number text, placed before a character that
/// is not a number character, yields exactly that run.
pub proof fn lemma_scan_number_inverts(s: Seq<char>, i: int, tok: Seq<char>)
    requires
        0 <= i,
        i + tok.len() <= s.len(),
        forall|k: int| 0 <= k < tok.len() ==> spec_is_number_char(#[trigger] tok[k]),
        s.subrange(i, i + tok.len() as int) == tok,
        i + tok.len() == s.len() || !spec_is_number_char(s[i + tok.len() as int]),
    ensures
        spec_scan_number(s, i) == (tok, i + tok.len() as int),
    decreases tok.len(),
{
    let win = s.subrange(i, i + tok.len() as int);
    if tok.len() == 0 {
        if i < s.len() {
            assert(!spec_is_number_char(s[i]));
        }
    } else {
        assert(s[i + 0] == win[0]);
        assert(s[i] == tok[0]);
        assert(spec_is_number_char(tok[0]));
        let rest = tok.skip(1);
        assert(s.subrange(i + 1, i + 1 + rest.len() as int) =~= rest) by {
            assert forall|t: int| 0 <= t < rest.len() implies s.subrange(
                i + 1,
                i + 1 + rest.len() as int,
            )[t] == rest[t] by {
                assert(s.subrange(i + 1, i + 1 + rest.len() as int)[t] == s[i + 1 + t]);
                assert(s[i + (1 + t)] == win[1 + t]);
            }
        }
        lemma_scan_number_inverts(s, i + 1, rest);
        assert(seq![s[i]] + rest =~= tok);
    }
}

/// Scanning a digit run placed before a non-digit yields exactly that
/// run.
pub proof fn lemma_scan_digits_inverts(s: Seq<char>, i: int, tok: Seq<char>)
    requires
        0 <= i,
        i + tok.len() <= s.len(),
        forall|k: int| 0 <= k < tok.len() ==> spec_is_digit(#[trigger] tok[k]),
        s.subrange(i, i + tok.len() as int) == tok,
        i + tok.len() == s.len() || !spec_is_digit(s[i + tok.len() as int]),
    ensures
        spec_scan_digits(s, i) == (tok, i + tok.len() as int),
    decreases tok.len(),
{
    let win = s.subrange(i, i + tok.len() as int);
    if tok.len() == 0 {
        if i < s.len() {
            assert(!spec_is_digit(s[i]));
        }
    } else {
        assert(s[i + 0] == win[0]);
        assert(s[i] == tok[0]);
        assert(spec_is_digit(tok[0]));
        let rest = tok.skip(1);
        assert(s.subrange(i + 1, i + 1 + rest.len() as int) =~= rest) by {
            assert forall|t: int| 0 <= t < rest.len() implies s.subrange(
                i + 1,
                i + 1 + rest.len() as int,
            )[t] == rest[t] by {
                assert(s.subrange(i + 1, i + 1 + rest.len() as int)[t] == s[i + 1 + t]);
                assert(s[i + (1 + t)] == win[1 + t]);
            }
        }
        lemma_scan_digits_inverts(s, i + 1, rest);
        assert(seq![s[i]] + rest =~= tok);
    }
}

/// The decimal rendering of an integer in the persisted width, placed
/// before a non-digit, parses back to exactly that integer.
pub proof fn lemma_parse_i32_inverts(s: Seq<char>, i: int, n: int)
    requires
        0 <= i,
        i32::MIN <= n <= i32::MAX,
        i + spec_int_dec(n).len() <= s.len(),
        s.subrange(i, i + spec_int_dec(n).len() as int) == spec_int_dec(n),
        i + spec_int_dec(n).len() == s.len() || !spec_is_digit(
            s[i + spec_int_dec(n).len() as int],
        ),
    ensures
        spec_parse_i32(s, i) == Some((n, i + spec_int_dec(n).len())),
{
    let dec = spec_int_dec(n);
    let win = s.subrange(i, i + dec.len() as int);
    assert(win == dec);
    if n < 0 {
        let mag = (-n) as nat;
        let digits = spec_nat_dec(mag);
        lemma_nat_dec_digits(mag);
        assert(dec == seq!['-'] + digits);
        assert(s[i + 0] == win[0]);
        assert(s[i] == '-');
        assert(s.subrange(i + 1, i + 1 + digits.len() as int) =~= digits) by {
            assert forall|t: int| 0 <= t < digits.len() implies s.subrange(
                i + 1,
                i + 1 + digits.len() as int,
            )[t] == digits[t] by {
                assert(s.subrange(i + 1, i + 1 + digits.len() as int)[t] == s[i + 1 + t]);
                assert(s[i + (1 + t)] == win[1 + t]);
            }
        }
        assert(i + 1 + digits.len() == i + dec.len());
        lemma_scan_digits_inverts(s, i + 1, digits);
        lemma_dec_val_of_nat_dec(mag);
        assert(spec_dec_val(digits) == mag);
        assert(mag <= 2147483648);
    } else {
        let digits = spec_nat_dec(n as nat);
        lemma_nat_dec_digits(n as nat);
        assert(dec == digits);
        assert(s[i + 0] == win[0]);
        assert(spec_is_digit(s[i]));
        assert(s[i] != '-') by {
            assert(48 <= s[i] as u32 <= 57);
            assert('-' as u32 == 45);
        }
        lemma_scan_digits_inverts(s, i, digits);
        lemma_dec_val_of_nat_dec(n as nat);
        assert(spec_dec_val(digits) == n);
        assert(n <= 2147483647);
    }
}

/// Number text placed before a character that is not a number
/// character parses back as exactly that token.
pub proof fn lemma_parse_number_inverts(s: Seq<char>, i: int, tok: Seq<char>)
    requires
        0 <= i,
        spec_number_text(tok),
        i + tok.len() <= s.len(),
        s.subrange(i, i + tok.len() as int) == tok,
        i + tok.len() == s.len() || !spec_is_number_char(s[i + tok.len() as int]),
    ensures
        spec_parse_number(s, i) == Some((tok, i + tok.len())),
{
    lemma_scan_number_inverts(s, i, tok);
}

/// Finds the end of the maximal run of number characters starting at
/// `i`.
fn scan_number_end(s: &str, i: usize) -> (j: usize)
    requires
        i <= s@.len(),
    ensures
        spec_scan_number(s@, i as int).1 == j as int,
        spec_scan_number(s@, i as int).0 == s@.subrange(i as int, j as int),
        i <= j <= s@.len(),
    decreases s@.len() - i,
{
    let slen = s.unicode_len();
    if i < slen {
        let c = s.get_char(i);
        let u = c as u32;
        if (48 <= u && u <= 57) || c == '.' || c == '-' || c == '+' || c == 'e' || c == 'E' {
            let j = scan_number_end(s, i + 1);
            proof {
                let r = spec_scan_number(s@, i + 1);
                assert(spec_scan_number(s@, i as int) == (seq![c] + r.0, r.1));
                assert(seq![c] + s@.subrange(i + 1, j as int) =~= s@.subrange(i as int, j as int));
            }
            return j;
        }
    }
    proof {
        assert(s@.subrange(i as int, i as int) =~= Seq::<char>::empty());
    }
    i
}

/// Copies the characters of `s` between `from` and `to` into a new
/// string.
fn collect_range(s: &str, from: usize, to: usize) -> (r: String)
    requires
        from <= to <= s@.len(),
    ensures
        r@ == s@.subrange(from as int, to as int),
{
    let mut out = String::new();
    let mut k: usize = from;
    proof {
        assert(out@ =~= s@.subrange(from as int, from as int));
    }
    while k < to
        invariant
            from <= k <= to <= s@.len(),
            out@ == s@.subrange(from as int, k as int),
        decreases to - k,
    {
        push_char(&mut out, s.get_char(k));
        proof {
            assert(out@ =~= s@.subrange(from as int, k + 1));
        }
        k += 1;
    }
    out
}

/// Collects the maximal run of number characters starting at `i`.
pub fn scan_number(s: &str, i: usize) -> (r: (String, usize))
    requires
        i <= s@.len(),
    ensures
        (r.0@, r.1 as int) == spec_scan_number(s@, i as int),
        i <= r.1 <= s@.len(),
{
    let j = scan_number_end(s, i);
    let tok = collect_range(s, i, j);
    (tok, j)
}

/// Finds the end of the maximal digit run starting at `i`.
fn scan_digits_end(s: &str, i: usize) -> (j: usize)
    requires
        i <= s@.len(),
    ensures
        spec_scan_digits(s@, i as int).1 == j as int,
        spec_scan_digits(s@, i as int).0 == s@.subrange(i as int, j as int),
        i <= j <= s@.len(),
        forall|k: int| i <= k < j ==> spec_is_digit(#[trigger] s@[k]),
    decreases s@.len() - i,
{
    let slen = s.unicode_len();
    if i < slen {
        let c = s.get_char(i);
        let u = c as u32;
        if 48 <= u && u <= 57 {
            let j = scan_digits_end(s, i + 1);
            proof {
                let r = spec_scan_digits(s@, i + 1);
                assert(spec_scan_digits(s@, i as int) == (seq![c] + r.0, r.1));
                assert(seq![c] + s@.subrange(i + 1, j as int) =~= s@.subrange(i as int, j as int));
            }
            return j;
        }
    }
    proof {
        assert(s@.subrange(i as int, i as int) =~= Seq::<char>::empty());
    }
    i
}

/// Computes the value of a digit run, refusing a value above `bound`.
fn dec_value_bounded(s: &str, from: usize, to: usize, bound: u64) -> (r: Option<u64>)
    requires
        from <= to <= s@.len(),
        bound <= 0xFFFF_FFFF,
        forall|k: int| from <= k < to ==> spec_is_digit(#[trigger] s@[k]),
    ensures
        match r {
            Some(v) => v == spec_dec_val(s@.subrange(from as int, to as int)) && v <= bound,
            None => spec_dec_val(s@.subrange(from as int, to as int)) > bound,
        },
{
    let ghost tok = s@.subrange(from as int, to as int);
    let mut v: u64 = 0;
    let mut k: usize = from;
    proof {
        assert(tok.take(0) =~= Seq::<char>::empty());
    }
    while k < to
        invariant
            from <= k <= to <= s@.len(),
            bound <= 0xFFFF_FFFF,
            tok == s@.subrange(from as int, to as int),
            forall|t: int| from <= t < to ==> spec_is_digit(#[trigger] s@[t]),
            v == spec_dec_val(tok.take(k - from)),
            v <= bound,
        decreases to - k,
    {
        let c = s.get_char(k);
        proof {
            assert(s@[k as int] == tok[k - from]);
            assert(spec_is_digit(s@[k as int]));
        }
        let d: u64 = (c as u32 - 48) as u64;
        proof {
            assert(d == spec_digit_val(tok[k - from]));
            assert(tok.take(k - from + 1).drop_last() =~= tok.take(k - from));
            assert(tok.take(k - from + 1).last() == tok[k - from]);
        }
        let next = v * 10 + d;
        proof {
            assert(spec_dec_val(tok.take(k - from + 1)) == v * 10 + d);
        }
        if next > bound {
            proof {
                lemma_dec_val_prefix_le(tok, k - from + 1);
            }
            return None;
        }
        v = next;
        k += 1;
    }
    proof {
        assert(tok.take(to - from) =~= tok);
    }
    Some(v)
}

/// Parses a signed integer of the persisted width at `i`.
pub fn parse_i32(s: &str, i: usize) -> (r: Option<(i32, usize)>)
    requires
        i <= s@.len(),
    ensures
        match r {
            Some(v) => spec_parse_i32(s@, i as int) == Some((v.0 as int, v.1 as int)) && i < v.1
                <= s@.len(),
            None => spec_parse_i32(s@, i as int) is None,
        },
{
    let slen = s.unicode_len();
    let neg = i < slen && s.get_char(i) == '-';
    let start = if neg {
        i + 1
    } else {
        i
    };
    let j = scan_digits_end(s, start);
    if j == start {
        return None;
    }
    let bound: u64 = if neg {
        2147483648
    } else {
        2147483647
    };
    match dec_value_bounded(s, start, j, bound) {
        None => None,
        Some(v) => {
            if neg {
                let val: i32 = (-(v as i64)) as i32;
                proof {
                    assert(val as int == -(spec_dec_val(s@.subrange(start as int, j as int)) as int));
                }
                Some((val, j))
            } else {
                Some((v as i32, j))
            }
        },
    }
}

/// Parses a number token at `i`.
pub fn parse_numtok(s: &str, i: usize) -> (r: Option<(String, usize)>)
    requires
        i <= s@.len(),
    ensures
        match r {
            Some(v) => spec_parse_number(s@, i as int) == Some((v.0@, v.1 as int)) && i < v.1
                <= s@.len(),
            None => spec_parse_number(s@, i as int) is None,
        },
{
    let (tok, j) = scan_number(s, i);
    if tok.as_str().is_empty() {
        return None;
    }
    proof {
        lemma_scan_number_advances(s@, i as int);
    }
    Some((tok, j))
}

/// A non-empty number scan advances.
proof fn lemma_scan_number_advances(s: Seq<char>, i: int)
    ensures
        spec_scan_number(s, i).0.len() == 0 || spec_scan_number(s, i).1 > i,
    decreases s.len() - i,
{
    if 0 <= i < s.len() && spec_is_number_char(s[i]) {
        lemma_scan_number_advances(s, i + 1);
    }
}

/// The literal `lit` stands at position `i` of `s`.
pub open spec fn spec_lit_at(s: Seq<char>, i: int, lit: Seq<char>) -> bool {
    0 <= i && i + lit.len() <= s.len() && s.subrange(i, i + lit.len() as int) == lit
}

/// The JSON rendering of a boolean.
pub open spec fn spec_json_bool(b: bool) -> Seq<char> {
    if b {
        "true"@
    } else {
        "false"@
    }
}

/// A boolean parse: one of the two keyword literals.
pub open spec fn spec_parse_bool(s: Seq<char>, i: int) -> Option<(bool, int)> {
    if spec_lit_at(s, i, "true"@) {
        Some((true, i + "true"@.len()))
    } else if spec_lit_at(s, i, "false"@) {
        Some((false, i + "false"@.len()))
    } else {
        None
    }
}

/// The JSON rendering of a boolean parses back to that boolean.
pub proof fn lemma_parse_bool_inverts(s: Seq<char>, i: int, b: bool)
    requires
        0 <= i,
        i + spec_json_bool(b).len() <= s.len(),
        s.subrange(i, i + spec_json_bool(b).len() as int) == spec_json_bool(b),
    ensures
        spec_parse_bool(s, i) == Some((b, i + spec_json_bool(b).len())),
{
    reveal_strlit("true");
    reveal_strlit("false");
    assert("true"@.len() == 4);
    assert("false"@.len() == 5);
    if b {
        assert(spec_lit_at(s, i, "true"@));
    } else {
        assert(spec_lit_at(s, i, "false"@));
        if spec_lit_at(s, i, "true"@) {
            let wt = s.subrange(i, i + 4);
            let wf = s.subrange(i, i + 5);
            assert(wt[0] == s[i + 0]);
            assert(wf[0] == s[i + 0]);
            assert("true"@[0] == 't');
            assert("false"@[0] == 'f');
            assert(false);
        }
    }
}

/// Checks whether the literal `lit` stands at position `i`.
fn expect_lit(s: &str, i: usize, lit: &str) -> (r: Option<usize>)
    requires
        i <= s@.len(),
    ensures
        match r {
            Some(j) => spec_lit_at(s@, i as int, lit@) && j as int == i + lit@.len() && i <= j
                <= s@.len(),
            None => !spec_lit_at(s@, i as int, lit@),
        },
{
    let slen = s.unicode_len();
    let llen = lit.unicode_len();
    if llen > slen - i {
        return None;
    }
    if crate::text::match_at(s, lit, i) {
        Some(i + llen)
    } else {
        None
    }
}

/// Parses a boolean keyword at `i`.
fn parse_bool(s: &str, i: usize) -> (r: Option<(bool, usize)>)
    requires
        i <= s@.len(),
    ensures
        match r {
            Some(v) => spec_parse_bool(s@, i as int) == Some((v.0, v.1 as int)) && i < v.1
                <= s@.len(),
            None => spec_parse_bool(s@, i as int) is None,
        },
{
    proof {
        reveal_strlit("true");
        reveal_strlit("false");
    }
    match expect_lit(s, i, "true") {
        Some(j) => Some((true, j)),
        None => {
            match expect_lit(s, i, "false") {
                Some(j) => Some((false, j)),
                None => None,
            }
        },
    }
}

/// The body of a JSON array of strings, commas between the items.
pub open spec fn spec_json_strings_inner(ds: Seq<Seq<char>>) -> Seq<char>
    decreases ds.len(),
{
    if ds.len() == 0 {
        Seq::<char>::empty()
    } else if ds.len() == 1 {
        spec_json_string(ds[0])
    } else {
        spec_json_strings_inner(ds.drop_last()) + seq![','] + spec_json_string(ds.last())
    }
}

/// A JSON array of strings.
pub open spec fn spec_json_strings(ds: Seq<Seq<char>>) -> Seq<char> {
    seq!['['] + spec_json_strings_inner(ds) + seq![']']
}

/// Unfolding the array body from the front, as the parser consumes it.
pub proof fn lemma_strings_inner_front(ds: Seq<Seq<char>>)
    requires
        ds.len() > 0,
    ensures
        ds.len() == 1 ==> spec_json_strings_inner(ds) == spec_json_string(ds[0]),
        ds.len() > 1 ==> spec_json_strings_inner(ds) == spec_json_string(ds[0]) + seq![',']
            + spec_json_strings_inner(ds.skip(1)),
    decreases ds.len(),
{
    if ds.len() <= 1 {
    } else if ds.len() == 2 {
        assert(spec_json_strings_inner(ds) == spec_json_strings_inner(ds.drop_last()) + seq![',']
            + spec_json_string(ds.last()));
        assert(ds.drop_last().len() == 1);
        assert(spec_json_strings_inner(ds.drop_last()) == spec_json_string(ds.drop_last()[0]));
        assert(ds.drop_last()[0] == ds[0]);
        assert(ds.skip(1).len() == 1);
        assert(spec_json_strings_inner(ds.skip(1)) == spec_json_string(ds.skip(1)[0]));
        assert(ds.skip(1)[0] == ds[1]);
        assert(ds.last() == ds[1]);
        assert(spec_json_strings_inner(ds) =~= spec_json_string(ds[0]) + seq![',']
            + spec_json_strings_inner(ds.skip(1)));
    } else {
        lemma_strings_inner_front(ds.drop_last());
        assert(ds.drop_last()[0] == ds[0]);
        assert(ds.drop_last().skip(1) =~= ds.skip(1).drop_last());
        assert(ds.skip(1).last() == ds.last());
        assert(ds.skip(1).len() > 1);
        assert(spec_json_strings_inner(ds) == (spec_json_string(ds[0]) + seq![',']
            + spec_json_strings_inner(ds.skip(1).drop_last())) + seq![','] + spec_json_string(
            ds.skip(1).last(),
        ));
        assert(spec_json_strings_inner(ds.skip(1)) == spec_json_strings_inner(
            ds.skip(1).drop_last(),
        ) + seq![','] + spec_json_string(ds.skip(1).last()));
        assert(spec_json_strings_inner(ds) =~= spec_json_string(ds[0]) + seq![',']
            + spec_json_strings_inner(ds.skip(1)));
    }
}

/// The parse of the items of a string array after the opening bracket:
/// strings separated by commas, ended by the closing bracket.
pub open spec fn spec_parse_strings_rest(s: Seq<char>, i: int) -> Option<(Seq<Seq<char>>, int)>
    decreases s.len() - i,
{
    match spec_parse_string(s, i) {
        None => None,
        Some((v, j)) => {
            if !(i < j && j <= s.len()) {
                None
            } else if j < s.len() && s[j] == ',' {
                match spec_parse_strings_rest(s, j + 1) {
                    Some((ds, k)) => Some((seq![v] + ds, k)),
                    None => None,
                }
            } else if j < s.len() && s[j] == ']' {
                Some((seq![v], j + 1))
            } else {
                None
            }
        },
    }
}

/// A string array parse: bracket, items, bracket.
pub open spec fn spec_parse_strings(s: Seq<char>, i: int) -> Option<(Seq<Seq<char>>, int)> {
    if !(0 <= i && i < s.len() && s[i] == '[') {
        None
    } else if i + 1 < s.len() && s[i + 1] == ']' {
        Some((Seq::<Seq<char>>::empty(), i + 2))
    } else {
        spec_parse_strings_rest(s, i + 1)
    }
}

/// The serialized items of a non-empty string array, followed by the
/// closing bracket, parse back to exactly those items.
pub proof fn lemma_parse_strings_rest_inverts(s: Seq<char>, i: int, ds: Seq<Seq<char>>)
    requires
        ds.len() > 0,
        0 <= i,
        i + spec_json_strings_inner(ds).len() + 1 <= s.len(),
        s.subrange(i, i + spec_json_strings_inner(ds).len() as int) == spec_json_strings_inner(ds),
        s[i + spec_json_strings_inner(ds).len() as int] == ']',
    ensures
        spec_parse_strings_rest(s, i) == Some((ds, i + spec_json_strings_inner(ds).len() + 1)),
    decreases ds.len(),
{
    lemma_strings_inner_front(ds);
    let inner = spec_json_strings_inner(ds);
    let win = s.subrange(i, i + inner.len() as int);
    assert(win == inner);
    let v = ds[0];
    let js = spec_json_string(v);
    assert(js.len() >= 2);
    if ds.len() == 1 {
        assert(inner == js);
        lemma_parse_string_inverts(s, i, v);
        let j = i + js.len();
        assert(s[j] == ']');
        assert(seq![v] =~= ds);
    } else {
        let rest_inner = spec_json_strings_inner(ds.skip(1));
        assert(inner == js + seq![','] + rest_inner);
        assert(s.subrange(i, i + js.len() as int) =~= js) by {
            assert forall|t: int| 0 <= t < js.len() implies s.subrange(
                i,
                i + js.len() as int,
            )[t] == js[t] by {
                assert(s.subrange(i, i + js.len() as int)[t] == s[i + t]);
                assert(s[i + t] == win[t]);
                assert(win[t] == (js + seq![','])[t]);
            }
        }
        lemma_parse_string_inverts(s, i, v);
        let j = i + js.len();
        assert(s[i + js.len() as int] == win[js.len() as int]);
        assert(win[js.len() as int] == ',');
        assert(s[j] == ',');
        assert(s.subrange(j + 1, j + 1 + rest_inner.len() as int) =~= rest_inner) by {
            assert forall|t: int| 0 <= t < rest_inner.len() implies s.subrange(
                j + 1,
                j + 1 + rest_inner.len() as int,
            )[t] == rest_inner[t] by {
                assert(s.subrange(j + 1, j + 1 + rest_inner.len() as int)[t] == s[j + 1 + t]);
                assert(s[i + (js.len() + 1 + t)] == win[js.len() + 1 + t]);
                assert(win[js.len() + 1 + t] == rest_inner[t]);
            }
        }
        assert((j + 1) + rest_inner.len() == i + inner.len());
        assert(s[(j + 1) + rest_inner.len() as int] == ']');
        lemma_parse_strings_rest_inverts(s, j + 1, ds.skip(1));
        assert(seq![v] + ds.skip(1) =~= ds);
    }
}

/// A serialized string array parses back to exactly its items.
pub proof fn lemma_parse_strings_inverts(s: Seq<char>, i: int, ds: Seq<Seq<char>>)
    requires
        0 <= i,
        i + spec_json_strings(ds).len() <= s.len(),
        s.subrange(i, i + spec_json_strings(ds).len() as int) == spec_json_strings(ds),
    ensures
        spec_parse_strings(s, i) == Some((ds, i + spec_json_strings(ds).len())),
{
    let whole = spec_json_strings(ds);
    let inner = spec_json_strings_inner(ds);
    let win = s.subrange(i, i + whole.len() as int);
    assert(win == whole);
    assert(s[i + 0] == win[0]);
    assert(win[0] == '[');
    assert(s[i] == '[');
    if ds.len() == 0 {
        assert(inner.len() == 0);
        assert(s[i + 1] == win[1]);
        assert(win[1] == ']');
        assert(Seq::<Seq<char>>::empty() =~= ds);
    } else {
        lemma_strings_inner_front(ds);
        assert(inner.len() >= 2) by {
            assert(spec_json_string(ds[0]).len() >= 2);
        }
        assert(s[i + 1] == win[1]);
        assert(win[1] == inner[0]);
        assert(inner[0] == '"') by {
            if ds.len() == 1 {
            } else {
                assert(inner == spec_json_string(ds[0]) + seq![','] + spec_json_strings_inner(
                    ds.skip(1),
                ));
            }
        }
        assert(s[i + 1] != ']');
        assert(s.subrange(i + 1, i + 1 + inner.len() as int) =~= inner) by {
            assert forall|t: int| 0 <= t < inner.len() implies s.subrange(
                i + 1,
                i + 1 + inner.len() as int,
            )[t] == inner[t] by {
                assert(s.subrange(i + 1, i + 1 + inner.len() as int)[t] == s[i + 1 + t]);
                assert(s[i + (1 + t)] == win[1 + t]);
                assert(win[1 + t] == inner[t]);
            }
        }
        assert(s[(i + 1) + inner.len() as int] == win[1 + inner.len() as int]);
        assert(win[1 + inner.len() as int] == ']');
        lemma_parse_strings_rest_inverts(s, i + 1, ds);
    }
}

/// Splitting a window that holds a concatenation into its two parts.
proof fn lemma_split_window(s: Seq<char>, i: int, a: Seq<char>, b: Seq<char>)
    requires
        0 <= i,
        i + a.len() + b.len() <= s.len(),
        s.subrange(i, i + a.len() + b.len() as int) == a + b,
    ensures
        s.subrange(i, i + a.len() as int) == a,
        s.subrange(i + a.len(), i + a.len() + b.len() as int) == b,
{
    let w = s.subrange(i, i + a.len() + b.len() as int);
    assert(s.subrange(i, i + a.len() as int) =~= a) by {
        assert forall|t: int| 0 <= t < a.len() implies s.subrange(i, i + a.len() as int)[t] == a[
            t
        ] by {
            assert(s.subrange(i, i + a.len() as int)[t] == s[i + t]);
            assert(s[i + t] == w[t]);
            assert(w[t] == (a + b)[t]);
        }
    }
    assert(s.subrange(i + a.len(), i + a.len() + b.len() as int) =~= b) by {
        assert forall|t: int| 0 <= t < b.len() implies s.subrange(
            i + a.len(),
            i + a.len() + b.len() as int,
        )[t] == b[t] by {
            assert(s.subrange(i + a.len(), i + a.len() + b.len() as int)[t] == s[i + a.len() + t]);
            assert(s[i + (a.len() + t)] == w[a.len() + t]);
            assert(w[a.len() + t] == (a + b)[a.len() + t]);
        }
    }
}

/// The serialized form of one alarm record: a JSON object with the
/// fixed members in a fixed order.
#[verifier::opaque]
pub open spec fn spec_json_record(rv: AlarmRecordView) -> Seq<char> {
    let t23 = spec_json_string(spec_statistic_name(rv.statistic)) + "}"@;
    let t22 = ",\"statistic\":"@ + t23;
    let t21 = spec_json_string(rv.treat_missing_data) + t22;
    let t20 = ",\"treat_missing_data\":"@ + t21;
    let t19 = spec_json_string(spec_operator_name(rv.comparison_operator)) + t20;
    let t18 = ",\"comparison_operator\":"@ + t19;
    let t17 = rv.threshold + t18;
    let t16 = ",\"threshold\":"@ + t17;
    let t15 = spec_int_dec(rv.period) + t16;
    let t14 = ",\"period\":"@ + t15;
    let t13 = spec_json_bool(rv.actions_enabled) + t14;
    let t12 = ",\"actions_enabled\":"@ + t13;
    let t11 = spec_json_strings(rv.dimensions) + t12;
    let t10 = ",\"dimensions\":"@ + t11;
    let t9 = spec_json_string(rv.alarm_description) + t10;
    let t8 = ",\"alarm_description\":"@ + t9;
    let t7 = spec_json_string(rv.alarm_arn) + t8;
    let t6 = ",\"alarm_arn\":"@ + t7;
    let t5 = spec_json_string(rv.alarm_name) + t6;
    let t4 = ",\"alarm_name\":"@ + t5;
    let t3 = spec_json_string(rv.program_name) + t4;
    "{\"program_name\":"@ + t3
}

/// Skipping a fixed literal during a parse.
pub open spec fn spec_skip_lit(s: Seq<char>, i: int, lit: Seq<char>) -> Option<int> {
    if spec_lit_at(s, i, lit) {
        Some(i + lit.len() as int)
    } else {
        None
    }
}

/// The first members of a record parse: opening brace, program name,
/// alarm name, alarm ARN.
pub open spec fn spec_parse_record_q1(s: Seq<char>, i: int) -> Option<
    ((Seq<char>, Seq<char>, Seq<char>), int),
> {
    match spec_skip_lit(s, i, "{\"program_name\":"@) {
        None => None,
        Some(p1) => match spec_parse_string(s, p1) {
            None => None,
            Some((pn, p2)) => match spec_skip_lit(s, p2, ",\"alarm_name\":"@) {
                None => None,
                Some(p3) => match spec_parse_string(s, p3) {
                    None => None,
                    Some((an, p4)) => match spec_skip_lit(s, p4, ",\"alarm_arn\":"@) {
                        None => None,
                        Some(p5) => match spec_parse_string(s, p5) {
                            None => None,
                            Some((arn, p6)) => Some(((pn, an, arn), p6)),
                        },
                    },
                },
            },
        },
    }
}

/// The next members: description, dimensions, actions-enabled.
pub open spec fn spec_parse_record_q2(s: Seq<char>, i: int) -> Option<
    ((Seq<char>, Seq<Seq<char>>, bool), int),
> {
    match spec_skip_lit(s, i, ",\"alarm_description\":"@) {
        None => None,
        Some(p7) => match spec_parse_string(s, p7) {
            None => None,
            Some((desc, p8)) => match spec_skip_lit(s, p8, ",\"dimensions\":"@) {
                None => None,
                Some(p9) => match spec_parse_strings(s, p9) {
                    None => None,
                    Some((dims, p10)) => match spec_skip_lit(s, p10, ",\"actions_enabled\":"@) {
                        None => None,
                        Some(p11) => match spec_parse_bool(s, p11) {
                            None => None,
                            Some((ae, p12)) => Some(((desc, dims, ae), p12)),
                        },
                    },
                },
            },
        },
    }
}

/// The next members: period, threshold, comparison operator name.
pub open spec fn spec_parse_record_q3(s: Seq<char>, i: int) -> Option<
    ((int, Seq<char>, Seq<char>), int),
> {
    match spec_skip_lit(s, i, ",\"period\":"@) {
        None => None,
        Some(p13) => match spec_parse_i32(s, p13) {
            None => None,
            Some((period, p14)) => match spec_skip_lit(s, p14, ",\"threshold\":"@) {
                None => None,
                Some(p15) => match spec_parse_number(s, p15) {
                    None => None,
                    Some((thr, p16)) => match spec_skip_lit(s, p16, ",\"comparison_operator\":"@) {
                        None => None,
                        Some(p17) => match spec_parse_string(s, p17) {
                            None => None,
                            Some((opn, p18)) => Some(((period, thr, opn), p18)),
                        },
                    },
                },
            },
        },
    }
}

/// The last members: treat-missing-data, statistic name, closing brace.
pub open spec fn spec_parse_record_q4(s: Seq<char>, i: int) -> Option<((Seq<char>, Seq<char>), int)> {
    match spec_skip_lit(s, i, ",\"treat_missing_data\":"@) {
        None => None,
        Some(p19) => match spec_parse_string(s, p19) {
            None => None,
            Some((tmd, p20)) => match spec_skip_lit(s, p20, ",\"statistic\":"@) {
                None => None,
                Some(p21) => match spec_parse_string(s, p21) {
                    None => None,
                    Some((stn, p22)) => match spec_skip_lit(s, p22, "}"@) {
                        None => None,
                        Some(p23) => Some(((tmd, stn), p23)),
                    },
                },
            },
        },
    }
}

/// A record parse: the fixed members in their fixed order.
#[verifier::opaque]
pub open spec fn spec_parse_record(s: Seq<char>, i: int) -> Option<(AlarmRecordView, int)> {
    match spec_parse_record_q1(s, i) {
        None => None,
        Some(((pn, an, arn), j1)) => match spec_parse_record_q2(s, j1) {
            None => None,
            Some(((desc, dims, ae), j2)) => match spec_parse_record_q3(s, j2) {
                None => None,
                Some(((period, thr, opn), j3)) => match spec_parse_record_q4(s, j3) {
                    None => None,
                    Some(((tmd, stn), j4)) => Some(
                        (
                            AlarmRecordView {
                                program_name: pn,
                                alarm_name: an,
                                alarm_arn: arn,
                                alarm_description: desc,
                                dimensions: dims,
                                actions_enabled: ae,
                                period: period,
                                threshold: thr,
                                comparison_operator: spec_operator_from_name(opn),
                                treat_missing_data: tmd,
                                statistic: spec_statistic_from_name(stn),
                            },
                            j4,
                        ),
                    ),
                },
            },
        },
    }
}

/// A serialized well-formed record parses back to exactly its view.
#[verifier::rlimit(100)]
pub proof fn lemma_parse_record_inverts(s: Seq<char>, i: int, rv: AlarmRecordView)
    requires
        0 <= i,
        spec_wf_record(rv),
        i + spec_json_record(rv).len() <= s.len(),
        s.subrange(i, i + spec_json_record(rv).len() as int) == spec_json_record(rv),
    ensures
        spec_parse_record(s, i) == Some((rv, i + spec_json_record(rv).len())),
{
    reveal(spec_json_record);
    reveal(spec_parse_record);
    let whole = spec_json_record(rv);
    let a1 = "{\"program_name\":"@;
    let b1 = spec_json_string(rv.program_name);
    let a2 = ",\"alarm_name\":"@;
    let b2 = spec_json_string(rv.alarm_name);
    let a3 = ",\"alarm_arn\":"@;
    let b3 = spec_json_string(rv.alarm_arn);
    let a4 = ",\"alarm_description\":"@;
    let b4 = spec_json_string(rv.alarm_description);
    let a5 = ",\"dimensions\":"@;
    let b5 = spec_json_strings(rv.dimensions);
    let a6 = ",\"actions_enabled\":"@;
    let b6 = spec_json_bool(rv.actions_enabled);
    let a7 = ",\"period\":"@;
    let b7 = spec_int_dec(rv.period);
    let a8 = ",\"threshold\":"@;
    let b8 = rv.threshold;
    let a9 = ",\"comparison_operator\":"@;
    let b9 = spec_json_string(spec_operator_name(rv.comparison_operator));
    let a10 = ",\"treat_missing_data\":"@;
    let b10 = spec_json_string(rv.treat_missing_data);
    let a11 = ",\"statistic\":"@;
    let b11 = spec_json_string(spec_statistic_name(rv.statistic));
    let a12 = "}"@;
    let t23 = b11 + a12;
    let t22 = a11 + t23;
    let t21 = b10 + t22;
    let t20 = a10 + t21;
    let t19 = b9 + t20;
    let t18 = a9 + t19;
    let t17 = b8 + t18;
    let t16 = a8 + t17;
    let t15 = b7 + t16;
    let t14 = a7 + t15;
    let t13 = b6 + t14;
    let t12 = a6 + t13;
    let t11 = b5 + t12;
    let t10 = a5 + t11;
    let t9 = b4 + t10;
    let t8 = a4 + t9;
    let t7 = b3 + t8;
    let t6 = a3 + t7;
    let t5 = b2 + t6;
    let t4 = a2 + t5;
    let t3 = b1 + t4;
    assert(whole == a1 + t3);
    let end = i + whole.len();
    lemma_split_window(s, i, a1, t3);
    let p1 = i + a1.len() as int;
    assert(spec_skip_lit(s, i, a1) == Some(p1));
    lemma_split_window(s, p1, b1, t4);
    lemma_parse_string_inverts(s, p1, rv.program_name);
    let p2 = p1 + b1.len() as int;
    lemma_split_window(s, p2, a2, t5);
    let p3 = p2 + a2.len() as int;
    assert(spec_skip_lit(s, p2, a2) == Some(p3));
    lemma_split_window(s, p3, b2, t6);
    lemma_parse_string_inverts(s, p3, rv.alarm_name);
    let p4 = p3 + b2.len() as int;
    lemma_split_window(s, p4, a3, t7);
    let p5 = p4 + a3.len() as int;
    assert(spec_skip_lit(s, p4, a3) == Some(p5));
    lemma_split_window(s, p5, b3, t8);
    lemma_parse_string_inverts(s, p5, rv.alarm_arn);
    let p6 = p5 + b3.len() as int;
    lemma_split_window(s, p6, a4, t9);
    let p7 = p6 + a4.len() as int;
    assert(spec_skip_lit(s, p6, a4) == Some(p7));
    lemma_split_window(s, p7, b4, t10);
    lemma_parse_string_inverts(s, p7, rv.alarm_description);
    let p8 = p7 + b4.len() as int;
    lemma_split_window(s, p8, a5, t11);
    let p9 = p8 + a5.len() as int;
    assert(spec_skip_lit(s, p8, a5) == Some(p9));
    lemma_split_window(s, p9, b5, t12);
    lemma_parse_strings_inverts(s, p9, rv.dimensions);
    let p10 = p9 + b5.len() as int;
    lemma_split_window(s, p10, a6, t13);
    let p11 = p10 + a6.len() as int;
    assert(spec_skip_lit(s, p10, a6) == Some(p11));
    lemma_split_window(s, p11, b6, t14);
    lemma_parse_bool_inverts(s, p11, rv.actions_enabled);
    let p12 = p11 + b6.len() as int;
    lemma_split_window(s, p12, a7, t15);
    let p13 = p12 + a7.len() as int;
    assert(spec_skip_lit(s, p12, a7) == Some(p13));
    lemma_split_window(s, p13, b7, t16);
    let p14 = p13 + b7.len() as int;
    reveal_strlit(",\"threshold\":");
    assert(s.subrange(p14, p14 + a8.len() as int)[0] == s[p14 + 0]);
    assert(a8[0] == ',');
    assert(s[p14] == ',');
    assert(!crate::numbers::spec_is_digit(s[p14])) by {
        assert(',' as u32 == 44);
    }
    lemma_parse_i32_inverts(s, p13, rv.period);
    lemma_split_window(s, p14, a8, t17);
    let p15 = p14 + a8.len() as int;
    assert(spec_skip_lit(s, p14, a8) == Some(p15));
    lemma_split_window(s, p15, b8, t18);
    let p16 = p15 + b8.len() as int;
    reveal_strlit(",\"comparison_operator\":");
    assert(s.subrange(p16, p16 + a9.len() as int)[0] == s[p16 + 0]);
    assert(a9[0] == ',');
    assert(s[p16] == ',');
    assert(!spec_is_number_char(s[p16])) by {
        assert(',' as u32 == 44);
    }
    lemma_parse_number_inverts(s, p15, rv.threshold);
    lemma_split_window(s, p16, a9, t19);
    let p17 = p16 + a9.len() as int;
    assert(spec_skip_lit(s, p16, a9) == Some(p17));
    lemma_split_window(s, p17, b9, t20);
    lemma_parse_string_inverts(s, p17, spec_operator_name(rv.comparison_operator));
    let p18 = p17 + b9.len() as int;
    lemma_split_window(s, p18, a10, t21);
    let p19 = p18 + a10.len() as int;
    assert(spec_skip_lit(s, p18, a10) == Some(p19));
    lemma_split_window(s, p19, b10, t22);
    lemma_parse_string_inverts(s, p19, rv.treat_missing_data);
    let p20 = p19 + b10.len() as int;
    lemma_split_window(s, p20, a11, t23);
    let p21 = p20 + a11.len() as int;
    assert(spec_skip_lit(s, p20, a11) == Some(p21));
    lemma_split_window(s, p21, b11, a12);
    lemma_parse_string_inverts(s, p21, spec_statistic_name(rv.statistic));
    let p22 = p21 + b11.len() as int;
    assert(spec_skip_lit(s, p22, a12) == Some(p22 + a12.len() as int));
    let p23 = p22 + a12.len() as int;
    assert(p23 == end);
    lemma_operator_name_round_trip(rv.comparison_operator);
    lemma_statistic_name_round_trip(rv.statistic);
    assert(spec_parse_record_q1(s, i) == Some(
        ((rv.program_name, rv.alarm_name, rv.alarm_arn), p6),
    ));
    assert(spec_parse_record_q2(s, p6) == Some(
        ((rv.alarm_description, rv.dimensions, rv.actions_enabled), p12),
    ));
    assert(spec_parse_record_q3(s, p12) == Some(
        ((rv.period, rv.threshold, spec_operator_name(rv.comparison_operator)), p18),
    ));
    assert(spec_parse_record_q4(s, p18) == Some(
        ((rv.treat_missing_data, spec_statistic_name(rv.statistic)), p23),
    ));
    assert(spec_parse_record(s, i) == Some((rv, end)));
}

/// A serialized record is never empty and starts with the opening
/// brace.
pub proof fn lemma_json_record_head(rv: AlarmRecordView)
    ensures
        spec_json_record(rv).len() >= 1,
        spec_json_record(rv)[0] == '{',
{
    reveal(spec_json_record);
    reveal_strlit("{\"program_name\":");
    assert("{\"program_name\":"@.len() == 16);
    assert("{\"program_name\":"@[0] == '{');
    assert(spec_json_record(rv)[0] == '{');
}

/// The body of the persisted report array, commas between the records.
pub open spec fn spec_json_records_inner(rvs: Seq<AlarmRecordView>) -> Seq<char>
    decreases rvs.len(),
{
    if rvs.len() == 0 {
        Seq::<char>::empty()
    } else if rvs.len() == 1 {
        spec_json_record(rvs[0])
    } else {
        spec_json_records_inner(rvs.drop_last()) + seq![','] + spec_json_record(rvs.last())
    }
}

/// The persisted report: a JSON array of the records in order.
pub open spec fn spec_json_records(rvs: Seq<AlarmRecordView>) -> Seq<char> {
    seq!['['] + spec_json_records_inner(rvs) + seq![']']
}

/// Unfolding the report body from the front, as the parser consumes
/// it.
pub proof fn lemma_records_inner_front(rvs: Seq<AlarmRecordView>)
    requires
        rvs.len() > 0,
    ensures
        rvs.len() == 1 ==> spec_json_records_inner(rvs) == spec_json_record(rvs[0]),
        rvs.len() > 1 ==> spec_json_records_inner(rvs) == spec_json_record(rvs[0]) + seq![',']
            + spec_json_records_inner(rvs.skip(1)),
    decreases rvs.len(),
{
    if rvs.len() <= 1 {
    } else if rvs.len() == 2 {
        assert(spec_json_records_inner(rvs) == spec_json_records_inner(rvs.drop_last()) + seq![',']
            + spec_json_record(rvs.last()));
        assert(rvs.drop_last().len() == 1);
        assert(spec_json_records_inner(rvs.drop_last()) == spec_json_record(rvs.drop_last()[0]));
        assert(rvs.drop_last()[0] == rvs[0]);
        assert(rvs.skip(1).len() == 1);
        assert(spec_json_records_inner(rvs.skip(1)) == spec_json_record(rvs.skip(1)[0]));
        assert(rvs.skip(1)[0] == rvs[1]);
        assert(rvs.last() == rvs[1]);
        assert(spec_json_records_inner(rvs) =~= spec_json_record(rvs[0]) + seq![',']
            + spec_json_records_inner(rvs.skip(1)));
    } else {
        lemma_records_inner_front(rvs.drop_last());
        assert(rvs.drop_last()[0] == rvs[0]);
        assert(rvs.drop_last().skip(1) =~= rvs.skip(1).drop_last());
        assert(rvs.skip(1).last() == rvs.last());
        assert(rvs.skip(1).len() > 1);
        assert(spec_json_records_inner(rvs) == (spec_json_record(rvs[0]) + seq![',']
            + spec_json_records_inner(rvs.skip(1).drop_last())) + seq![','] + spec_json_record(
            rvs.skip(1).last(),
        ));
        assert(spec_json_records_inner(rvs.skip(1)) == spec_json_records_inner(
            rvs.skip(1).drop_last(),
        ) + seq![','] + spec_json_record(rvs.skip(1).last()));
        assert(spec_json_records_inner(rvs) =~= spec_json_record(rvs[0]) + seq![',']
            + spec_json_records_inner(rvs.skip(1)));
    }
}

/// The parse of the items of the report array after the opening
/// bracket.
pub open spec fn spec_parse_records_rest(s: Seq<char>, i: int) -> Option<
    (Seq<AlarmRecordView>, int),
>
    decreases s.len() - i,
{
    match spec_parse_record(s, i) {
        None => None,
        Some((v, j)) => {
            if !(i < j && j <= s.len()) {
                None
            } else if j < s.len() && s[j] == ',' {
                match spec_parse_records_rest(s, j + 1) {
                    Some((rs, k)) => Some((seq![v] + rs, k)),
                    None => None,
                }
            } else if j < s.len() && s[j] == ']' {
                Some((seq![v], j + 1))
            } else {
                None
            }
        },
    }
}

/// The report array parse: bracket, records, bracket.
pub open spec fn spec_parse_records(s: Seq<char>, i: int) -> Option<(Seq<AlarmRecordView>, int)> {
    if !(0 <= i && i < s.len() && s[i] == '[') {
        None
    } else if i + 1 < s.len() && s[i + 1] == ']' {
        Some((Seq::<AlarmRecordView>::empty(), i + 2))
    } else {
        spec_parse_records_rest(s, i + 1)
    }
}

/// The whole-report parse: the array must span the whole text.
pub open spec fn spec_parse_report(s: Seq<char>) -> Option<Seq<AlarmRecordView>> {
    match spec_parse_records(s, 0) {
        Some((rvs, j)) => if j == s.len() {
            Some(rvs)
        } else {
            None
        },
        None => None,
    }
}

/// All records of a report are well formed.
pub open spec fn spec_wf_records(rvs: Seq<AlarmRecordView>) -> bool {
    forall|k: int| 0 <= k < rvs.len() ==> spec_wf_record(#[trigger] rvs[k])
}

/// The serialized items of a non-empty report, followed by the closing
/// bracket, parse back to exactly those records.
pub proof fn lemma_parse_records_rest_inverts(s: Seq<char>, i: int, rvs: Seq<AlarmRecordView>)
    requires
        rvs.len() > 0,
        spec_wf_records(rvs),
        0 <= i,
        i + spec_json_records_inner(rvs).len() + 1 <= s.len(),
        s.subrange(i, i + spec_json_records_inner(rvs).len() as int) == spec_json_records_inner(
            rvs,
        ),
        s[i + spec_json_records_inner(rvs).len() as int] == ']',
    ensures
        spec_parse_records_rest(s, i) == Some((rvs, i + spec_json_records_inner(rvs).len() + 1)),
    decreases rvs.len(),
{
    lemma_records_inner_front(rvs);
    let inner = spec_json_records_inner(rvs);
    let win = s.subrange(i, i + inner.len() as int);
    assert(win == inner);
    let v = rvs[0];
    let jr = spec_json_record(v);
    lemma_json_record_head(v);
    assert(spec_wf_record(v));
    if rvs.len() == 1 {
        assert(inner == jr);
        lemma_parse_record_inverts(s, i, v);
        let j = i + jr.len();
        assert(s[j] == ']');
        assert(seq![v] =~= rvs);
    } else {
        let rest_inner = spec_json_records_inner(rvs.skip(1));
        assert(inner == jr + seq![','] + rest_inner);
        assert(s.subrange(i, i + jr.len() as int) =~= jr) by {
            assert forall|t: int| 0 <= t < jr.len() implies s.subrange(
                i,
                i + jr.len() as int,
            )[t] == jr[t] by {
                assert(s.subrange(i, i + jr.len() as int)[t] == s[i + t]);
                assert(s[i + t] == win[t]);
                assert(win[t] == (jr + seq![','])[t]);
            }
        }
        lemma_parse_record_inverts(s, i, v);
        let j = i + jr.len();
        assert(s[i + jr.len() as int] == win[jr.len() as int]);
        assert(win[jr.len() as int] == ',');
        assert(s[j] == ',');
        assert(s.subrange(j + 1, j + 1 + rest_inner.len() as int) =~= rest_inner) by {
            assert forall|t: int| 0 <= t < rest_inner.len() implies s.subrange(
                j + 1,
                j + 1 + rest_inner.len() as int,
            )[t] == rest_inner[t] by {
                assert(s.subrange(j + 1, j + 1 + rest_inner.len() as int)[t] == s[j + 1 + t]);
                assert(s[i + (jr.len() + 1 + t)] == win[jr.len() + 1 + t]);
                assert(win[jr.len() + 1 + t] == rest_inner[t]);
            }
        }
        assert((j + 1) + rest_inner.len() == i + inner.len());
        assert(s[(j + 1) + rest_inner.len() as int] == ']');
        assert(spec_wf_records(rvs.skip(1))) by {
            assert(forall|k: int|
                0 <= k < rvs.skip(1).len() ==> rvs.skip(1)[k] == rvs[k + 1]);
        }
        lemma_parse_records_rest_inverts(s, j + 1, rvs.skip(1));
        assert(seq![v] + rvs.skip(1) =~= rvs);
    }
}

/// A serialized report parses back to exactly its records.
pub proof fn lemma_parse_records_inverts(s: Seq<char>, i: int, rvs: Seq<AlarmRecordView>)
    requires
        0 <= i,
        spec_wf_records(rvs),
        i + spec_json_records(rvs).len() <= s.len(),
        s.subrange(i, i + spec_json_records(rvs).len() as int) == spec_json_records(rvs),
    ensures
        spec_parse_records(s, i) == Some((rvs, i + spec_json_records(rvs).len())),
{
    let whole = spec_json_records(rvs);
    let inner = spec_json_records_inner(rvs);
    let win = s.subrange(i, i + whole.len() as int);
    assert(win == whole);
    assert(s[i + 0] == win[0]);
    assert(win[0] == '[');
    assert(s[i] == '[');
    if rvs.len() == 0 {
        assert(inner.len() == 0);
        assert(s[i + 1] == win[1]);
        assert(win[1] == ']');
        assert(Seq::<AlarmRecordView>::empty() =~= rvs);
    } else {
        lemma_records_inner_front(rvs);
        lemma_json_record_head(rvs[0]);
        assert(inner[0] == '{') by {
            if rvs.len() == 1 {
            } else {
                assert(inner == spec_json_record(rvs[0]) + seq![','] + spec_json_records_inner(
                    rvs.skip(1),
                ));
            }
        }
        assert(s[i + 1] == win[1]);
        assert(win[1] == inner[0]);
        assert(s[i + 1] != ']');
        assert(s.subrange(i + 1, i + 1 + inner.len() as int) =~= inner) by {
            assert forall|t: int| 0 <= t < inner.len() implies s.subrange(
                i + 1,
                i + 1 + inner.len() as int,
            )[t] == inner[t] by {
                assert(s.subrange(i + 1, i + 1 + inner.len() as int)[t] == s[i + 1 + t]);
                assert(s[i + (1 + t)] == win[1 + t]);
                assert(win[1 + t] == inner[t]);
            }
        }
        assert(s[(i + 1) + inner.len() as int] == win[1 + inner.len() as int]);
        assert(win[1 + inner.len() as int] == ']');
        lemma_parse_records_rest_inverts(s, i + 1, rvs);
    }
}

/// The round trip of the persisted report: any sequence of well-formed
/// alarm records, serialized to the report text and parsed back,
/// yields exactly the same sequence.
pub proof fn lemma_report_round_trip(rvs: Seq<AlarmRecordView>)
    requires
        spec_wf_records(rvs),
    ensures
        spec_parse_report(spec_json_records(rvs)) == Some(rvs),
{
    let s = spec_json_records(rvs);
    assert(s.subrange(0, s.len() as int) =~= s);
    lemma_parse_records_inverts(s, 0, rvs);
}

/// The views of a sequence of records.
pub open spec fn spec_record_views(rs: Seq<AlarmRecord>) -> Seq<AlarmRecordView> {
    rs.map_values(|x: AlarmRecord| x@)
}

/// Appends the JSON array of the dimension strings to `out`.
fn append_json_strings(out: &mut String, ds: &Vec<String>)
    ensures
        final(out)@ == old(out)@ + spec_json_strings(spec_string_views(ds@)),
{
    let ghost base: Seq<char> = out@;
    push_char(out, '[');
    let n = ds.len();
    let mut k: usize = 0;
    proof {
        assert(spec_string_views(ds@.take(0)) =~= Seq::<Seq<char>>::empty());
        assert(out@ =~= base + seq!['['] + spec_json_strings_inner(spec_string_views(ds@.take(0))));
    }
    while k < n
        invariant
            n == ds@.len(),
            k <= n,
            out@ == base + seq!['['] + spec_json_strings_inner(spec_string_views(ds@.take(k as int))),
        decreases n - k,
    {
        if k > 0 {
            push_char(out, ',');
        }
        append_json_string(out, ds[k].as_str());
        proof {
            let prev = spec_string_views(ds@.take(k as int));
            let next = spec_string_views(ds@.take(k + 1));
            assert(next =~= prev.push(ds@[k as int]@));
            assert(next.drop_last() =~= prev);
            assert(next.last() == ds@[k as int]@);
            if k == 0 {
                assert(next.len() == 1);
                assert(spec_json_strings_inner(next) == spec_json_string(next[0]));
                assert(next[0] == ds@[0]@);
                assert(out@ =~= base + seq!['['] + spec_json_strings_inner(next));
            } else {
                assert(next.len() >= 2);
                assert(spec_json_strings_inner(next) == spec_json_strings_inner(prev) + seq![',']
                    + spec_json_string(ds@[k as int]@));
                assert(out@ =~= base + seq!['['] + spec_json_strings_inner(next));
            }
        }
        k += 1;
    }
    push_char(out, ']');
    proof {
        assert(ds@.take(n as int) =~= ds@);
        assert(out@ =~= base + spec_json_strings(spec_string_views(ds@)));
    }
}

/// Appends the serialized record to `out`.
#[verifier::spinoff_prover]
#[verifier::rlimit(100)]
fn append_record(out: &mut String, r: &AlarmRecord)
    ensures
        final(out)@ == old(out)@ + spec_json_record(r@),
{
    let ghost base: Seq<char> = out@;
    out.append("{\"program_name\":");
    append_json_string(out, r.program_name.as_str());
    out.append(",\"alarm_name\":");
    append_json_string(out, r.alarm_name.as_str());
    out.append(",\"alarm_arn\":");
    append_json_string(out, r.alarm_arn.as_str());
    out.append(",\"alarm_description\":");
    append_json_string(out, r.alarm_description.as_str());
    out.append(",\"dimensions\":");
    append_json_strings(out, &r.dimensions);
    out.append(",\"actions_enabled\":");
    if r.actions_enabled {
        out.append("true");
    } else {
        out.append("false");
    }
    out.append(",\"period\":");
    let p = i32_to_dec(r.period);
    out.append(p.as_str());
    out.append(",\"threshold\":");
    out.append(r.threshold.as_str());
    out.append(",\"comparison_operator\":");
    append_json_string(out, operator_name(r.comparison_operator));
    out.append(",\"treat_missing_data\":");
    append_json_string(out, r.treat_missing_data.as_str());
    out.append(",\"statistic\":");
    append_json_string(out, statistic_name(r.statistic));
    out.append("}");
    proof {
        reveal(spec_json_record);
        let rv = r@;
        let t23 = spec_json_string(spec_statistic_name(rv.statistic)) + "}"@;
        let t22 = ",\"statistic\":"@ + t23;
        let t21 = spec_json_string(rv.treat_missing_data) + t22;
        let t20 = ",\"treat_missing_data\":"@ + t21;
        let t19 = spec_json_string(spec_operator_name(rv.comparison_operator)) + t20;
        let t18 = ",\"comparison_operator\":"@ + t19;
        let t17 = rv.threshold + t18;
        let t16 = ",\"threshold\":"@ + t17;
        let t15 = spec_int_dec(rv.period) + t16;
        let t14 = ",\"period\":"@ + t15;
        let t13 = spec_json_bool(rv.actions_enabled) + t14;
        let t12 = ",\"actions_enabled\":"@ + t13;
        let t11 = spec_json_strings(rv.dimensions) + t12;
        let t10 = ",\"dimensions\":"@ + t11;
        let t9 = spec_json_string(rv.alarm_description) + t10;
        let t8 = ",\"alarm_description\":"@ + t9;
        let t7 = spec_json_string(rv.alarm_arn) + t8;
        let t6 = ",\"alarm_arn\":"@ + t7;
        let t5 = spec_json_string(rv.alarm_name) + t6;
        let t4 = ",\"alarm_name\":"@ + t5;
        let t3 = spec_json_string(rv.program_name) + t4;
        assert(spec_json_record(rv) == "{\"program_name\":"@ + t3);
        assert(out@ =~= base + ("{\"program_name\":"@ + t3));
    }
}

/// Serializes the collected alarm records to the persisted report
/// text.
pub fn alarms_to_json(records: &Vec<AlarmRecord>) -> (r: String)
    ensures
        r@ == spec_json_records(spec_record_views(records@)),
{
    let mut out = String::new();
    push_char(&mut out, '[');
    let n = records.len();
    let mut k: usize = 0;
    proof {
        assert(spec_record_views(records@.take(0)) =~= Seq::<AlarmRecordView>::empty());
        assert(out@ =~= seq!['['] + spec_json_records_inner(spec_record_views(records@.take(0))));
    }
    while k < n
        invariant
            n == records@.len(),
            k <= n,
            out@ == seq!['['] + spec_json_records_inner(spec_record_views(records@.take(k as int))),
        decreases n - k,
    {
        if k > 0 {
            push_char(&mut out, ',');
        }
        append_record(&mut out, &records[k]);
        proof {
            let prev = spec_record_views(records@.take(k as int));
            let next = spec_record_views(records@.take(k + 1));
            assert(next =~= prev.push(records@[k as int]@));
            assert(next.drop_last() =~= prev);
            assert(next.last() == records@[k as int]@);
            if k == 0 {
                assert(next.len() == 1);
                assert(spec_json_records_inner(next) == spec_json_record(next[0]));
                assert(next[0] == records@[0]@);
                assert(out@ =~= seq!['['] + spec_json_records_inner(next));
            } else {
                assert(next.len() >= 2);
                assert(spec_json_records_inner(next) == spec_json_records_inner(prev) + seq![',']
                    + spec_json_record(records@[k as int]@));
                assert(out@ =~= seq!['['] + spec_json_records_inner(next));
            }
        }
        k += 1;
    }
    push_char(&mut out, ']');
    proof {
        assert(records@.take(n as int) =~= records@);
        assert(out@ =~= spec_json_records(spec_record_views(records@)));
    }
    out
}

/// Parses a JSON array of strings at `i`.
pub fn parse_strings(s: &str, i: usize) -> (r: Option<(Vec<String>, usize)>)
    requires
        i <= s@.len(),
    ensures
        match r {
            Some(v) => spec_parse_strings(s@, i as int) == Some(
                (spec_string_views(v.0@), v.1 as int),
            ) && i < v.1 <= s@.len(),
            None => spec_parse_strings(s@, i as int) is None,
        },
{
    let slen = s.unicode_len();
    if i >= slen {
        return None;
    }
    if s.get_char(i) != '[' {
        return None;
    }
    if i + 1 < slen && s.get_char(i + 1) == ']' {
        let empty: Vec<String> = Vec::new();
        proof {
            assert(spec_string_views(empty@) =~= Seq::<Seq<char>>::empty());
        }
        return Some((empty, i + 2));
    }
    let mut cur: usize = i + 1;
    let mut acc: Vec<String> = Vec::new();
    loop
        invariant
            slen == s@.len(),
            i < slen,
            s@[i as int] == '[',
            !(i + 1 < slen && s@[i + 1] == ']'),
            i + 1 <= cur <= slen,
            spec_parse_strings_rest(s@, i + 1) == (match spec_parse_strings_rest(s@, cur as int) {
                Some((ds, k)) => Some((spec_string_views(acc@) + ds, k)),
                None => None::<(Seq<Seq<char>>, int)>,
            }),
        decreases slen - cur,
    {
        match parse_string(s, cur) {
            None => {
                return None;
            },
            Some((v, j)) => {
                if j < slen {
                    let c = s.get_char(j);
                    if c == ',' {
                        let ghost acc0: Seq<String> = acc@;
                        let ghost vv: Seq<char> = v@;
                        acc.push(v);
                        proof {
                            assert(spec_string_views(acc@) =~= spec_string_views(acc0).push(vv));
                            if spec_parse_strings_rest(s@, j + 1) is Some {
                                let (ds, k) = spec_parse_strings_rest(s@, j + 1).unwrap();
                                assert(spec_parse_strings_rest(s@, cur as int) == Some(
                                    (seq![vv] + ds, k),
                                ));
                                assert(spec_string_views(acc0) + (seq![vv] + ds)
                                    =~= spec_string_views(acc@) + ds);
                            } else {
                                assert(spec_parse_strings_rest(s@, cur as int) is None);
                            }
                        }
                        cur = j + 1;
                    } else if c == ']' {
                        let ghost acc0: Seq<String> = acc@;
                        let ghost vv: Seq<char> = v@;
                        acc.push(v);
                        proof {
                            assert(spec_string_views(acc@) =~= spec_string_views(acc0).push(vv));
                            assert(spec_parse_strings_rest(s@, cur as int) == Some(
                                (seq![vv], j + 1),
                            ));
                            assert(spec_string_views(acc0) + seq![vv] =~= spec_string_views(acc@));
                        }
                        return Some((acc, j + 1));
                    } else {
                        proof {
                            assert(spec_parse_strings_rest(s@, cur as int) is None);
                        }
                        return None;
                    }
                } else {
                    proof {
                        assert(spec_parse_strings_rest(s@, cur as int) is None);
                    }
                    return None;
                }
            },
        }
    }
}

/// Parses one serialized record at `i`.
#[verifier::rlimit(100)]
pub fn parse_record(s: &str, i: usize) -> (r: Option<(AlarmRecord, usize)>)
    requires
        i <= s@.len(),
    ensures
        match r {
            Some(v) => spec_parse_record(s@, i as int) == Some((v.0@, v.1 as int)) && i < v.1
                <= s@.len(),
            None => spec_parse_record(s@, i as int) is None,
        },
{
    proof {
        reveal(spec_parse_record);
    }
    let p1 = match expect_lit(s, i, "{\"program_name\":") {
        Some(j) => j,
        None => {
            return None;
        },
    };
    let (program_name, p2) = match parse_string(s, p1) {
        Some(v) => v,
        None => {
            return None;
        },
    };
    let p3 = match expect_lit(s, p2, ",\"alarm_name\":") {
        Some(j) => j,
        None => {
            return None;
        },
    };
    let (alarm_name, p4) = match parse_string(s, p3) {
        Some(v) => v,
        None => {
            return None;
        },
    };
    let p5 = match expect_lit(s, p4, ",\"alarm_arn\":") {
        Some(j) => j,
        None => {
            return None;
        },
    };
    let (alarm_arn, p6) = match parse_string(s, p5) {
        Some(v) => v,
        None => {
            return None;
        },
    };
    let p7 = match expect_lit(s, p6, ",\"alarm_description\":") {
        Some(j) => j,
        None => {
            return None;
        },
    };
    let (alarm_description, p8) = match parse_string(s, p7) {
        Some(v) => v,
        None => {
            return None;
        },
    };
    let p9 = match expect_lit(s, p8, ",\"dimensions\":") {
        Some(j) => j,
        None => {
            return None;
        },
    };
    let (dimensions, p10) = match parse_strings(s, p9) {
        Some(v) => v,
        None => {
            return None;
        },
    };
    let p11 = match expect_lit(s, p10, ",\"actions_enabled\":") {
        Some(j) => j,
        None => {
            return None;
        },
    };
    let (actions_enabled, p12) = match parse_bool(s, p11) {
        Some(v) => v,
        None => {
            return None;
        },
    };
    let p13 = match expect_lit(s, p12, ",\"period\":") {
        Some(j) => j,
        None => {
            return None;
        },
    };
    let (period, p14) = match parse_i32(s, p13) {
        Some(v) => v,
        None => {
            return None;
        },
    };
    let p15 = match expect_lit(s, p14, ",\"threshold\":") {
        Some(j) => j,
        None => {
            return None;
        },
    };
    let (threshold, p16) = match parse_numtok(s, p15) {
        Some(v) => v,
        None => {
            return None;
        },
    };
    let p17 = match expect_lit(s, p16, ",\"comparison_operator\":") {
        Some(j) => j,
        None => {
            return None;
        },
    };
    let (op_name, p18) = match parse_string(s, p17) {
        Some(v) => v,
        None => {
            return None;
        },
    };
    let p19 = match expect_lit(s, p18, ",\"treat_missing_data\":") {
        Some(j) => j,
        None => {
            return None;
        },
    };
    let (treat_missing_data, p20) = match parse_string(s, p19) {
        Some(v) => v,
        None => {
            return None;
        },
    };
    let p21 = match expect_lit(s, p20, ",\"statistic\":") {
        Some(j) => j,
        None => {
            return None;
        },
    };
    let (st_name, p22) = match parse_string(s, p21) {
        Some(v) => v,
        None => {
            return None;
        },
    };
    let p23 = match expect_lit(s, p22, "}") {
        Some(j) => j,
        None => {
            return None;
        },
    };
    let rec = AlarmRecord {
        program_name,
        alarm_name,
        alarm_arn,
        alarm_description,
        dimensions,
        actions_enabled,
        period,
        threshold,
        comparison_operator: operator_from_name(op_name.as_str()),
        treat_missing_data,
        statistic: statistic_from_name(st_name.as_str()),
    };
    Some((rec, p23))
}

/// Parses the serialized report array at `i`.
pub fn parse_records(s: &str, i: usize) -> (r: Option<(Vec<AlarmRecord>, usize)>)
    requires
        i <= s@.len(),
    ensures
        match r {
            Some(v) => spec_parse_records(s@, i as int) == Some(
                (spec_record_views(v.0@), v.1 as int),
            ) && i < v.1 <= s@.len(),
            None => spec_parse_records(s@, i as int) is None,
        },
{
    let slen = s.unicode_len();
    if i >= slen {
        return None;
    }
    if s.get_char(i) != '[' {
        return None;
    }
    if i + 1 < slen && s.get_char(i + 1) == ']' {
        let empty: Vec<AlarmRecord> = Vec::new();
        proof {
            assert(spec_record_views(empty@) =~= Seq::<AlarmRecordView>::empty());
        }
        return Some((empty, i + 2));
    }
    let mut cur: usize = i + 1;
    let mut acc: Vec<AlarmRecord> = Vec::new();
    loop
        invariant
            slen == s@.len(),
            i < slen,
            s@[i as int] == '[',
            !(i + 1 < slen && s@[i + 1] == ']'),
            i + 1 <= cur <= slen,
            spec_parse_records_rest(s@, i + 1) == (match spec_parse_records_rest(s@, cur as int) {
                Some((rs, k)) => Some((spec_record_views(acc@) + rs, k)),
                None => None::<(Seq<AlarmRecordView>, int)>,
            }),
        decreases slen - cur,
    {
        match parse_record(s, cur) {
            None => {
                return None;
            },
            Some((rec, j)) => {
                if j < slen {
                    let c = s.get_char(j);
                    if c == ',' {
                        let ghost acc0: Seq<AlarmRecord> = acc@;
                        acc.push(rec);
                        proof {
                            assert(spec_record_views(acc@) =~= spec_record_views(acc0).push(
                                rec@,
                            ));
                            if spec_parse_records_rest(s@, j + 1) is Some {
                                let (rs, k) = spec_parse_records_rest(s@, j + 1).unwrap();
                                assert(spec_parse_records_rest(s@, cur as int) == Some(
                                    (seq![rec@] + rs, k),
                                ));
                                assert(spec_record_views(acc0) + (seq![rec@] + rs)
                                    =~= spec_record_views(acc@) + rs);
                            } else {
                                assert(spec_parse_records_rest(s@, cur as int) is None);
                            }
                        }
                        cur = j + 1;
                    } else if c == ']' {
                        let ghost acc0: Seq<AlarmRecord> = acc@;
                        acc.push(rec);
                        proof {
                            assert(spec_record_views(acc@) =~= spec_record_views(acc0).push(
                                rec@,
                            ));
                            assert(spec_parse_records_rest(s@, cur as int) == Some(
                                (seq![rec@], j + 1),
                            ));
                            assert(spec_record_views(acc0) + seq![rec@] =~= spec_record_views(
                                acc@,
                            ));
                        }
                        return Some((acc, j + 1));
                    } else {
                        proof {
                            assert(spec_parse_records_rest(s@, cur as int) is None);
                        }
                        return None;
                    }
                } else {
                    proof {
                        assert(spec_parse_records_rest(s@, cur as int) is None);
                    }
                    return None;
                }
            },
        }
    }
}

/// Parses a whole persisted report; the array must span the whole
/// text.
pub fn alarms_from_json(s: &str) -> (r: Option<Vec<AlarmRecord>>)
    ensures
        match r {
            Some(v) => spec_parse_report(s@) == Some(spec_record_views(v@)),
            None => spec_parse_report(s@) is None,
        },
{
    let slen = s.unicode_len();
    match parse_records(s, 0) {
        Some((v, j)) => {
            if j == slen {
                Some(v)
            } else {
                None
            }
        },
        None => None,
    }
}

} // verus!
