//! Decimal rendering and parsing of integers, with the round-trip
//! lemmas the JSON report format relies on.

use vstd::prelude::*;

use crate::text::push_char;
use vstd::arithmetic::div_mod::lemma_fundamental_div_mod;

verus! {

/// `c` is a decimal digit.
pub open spec fn spec_is_digit(c: char) -> bool {
    48 <= c as u32 <= 57
}

/// Numeric value of a digit character.
pub open spec fn spec_digit_val(c: char) -> nat {
    (c as u32 - 48) as nat
}

/// The digit character for a value below ten.
pub open spec fn spec_digit_char(d: nat) -> char {
    if d == 0 {
        '0'
    } else if d == 1 {
        '1'
    } else if d == 2 {
        '2'
    } else if d == 3 {
        '3'
    } else if d == 4 {
        '4'
    } else if d == 5 {
        '5'
    } else if d == 6 {
        '6'
    } else if d == 7 {
        '7'
    } else if d == 8 {
        '8'
    } else {
        '9'
    }
}

/// Standard decimal rendering of a natural number: no sign, no leading
/// zeros (except for zero itself).
pub open spec fn spec_nat_dec(n: nat) -> Seq<char>
    decreases n,
{
    if n < 10 {
        seq![spec_digit_char(n)]
    } else {
        spec_nat_dec(n / 10).push(spec_digit_char(n % 10))
    }
}

/// Value of a digit string, most significant digit first.
pub open spec fn spec_dec_val(s: Seq<char>) -> nat
    decreases s.len(),
{
    if s.len() == 0 {
        0
    } else {
        spec_dec_val(s.drop_last()) * 10 + spec_digit_val(s.last())
    }
}

/// Decimal rendering of a signed number: a minus sign for negatives,
/// then the rendering of the magnitude.
pub open spec fn spec_int_dec(n: int) -> Seq<char> {
    if n < 0 {
        seq!['-'] + spec_nat_dec((-n) as nat)
    } else {
        spec_nat_dec(n as nat)
    }
}

/// Every character of a decimal rendering is a digit, and the rendering
/// is never empty.
pub proof fn lemma_nat_dec_digits(n: nat)
    ensures
        spec_nat_dec(n).len() >= 1,
        forall|i: int| 0 <= i < spec_nat_dec(n).len() ==> spec_is_digit(#[trigger] spec_nat_dec(n)[i]),
    decreases n,
{
    if n >= 10 {
        lemma_nat_dec_digits(n / 10);
        assert(forall|i: int|
            0 <= i < spec_nat_dec(n / 10).len() ==> #[trigger] spec_nat_dec(n)[i]
                == spec_nat_dec(n / 10)[i]);
    }
}

/// Reading a decimal rendering back yields the number it was made from.
pub proof fn lemma_dec_val_of_nat_dec(n: nat)
    ensures
        spec_dec_val(spec_nat_dec(n)) == n,
    decreases n,
{
    if n < 10 {
        assert(spec_nat_dec(n).drop_last() =~= Seq::<char>::empty());
        assert(spec_nat_dec(n).last() == spec_digit_char(n));
        assert(spec_digit_val(spec_digit_char(n)) == n);
        assert(spec_dec_val(spec_nat_dec(n)) == spec_dec_val(Seq::<char>::empty()) * 10
            + spec_digit_val(spec_digit_char(n)));
    } else {
        lemma_dec_val_of_nat_dec(n / 10);
        assert(spec_nat_dec(n).drop_last() =~= spec_nat_dec(n / 10));
        lemma_fundamental_div_mod(n as int, 10);
    }
}

/// The value of a digit-string prefix never exceeds the value of the
/// whole string.
pub proof fn lemma_dec_val_prefix_le(s: Seq<char>, j: int)
    requires
        0 <= j <= s.len(),
    ensures
        spec_dec_val(s.take(j)) <= spec_dec_val(s),
    decreases s.len() - j,
{
    if j < s.len() {
        lemma_dec_val_prefix_le(s, j + 1);
        assert(s.take(j + 1).drop_last() =~= s.take(j));
        assert(spec_dec_val(s.take(j + 1)) == spec_dec_val(s.take(j)) * 10 + spec_digit_val(
            s.take(j + 1).last(),
        ));
    } else {
        assert(s.take(j) =~= s);
    }
}

/// Returns the digit character for `d`.
pub fn digit_char(d: u64) -> (c: char)
    requires
        d < 10,
    ensures
        c == spec_digit_char(d as nat),
{
    match d {
        0 => '0',
        1 => '1',
        2 => '2',
        3 => '3',
        4 => '4',
        5 => '5',
        6 => '6',
        7 => '7',
        8 => '8',
        _ => '9',
    }
}

/// Renders `n` in decimal.
pub fn u64_to_dec(n: u64) -> (r: String)
    ensures
        r@ == spec_nat_dec(n as nat),
    decreases n,
{
    if n < 10 {
        let mut s = String::new();
        push_char(&mut s, digit_char(n));
        proof {
            assert(s@ =~= seq![spec_digit_char(n as nat)]);
        }
        s
    } else {
        let mut s = u64_to_dec(n / 10);
        push_char(&mut s, digit_char(n % 10));
        s
    }
}

/// Renders `n` in decimal, with a minus sign for negative values.
pub fn i32_to_dec(n: i32) -> (r: String)
    ensures
        r@ == spec_int_dec(n as int),
{
    if n >= 0 {
        u64_to_dec(n as u64)
    } else {
        let mut s = String::new();
        push_char(&mut s, '-');
        let mag: u64 = (-(n as i64)) as u64;
        let rest = u64_to_dec(mag);
        s.append(rest.as_str());
        proof {
            assert(s@ =~= seq!['-'] + spec_nat_dec(mag as nat));
        }
        s
    }
}

} // verus!
