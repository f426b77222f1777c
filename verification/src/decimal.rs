//! Decimal rendering and parsing of the integers that appear in
//! display strings, JSON payloads and `host:port` addresses.

use vstd::prelude::*;
use vstd::std_specs::iter::IteratorSpec;

use crate::strutil::push_char;

verus! {

/// The ASCII digit for a value below ten.
pub open spec fn digit_char(d: nat) -> char
    recommends
        d < 10,
{
    ((0x30 + d) as u8) as char
}

/// The decimal digits of `n`, most significant first, no sign and no
/// leading zero (except for zero itself).
pub open spec fn dec_of(n: nat) -> Seq<char>
    decreases n,
{
    if n < 10 {
        seq![digit_char(n)]
    } else {
        dec_of(n / 10) + seq![digit_char(n % 10)]
    }
}

/// The decimal rendering of a signed value: a minus sign and then the
/// digits of the magnitude.
pub open spec fn dec_of_int(n: int) -> Seq<char> {
    if n < 0 {
        seq!['-'] + dec_of((-n) as nat)
    } else {
        dec_of(n as nat)
    }
}

/// Append the decimal digits of `n` to `out`.
pub fn push_dec_u32(out: &mut String, n: u32)
    ensures
        final(out)@ == old(out)@ + dec_of(n as nat),
    decreases n,
{
    if n >= 10 {
        push_dec_u32(out, n / 10);
    }
    push_char(out, (0x30 + (n % 10) as u8) as char);
}

/// Append the decimal rendering of `n` to `out`.
pub fn push_dec_i32(out: &mut String, n: i32)
    ensures
        final(out)@ == old(out)@ + dec_of_int(n as int),
{
    if n < 0 {
        push_char(out, '-');
        let m: u32 = (-(n as i64)) as u32;
        push_dec_u32(out, m);
    } else {
        push_dec_u32(out, n as u32);
    }
}

/// The decimal rendering of `n` as a fresh string.
pub fn dec_u32_string(n: u32) -> (r: String)
    ensures
        r@ == dec_of(n as nat),
{
    let mut s = String::new();
    push_dec_u32(&mut s, n);
    s
}

/// The decimal rendering of `n` as a fresh string.
pub fn dec_i32_string(n: i32) -> (r: String)
    ensures
        r@ == dec_of_int(n as int),
{
    let mut s = String::new();
    push_dec_i32(&mut s, n);
    s
}

/// Whether every character is an ASCII digit.
pub open spec fn all_digits(s: Seq<char>) -> bool {
    forall|i: int| 0 <= i < s.len() ==> 0x30 <= #[trigger] (s[i] as u32) <= 0x39
}

/// The number the digit characters denote, most significant first.
pub open spec fn dec_value(s: Seq<char>) -> nat
    decreases s.len(),
{
    if s.len() == 0 {
        0
    } else {
        dec_value(s.drop_last()) * 10 + ((s.last() as u32 - 0x30) as nat)
    }
}

/// The digit portion of a decimal literal: everything after one
/// optional leading plus sign.
pub open spec fn dec_literal_digits(s: Seq<char>) -> Seq<char> {
    if s.len() > 0 && s[0] == '+' {
        s.drop_first()
    } else {
        s
    }
}

/// What `str::parse::<u16>` accepts: an optional plus sign, then one
/// or more ASCII digits denoting a value that fits in sixteen bits.
pub open spec fn parse_u16_spec(s: Seq<char>) -> Option<u16> {
    let digits = dec_literal_digits(s);
    if digits.len() == 0 || !all_digits(digits) {
        None
    } else if dec_value(digits) > 0xffff {
        None
    } else {
        Some(dec_value(digits) as u16)
    }
}

proof fn lemma_dec_value_take_step(s: Seq<char>, i: int)
    requires
        0 <= i < s.len(),
    ensures
        dec_value(s.take(i + 1)) == dec_value(s.take(i)) * 10 + ((s[i] as u32 - 0x30) as nat),
{
    assert(s.take(i + 1).drop_last() =~= s.take(i));
    assert(s.take(i + 1).last() == s[i]);
}

proof fn lemma_dec_value_grows(s: Seq<char>, i: int)
    requires
        0 <= i <= s.len(),
        all_digits(s),
    ensures
        dec_value(s.take(i)) <= dec_value(s),
    decreases s.len() - i,
{
    if i == s.len() {
        assert(s.take(i) =~= s);
    } else {
        lemma_dec_value_take_step(s, i);
        let v = dec_value(s.take(i));
        assert(v <= v * 10) by (nonlinear_arith);
        lemma_dec_value_grows(s, i + 1);
    }
}

/// Parse a decimal `u16` exactly as the standard library does: an
/// optional plus sign, one or more digits, and no value overflow.
pub fn parse_u16(s: &str) -> (r: Option<u16>)
    ensures
        r == parse_u16_spec(s@),
{
    broadcast use vstd::string::axiom_spec_iter, vstd::string::next_postcondition;

    let ghost full: Seq<char> = s@;
    let mut it = s.chars();
    let ghost digits: Seq<char> = dec_literal_digits(full);
    let mut first = match it.next() {
        None => {
            return None;
        },
        Some(c) => c,
    };
    if first == '+' {
        first = match it.next() {
            None => {
                assert(digits.len() == 0);
                return None;
            },
            Some(c) => c,
        };
    }
    proof {
        assert(it.remaining() =~= digits.skip(1));
        assert(digits[0] == first);
    }
    let d0 = first as u32;
    if d0 < 0x30 || d0 > 0x39 {
        assert(!(0x30 <= (digits[0] as u32) <= 0x39));
        assert(!all_digits(digits));
        return None;
    }
    let mut acc: u32 = d0 - 0x30;
    let ghost mut i: int = 1;
    proof {
        assert(digits.take(1).drop_last() =~= Seq::<char>::empty());
        assert(dec_value(Seq::<char>::empty()) == 0);
        assert(digits.take(1).last() == digits[0]);
        assert(acc == dec_value(digits.take(1)));
    }
    loop
        invariant
            1 <= i <= digits.len(),
            it.remaining() == digits.skip(i),
            acc == dec_value(digits.take(i)),
            acc <= 0xffff,
            full == s@,
            digits == dec_literal_digits(full),
            all_digits(digits.take(i)),
        decreases digits.len() - i,
    {
        let c = match it.next() {
            None => {
                assert(digits.skip(i).len() == 0);
                assert(digits.take(i) =~= digits);
                return Some(acc as u16);
            },
            Some(c) => c,
        };
        assert(c == digits[i]);
        let d = c as u32;
        if d < 0x30 || d > 0x39 {
            assert(!(0x30 <= (digits[i] as u32) <= 0x39));
            assert(!all_digits(digits));
            return None;
        }
        proof {
            lemma_dec_value_take_step(digits, i);
        }
        acc = acc * 10 + (d - 0x30);
        let ghost i0 = i;
        proof {
            i = i + 1;
        }
        proof {
            assert forall|j: int| 0 <= j < i0 + 1 implies 0x30 <= #[trigger] (digits.take(i0 + 1)[j]
                as u32) <= 0x39 by {
                if j < i0 {
                    assert(digits.take(i0 + 1)[j] == digits.take(i0)[j]);
                } else {
                    assert(digits.take(i0 + 1)[j] == digits[i0]);
                }
            }
        }
        if acc > 0xffff {
            proof {
                lemma_dec_value_grows_if(digits, i);
            }
            return None;
        }
    }
}

/// Once a digit prefix already exceeds the cap, the whole literal does.
proof fn lemma_dec_value_grows_if(s: Seq<char>, i: int)
    requires
        0 <= i <= s.len(),
        dec_value(s.take(i)) > 0xffff,
    ensures
        all_digits(s) ==> dec_value(s) > 0xffff,
{
    if all_digits(s) {
        lemma_dec_value_grows(s, i);
    }
}

} // verus!
