//! Remembering which application had focus before the launcher appeared,
//! and reading that record back when focus is restored.
//!
//! The record is the application's identifier (a process id or a window
//! id) written in decimal.

use vstd::prelude::*;
use crate::text::{chars_of, decimal, digit_char, push_decimal};

verus! {

/// The record to keep for the frontmost application: its id in decimal,
/// unless there is none or it is this process itself.
pub fn capture_previous_app(frontmost: Option<u64>, own: Option<u64>) -> (r: Option<String>)
    ensures
        match frontmost {
            Some(id) => if own == Some(id) {
                r is None
            } else {
                r matches Some(s) && s@ == decimal(id as nat)
            },
            None => r is None,
        },
{
    match frontmost {
        Some(id) => {
            match own {
                Some(o) => {
                    if o == id {
                        return None;
                    }
                },
                None => {},
            }
            let mut s = String::new();
            push_decimal(&mut s, id);
            Some(s)
        },
        None => None,
    }
}

/// Whether `c` is an ASCII digit.
pub open spec fn is_digit(c: char) -> bool {
    '0' <= c && c <= '9'
}

/// The value of a string of decimal digits.
pub open spec fn digits_value(s: Seq<char>) -> nat
    decreases s.len(),
{
    if s.len() == 0 {
        0
    } else {
        digits_value(s.drop_last()) * 10 + ((s.last() as u32) - 48) as nat
    }
}

/// The digits of a `u64` literal: after an optional leading `+`.
pub open spec fn unsigned_digits(s: Seq<char>) -> Seq<char> {
    if s.len() > 1 && s[0] == '+' {
        s.drop_first()
    } else {
        s
    }
}

/// `u64::from_str`: an optional `+` and one or more ASCII digits whose
/// value fits in 64 bits.
pub open spec fn parse_u64(s: Seq<char>) -> Option<u64> {
    let d = unsigned_digits(s);
    if d.len() > 0 && (forall|i: int| 0 <= i < d.len() ==> is_digit(#[trigger] d[i]))
        && digits_value(d) <= u64::MAX {
        Some(digits_value(d) as u64)
    } else {
        None
    }
}

proof fn lemma_digits_value_grows(s: Seq<char>, i: int)
    requires
        0 <= i <= s.len(),
    ensures
        digits_value(s.take(i)) <= digits_value(s),
    decreases s.len() - i,
{
    if i < s.len() {
        lemma_digits_value_grows(s, i + 1);
        assert(s.take(i + 1).drop_last() == s.take(i));
    } else {
        assert(s.take(i) == s);
    }
}

/// The application to give focus back to: the id in a record, when it is
/// a valid decimal `u64`.
pub fn restore_previous_app(id: &str) -> (r: Option<u64>)
    ensures
        r == parse_u64(id@),
{
    let v = chars_of(id);
    let start: usize = if v.len() > 1 && v[0] == '+' {
        1
    } else {
        0
    };
    let ghost d = unsigned_digits(id@);
    assert(d == v@.skip(start as int));
    if start == v.len() {
        return None;
    }
    let mut value: u64 = 0;
    let mut i: usize = start;
    assert(d.take(0) == Seq::<char>::empty());
    while i < v.len()
        invariant
            start <= i <= v@.len(),
            d == v@.skip(start as int),
            d == unsigned_digits(id@),
            value == digits_value(d.take(i - start)),
            forall|k: int| 0 <= k < i - start ==> is_digit(#[trigger] d[k]),
        decreases v.len() - i,
    {
        let c = v[i];
        assert(d[i - start] == c);
        if !('0' <= c && c <= '9') {
            assert(!is_digit(d[i - start]));
            return None;
        }
        let digit: u64 = ((c as u32) - 48) as u64;
        assert(d.take(i - start + 1).drop_last() == d.take(i - start));
        if value > (u64::MAX - digit) / 10 {
            proof {
                assert(value * 10 + digit > u64::MAX) by (nonlinear_arith)
                    requires
                        value > (u64::MAX - digit) / 10,
                        digit <= 9,
                ;
                assert(digits_value(d.take(i - start + 1)) == value * 10 + digit);
                lemma_digits_value_grows(d, i - start + 1);
            }
            return None;
        }
        value = value * 10 + digit;
        i = i + 1;
    }
    assert(d.take(i - start) == d);
    Some(value)
}

proof fn lemma_decimal_digits(n: nat)
    ensures
        decimal(n).len() > 0,
        forall|i: int| 0 <= i < decimal(n).len() ==> is_digit(#[trigger] decimal(n)[i]),
        digits_value(decimal(n)) == n,
    decreases n,
{
    if n < 10 {
        assert(decimal(n) == seq![digit_char(n)]);
        assert(decimal(n).drop_last() == Seq::<char>::empty());
        assert((digit_char(n) as u32) == 48 + n);
        assert(digits_value(decimal(n).drop_last()) == 0);
        assert(decimal(n).last() == digit_char(n));
        assert(digits_value(decimal(n)) == digits_value(decimal(n).drop_last()) * 10 + ((
        decimal(n).last() as u32) - 48) as nat);
    } else {
        lemma_decimal_digits(n / 10);
        let c = digit_char(n % 10);
        assert(decimal(n) == decimal(n / 10) + seq![c]);
        assert(decimal(n).drop_last() == decimal(n / 10));
        assert((c as u32) == 48 + n % 10);
        assert(decimal(n).last() == c);
        assert(digits_value(decimal(n)) == digits_value(decimal(n / 10)) * 10 + n % 10);
        assert(n == (n / 10) * 10 + n % 10);
        assert forall|i: int| 0 <= i < decimal(n).len() implies is_digit(#[trigger] decimal(n)[i]) by {
            if i < decimal(n / 10).len() {
                assert(decimal(n)[i] == decimal(n / 10)[i]);
            }
        }
    }
}

/// A record restores the application it was taken for: reading back the
/// decimal record of `id` gives `id`.
pub proof fn law_record_roundtrip(id: u64)
    ensures
        parse_u64(decimal(id as nat)) == Some(id),
{
    lemma_decimal_digits(id as nat);
    assert(unsigned_digits(decimal(id as nat)) == decimal(id as nat));
}

} // verus!
