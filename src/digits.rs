//! Decimal spelling of integers.

use vstd::prelude::*;
use crate::text::{ascii_chars, ascii_string, is_ascii_bytes};

verus! {

/// The ASCII decimal digits of `n`, most significant first, without
/// leading zeros (`0` is spelled `"0"`).
pub open spec fn decimal_digits(n: nat) -> Seq<u8>
    decreases n,
{
    if n < 10 {
        seq![(48 + n) as u8]
    } else {
        decimal_digits(n / 10).push((48 + n % 10) as u8)
    }
}

/// Decimal spelling of a signed integer, with `-` in front of a negative one.
pub open spec fn signed_digits(v: int) -> Seq<u8> {
    if v < 0 {
        seq![45u8] + decimal_digits((-v) as nat)
    } else {
        decimal_digits(v as nat)
    }
}

proof fn lemma_digits_ascii(n: nat)
    ensures
        is_ascii_bytes(decimal_digits(n)),
        decimal_digits(n).len() >= 1,
    decreases n,
{
    if n >= 10 {
        lemma_digits_ascii(n / 10);
    }
}

/// Appends the decimal digits of `n` to `out`.
pub fn push_decimal(out: &mut Vec<u8>, n: u64)
    ensures
        final(out)@ == old(out)@ + decimal_digits(n as nat),
    decreases n,
{
    if n >= 10 {
        push_decimal(out, n / 10);
    }
    out.push((48 + n % 10) as u8);
    proof {
        assert(final(out)@ =~= old(out)@ + decimal_digits(n as nat));
    }
}

/// Appends the decimal spelling of `v` to `out`.
pub fn push_signed(out: &mut Vec<u8>, v: i64)
    ensures
        final(out)@ == old(out)@ + signed_digits(v as int),
{
    if v < 0 {
        out.push(45);
        let m: u64 = if v == i64::MIN { 9223372036854775808u64 } else { (-v) as u64 };
        push_decimal(out, m);
        assert(final(out)@ =~= old(out)@ + signed_digits(v as int));
    } else {
        push_decimal(out, v as u64);
    }
}

/// The decimal spelling of `v`.
pub fn int_text(v: i64) -> (r: String)
    ensures
        r@ == ascii_chars(signed_digits(v as int)),
{
    let mut out: Vec<u8> = Vec::new();
    push_signed(&mut out, v);
    proof {
        let m: nat = if v < 0 { (-v) as nat } else { v as nat };
        lemma_digits_ascii(m);
        assert(out@ =~= signed_digits(v as int));
        assert(is_ascii_bytes(out@));
    }
    ascii_string(out)
}

} // verus!
