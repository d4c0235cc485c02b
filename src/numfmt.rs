//! Decimal text of integers and of lengths in millionths of a point.
use vstd::prelude::*;
use crate::text::push_char;

verus! {

pub open spec fn digit_char(d: nat) -> char {
    ((d % 10 + 48) as u8) as char
}

/// Decimal digits of a natural number, without leading zeros.
pub open spec fn nat_text(n: nat) -> Seq<char>
    decreases n,
{
    if n < 10 {
        seq![digit_char(n)]
    } else {
        nat_text(n / 10).push(digit_char(n % 10))
    }
}

/// The last `w` decimal digits of `f`, with leading zeros.
pub open spec fn padded(f: nat, w: nat) -> Seq<char>
    decreases w,
{
    if w == 0 {
        Seq::empty()
    } else {
        padded(f / 10, (w - 1) as nat).push(digit_char(f % 10))
    }
}

/// The `w` fraction digits of `f` without trailing zeros.
pub open spec fn frac_text(f: nat, w: nat) -> Seq<char>
    decreases w,
{
    if w > 0 && f % 10 == 0 {
        frac_text(f / 10, (w - 1) as nat)
    } else {
        padded(f, w)
    }
}

pub open spec fn abs(v: int) -> nat {
    if v < 0 {
        (-v) as nat
    } else {
        v as nat
    }
}

/// A length in millionths as decimal text: sign, whole part, and the
/// fraction without trailing zeros where it is not zero.
pub open spec fn micro_text(v: int) -> Seq<char> {
    let m = abs(v);
    let sign = if v < 0 {
        seq!['-']
    } else {
        Seq::empty()
    };
    if m % 1_000_000 == 0 {
        sign + nat_text(m / 1_000_000)
    } else {
        sign + nat_text(m / 1_000_000) + seq!['.'] + frac_text(m % 1_000_000, 6)
    }
}

fn digit(d: u64) -> (c: char)
    requires
        d < 10,
    ensures
        c == digit_char(d as nat),
{
    ((d + 48) as u8) as char
}

/// Appends the decimal digits of `n`.
pub fn push_nat(out: &mut String, n: u64)
    ensures
        final(out)@ == old(out)@ + nat_text(n as nat),
    decreases n,
{
    if n >= 10 {
        push_nat(out, n / 10);
    }
    push_char(out, digit(n % 10));
    proof {
        if n < 10 {
            assert(n % 10 == n);
        }
    }
    assert(final(out)@ =~= old(out)@ + nat_text(n as nat));
}

fn push_padded(out: &mut String, f: u64, w: u64)
    ensures
        final(out)@ == old(out)@ + padded(f as nat, w as nat),
    decreases w,
{
    if w > 0 {
        push_padded(out, f / 10, w - 1);
        push_char(out, digit(f % 10));
    }
    assert(final(out)@ =~= old(out)@ + padded(f as nat, w as nat));
}

/// Appends a length in millionths of a point as decimal text.
pub fn push_micro(out: &mut String, v: i64)
    ensures
        final(out)@ == old(out)@ + micro_text(v as int),
{
    let m: u64 = if v < 0 {
        ((-(v + 1)) as u64) + 1
    } else {
        v as u64
    };
    assert(m == abs(v as int));
    if v < 0 {
        push_char(out, '-');
    }
    push_nat(out, m / 1_000_000);
    let frac = m % 1_000_000;
    if frac != 0 {
        push_char(out, '.');
        let mut f = frac;
        let mut w: u64 = 6;
        while w > 0 && f % 10 == 0
            invariant
                w <= 6,
                frac_text(frac as nat, 6) == frac_text(f as nat, w as nat),
            decreases w,
        {
            f = f / 10;
            w = w - 1;
        }
        push_padded(out, f, w);
    }
    assert(final(out)@ =~= old(out)@ + micro_text(v as int));
}

} // verus!
