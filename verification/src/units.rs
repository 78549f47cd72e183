//! Byte counts for people (B, KB, MB, GB).
use vstd::prelude::*;
use crate::report::pad_zero;
use crate::text::{decimal, decimal_chars, push_chars, push_decimal, push_str};

verus! {

broadcast use vstd::string::group_string_axioms;

/// The spacing of 64-bit floating-point numbers around `n`: 1 below 2^53,
/// doubling with each further bit.
pub open spec fn f64_unit(n: nat) -> nat
    decreases n,
{
    if n < 0x20000000000000 {
        1
    } else {
        2 * f64_unit(n / 2)
    }
}

/// `a / d` rounded to the nearest integer, ties to the even one.
pub open spec fn round_half_even(a: nat, d: nat) -> nat {
    let q = a / d;
    let r = a % d;
    if 2 * r > d {
        q + 1
    } else if 2 * r < d {
        q
    } else if q % 2 == 0 {
        q
    } else {
        q + 1
    }
}

/// What `n as f64` holds: `n` rounded to the nearest number with 53
/// significant bits, ties to even.
pub open spec fn f64_value(n: nat) -> nat {
    round_half_even(n, f64_unit(n)) * f64_unit(n)
}

/// Ten to the number of places (1 or 2).
pub open spec fn pow10(places: nat) -> nat {
    if places == 1 {
        10
    } else {
        100
    }
}

/// `num / den` written with `places` (1 or 2) decimals, rounded to the
/// nearest, ties to an even last digit: what `{:.N}` prints for that value.
pub open spec fn fixed_text(num: nat, den: nat, places: nat) -> Seq<char> {
    let n = round_half_even(num * pow10(places), den);
    decimal(n / pow10(places)) + "."@ + pad_zero(decimal(n % pow10(places)), places as int)
}

/// A byte count for people: bytes below 1 KiB, else KiB with one decimal,
/// MiB or GiB with two, computed on the count as a 64-bit float holds it.
pub open spec fn bytes_text(b: u64) -> Seq<char> {
    if b < 1024 {
        decimal(b as nat) + " B"@
    } else if b < 1048576 {
        fixed_text(f64_value(b as nat), 1024, 1) + " KB"@
    } else if b < 1073741824 {
        fixed_text(f64_value(b as nat), 1048576, 2) + " MB"@
    } else {
        fixed_text(f64_value(b as nat), 1073741824, 2) + " GB"@
    }
}

fn round_half_even_exec(a: u128, d: u128) -> (r: u128)
    requires
        d > 0,
        a / d < u128::MAX,
    ensures
        r == round_half_even(a as nat, d as nat),
{
    let q = a / d;
    let r = a % d;
    if r > d - r {
        q + 1
    } else if r < d - r {
        q
    } else if q % 2 == 0 {
        q
    } else {
        q + 1
    }
}

proof fn lemma_unit_small(n: nat)
    requires
        n < 0x20000000000000,
    ensures
        f64_unit(n) == 1,
{
}

fn f64_value_exec(n: u64) -> (r: u128)
    ensures
        r == f64_value(n as nat),
        r <= 0x20000000000000000,
{
    let mut m: u64 = n;
    let mut unit: u128 = 1;
    while m >= 0x20000000000000
        invariant
            unit > 0,
            m as nat == (n as nat) / (unit as nat),
            unit * f64_unit(m as nat) == f64_unit(n as nat),
            unit <= n || unit == 1,
        decreases m,
    {
        proof {
            vstd::arithmetic::div_mod::lemma_div_denominator(n as int, unit as int, 2);
            assert(unit * 2 <= n) by (nonlinear_arith)
                requires
                    m == (n as nat) / (unit as nat),
                    m >= 2,
                    unit > 0,
            ;
            assert(f64_unit(m as nat) == 2 * f64_unit((m / 2) as nat));
            assert(unit * (2 * f64_unit((m / 2) as nat)) == (unit * 2) * f64_unit((m / 2) as nat))
                by (nonlinear_arith);
        }
        m = m / 2;
        unit = unit * 2;
    }
    proof {
        lemma_unit_small(m as nat);
    }
    let q = round_half_even_exec(n as u128, unit);
    proof {
        assert(q * unit <= 0x20000000000000000) by (nonlinear_arith)
            requires
                q <= (n as nat) / (unit as nat) + 1,
                unit <= n || unit == 1,
                n < 0x10000000000000000,
                unit > 0,
        ;
    }
    q * unit
}

/// Appends `num / den` with `places` (1 or 2) decimals, as `fixed_text` says.
fn push_fixed(s: &mut String, num: u128, den: u128, places: u8)
    requires
        places == 1 || places == 2,
        1024 <= den,
        num <= 0x20000000000000000,
    ensures
        final(s)@ == old(s)@ + fixed_text(num as nat, den as nat, places as nat),
{
    let scale: u128 = if places == 1 {
        10
    } else {
        100
    };
    let n = round_half_even_exec(num * scale, den);
    proof {
        assert(((num * scale) as u128) / den <= 0x20000000000000000 * 100 / 1024) by (nonlinear_arith)
            requires
                num <= 0x20000000000000000,
                scale <= 100,
                1024 <= den,
        ;
    }
    let whole = n / scale;
    let frac = n % scale;
    let ghost s0 = s@;
    push_decimal(s, whole as u64);
    push_str(s, ".");
    let fd = decimal_chars(frac as u64);
    if places == 2 && frac < 10 {
        push_str(s, "0");
        proof {
            reveal_strlit("0");
        }
    }
    push_chars(s, fd.as_slice());
    proof {
        reveal_strlit("0");
        if frac < 10 {
            assert(decimal(frac as nat).len() == 1);
        } else {
            assert(decimal(frac as nat) == decimal((frac / 10) as nat).push(
                crate::text::digit_char((frac % 10) as int),
            ));
            assert(decimal((frac / 10) as nat).len() == 1);
        }
        assert(s@ =~= s0 + fixed_text(num as nat, den as nat, places as nat));
    }
}

/// A byte count for people (see `bytes_text`).
pub fn format_bytes_rust(bytes: u64) -> (r: String)
    ensures
        r@ == bytes_text(bytes),
{
    let mut s = String::new();
    if bytes < 1024 {
        push_decimal(&mut s, bytes);
        push_str(&mut s, " B");
    } else if bytes < 1048576 {
        let f = f64_value_exec(bytes);
        push_fixed(&mut s, f, 1024, 1);
        push_str(&mut s, " KB");
    } else if bytes < 1073741824 {
        let f = f64_value_exec(bytes);
        push_fixed(&mut s, f, 1048576, 2);
        push_str(&mut s, " MB");
    } else {
        let f = f64_value_exec(bytes);
        push_fixed(&mut s, f, 1073741824, 2);
        push_str(&mut s, " GB");
    }
    s
}

} // verus!
