//! Human-friendly rendering of byte counts and rates.
use vstd::prelude::*;

use crate::text::{decimal, digit_char, push_decimal, push_str};

verus! {

/// `1024^u`.
pub open spec fn pow1024(u: nat) -> nat
    decreases u,
{
    if u == 0 {
        1
    } else {
        1024 * pow1024((u - 1) as nat)
    }
}

/// The binary unit a byte count is shown in: the largest of B, KiB, MiB,
/// GiB, TiB, PiB that the count reaches.
pub open spec fn unit_for(bytes: nat) -> nat {
    if bytes >= pow1024(5) {
        5
    } else if bytes >= pow1024(4) {
        4
    } else if bytes >= pow1024(3) {
        3
    } else if bytes >= pow1024(2) {
        2
    } else if bytes >= pow1024(1) {
        1
    } else {
        0
    }
}

/// The name of unit `u`.
pub open spec fn unit_name(u: nat) -> Seq<char> {
    if u == 1 {
        "KiB"@
    } else if u == 2 {
        "MiB"@
    } else if u == 3 {
        "GiB"@
    } else if u == 4 {
        "TiB"@
    } else if u == 5 {
        "PiB"@
    } else {
        "B"@
    }
}

/// `n / d` rounded to the nearest integer, halves to even.
pub open spec fn round_half_even(n: nat, d: nat) -> nat {
    let q = n / d;
    let r = n % d;
    if 2 * r > d || (2 * r == d && q % 2 == 1) {
        q + 1
    } else {
        q
    }
}

/// A value below 100 as exactly two digits.
pub open spec fn two_digits(n: nat) -> Seq<char> {
    seq![digit_char(n / 10), digit_char(n % 10)]
}

/// A byte count in binary units: below 1 KiB as `N B`; otherwise the count in
/// its unit with two decimals (rounded to nearest, halves to even), e.g.
/// `1.50 KiB`.
pub open spec fn human_bytes_text(bytes: nat) -> Seq<char> {
    let u = unit_for(bytes);
    if u == 0 {
        decimal(bytes) + " B"@
    } else {
        let h = round_half_even(bytes * 100, pow1024(u));
        decimal(h / 100) + "."@ + two_digits(h % 100) + " "@ + unit_name(u)
    }
}

proof fn lemma_pow1024_values()
    ensures
        pow1024(0) == 1,
        pow1024(1) == 1024,
        pow1024(2) == 1048576,
        pow1024(3) == 1073741824,
        pow1024(4) == 1099511627776,
        pow1024(5) == 1125899906842624,
{
    reveal_with_fuel(pow1024, 6);
}

/// Format a byte count in binary units (KiB/MiB/...), with 2 decimals.
pub fn human_bytes(bytes: u64) -> (s: String)
    ensures
        s@ == human_bytes_text(bytes as nat),
{
    proof {
        lemma_pow1024_values();
    }
    let mut s = String::new();
    let unit: u64 = if bytes >= 1125899906842624 {
        5
    } else if bytes >= 1099511627776 {
        4
    } else if bytes >= 1073741824 {
        3
    } else if bytes >= 1048576 {
        2
    } else if bytes >= 1024 {
        1
    } else {
        0
    };
    if unit == 0 {
        push_decimal(&mut s, bytes);
        push_str(&mut s, " B");
        proof {
            assert(s@ =~= human_bytes_text(bytes as nat));
        }
        return s;
    }
    let d: u128 = if unit == 1 {
        1024
    } else if unit == 2 {
        1048576
    } else if unit == 3 {
        1073741824
    } else if unit == 4 {
        1099511627776
    } else {
        1125899906842624
    };
    let n: u128 = (bytes as u128) * 100;
    let q: u128 = n / d;
    let r: u128 = n % d;
    let h: u128 = if 2 * r > d || (2 * r == d && q % 2 == 1) {
        q + 1
    } else {
        q
    };
    proof {
        assert(d == pow1024(unit as nat));
        assert(h == round_half_even(bytes as nat * 100, pow1024(unit as nat)));
        assert(h <= u64::MAX) by (nonlinear_arith)
            requires
                q == n / d,
                d >= 1024,
                n == bytes * 100,
                h <= q + 1,
                bytes <= u64::MAX,
        ;
    }
    let h64: u64 = h as u64;
    push_decimal(&mut s, h64 / 100);
    push_str(&mut s, ".");
    let frac: u64 = h64 % 100;
    let tens: char = (48u8 + (frac / 10) as u8) as char;
    let ones: char = (48u8 + (frac % 10) as u8) as char;
    s.push(tens);
    s.push(ones);
    push_str(&mut s, " ");
    if unit == 1 {
        push_str(&mut s, "KiB");
    } else if unit == 2 {
        push_str(&mut s, "MiB");
    } else if unit == 3 {
        push_str(&mut s, "GiB");
    } else if unit == 4 {
        push_str(&mut s, "TiB");
    } else {
        push_str(&mut s, "PiB");
    }
    proof {
        assert(tens == digit_char((frac / 10) as nat));
        assert(ones == digit_char((frac % 10) as nat));
        assert(s@ =~= human_bytes_text(bytes as nat));
    }
    s
}

/// Format a per-second byte rate: the byte count followed by `/s`.
pub fn human_rate(bytes_per_sec: u64) -> (s: String)
    ensures
        s@ == human_bytes_text(bytes_per_sec as nat) + "/s"@,
{
    let mut s = human_bytes(bytes_per_sec);
    push_str(&mut s, "/s");
    s
}

} // verus!
