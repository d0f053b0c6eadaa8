use vstd::prelude::*;
use crate::text::{decimal, digit, digit_char, push_char, push_decimal};

verus! {

broadcast use vstd::string::group_string_axioms;

/// Bytes in a kilobyte, as the size display counts them.
pub open spec fn kib() -> nat {
    1024
}

/// Bytes in a megabyte.
pub open spec fn mib() -> nat {
    1024 * 1024
}

/// Bytes in a gigabyte.
pub open spec fn gib() -> nat {
    1024 * 1024 * 1024
}

/// Integers below this bound are exactly representable as `f64`.
pub open spec fn f64_exact_bound() -> nat {
    0x20_0000_0000_0000
}

/// The spacing of `f64` values around the integer `n`: 1 below 2^53, and
/// doubling with each further bit of `n`.
pub open spec fn f64_ulp(n: nat) -> nat
    decreases n,
{
    if n < f64_exact_bound() {
        1
    } else {
        2 * f64_ulp(n / 2)
    }
}

/// The integer `n` rounded to the nearest `f64` (ties to even), which is what
/// `n as f64` gives.
pub open spec fn nearest_f64(n: nat) -> nat {
    let p = f64_ulp(n);
    let q = n / p;
    let r = n % p;
    if 2 * r > p || (2 * r == p && q % 2 == 1) {
        (q + 1) * p
    } else {
        q * p
    }
}

/// `x / d` in hundredths, rounded to the nearest hundredth with ties to even.
pub open spec fn round_hundredths(x: nat, d: nat) -> nat {
    let q = (x * 100) / d;
    let r = (x * 100) % d;
    if 2 * r > d || (2 * r == d && q % 2 == 1) {
        q + 1
    } else {
        q
    }
}

/// `h` hundredths written with two decimal places.
pub open spec fn two_places(h: nat) -> Seq<char> {
    decimal(h / 100) + seq!['.', digit_char((h / 10) % 10), digit_char(h % 10)]
}

/// The human-readable text of a size in bytes: bytes below 1 KB, else the
/// largest of KB, MB and GB that the size reaches, with two decimals.
pub open spec fn size_text(bytes: u64) -> Seq<char> {
    if bytes >= gib() {
        two_places(round_hundredths(nearest_f64(bytes as nat), gib())) + seq![' ', 'G', 'B']
    } else if bytes >= mib() {
        two_places(round_hundredths(nearest_f64(bytes as nat), mib())) + seq![' ', 'M', 'B']
    } else if bytes >= kib() {
        two_places(round_hundredths(nearest_f64(bytes as nat), kib())) + seq![' ', 'K', 'B']
    } else {
        decimal(bytes as nat) + seq![' ', 'B']
    }
}

/// Integers below 2^53 convert to `f64` exactly.
pub proof fn lemma_small_integers_exact(n: nat)
    requires
        n < f64_exact_bound(),
    ensures
        nearest_f64(n) == n,
{
    assert(f64_ulp(n) == 1);
    lemma_div_bounds(n as int, 1, n as int);
}

proof fn lemma_div_bounds(n: int, p: int, m: int)
    requires
        p > 0,
        p * m <= n < p * (m + 1),
    ensures
        n / p == m,
        n % p == n - p * m,
{
    assert(n - p * m < p) by (nonlinear_arith)
        requires
            n < p * (m + 1),
    ;
    assert(n == m * p + (n - p * m)) by (nonlinear_arith);
    vstd::arithmetic::div_mod::lemma_fundamental_div_mod_converse(n, p, m, n - p * m);
}

/// `n as f64`, as an integer.
fn f64_value(n: u64) -> (x: u128)
    ensures
        x == nearest_f64(n as nat),
        x <= 0x100_0000_0000_0000_0000_0000_0000_0000,
{
    let mut m: u64 = n;
    let mut p: u128 = 1;
    while m >= 0x20_0000_0000_0000
        invariant
            1 <= p <= 0x1_0000_0000_0000_0000,
            p * m <= n < p * (m + 1),
            f64_ulp(n as nat) == p * f64_ulp(m as nat),
        decreases m,
    {
        let ghost (m0, p0) = (m as int, p as int);
        assert(2 * p0 <= p0 * m0) by (nonlinear_arith)
            requires
                m0 >= 2,
                p0 >= 1,
        ;
        assert(2 * p0 * (m0 / 2) <= p0 * m0 && p0 * (m0 + 1) <= 2 * p0 * (m0 / 2 + 1))
            by (nonlinear_arith)
            requires
                m0 >= 0,
                p0 >= 1,
        ;
        assert(f64_ulp(m as nat) == 2 * f64_ulp((m / 2) as nat));
        m = m / 2;
        p = p * 2;
        assert(p0 * (2 * f64_ulp(m as nat)) == 2 * p0 * f64_ulp(m as nat)) by (nonlinear_arith);
    }
    assert(f64_ulp(m as nat) == 1);
    proof {
        lemma_div_bounds(n as int, p as int, m as int);
    }
    let q: u128 = m as u128;
    let r: u128 = n as u128 - p * q;
    assert(r < p) by (nonlinear_arith)
        requires
            p * q <= n < p * (q + 1),
            r == n - p * q,
    ;
    proof {
        vstd::arithmetic::mul::lemma_mul_upper_bound(
            (q + 1) as int,
            0x20_0000_0000_0000,
            p as int,
            0x1_0000_0000_0000_0000,
        );
        vstd::arithmetic::mul::lemma_mul_inequality(q as int, (q + 1) as int, p as int);
    }
    assert(p == f64_ulp(n as nat)) by (nonlinear_arith)
        requires
            f64_ulp(n as nat) == p * f64_ulp(m as nat),
            f64_ulp(m as nat) == 1,
    ;
    assert(0x20_0000_0000_0000 * 0x1_0000_0000_0000_0000int
        <= 0x100_0000_0000_0000_0000_0000_0000_0000int) by (nonlinear_arith);
    assert(q == (n as nat) / (p as nat));
    assert(r == (n as nat) % (p as nat));
    if 2 * r > p || (2 * r == p && q % 2 == 1) {
        (q + 1) * p
    } else {
        q * p
    }
}

/// `x / d` in hundredths, rounded half to even.
fn hundredths(x: u128, d: u128) -> (h: u128)
    requires
        0 < d <= 0x1_0000_0000_0000_0000,
        x <= 0x100_0000_0000_0000_0000_0000_0000_0000,
    ensures
        h == round_hundredths(x as nat, d as nat),
{
    let n = x * 100;
    let q = n / d;
    let r = n % d;
    if 2 * r > d || (2 * r == d && q % 2 == 1) {
        q + 1
    } else {
        q
    }
}

/// Appends `h` hundredths with two decimal places.
fn push_two_places(s: &mut String, h: u128)
    ensures
        final(s)@ == old(s)@ + two_places(h as nat),
{
    push_decimal(s, h / 100);
    push_char(s, '.');
    push_char(s, digit(((h / 10) % 10) as u8));
    push_char(s, digit((h % 10) as u8));
}

/// Formats a size in bytes for display: `"512 B"`, `"1.50 KB"`, `"2.00 MB"`,
/// `"1.25 GB"`. The two decimals are those of the `f64` quotient, rounded to
/// the nearest hundredth with ties to even.
pub fn format_size(bytes: u64) -> (r: String)
    ensures
        r@ == size_text(bytes),
{
    let mut s = String::new();
    if bytes >= 1024 * 1024 * 1024 {
        let x = f64_value(bytes);
        push_two_places(&mut s, hundredths(x, 1024 * 1024 * 1024));
        proof {
            reveal_strlit(" GB");
        }
        s.append(" GB");
    } else if bytes >= 1024 * 1024 {
        let x = f64_value(bytes);
        push_two_places(&mut s, hundredths(x, 1024 * 1024));
        proof {
            reveal_strlit(" MB");
        }
        s.append(" MB");
    } else if bytes >= 1024 {
        let x = f64_value(bytes);
        push_two_places(&mut s, hundredths(x, 1024));
        proof {
            reveal_strlit(" KB");
        }
        s.append(" KB");
    } else {
        push_decimal(&mut s, bytes as u128);
        proof {
            reveal_strlit(" B");
        }
        s.append(" B");
    }
    s
}

} // verus!
