//! Sizes in bytes as people read them.
//!
//! A size is divided by its unit in double precision and shown with one
//! decimal: every step rounds to the nearest value, and halfway cases to
//! the even one.

use vstd::prelude::*;

use crate::text;

verus! {

/// The quotient, rounded to the nearest integer, halfway cases to the even
/// one.
pub open spec fn half_even(x: nat, d: nat) -> nat {
    let q = x / d;
    let r = x % d;
    if 2 * r < d || (2 * r == d && q % 2 == 0) {
        q
    } else {
        q + 1
    }
}

/// The distance of neighbouring doubles around `n`, where it exceeds one.
pub open spec fn granule(n: nat) -> nat
    decreases n,
{
    if n < 9007199254740992 {
        1
    } else {
        2 * granule(n / 2)
    }
}

/// The double that is nearest to `n`.
pub open spec fn as_double(n: nat) -> nat {
    half_even(n, granule(n)) * granule(n)
}

/// `y` and `d`, doubled together until `y` is at least 2^52 times `f`.
pub open spec fn scaled(y: nat, d: nat, f: nat) -> (nat, nat)
    decreases (if y >= 4503599627370496 * f {
        0
    } else {
        4503599627370496 * f - y
    }),
{
    if y == 0 || y >= 4503599627370496 * f {
        (y, d)
    } else {
        scaled(2 * y, 2 * d, f)
    }
}

/// The tenths that the double nearest to `n / f` is shown with.
pub open spec fn tenths(n: nat, f: nat) -> nat {
    let (y, d) = scaled(as_double(n), 1, f);
    half_even(10 * half_even(y, f), d)
}

/// A number of tenths, with a decimal point.
pub open spec fn one_decimal(t: nat) -> Seq<char> {
    text::decimal(t / 10) + "."@ + text::decimal(t % 10)
}

/// A size in the unit of which there is at least one, or in bytes.
pub open spec fn size_text(
    n: nat,
    giga: nat,
    mega: nat,
    kilo: nat,
    names: (Seq<char>, Seq<char>, Seq<char>),
) -> Seq<char> {
    if n >= giga {
        one_decimal(tenths(n, giga)) + names.0
    } else if n >= mega {
        one_decimal(tenths(n, mega)) + names.1
    } else if n >= kilo {
        one_decimal(tenths(n, kilo)) + names.2
    } else {
        text::decimal(n) + " B"@
    }
}

/// A size in powers of 1024.
pub open spec fn binary_size(n: nat) -> Seq<char> {
    size_text(n, 1073741824, 1048576, 1024, (" GiB"@, " MiB"@, " KiB"@))
}

/// A size in powers of 1000.
pub open spec fn decimal_size(n: nat) -> Seq<char> {
    size_text(n, 1000000000, 1000000, 1000, (" GB"@, " MB"@, " KB"@))
}

proof fn lemma_half_even(x: nat, d: nat)
    requires
        d > 0,
    ensures
        half_even(x, d) * d <= x + d,
        half_even(x, d) >= x / d,
        half_even(x, d) <= x / d + 1,
{
    let q = x / d;
    assert(q * d <= x) by (nonlinear_arith)
        requires
            q == x / d,
            d > 0,
    ;
    let h = half_even(x, d);
    assert(h * d <= q * d + d) by (nonlinear_arith)
        requires
            h <= q + 1,
    ;
}

fn round_half_even(x: u128, d: u128) -> (r: u128)
    requires
        0 < d < 0x4000_0000_0000_0000_0000_0000_0000_0000,
        x < 0x4000_0000_0000_0000_0000_0000_0000_0000,
    ensures
        r == half_even(x as nat, d as nat),
{
    let q: u128 = x / d;
    let m: u128 = x % d;
    proof {
        assert(q <= x) by (nonlinear_arith)
            requires
                q == x / d,
                d > 0,
        ;
    }
    if 2 * m < d || (2 * m == d && q % 2 == 0) {
        q
    } else {
        q + 1
    }
}

proof fn lemma_granule(n: nat)
    ensures
        granule(n) >= 1,
        n < 9007199254740992 * granule(n),
        n >= 9007199254740992 ==> granule(n) * 4503599627370496 <= n,
    decreases n,
{
    if n >= 9007199254740992 {
        lemma_granule(n / 2);
    }
}

fn nearest_double(n: u64) -> (r: u128)
    requires
        n > 0,
    ensures
        r == as_double(n as nat),
        1 <= r <= 0x2_0000_0000_0000_0000,
{
    let mut m: u64 = n;
    let mut g: u128 = 1;
    proof {
        lemma_granule(n as nat);
    }
    while m >= 9007199254740992
        invariant
            granule(n as nat) == g * granule(m as nat),
            granule(n as nat) <= n,
            1 <= g,
        decreases m,
    {
        proof {
            lemma_granule(m as nat);
            assert(granule(m as nat) == 2 * granule((m / 2) as nat));
            lemma_granule((m / 2) as nat);
            assert(2 * g <= n && g * granule(m as nat) == (g * 2) * granule((m / 2) as nat))
                by (nonlinear_arith)
                requires
                    g * granule(m as nat) <= n,
                    granule(m as nat) == 2 * granule((m / 2) as nat),
                    granule((m / 2) as nat) >= 1,
                    g >= 1,
            ;
        }
        m = m / 2;
        g = g * 2;
    }
    proof {
        assert(granule(m as nat) == 1);
        assert(g == granule(n as nat)) by (nonlinear_arith)
            requires
                granule(n as nat) == g * granule(m as nat),
                granule(m as nat) == 1,
        ;
    }
    let q: u128 = round_half_even(n as u128, g);
    proof {
        lemma_half_even(n as nat, g as nat);
        lemma_granule(n as nat);
        let x = n as nat;
        let d = g as nat;
        assert(q >= 1) by (nonlinear_arith)
            requires
                q >= x / d,
                d <= x,
                d >= 1,
        ;
        assert(q * g >= 1 && q * g <= x + d) by (nonlinear_arith)
            requires
                q >= 1,
                g >= 1,
                q * d <= x + d,
                g == d,
        ;
    }
    q * g
}

fn tenths_of(n: u64, f: u64) -> (t: u64)
    requires
        n > 0,
        1000 <= f <= 1073741824,
    ensures
        t == tenths(n as nat, f as nat),
{
    let x: u128 = nearest_double(n);
    let goal: u128 = 4503599627370496 * f as u128;
    let mut y: u128 = x;
    let mut d: u128 = 1;
    while y < goal
        invariant
            1 <= d <= y,
            y == x * d,
            1 <= x,
            goal == 4503599627370496 * f,
            f <= 1073741824,
            y <= 0x2_0000_0000_0000_0000 || y < 2 * goal,
            scaled(x as nat, 1, f as nat) == scaled(y as nat, d as nat, f as nat),
        decreases (if y >= goal {
            0
        } else {
            goal - y
        }),
    {
        proof {
            assert(2 * y == x * (2 * d)) by (nonlinear_arith)
                requires
                    y == x * d,
            ;
        }
        y = 2 * y;
        d = 2 * d;
    }
    let m: u128 = round_half_even(y, f as u128);
    proof {
        assert(scaled(y as nat, d as nat, f as nat) == (y as nat, d as nat));
        lemma_half_even(y as nat, f as nat);
        assert(1000 * m <= y + 1000) by (nonlinear_arith)
            requires
                m * f <= y + f,
                f >= 1000,
                m >= 0,
                y >= 0,
        ;
    }
    let t: u128 = round_half_even(10 * m, d);
    proof {
        lemma_half_even((10 * m) as nat, d as nat);
        assert(t <= x + 1100) by (nonlinear_arith)
            requires
                t * d <= 10 * m + d,
                1000 * m <= y + 1000,
                y == x * d,
                d >= 1,
                x >= 1,
                t >= 0,
        ;
        assert(100 * t <= x + 1100) by (nonlinear_arith)
            requires
                t * d <= 10 * m + d,
                1000 * m <= y + 1000,
                y == x * d,
                d >= 1,
                x >= 1,
                t >= 0,
        ;
    }
    t as u64
}

fn one_decimal_text(t: u64) -> (r: String)
    ensures
        r@ == one_decimal(t as nat),
{
    let mut s = text::decimal_u64(t / 10);
    s.push_str(".");
    s.push_str(text::decimal_u64(t % 10).as_str());
    s
}

fn in_unit(n: u64, f: u64, name: &str) -> (r: String)
    requires
        n > 0,
        1000 <= f <= 1073741824,
    ensures
        r@ == one_decimal(tenths(n as nat, f as nat)) + name@,
{
    let mut s = one_decimal_text(tenths_of(n, f));
    s.push_str(name);
    s
}

/// A size in powers of 1024: `100 B`, `2.0 KiB`, `5.0 MiB`.
pub fn human_bytes(n: u64) -> (r: String)
    ensures
        r@ == binary_size(n as nat),
{
    if n >= 1073741824 {
        in_unit(n, 1073741824, " GiB")
    } else if n >= 1048576 {
        in_unit(n, 1048576, " MiB")
    } else if n >= 1024 {
        in_unit(n, 1024, " KiB")
    } else {
        let mut s = text::decimal_u64(n);
        s.push_str(" B");
        s
    }
}

/// A size in powers of 1000: `42 B`, `1.2 KB`, `3.5 MB`.
pub fn human_bytes_decimal(n: u64) -> (r: String)
    ensures
        r@ == decimal_size(n as nat),
{
    if n >= 1000000000 {
        in_unit(n, 1000000000, " GB")
    } else if n >= 1000000 {
        in_unit(n, 1000000, " MB")
    } else if n >= 1000 {
        in_unit(n, 1000, " KB")
    } else {
        let mut s = text::decimal_u64(n);
        s.push_str(" B");
        s
    }
}

/// A multiple is divided without a rest.
proof fn lemma_half_even_of_multiple(a: nat, d: nat)
    requires
        d > 0,
    ensures
        half_even(a * d, d) == a,
{
    assert((a * d) / d == a && (a * d) % d == 0) by (nonlinear_arith)
        requires
            d > 0,
    ;
}

/// What was doubled together keeps its quotient.
proof fn lemma_scaled(y: nat, d: nat, f: nat, k: nat)
    requires
        f > 0,
        d > 0,
        y == k * d,
    ensures
        scaled(y, d, f).1 > 0,
        scaled(y, d, f).0 == k * scaled(y, d, f).1,
    decreases
            (if y >= 4503599627370496 * f {
                0
            } else {
                4503599627370496 * f - y
            }),
{
    if y == 0 || y >= 4503599627370496 * f {
    } else {
        assert(2 * y == k * (2 * d)) by (nonlinear_arith)
            requires
                y == k * d,
        ;
        lemma_scaled(2 * y, 2 * d, f, k);
    }
}

/// Law: a whole number of units is shown with that number and a zero behind
/// the point.
pub proof fn law_whole_units_are_shown_whole(k: nat, f: nat)
    requires
        f > 0,
        k * f < 9007199254740992,
    ensures
        tenths(k * f, f) == 10 * k,
        one_decimal(10 * k) == text::decimal(k) + seq!['.', '0'],
{
    let n = k * f;
    assert(granule(n) == 1);
    assert(n * 1 == n);
    lemma_half_even_of_multiple(n, 1);
    assert(as_double(n) == n);
    lemma_scaled(n, 1, f, n);
    let (y, d) = scaled(n, 1, f);
    assert(y == (k * d) * f) by (nonlinear_arith)
        requires
            y == n * d,
            n == k * f,
    ;
    lemma_half_even_of_multiple(k * d, f);
    assert(10 * (k * d) == (10 * k) * d) by (nonlinear_arith);
    lemma_half_even_of_multiple(10 * k, d);
    reveal_strlit(".");
    assert(text::decimal(0) =~= seq!['0']);
    assert(one_decimal(10 * k) =~= text::decimal(k) + seq!['.', '0']);
}

/// Law: a size below a kilobyte is given in bytes, and any other in tenths
/// of the largest unit of which there is one.
pub proof fn law_sizes_are_in_their_unit(n: nat, k: nat, r: nat)
    requires
        r < 10,
    ensures
        n < 1024 ==> binary_size(n) == text::decimal(n) + " B"@,
        1024 <= n < 1024 * 1024 ==> binary_size(n) == one_decimal(tenths(n, 1024)) + " KiB"@,
        1024 * 1024 <= n < 1024 * 1024 * 1024 ==> binary_size(n) == one_decimal(
            tenths(n, 1024 * 1024),
        ) + " MiB"@,
        1024 * 1024 * 1024 <= n ==> binary_size(n) == one_decimal(tenths(n, 1024 * 1024 * 1024))
            + " GiB"@,
        n < 1000 ==> decimal_size(n) == text::decimal(n) + " B"@,
        1000 <= n < 1000 * 1000 ==> decimal_size(n) == one_decimal(tenths(n, 1000)) + " KB"@,
        1000 * 1000 <= n < 1000 * 1000 * 1000 ==> decimal_size(n) == one_decimal(
            tenths(n, 1000 * 1000),
        ) + " MB"@,
        1000 * 1000 * 1000 <= n ==> decimal_size(n) == one_decimal(tenths(n, 1000 * 1000 * 1000))
            + " GB"@,
        one_decimal(10 * k + r) == text::decimal(k) + seq!['.'] + seq![text::digit(r)],
{
    reveal_strlit(".");
    assert("."@ =~= seq!['.']);
    assert((10 * k + r) / 10 == k && (10 * k + r) % 10 == r);
    assert(text::decimal(r) == seq![text::digit(r)]);
}

/// A rounded quotient is off by half at most.
proof fn lemma_half_even_is_close(x: nat, d: nat)
    requires
        d > 0,
    ensures
        2 * (half_even(x, d) * d - x) <= d,
        2 * (x - half_even(x, d) * d) <= d,
{
    vstd::arithmetic::div_mod::lemma_fundamental_div_mod(x as int, d as int);
    let q = x / d;
    assert((q + 1) * d == q * d + d) by (nonlinear_arith);
    assert(d * q == q * d) by (nonlinear_arith);
}

/// What was doubled is large enough.
proof fn lemma_scaled_is_large(y: nat, d: nat, f: nat)
    requires
        y > 0,
    ensures
        scaled(y, d, f).0 >= 4503599627370496 * f,
    decreases
            (if y >= 4503599627370496 * f {
                0
            } else {
                4503599627370496 * f - y
            }),
{
    if y >= 4503599627370496 * f {
    } else {
        lemma_scaled_is_large(2 * y, 2 * d, f);
    }
}

/// Law: a size is shown to the nearest tenth of its unit: what is shown is
/// off by no more than half a tenth and ten bytes.
pub proof fn law_sizes_are_shown_to_the_tenth(n: nat, f: nat)
    requires
        f > 0,
        0 < n < 9007199254740992,
    ensures
        2 * (tenths(n, f) * f - 10 * n) <= f + 20,
        2 * (10 * n - tenths(n, f) * f) <= f + 20,
{
    assert(granule(n) == 1);
    assert(n * 1 == n);
    lemma_half_even_of_multiple(n, 1);
    assert(as_double(n) == n);
    lemma_scaled(n, 1, f, n);
    lemma_scaled_is_large(n, 1, f);
    let (y, d) = scaled(n, 1, f);
    let q = half_even(y, f);
    let t = half_even(10 * q, d);
    lemma_half_even_is_close(y, f);
    lemma_half_even_is_close(10 * q, d);
    assert(t == tenths(n, f));
    let e1: int = t * d - 10 * q;
    let e2: int = q * f - y;
    assert(2 * d > f) by (nonlinear_arith)
        requires
            n * d >= 4503599627370496 * f,
            n < 9007199254740992,
            d > 0,
    ;
    assert(d * (t * f - 10 * n) == e1 * f + 10 * e2) by (nonlinear_arith)
        requires
            e1 == t * d - 10 * q,
            e2 == q * f - y,
            y == n * d,
    ;
    let off: int = t * f - 10 * n;
    assert(2 * off <= f + 20) by (nonlinear_arith)
        requires
            d * off == e1 * f + 10 * e2,
            2 * e1 <= d,
            2 * e2 <= f,
            2 * d > f,
            d > 0,
            f > 0,
    ;
    assert(-2 * off <= f + 20) by (nonlinear_arith)
        requires
            d * off == e1 * f + 10 * e2,
            -2 * e1 <= d,
            -2 * e2 <= f,
            2 * d > f,
            d > 0,
            f > 0,
    ;
}

} // verus!
