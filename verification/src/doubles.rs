//! Floating-point numbers of 64 bits, held by their bits, with exact arithmetic in whole
//! numbers.
//!
//! Every finite number of this kind is a whole multiple of its smallest step, 2^-1074.
//! So what an operation gives is stated over natural numbers of steps: the exact result,
//! rounded to the nearest number that the 64 bits can hold, halves to the even one.

use vstd::prelude::*;

use crate::format::rounded;
use crate::numbers::decimal_wide;
use crate::text::concat2;
use crate::text::concat3;
use crate::text::copy_of;

verus! {

/// How many steps the smallest number with a full mantissa has: 2^52.
pub const FULL: u64 = 0x10_0000_0000_0000;

/// The bits of infinity.
pub const INFINITY: u64 = 0x7ff0_0000_0000_0000;

/// The bit that says that a number is negative.
pub const SIGN: u64 = 0x8000_0000_0000_0000;

/// A floating-point number of 64 bits.
#[derive(Clone, Copy, Debug, PartialEq, Eq, Structural)]
pub struct Double {
    pub bits: u64,
}

// ---------------------------------------------------------------------------
// Powers of two
// ---------------------------------------------------------------------------

/// The `k`-th power of two.
pub open spec fn two(k: nat) -> nat
    decreases k,
{
    if k == 0 {
        1
    } else {
        2 * two((k - 1) as nat)
    }
}

proof fn lemma_two_positive(k: nat)
    ensures
        two(k) > 0,
    decreases k,
{
    if k > 0 {
        lemma_two_positive((k - 1) as nat);
    }
}

proof fn lemma_two_sum(a: nat, b: nat)
    ensures
        two(a + b) == two(a) * two(b),
    decreases b,
{
    if b == 0 {
        assert(two(a) * 1 == two(a));
    } else {
        lemma_two_sum(a, (b - 1) as nat);
        let x = two(a);
        let y = two((b - 1) as nat);
        assert(two(a + b) == 2 * two((a + b - 1) as nat));
        assert(2 * (x * y) == x * (2 * y)) by (nonlinear_arith);
    }
}

proof fn lemma_two_grows(a: nat, b: nat)
    requires
        a <= b,
    ensures
        two(a) <= two(b),
    decreases b,
{
    lemma_two_positive(a);
    if a < b {
        lemma_two_grows(a, (b - 1) as nat);
    }
}

proof fn lemma_two_values()
    ensures
        two(52) == FULL,
        two(53) == 2 * FULL,
        two(54) == 4 * FULL,
        two(60) == 0x1000_0000_0000_0000,
        two(61) == 0x2000_0000_0000_0000,
        two(64) == 0x1_0000_0000_0000_0000,
        two(100) == 0x10_0000_0000_0000_0000_0000_0000,
{
    reveal_with_fuel(two, 21);
    assert(two(20) == 0x10_0000);
    assert(two(40) == 0x100_0000_0000) by {
        lemma_two_sum(20, 20);
    }
    assert(two(12) == 0x1000);
    lemma_two_sum(40, 12);
    lemma_two_sum(40, 13);
    lemma_two_sum(40, 14);
    lemma_two_sum(40, 20);
    assert(two(13) == 0x2000);
    assert(two(14) == 0x4000);
    assert(two(61) == 2 * two(60));
    lemma_two_sum(60, 4);
    assert(two(4) == 16);
    lemma_two_sum(60, 40);
}

// ---------------------------------------------------------------------------
// Numbers as steps
// ---------------------------------------------------------------------------

/// By how many powers of two the mantissa counts.
pub open spec fn scale_of(magnitude: nat) -> nat {
    if magnitude < 2 * FULL {
        0
    } else {
        (magnitude / (FULL as nat) - 1) as nat
    }
}

/// The mantissa of a number.
pub open spec fn mantissa_of(magnitude: nat) -> nat {
    if magnitude < 2 * FULL {
        magnitude
    } else {
        magnitude % (FULL as nat) + FULL as nat
    }
}

/// The number of steps of a number without its sign.
pub open spec fn steps(magnitude: nat) -> nat {
    mantissa_of(magnitude) * two(scale_of(magnitude))
}

/// By how many powers of two the mantissa of the number nearest to `n / d` steps counts:
/// as few as let it have 53 bits.
pub open spec fn places(n: nat, d: nat) -> nat
    decreases n - d,
{
    if d == 0 || n < 0x20_0000_0000_0000 * d {
        0
    } else {
        1 + places(n, 2 * d)
    }
}

/// The bits of the number nearest to `n / d` steps, halves to the even one; infinity
/// from there on.
pub open spec fn nearest(n: nat, d: nat) -> nat {
    let k = places(n, d);
    let magnitude = k * FULL as nat + rounded(n, d * two(k));
    if magnitude > INFINITY {
        INFINITY as nat
    } else {
        magnitude
    }
}

proof fn lemma_places(n: nat, d: nat, k: nat)
    requires
        d > 0,
        n < 0x20_0000_0000_0000 * (d * two(k)),
        k == 0 || n >= 0x20_0000_0000_0000 * (d * two((k - 1) as nat)),
    ensures
        places(n, d) == k,
    decreases k,
{
    if k == 0 {
        assert(two(0) == 1);
        assert(d * 1 == d);
    } else {
        let j = (k - 1) as nat;
        lemma_two_positive(j);
        assert(d * two(j) >= d) by (nonlinear_arith)
            requires
                two(j) > 0,
                d > 0,
        ;
        assert((2 * d) * two(j) == d * two(k)) by (nonlinear_arith)
            requires
                two(k) == 2 * two(j),
        ;
        if j > 0 {
            let i = (j - 1) as nat;
            assert((2 * d) * two(i) == d * two(j)) by (nonlinear_arith)
                requires
                    two(j) == 2 * two(i),
            ;
        }
        lemma_places(n, 2 * d, j);
    }
}

proof fn lemma_rounded_scaled(n: nat, d: nat, c: nat)
    requires
        d > 0,
        c > 0,
    ensures
        rounded(n * c, d * c) == rounded(n, d),
{
    let q = n / d;
    let r = n % d;
    assert(n == d * q + r && r < d) by (nonlinear_arith)
        requires
            d > 0,
            q == n / d,
            r == n % d,
    ;
    assert(n * c == (d * c) * q + r * c) by (nonlinear_arith)
        requires
            n == d * q + r,
    ;
    assert(0 <= r * c < d * c) by (nonlinear_arith)
        requires
            r < d,
            c > 0,
    ;
    vstd::arithmetic::div_mod::lemma_fundamental_div_mod_converse(
        (n * c) as int,
        (d * c) as int,
        q as int,
        (r * c) as int,
    );
    assert((2 * r > d) == (2 * (r * c) > d * c)) by (nonlinear_arith)
        requires
            c > 0,
    ;
    assert((2 * r == d) == (2 * (r * c) == d * c)) by (nonlinear_arith)
        requires
            c > 0,
    ;
}

fn round_wide(n: u128, d: u128) -> (out: u128)
    requires
        0 < d <= 0x4000_0000_0000_0000_0000_0000_0000_0000,
        n < 0x4000_0000_0000_0000_0000_0000_0000_0000,
    ensures
        out == rounded(n as nat, d as nat),
{
    let q: u128 = n / d;
    let r: u128 = n % d;
    proof {
        assert(q <= n && r < d) by (nonlinear_arith)
            requires
                q == n / d,
                r == n % d,
                d > 0,
        ;
    }
    if 2 * r > d || (2 * r == d && q % 2 == 1) {
        q + 1
    } else {
        q
    }
}

/// The bits of the number nearest to `a` times the `s`-th power of two over `d` steps.
fn nearest_bits(a: u128, d: u128, s: u32) -> (out: u64)
    requires
        0 < d <= 0x2_0000_0000_0000_0000,
        a < 0x40_0000_0000_0000_0000_0000_0000_0000,
        s <= 4000,
    ensures
        out == nearest(a as nat * two(s as nat), d as nat),
        out <= INFINITY,
{
    let ghost n = a as nat * two(s as nat);
    let mut a = a;
    let mut s = s;
    while s > 0 && a < 0x10_0000_0000_0000 * d
        invariant
            0 < d <= 0x2_0000_0000_0000_0000,
            a < 0x40_0000_0000_0000_0000_0000_0000_0000,
            s <= 4000,
            n == a as nat * two(s as nat),
        decreases s,
    {
        proof {
            assert(a as nat * two(s as nat) == (2 * a) as nat * two((s - 1) as nat)) by (nonlinear_arith)
                requires
                    two(s as nat) == 2 * two((s - 1) as nat),
            ;
        }
        a = 2 * a;
        s = s - 1;
    }
    let mut wide = d;
    let mut i: u32 = 0;
    proof {
        assert(two(0) == 1);
        assert(d as nat * 1 == d);
    }
    while a >= 0x20_0000_0000_0000 * wide
        invariant
            0 < d <= wide <= 0x4_0000_0000_0000_0000,
            wide == d as nat * two(i as nat),
            a < 0x40_0000_0000_0000_0000_0000_0000_0000,
            i > 0 ==> 0x10_0000_0000_0000 * wide <= a,
            i <= 66,
        decreases a - wide,
    {
        proof {
            lemma_two_values();
            lemma_two_positive(i as nat);
            assert(two(i as nat) <= wide) by (nonlinear_arith)
                requires
                    wide == d as nat * two(i as nat),
                    d > 0,
            ;
            assert(two(65) == 2 * two(64));
            if i >= 65 {
                lemma_two_grows(65, i as nat);
            }
            assert(d as nat * (2 * two(i as nat)) == 2 * (d as nat * two(i as nat)))
                by (nonlinear_arith);
            assert(two((i + 1) as nat) == 2 * two(i as nat));
        }
        i = i + 1;
        wide = 2 * wide;
    }
    let mantissa = round_wide(a, wide);
    proof {
        let k = (s + i) as nat;
        let power = two(s as nat);
        lemma_two_positive(s as nat);
        lemma_two_positive(i as nat);
        lemma_two_sum(s as nat, i as nat);
        assert(d as nat * two(k) == wide as nat * power) by (nonlinear_arith)
            requires
                two(k) == power * two(i as nat),
                wide as nat == d as nat * two(i as nat),
        ;
        assert(n < 0x20_0000_0000_0000 * (d as nat * two(k))) by (nonlinear_arith)
            requires
                n == a as nat * power,
                a < 0x20_0000_0000_0000 * wide,
                d as nat * two(k) == wide as nat * power,
                power > 0,
        ;
        if k > 0 {
            let below = two((k - 1) as nat);
            assert(two(k) == 2 * below);
            assert(a >= 0x10_0000_0000_0000 * wide);
            assert(n >= 0x20_0000_0000_0000 * (d as nat * below)) by (nonlinear_arith)
                requires
                    n == a as nat * power,
                    a >= 0x10_0000_0000_0000 * wide,
                    d as nat * (2 * below) == wide as nat * power,
                    power > 0,
            ;
        }
        lemma_places(n, d as nat, k);
        lemma_rounded_scaled(a as nat, wide as nat, power);
        lemma_mantissa_fits(a as nat, wide as nat);
    }
    let magnitude = (s + i) as u64 * FULL + mantissa as u64;
    if magnitude > INFINITY {
        INFINITY
    } else {
        magnitude
    }
}

proof fn lemma_mantissa_fits(n: nat, d: nat)
    requires
        d > 0,
        n < 0x20_0000_0000_0000 * d,
    ensures
        rounded(n, d) <= 0x20_0000_0000_0000,
{
    let q = n / d;
    assert(q < 0x20_0000_0000_0000) by (nonlinear_arith)
        requires
            q == n / d,
            d > 0,
            n < 0x20_0000_0000_0000 * d,
    ;
}

proof fn lemma_places_bounds(n: nat, d: nat)
    requires
        d > 0,
    ensures
        n < 0x20_0000_0000_0000 * (d * two(places(n, d))),
        places(n, d) == 0 || n >= 0x20_0000_0000_0000 * (d * two((places(n, d) - 1) as nat)),
    decreases n - d,
{
    if n < 0x20_0000_0000_0000 * d {
        assert(two(0) == 1);
        assert(d * 1 == d);
    } else {
        lemma_places_bounds(n, 2 * d);
        let j = places(n, 2 * d);
        assert((2 * d) * two(j) == d * two(j + 1)) by (nonlinear_arith)
            requires
                two(j + 1) == 2 * two(j),
        ;
        if j == 0 {
            assert(two(0) == 1);
            assert(d * 1 == d);
        } else {
            let i = (j - 1) as nat;
            assert((2 * d) * two(i) == d * two(j)) by (nonlinear_arith)
                requires
                    two(j) == 2 * two(i),
            ;
        }
    }
}

proof fn lemma_nearest_scaled(n: nat, d: nat, c: nat)
    requires
        d > 0,
        c > 0,
    ensures
        nearest(n * c, d * c) == nearest(n, d),
{
    let k = places(n, d);
    lemma_places_bounds(n, d);
    lemma_two_positive(k);
    assert((d * c) * two(k) == (d * two(k)) * c) by (nonlinear_arith);
    assert(n * c < 0x20_0000_0000_0000 * ((d * c) * two(k))) by (nonlinear_arith)
        requires
            n < 0x20_0000_0000_0000 * (d * two(k)),
            (d * c) * two(k) == (d * two(k)) * c,
            c > 0,
    ;
    if k > 0 {
        let below = two((k - 1) as nat);
        assert((d * c) * below == (d * below) * c) by (nonlinear_arith);
        assert(n * c >= 0x20_0000_0000_0000 * ((d * c) * below)) by (nonlinear_arith)
            requires
                n >= 0x20_0000_0000_0000 * (d * below),
                (d * c) * below == (d * below) * c,
                c > 0,
        ;
    }
    assert(d * c > 0) by (nonlinear_arith)
        requires
            d > 0,
            c > 0,
    ;
    assert(d * two(k) > 0) by (nonlinear_arith)
        requires
            d > 0,
            two(k) > 0,
    ;
    lemma_places(n * c, d * c, k);
    lemma_rounded_scaled(n, d * two(k), c);
}

/// The mantissa and the scale of a number.
fn split(magnitude: u64) -> (out: (u64, u32))
    requires
        magnitude <= INFINITY,
    ensures
        out.0 == mantissa_of(magnitude as nat),
        out.1 == scale_of(magnitude as nat),
        out.0 < 2 * FULL,
        out.1 > 0 ==> out.0 >= FULL,
        out.1 <= 2046,
        magnitude == out.1 * FULL + out.0,
{
    if magnitude < 2 * FULL {
        (magnitude, 0)
    } else {
        (magnitude % FULL + FULL, (magnitude / FULL - 1) as u32)
    }
}

fn power(k: u32) -> (out: u128)
    requires
        k <= 100,
    ensures
        out == two(k as nat),
        0 < out <= 0x10_0000_0000_0000_0000_0000_0000,
{
    let mut out: u128 = 1;
    let mut i: u32 = 0;
    proof {
        lemma_two_values();
    }
    while i < k
        invariant
            i <= k <= 100,
            out == two(i as nat),
            0 < out <= two(100),
            two(100) == 0x10_0000_0000_0000_0000_0000_0000,
        decreases k - i,
    {
        proof {
            lemma_two_grows((i + 1) as nat, 100);
            assert(two((i + 1) as nat) == 2 * two(i as nat));
        }
        out = 2 * out;
        i = i + 1;
    }
    out
}

// ---------------------------------------------------------------------------
// Sums and differences
// ---------------------------------------------------------------------------

/// What is far smaller than a number changes nothing about it.
proof fn lemma_lost(magnitude: nat, small: nat)
    requires
        magnitude <= INFINITY,
        scale_of(magnitude) >= 2,
        4 * small < two(scale_of(magnitude)),
    ensures
        nearest(steps(magnitude) + small, 1) == magnitude,
        nearest((steps(magnitude) - small) as nat, 1) == magnitude,
{
    let s = scale_of(magnitude);
    let m = mantissa_of(magnitude);
    let power = two(s);
    let half = two((s - 1) as nat);
    lemma_two_positive((s - 1) as nat);
    assert(power == 2 * half);
    assert(1 * power == power && 1 * half == half);
    let more = steps(magnitude) + small;
    let less = (steps(magnitude) - small) as nat;
    assert(0x10_0000_0000_0000 <= m < 0x20_0000_0000_0000);
    assert(m * power + power <= 0x20_0000_0000_0000 * power) by (nonlinear_arith)
        requires
            m + 1 <= 0x20_0000_0000_0000,
            power > 0,
    ;
    assert(m * power >= 0x10_0000_0000_0000 * power) by (nonlinear_arith)
        requires
            m >= 0x10_0000_0000_0000,
            power > 0,
    ;
    lemma_places(more, 1, s);
    vstd::arithmetic::div_mod::lemma_fundamental_div_mod_converse(
        more as int,
        power as int,
        m as int,
        small as int,
    );
    assert(magnitude == s * FULL as nat + m);
    if small == 0 {
        assert(more == less);
    } else if m > 0x10_0000_0000_0000 {
        assert((m - 1) * power == m * power - power) by (nonlinear_arith);
        assert((m - 1) * power >= 0x10_0000_0000_0000 * power) by (nonlinear_arith)
            requires
                m - 1 >= 0x10_0000_0000_0000,
                power > 0,
        ;
        lemma_places(less, 1, s);
        vstd::arithmetic::div_mod::lemma_fundamental_div_mod_converse(
            less as int,
            power as int,
            m - 1,
            power - small,
        );
    } else {
        let quarter = two((s - 2) as nat);
        assert(half == 2 * quarter);
        assert(1 * quarter == quarter);
        assert(m * power == 0x20_0000_0000_0000 * half);
        assert(0x20_0000_0000_0000 * half - half == 0x1f_ffff_ffff_ffff * half);
        lemma_places(less, 1, (s - 1) as nat);
        vstd::arithmetic::div_mod::lemma_fundamental_div_mod_converse(
            less as int,
            half as int,
            0x1f_ffff_ffff_ffff,
            half - small,
        );
    }
}

proof fn lemma_far_apart(large: nat, small: nat)
    requires
        large <= INFINITY,
        scale_of(large) > scale_of(small) + 60,
        mantissa_of(small) < 0x20_0000_0000_0000,
    ensures
        4 * steps(small) < two(scale_of(large)),
{
    let s = scale_of(small);
    lemma_two_values();
    lemma_two_sum(s, 60);
    lemma_two_grows(s + 60, scale_of(large));
    lemma_two_positive(s);
    assert(4 * (mantissa_of(small) * two(s)) < two(s) * two(60)) by (nonlinear_arith)
        requires
            4 * mantissa_of(small) < two(60),
            two(s) > 0,
    ;
}

/// The bits of the sum of two numbers without their signs.
fn sum_bits(x: u64, y: u64) -> (out: u64)
    requires
        x <= INFINITY,
        y <= INFINITY,
    ensures
        out == nearest(steps(x as nat) + steps(y as nat), 1),
        out <= INFINITY,
{
    if x < y {
        return sum_bits_of(y, x);
    }
    sum_bits_of(x, y)
}

fn sum_bits_of(x: u64, y: u64) -> (out: u64)
    requires
        y <= x <= INFINITY,
    ensures
        out == nearest(steps(x as nat) + steps(y as nat), 1),
        out <= INFINITY,
{
    let (m, s) = split(x);
    let (n, r) = split(y);
    if s > r + 60 {
        proof {
            lemma_far_apart(x as nat, y as nat);
            lemma_lost(x as nat, steps(y as nat));
        }
        return x;
    }
    let a = aligned(m, s - r);
    proof {
        lemma_aligned(m as nat, s as nat, r as nat, a as nat);
        assert((a + n as nat) * two(r as nat) == a * two(r as nat) + n as nat * two(r as nat))
            by (nonlinear_arith);
    }
    nearest_bits(a + n as u128, 1, r)
}

fn aligned(m: u64, k: u32) -> (out: u128)
    requires
        m < 2 * FULL,
        k <= 60,
    ensures
        out == m as nat * two(k as nat),
        out <= 0x2_0000_0000_0000_0000_0000_0000_0000,
{
    let p = power(k);
    proof {
        lemma_two_values();
        lemma_two_grows(k as nat, 60);
        assert(m as nat * p as nat <= 0x20_0000_0000_0000 * 0x1000_0000_0000_0000)
            by (nonlinear_arith)
            requires
                m < 0x20_0000_0000_0000,
                p <= 0x1000_0000_0000_0000,
        ;
    }
    m as u128 * p
}

proof fn lemma_aligned(m: nat, s: nat, r: nat, a: nat)
    requires
        r <= s,
        a == m * two((s - r) as nat),
    ensures
        a * two(r) == m * two(s),
{
    lemma_two_sum((s - r) as nat, r);
    let p = two((s - r) as nat);
    let q = two(r);
    assert((m * p) * q == m * (p * q)) by (nonlinear_arith);
}

/// The bits of the difference of two numbers without their signs.
fn difference_bits(x: u64, y: u64) -> (out: u64)
    requires
        y <= x <= INFINITY,
    ensures
        steps(y as nat) <= steps(x as nat),
        out == nearest((steps(x as nat) - steps(y as nat)) as nat, 1),
        out <= INFINITY,
{
    let (m, s) = split(x);
    let (n, r) = split(y);
    if s > r + 60 {
        proof {
            lemma_far_apart(x as nat, y as nat);
            lemma_lost(x as nat, steps(y as nat));
            lemma_two_positive(s as nat);
            assert(m as nat * two(s as nat) >= two(s as nat)) by (nonlinear_arith)
                requires
                    m >= 1,
            ;
        }
        return x;
    }
    let a = aligned(m, s - r);
    proof {
        lemma_aligned(m as nat, s as nat, r as nat, a as nat);
        lemma_two_positive(r as nat);
        if s == r {
            assert(two(0) == 1);
            assert(m as nat * 1 == m);
            assert(a >= n);
        } else {
            let p = two((s - r) as nat);
            lemma_two_grows(1, (s - r) as nat);
            assert(two(1) == 2) by {
                assert(two(0) == 1);
            }
            assert(m as nat * p >= 2 * m) by (nonlinear_arith)
                requires
                    p >= 2,
            ;
        }
        assert((a - n as nat) * two(r as nat) == a * two(r as nat) - n as nat * two(r as nat))
            by (nonlinear_arith);
        assert(n as nat * two(r as nat) <= a * two(r as nat)) by (nonlinear_arith)
            requires
                n <= a,
        ;
    }
    nearest_bits(a - n as u128, 1, r)
}

// ---------------------------------------------------------------------------
// Numbers
// ---------------------------------------------------------------------------

/// The bits of what is no number.
pub const NAN: u64 = 0x7ff8_0000_0000_0000;

/// The bits of one hundred.
pub const HUNDRED: u64 = 0x4059_0000_0000_0000;

/// How many steps one has: the 1074th power of two.
pub open spec fn one() -> nat {
    two(1074)
}

impl Double {
    /// The bits without the sign.
    pub open spec fn magnitude(self) -> nat {
        if self.bits >= SIGN {
            (self.bits - SIGN) as nat
        } else {
            self.bits as nat
        }
    }

    /// Whether the sign is set.
    pub open spec fn is_negative(self) -> bool {
        self.bits >= SIGN
    }

    /// Whether it is no number.
    pub open spec fn is_nan(self) -> bool {
        self.magnitude() > INFINITY
    }

    /// A whole number that orders numbers by their value.
    pub open spec fn rank(self) -> int {
        if self.is_negative() {
            -(self.magnitude() as int)
        } else {
            self.magnitude() as int
        }
    }

    /// The number with given bits and a sign.
    pub open spec fn signed(negative: bool, magnitude: nat) -> Double {
        Double {
            bits: if negative {
                (magnitude + SIGN) as u64
            } else {
                magnitude as u64
            },
        }
    }

    /// The sum of two numbers.
    pub open spec fn sum(self, other: Double) -> Double {
        let (large, small) = if self.magnitude() >= other.magnitude() {
            (self, other)
        } else {
            (other, self)
        };
        if large.is_nan() {
            Double { bits: NAN }
        } else if self.is_negative() == other.is_negative() {
            Double::signed(
                self.is_negative(),
                nearest(steps(self.magnitude()) + steps(other.magnitude()), 1),
            )
        } else if large.magnitude() == small.magnitude() {
            if large.magnitude() == INFINITY {
                Double { bits: NAN }
            } else {
                Double { bits: 0 }
            }
        } else if large.magnitude() == INFINITY {
            large
        } else {
            Double::signed(
                large.is_negative(),
                nearest((steps(large.magnitude()) - steps(small.magnitude())) as nat, 1),
            )
        }
    }

    fn parts(self) -> (out: (bool, u64))
        ensures
            out.0 == self.is_negative(),
            out.1 == self.magnitude(),
            out.1 < SIGN,
    {
        if self.bits >= SIGN {
            (true, self.bits - SIGN)
        } else {
            (false, self.bits)
        }
    }

    fn of_parts(negative: bool, magnitude: u64) -> (out: Double)
        requires
            magnitude < SIGN,
        ensures
            out == Double::signed(negative, magnitude as nat),
    {
        if negative {
            Double { bits: magnitude + SIGN }
        } else {
            Double { bits: magnitude }
        }
    }

    /// A whole number that orders numbers by their value.
    pub fn order(self) -> (out: i64)
        ensures
            out == self.rank(),
    {
        let (negative, magnitude) = self.parts();
        if negative {
            -(magnitude as i64)
        } else {
            magnitude as i64
        }
    }

    /// The number nearest to `n`.
    pub fn of_count(n: u64) -> (out: Double)
        ensures
            out.bits == nearest(n as nat * one(), 1),
            out.bits <= INFINITY,
    {
        Double { bits: nearest_bits(n as u128, 1, 1074) }
    }

    /// The sum of two numbers.
    pub fn plus(self, other: Double) -> (out: Double)
        ensures
            out == self.sum(other),
    {
        let (a_negative, a) = self.parts();
        let (b_negative, b) = other.parts();
        if a > INFINITY || b > INFINITY {
            return Double { bits: NAN };
        }
        if a_negative == b_negative {
            return Double::of_parts(a_negative, sum_bits(a, b));
        }
        if a == b {
            return if a == INFINITY {
                Double { bits: NAN }
            } else {
                Double { bits: 0 }
            };
        }
        if a > b {
            if a == INFINITY {
                self
            } else {
                Double::of_parts(a_negative, difference_bits(a, b))
            }
        } else {
            if b == INFINITY {
                other
            } else {
                Double::of_parts(b_negative, difference_bits(b, a))
            }
        }
    }
}

/// The bits of a number times a small count.
fn times_bits(x: u64, k: u64) -> (out: u64)
    requires
        x <= INFINITY,
        k <= 1000,
    ensures
        out == nearest(steps(x as nat) * k as nat, 1),
        out <= INFINITY,
{
    let (m, s) = split(x);
    proof {
        assert(m as nat * k as nat <= 0x20_0000_0000_0000 * 1000) by (nonlinear_arith)
            requires
                m < 0x20_0000_0000_0000,
                k <= 1000,
        ;
        assert((m as nat * two(s as nat)) * k as nat == (m as nat * k as nat) * two(s as nat))
            by (nonlinear_arith);
    }
    nearest_bits(m as u128 * k as u128, 1, s)
}

/// The bits of a number over a small count.
fn over_bits(x: u64, k: u64) -> (out: u64)
    requires
        x <= INFINITY,
        0 < k,
    ensures
        out == nearest(steps(x as nat), k as nat),
        out <= INFINITY,
{
    let (m, s) = split(x);
    nearest_bits(m as u128, k as u128, s)
}

// ---------------------------------------------------------------------------
// Percentages
// ---------------------------------------------------------------------------

/// What `n` counts of a total are in percent: the count times one hundred, over the
/// total, each rounded to a number on the way.
pub open spec fn percentage(n: nat, total: nat) -> nat {
    let part = nearest(steps(nearest(n * one(), 1)) * 100, 1);
    nearest(steps(part) * one(), steps(nearest(total * one(), 1)))
}

impl Double {
    /// The number with the other sign.
    pub open spec fn negated(self) -> Double {
        Double::signed(!self.is_negative(), self.magnitude())
    }

    /// The number, or the nearest bound where it lies outside of nothing and one
    /// hundred.
    pub open spec fn within_percent(self) -> Double {
        if self.is_nan() {
            self
        } else if self.rank() < 0 {
            Double { bits: 0 }
        } else if self.rank() > HUNDRED {
            Double { bits: HUNDRED }
        } else {
            self
        }
    }

    /// What is left of one hundred percent where this much is used.
    pub open spec fn left(self) -> Double {
        (Double { bits: HUNDRED }).sum(self.within_percent().negated())
    }

    /// One hundred times the number.
    pub open spec fn hundredfold(self) -> Double {
        if self.is_nan() {
            Double { bits: NAN }
        } else {
            Double::signed(self.is_negative(), nearest(steps(self.magnitude()) * 100, 1))
        }
    }

    /// Whether it is a number that is nothing or less.
    pub open spec fn is_not_positive(self) -> bool {
        !self.is_nan() && self.rank() <= 0
    }

    /// Whether it is a number that is nothing or less.
    pub fn not_positive(self) -> (out: bool)
        ensures
            out == self.is_not_positive(),
    {
        let (negative, magnitude) = self.parts();
        magnitude <= INFINITY && (negative || magnitude == 0)
    }

    /// Whether it is a smaller number.
    pub open spec fn is_less(self, other: Double) -> bool {
        !self.is_nan() && !other.is_nan() && self.rank() < other.rank()
    }

    /// Whether it is a smaller number.
    pub fn less(self, other: Double) -> (out: bool)
        ensures
            out == self.is_less(other),
    {
        let (_, a) = self.parts();
        let (_, b) = other.parts();
        a <= INFINITY && b <= INFINITY && self.order() < other.order()
    }

    /// The number, or the nearest bound where it lies outside of nothing and one
    /// hundred.
    pub fn clamp_percent(self) -> (out: Double)
        ensures
            out == self.within_percent(),
    {
        let (negative, magnitude) = self.parts();
        if magnitude > INFINITY {
            self
        } else if negative && magnitude > 0 {
            Double { bits: 0 }
        } else if magnitude > HUNDRED {
            Double { bits: HUNDRED }
        } else {
            self
        }
    }

    /// What is left of one hundred percent where this much is used.
    pub fn left_of_percent(self) -> (out: Double)
        ensures
            out == self.left(),
    {
        let (negative, magnitude) = self.clamp_percent().parts();
        (Double { bits: HUNDRED }).plus(Double::of_parts(!negative, magnitude))
    }

    /// One hundred times the number.
    pub fn in_hundredths(self) -> (out: Double)
        ensures
            out == self.hundredfold(),
    {
        let (negative, magnitude) = self.parts();
        if magnitude > INFINITY {
            Double { bits: NAN }
        } else {
            Double::of_parts(negative, times_bits(magnitude, 100))
        }
    }

    /// How many of `width` cells a percentage fills: the nearest number, the larger one
    /// of two, and none where it is no number.
    pub open spec fn filled(self, width: nat) -> nat {
        let part = self.within_percent();
        let share = nearest(steps(nearest(steps(part.magnitude()), 100)) * width, 1);
        let cells = (2 * steps(share) + one()) / (2 * one());
        if part.is_nan() {
            0
        } else if cells > width {
            width
        } else {
            cells
        }
    }

    /// How many of `width` cells a percentage fills.
    pub fn cells(self, width: u64) -> (out: u64)
        requires
            width <= 1000,
        ensures
            out == self.filled(width as nat),
    {
        let (_, magnitude) = self.clamp_percent().parts();
        if magnitude > INFINITY {
            return 0;
        }
        let share = times_bits(over_bits(magnitude, 100), width);
        let (m, s) = split(share);
        let ghost n = 2 * steps(share as nat) + one();
        proof {
            lemma_two_positive(1074);
            lemma_two_positive(s as nat);
        }
        if s >= 1074 {
            proof {
                lemma_two_grows(1074, s as nat);
                assert(steps(share as nat) >= 0x10_0000_0000_0000 * one()) by (nonlinear_arith)
                    requires
                        steps(share as nat) == m as nat * two(s as nat),
                        m >= 0x10_0000_0000_0000,
                        two(s as nat) >= one(),
                ;
                assert(n / (2 * one()) >= 1000) by (nonlinear_arith)
                    requires
                        n >= 0x20_0000_0000_0000 * one(),
                        one() > 0,
                ;
            }
            return width;
        }
        let t = 1074 - s;
        let ghost p = two(t as nat);
        proof {
            lemma_two_positive(t as nat);
            lemma_two_sum(t as nat, s as nat);
            let q = two(s as nat);
            assert(n == q * (2 * m + p)) by (nonlinear_arith)
                requires
                    n == 2 * (m as nat * q) + one(),
                    one() == p * q,
            ;
            assert(2 * one() == q * (2 * p)) by (nonlinear_arith)
                requires
                    one() == p * q,
            ;
            vstd::arithmetic::div_mod::lemma_div_multiples_vanish_quotient(
                q as int,
                2 * m + p,
                2 * p as int,
            );
        }
        let cells: u128 = if t > 100 {
            proof {
                lemma_two_values();
                lemma_two_grows(100, t as nat);
                vstd::arithmetic::div_mod::lemma_fundamental_div_mod_converse(
                    2 * m + p,
                    2 * p as int,
                    0,
                    2 * m + p,
                );
            }
            0
        } else {
            let wide = power(t);
            (2 * (m as u128) + wide) / (2 * wide)
        };
        if cells > width as u128 {
            width
        } else {
            cells as u64
        }
    }
}

proof fn lemma_count_scale(n: u64)
    requires
        n > 0,
    ensures
        1022 <= scale_of(nearest(n as nat * one(), 1)) <= 1086,
        nearest(n as nat * one(), 1) < INFINITY,
        mantissa_of(nearest(n as nat * one(), 1)) >= FULL,
{
    lemma_two_values();
    let x = n as nat * one();
    let k = places(x, 1);
    lemma_places_bounds(x, 1);
    assert(1 * two(k) == two(k));
    lemma_two_sum(53, 1021);
    assert(one() == 0x20_0000_0000_0000 * two(1021));
    assert(x >= one()) by (nonlinear_arith)
        requires
            x == n as nat * one(),
            n >= 1,
    ;
    assert(k >= 1022) by {
        if k < 1022 {
            lemma_two_grows(k, 1021);
        }
    }
    lemma_two_sum(64, 1074);
    lemma_two_sum(53, 1085);
    assert(x < two(64) * one()) by (nonlinear_arith)
        requires
            x == n as nat * one(),
            n < two(64),
            one() > 0,
    {
        lemma_two_positive(1074);
    }
    assert(k <= 1085) by {
        if k > 1085 {
            assert(1 * two((k - 1) as nat) == two((k - 1) as nat));
            lemma_two_grows(1085, (k - 1) as nat);
        }
    }
    lemma_two_positive(k);
    lemma_mantissa_fits(x, two(k));
    let m = rounded(x, two(k));
    let below = two((k - 1) as nat);
    assert(1 * below == below);
    assert(x / two(k) >= 0x10_0000_0000_0000) by (nonlinear_arith)
        requires
            x >= 0x20_0000_0000_0000 * below,
            two(k) == 2 * below,
            below > 0,
    ;
}

proof fn lemma_scale_of_nearest(n: nat, d: nat)
    requires
        d > 0,
        0 < places(n, d),
    ensures
        nearest(n, d) == INFINITY || scale_of(nearest(n, d)) >= places(n, d),
{
    let k = places(n, d);
    lemma_places_bounds(n, d);
    let wide = d * two(k);
    let below = d * two((k - 1) as nat);
    lemma_two_positive((k - 1) as nat);
    assert(below > 0) by (nonlinear_arith)
        requires
            below == d * two((k - 1) as nat),
            d > 0,
            two((k - 1) as nat) > 0,
    ;
    assert(wide == 2 * below) by (nonlinear_arith)
        requires
            wide == d * two(k),
            below == d * two((k - 1) as nat),
            two(k) == 2 * two((k - 1) as nat),
    ;
    assert(n / wide >= 0x10_0000_0000_0000) by (nonlinear_arith)
        requires
            n >= 0x20_0000_0000_0000 * below,
            wide == 2 * below,
            below > 0,
    ;
}

/// What `n` counts of a total are in percent.
pub fn percent_of(n: u64, total: u64) -> (out: Double)
    requires
        total > 0,
    ensures
        out.bits == percentage(n as nat, total as nat),
        out.bits <= INFINITY,
{
    let count = Double::of_count(n).bits;
    let part = times_bits(count, 100);
    let whole = Double::of_count(total).bits;
    let (m, s) = split(part);
    let (w, r) = split(whole);
    proof {
        lemma_count_scale(total);
    }
    if n == 0 {
        proof {
            let all = steps(whole as nat);
            assert(0 * one() == 0);
            assert(count == 0);
            lemma_no_steps();
            assert(part == 0);
            lemma_two_positive(r as nat);
            assert(all > 0) by (nonlinear_arith)
                requires
                    all == w as nat * two(r as nat),
                    w > 0,
                    two(r as nat) > 0,
            ;
            lemma_zero(all);
        }
        return Double { bits: 0 };
    }
    proof {
        lemma_count_scale(n);
        let a = scale_of(count as nat);
        let x = steps(count as nat) * 100;
        let k = places(x, 1);
        lemma_places_bounds(x, 1);
        lemma_two_positive(a);
        assert(1 * two(k) == two(k));
        assert(x >= 0x20_0000_0000_0000 * two(a)) by (nonlinear_arith)
            requires
                x == (mantissa_of(count as nat) * two(a)) * 100,
                mantissa_of(count as nat) >= 0x10_0000_0000_0000,
        ;
        assert(k > a) by {
            if k <= a {
                lemma_two_grows(k, a);
            }
        }
        lemma_scale_of_nearest(x, 1);
        let q = (s + 1074 - r) as nat;
        let power = two(r as nat);
        lemma_two_positive(r as nat);
        lemma_two_sum(s as nat, 1074);
        lemma_two_sum(q, r as nat);
        assert((m as nat * two(s as nat)) * one() == (m as nat * two(q)) * power)
            by (nonlinear_arith)
            requires
                two(s as nat) * one() == two(q) * power,
        ;
        lemma_nearest_scaled(m as nat * two(q), w as nat, power);
    }
    Double { bits: nearest_bits(m as u128, w as u128, s + 1074 - r) }
}

proof fn lemma_no_steps()
    ensures
        steps(0) == 0,
{
    assert(0 * two(0) == 0) by (nonlinear_arith);
}

proof fn lemma_zero(d: nat)
    requires
        d > 0,
    ensures
        nearest(0, d) == 0,
{
    assert(two(0) == 1);
    assert(d * 1 == d);
}

// ---------------------------------------------------------------------------
// Weighted counts
// ---------------------------------------------------------------------------

/// The bits of the number nearest to 0.35.
pub const THIRTY_FIVE_HUNDREDTHS: u64 = 0x3fd6_6666_6666_6666;

/// A count times the number nearest to 0.35.
pub open spec fn weighted(n: nat) -> nat {
    nearest(
        steps(nearest(n * one(), 1)) * steps(THIRTY_FIVE_HUNDREDTHS as nat),
        one(),
    )
}

/// A count times the number nearest to 0.35.
pub fn weighted_count(n: u64) -> (out: Double)
    ensures
        out.bits == weighted(n as nat),
        out.bits <= INFINITY,
{
    let count = Double::of_count(n).bits;
    let (m, s) = split(count);
    let (w, r) = split(THIRTY_FIVE_HUNDREDTHS);
    if n == 0 {
        proof {
            assert(0 * one() == 0);
            assert(count == 0);
            lemma_no_steps();
            assert(0 * steps(THIRTY_FIVE_HUNDREDTHS as nat) == 0);
            lemma_two_positive(1074);
            lemma_zero(one());
        }
        return Double { bits: 0 };
    }
    proof {
        lemma_count_scale(n);
        assert(r == 1020);
        let q = (s - 54) as nat;
        lemma_two_positive(1074);
        lemma_two_sum(s as nat, r as nat);
        lemma_two_sum(q, 1074);
        let a = m as nat * w as nat;
        assert(a < 0x20_0000_0000_0000 * 0x20_0000_0000_0000) by (nonlinear_arith)
            requires
                a == m as nat * w as nat,
                m < 0x20_0000_0000_0000,
                w < 0x20_0000_0000_0000,
        ;
        assert((m as nat * two(s as nat)) * (w as nat * two(r as nat)) == (a * two(q)) * one())
            by (nonlinear_arith)
            requires
                a == m as nat * w as nat,
                two(s as nat) * two(r as nat) == two(q) * one(),
        ;
        assert(1 * one() == one());
        lemma_nearest_scaled(a * two(q), 1, one());
    }
    Double { bits: nearest_bits(m as u128 * w as u128, 1, s - 54) }
}

// ---------------------------------------------------------------------------
// Text
// ---------------------------------------------------------------------------

/// `n` units of the last decimal as text.
pub open spec fn decimals_of(n: nat, decimals: int) -> Seq<char> {
    if decimals == 0 {
        crate::numbers::decimal_of(n)
    } else if decimals == 1 {
        crate::format::tenths_of(n)
    } else {
        crate::format::hundredths_of(n)
    }
}

/// How many units of the last decimal one has.
pub open spec fn unit_count(decimals: int) -> nat {
    if decimals == 0 {
        1
    } else if decimals == 1 {
        10
    } else {
        100
    }
}

/// A number without its sign as text, with up to two decimals: the exact number,
/// rounded, halves to the even digit.
pub open spec fn magnitude_text(magnitude: nat, decimals: int) -> Seq<char> {
    if magnitude == INFINITY {
        "inf"@
    } else {
        decimals_of(rounded(steps(magnitude) * unit_count(decimals), one()), decimals)
    }
}

impl Double {
    /// The number as text, with up to two decimals.
    pub open spec fn form(self, decimals: int) -> Seq<char> {
        if self.is_nan() {
            "NaN"@
        } else if self.is_negative() {
            "-"@ + magnitude_text(self.magnitude(), decimals)
        } else {
            magnitude_text(self.magnitude(), decimals)
        }
    }

    /// The number as text, with up to two decimals.
    pub fn text(self, decimals: u8) -> (out: String)
        requires
            decimals <= 2,
        ensures
            out@ == self.form(decimals as int),
    {
        let (negative, magnitude) = self.parts();
        if magnitude > INFINITY {
            return copy_of("NaN");
        }
        let text = if magnitude == INFINITY {
            copy_of("inf")
        } else {
            finite_text(magnitude, decimals)
        };
        if negative {
            concat2("-", text.as_str())
        } else {
            text
        }
    }
}

fn decimals_text(n: u128, decimals: u8) -> (out: String)
    requires
        decimals <= 2,
    ensures
        out@ == decimals_of(n as nat, decimals as int),
{
    if decimals == 0 {
        decimal_wide(n)
    } else if decimals == 1 {
        crate::format::tenths_text(n)
    } else {
        crate::format::hundredths_text(n)
    }
}

fn finite_text(magnitude: u64, decimals: u8) -> (out: String)
    requires
        magnitude < INFINITY,
        decimals <= 2,
    ensures
        out@ == magnitude_text(magnitude as nat, decimals as int),
{
    let (m, s) = split(magnitude);
    let count: u64 = if decimals == 0 {
        1
    } else if decimals == 1 {
        10
    } else {
        100
    };
    let ghost c = unit_count(decimals as int);
    let ghost n = steps(magnitude as nat) * c;
    proof {
        assert(m as nat * count as nat <= 0x20_0000_0000_0000 * 100) by (nonlinear_arith)
            requires
                m < 0x20_0000_0000_0000,
                count <= 100,
        ;
    }
    let a = m as u128 * count as u128;
    proof {
        assert(n == a as nat * two(s as nat)) by (nonlinear_arith)
            requires
                n == (m as nat * two(s as nat)) * c,
                a == m as nat * c,
        ;
        lemma_two_positive(s as nat);
    }
    if s >= 1074 {
        let k = s - 1074;
        proof {
            lemma_two_positive(1074);
            lemma_two_positive(k as nat);
            lemma_two_sum(k as nat, 1074);
            let whole = a as nat * two(k as nat);
            assert(n == whole * one()) by (nonlinear_arith)
                requires
                    n == a as nat * two(s as nat),
                    two(s as nat) == two(k as nat) * one(),
                    whole == a as nat * two(k as nat),
            ;
            assert(1 * one() == one());
            lemma_rounded_scaled(whole, 1, one());
            assert(rounded(whole, 1) == whole);
            assert(whole == (m as nat * two(k as nat)) * c) by (nonlinear_arith)
                requires
                    whole == a as nat * two(k as nat),
                    a == m as nat * c,
            ;
        }
        let digits = big_decimal(m, k);
        return whole_text(digits, decimals, Ghost(m as nat * two(k as nat)));
    }
    let t = 1074 - s;
    proof {
        lemma_two_positive(t as nat);
        lemma_two_sum(t as nat, s as nat);
        lemma_rounded_scaled(a as nat, two(t as nat), two(s as nat));
    }
    if t > 100 {
        proof {
            lemma_two_values();
            lemma_two_grows(100, t as nat);
            vstd::arithmetic::div_mod::lemma_fundamental_div_mod_converse(
                a as int,
                two(t as nat) as int,
                0,
                a as int,
            );
        }
        return decimals_text(0, decimals);
    }
    decimals_text(round_wide(a, power(t)), decimals)
}

fn whole_text(digits: String, decimals: u8, Ghost(n): Ghost<nat>) -> (out: String)
    requires
        digits@ == crate::numbers::decimal_of(n),
        decimals <= 2,
    ensures
        out@ == decimals_of(n * unit_count(decimals as int), decimals as int),
{
    if decimals == 0 {
        proof {
            assert(n * 1 == n);
        }
        digits
    } else if decimals == 1 {
        proof {
            assert((n * 10) / 10 == n && (n * 10) % 10 == 0);
            reveal_strlit("0");
            assert("0"@ =~= crate::numbers::decimal_of(0));
        }
        concat3(digits.as_str(), ".", "0")
    } else {
        let zeros = crate::format::two_digits(0);
        proof {
            assert((n * 100) / 100 == n && (n * 100) % 100 == 0);
        }
        concat3(digits.as_str(), ".", zeros.as_str())
    }
}

/// The decimal digits of `m` times the `k`-th power of two.
fn big_decimal(m: u64, k: u32) -> (out: String)
    ensures
        out@ == crate::numbers::decimal_of(m as nat * two(k as nat)),
{
    let mut digits: Vec<char> = crate::text::chars_of(decimal_wide(m as u128).as_str());
    let mut i: u32 = 0;
    let ghost mut n = m as nat;
    proof {
        assert(two(0) == 1);
        assert(m as nat * 1 == m);
    }
    while i < k
        invariant
            i <= k,
            n == m as nat * two(i as nat),
            digits@ == crate::numbers::decimal_of(n),
        decreases k - i,
    {
        proof {
            assert(digits@.take(digits@.len() as int) =~= digits@);
        }
        digits = doubled(&digits, digits.len(), false, Ghost(n));
        proof {
            assert(digits@ == crate::numbers::decimal_of(2 * n));
            assert(2 * (m as nat * two(i as nat)) == m as nat * (2 * two(i as nat)))
                by (nonlinear_arith);
            assert(two((i + 1) as nat) == 2 * two(i as nat));
            n = 2 * n;
        }
        i = i + 1;
    }
    crate::text::string_of(&digits)
}

/// The digits of twice the number that the first `end` digits make, and one more where
/// something was carried.
fn doubled(digits: &Vec<char>, end: usize, carry: bool, Ghost(n): Ghost<nat>) -> (out: Vec<char>)
    requires
        0 < end <= digits.len(),
        digits@.take(end as int) == crate::numbers::decimal_of(n),
    ensures
        out@ == crate::numbers::decimal_of(2 * n + if carry {
            1nat
        } else {
            0
        }),
    decreases end,
{
    let last = digits[end - 1];
    let ghost c: nat = if carry {
        1
    } else {
        0
    };
    proof {
        assert(digits@.take(end as int).last() == last);
        assert(last == crate::numbers::digit_char(n % 10));
    }
    let value: u64 = (last as u32 - 48) as u64;
    let twice: u64 = 2 * value + if carry {
        1
    } else {
        0
    };
    let mut out: Vec<char>;
    if end == 1 {
        proof {
            if n >= 10 {
                lemma_decimal_len(n / 10);
                assert(crate::numbers::decimal_of(n).len() >= 2);
            }
        }
        out = crate::text::chars_of(decimal_wide(twice as u128).as_str());
    } else {
        proof {
            if n < 10 {
                assert(crate::numbers::decimal_of(n).len() == 1);
            }
            assert(digits@.take(end - 1) =~= digits@.take(end as int).drop_last());
            assert(crate::numbers::decimal_of(n).drop_last() =~= crate::numbers::decimal_of(n / 10));
        }
        out = doubled(digits, end - 1, twice >= 10, Ghost(n / 10));
        out.push(crate::numbers::digit(twice % 10));
    }
    out
}

proof fn lemma_decimal_len(n: nat)
    ensures
        crate::numbers::decimal_of(n).len() > 0,
{
}

// ---------------------------------------------------------------------------
// Order
// ---------------------------------------------------------------------------

/// Larger bits without a sign are of a number with no fewer steps.
pub proof fn steps_grow(x: nat, y: nat)
    requires
        x <= y,
    ensures
        steps(x) <= steps(y),
{
    let a = scale_of(x);
    let b = scale_of(y);
    let m = mantissa_of(x);
    let n = mantissa_of(y);
    lemma_two_positive(a);
    if y >= 0x20_0000_0000_0000 {
        assert(n >= 0x10_0000_0000_0000);
    }
    if a == b {
        assert(m <= n);
        assert(m * two(a) <= n * two(a)) by (nonlinear_arith)
            requires
                m <= n,
        ;
    } else {
        assert(a < b);
        lemma_two_grows(a + 1, b);
        assert(two(a + 1) == 2 * two(a));
        assert(m * two(a) <= n * two(b)) by (nonlinear_arith)
            requires
                m <= 0x20_0000_0000_0000,
                n >= 0x10_0000_0000_0000,
                two(b) >= 2 * two(a),
                two(a) > 0,
        ;
    }
}

proof fn lemma_rounded_grows(n: nat, p: nat, d: nat)
    requires
        d > 0,
        n <= p,
    ensures
        rounded(n, d) <= rounded(p, d),
{
    vstd::arithmetic::div_mod::lemma_div_is_ordered(n as int, p as int, d as int);
    vstd::arithmetic::div_mod::lemma_fundamental_div_mod(n as int, d as int);
    vstd::arithmetic::div_mod::lemma_fundamental_div_mod(p as int, d as int);
}

/// Of more steps the nearest number is no smaller.
pub proof fn nearest_grows(n: nat, p: nat, d: nat)
    requires
        d > 0,
        n <= p,
    ensures
        nearest(n, d) <= nearest(p, d),
{
    let a = places(n, d);
    let b = places(p, d);
    lemma_places_bounds(n, d);
    lemma_places_bounds(p, d);
    lemma_two_positive(a);
    lemma_two_positive(b);
    assert(a <= b) by {
        if a > b {
            lemma_two_grows(b, (a - 1) as nat);
            assert(d * two(b) <= d * two((a - 1) as nat)) by (nonlinear_arith)
                requires
                    two(b) <= two((a - 1) as nat),
            ;
        }
    }
    let x = d * two(a);
    let y = d * two(b);
    assert(x > 0 && y > 0) by (nonlinear_arith)
        requires
            x == d * two(a),
            y == d * two(b),
            d > 0,
            two(a) > 0,
            two(b) > 0,
    ;
    if a == b {
        lemma_rounded_grows(n, p, x);
    } else {
        lemma_mantissa_fits(n, x);
        let below = d * two((b - 1) as nat);
        lemma_two_positive((b - 1) as nat);
        assert(below > 0) by (nonlinear_arith)
            requires
                below == d * two((b - 1) as nat),
                d > 0,
                two((b - 1) as nat) > 0,
        ;
        assert(y == 2 * below) by (nonlinear_arith)
            requires
                y == d * two(b),
                below == d * two((b - 1) as nat),
                two(b) == 2 * two((b - 1) as nat),
        ;
        assert(p / y >= 0x10_0000_0000_0000) by (nonlinear_arith)
            requires
                p >= 0x20_0000_0000_0000 * below,
                y == 2 * below,
                below > 0,
        ;
    }
}

/// The more is left, the more cells of a bar are filled: none where nothing is left, all
/// where everything is.
pub proof fn bars_grow(x: Double, y: Double, width: nat)
    requires
        x.bits <= y.bits <= HUNDRED,
    ensures
        x.filled(width) <= y.filled(width) <= width,
        (Double { bits: 0 }).filled(width) == 0,
        (Double { bits: HUNDRED }).filled(20) == 20,
{
    lemma_two_positive(1074);
    let a = x.bits as nat;
    let b = y.bits as nat;
    steps_grow(a, b);
    let p = nearest(steps(a), 100);
    let q = nearest(steps(b), 100);
    nearest_grows(steps(a), steps(b), 100);
    steps_grow(p, q);
    assert(steps(p) * width <= steps(q) * width) by (nonlinear_arith)
        requires
            steps(p) <= steps(q),
    ;
    let r = nearest(steps(p) * width, 1);
    let s = nearest(steps(q) * width, 1);
    nearest_grows(steps(p) * width, steps(q) * width, 1);
    steps_grow(r, s);
    vstd::arithmetic::div_mod::lemma_div_is_ordered(
        (2 * steps(r) + one()) as int,
        (2 * steps(s) + one()) as int,
        2 * one() as int,
    );
    lemma_no_steps();
    lemma_zero(100);
    lemma_zero(1);
    assert(0 * width == 0);
    vstd::arithmetic::div_mod::lemma_fundamental_div_mod_converse(
        one() as int,
        2 * one() as int,
        0,
        one() as int,
    );
    lemma_full_bar();
}

proof fn lemma_hundred()
    ensures
        steps(HUNDRED as nat) == 100 * one(),
        nearest(100 * one(), 1) == HUNDRED,
        scale_of(HUNDRED as nat) == 1028,
{
    lemma_two_values();
    let hundred = HUNDRED as nat;
    reveal_with_fuel(two, 51);
    lemma_two_sum(46, 1028);
    assert(two(46) == 0x4000_0000_0000);
    assert(scale_of(hundred) == 1028);
    assert(mantissa_of(hundred) == 100 * two(46));
    assert(steps(hundred) == 100 * one()) by (nonlinear_arith)
        requires
            steps(hundred) == (100 * two(46)) * two(1028),
            one() == two(46) * two(1028),
    ;
    lemma_two_positive(1028);
    lemma_lost(hundred, 0);
}

/// What is left of one hundred percent is the number nearest to one hundred less what is
/// used: all where nothing is used, nothing where all is, and never more where more is
/// used.
pub proof fn what_is_left_is_the_rest(x: Double, y: Double)
    requires
        x.bits <= y.bits <= HUNDRED,
    ensures
        x.left().bits == nearest((100 * one() - steps(x.bits as nat)) as nat, 1),
        y.left().bits <= x.left().bits <= HUNDRED,
        (Double { bits: 0 }).left().bits == HUNDRED,
        (Double { bits: HUNDRED }).left().bits == 0,
{
    lemma_hundred();
    lemma_zero(1);
    lemma_no_steps();
    let a = x.bits as nat;
    let b = y.bits as nat;
    steps_grow(a, b);
    steps_grow(b, HUNDRED as nat);
    steps_grow(0, a);
    nearest_grows(
        (100 * one() - steps(b)) as nat,
        (100 * one() - steps(a)) as nat,
        1,
    );
    nearest_grows((100 * one() - steps(a)) as nat, 100 * one(), 1);
    lemma_left(x);
    lemma_left(y);
    lemma_left(Double { bits: 0 });
    lemma_left(Double { bits: HUNDRED });
}

proof fn lemma_left(x: Double)
    requires
        x.bits <= HUNDRED,
    ensures
        x.left().bits == nearest((100 * one() - steps(x.bits as nat)) as nat, 1),
{
    lemma_hundred();
    lemma_zero(1);
    lemma_no_steps();
    steps_grow(x.bits as nat, HUNDRED as nat);
    nearest_grows((100 * one() - steps(x.bits as nat)) as nat, 100 * one(), 1);
    let part = x.within_percent();
    assert(part == x);
    let other = part.negated();
    assert(other.magnitude() == x.bits);
    assert(other.is_negative());
}

/// Less than nothing counts as nothing, and more than one hundred percent as all.
pub proof fn percentages_are_kept_in_range(x: Double)
    requires
        !x.is_nan(),
    ensures
        x.is_negative() ==> x.left().bits == HUNDRED,
        !x.is_negative() && x.bits >= HUNDRED ==> x.left().bits == 0,
        x.within_percent().magnitude() <= HUNDRED,
        !x.is_negative() && x.bits <= HUNDRED ==> x.within_percent() == x,
{
    lemma_hundred();
    lemma_no_steps();
    lemma_zero(1);
    lemma_left(Double { bits: 0 });
    lemma_left(Double { bits: HUNDRED });
    assert(steps(HUNDRED as nat) - 0 == 100 * one());
}

proof fn lemma_full_bar()
    ensures
        (Double { bits: HUNDRED }).filled(20) == 20,
{
    lemma_two_positive(1074);
    lemma_two_values();
    let hundred = HUNDRED as nat;
    let single: nat = 0x3ff0_0000_0000_0000;
    let twenty: nat = 0x4034_0000_0000_0000;
    reveal_with_fuel(two, 51);
    lemma_two_sum(46, 1028);
    lemma_two_sum(48, 1026);
    lemma_two_sum(52, 1022);
    assert(two(46) == 0x4000_0000_0000);
    assert(two(48) == 0x1_0000_0000_0000);
    assert(scale_of(hundred) == 1028);
    assert(mantissa_of(hundred) == 100 * two(46));
    assert(steps(hundred) == 100 * one()) by (nonlinear_arith)
        requires
            steps(hundred) == (100 * two(46)) * two(1028),
            one() == two(46) * two(1028),
    ;
    assert(scale_of(single) == 1022);
    assert(mantissa_of(single) == two(52));
    assert(steps(single) == one());
    assert(scale_of(twenty) == 1026);
    assert(mantissa_of(twenty) == 20 * two(48));
    assert(steps(twenty) == 20 * one()) by (nonlinear_arith)
        requires
            steps(twenty) == (20 * two(48)) * two(1026),
            one() == two(48) * two(1026),
    ;
    lemma_two_positive(1022);
    lemma_two_positive(1026);
    lemma_lost(single, 0);
    lemma_lost(twenty, 0);
    assert(1 * 100 == 100nat);
    lemma_nearest_scaled(one(), 1, 100);
    assert(one() * 100 == 100 * one());
    assert(one() * 20 == 20 * one());
    vstd::arithmetic::div_mod::lemma_fundamental_div_mod_converse(
        (2 * (20 * one()) + one()) as int,
        2 * one() as int,
        20,
        one() as int,
    );
}

/// The number nearest to one that can be written is that number.
pub proof fn numbers_are_nearest_to_themselves(x: nat)
    requires
        x <= INFINITY,
    ensures
        nearest(steps(x), 1) == x,
{
    let full = FULL as nat;
    let s = scale_of(x);
    let m = mantissa_of(x);
    let n = steps(x);
    lemma_two_positive(s);
    if x < 2 * full {
        assert(two(0) == 1);
        assert(n == x) by (nonlinear_arith)
            requires
                n == x * two(0),
                two(0) == 1,
        ;
        assert(1 * two(0) == 1);
        lemma_places(n, 1, 0);
        assert(crate::format::rounded(n, 1) == n);
    } else {
        let half = two((s - 1) as nat);
        assert(two(s) == 2 * half);
        assert(x == full * (x / full) + x % full) by (nonlinear_arith)
            requires
                full > 0,
        ;
        assert(x / full >= 2) by (nonlinear_arith)
            requires
                x >= 2 * full,
                full > 0,
        ;
        assert(full <= m < 2 * full);
        assert(n < 0x20_0000_0000_0000 * (1 * two(s))) by (nonlinear_arith)
            requires
                n == m * two(s),
                m < 0x20_0000_0000_0000,
                two(s) > 0,
        ;
        assert(n >= 0x20_0000_0000_0000 * (1 * half)) by (nonlinear_arith)
            requires
                n == m * (2 * half),
                m >= 0x10_0000_0000_0000,
        ;
        lemma_places(n, 1, s);
        assert(n / two(s) == m && n % two(s) == 0) by (nonlinear_arith)
            requires
                n == m * two(s),
                two(s) > 0,
        ;
        assert(1 * two(s) == two(s));
        assert(crate::format::rounded(n, two(s)) == m);
        assert(s * full + m == x) by (nonlinear_arith)
            requires
                s == x / full - 1,
                m == x % full + full,
                x == full * (x / full) + x % full,
        ;
    }
}

/// Numbers are added in either order, nothing adds nothing, and a number and its
/// opposite are nothing.
pub proof fn sums_of_numbers(x: Double, y: Double)
    requires
        !x.is_nan(),
        !y.is_nan(),
    ensures
        x.sum(y) == y.sum(x),
        !x.is_negative() ==> x.sum(Double { bits: 0 }) == x,
        x.magnitude() < INFINITY ==> x.sum(x.negated()) == (Double { bits: 0 }),
        !x.is_negative() && !y.is_negative() ==> x.sum(y).rank() >= x.rank(),
{
    lemma_no_steps();
    assert(steps(0) == 0);
    if !x.is_negative() {
        numbers_are_nearest_to_themselves(x.magnitude());
        assert(steps(x.magnitude()) + 0 == steps(x.magnitude()));
        if !y.is_negative() {
            nearest_grows(
                steps(x.magnitude()),
                steps(x.magnitude()) + steps(y.magnitude()),
                1,
            );
        }
    }
}

/// A number of tokens that was recorded weighs between a third and a half of as many
/// that were counted.
pub proof fn recorded_tokens_weigh_less(n: nat)
    ensures
        nearest(steps(nearest(n * one(), 1)), 3) <= weighted(n) <= nearest(
            steps(nearest(n * one(), 1)),
            2,
        ),
{
    let part = THIRTY_FIVE_HUNDREDTHS as nat;
    let full = FULL as nat;
    lemma_two_values();
    lemma_two_positive(1020);
    lemma_two_sum(1020, 54);
    let t = two(1020);
    let m: nat = 0x16_6666_6666_6666;
    assert(part / full == 0x3fd);
    assert(part % full == 0x6_6666_6666_6666);
    assert(scale_of(part) == 1020);
    assert(mantissa_of(part) == m);
    let w = steps(part);
    let o = one();
    let s = steps(nearest(n * o, 1));
    assert(w == m * t);
    assert(o == t * (4 * full));
    assert(2 * w <= o <= 3 * w) by (nonlinear_arith)
        requires
            w == m * t,
            o == t * (4 * full),
            m == 0x16_6666_6666_6666,
            full == 0x10_0000_0000_0000,
    ;
    assert(o > 0) by (nonlinear_arith)
        requires
            o == t * (4 * full),
            t > 0,
            full == 0x10_0000_0000_0000,
    ;
    lemma_nearest_scaled(s * w, o, 3);
    lemma_nearest_scaled(s, 3, o);
    assert(s * o <= (s * w) * 3) by (nonlinear_arith)
        requires
            o <= 3 * w,
            s >= 0,
    ;
    assert(o * 3 == 3 * o);
    nearest_grows(s * o, (s * w) * 3, 3 * o);
    lemma_nearest_scaled(s * w, o, 2);
    lemma_nearest_scaled(s, 2, o);
    assert((s * w) * 2 <= s * o) by (nonlinear_arith)
        requires
            2 * w <= o,
            s >= 0,
    ;
    assert(o * 2 == 2 * o);
    nearest_grows((s * w) * 2, s * o, 2 * o);
}

/// A number below nothing is written with a sign in front of what it would be without.
pub proof fn signs_are_written(x: Double, decimals: int)
    requires
        !x.is_nan(),
    ensures
        x.is_negative() ==> x.form(decimals) == "-"@ + x.negated().form(decimals),
        x.negated().magnitude() == x.magnitude(),
        x.negated().is_negative() != x.is_negative(),
{
}

} // verus!
