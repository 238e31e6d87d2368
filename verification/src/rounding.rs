//! Binary floating-point rounding in integers: how a double rounds a whole
//! number, a quotient and a product, bit for bit.
use vstd::arithmetic::div_mod::*;
use vstd::arithmetic::mul::*;
use vstd::arithmetic::power2::*;
use vstd::prelude::*;

verus! {

/// The whole number nearest to `n / d`; of two that are equally near, the even one.
pub open spec fn round_even(n: nat, d: nat) -> nat {
    let q = n / d;
    let twice_rest = 2 * (n % d);
    if twice_rest < d {
        q
    } else if twice_rest > d {
        q + 1
    } else if q % 2 == 0 {
        q
    } else {
        q + 1
    }
}

/// The number of binary digits of `n`.
pub open spec fn bit_length(n: nat) -> nat
    decreases n,
{
    if n == 0 {
        0
    } else {
        1 + bit_length(n / 2)
    }
}

/// How many binary digits `n` has more than `width`.
pub open spec fn excess(n: nat, width: nat) -> nat {
    if bit_length(n) > width {
        (bit_length(n) - width) as nat
    } else {
        0
    }
}

/// `n / d` rounded to `width` significant binary digits, where its whole part has
/// at least that many, or where it is whole.
pub open spec fn round_significant(n: nat, d: nat, width: nat) -> nat {
    let s = excess(n / d, width);
    round_even(n, d * pow2(s)) * pow2(s)
}

/// The whole number `n` as a double holds it: with 53 significant binary digits.
pub open spec fn double(n: nat) -> nat {
    round_significant(n, 1, 53)
}

/// The whole number `n` as a single holds it: with 24 significant binary digits.
pub open spec fn single(n: nat) -> nat {
    round_significant(n, 1, 24)
}

/// The quotient `a / b` as a double holds it, in units of `2^-117`.
pub open spec fn double_quotient(a: nat, b: nat) -> nat {
    round_significant(a * pow2(117), b, 53)
}

/// The whole part of the product of `k` and the quotient `a / b`, the quotient
/// and the product each rounded as a double.
pub open spec fn double_scaled(a: nat, b: nat, k: nat) -> nat {
    round_significant(double_quotient(a, b) * k, 1, 53) / pow2(117)
}

/// A number lies between the powers of two that its length names.
pub proof fn bit_length_bounds(n: nat)
    requires
        n > 0,
    ensures
        bit_length(n) >= 1,
        pow2((bit_length(n) - 1) as nat) <= n < pow2(bit_length(n)),
    decreases n,
{
    if n == 1 {
        assert(bit_length(1) == 1) by {
            reveal_with_fuel(bit_length, 2);
        }
        lemma2_to64();
    } else {
        let h = n / 2;
        bit_length_bounds(h);
        let l = bit_length(h);
        lemma_pow2_unfold(l);
        lemma_pow2_unfold(l + 1);
    }
}

/// The length of a number between two neighbouring powers of two.
pub proof fn bit_length_unique(n: nat, l: nat)
    requires
        l >= 1,
        pow2((l - 1) as nat) <= n < pow2(l),
    ensures
        bit_length(n) == l,
{
    lemma_pow2_pos((l - 1) as nat);
    bit_length_bounds(n);
    let m = bit_length(n);
    if m < l {
        if m < l - 1 {
            lemma_pow2_strictly_increases(m, (l - 1) as nat);
        }
    } else if m > l {
        if l < m - 1 {
            lemma_pow2_strictly_increases(l, (m - 1) as nat);
        }
    }
}

/// A common factor does not change what a quotient rounds to.
pub proof fn round_even_scales(n: nat, d: nat, c: nat)
    requires
        d > 0,
        c > 0,
    ensures
        d * c > 0,
        round_even(n * c, d * c) == round_even(n, d),
{
    lemma_div_multiples_vanish_quotient(c as int, n as int, d as int);
    lemma_truncate_middle(n as int, c as int, d as int);
    lemma_mul_is_commutative(n as int, c as int);
    lemma_mul_is_commutative(d as int, c as int);
    let r = n % d;
    assert((n * c) % (d * c) == c * r);
    assert(2 * (c * r) < d * c <==> 2 * r < d) by (nonlinear_arith)
        requires
            c > 0,
    ;
    assert(2 * (c * r) > d * c <==> 2 * r > d) by (nonlinear_arith)
        requires
            c > 0,
    ;
}

/// A power of two as factor adds its exponent to the length.
pub proof fn bit_length_scales(n: nat, e: nat)
    requires
        n > 0,
    ensures
        n * pow2(e) > 0,
        bit_length(n * pow2(e)) == bit_length(n) + e,
{
    bit_length_bounds(n);
    let l = bit_length(n);
    lemma_pow2_pos(e);
    lemma_pow2_adds((l - 1) as nat, e);
    lemma_pow2_adds(l, e);
    let p = pow2(e);
    let low = pow2((l - 1) as nat);
    let high = pow2(l);
    assert(low * p <= n * p < high * p) by (nonlinear_arith)
        requires
            low <= n < high,
            p > 0,
    ;
    assert(n * p > 0) by (nonlinear_arith)
        requires
            n > 0,
            p > 0,
    ;
    bit_length_unique(n * p, l + e);
}

/// The number of binary digits of `n`.
pub fn bits(n: u128) -> (r: u32)
    ensures
        r == bit_length(n as nat),
        r <= 128,
{
    let mut rest: u128 = n;
    let mut count: u32 = 0;
    proof {
        lemma2_to64_rest();
        lemma_pow2_adds(64, 64);
        if n > 0 {
            bit_length_bounds(n as nat);
            if bit_length(n as nat) > 128 {
                if bit_length(n as nat) > 129 {
                    lemma_pow2_strictly_increases(128, (bit_length(n as nat) - 1) as nat);
                }
                assert(pow2(128) == 0x1_0000_0000_0000_0000 * 0x1_0000_0000_0000_0000);
            }
        }
    }
    while rest > 0
        invariant
            count + bit_length(rest as nat) == bit_length(n as nat),
            bit_length(n as nat) <= 128,
        decreases rest,
    {
        rest = rest / 2;
        count += 1;
    }
    count
}

/// `2^e`.
pub fn power(e: u32) -> (r: u128)
    requires
        e <= 120,
    ensures
        r == pow2(e as nat),
{
    let mut r: u128 = 1;
    let mut i: u32 = 0;
    proof {
        lemma2_to64();
        lemma2_to64_rest();
        lemma_pow2_adds(64, 56);
    }
    while i < e
        invariant
            i <= e <= 120,
            r == pow2(i as nat),
            pow2(120) == 0x1_0000_0000_0000_0000 * 0x100_0000_0000_0000,
        decreases e - i,
    {
        proof {
            lemma_pow2_unfold((i + 1) as nat);
            if i + 1 < 120 {
                lemma_pow2_strictly_increases((i + 1) as nat, 120);
            }
        }
        r = 2 * r;
        i += 1;
    }
    r
}

/// The whole number nearest to `n / d`, ties to the even one.
pub fn rounded(n: u128, d: u128) -> (r: u128)
    requires
        0 < d,
    ensures
        r == round_even(n as nat, d as nat),
        r <= n,
{
    let q: u128 = n / d;
    let rest: u128 = n % d;
    proof {
        lemma_fundamental_div_mod(n as int, d as int);
        assert(rest > 0 ==> 2 * q + 1 <= n) by (nonlinear_arith)
            requires
                n == d * q + rest,
                rest < d,
        ;
    }
    let r: u128 = if rest < d - rest {
        q
    } else if rest > d - rest {
        q + 1
    } else if q % 2 == 0 {
        q
    } else {
        q + 1
    };
    r
}

/// The form of a double quotient, from a fraction that was scaled into range.
proof fn quotient_form(a: nat, b: nat, t: nat, u: nat, n: nat, d: nat)
    requires
        a > 0,
        b > 0,
        t <= 117,
        n == a * pow2(t),
        d == b * pow2(u),
        d * pow2(52) <= n < d * pow2(53),
    ensures
        double_quotient(a, b) == round_even(n, d) * pow2((117 - t + u) as nat),
{
    let c = pow2((117 - t) as nat);
    let e = (117 - t + u) as nat;
    let num = a * pow2(117);
    lemma_pow2_pos(t);
    lemma_pow2_pos(u);
    lemma_pow2_pos((117 - t) as nat);
    lemma_pow2_adds(t, (117 - t) as nat);
    lemma_pow2_adds(u, (117 - t) as nat);
    lemma_pow2_adds(52, e);
    lemma_pow2_adds(53, e);
    lemma_pow2_pos(52 + e);
    let pt = pow2(t);
    let pu = pow2(u);
    let p52 = pow2(52);
    let p53 = pow2(53);
    assert(num == n * c) by (nonlinear_arith)
        requires
            num == a * (pt * c),
            n == a * pt,
    ;
    assert(b * pow2(e) == d * c) by (nonlinear_arith)
        requires
            pow2(e) == pu * c,
            d == b * pu,
    ;
    assert(d > 0) by (nonlinear_arith)
        requires
            d == b * pu,
            b > 0,
            pu > 0,
    ;
    let pe = pow2(e);
    let low = pow2(52 + e);
    let high = pow2(53 + e);
    assert(b * low <= num < b * high) by (nonlinear_arith)
        requires
            low == p52 * pe,
            high == p53 * pe,
            b * pe == d * c,
            num == n * c,
            d * p52 <= n < d * p53,
            c > 0,
    ;
    let x = num / b;
    lemma_div_is_ordered((b * low) as int, num as int, b as int);
    lemma_div_multiples_vanish(low as int, b as int);
    lemma_multiply_divide_lt(num as int, b as int, high as int);
    bit_length_unique(x, 53 + e);
    round_even_scales(n, d, c);
}

/// A power of two as factor passes through rounding.
proof fn double_scales(y: nat, e: nat)
    requires
        bit_length(y) >= 53,
    ensures
        double(y * pow2(e)) == double(y) * pow2(e),
{
    let s = excess(y, 53);
    let p = pow2(e);
    assert(y > 0);
    bit_length_scales(y, e);
    let v = y * p;
    assert(v / 1 == v && y / 1 == y);
    assert(excess(v, 53) == s + e);
    lemma_pow2_adds(s, e);
    lemma_pow2_pos(s);
    lemma_pow2_pos(e);
    round_even_scales(y, pow2(s), p);
    lemma_mul_basics(pow2(s) as int);
    lemma_mul_basics(pow2(s + e) as int);
    let m = round_even(y, pow2(s));
    assert(m * (pow2(s) * p) == (m * pow2(s)) * p) by (nonlinear_arith);
}

/// Nothing rounds to nothing.
proof fn zero_rounds(d: nat)
    requires
        d > 0,
    ensures
        round_significant(0, d, 53) == 0,
{
    lemma2_to64();
    assert(0nat / d == 0) by {
        lemma_div_basics(d as int);
    }
    assert(excess(0, 53) == 0);
    lemma_mul_basics(d as int);
    assert(0nat % d == 0) by {
        lemma_small_mod(0, d);
    }
}

/// Rounding to whole numbers keeps the order.
pub proof fn round_even_is_monotone(a: nat, b: nat, d: nat)
    requires
        a <= b,
        d > 0,
    ensures
        round_even(a, d) <= round_even(b, d),
{
    lemma_fundamental_div_mod(a as int, d as int);
    lemma_fundamental_div_mod(b as int, d as int);
    lemma_div_is_ordered(a as int, b as int, d as int);
    let p = a as int / d as int;
    let q = b as int / d as int;
    if p == q {
        assert(d * p == d * q);
    }
}

/// A number that has enough digits for none to be lost rounds to itself.
pub proof fn significant_is_exact(c: nat, e: nat, d: nat, width: nat)
    requires
        c > 0,
        d > 0,
        bit_length(c) <= width,
    ensures
        round_significant(d * (c * pow2(e)), d, width) == c * pow2(e),
{
    let x = c * pow2(e);
    let n = d * x;
    lemma_pow2_pos(e);
    lemma_div_multiples_vanish(x as int, d as int);
    assert(n / d == x);
    bit_length_scales(c, e);
    let s = excess(x, width);
    assert(s <= e);
    let rest = (e - s) as nat;
    lemma_pow2_adds(rest, s);
    lemma_pow2_pos(s);
    let ps = pow2(s);
    let pr = pow2(rest);
    let unit = d * ps;
    let m = c * pr;
    assert(n == unit * m) by (nonlinear_arith)
        requires
            n == d * (c * (pr * ps)),
            unit == d * ps,
            m == c * pr,
    ;
    assert(unit > 0) by (nonlinear_arith)
        requires
            unit == d * ps,
            d > 0,
            ps > 0,
    ;
    lemma_div_multiples_vanish(m as int, unit as int);
    lemma_mod_multiples_basic(m as int, unit as int);
    assert(n % unit == 0) by {
        lemma_mul_is_commutative(unit as int, m as int);
    }
    assert(n / unit == m);
    assert(m * ps == x) by (nonlinear_arith)
        requires
            m == c * pr,
            x == c * (pr * ps),
    ;
}

/// Rounding reaches at most the next power of two.
pub proof fn significant_bound(n: nat, d: nat, width: nat)
    requires
        d > 0,
        width > 0,
    ensures
        round_significant(n, d, width) <= pow2(bit_length(n / d)),
{
    let x = n / d;
    let l = bit_length(x);
    let s = excess(x, width);
    lemma_pow2_pos(s);
    lemma_pow2_pos(l);
    lemma2_to64();
    if x == 0 {
        assert(s == 0);
        lemma_mul_basics(d as int);
        lemma_fundamental_div_mod(n as int, d as int);
        assert(n % d == n);
        assert(round_even(n, d) <= 1);
        assert(pow2(0) == 1);
    } else {
        bit_length_bounds(x);
        let rest = (l - s) as nat;
        lemma_pow2_adds(rest, s);
        let ps = pow2(s);
        let pr = pow2(rest);
        let unit = d * ps;
        assert(unit > 0) by (nonlinear_arith)
            requires
                unit == d * ps,
                d > 0,
                ps > 0,
        ;
        lemma_fundamental_div_mod(n as int, d as int);
        lemma_fundamental_div_mod(n as int, unit as int);
        let rest_n = n % d;
        assert(n < unit * pr) by (nonlinear_arith)
            requires
                n == d * x + rest_n,
                rest_n < d,
                x + 1 <= pr * ps,
                unit == d * ps,
                d > 0,
        ;
        let q = n / unit;
        let rem = n % unit;
        assert(q < pr) by (nonlinear_arith)
            requires
                n < unit * pr,
                n == unit * q + rem,
                rem >= 0,
                unit > 0,
        ;
        let m = round_even(n, unit);
        assert(m <= pr);
        assert(m * ps <= pr * ps) by (nonlinear_arith)
            requires
                m <= pr,
                ps > 0,
        ;
    }
}

/// Rounding to significant digits keeps the order.
pub proof fn significant_is_monotone(a: nat, b: nat, d: nat, width: nat)
    requires
        a <= b,
        d > 0,
        width > 0,
    ensures
        round_significant(a, d, width) <= round_significant(b, d, width),
{
    let x = a / d;
    let y = b / d;
    lemma_div_is_ordered(a as int, b as int, d as int);
    let s = excess(x, width);
    let t = excess(y, width);
    lemma_pow2_pos(s);
    lemma_pow2_pos(t);
    if s == t {
        let unit = d * pow2(s);
        assert(unit > 0) by (nonlinear_arith)
            requires
                unit == d * pow2(s),
                d > 0,
                pow2(s) > 0,
        ;
        round_even_is_monotone(a, b, unit);
        let p = round_even(a, unit);
        let q = round_even(b, unit);
        let ps = pow2(s);
        assert(p * ps <= q * ps) by (nonlinear_arith)
            requires
                p <= q,
                ps > 0,
        ;
    } else {
        lengths_are_monotone(x, y);
        assert(bit_length(x) < bit_length(y));
        assert(y > 0);
        bit_length_bounds(y);
        let l = bit_length(y);
        // The greatest power of two in `y` is reached from below and from above.
        significant_bound(a, d, width);
        if bit_length(x) < l - 1 {
            lemma_pow2_strictly_increases(bit_length(x), (l - 1) as nat);
        }
        let low = pow2((l - 1) as nat);
        let unit = d * pow2(t);
        let pt = pow2(t);
        assert(unit > 0) by (nonlinear_arith)
            requires
                unit == d * pt,
                d > 0,
                pt > 0,
        ;
        lemma_fundamental_div_mod(b as int, d as int);
        assert(d * low <= b) by (nonlinear_arith)
            requires
                b == d * y + b % d,
                low <= y,
                b % d >= 0,
                d > 0,
        ;
        round_even_is_monotone(d * low, b, unit);
        let rest = (l - 1 - t) as nat;
        lemma_pow2_adds(rest, t);
        lemma_pow2_pos(rest);
        let pr = pow2(rest);
        assert(d * low == unit * pr) by (nonlinear_arith)
            requires
                low == pr * pt,
                unit == d * pt,
        ;
        lemma_div_multiples_vanish(pr as int, unit as int);
        lemma_mod_multiples_basic(pr as int, unit as int);
        assert((d * low) % unit == 0) by {
            lemma_mul_is_commutative(unit as int, pr as int);
        }
        assert(round_even(d * low, unit) == pr);
        let m = round_even(b, unit);
        assert(low <= m * pt) by (nonlinear_arith)
            requires
                low == pr * pt,
                pr <= m,
                pt > 0,
        ;
    }
}

/// A greater number has no fewer digits.
pub proof fn lengths_are_monotone(x: nat, y: nat)
    requires
        x <= y,
    ensures
        bit_length(x) <= bit_length(y),
    decreases y,
{
    if x > 0 {
        lengths_are_monotone(x / 2, y / 2);
    }
}

/// What is more than nothing is so as a double.
pub proof fn double_is_positive(n: nat)
    requires
        n > 0,
    ensures
        double(n) > 0,
{
    lemma2_to64();
    assert(1nat * (1 * pow2(0)) == 1);
    assert(bit_length(1) == 1) by {
        reveal_with_fuel(bit_length, 2);
    }
    significant_is_exact(1, 0, 1, 53);
    significant_is_monotone(1, n, 1, 53);
}

/// The whole of something, `k` times: exactly `k`.
pub proof fn whole_is_exact(a: nat, k: nat)
    requires
        a > 0,
        0 < k < 0x20_0000_0000_0000,
    ensures
        double_scaled(a, a, k) == k,
{
    lemma2_to64();
    lemma2_to64_rest();
    lemma_pow2_pos(117);
    assert(bit_length(1) == 1) by {
        reveal_with_fuel(bit_length, 2);
    }
    assert(1 * pow2(117) == pow2(117));
    significant_is_exact(1, 117, a, 53);
    assert(double_quotient(a, a) == pow2(117));
    bit_length_bounds(k);
    if bit_length(k) > 53 {
        if bit_length(k) > 54 {
            lemma_pow2_strictly_increases(53, (bit_length(k) - 1) as nat);
        }
        assert(pow2(53) <= k);
    }
    lemma_mul_is_commutative(pow2(117) as int, k as int);
    lemma_mul_basics((k * pow2(117)) as int);
    significant_is_exact(k, 117, 1, 53);
    lemma_div_multiples_vanish(k as int, pow2(117) as int);
}

/// Nothing of something, however often: nothing.
pub proof fn nothing_scales_to_nothing(b: nat, k: nat)
    requires
        b > 0,
    ensures
        double_scaled(double(0), b, k) == 0,
{
    lemma_pow2_pos(117);
    zero_rounds(1);
    lemma_mul_basics(pow2(117) as int);
    zero_rounds(b);
    lemma_mul_basics(k as int);
    lemma_div_basics(pow2(117) as int);
}

/// A share of nothing is nothing.
pub proof fn no_part_is_nothing(b: nat, k: nat)
    requires
        b > 0,
    ensures
        double_scaled(0, b, k) == 0,
{
    zero_rounds(1);
    nothing_scales_to_nothing(b, k);
}

/// Of nothing the whole is nothing.
pub proof fn no_span_is_nothing(a: nat)
    ensures
        double_scaled(a, a, 0) == 0,
{
    lemma_pow2_pos(117);
    lemma_mul_basics(double_quotient(a, a) as int);
    zero_rounds(1);
    lemma_div_basics(pow2(117) as int);
}

/// A greater share is not smaller when it is scaled.
pub proof fn scaled_is_monotone(a: nat, c: nat, b: nat, k: nat)
    requires
        a <= c,
        b > 0,
    ensures
        double_scaled(a, b, k) <= double_scaled(c, b, k),
{
    let p = pow2(117);
    lemma_pow2_pos(117);
    assert(a * p <= c * p) by (nonlinear_arith)
        requires
            a <= c,
            p > 0,
    ;
    significant_is_monotone(a * p, c * p, b, 53);
    let x = double_quotient(a, b);
    let y = double_quotient(c, b);
    assert(x * k <= y * k) by (nonlinear_arith)
        requires
            x <= y,
            k >= 0,
    ;
    significant_is_monotone(x * k, y * k, 1, 53);
    lemma_div_is_ordered(
        round_significant(x * k, 1, 53) as int,
        round_significant(y * k, 1, 53) as int,
        p as int,
    );
}

/// `n` rounded to `width` significant binary digits.
fn significant(n: u128, width: u32) -> (r: u128)
    requires
        n <= 0x1_0000_0000_0000_0000_0000_0000,
        1 <= width,
    ensures
        r == round_significant(n as nat, 1, width as nat),
        r <= 2 * n,
        n > 0 ==> r > 0,
        n <= u64::MAX ==> r <= 0x1_0000_0000_0000_0000,
{
    let l: u32 = bits(n);
    let s: u32 = if l > width {
        l - width
    } else {
        0
    };
    assert(n as nat / 1 == n);
    assert(s == excess(n as nat, width as nat));
    proof {
        lemma2_to64();
        lemma2_to64_rest();
        lemma_pow2_adds(64, 32);
        lemma_pow2_pos(s as nat);
        if n > 0 {
            bit_length_bounds(n as nat);
            if l > 97 {
                lemma_pow2_strictly_increases(96, (l - 1) as nat);
            }
        }
    }
    let unit: u128 = power(s);
    let m: u128 = rounded(n, unit);
    proof {
        lemma_fundamental_div_mod(n as int, unit as int);
        let q = n as int / unit as int;
        let rest = n as int % unit as int;
        if s == 0 {
            assert(unit == 1);
            assert(n as nat / 1 == n && n as nat % 1 == 0);
            assert(m == n);
        } else {
            let rest_power = pow2((width - 1) as nat);
            lemma_pow2_adds(s as nat, (width - 1) as nat);
            lemma_pow2_pos((width - 1) as nat);
            assert(unit <= n) by (nonlinear_arith)
                requires
                    unit * rest_power <= n,
                    rest_power >= 1,
                    unit >= 0,
            ;
            assert(m == q || m == q + 1);
            assert(m * unit <= n + unit) by (nonlinear_arith)
                requires
                    m <= q + 1,
                    n == unit * q + rest,
                    rest >= 0,
                    unit > 0,
            ;
            assert(q >= 1) by (nonlinear_arith)
                requires
                    n == unit * q + rest,
                    rest < unit,
                    unit <= n,
                    unit > 0,
            ;
            assert(m * unit > 0) by (nonlinear_arith)
                requires
                    m >= 1,
                    unit > 0,
            ;
            if n <= u64::MAX {
                if l > 65 {
                    lemma_pow2_strictly_increases(64, (l - 1) as nat);
                }
                assert(l <= 64);
                significant_bound(n as nat, 1, width as nat);
                if l < 64 {
                    lemma_pow2_strictly_increases(l as nat, 64);
                }
            }
        }
        lemma_mul_basics(unit as int);
    }
    m * unit
}

/// `n` as a double holds it.
pub fn as_double(n: u128) -> (r: u128)
    requires
        n <= 0x1_0000_0000_0000_0000_0000_0000,
    ensures
        r == double(n as nat),
        r <= 2 * n,
        n > 0 ==> r > 0,
        n <= u64::MAX ==> r <= 0x1_0000_0000_0000_0000,
{
    significant(n, 53)
}

/// `n` as a single holds it.
pub fn as_single(n: u128) -> (r: u128)
    requires
        n <= 0x1_0000_0000_0000_0000_0000_0000,
    ensures
        r == single(n as nat),
        r <= 2 * n,
{
    significant(n, 24)
}

/// The whole part of `k * (a / b)` as doubles compute it.
pub fn scaled_part(a: u128, b: u128, k: u64) -> (r: u128)
    requires
        a <= 0x1_0000_0000_0000_0000,
        0 < b <= 0x1_0000_0000_0000_0000,
        k <= 0x1_0000_0000,
    ensures
        r == double_scaled(a as nat, b as nat, k as nat),
{
    proof {
        lemma2_to64();
        lemma2_to64_rest();
        lemma_pow2_pos(117);
    }
    if a == 0 || k == 0 {
        proof {
            if a == 0 {
                lemma_mul_basics(pow2(117) as int);
                zero_rounds(b as nat);
            }
            lemma_mul_basics(k as int);
            lemma_mul_basics(double_quotient(a as nat, b as nat) as int);
            zero_rounds(1);
            lemma_div_basics(pow2(117) as int);
        }
        return 0;
    }
    // Scale the fraction until it lies between 2^52 and 2^53.
    let mut n: u128 = a;
    let mut d: u128 = b;
    let mut u: u32 = 0;
    let mut up: u128 = 1;
    while n >= d * 0x20_0000_0000_0000
        invariant
            0 < n == a <= 0x1_0000_0000_0000_0000,
            0 < b <= d <= 0x1_0000_0000_0000_0000,
            d == b * up,
            up == pow2(u as nat),
            0 < up <= d,
            u > 0 ==> n >= d * 0x10_0000_0000_0000,
            u <= 12,
            pow2(12) == 0x1000,
        decreases 12 - u,
    {
        proof {
            lemma_pow2_unfold((u + 1) as nat);
            assert(b * (2 * up) == 2 * (b * up)) by (nonlinear_arith);
        }
        d = 2 * d;
        up = 2 * up;
        u += 1;
    }
    let mut t: u32 = 0;
    let mut down: u128 = 1;
    proof {
        lemma_pow2_adds(64, 52);
    }
    while n < d * 0x10_0000_0000_0000
        invariant
            0 < a <= 0x1_0000_0000_0000_0000,
            n == a * down,
            down == pow2(t as nat),
            0 < down <= n,
            0 < d <= 0x1_0000_0000_0000_0000,
            n < d * 0x20_0000_0000_0000,
            t > 0 ==> u == 0,
            u > 0 ==> n >= d * 0x10_0000_0000_0000,
            t <= 116,
            pow2(116) == 0x1_0000_0000_0000_0000 * 0x10_0000_0000_0000,
        decreases 116 - t,
    {
        proof {
            lemma_pow2_unfold((t + 1) as nat);
            assert(a * (2 * down) == 2 * (a * down)) by (nonlinear_arith);
        }
        n = 2 * n;
        down = 2 * down;
        t += 1;
    }
    let m: u128 = rounded(n, d);
    let ghost e = (117 - t + u) as nat;
    proof {
        lemma_fundamental_div_mod(n as int, d as int);
        let q = n as int / d as int;
        let rest = n as int % d as int;
        assert(0x10_0000_0000_0000 <= q < 0x20_0000_0000_0000) by (nonlinear_arith)
            requires
                n == d * q + rest,
                0 <= rest < d,
                d * 0x10_0000_0000_0000 <= n < d * 0x20_0000_0000_0000,
        ;
        quotient_form(a as nat, b as nat, t as nat, u as nat, n as nat, d as nat);
        assert(m * k <= 0x20_0000_0000_0000 * 0x1_0000_0000) by (nonlinear_arith)
            requires
                m <= 0x20_0000_0000_0000,
                k <= 0x1_0000_0000,
        ;
        assert(m * k >= m) by (nonlinear_arith)
            requires
                k >= 1,
        ;
    }
    let y: u128 = m * k as u128;
    let z: u128 = as_double(y);
    proof {
        bit_length_bounds(y as nat);
        if bit_length(y as nat) < 53 {
            if bit_length(y as nat) < 52 {
                lemma_pow2_strictly_increases(bit_length(y as nat), 52);
            }
        }
        double_scales(y as nat, e);
        let pe = pow2(e);
        assert((m * pe) * k == (m * k) * pe) by (nonlinear_arith);
        assert(z * up <= 0x40_0000_0000_0000 * 0x1_0000_0000 * 0x1000) by (nonlinear_arith)
            requires
                z <= 0x40_0000_0000_0000 * 0x1_0000_0000,
                up <= 0x1000,
        ;
        lemma_pow2_pos((117 - t) as nat);
        if t == 0 {
            lemma_pow2_adds(117, u as nat);
            let big = pow2(117);
            assert(z * (big * up) == (z * up) * big) by (nonlinear_arith);
            lemma_div_multiples_vanish((z * up) as int, big as int);
            lemma_mul_is_commutative((z * up) as int, big as int);
        } else {
            let c = pow2((117 - t) as nat);
            lemma_pow2_adds((117 - t) as nat, t as nat);
            lemma_div_multiples_vanish_quotient(c as int, z as int, down as int);
            lemma_mul_is_commutative(c as int, z as int);
        }
    }
    (z * up) / down
}

/// What is rounded to the nearest whole number is at most half of one away.
pub proof fn even_is_nearest(n: nat, d: nat)
    requires
        d > 0,
    ensures
        2 * (round_even(n, d) * d) <= 2 * n + d,
        2 * n <= 2 * (round_even(n, d) * d) + d,
{
    lemma_fundamental_div_mod(n as int, d as int);
    let q = n / d;
    let r = n % d;
    assert(n == d * q + r);
    assert((q + 1) * d == d * q + d) by (nonlinear_arith);
    assert(q * d == d * q) by (nonlinear_arith);
}

/// What is rounded to `width` significant digits is at most half a unit of the last of
/// them away.
pub proof fn significant_is_near(n: nat, d: nat, width: nat, length: nat)
    requires
        d > 0,
        0 < width <= length,
        n / d < pow2(length),
    ensures
        2 * (round_significant(n, d, width) * d) <= 2 * n + d * pow2((length - width) as nat),
        2 * n <= 2 * (round_significant(n, d, width) * d) + d * pow2((length - width) as nat),
{
    let x = n / d;
    let s = excess(x, width);
    let t = (length - width) as nat;
    assert(s <= t) by {
        if x > 0 {
            bit_length_bounds(x);
            if bit_length(x) > length {
                if bit_length(x) - 1 > length {
                    lemma_pow2_strictly_increases(length, (bit_length(x) - 1) as nat);
                }
            }
        }
    }
    lemma_pow2_pos(s);
    if s < t {
        lemma_pow2_strictly_increases(s, t);
    }
    let p = pow2(s);
    let e = pow2(t);
    assert(d * p > 0) by (nonlinear_arith)
        requires
            d > 0,
            p > 0,
    ;
    even_is_nearest(n, d * p);
    let r = round_even(n, d * p);
    assert(r * (d * p) == (r * p) * d) by (nonlinear_arith);
    assert(d * p <= d * e) by (nonlinear_arith)
        requires
            p <= e,
    ;
}

/// The share of `k` that two numbers give is that of their exact quotient, or next to it.
pub proof fn scaled_is_near(a: nat, b: nat, k: nat)
    requires
        a <= b,
        b > 0,
        k <= 100,
    ensures
        double_scaled(a, b, k) * b < k * a + b,
        k * a < (double_scaled(a, b, k) + 2) * b,
{
    let u = pow2(117);
    let q = double_quotient(a, b);
    let m = round_significant(q * k, 1, 53);
    let p = double_scaled(a, b, k);
    lemma2_to64();
    lemma2_to64_rest();
    lemma_pow2_pos(117);
    lemma_pow2_adds(64, 53);
    lemma_pow2_adds(117, 1);
    lemma_pow2_adds(117, 7);
    lemma_pow2_adds(64, 1);
    lemma_pow2_adds(64, 7);
    assert((a * u) / b <= u) by {
        assert(a * u <= b * u) by (nonlinear_arith)
            requires
                a <= b,
        ;
        lemma_div_is_ordered((a * u) as int, (b * u) as int, b as int);
        lemma_div_multiples_vanish(u as int, b as int);
    }
    significant_is_near(a * u, b, 53, 118);
    let e = pow2(65);
    assert(e == 2 * pow2(64));
    assert(2 * (q * b) <= 2 * (a * u) + b * e);
    assert(2 * (a * u) <= 2 * (q * b) + b * e);
    assert(2 * q <= 2 * u + e) by (nonlinear_arith)
        requires
            2 * (q * b) <= 2 * (a * u) + b * e,
            a <= b,
            b > 0,
    ;
    assert(q * k <= 100 * q) by (nonlinear_arith)
        requires
            k <= 100,
    ;
    lemma_div_basics((q * k) as int);
    assert(q * k < pow2(124));
    significant_is_near(q * k, 1, 53, 124);
    let g = pow2(71);
    assert(2 * m <= 2 * (q * k) + g);
    assert(2 * (q * k) <= 2 * m + g);
    lemma_fundamental_div_mod(m as int, u as int);
    assert(p * u <= m < (p + 1) * u) by {
        assert(u * p == p * u) by (nonlinear_arith);
        assert((p + 1) * u == p * u + u) by (nonlinear_arith);
    }
    near_enough(a as int, b as int, k as int, u as int, q as int, m as int, p as int, e as int, g as int);
}

/// The errors of both roundings stay below one unit.
proof fn near_enough(a: int, b: int, k: int, u: int, q: int, m: int, p: int, e: int, g: int)
    requires
        b > 0,
        0 <= k <= 100,
        a >= 0,
        u > 0,
        2 * (q * b) <= 2 * (a * u) + b * e,
        2 * (a * u) <= 2 * (q * b) + b * e,
        2 * m <= 2 * (q * k) + g,
        2 * (q * k) <= 2 * m + g,
        p * u <= m < (p + 1) * u,
        e >= 0,
        100 * e + g < 2 * u,
    ensures
        p * b < k * a + b,
        k * a < (p + 2) * b,
{
    assert(2 * (m * b) <= 2 * ((q * k) * b) + g * b && 2 * ((q * k) * b) <= 2 * (m * b) + g * b)
        by (nonlinear_arith)
        requires
            2 * m <= 2 * (q * k) + g,
            2 * (q * k) <= 2 * m + g,
            b > 0,
    ;
    assert(k * (2 * (q * b)) <= k * (2 * (a * u) + b * e) && k * (2 * (a * u)) <= k * (2 * (q * b)
        + b * e)) by (nonlinear_arith)
        requires
            2 * (q * b) <= 2 * (a * u) + b * e,
            2 * (a * u) <= 2 * (q * b) + b * e,
            k >= 0,
    ;
    assert(k * (2 * (q * b)) == 2 * ((q * k) * b)) by (nonlinear_arith);
    assert(k * (2 * (a * u) + b * e) == 2 * ((k * a) * u) + k * (b * e)) by (nonlinear_arith);
    assert(k * (2 * (q * b) + b * e) == 2 * ((q * k) * b) + k * (b * e)) by (nonlinear_arith);
    assert(k * (2 * (a * u)) == 2 * ((k * a) * u)) by (nonlinear_arith);
    assert(b * e >= 0) by (nonlinear_arith)
        requires
            b > 0,
            e >= 0,
    ;
    let f = b * e;
    assert(k * f <= 100 * f) by (nonlinear_arith)
        requires
            k <= 100,
            f >= 0,
    ;
    let w = b * u;
    assert(100 * f + g * b < 2 * w) by (nonlinear_arith)
        requires
            f == b * e,
            w == b * u,
            100 * e + g < 2 * u,
            b > 0,
    ;
    assert((p * b) * u <= m * b && m * b < ((p + 1) * b) * u) by (nonlinear_arith)
        requires
            p * u <= m < (p + 1) * u,
            b > 0,
    ;
    assert((p * b) * u < (k * a) * u + w);
    assert((k * a) * u < ((p + 1) * b) * u + w);
    assert(p * b < k * a + b) by (nonlinear_arith)
        requires
            (p * b) * u < (k * a) * u + w,
            w == b * u,
            u > 0,
    ;
    assert(k * a < (p + 2) * b) by (nonlinear_arith)
        requires
            (k * a) * u < ((p + 1) * b) * u + w,
            w == b * u,
            u > 0,
    ;
}

/// A double holds every whole number of at most 53 binary digits.
pub proof fn small_numbers_are_exact(n: nat)
    requires
        n < 0x20_0000_0000_0000,
    ensures
        double(n) == n,
{
    lemma2_to64();
    lemma2_to64_rest();
    if n > 0 {
        bit_length_bounds(n);
        if bit_length(n) > 53 {
            if bit_length(n) > 54 {
                lemma_pow2_strictly_increases(53, (bit_length(n) - 1) as nat);
            }
        }
        assert(n * pow2(0) == n);
        assert(1 * (n * pow2(0)) == n);
        significant_is_exact(n, 0, 1, 53);
    } else {
        zero_rounds(1);
    }
}

} // verus!
