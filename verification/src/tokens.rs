//! Token counts in a compact, human-readable notation.
use crate::text::{decimal, digit, push_decimal, to_decimal};
use vstd::arithmetic::power2::{
    lemma2_to64, lemma2_to64_rest, lemma_pow2_adds, lemma_pow2_pos, lemma_pow2_strictly_increases,
    lemma_pow2_unfold, pow2,
};
use vstd::prelude::*;

verus! {

/// The integer nearest to `a / b`, the even one of two that are equally near.
pub open spec fn nearest(a: nat, b: nat) -> nat {
    if 2 * (a % b) < b {
        a / b
    } else if 2 * (a % b) > b {
        a / b + 1
    } else {
        a / b + (a / b) % 2
    }
}

/// The greatest `e` for which `2^e` is at most `a / b`.
pub open spec fn exponent(a: nat, b: nat) -> nat
    decreases a - b,
{
    if b == 0 || a < 2 * b {
        0
    } else {
        1 + exponent(a, 2 * b)
    }
}

/// The double-precision number nearest to `n`.
pub open spec fn as_double(n: nat) -> nat {
    if exponent(n, 1) <= 52 {
        n
    } else {
        let unit = pow2((exponent(n, 1) - 52) as nat);
        nearest(n, unit) * unit
    }
}

/// The tenths in `n / d`, rounded. The quotient is the double-precision one:
/// `n` and the quotient are rounded to 53 significant bits each.
pub open spec fn tenths_of(n: nat, d: nat) -> nat {
    let x = as_double(n);
    let m = pow2((52 - exponent(x, d)) as nat);
    nearest(10 * nearest(x * m, d), m)
}

/// A number of tenths in decimal notation, with one digit after the point.
pub open spec fn tenths_text(tenths: nat) -> Seq<char> {
    decimal(tenths / 10) + "."@ + decimal(tenths % 10)
}

/// A token count: millions and tens of thousands with one digit after the point
/// and a unit, thousands with a comma, smaller numbers as they are.
pub open spec fn tokens_text(n: nat) -> Seq<char> {
    if n >= 1_000_000 {
        tenths_text(tenths_of(n, 1_000_000)) + "M"@
    } else if n >= 10_000 {
        tenths_text(tenths_of(n, 1_000)) + "k"@
    } else if n >= 1_000 {
        decimal(n / 1000) + ","@ + seq![
            digit((n / 100 % 10) as int),
            digit((n / 10 % 10) as int),
            digit((n % 10) as int),
        ]
    } else {
        decimal(n)
    }
}

/// The integer nearest to `a / b`, the even one of two that are equally near.
fn round_quotient(a: u128, b: u128) -> (r: u128)
    requires
        0 < b < 0x1_0000_0000_0000_0000_0000_0000_0000,
        a < 0x8000_0000_0000_0000_0000_0000_0000_0000,
    ensures
        r == nearest(a as nat, b as nat),
        r <= a / b + 1,
{
    let q: u128 = a / b;
    let rest: u128 = a % b;
    assert(q <= a) by (nonlinear_arith)
        requires
            q == a / b,
            0 < b,
    ;
    if 2 * rest < b {
        q
    } else if 2 * rest > b {
        q + 1
    } else {
        q + q % 2
    }
}

/// Two to the power of `e`.
fn power_of_two(e: u32) -> (r: u128)
    requires
        e <= 64,
    ensures
        r == pow2(e as nat),
        0 < r <= 0x1_0000_0000_0000_0000,
{
    let mut r: u128 = 1;
    let mut i: u32 = 0;
    proof {
        lemma2_to64();
    }
    while i < e
        invariant
            i <= e <= 64,
            r == pow2(i as nat),
            0 < r <= pow2(64),
            pow2(64) == 0x1_0000_0000_0000_0000,
        decreases e - i,
    {
        proof {
            lemma_pow2_unfold((i + 1) as nat);
            if i + 1 < 64 {
                lemma_pow2_strictly_increases((i + 1) as nat, 64);
            }
        }
        r = r * 2;
        i = i + 1;
    }
    r
}

/// The greatest `e` for which `2^e` is at most `a / b`.
fn find_exponent(a: u128, b: u128) -> (r: u32)
    requires
        0 < b,
        a <= 0x1_0000_0000_0000_0000,
    ensures
        r == exponent(a as nat, b as nat),
        r <= 64,
        r > 0 ==> b * pow2(r as nat) <= a,
{
    let mut e: u32 = 0;
    let mut s: u128 = b;
    proof {
        lemma2_to64();
    }
    assert(b * pow2(0) == b) by (nonlinear_arith)
        requires
            pow2(0) == 1,
    ;
    if a < b {
        return 0;
    }
    while s <= a / 2
        invariant
            0 < b <= s <= a <= 0x1_0000_0000_0000_0000,
            s == b * pow2(e as nat),
            e <= 64,
            pow2(64) == 0x1_0000_0000_0000_0000,
            exponent(a as nat, b as nat) == e + exponent(a as nat, s as nat),
        decreases a - s,
    {
        proof {
            lemma_pow2_unfold((e + 1) as nat);
            assert(b * (2 * pow2(e as nat)) == 2 * (b * pow2(e as nat))) by (nonlinear_arith);
            assert(pow2((e + 1) as nat) <= a) by {
                assert(pow2((e + 1) as nat) <= b * pow2((e + 1) as nat)) by (nonlinear_arith)
                    requires
                        0 < b,
                ;
            }
            if e + 1 > 64 {
                lemma_pow2_strictly_increases(64, (e + 1) as nat);
            }
        }
        s = s * 2;
        e = e + 1;
    }
    e
}

/// The double-precision number nearest to `n`.
fn to_double(n: u64) -> (r: u128)
    ensures
        r == as_double(n as nat),
        r <= 0x1_0000_0000_0000_0000,
        n < 0x10_0000_0000_0000 ==> r == n,
{
    let x: u128 = n as u128;
    let e: u32 = find_exponent(x, 1);
    proof {
        lemma2_to64();
    }
    if e <= 52 {
        return x;
    }
    proof {
        lemma2_to64_rest();
        lemma_pow2_strictly_increases(52, e as nat);
    }
    let unit: u128 = power_of_two(e - 52);
    assert(e <= 63) by {
        if e == 64 {
            assert(1 * pow2(64) <= x);
        }
    }
    let q: u128 = round_quotient(x, unit);
    proof {
        let k = (e - 52) as nat;
        let rest = (64 - k) as nat;
        lemma_pow2_adds(k, rest);
        lemma_pow2_pos(rest);
        let u = unit as int;
        let t = pow2(rest) as int;
        let xi = x as int;
        // The count is below `t` units, so the rounded quotient is at most `t`.
        assert(xi < u * t);
        assert(xi / u < t) by (nonlinear_arith)
            requires
                xi < u * t,
                0 <= xi,
                0 < u,
        ;
        assert(q <= t);
        assert(q * u <= u * t) by (nonlinear_arith)
            requires
                0 <= q <= t,
                0 < u,
        ;
    }
    q * unit
}

/// The tenths in `n / d`, rounded as a double-precision quotient is.
fn round_tenths(n: u64, d: u64) -> (r: u128)
    requires
        d == 1_000_000 || (d == 1_000 && n < 1_000_000),
    ensures
        r == tenths_of(n as nat, d as nat),
        r < 0x1_0000_0000_0000_0000,
{
    let x: u128 = to_double(n);
    let e: u32 = find_exponent(x, d as u128);
    proof {
        lemma2_to64();
        lemma2_to64_rest();
        if e > 52 {
            lemma_pow2_strictly_increases(52, e as nat);
            assert(d * pow2(52) <= d * pow2(e as nat)) by (nonlinear_arith)
                requires
                    pow2(52) <= pow2(e as nat),
            ;
        }
    }
    let m: u128 = power_of_two(52 - e);
    assert(0 < m <= 0x10_0000_0000_0000) by {
        if e > 0 {
            lemma_pow2_strictly_increases((52 - e) as nat, 52);
        }
    }
    assert(x * m <= 0x1_0000_0000_0000_0000 * 0x10_0000_0000_0000) by (nonlinear_arith)
        requires
            x <= 0x1_0000_0000_0000_0000,
            0 < m <= 0x10_0000_0000_0000,
    ;
    let q: u128 = round_quotient(x * m, d as u128);
    let r: u128 = round_quotient(10 * q, m);
    proof {
        let (xi, mi, qi, di) = (x as int, m as int, q as int, d as int);
        assert(xi * mi / di <= (xi / 1000 + 1) * mi) by (nonlinear_arith)
            requires
                0 <= xi,
                0 < mi,
                di >= 1000,
        ;
        assert(10 * qi / mi <= 10 * (xi / 1000 + 1) + 10) by (nonlinear_arith)
            requires
                0 <= qi <= (xi / 1000 + 1) * mi + 1,
                0 < mi,
        ;
    }
    r
}

/// Formats a token count as a compact human-readable string, such as `1,234` or `12.3k`.
pub fn format_tokens(n: u64) -> (r: String)
    ensures
        r@ == tokens_text(n as nat),
{
    if n >= 10_000 {
        let millions = n >= 1_000_000;
        let tenths: u64 = if millions {
            round_tenths(n, 1_000_000) as u64
        } else {
            round_tenths(n, 1_000) as u64
        };
        let mut r = to_decimal(tenths / 10);
        r.push_str(".");
        push_decimal(&mut r, tenths % 10);
        r.push_str(if millions { "M" } else { "k" });
        r
    } else if n >= 1_000 {
        let mut r = to_decimal(n / 1000);
        r.push_str(",");
        push_decimal(&mut r, n / 100 % 10);
        push_decimal(&mut r, n / 10 % 10);
        push_decimal(&mut r, n % 10);
        assert(r@ =~= tokens_text(n as nat));
        r
    } else {
        to_decimal(n)
    }
}

/// Without its comma, the notation of a count of thousands is the decimal one.
pub proof fn law_comma_separates_thousands(n: nat)
    requires
        1_000 <= n < 10_000,
    ensures
        exists|i: int| 0 <= i < tokens_text(n).len() && #[trigger] tokens_text(n)[i] == ','
            && tokens_text(n).remove(i) == decimal(n),
{
    reveal_with_fuel(decimal, 5);
    reveal_strlit(",");
    assert(n / 1000 < 10);
    assert(n / 10 / 10 / 10 == n / 1000);
    assert(n / 10 / 10 % 10 == n / 100 % 10);
    assert(tokens_text(n)[1] == ',');
    assert(tokens_text(n).remove(1) =~= decimal(n));
}

proof fn lemma_exponent(a: nat, b: nat)
    requires
        0 < b <= a,
    ensures
        b * pow2(exponent(a, b)) <= a < 2 * (b * pow2(exponent(a, b))),
    decreases a - b,
{
    lemma2_to64();
    if a < 2 * b {
        assert(b * pow2(0) == b) by (nonlinear_arith)
            requires
                pow2(0) == 1,
        ;
    } else {
        let e = exponent(a, 2 * b);
        lemma_exponent(a, 2 * b);
        lemma_pow2_unfold(e + 1);
        assert(b * (2 * pow2(e)) == 2 * b * pow2(e)) by (nonlinear_arith);
    }
}

proof fn lemma_nearest(a: nat, b: nat)
    requires
        0 < b,
    ensures
        -b <= 2 * (nearest(a, b) * b - a) <= b,
{
    let q = a / b;
    let r = a % b;
    assert(a == q * b + r) by (nonlinear_arith)
        requires
            q == a / b,
            r == a % b,
            0 < b,
    ;
    assert((q + 1) * b == q * b + b) by (nonlinear_arith);
    assert(q % 2 == 0 || q % 2 == 1);
}

proof fn lemma_exponent_below(a: nat, b: nat, limit: nat)
    requires
        0 < b <= a < b * pow2(limit),
    ensures
        exponent(a, b) < limit,
{
    let e = exponent(a, b);
    lemma_exponent(a, b);
    if e > limit {
        lemma_pow2_strictly_increases(limit, e);
        assert(b * pow2(limit) <= b * pow2(e)) by (nonlinear_arith)
            requires
                pow2(limit) <= pow2(e),
        ;
    }
}

/// Every count up to 2^53 is a double-precision number.
pub proof fn law_small_counts_are_doubles(n: nat)
    requires
        n <= 0x20_0000_0000_0000,
    ensures
        as_double(n) == n,
{
    lemma2_to64();
    lemma2_to64_rest();
    if n > 0 {
        lemma_exponent(n, 1);
        let e = exponent(n, 1);
        if e > 52 {
            if e > 53 {
                lemma_pow2_strictly_increases(53, e);
            }
            assert(e == 53);
            assert(1 * pow2(53) == 0x20_0000_0000_0000);
            assert(n == 0x20_0000_0000_0000);
            assert(pow2((e - 52) as nat) == 2);
            assert(nearest(n, 2) == 0x10_0000_0000_0000);
            assert(as_double(n) == 0x10_0000_0000_0000 * 2);
        }
    }
}

/// A power of two up to 16 that divides `n`, and the exponent of one that `n / d` is below.
proof fn lemma_spacing(n: nat, d: nat) -> (r: (nat, nat))
    requires
        as_double(n) == n,
        (d == 1_000 && 10_000 <= n < 1_000_000) || (d == 1_000_000 && 1_000_000 <= n
            < 274_877_906_944_000_000),
    ensures
        r.0 == 1 || r.0 == 2 || r.0 == 4 || r.0 == 8 || r.0 == 16,
        n % r.0 == 0,
        exponent(n, d) < r.1 <= 38,
        r.0 * pow2((53 - r.1) as nat) == 0x8_0000,
        d == 1_000 ==> r.0 == 1,
{
    lemma2_to64();
    lemma2_to64_rest();
    lemma_exponent(n, 1);
    let k = exponent(n, 1);
    if k > 57 {
        if k > 58 {
            lemma_pow2_strictly_increases(58, k);
        }
        assert(pow2(58) <= n);
    }
    if k < 52 {
        lemma_pow2_strictly_increases(k, 52);
    }
    let (spacing, limit): (nat, nat) = if k <= 52 {
        (1, 34)
    } else if k == 53 {
        (2, 35)
    } else if k == 54 {
        (4, 36)
    } else if k == 55 {
        (8, 37)
    } else {
        (16, 38)
    };
    if k > 52 {
        let unit = pow2((k - 52) as nat);
        let q = nearest(n, unit);
        assert(n == q * unit);
        if k == 53 {
            assert(n == q * 2);
        } else if k == 54 {
            assert(n == q * 4);
        } else if k == 55 {
            assert(n == q * 8);
        } else if k == 56 {
            assert(n == q * 16);
        } else {
            assert(n == q * 32);
        }
    }
    assert(n < d * pow2(limit));
    lemma_exponent_below(n, d, limit);
    (spacing, limit)
}

proof fn lemma_error_multiple(t: int, d: int, n: int, spacing: int)
    requires
        spacing == 1 || spacing == 2 || spacing == 4 || spacing == 8 || spacing == 16,
        d == 1_000_000 || (d == 1_000 && spacing == 1),
        n % spacing == 0,
    ensures
        (t * d - 10 * n) % (10 * spacing) == 0,
{
    let c = if d == 1_000 {
        100int
    } else if spacing == 1 {
        100_000
    } else if spacing == 2 {
        50_000
    } else if spacing == 4 {
        25_000
    } else if spacing == 8 {
        12_500
    } else {
        6_250
    };
    let p = n / spacing;
    let step = 10 * spacing;
    assert(d == step * c) by (nonlinear_arith)
        requires
            (d == 1_000 && step == 10 && c == 100) || (d == 1_000_000 && ((step == 10 && c
                == 100_000) || (step == 20 && c == 50_000) || (step == 40 && c == 25_000) || (step
                == 80 && c == 12_500) || (step == 160 && c == 6_250))),
    ;
    assert(10 * n == step * p) by (nonlinear_arith)
        requires
            n % spacing == 0,
            spacing > 0,
            p == n / spacing,
            step == 10 * spacing,
    ;
    assert((t * d - 10 * n) % step == 0) by (nonlinear_arith)
        requires
            d == step * c,
            10 * n == step * p,
            step > 0,
    {
        assert(t * (step * c) - step * p == step * (t * c - p));
        assert((step * (t * c - p)) % step == 0);
    }
}

proof fn lemma_rounded_error(error: int, d: int, spacing: int)
    requires
        spacing == 1 || spacing == 2 || spacing == 4 || spacing == 8 || spacing == 16,
        error % (10 * spacing) == 0,
        d == 1_000_000 || (d == 1_000 && spacing == 1),
        -(d + 20 * spacing) < 2 * error < d + 20 * spacing,
    ensures
        -d <= 2 * error <= d,
{
    if spacing == 1 {
        assert(error % 10 == 0);
    } else if spacing == 2 {
        assert(error % 20 == 0);
    } else if spacing == 4 {
        assert(error % 40 == 0);
    } else if spacing == 8 {
        assert(error % 80 == 0);
    } else {
        assert(error % 160 == 0);
    }
}

/// A count that is a double-precision number, below 2^38 millions, is shown as the tenth, of a
/// thousand or of a million, that is nearest to it. A count that is none is rounded to one
/// before, and may be shown as the next tenth; so may greater counts.
pub proof fn law_tenths_are_nearest(n: nat, d: nat)
    requires
        as_double(n) == n,
        (d == 1_000 && 10_000 <= n < 1_000_000) || (d == 1_000_000 && 1_000_000 <= n
            < 274_877_906_944_000_000),
    ensures
        -d <= 2 * (tenths_of(n, d) * d - 10 * n) <= d,
{
    lemma2_to64();
    let (spacing, limit) = lemma_spacing(n, d);
    let e = exponent(n, d);
    let m = pow2((52 - e) as nat);
    if 52 - e > 53 - limit {
        lemma_pow2_strictly_increases((53 - limit) as nat, (52 - e) as nat);
    }
    let q = nearest(n * m, d);
    let t = nearest(10 * q, m);
    lemma_pow2_pos((52 - e) as nat);
    lemma_nearest(n * m, d);
    lemma_nearest(10 * q, m);
    let (ni, di, mi, qi, ti) = (n as int, d as int, m as int, q as int, t as int);
    let error = ti * di - 10 * ni;
    assert(2 * (error * mi) == di * (2 * (ti * mi - 10 * qi)) + 10 * (2 * (qi * di - ni * mi)))
        by (nonlinear_arith)
        requires
            error == ti * di - 10 * ni,
    ;
    let a = 2 * (ti * mi - 10 * qi);
    assert(-(di * mi) <= di * a <= di * mi) by (nonlinear_arith)
        requires
            -mi <= a <= mi,
            0 < di,
    ;
    let s = spacing as int;
    let least = pow2((53 - limit) as nat) as int;
    assert(s * mi >= 0x8_0000) by (nonlinear_arith)
        requires
            s * least == 0x8_0000,
            least <= mi,
            s > 0,
    ;
    assert(-(di + 20 * s) < 2 * error < di + 20 * s) by (nonlinear_arith)
        requires
            -(di * mi) - 10 * di <= 2 * (error * mi) <= di * mi + 10 * di,
            0 < di <= 1_000_000,
            s * mi >= 0x8_0000,
            0 < mi,
    ;
    lemma_error_multiple(ti, di, ni, s);
    lemma_rounded_error(error, di, s);
}

/// Counts below a thousand are shown as they are, those below ten thousand with a comma before the
/// last three digits, and greater ones in thousands or, from a million on, in millions, with
/// one digit behind the point, which is the nearest one for the counts of
/// `law_tenths_are_nearest`.
pub proof fn law_counts_are_shown_by_their_size(n: nat)
    requires
        as_double(n) == n,
        n < 274_877_906_944_000_000,
    ensures
        n < 1_000 ==> tokens_text(n) == decimal(n),
        1_000 <= n < 10_000 ==> tokens_text(n) == decimal(n / 1000) + seq![
            ',',
            digit((n / 100 % 10) as int),
            digit((n / 10 % 10) as int),
            digit((n % 10) as int),
        ],
        10_000 <= n < 1_000_000 ==> exists|tenths: nat|
            -1_000 <= 2 * (tenths * 1_000 - 10 * n) <= 1_000 && tokens_text(n)
                == #[trigger] decimal(tenths / 10) + "."@ + decimal(tenths % 10) + "k"@,
        1_000_000 <= n ==> exists|tenths: nat|
            -1_000_000 <= 2 * (tenths * 1_000_000 - 10 * n) <= 1_000_000 && tokens_text(n)
                == #[trigger] decimal(tenths / 10) + "."@ + decimal(tenths % 10) + "M"@,
{
    reveal_strlit(",");
    if n >= 1_000_000 {
        law_tenths_are_nearest(n, 1_000_000);
        let tenths = tenths_of(n, 1_000_000);
        assert(tokens_text(n) == decimal(tenths / 10) + "."@ + decimal(tenths % 10) + "M"@);
    } else if n >= 10_000 {
        law_tenths_are_nearest(n, 1_000);
        let tenths = tenths_of(n, 1_000);
        assert(tokens_text(n) == decimal(tenths / 10) + "."@ + decimal(tenths % 10) + "k"@);
    } else if n >= 1_000 {
        assert(tokens_text(n) =~= decimal(n / 1000) + seq![
            ',',
            digit((n / 100 % 10) as int),
            digit((n / 10 % 10) as int),
            digit((n % 10) as int),
        ]);
    }
}

} // verus!
