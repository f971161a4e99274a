//! Sizes and durations as the workbench shows them: bytes, kilobytes and
//! megabytes, milliseconds and seconds, with one decimal. The decimal is the
//! one that formatting the quotient as a 64-bit float with `{:.1}` prints:
//! the quotient is first rounded to the nearest float (53 significant bits,
//! ties to an even significand) where it is not one already, and the float's
//! exact value is then rounded to one decimal, ties to an even digit.
use vstd::prelude::*;
use crate::json::dec_u64;
use crate::pdf_text::{dec, dec_chars};
use crate::text::{extend_chars, push_str, string_from_chars};

verus! {

/// The nearest whole number to `num / den`, ties to the even one.
pub open spec fn round_half_even(num: nat, den: nat) -> nat {
    let q = num / den;
    let r = num % den;
    if 2 * r > den || (2 * r == den && q % 2 == 1) {
        q + 1
    } else {
        q
    }
}

/// `num / den` with one decimal, ties to an even digit.
pub open spec fn one_decimal(num: nat, den: nat) -> Seq<char> {
    let d = round_half_even(num * 10, den);
    dec(d / 10) + "."@ + dec(d % 10)
}

/// 2⁵³: below it every whole number is a 64-bit float.
pub open spec fn two_53() -> nat {
    9007199254740992
}

/// The smallest power of two from `p` on (doubling) by which `n` divides to
/// below 2⁵³.
pub open spec fn float_scale(n: nat, p: nat) -> nat
    decreases n + 1 - p,
{
    if p == 0 || n / p < two_53() || p > n {
        p
    } else {
        proof {
            assert(2 * p <= n) by (nonlinear_arith)
                requires
                    n / p >= 9007199254740992,
                    p > 0,
            ;
        }
        float_scale(n, 2 * p)
    }
}

/// The 64-bit float nearest to the whole number `n`, ties to an even
/// significand.
pub open spec fn float_of(n: nat) -> nat {
    let p = float_scale(n, 1);
    round_half_even(n, p) * p
}

/// The size text of a byte count: bytes below 1024, kilobytes below 1024²,
/// megabytes above.
pub open spec fn size_text(bytes: nat) -> Seq<char> {
    if bytes < 1024 {
        dec(bytes) + " B"@
    } else if bytes < 1048576 {
        one_decimal(bytes, 1024) + " KB"@
    } else {
        one_decimal(float_of(bytes), 1048576) + " MB"@
    }
}

fn round_half_even_u128(num: u128, den: u128) -> (r: u128)
    requires
        den > 0,
        num / den + 1 <= u128::MAX,
    ensures
        r == round_half_even(num as nat, den as nat),
{
    let q = num / den;
    let r = num % den;
    if r > den - r || (r == den - r && q % 2 == 1) {
        q + 1
    } else {
        q
    }
}

/// Appends the text of `num / den` with one decimal.
fn push_one_decimal(out: &mut Vec<char>, num: u128, den: u128)
    requires
        den > 0,
        num <= u128::MAX / 10,
        (num as int) * 10 / (den as int) < 18446744073709551615,
    ensures
        final(out)@ == old(out)@ + one_decimal(num as nat, den as nat),
{
    let d = round_half_even_u128(num * 10, den);
    assert(d <= (num as int) * 10 / (den as int) + 1);
    let whole = (d / 10) as u64;
    let frac = (d % 10) as u64;
    extend_chars(out, &dec_u64(whole));
    push_str(out, ".");
    extend_chars(out, &dec_u64(frac));
}

/// The 64-bit float nearest to `n`, for `n` up to 2⁷².
fn float_of_wide(n: u128) -> (r: u128)
    requires
        n <= 4722366482869645213696,
    ensures
        r == float_of(n as nat),
        r <= n + 1048576,
        n > 0 ==> r > 0,
{
    let mut p: u128 = 1;
    while n / p >= 9007199254740992 && p <= n
        invariant
            1 <= p <= 1048576,
            n <= 4722366482869645213696,
            n >= 1 ==> p <= n,
            float_scale(n as nat, 1) == float_scale(n as nat, p as nat),
        decreases n + 1 - p,
    {
        proof {
            vstd::arithmetic::div_mod::lemma_fundamental_div_mod(n as int, p as int);
        }
        assert(p <= 524288 && 2 * p <= n) by (nonlinear_arith)
            requires
                n / p >= 9007199254740992,
                n == p * (n / p) + n % p,
                n % p >= 0,
                n <= 4722366482869645213696,
                p >= 1,
        ;
        p = p * 2;
    }
    let q = round_half_even_u128(n, p);
    proof {
        vstd::arithmetic::div_mod::lemma_fundamental_div_mod(n as int, p as int);
        if n >= 1 {
            vstd::arithmetic::div_mod::lemma_div_by_self(p as int);
            vstd::arithmetic::div_mod::lemma_div_is_ordered(p as int, n as int, p as int);
            assert(q >= 1);
            assert(q * p >= 1) by (nonlinear_arith)
                requires
                    q >= 1,
                    p >= 1,
            ;
        }
    }
    assert(q * p <= n + p) by (nonlinear_arith)
        requires
            q <= n / p + 1,
            n == p * (n / p) + n % p,
            n % p >= 0,
            p >= 1,
    ;
    q * p
}

/// A byte count for display, e.g. "512 B", "1.5 KB" or "2.5 MB".
pub fn format_size(bytes: usize) -> (r: String)
    ensures
        r@ == size_text(bytes as nat),
{
    let mut out: Vec<char> = Vec::new();
    if bytes < 1024 {
        extend_chars(&mut out, &dec_chars(bytes));
        push_str(&mut out, " B");
    } else if bytes < 1048576 {
        push_one_decimal(&mut out, bytes as u128, 1024);
        push_str(&mut out, " KB");
    } else {
        let f = float_of_wide(bytes as u128);
        push_one_decimal(&mut out, f, 1048576);
        push_str(&mut out, " MB");
    }
    string_from_chars(&out)
}

/// `d` doubled while it stays at most `num` halved: `d · 2ᵉ` for the largest
/// `e` with `d · 2ᵉ ≤ num`, where `d ≤ num`.
pub open spec fn top_unit(num: nat, d: nat) -> nat
    decreases num + 1 - d,
{
    if d == 0 || num < 2 * d {
        d
    } else {
        top_unit(num, 2 * d)
    }
}

/// 2⁵²: the weight of a 64-bit float's leading significand bit.
pub open spec fn two_52() -> nat {
    4503599627370496
}

/// The duration text of a number of milliseconds: milliseconds below a
/// second, else seconds with one decimal. The seconds are `ms / 1000`
/// rounded to the nearest float: with `top = 1000 · 2ᵉ ≤ ms < 2 · top`, the
/// float's significand is `ms · 2⁵² / top` rounded, ties to even, and its
/// value that significand times `top / (1000 · 2⁵²)`.
pub open spec fn elapsed_text(ms: nat) -> Seq<char> {
    if ms < 1000 {
        dec(ms) + " ms"@
    } else {
        let top = top_unit(ms, 1000);
        let j = round_half_even(ms * two_52(), top);
        one_decimal(j * top, 1000 * two_52()) + " s"@
    }
}

/// A conversion's duration for display, e.g. "12 ms" or "1.3 s".
pub fn format_elapsed(ms: u32) -> (r: String)
    ensures
        r@ == elapsed_text(ms as nat),
{
    let mut out: Vec<char> = Vec::new();
    if ms < 1000 {
        extend_chars(&mut out, &dec_u64(ms as u64));
        push_str(&mut out, " ms");
    } else {
        let m = ms as u128;
        let mut d: u128 = 1000;
        while m >= 2 * d
            invariant
                1000 <= d <= m,
                m == ms,
                m < 4294967296,
                top_unit(ms as nat, 1000) == top_unit(ms as nat, d as nat),
            decreases m - d,
        {
            d = 2 * d;
        }
        let j = round_half_even_u128(m * 4503599627370496, d);
        assert(j <= 18014398509481984) by (nonlinear_arith)
            requires
                j <= (m as int) * 4503599627370496 / (d as int) + 1,
                m < 2 * d,
                d >= 1000,
        ;
        assert(j * d <= 18014398509481984 * 4294967296) by (nonlinear_arith)
            requires
                j <= 18014398509481984,
                d <= 4294967296,
        ;
        assert((j * d) as int * 10 / 4503599627370496000 < 18446744073709551615) by (nonlinear_arith)
            requires
                j * d <= 18014398509481984 * 4294967296,
        ;
        push_one_decimal(&mut out, j * d, 4503599627370496000);
        push_str(&mut out, " s");
    }
    string_from_chars(&out)
}

/// The nearest whole number to `num / den`, ties away from zero.
pub open spec fn round_half_up(num: nat, den: nat) -> nat {
    if 2 * (num % den) >= den {
        num / den + 1
    } else {
        num / den
    }
}

/// `p` doubled until `a · p` reaches `target`.
pub open spec fn lift_unit(a: nat, target: nat, p: nat) -> nat
    decreases 2 * target - a * p,
{
    if a == 0 || p == 0 || a * p >= target {
        p
    } else {
        proof {
            assert(a * (2 * p) == 2 * (a * p)) by (nonlinear_arith);
            assert(a * p >= 1) by (nonlinear_arith)
                requires
                    a >= 1,
                    p >= 1,
            ;
        }
        lift_unit(a, target, 2 * p)
    }
}

/// The magnitude of the size change from `input` to `output` bytes in
/// percent, as the float computation `(out - in) / in · 100` rounded half
/// away from zero gives it: both sizes and their difference are rounded to
/// floats, the quotient `a / i` to a float with a 53-bit significand `j`
/// (scaled by a power of two, `top / i` or `1 / p`), the product with 100
/// to the float nearest `100 · j` (same scale), and that to a whole number.
pub open spec fn delta_magnitude(input: nat, output: nat) -> nat {
    let o = float_of(output);
    let i = float_of(input);
    let a = float_of(if o >= i { (o - i) as nat } else { (i - o) as nat });
    if a == 0 {
        0
    } else if a >= i {
        let top = top_unit(a, i);
        let j = round_half_even(a * two_52(), top);
        round_half_up(float_of(100 * j) * top, i * two_52())
    } else {
        let p = lift_unit(a, i, 1);
        let j = round_half_even(a * p * two_52(), i);
        round_half_up(float_of(100 * j), two_52() * p)
    }
}

/// The whole-number percentage of the size change, saturated to the range
/// of a 64-bit signed integer.
pub open spec fn percent_change(input: nat, output: nat) -> int {
    let m = delta_magnitude(input, output);
    if float_of(output) >= float_of(input) {
        if m > 9223372036854775807 {
            9223372036854775807
        } else {
            m as int
        }
    } else {
        if m > 9223372036854775808 {
            -9223372036854775808
        } else {
            -(m as int)
        }
    }
}

/// The size-change badge: none for an empty input or a change that rounds
/// to zero percent, else the signed percentage, e.g. "+8%" or "-42%".
pub open spec fn size_delta_text(input: nat, output: nat) -> Option<Seq<char>> {
    if input == 0 {
        None
    } else {
        let pct = percent_change(input, output);
        if pct == 0 {
            None
        } else if pct > 0 {
            Some("+"@ + dec(pct as nat) + "%"@)
        } else {
            Some("-"@ + dec((-pct) as nat) + "%"@)
        }
    }
}

fn round_half_up_u128(num: u128, den: u128) -> (r: u128)
    requires
        den > 0,
        num / den + 1 <= u128::MAX,
    ensures
        r == round_half_up(num as nat, den as nat),
{
    let q = num / den;
    let r = num % den;
    if r >= den - r {
        q + 1
    } else {
        q
    }
}

/// The size change from `input` to `output` bytes in percent, for display
/// beside a converted file: `None` when the input is empty or the change
/// rounds to zero.
pub fn format_size_delta(input: usize, output: usize) -> (r: Option<String>)
    ensures
        r matches Some(t) ==> size_delta_text(input as nat, output as nat) == Some(t@),
        r is None ==> size_delta_text(input as nat, output as nat) is None,
{
    if input == 0 {
        return None;
    }
    let o = float_of_wide(output as u128);
    let i = float_of_wide(input as u128);
    let up = o >= i;
    let diff = if up { o - i } else { i - o };
    let a = float_of_wide(diff);
    let m: u128 = if a == 0 {
        0
    } else if a >= i {
        let mut d: u128 = i;
        while a >= 2 * d
            invariant
                1 <= i <= d <= a,
                a <= 36893488147419103232,
                top_unit(a as nat, i as nat) == top_unit(a as nat, d as nat),
            decreases a - d,
        {
            d = 2 * d;
        }
        let j = round_half_even_u128(a * 4503599627370496, d);
        assert(j <= 9007199254740992) by (nonlinear_arith)
            requires
                j <= (a as int) * 4503599627370496 / (d as int) + 1,
                a < 2 * d,
                d >= 1,
        ;
        let f = float_of_wide(100 * j);
        assert(f * d <= 900719925575152640 * 36893488147419103232) by (nonlinear_arith)
            requires
                f <= 900719925474803712 + 1048576,
                d <= 36893488147419103232,
        ;
        round_half_up_u128(f * d, i * 4503599627370496)
    } else {
        let mut p: u128 = 1;
        while a * p < i
            invariant
                1 <= a < i,
                i <= 18446744073709551616 + 1048576,
                1 <= p,
                a * p < 2 * i,
                lift_unit(a as nat, i as nat, 1) == lift_unit(a as nat, i as nat, p as nat),
            decreases 2 * i - a * p,
        {
            assert(a * (2 * p) == 2 * (a * p)) by (nonlinear_arith);
            assert(p <= a * p) by (nonlinear_arith)
                requires
                    a >= 1,
                    p >= 1,
            ;
            p = 2 * p;
        }
        assert(p <= 2 * i) by (nonlinear_arith)
            requires
                a * p < 2 * i,
                a >= 1,
        ;
        let j = round_half_even_u128(a * p * 4503599627370496, i);
        assert(j <= 9007199254740992) by (nonlinear_arith)
            requires
                j <= (a * p) as int * 4503599627370496 / (i as int) + 1,
                a * p < 2 * i,
                i >= 1,
        ;
        let f = float_of_wide(100 * j);
        round_half_up_u128(f, 4503599627370496 * p)
    };
    assert(m == delta_magnitude(input as nat, output as nat));
    if m == 0 {
        return None;
    }
    let mut out: Vec<char> = Vec::new();
    if up {
        push_str(&mut out, "+");
        let c: u128 = if m > 9223372036854775807 { 9223372036854775807 } else { m };
        extend_chars(&mut out, &dec_u64(c as u64));
    } else {
        push_str(&mut out, "-");
        let c: u128 = if m > 9223372036854775808 { 9223372036854775808 } else { m };
        extend_chars(&mut out, &dec_u64(c as u64));
    }
    push_str(&mut out, "%");
    Some(string_from_chars(&out))
}

} // verus!
