//! Column and number formatting shared by the text and HTML reports.
//!
//! Percentages and means in the reports are quotients of counts, rendered the
//! way a binary double holding the quotient prints: the nearest decimal at the
//! requested precision, halves to even. Where a quotient lies exactly halfway
//! between two decimals and is not itself a binary fraction, the double holding
//! it lies just off the half, and the side it lies on decides.

use vstd::prelude::*;
use crate::text::{char_count, decimal, digit_char, push_char, push_str, push_wide_decimal};

verus! {

// ---------------------------------------------------------------------------
// Columns
// ---------------------------------------------------------------------------

/// `k` spaces.
pub open spec fn spaces(k: nat) -> Seq<char> {
    Seq::new(k, |i: int| ' ')
}

/// `s` right-aligned in a column of `w` characters.
pub open spec fn pad_left(s: Seq<char>, w: nat) -> Seq<char> {
    if s.len() >= w { s } else { spaces((w - s.len()) as nat) + s }
}

/// `s` left-aligned in a column of `w` characters.
pub open spec fn pad_right(s: Seq<char>, w: nat) -> Seq<char> {
    if s.len() >= w { s } else { s + spaces((w - s.len()) as nat) }
}

/// Appends `k` spaces.
pub fn push_spaces(out: &mut String, k: usize)
    ensures
        final(out)@ == old(out)@ + spaces(k as nat),
{
    let mut i: usize = 0;
    assert(out@ =~= old(out)@ + spaces(0));
    while i < k
        invariant
            i <= k,
            out@ == old(out)@ + spaces(i as nat),
        decreases k - i,
    {
        push_char(out, ' ');
        i = i + 1;
        assert(out@ =~= old(out)@ + spaces(i as nat));
    }
}

/// Appends `s` right-aligned in a column of `w` characters.
pub fn push_left(out: &mut String, s: &str, w: usize)
    ensures
        final(out)@ == old(out)@ + pad_left(s@, w as nat),
{
    let n = char_count(s);
    if n < w {
        push_spaces(out, w - n);
    }
    push_str(out, s);
    assert(out@ =~= old(out)@ + pad_left(s@, w as nat));
}

/// Appends `s` left-aligned in a column of `w` characters.
pub fn push_right(out: &mut String, s: &str, w: usize)
    ensures
        final(out)@ == old(out)@ + pad_right(s@, w as nat),
{
    let n = char_count(s);
    push_str(out, s);
    if n < w {
        push_spaces(out, w - n);
    }
    assert(out@ =~= old(out)@ + pad_right(s@, w as nat));
}

/// The decimal rendering of `n` as a `String`.
pub fn number_text(n: u128) -> (r: String)
    ensures
        r@ == decimal(n as nat),
{
    let mut r = String::new();
    push_wide_decimal(&mut r, n);
    assert(r@ =~= decimal(n as nat));
    r
}

// ---------------------------------------------------------------------------
// Rounding
// ---------------------------------------------------------------------------

/// `n / d` to the nearest integer, halves to even.
pub open spec fn round_even(n: nat, d: nat) -> nat {
    let q = n / d;
    let r = n % d;
    if 2 * r < d {
        q
    } else if 2 * r > d {
        q + 1
    } else if q % 2 == 0 {
        q
    } else {
        q + 1
    }
}

fn round_even_of(n: u128, d: u128) -> (r: u128)
    requires
        0 < d < 0x1_0000_0000_0000_0000_0000_0000,
        n < 0x1_0000_0000_0000_0000_0000_0000,
    ensures
        r == round_even(n as nat, d as nat),
{
    let q = n / d;
    let r = n % d;
    if 2 * r < d {
        q
    } else if 2 * r > d {
        q + 1
    } else if q % 2 == 0 {
        q
    } else {
        q + 1
    }
}

/// The percentage `100·n/d`, to the nearest whole number, halves to even.
pub open spec fn percent_of(n: nat, d: nat) -> nat {
    round_even(100 * n, d)
}

/// Computes `percent_of(n, d)`.
pub fn percent(n: u128, d: u128) -> (r: u128)
    requires
        0 < d < 0x1_0000_0000_0000_0000_0000,
        n < 0x1_0000_0000_0000_0000_0000,
    ensures
        r == percent_of(n as nat, d as nat),
{
    round_even_of(100 * n, d)
}

/// `5·2^52`: from here on, `x/5` has 53 binary digits before the point.
pub open spec fn fifth_floor() -> nat {
    22517998136852480
}

/// For `x` not a multiple of five: whether the 53-bit binary number nearest
/// to `x/5` lies above it. `x` is doubled until `x/5` has 53 binary digits
/// before the point; the fraction then dropped is `(x mod 5)/5`, and the
/// nearest value lies above when that fraction exceeds one half.
pub open spec fn binary_rounds_up(x: nat) -> bool
    decreases (if x < fifth_floor() { fifth_floor() - x } else { 0 }),
{
    if x == 0 {
        false
    } else if x >= fifth_floor() {
        x % 5 >= 3
    } else {
        binary_rounds_up(2 * x)
    }
}

fn rounds_up(c: u128) -> (r: bool)
    requires
        c < 0x1_0000_0000_0000_0000_0000_0000,
    ensures
        r == binary_rounds_up(c as nat),
{
    if c == 0 {
        return false;
    }
    let mut x: u128 = c;
    while x < 22517998136852480
        invariant
            0 < x < 0x1_0000_0000_0000_0000_0000_0000,
            binary_rounds_up(x as nat) == binary_rounds_up(c as nat),
        decreases (if x < 22517998136852480 { 22517998136852480 - x } else { 0 }),
    {
        x = 2 * x;
    }
    x % 5 >= 3
}

/// The quotient `a/b` in tenths, as a double holding `a/b` prints with one
/// decimal: the nearest tenth; exactly halfway (`a/b == c/20`, `c` odd), a
/// binary fraction goes to the even tenth and any other quotient goes the
/// way its nearest double lies.
pub open spec fn tenths(a: nat, b: nat) -> nat {
    let q = (10 * a) / b;
    let r = (10 * a) % b;
    if 2 * r < b {
        q
    } else if 2 * r > b {
        q + 1
    } else {
        let c = 2 * q + 1;
        if c % 5 == 0 {
            if q % 2 == 0 { q } else { q + 1 }
        } else if binary_rounds_up(c) {
            q + 1
        } else {
            q
        }
    }
}

/// `a/b` with one decimal.
pub open spec fn one_decimal(a: nat, b: nat) -> Seq<char> {
    let t = tenths(a, b);
    decimal(t / 10) + seq!['.', digit_char(t % 10)]
}

fn tenths_of(a: u128, b: u128) -> (t: u128)
    requires
        0 < b < 0x1_0000_0000_0000_0000_0000,
        a < 0x1_0000_0000_0000_0000_0000,
    ensures
        t == tenths(a as nat, b as nat),
{
    let q = (10 * a) / b;
    let r = (10 * a) % b;
    if 2 * r < b {
        q
    } else if 2 * r > b {
        q + 1
    } else {
        let c = 2 * q + 1;
        if c % 5 == 0 {
            if q % 2 == 0 { q } else { q + 1 }
        } else if rounds_up(c) {
            q + 1
        } else {
            q
        }
    }
}

/// Appends `a/b` with one decimal.
pub fn push_one_decimal(out: &mut String, a: u128, b: u128)
    requires
        0 < b < 0x1_0000_0000_0000_0000_0000,
        a < 0x1_0000_0000_0000_0000_0000,
    ensures
        final(out)@ == old(out)@ + one_decimal(a as nat, b as nat),
{
    let t = tenths_of(a, b);
    push_wide_decimal(out, t / 10);
    push_char(out, '.');
    push_wide_decimal(out, t % 10);
    assert(decimal((t % 10) as nat) == seq![digit_char((t % 10) as nat)]);
    assert(out@ =~= old(out)@ + one_decimal(a as nat, b as nat));
}

/// The hue, in degrees from 140 (green) down to 0 (red), of the heat colour
/// for the difficulty `a/b` on the 0–5 scale: `140·(1 − min(a/(5b), 1))`,
/// to the nearest degree, halves to even.
pub open spec fn hue(a: nat, b: nat) -> nat {
    if a >= 5 * b { 0 } else { round_even((140 * b - 28 * a) as nat, b) }
}

/// The heat hue runs from 140 (green) at difficulty 0 down to 0 (red) at
/// difficulty 5 and above, and never leaves that range.
pub proof fn lemma_hue_range(a: nat, b: nat)
    requires
        b > 0,
    ensures
        hue(a, b) <= 140,
        hue(0, b) == 140,
        a >= 5 * b ==> hue(a, b) == 0,
{
    assert((140 * b) / b == 140 && (140 * b) % b == 0) by (nonlinear_arith)
        requires
            b > 0,
    ;
    if a < 5 * b {
        let n = (140 * b - 28 * a) as nat;
        assert(n / b <= 140 && (n / b == 140 ==> n % b == 0)) by (nonlinear_arith)
            requires
                b > 0,
                n <= 140 * b,
        ;
    }
}

proof fn lemma_div_parts(n: nat, b: nat)
    requires
        b > 0,
    ensures
        n == (n / b) * b + n % b,
        n % b < b,
{
    vstd::arithmetic::div_mod::lemma_fundamental_div_mod(n as int, b as int);
    vstd::arithmetic::mul::lemma_mul_is_commutative((n / b) as int, b as int);
}

proof fn lemma_round_even_monotone(n1: nat, b1: nat, n2: nat, b2: nat)
    requires
        b1 > 0,
        b2 > 0,
        n1 * b2 >= n2 * b1,
    ensures
        round_even(n1, b1) >= round_even(n2, b2),
{
    let q1 = n1 / b1;
    let r1 = n1 % b1;
    let q2 = n2 / b2;
    let r2 = n2 % b2;
    lemma_div_parts(n1, b1);
    lemma_div_parts(n2, b2);
    assert(q1 >= q2) by (nonlinear_arith)
        requires
            n1 == q1 * b1 + r1,
            r1 < b1,
            n2 == q2 * b2 + r2,
            n1 * b2 >= n2 * b1,
            b1 > 0,
            b2 > 0,
    ;
    if q1 == q2 {
        assert(r1 * b2 >= r2 * b1) by (nonlinear_arith)
            requires
                n1 == q1 * b1 + r1,
                n2 == q1 * b2 + r2,
                n1 * b2 >= n2 * b1,
        ;
        assert(2 * r2 > b2 ==> 2 * r1 > b1) by (nonlinear_arith)
            requires
                r1 * b2 >= r2 * b1,
                b1 > 0,
                b2 > 0,
        ;
        assert(2 * r2 == b2 ==> 2 * r1 >= b1) by (nonlinear_arith)
            requires
                r1 * b2 >= r2 * b1,
                b1 > 0,
                b2 > 0,
        ;
    }
}

/// A harder difficulty never gets a greener hue: `a1/b1 ≤ a2/b2` gives
/// `hue(a1, b1) ≥ hue(a2, b2)`.
pub proof fn lemma_hue_monotone(a1: nat, b1: nat, a2: nat, b2: nat)
    requires
        b1 > 0,
        b2 > 0,
        a1 * b2 <= a2 * b1,
    ensures
        hue(a1, b1) >= hue(a2, b2),
{
    if a2 < 5 * b2 {
        if a1 >= 5 * b1 {
            assert(false) by (nonlinear_arith)
                requires
                    a1 >= 5 * b1,
                    a2 < 5 * b2,
                    a1 * b2 <= a2 * b1,
                    b1 > 0,
                    b2 > 0,
            ;
        } else {
            let n1 = (140 * b1 - 28 * a1) as nat;
            let n2 = (140 * b2 - 28 * a2) as nat;
            assert(n1 * b2 >= n2 * b1) by (nonlinear_arith)
                requires
                    n1 == 140 * b1 - 28 * a1,
                    n2 == 140 * b2 - 28 * a2,
                    a1 * b2 <= a2 * b1,
            ;
            lemma_round_even_monotone(n1, b1, n2, b2);
        }
    }
}

/// Computes `hue(a, b)`.
pub fn hue_of(a: u128, b: u128) -> (h: u128)
    requires
        0 < b < 0x1_0000_0000_0000_0000_0000,
        a < 0x1_0000_0000_0000_0000_0000,
    ensures
        h == hue(a as nat, b as nat),
{
    if a >= 5 * b {
        0
    } else {
        round_even_of(140 * b - 28 * a, b)
    }
}

// ---------------------------------------------------------------------------
// Cells
// ---------------------------------------------------------------------------

/// A percentage cell of the text report: at least three characters and a
/// `%`, or `  -` where there is no denominator.
pub open spec fn pct_cell(n: nat, d: nat) -> Seq<char> {
    if d == 0 {
        seq![' ', ' ', '-']
    } else {
        pad_left(decimal(percent_of(n, d)), 3) + seq!['%']
    }
}

/// Builds `pct_cell(n, d)`.
pub fn pct_cell_text(n: u128, d: u128) -> (r: String)
    requires
        n < 0x1_0000_0000_0000_0000_0000,
        d < 0x1_0000_0000_0000_0000_0000,
    ensures
        r@ == pct_cell(n as nat, d as nat),
{
    let mut r = String::new();
    if d == 0 {
        push_str(&mut r, "  -");
        proof {
            reveal_strlit("  -");
        }
        assert(r@ =~= pct_cell(n as nat, d as nat));
    } else {
        let p = number_text(percent(n, d));
        push_left(&mut r, p.as_str(), 3);
        push_char(&mut r, '%');
        assert(r@ =~= pct_cell(n as nat, d as nat));
    }
    r
}

/// A mean cell of the text report: `sum/n` with one decimal, or `  -` when
/// nothing was counted.
pub open spec fn mean_cell(sum: nat, n: nat) -> Seq<char> {
    if n > 0 { one_decimal(sum, n) } else { seq![' ', ' ', '-'] }
}

/// Builds `mean_cell(sum, n)`.
pub fn mean_cell_text(sum: u128, n: u128) -> (r: String)
    requires
        sum < 0x1_0000_0000_0000_0000_0000,
        n < 0x1_0000_0000_0000_0000_0000,
    ensures
        r@ == mean_cell(sum as nat, n as nat),
{
    let mut r = String::new();
    if n > 0 {
        push_one_decimal(&mut r, sum, n);
        assert(r@ =~= mean_cell(sum as nat, n as nat));
    } else {
        push_str(&mut r, "  -");
        proof {
            reveal_strlit("  -");
        }
        assert(r@ =~= mean_cell(sum as nat, n as nat));
    }
    r
}

} // verus!
