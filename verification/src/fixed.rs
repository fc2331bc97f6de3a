use vstd::prelude::*;
use vstd::string::StringExecFns;

verus! {

/// 1.0 expressed in millionths: scores and thresholds are held in these units.
pub const ONE: i64 = 1_000_000;

/// 1.0 expressed in the units of an Achievement Loss (10^-18), i.e. `ONE` cubed.
pub const LOSS_ONE: i128 = 1_000_000_000_000_000_000;

/// Ten to the power `n`.
pub open spec fn pow10(n: nat) -> nat
    decreases n,
{
    if n == 0 {
        1
    } else {
        10 * pow10((n - 1) as nat)
    }
}

/// Achievement Loss `1 - comprehension * generalization * retention`, with the three
/// scores in millionths and the result in units of 10^-18.
pub open spec fn spec_achievement_loss(comprehension: int, generalization: int, retention: int) -> int {
    LOSS_ONE - comprehension * generalization * retention
}

/// The largest score held in a `u32`.
pub open spec fn max_score() -> int {
    4_294_967_295
}

/// The product of three scores held in `u32` never exceeds `u32::MAX` cubed.
pub proof fn lemma_score_product_bounds(a: int, b: int, c: int)
    requires
        0 <= a <= max_score(),
        0 <= b <= max_score(),
        0 <= c <= max_score(),
    ensures
        0 <= a * b <= max_score() * max_score(),
        0 <= a * b * c <= max_score() * max_score() * max_score(),
{
    let m = max_score();
    assert(0 <= a * b <= m * m) by (nonlinear_arith)
        requires 0 <= a <= m, 0 <= b <= m;
    assert(0 <= (a * b) * c <= (m * m) * m) by (nonlinear_arith)
        requires 0 <= a * b <= m * m, 0 <= c <= m;
}

/// Computes the Achievement Loss of three scores in millionths, in units of 10^-18.
pub fn achievement_loss_of(comprehension: u32, generalization: u32, retention: u32) -> (loss: i128)
    ensures
        loss == spec_achievement_loss(comprehension as int, generalization as int, retention as int),
{
    proof {
        lemma_score_product_bounds(comprehension as int, generalization as int, retention as int);
    }
    let pair: i128 = (comprehension as i128) * (generalization as i128);
    let product: i128 = pair * (retention as i128);
    LOSS_ONE - product
}

/// The decimal digit character for `d < 10`.
pub open spec fn digit_char(d: nat) -> char {
    if d == 0 { '0' }
    else if d == 1 { '1' }
    else if d == 2 { '2' }
    else if d == 3 { '3' }
    else if d == 4 { '4' }
    else if d == 5 { '5' }
    else if d == 6 { '6' }
    else if d == 7 { '7' }
    else if d == 8 { '8' }
    else { '9' }
}

/// The decimal numeral of `n`, without leading zeros (`"0"` for zero).
pub open spec fn digits(n: nat) -> Seq<char>
    decreases n,
{
    if n < 10 {
        seq![digit_char(n)]
    } else {
        digits(n / 10).push(digit_char(n % 10))
    }
}

/// The last `k` decimal digits of `n`, padded with leading zeros.
pub open spec fn fixed_digits(n: nat, k: nat) -> Seq<char>
    decreases k,
{
    if k == 0 {
        Seq::empty()
    } else {
        fixed_digits(n / 10, (k - 1) as nat).push(digit_char(n % 10))
    }
}

/// `m / d` rounded to the nearest integer, ties to the even neighbour.
pub open spec fn round_half_even(m: nat, d: nat) -> nat
    recommends
        d > 0,
{
    let q = m / d;
    let r = m % d;
    if 2 * r > d || (2 * r == d && q % 2 == 1) {
        q + 1
    } else {
        q
    }
}

/// The absolute value of `v`.
pub open spec fn magnitude(v: int) -> nat {
    if v < 0 {
        (-v) as nat
    } else {
        v as nat
    }
}

/// Text of `value`, a number in units of 10^-`unit_digits`, rounded to `places` decimals:
/// a minus sign when `value` is negative, the whole part, and (when `places > 0`) a point
/// followed by exactly `places` fractional digits.
pub open spec fn spec_render_fixed(value: int, unit_digits: nat, places: nat) -> Seq<char> {
    let q = round_half_even(magnitude(value), pow10((unit_digits - places) as nat));
    let sign: Seq<char> = if value < 0 { seq!['-'] } else { Seq::empty() };
    let whole = digits(q / pow10(places));
    if places == 0 {
        sign + whole
    } else {
        sign + whole + seq!['.'] + fixed_digits(q, places)
    }
}

/// `pow10(n)` as a machine integer.
fn pow10_exec(n: u32) -> (p: u128)
    requires
        n <= 18,
    ensures
        p == pow10(n as nat),
{
    let mut p: u128 = 1;
    let mut i: u32 = 0;
    while i < n
        invariant
            i <= n <= 18,
            p == pow10(i as nat),
        decreases n - i,
    {
        proof {
            lemma_pow10_le(i as nat + 1, 18);
        }
        p = p * 10;
        i = i + 1;
    }
    p
}

/// `pow10` is monotone and `pow10(18)` fits a `u64`.
proof fn lemma_pow10_le(a: nat, b: nat)
    requires
        a <= b,
    ensures
        1 <= pow10(a) <= pow10(b),
        b <= 18 ==> pow10(b) <= 1_000_000_000_000_000_000,
    decreases b,
{
    reveal_with_fuel(pow10, 19);
    if a < b {
        lemma_pow10_le(a, (b - 1) as nat);
    } else if b > 0 {
        lemma_pow10_le((a - 1) as nat, (b - 1) as nat);
    }
}

/// The one-character text of a decimal digit.
fn digit_text(d: u128) -> (t: &'static str)
    requires
        d < 10,
    ensures
        t@ == seq![digit_char(d as nat)],
{
    if d == 0 {
        proof { reveal_strlit("0"); }
        "0"
    } else if d == 1 {
        proof { reveal_strlit("1"); }
        "1"
    } else if d == 2 {
        proof { reveal_strlit("2"); }
        "2"
    } else if d == 3 {
        proof { reveal_strlit("3"); }
        "3"
    } else if d == 4 {
        proof { reveal_strlit("4"); }
        "4"
    } else if d == 5 {
        proof { reveal_strlit("5"); }
        "5"
    } else if d == 6 {
        proof { reveal_strlit("6"); }
        "6"
    } else if d == 7 {
        proof { reveal_strlit("7"); }
        "7"
    } else if d == 8 {
        proof { reveal_strlit("8"); }
        "8"
    } else {
        proof { reveal_strlit("9"); }
        "9"
    }
}

/// Appends the decimal numeral of `n`.
fn push_digits(text: &mut String, n: u128)
    ensures
        final(text)@ == old(text)@ + digits(n as nat),
    decreases n,
{
    if n >= 10 {
        push_digits(text, n / 10);
    }
    text.append(digit_text(n % 10));
}

/// Appends the last `k` digits of `n`, zero-padded.
fn push_fixed_digits(text: &mut String, n: u128, k: u32)
    ensures
        final(text)@ == old(text)@ + fixed_digits(n as nat, k as nat),
    decreases k,
{
    if k > 0 {
        push_fixed_digits(text, n / 10, k - 1);
        text.append(digit_text(n % 10));
    }
}

/// Renders `value`, a number in units of 10^-`unit_digits`, with `places` decimals
/// (rounded to nearest, ties to even).
pub fn render_fixed(value: i128, unit_digits: u32, places: u32) -> (text: String)
    requires
        places <= unit_digits <= 18,
    ensures
        text@ == spec_render_fixed(value as int, unit_digits as nat, places as nat),
{
    let mag: u128 = if value < 0 {
        ((0 - (value + 1)) as u128) + 1
    } else {
        value as u128
    };
    proof {
        lemma_pow10_le((unit_digits - places) as nat, 18);
        lemma_pow10_le(places as nat, 18);
    }
    let unit: u128 = pow10_exec(unit_digits - places);
    let q0: u128 = mag / unit;
    let r: u128 = mag % unit;
    let q: u128 = if 2 * r > unit || (2 * r == unit && q0 % 2 == 1) {
        q0 + 1
    } else {
        q0
    };
    let mut text = String::new();
    if value < 0 {
        proof { reveal_strlit("-"); }
        text.append("-");
    }
    let scale: u128 = pow10_exec(places);
    push_digits(&mut text, q / scale);
    if places > 0 {
        proof { reveal_strlit("."); }
        text.append(".");
        push_fixed_digits(&mut text, q, places);
    }
    text
}

// ── Reading rendered text back ─────────────────────────

/// The value of a decimal digit character (0 for anything else).
pub open spec fn digit_value(c: char) -> int {
    if c == '1' { 1 }
    else if c == '2' { 2 }
    else if c == '3' { 3 }
    else if c == '4' { 4 }
    else if c == '5' { 5 }
    else if c == '6' { 6 }
    else if c == '7' { 7 }
    else if c == '8' { 8 }
    else if c == '9' { 9 }
    else { 0 }
}

/// Every character is one of `0`..`9`.
pub open spec fn all_digits(s: Seq<char>) -> bool {
    forall|i: int| 0 <= i < s.len() ==> '0' <= #[trigger] s[i] && s[i] <= '9'
}

/// The number a run of decimal digits denotes.
pub open spec fn decimal_value(s: Seq<char>) -> int
    decreases s.len(),
{
    if s.len() == 0 {
        0
    } else {
        decimal_value(s.drop_last()) * 10 + digit_value(s.last())
    }
}

/// `|a - b|`.
pub open spec fn distance(a: int, b: int) -> int {
    if a >= b { a - b } else { b - a }
}

proof fn lemma_digit_char(d: nat)
    requires
        d < 10,
    ensures
        '0' <= digit_char(d) <= '9',
        digit_value(digit_char(d)) == d,
{
}

proof fn lemma_digits_read(n: nat)
    ensures
        digits(n).len() >= 1,
        all_digits(digits(n)),
        decimal_value(digits(n)) == n,
    decreases n,
{
    if n < 10 {
        lemma_digit_char(n);
        assert(digits(n).drop_last() =~= Seq::<char>::empty());
        assert(decimal_value(Seq::<char>::empty()) == 0);
        assert(decimal_value(digits(n)) == decimal_value(digits(n).drop_last()) * 10 + digit_value(digits(n).last()));
    } else {
        lemma_digits_read(n / 10);
        lemma_digit_char(n % 10);
        let d = digits(n);
        assert(d.drop_last() =~= digits(n / 10));
        assert(d.last() == digit_char(n % 10));
        assert(decimal_value(d) == decimal_value(d.drop_last()) * 10 + digit_value(d.last()));
        assert forall|i: int| 0 <= i < d.len() implies '0' <= #[trigger] d[i] && d[i] <= '9' by {
            if i < d.len() - 1 {
                assert(d[i] == digits(n / 10)[i]);
            }
        }
        vstd::arithmetic::div_mod::lemma_fundamental_div_mod(n as int, 10);
    }
}

proof fn lemma_fixed_digits_read(n: nat, k: nat)
    ensures
        fixed_digits(n, k).len() == k,
        all_digits(fixed_digits(n, k)),
        decimal_value(fixed_digits(n, k)) == n % pow10(k),
    decreases k,
{
    if k == 0 {
        assert(n % 1 == 0);
    } else {
        let km = (k - 1) as nat;
        lemma_fixed_digits_read(n / 10, km);
        lemma_digit_char(n % 10);
        let f = fixed_digits(n, k);
        assert(f.drop_last() =~= fixed_digits(n / 10, km));
        assert forall|i: int| 0 <= i < f.len() implies '0' <= #[trigger] f[i] && f[i] <= '9' by {
            if i < f.len() - 1 {
                assert(f[i] == fixed_digits(n / 10, km)[i]);
            }
        }
        lemma_pow10_le(0, km);
        vstd::arithmetic::div_mod::lemma_breakdown(n as int, 10, pow10(km) as int);
        assert(pow10(k) == 10 * pow10(km));
        assert((n as int) % (10 * pow10(km)) as int == 10 * (((n / 10) as int) % (pow10(km) as int)) + (n as int) % 10);
    }
}

proof fn lemma_round_half_even_close(m: nat, d: nat)
    requires
        d > 0,
    ensures
        2 * distance((round_half_even(m, d) * d) as int, m as int) <= d,
{
    let q = m / d;
    let r = m % d;
    vstd::arithmetic::div_mod::lemma_fundamental_div_mod(m as int, d as int);
    vstd::arithmetic::div_mod::lemma_mod_pos_bound(m as int, d as int);
    assert((q + 1) * d == q * d + d) by (nonlinear_arith);
    assert(q * d == d * q) by (nonlinear_arith);
}

/// Reading the rendered text back gives `value` to within half a unit of the last place
/// shown. The text is a minus sign exactly when `value` is negative, then a non-empty run
/// of decimal digits, then (when `places > 0`) a point and exactly `places` more digits;
/// read as a decimal number with `places` decimals, it is within half of 10^-`places`
/// of `value` (a number in units of 10^-`unit_digits`).
pub proof fn law_render_reads_back(value: int, unit_digits: nat, places: nat)
    requires
        places <= unit_digits,
    ensures
        exists|whole: Seq<char>, frac: Seq<char>|
            #![trigger all_digits(whole), all_digits(frac)]
            {
                &&& whole.len() >= 1
                &&& all_digits(whole)
                &&& frac.len() == places
                &&& all_digits(frac)
                &&& spec_render_fixed(value, unit_digits, places) == (if value < 0 { seq!['-'] } else { Seq::<char>::empty() })
                    + whole + (if places == 0 { Seq::<char>::empty() } else { seq!['.'] + frac })
                &&& 2 * distance(
                    (decimal_value(whole) * pow10(places) + decimal_value(frac)) * pow10((unit_digits - places) as nat),
                    if value < 0 { -value } else { value },
                ) <= pow10((unit_digits - places) as nat)
            },
{
    let d = pow10((unit_digits - places) as nat);
    let scale = pow10(places);
    lemma_pow10_le(0, (unit_digits - places) as nat);
    lemma_pow10_le(0, places);
    let m = magnitude(value);
    let q = round_half_even(m, d);
    let whole = digits(q / scale);
    let frac = fixed_digits(q, places);
    lemma_digits_read(q / scale);
    lemma_fixed_digits_read(q, places);
    lemma_round_half_even_close(m, d);
    vstd::arithmetic::div_mod::lemma_fundamental_div_mod(q as int, scale as int);
    let a: int = (q / scale) as int;
    let b: int = (q % scale) as int;
    assert(q == scale * a + b);
    assert(decimal_value(whole) == a);
    assert(decimal_value(frac) == b);
    assert(a * scale + b == q) by (nonlinear_arith)
        requires q == scale * a + b;
    if places == 0 {
        assert(frac =~= Seq::<char>::empty());
    }
    assert(all_digits(whole) && all_digits(frac));
}

} // verus!
