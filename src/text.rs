use vstd::prelude::*;
use vstd::string::StrSliceExecFns;
use vstd::string::StringExecFns;
use vstd::arithmetic::div_mod::lemma_fundamental_div_mod_converse;

verus! {

/// `10^n`.
pub open spec fn pow10(n: nat) -> int
    decreases n,
{
    if n == 0 {
        1
    } else {
        10 * pow10((n - 1) as nat)
    }
}

/// The character of a decimal digit `0 <= d < 10`.
pub open spec fn digit_char(d: int) -> char {
    if d == 0 { '0' }
    else if d == 1 { '1' }
    else if d == 2 { '2' }
    else if d == 3 { '3' }
    else if d == 4 { '4' }
    else if d == 5 { '5' }
    else if d == 6 { '6' }
    else if d == 7 { '7' }
    else if d == 8 { '8' }
    else { '9' }
}

/// The decimal digits of `n`, without leading zeros (`"0"` for zero).
pub open spec fn digits(n: nat) -> Seq<char>
    decreases n,
{
    if n < 10 {
        seq![digit_char(n as int)]
    } else {
        digits(n / 10) + seq![digit_char((n % 10) as int)]
    }
}

/// The last `k` decimal digits of `n`, padded with leading zeros.
pub open spec fn low_digits(n: nat, k: nat) -> Seq<char>
    decreases k,
{
    if k == 0 {
        seq![]
    } else {
        low_digits(n / 10, (k - 1) as nat) + seq![digit_char((n % 10) as int)]
    }
}

pub open spec fn abs(v: int) -> nat {
    if v < 0 { (-v) as nat } else { v as nat }
}

/// The text of the value `v / 10^k`, with exactly `k` digits after the point
/// and a leading `-` when it is negative.
pub open spec fn fixed_text(v: int, k: nat) -> Seq<char> {
    let m = abs(v);
    let sign: Seq<char> = if v < 0 { seq!['-'] } else { seq![] };
    let whole = digits((m as int / pow10(k)) as nat);
    if k == 0 {
        sign + whole
    } else {
        sign + whole + seq!['.'] + low_digits(m, k)
    }
}

/// `n / d` for `n >= 0`, `d > 0`, rounded to the nearest integer, ties to even.
pub open spec fn round_nat(n: int, d: int) -> int {
    let q = n / d;
    let r = n % d;
    if 2 * r < d {
        q
    } else if 2 * r > d {
        q + 1
    } else if q % 2 == 0 {
        q
    } else {
        q + 1
    }
}

/// `n / d` for `d > 0`, rounded to the nearest integer, ties to even.
pub open spec fn round_half_even(n: int, d: int) -> int {
    if n >= 0 {
        round_nat(n, d)
    } else {
        -round_nat(-n, d)
    }
}

/// The text of the fraction `n / d` (`d > 0`) rounded to `k` decimal places.
pub open spec fn decimal_text(n: int, d: int, k: nat) -> Seq<char> {
    fixed_text(round_half_even(n * pow10(k), d), k)
}

pub open spec fn spaces(n: int) -> Seq<char> {
    Seq::new(if n > 0 { n as nat } else { 0 }, |i: int| ' ')
}

/// `s` right-aligned in a field of `w` characters.
pub open spec fn pad_left(s: Seq<char>, w: nat) -> Seq<char> {
    spaces(w - s.len()) + s
}

/// `s` left-aligned in a field of `w` characters.
pub open spec fn pad_right(s: Seq<char>, w: nat) -> Seq<char> {
    s + spaces(w - s.len())
}

pub proof fn lemma_pow10_positive(n: nat)
    ensures
        pow10(n) > 0,
    decreases n,
{
    if n > 0 {
        lemma_pow10_positive((n - 1) as nat);
    }
}

pub proof fn lemma_pow10_monotone(a: nat, b: nat)
    requires
        a <= b,
    ensures
        pow10(a) <= pow10(b),
    decreases b,
{
    lemma_pow10_positive(b);
    if a < b {
        lemma_pow10_monotone(a, (b - 1) as nat);
    }
}

pub proof fn lemma_pow10_add(a: nat, b: nat)
    ensures
        pow10(a + b) == pow10(a) * pow10(b),
    decreases b,
{
    if b > 0 {
        lemma_pow10_add(a, (b - 1) as nat);
        assert(pow10(a + b) == 10 * pow10((a + b - 1) as nat));
        assert(pow10(a) * pow10(b) == pow10(a) * (10 * pow10((b - 1) as nat)));
        assert(pow10(a) * (10 * pow10((b - 1) as nat)) == 10 * (pow10(a) * pow10((b - 1) as nat))) by (nonlinear_arith);
    }
}

/// `10^k` for `k <= 18`.
pub fn pow10_exec(k: u32) -> (r: u64)
    requires
        k <= 18,
    ensures
        r == pow10(k as nat),
    decreases k,
{
    if k == 0 {
        1
    } else {
        let p = pow10_exec(k - 1);
        proof {
            lemma_pow10_monotone((k - 1) as nat, 17);
            reveal_with_fuel(pow10, 18);
            assert(pow10(17) == 100000000000000000);
        }
        10 * p
    }
}

fn digit_text(d: u128) -> (r: String)
    requires
        d < 10,
    ensures
        r@ == seq![digit_char(d as int)],
{
    proof {
        reveal_strlit("0");
        reveal_strlit("1");
        reveal_strlit("2");
        reveal_strlit("3");
        reveal_strlit("4");
        reveal_strlit("5");
        reveal_strlit("6");
        reveal_strlit("7");
        reveal_strlit("8");
        reveal_strlit("9");
    }
    let s = if d == 0 { "0" }
        else if d == 1 { "1" }
        else if d == 2 { "2" }
        else if d == 3 { "3" }
        else if d == 4 { "4" }
        else if d == 5 { "5" }
        else if d == 6 { "6" }
        else if d == 7 { "7" }
        else if d == 8 { "8" }
        else { "9" };
    let r = String::from_str(s);
    assert(r@ =~= seq![digit_char(d as int)]);
    r
}

pub fn digits_exec(n: u128) -> (r: String)
    ensures
        r@ == digits(n as nat),
    decreases n,
{
    if n < 10 {
        digit_text(n)
    } else {
        let mut s = digits_exec(n / 10);
        let t = digit_text(n % 10);
        s.append(t.as_str());
        s
    }
}

fn low_digits_exec(n: u128, k: u32) -> (r: String)
    ensures
        r@ == low_digits(n as nat, k as nat),
    decreases k,
{
    if k == 0 {
        let r = String::new();
        assert(r@ =~= Seq::<char>::empty());
        r
    } else {
        let mut s = low_digits_exec(n / 10, k - 1);
        let t = digit_text(n % 10);
        s.append(t.as_str());
        s
    }
}

/// Renders `v / 10^k` with exactly `k` digits after the point.
pub fn fixed_string(v: i128, k: u32) -> (r: String)
    requires
        v > i128::MIN,
        k <= 18,
    ensures
        r@ == fixed_text(v as int, k as nat),
{
    let m: u128 = if v < 0 { (-v) as u128 } else { v as u128 };
    let p = pow10_exec(k) as u128;
    proof {
        lemma_pow10_positive(k as nat);
    }
    let mut r = if v < 0 {
        proof { reveal_strlit("-"); }
        String::from_str("-")
    } else {
        String::new()
    };
    let whole = digits_exec(m / p);
    r.append(whole.as_str());
    if k > 0 {
        proof { reveal_strlit("."); }
        r.append(".");
        let low = low_digits_exec(m, k);
        r.append(low.as_str());
    }
    let ghost sign: Seq<char> = if v < 0 { seq!['-'] } else { seq![] };
    assert(abs(v as int) == m as nat);
    if k == 0 {
        assert(r@ =~= sign + digits((m as int / pow10(k as nat)) as nat));
    } else {
        assert(r@ =~= sign + digits((m as int / pow10(k as nat)) as nat) + seq!['.'] + low_digits(m as nat, k as nat));
    }
    r
}

/// `n / d` rounded to the nearest integer, ties to even.
pub fn round_div(n: i128, d: i128) -> (r: i128)
    requires
        d > 0,
        n > i128::MIN,
    ensures
        r == round_half_even(n as int, d as int),
        abs(r as int) <= abs(n as int),
{
    let m: u128 = if n < 0 { (-n) as u128 } else { n as u128 };
    let du = d as u128;
    let q = m / du;
    let rem = m % du;
    proof {
        assert(q * du + rem == m && q * du <= m) by (nonlinear_arith)
            requires q == m / du, rem == m % du, du > 0;
        if du >= 2 {
            assert(q * 2 <= q * du) by (nonlinear_arith)
                requires du >= 2, q >= 0;
        }
    }
    let up = if 2 * rem < du {
        false
    } else if 2 * rem > du {
        true
    } else {
        q % 2 == 1
    };
    let rounded: u128 = if up { q + 1 } else { q };
    if n < 0 {
        -(rounded as i128)
    } else {
        rounded as i128
    }
}

/// `s` right-aligned in a field of `w` characters.
pub fn pad_left_string(s: &String, w: usize) -> (r: String)
    ensures
        r@ == pad_left(s@, w as nat),
{
    let len = s.as_str().unicode_len();
    let n: usize = if w > len { w - len } else { 0 };
    let mut r = String::new();
    let mut i: usize = 0;
    proof { reveal_strlit(" "); }
    while i < n
        invariant
            i <= n,
            r@ =~= spaces(i as int),
        decreases n - i,
    {
        proof { reveal_strlit(" "); }
        r.append(" ");
        assert(r@ =~= spaces(i + 1));
        i = i + 1;
    }
    r.append(s.as_str());
    assert(r@ =~= pad_left(s@, w as nat));
    r
}

/// `s` left-aligned in a field of `w` characters.
pub fn pad_right_string(s: &String, w: usize) -> (r: String)
    ensures
        r@ == pad_right(s@, w as nat),
{
    let len = s.as_str().unicode_len();
    let n: usize = if w > len { w - len } else { 0 };
    let mut r = s.clone();
    let mut i: usize = 0;
    proof { reveal_strlit(" "); }
    while i < n
        invariant
            i <= n,
            r@ =~= s@ + spaces(i as int),
        decreases n - i,
    {
        proof { reveal_strlit(" "); }
        r.append(" ");
        assert(r@ =~= s@ + spaces(i + 1));
        i = i + 1;
    }
    assert(r@ =~= pad_right(s@, w as nat));
    r
}

} // verus!

verus! {

proof fn lemma_round_nat_same_value(n: int, d: int, n2: int, d2: int)
    requires
        n >= 0,
        n2 >= 0,
        d > 0,
        d2 > 0,
        n * d2 == n2 * d,
    ensures
        round_nat(n, d) == round_nat(n2, d2),
{
    let q = n / d;
    let r = n % d;
    assert(n == q * d + r && 0 <= r < d) by (nonlinear_arith)
        requires q == n / d, r == n % d, d > 0;
    let r2 = n2 - q * d2;
    assert(d * r2 == r * d2) by (nonlinear_arith)
        requires r2 == n2 - q * d2, n * d2 == n2 * d, n == q * d + r;
    assert(0 <= r2 < d2) by (nonlinear_arith)
        requires d * r2 == r * d2, 0 <= r < d, d > 0, d2 > 0;
    lemma_fundamental_div_mod_converse(n2, d2, q, r2);
    assert((2 * r < d) == (2 * r2 < d2)) by (nonlinear_arith)
        requires d * r2 == r * d2, d > 0, d2 > 0;
    assert((2 * r > d) == (2 * r2 > d2)) by (nonlinear_arith)
        requires d * r2 == r * d2, d > 0, d2 > 0;
}

/// Rounding a fraction depends on its value alone.
pub proof fn lemma_round_same_value(n: int, d: int, n2: int, d2: int)
    requires
        d > 0,
        d2 > 0,
        n * d2 == n2 * d,
    ensures
        round_half_even(n, d) == round_half_even(n2, d2),
{
    assert((n >= 0) == (n2 >= 0)) by (nonlinear_arith)
        requires d > 0, d2 > 0, n * d2 == n2 * d;
    if n >= 0 {
        lemma_round_nat_same_value(n, d, n2, d2);
    } else {
        assert((-n) * d2 == (-n2) * d) by (nonlinear_arith)
            requires n * d2 == n2 * d;
        lemma_round_nat_same_value(-n, d, -n2, d2);
    }
}

/// The text of a fraction rounded to `k` places depends on its value alone.
pub proof fn lemma_decimal_text_same_value(n: int, d: int, n2: int, d2: int, k: nat)
    requires
        d > 0,
        d2 > 0,
        n * d2 == n2 * d,
    ensures
        decimal_text(n, d, k) == decimal_text(n2, d2, k),
{
    let p = pow10(k);
    assert((n * p) * d2 == (n2 * p) * d) by (nonlinear_arith)
        requires n * d2 == n2 * d;
    lemma_round_same_value(n * p, d, n2 * p, d2);
}

/// Renders `n / d` rounded to the nearest integer, ties to even, as a value
/// with `k` places (so that `n / d` counts units of `10^-k`).
pub fn rounded_string(n: i128, d: i128, k: u32) -> (r: String)
    requires
        d > 0,
        n > i128::MIN,
        k <= 18,
    ensures
        r@ == fixed_text(round_half_even(n as int, d as int), k as nat),
{
    let v = round_div(n, d);
    fixed_string(v, k)
}

} // verus!
