use vstd::prelude::*;
use vstd::string::StrSliceExecFns;
use crate::text::{pow10, lemma_pow10_positive, lemma_pow10_monotone, lemma_pow10_add, pow10_exec};

verus! {

/// Number of decimal places an amount holds.
pub const PLACES: u32 = 8;

/// Units in one whole: `10^PLACES`.
pub const SCALE: i64 = 100000000;

/// A signed decimal number with eight places after the point, held as
/// a whole number of hundred-millionths.
#[derive(Clone, Copy, Debug, PartialEq, Eq, Structural)]
pub struct Amount {
    pub units: i64,
}

/// Why a text is not an amount.
#[derive(Clone, Copy, Debug, PartialEq, Eq, Structural)]
pub enum AmountError {
    /// Not an optional sign followed by digits with at most one point.
    Malformed,
    /// More than eight digits after the point.
    TooPrecise,
    /// Magnitude too large to hold.
    OutOfRange,
}

pub open spec fn is_digit(c: char) -> bool {
    '0' <= c && c <= '9'
}

pub open spec fn digit_value(c: char) -> int {
    c as int - '0' as int
}

pub open spec fn all_digits(s: Seq<char>) -> bool {
    forall|i: int| 0 <= i < s.len() ==> is_digit(#[trigger] s[i])
}

/// The number that a string of decimal digits spells.
pub open spec fn digits_value(s: Seq<char>) -> int
    decreases s.len(),
{
    if s.len() == 0 {
        0
    } else {
        digits_value(s.drop_last()) * 10 + digit_value(s.last())
    }
}

/// Length of the leading sign, if any.
pub open spec fn sign_len(s: Seq<char>) -> int {
    if s.len() > 0 && (s[0] == '-' || s[0] == '+') { 1 } else { 0 }
}

/// Index of the first point at or after `i`, or the length when there is none.
pub open spec fn point_from(s: Seq<char>, i: int) -> int
    decreases s.len() - i,
{
    if i >= s.len() {
        s.len() as int
    } else if s[i] == '.' {
        i
    } else {
        point_from(s, i + 1)
    }
}

pub open spec fn point_index(s: Seq<char>) -> int {
    point_from(s, sign_len(s))
}

/// The digits before the point.
pub open spec fn whole_part(s: Seq<char>) -> Seq<char> {
    s.subrange(sign_len(s), point_index(s))
}

/// The digits after the point (empty without a point).
pub open spec fn fraction_part(s: Seq<char>) -> Seq<char> {
    if point_index(s) < s.len() {
        s.subrange(point_index(s) + 1, s.len() as int)
    } else {
        seq![]
    }
}

/// An optional sign, then digits with at most one point, and at least one digit.
pub open spec fn well_formed(s: Seq<char>) -> bool {
    all_digits(whole_part(s)) && all_digits(fraction_part(s))
        && whole_part(s).len() + fraction_part(s).len() > 0
}

/// The magnitude in units, for a text with at most eight decimals.
pub open spec fn magnitude_units(s: Seq<char>) -> int {
    digits_value(whole_part(s)) * pow10(PLACES as nat)
        + digits_value(fraction_part(s)) * pow10((PLACES - fraction_part(s).len()) as nat)
}

/// What reading `s` as an amount gives.
pub open spec fn amount_of(s: Seq<char>) -> Result<int, AmountError> {
    if !well_formed(s) {
        Err(AmountError::Malformed)
    } else if fraction_part(s).len() > PLACES {
        Err(AmountError::TooPrecise)
    } else if magnitude_units(s) > i64::MAX {
        Err(AmountError::OutOfRange)
    } else if sign_len(s) == 1 && s[0] == '-' {
        Ok(-magnitude_units(s))
    } else {
        Ok(magnitude_units(s))
    }
}

/// Largest whole part an amount can hold is below this.
const WHOLE_CAP: u64 = 100000000000;

proof fn lemma_digits_step(s: Seq<char>, a: int, j: int)
    requires
        0 <= a <= j < s.len(),
    ensures
        digits_value(s.subrange(a, j + 1)) == digits_value(s.subrange(a, j)) * 10 + digit_value(s[j]),
{
    assert(s.subrange(a, j + 1).drop_last() =~= s.subrange(a, j));
}

proof fn lemma_digits_bound(s: Seq<char>)
    requires
        all_digits(s),
    ensures
        0 <= digits_value(s) < pow10(s.len()),
    decreases s.len(),
{
    if s.len() > 0 {
        let t = s.drop_last();
        assert(all_digits(t)) by {
            assert forall|i: int| 0 <= i < t.len() implies is_digit(#[trigger] t[i]) by {
                assert(t[i] == s[i]);
            }
        }
        lemma_digits_bound(t);
        assert(is_digit(s[s.len() - 1]));
        assert(s.last() == s[s.len() - 1]);
        assert(pow10(s.len()) == 10 * pow10(t.len()));
    }
}

proof fn lemma_point_found(s: Seq<char>, a: int, i: int)
    requires
        0 <= a <= i <= s.len(),
        forall|j: int| a <= j < i ==> s[j] != '.',
        i == s.len() || s[i] == '.',
    ensures
        point_from(s, a) == i,
    decreases i - a,
{
    if a < i {
        lemma_point_found(s, a + 1, i);
    }
}

/// Reads the digits `s[a..b]`. Returns the value when it is at most
/// `cap`, `None` when it is larger; `ok` is false when a non-digit occurs.
fn read_digits(s: &str, a: usize, b: usize, cap: u64) -> (r: (bool, Option<u64>))
    requires
        a <= b <= s@.len(),
        cap <= WHOLE_CAP,
    ensures
        r.0 == all_digits(s@.subrange(a as int, b as int)),
        r.0 ==> match r.1 {
            Some(v) => v == digits_value(s@.subrange(a as int, b as int)) && v <= cap,
            None => digits_value(s@.subrange(a as int, b as int)) > cap,
        },
{
    let mut j = a;
    let mut acc: Option<u64> = Some(0);
    assert(s@.subrange(a as int, a as int) =~= Seq::<char>::empty());
    while j < b
        invariant
            a <= j <= b <= s@.len(),
            cap <= WHOLE_CAP,
            all_digits(s@.subrange(a as int, j as int)),
            digits_value(s@.subrange(a as int, j as int)) >= 0,
            match acc {
                Some(v) => v == digits_value(s@.subrange(a as int, j as int)) && v <= cap,
                None => digits_value(s@.subrange(a as int, j as int)) > cap,
            },
        decreases b - j,
    {
        let c = s.get_char(j);
        if !('0' <= c && c <= '9') {
            assert(!is_digit(s@.subrange(a as int, b as int)[j - a]));
            return (false, None);
        }
        proof {
            lemma_digits_step(s@, a as int, j as int);
            assert(s@.subrange(a as int, j as int + 1) =~= s@.subrange(a as int, j as int).push(c));
        }
        let d = (c as u32 - '0' as u32) as u64;
        acc = match acc {
            Some(v) => {
                if v * 10 + d <= cap {
                    Some(v * 10 + d)
                } else {
                    None
                }
            },
            None => None,
        };
        j = j + 1;
    }
    (true, acc)
}

/// Reads a decimal amount: an optional sign, digits, and an optional point
/// followed by at most eight more digits.
pub fn parse_amount(s: &str) -> (r: Result<Amount, AmountError>)
    ensures
        match amount_of(s@) {
            Ok(u) => r == Ok::<Amount, AmountError>(Amount { units: u as i64 }),
            Err(e) => r == Err::<Amount, AmountError>(e),
        },
        r matches Ok(a) ==> amount_of(s@) == Ok::<int, AmountError>(a.units as int),
{
    let n = s.unicode_len();
    let start: usize = if n > 0 && (s.get_char(0) == '-' || s.get_char(0) == '+') { 1 } else { 0 };
    let negative = n > 0 && s.get_char(0) == '-';
    let mut i = start;
    while i < n && s.get_char(i) != '.'
        invariant
            start <= i <= n,
            n == s@.len(),
            forall|j: int| start <= j < i ==> s@[j] != '.',
        decreases n - i,
    {
        i = i + 1;
    }
    proof {
        lemma_point_found(s@, start as int, i as int);
    }
    let point = i;
    let frac_start = if point < n { point + 1 } else { n };
    let ghost whole = whole_part(s@);
    let ghost frac = fraction_part(s@);
    assert(frac =~= s@.subrange(frac_start as int, n as int));
    let (whole_ok, whole_val) = read_digits(s, start, point, WHOLE_CAP);
    let (frac_ok, frac_val) = read_digits(s, frac_start, n, WHOLE_CAP);
    if !whole_ok || !frac_ok || (point - start) + (n - frac_start) == 0 {
        return Err(AmountError::Malformed);
    }
    let frac_len = n - frac_start;
    if frac_len > PLACES as usize {
        return Err(AmountError::TooPrecise);
    }
    proof {
        lemma_pow10_positive(PLACES as nat);
        lemma_pow10_positive((PLACES - frac_len) as nat);
        lemma_pow10_monotone((PLACES - frac_len) as nat, PLACES as nat);
        reveal_with_fuel(pow10, 9);
        assert(pow10(PLACES as nat) == 100000000);
        assert(digits_value(frac) >= 0);
    }
    let w: u64 = match whole_val {
        Some(v) => v,
        None => {
            proof {
                assert(digits_value(whole) * pow10(PLACES as nat) > i64::MAX) by (nonlinear_arith)
                    requires digits_value(whole) > WHOLE_CAP, pow10(PLACES as nat) == 100000000;
                assert(digits_value(frac) * pow10((PLACES - frac_len) as nat) >= 0) by (nonlinear_arith)
                    requires digits_value(frac) >= 0, pow10((PLACES - frac_len) as nat) > 0;
            }
            return Err(AmountError::OutOfRange);
        },
    };
    let f: u64 = match frac_val {
        Some(v) => v,
        None => {
            proof {
                // at most eight digits stay below the cap
                lemma_digits_bound(frac);
                lemma_pow10_monotone(frac_len as nat, PLACES as nat);
                assert(false);
            }
            0
        },
    };
    let scale = pow10_exec(PLACES - frac_len as u32);
    proof {
        lemma_digits_bound(frac);
        lemma_pow10_add(frac_len as nat, (PLACES - frac_len) as nat);
        assert(f * scale <= 100000000) by (nonlinear_arith)
            requires f < pow10(frac_len as nat), scale == pow10((PLACES - frac_len) as nat),
                pow10(frac_len as nat) * pow10((PLACES - frac_len) as nat) == 100000000,
                f >= 0, scale > 0;
    }
    let total: u128 = (w as u128) * (SCALE as u128) + (f as u128) * (scale as u128);
    if total > i64::MAX as u128 {
        return Err(AmountError::OutOfRange);
    }
    if negative {
        Ok(Amount { units: -(total as i64) })
    } else {
        Ok(Amount { units: total as i64 })
    }
}

} // verus!
