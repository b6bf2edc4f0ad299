use vstd::prelude::*;
use vstd::string::StringExecFns;
use vstd::arithmetic::div_mod::{lemma_fundamental_div_mod, lemma_mod_multiples_basic};
use crate::amount::{Amount, SCALE};
use crate::sizing::{
    Fraction, Position, SizingError, size_position, position_matches, amount_q, q_mul, q_sub,
    total_risk, loss_delta, max_shares, position_size, abs_int, exact_fractions, in_range,
};
use crate::text::{
    pow10, decimal_text, digits, pad_left, pad_right, round_half_even,
    lemma_round_same_value, lemma_decimal_text_same_value, lemma_pow10_positive, pow10_exec,
    rounded_string, fixed_string, digits_exec, pad_left_string, pad_right_string,
};

verus! {

/// The colour a piece of the report is shown in.
#[derive(Clone, Copy, Debug, PartialEq, Eq, Structural)]
pub enum Tint {
    Red,
    Green,
    Yellow,
    Blue,
    Magenta,
    Cyan,
    White,
}

/// Number of rows of the ladder.
pub const LADDER_LEN: usize = 13;

/// The percentage offsets of the ladder, from the highest to the lowest.
pub open spec fn ladder_offset(i: int) -> int {
    if i == 0 { 10 }
    else if i == 1 { 5 }
    else if i == 2 { 4 }
    else if i == 3 { 3 }
    else if i == 4 { 2 }
    else if i == 5 { 1 }
    else if i == 6 { 0 }
    else if i == 7 { -1 }
    else if i == 8 { -2 }
    else if i == 9 { -3 }
    else if i == 10 { -4 }
    else if i == 11 { -5 }
    else { -10 }
}

/// The colour of the row at a percentage offset.
pub open spec fn tint_of(offset: int) -> Tint {
    if offset == 10 { Tint::Green }
    else if offset == 4 { Tint::Cyan }
    else if offset == 3 { Tint::Blue }
    else if offset == 0 { Tint::Magenta }
    else if offset == -2 { Tint::Yellow }
    else if offset == -4 { Tint::Red }
    else { Tint::White }
}

/// `"0"`, or the signed offset followed by `%`.
pub open spec fn offset_label(offset: int) -> Seq<char> {
    if offset == 0 {
        seq!['0']
    } else if offset < 0 {
        seq!['-'] + digits((-offset) as nat) + seq!['%']
    } else {
        seq!['+'] + digits(offset as nat) + seq!['%']
    }
}

/// `price * (1 + offset / 100)`.
pub open spec fn target_price(price: int, offset: int) -> (int, int) {
    q_mul(amount_q(price), (100 + offset, 100))
}

/// The cash shown at an offset: the base itself at zero, else
/// `base * (1 + offset / 100) - base`.
pub open spec fn cash_shown(base: (int, int), offset: int) -> (int, int) {
    if offset == 0 {
        base
    } else {
        q_sub(q_mul(base, (100 + offset, 100)), base)
    }
}

/// One row of the ladder, its pieces laid out as shown.
#[derive(Debug)]
pub struct LadderRow {
    pub offset: i64,
    /// The offset label, right-aligned in five characters.
    pub label: String,
    /// The target price, ten places.
    pub price: String,
    /// The cash figure, two places, right-aligned in ten characters.
    pub cash: String,
    pub tint: Tint,
    /// The whole row is underlined.
    pub underline: bool,
    /// The row carries a trailing marker.
    pub marker: bool,
}

pub open spec fn row_matches(row: LadderRow, price: int, base: (int, int), offset: int, emphasis: bool) -> bool {
    &&& row.offset == offset
    &&& row.label@ == pad_left(offset_label(offset), 5)
    &&& row.price@ == decimal_text(target_price(price, offset).0, target_price(price, offset).1, 10)
    &&& row.cash@ == pad_left(decimal_text(cash_shown(base, offset).0, cash_shown(base, offset).1, 2), 10)
    &&& row.tint == tint_of(offset)
    &&& row.underline == (emphasis && (offset == 1 || offset == -1))
    &&& row.marker == (emphasis && (offset == 3 || offset == -3))
}

pub open spec fn ladder_matches(rows: Seq<LadderRow>, price: int, base: (int, int), emphasis: bool) -> bool {
    &&& rows.len() == LADDER_LEN
    &&& forall|i: int| 0 <= i < LADDER_LEN ==> row_matches(#[trigger] rows[i], price, base, ladder_offset(i), emphasis)
}

fn tint_for(offset: i64) -> (r: Tint)
    ensures
        r == tint_of(offset as int),
{
    if offset == 10 { Tint::Green }
    else if offset == 4 { Tint::Cyan }
    else if offset == 3 { Tint::Blue }
    else if offset == 0 { Tint::Magenta }
    else if offset == -2 { Tint::Yellow }
    else if offset == -4 { Tint::Red }
    else { Tint::White }
}

fn offset_at(i: usize) -> (r: i64)
    ensures
        r == ladder_offset(i as int),
{
    if i == 0 { 10 }
    else if i == 1 { 5 }
    else if i == 2 { 4 }
    else if i == 3 { 3 }
    else if i == 4 { 2 }
    else if i == 5 { 1 }
    else if i == 6 { 0 }
    else if i == 7 { -1 }
    else if i == 8 { -2 }
    else if i == 9 { -3 }
    else if i == 10 { -4 }
    else if i == 11 { -5 }
    else { -10 }
}

/// The label of an offset: `"0"`, `"+3%"`, `"-5%"`.
pub fn label_of(offset: i64) -> (r: String)
    ensures
        r@ == offset_label(offset as int),
{
    if offset == 0 {
        proof { reveal_strlit("0"); }
        return String::from_str("0");
    }
    let mut r = if offset < 0 {
        proof { reveal_strlit("-"); }
        String::from_str("-")
    } else {
        proof { reveal_strlit("+"); }
        String::from_str("+")
    };
    let m: u128 = if offset < 0 { (-(offset as i128)) as u128 } else { offset as u128 };
    let d = digits_exec(m);
    r.append(d.as_str());
    proof { reveal_strlit("%"); }
    r.append("%");
    r
}

/// The text of a fraction rounded to `k` places, where the denominator is
/// a multiple of `10^k`.
pub fn fraction_text(f: Fraction, k: u32) -> (r: String)
    requires
        f.den > 0,
        k <= 18,
        f.den as int % pow10(k as nat) == 0,
        f.num > i128::MIN,
    ensures
        r@ == decimal_text(f.num as int, f.den as int, k as nat),
{
    let p = pow10_exec(k) as i128;
    proof {
        lemma_pow10_positive(k as nat);
        lemma_fundamental_div_mod(f.den as int, p as int);
    }
    let d = f.den / p;
    proof {
        assert(d > 0) by (nonlinear_arith)
            requires f.den == p * d, f.den > 0, p > 0;
        assert((f.num * p) * d == f.num * f.den) by (nonlinear_arith)
            requires f.den == p * d;
        lemma_round_same_value(f.num * p, f.den as int, f.num as int, d as int);
    }
    rounded_string(f.num, d, k)
}

/// One row of the ladder at `offset` percent from `price`, with the cash
/// column taken from `base`.
pub fn ladder_row(price: Amount, base: Fraction, offset: i64, emphasis: bool) -> (r: LadderRow)
    requires
        base.den > 0,
        base.den % 100 == 0,
        base.num > i128::MIN,
        abs_int(base.num * offset) < i128::MAX,
    ensures
        row_matches(r, price.units as int, base.q(), offset as int, emphasis),
{
    let label0 = label_of(offset);
    let label = pad_left_string(&label0, 5);
    let p = price.units as i128;
    let factor = 100 + offset as i128;
    proof {
        assert(-0x7fff_ffff_ffff_ffff_ffff_ffff_ffff_ffff <= (p as int) * (factor as int) <= 0x7fff_ffff_ffff_ffff_ffff_ffff_ffff_ffff) by (nonlinear_arith)
            requires -0x8000_0000_0000_0000 <= p <= 0x7fff_ffff_ffff_ffff, -0x8000_0000_0000_0000 <= factor <= 0x8000_0000_0000_0063;
    }
    let tp = p * factor;
    let price_text = fixed_string(tp, 10);
    proof {
        let t = target_price(p as int, offset as int);
        reveal_with_fuel(pow10, 11);
        assert(pow10(10) == 10000000000);
        assert(SCALE == 100000000);
        assert(t == ((p as int) * (100 + offset), 10000000000int));
        assert(t.0 * pow10(10) * 1 == tp * t.1) by (nonlinear_arith)
            requires t.0 == tp, t.1 == 10000000000, pow10(10) == 10000000000;
        lemma_round_same_value(t.0 * pow10(10), t.1, tp as int, 1);
        assert(round_half_even(tp as int, 1) == tp);
    }
    let cash0 = if offset == 0 {
        fraction_text(base, 2)
    } else {
        let n = base.num * (offset as i128);
        let s = rounded_string(n, base.den, 2);
        proof {
            let b = base.q();
            let shown = cash_shown(b, offset as int);
            reveal_with_fuel(pow10, 3);
            assert(shown == (b.0 * (100 + offset) * b.1 - b.0 * (b.1 * 100), b.1 * 100 * b.1));
            assert(shown.0 * pow10(2) * b.1 == n * shown.1) by (nonlinear_arith)
                requires shown == (b.0 * (100 + offset) * b.1 - b.0 * (b.1 * 100), b.1 * 100 * b.1),
                    n == b.0 * offset, pow10(2) == 100;
            assert(shown.1 > 0) by (nonlinear_arith)
                requires shown.1 == b.1 * 100 * b.1, b.1 > 0;
            lemma_round_same_value(shown.0 * pow10(2), shown.1, n as int, b.1);
        }
        s
    };
    let cash = pad_left_string(&cash0, 10);
    LadderRow {
        offset,
        label,
        price: price_text,
        cash,
        tint: tint_for(offset),
        underline: emphasis && (offset == 1 || offset == -1),
        marker: emphasis && (offset == 3 || offset == -3),
    }
}

/// The thirteen rows of the ladder around `price`, the cash column taken
/// from `base`.
pub fn ladder(price: Amount, base: Fraction, emphasis: bool) -> (r: Vec<LadderRow>)
    requires
        base.den > 0,
        base.den % 100 == 0,
        base.num > i128::MIN,
        abs_int(base.num * 10) < i128::MAX,
    ensures
        ladder_matches(r@, price.units as int, base.q(), emphasis),
{
    let mut rows: Vec<LadderRow> = Vec::new();
    let mut i: usize = 0;
    while i < LADDER_LEN
        invariant
            i <= LADDER_LEN,
            rows@.len() == i,
            base.den > 0,
            base.den % 100 == 0,
            base.num > i128::MIN,
            abs_int(base.num * 10) < i128::MAX,
            forall|j: int| 0 <= j < i ==> row_matches(#[trigger] rows@[j], price.units as int, base.q(), ladder_offset(j), emphasis),
        decreases LADDER_LEN - i,
    {
        let offset = offset_at(i);
        proof {
            assert(-10 <= offset <= 10);
            assert(abs_int(base.num * offset) <= abs_int(base.num * 10)) by (nonlinear_arith)
                requires -10 <= offset <= 10;
        }
        let row = ladder_row(price, base, offset, emphasis);
        rows.push(row);
        i = i + 1;
    }
    rows
}

/// One line of the summary block: a caption and the figure beside it.
#[derive(Debug)]
pub struct SummaryLine {
    /// The caption, left-aligned in sixteen characters.
    pub caption: String,
    pub value: String,
    pub tint: Tint,
    /// Shown bold and underlined.
    pub emphasis: bool,
}

/// Number of lines of the summary block.
pub const SUMMARY_LEN: usize = 6;

pub open spec fn text_of(f: Fraction, k: nat) -> Seq<char> {
    decimal_text(f.num as int, f.den as int, k)
}

pub open spec fn line_matches(line: SummaryLine, caption: Seq<char>, value: Seq<char>, tint: Tint, emphasis: bool) -> bool {
    &&& line.caption@ == pad_right(caption, 16)
    &&& line.value@ == value
    &&& line.tint == tint
    &&& line.emphasis == emphasis
}

/// The summary block: capital, risk, buy price, stop price and its distance,
/// share count and position size.
pub open spec fn summary_matches(lines: Seq<SummaryLine>, cash: Amount, risk: Amount, price: Amount, stop: Amount, pos: Position) -> bool {
    let sc = SCALE as i128;
    &&& lines.len() == SUMMARY_LEN
    &&& line_matches(lines[0], "Total capital:"@,
            text_of(Fraction { num: cash.units as i128, den: sc }, 2), Tint::Magenta, false)
    &&& line_matches(lines[1], "Total risk:"@,
            text_of(pos.total_risk, 2) + " ("@ + text_of(Fraction { num: risk.units as i128, den: sc }, 2) + "%)"@,
            Tint::Red, false)
    &&& line_matches(lines[2], "Buy price:"@,
            text_of(Fraction { num: price.units as i128, den: sc }, 8), Tint::Yellow, false)
    &&& line_matches(lines[3], "Stop price:"@,
            text_of(Fraction { num: stop.units as i128, den: sc }, 8) + " (-"@ + text_of(pos.loss_delta, 8) + ")"@,
            Tint::Yellow, false)
    &&& line_matches(lines[4], "Max shares:"@, text_of(pos.max_shares, 0), Tint::Green, true)
    &&& line_matches(lines[5], "Position size:"@, text_of(pos.position_size, 2), Tint::Green, true)
}

fn summary_line(caption: &str, value: String, tint: Tint, emphasis: bool) -> (r: SummaryLine)
    ensures
        line_matches(r, caption@, value@, tint, emphasis),
{
    let c = String::from_str(caption);
    SummaryLine { caption: pad_right_string(&c, 16), value, tint, emphasis }
}

/// Everything the risk-based calculator shows.
#[derive(Debug)]
pub struct RiskReport {
    pub position: Position,
    pub summary: Vec<SummaryLine>,
    pub ladder: Vec<LadderRow>,
}

/// Sizes a position from capital, risk percentage, buy price and stop
/// price, and lays out its summary and its ladder; the ladder's cash column
/// is the position size. Nothing is laid out when the inputs are rejected.
pub fn risk_report(cash: Amount, risk: Amount, price: Amount, stop: Amount) -> (r: Result<RiskReport, SizingError>)
    ensures
        stop.units >= price.units <==> r matches Err(SizingError::InvalidStop),
        (stop.units < price.units && !in_range(cash.units as int, risk.units as int, price.units as int))
            <==> r matches Err(SizingError::OutOfRange),
        r is Ok ==> {
            let rep = r->Ok_0;
            &&& position_matches(rep.position, cash.units as int, risk.units as int, price.units as int, stop.units as int)
            &&& summary_matches(rep.summary@, cash, risk, price, stop, rep.position)
            &&& ladder_matches(rep.ladder@, price.units as int, rep.position.position_size.q(), true)
        },
{
    let pos = match size_position(cash, risk, price, stop) {
        Ok(pos) => pos,
        Err(e) => {
            return Err(e);
        },
    };
    let sc = SCALE as i128;
    let ghost (ci, ri, pi, si) = (cash.units as int, risk.units as int, price.units as int, stop.units as int);
    proof {
        reveal_with_fuel(pow10, 9);
        assert(pow10(2) == 100);
        assert(pow10(8) == 100000000);
        assert(pow10(0) == 1);
        assert(sc == 100000000);
        assert(exact_fractions(pos, ci, ri, pi, si));
        assert(pos.position_size.den == (1000000000000000000 * (pi - si))) by (nonlinear_arith)
            requires pos.position_size.den == 100 * (sc as int) * (sc as int) * (pi - si), sc == 100000000;
        lemma_mod_multiples_basic(10000000000000000 * (pi - si), 100);
        assert(10000000000000000 * (pi - si) * 100 == 1000000000000000000 * (pi - si)) by (nonlinear_arith);
        assert(pos.total_risk.den == 1000000000000000000);
        assert(-0x4000_0000_0000_0000_0000_0000_0000_0000 <= ci * ri <= 0x4000_0000_0000_0000_0000_0000_0000_0000) by (nonlinear_arith)
            requires -0x8000_0000_0000_0000 <= ci <= 0x7fff_ffff_ffff_ffff, -0x8000_0000_0000_0000 <= ri <= 0x7fff_ffff_ffff_ffff;
    }
    let mut summary: Vec<SummaryLine> = Vec::new();
    let t0 = fraction_text(Fraction { num: cash.units as i128, den: sc }, 2);
    summary.push(summary_line("Total capital:", t0, Tint::Magenta, false));

    let mut t1 = fraction_text(pos.total_risk, 2);
    t1.append(" (");
    let r1 = fraction_text(Fraction { num: risk.units as i128, den: sc }, 2);
    t1.append(r1.as_str());
    t1.append("%)");
    summary.push(summary_line("Total risk:", t1, Tint::Red, false));

    let t2 = fraction_text(Fraction { num: price.units as i128, den: sc }, 8);
    summary.push(summary_line("Buy price:", t2, Tint::Yellow, false));

    let mut t3 = fraction_text(Fraction { num: stop.units as i128, den: sc }, 8);
    t3.append(" (-");
    let d3 = fraction_text(pos.loss_delta, 8);
    t3.append(d3.as_str());
    t3.append(")");
    summary.push(summary_line("Stop price:", t3, Tint::Yellow, false));

    let t4 = fraction_text(pos.max_shares, 0);
    summary.push(summary_line("Max shares:", t4, Tint::Green, true));

    let t5 = fraction_text(pos.position_size, 2);
    summary.push(summary_line("Position size:", t5, Tint::Green, true));

    proof {
        assert(abs_int(pos.position_size.num * 10) < i128::MAX) by (nonlinear_arith)
            requires pos.position_size.num == ci * ri * pi, in_range(ci, ri, pi);
    }
    let rows = ladder(price, pos.position_size, true);
    let rep = RiskReport { position: pos, summary, ladder: rows };
    assert(summary_matches(rep.summary@, cash, risk, price, stop, rep.position));
    Ok(rep)
}

/// The ladder around `price` for a holding worth `cash`, without risk
/// figures and without the row markings of the risk-based report.
pub fn table_report(price: Amount, cash: Amount) -> (r: Vec<LadderRow>)
    ensures
        ladder_matches(r@, price.units as int, amount_q(cash.units as int), false),
{
    let base = Fraction { num: cash.units as i128, den: SCALE as i128 };
    proof {
        assert(abs_int(base.num * 10) < i128::MAX) by (nonlinear_arith)
            requires -0x8000_0000_0000_0000 <= base.num <= 0x7fff_ffff_ffff_ffff;
    }
    ladder(price, base, false)
}

/// The figures of a sized position are shown as the formulas over the
/// inputs give them: total risk, loss per share, share count and position
/// size each read, once rounded, exactly as `cash * risk / 100`,
/// `price - stop`, their quotient and that quotient times `price` do.
pub proof fn lemma_figures_follow_formulas(pos: Position, cash: int, risk: int, price: int, stop: int)
    requires
        stop < price,
        position_matches(pos, cash, risk, price, stop),
    ensures
        text_of(pos.total_risk, 2) == decimal_text(total_risk(cash, risk).0, total_risk(cash, risk).1, 2),
        text_of(pos.loss_delta, 8) == decimal_text(loss_delta(price, stop).0, loss_delta(price, stop).1, 8),
        text_of(pos.max_shares, 0)
            == decimal_text(max_shares(cash, risk, price, stop).0, max_shares(cash, risk, price, stop).1, 0),
        text_of(pos.position_size, 2)
            == decimal_text(position_size(cash, risk, price, stop).0, position_size(cash, risk, price, stop).1, 2),
{
    let sc = SCALE as int;
    assert(sc == 100000000);
    let tr = total_risk(cash, risk);
    let ld = loss_delta(price, stop);
    let ms = max_shares(cash, risk, price, stop);
    let ps = position_size(cash, risk, price, stop);
    assert(tr.1 == sc * (sc * 100));
    assert(ld == (price * sc - stop * sc, sc * sc));
    assert(ld.0 > 0) by (nonlinear_arith)
        requires ld.0 == price * sc - stop * sc, stop < price, sc == 100000000;
    assert(ms.1 == tr.1 * ld.0);
    assert(ms.1 > 0) by (nonlinear_arith)
        requires ms.1 == tr.1 * ld.0, tr.1 == sc * (sc * 100), ld.0 > 0, sc == 100000000;
    assert(ps.1 == ms.1 * sc);
    assert(ps.1 > 0) by (nonlinear_arith)
        requires ps.1 == ms.1 * sc, ms.1 > 0, sc == 100000000;
    lemma_decimal_text_same_value(pos.total_risk.num as int, pos.total_risk.den as int, tr.0, tr.1, 2);
    lemma_decimal_text_same_value(pos.loss_delta.num as int, pos.loss_delta.den as int, ld.0, ld.1, 8);
    lemma_decimal_text_same_value(pos.max_shares.num as int, pos.max_shares.den as int, ms.0, ms.1, 0);
    lemma_decimal_text_same_value(pos.position_size.num as int, pos.position_size.den as int, ps.0, ps.1, 2);
}

} // verus!
