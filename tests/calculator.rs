use possize::amount::{parse_amount, Amount, AmountError};
use possize::flags::{risk_command, table_command, RiskCommand, TableCommand};
use possize::report::{label_of, ladder_row, risk_report, table_report, Tint};
use possize::sizing::{size_position, Fraction, SizingError};
use possize::text::{fixed_string, round_div};

fn amt(s: &str) -> Amount {
    parse_amount(s).unwrap()
}

fn some(s: &str) -> Option<String> {
    Some(s.to_string())
}

#[test]
fn parses_plain_and_decimal_amounts() {
    assert_eq!(parse_amount("100"), Ok(Amount { units: 10_000_000_000 }));
    assert_eq!(parse_amount("95.5"), Ok(Amount { units: 9_550_000_000 }));
    assert_eq!(parse_amount("-0.00000001"), Ok(Amount { units: -1 }));
    assert_eq!(parse_amount("+.5"), Ok(Amount { units: 50_000_000 }));
    assert_eq!(parse_amount("7."), Ok(Amount { units: 700_000_000 }));
}

#[test]
fn rejects_malformed_amounts() {
    for s in ["", "-", ".", "abc", "1.2.3", "12x", "1e5", " 1", "--1"] {
        assert_eq!(parse_amount(s), Err(AmountError::Malformed), "{:?}", s);
    }
}

#[test]
fn rejects_too_precise_and_too_large_amounts() {
    assert_eq!(parse_amount("0.123456789"), Err(AmountError::TooPrecise));
    assert_eq!(parse_amount("92233720368.54775807"), Ok(Amount { units: i64::MAX }));
    assert_eq!(parse_amount("92233720368.54775808"), Err(AmountError::OutOfRange));
    assert_eq!(parse_amount("100000000000000000000"), Err(AmountError::OutOfRange));
}

#[test]
fn rounds_half_to_even() {
    assert_eq!(round_div(5, 2), 2);
    assert_eq!(round_div(7, 2), 4);
    assert_eq!(round_div(-5, 2), -2);
    assert_eq!(round_div(2, 3), 1);
    assert_eq!(round_div(-1, 3), 0);
    assert_eq!(round_div(10, 1), 10);
}

#[test]
fn renders_fixed_point_text() {
    assert_eq!(fixed_string(12345, 2), "123.45");
    assert_eq!(fixed_string(-5, 2), "-0.05");
    assert_eq!(fixed_string(7, 0), "7");
    assert_eq!(fixed_string(0, 3), "0.000");
}

#[test]
fn labels_offsets() {
    assert_eq!(label_of(0), "0");
    assert_eq!(label_of(3), "+3%");
    assert_eq!(label_of(-5), "-5%");
    assert_eq!(label_of(10), "+10%");
}

#[test]
fn sizes_the_example_position() {
    let pos = size_position(amt("10000"), amt("1"), amt("100"), amt("95")).unwrap();
    // total risk 100, loss delta 5, max shares 20, position size 2000
    assert_eq!(pos.total_risk.num, 100 * pos.total_risk.den);
    assert_eq!(pos.loss_delta.num, 5 * pos.loss_delta.den);
    assert_eq!(pos.max_shares.num, 20 * pos.max_shares.den);
    assert_eq!(pos.position_size.num, 2000 * pos.position_size.den);
}

#[test]
fn example_report_summary_and_top_row() {
    let rep = risk_report(amt("10000"), amt("1"), amt("100"), amt("95")).unwrap();
    let s = &rep.summary;
    assert_eq!(s.len(), 6);
    assert_eq!(s[0].caption, "Total capital:  ");
    assert_eq!(s[0].value, "10000.00");
    assert_eq!(s[0].tint, Tint::Magenta);
    assert_eq!(s[1].value, "100.00 (1.00%)");
    assert_eq!(s[2].value, "100.00000000");
    assert_eq!(s[3].value, "95.00000000 (-5.00000000)");
    assert_eq!(s[4].value, "20");
    assert!(s[4].emphasis);
    assert_eq!(s[5].caption, "Position size:  ");
    assert_eq!(s[5].value, "2000.00");
    let top = &rep.ladder[0];
    assert_eq!(top.offset, 10);
    assert_eq!(top.label, " +10%");
    assert_eq!(top.price, "110.0000000000");
    assert_eq!(top.cash, "    200.00");
    assert_eq!(top.tint, Tint::Green);
}

#[test]
fn example_report_ladder() {
    let rep = risk_report(amt("10000"), amt("1"), amt("100"), amt("95")).unwrap();
    let offsets: Vec<i64> = rep.ladder.iter().map(|r| r.offset).collect();
    assert_eq!(offsets, vec![10, 5, 4, 3, 2, 1, 0, -1, -2, -3, -4, -5, -10]);
    let zero = &rep.ladder[6];
    assert_eq!(zero.label, "    0");
    assert_eq!(zero.price, "100.0000000000");
    assert_eq!(zero.cash, "   2000.00");
    assert_eq!(zero.tint, Tint::Magenta);
    let down = &rep.ladder[12];
    assert_eq!(down.label, " -10%");
    assert_eq!(down.price, "90.0000000000");
    assert_eq!(down.cash, "   -200.00");
    for row in &rep.ladder {
        assert_eq!(row.underline, row.offset == 1 || row.offset == -1);
        assert_eq!(row.marker, row.offset == 3 || row.offset == -3);
    }
    assert_eq!(rep.ladder[3].tint, Tint::Blue);
    assert_eq!(rep.ladder[10].tint, Tint::Red);
}

#[test]
fn table_row_at_minus_five() {
    let rows = table_report(amt("50"), amt("1000"));
    assert_eq!(rows.len(), 13);
    let row = &rows[11];
    assert_eq!(row.offset, -5);
    assert_eq!(row.label, "  -5%");
    assert_eq!(row.price, "47.5000000000");
    assert_eq!(row.cash, "    -50.00");
    assert_eq!(rows[6].cash, "   1000.00");
    assert!(rows.iter().all(|r| !r.underline && !r.marker));
}

#[test]
fn ladder_row_for_any_offset() {
    let base = Fraction { num: 12345, den: 100 };
    let row = ladder_row(amt("2"), base, 7, false);
    assert_eq!(row.label, "  +7%");
    assert_eq!(row.price, "2.1400000000");
    // 123.45 * 7 / 100 = 8.6415
    assert_eq!(row.cash, "      8.64");
}

#[test]
fn stop_at_or_above_price_is_rejected() {
    let r = risk_report(amt("10000"), amt("1"), amt("100"), amt("100"));
    assert!(matches!(r, Err(SizingError::InvalidStop)));
    let r = risk_report(amt("10000"), amt("1"), amt("100"), amt("101"));
    assert!(matches!(r, Err(SizingError::InvalidStop)));
    assert_eq!(SizingError::InvalidStop.message(), "invalid stop price");
}

#[test]
fn huge_products_are_out_of_range() {
    let r = size_position(amt("90000000000"), amt("90000000000"), amt("90000000000"), amt("1"));
    assert_eq!(r, Err(SizingError::OutOfRange));
}

#[test]
fn rounds_share_count() {
    // 10000 * 1% / 3 = 33.33 shares
    let rep = risk_report(amt("10000"), amt("1"), amt("10"), amt("7")).unwrap();
    assert_eq!(rep.summary[4].value, "33");
    assert_eq!(rep.summary[5].value, "333.33");
}

#[test]
fn missing_flag_asks_for_usage() {
    let r = risk_command(false, some("1"), None, some("2"), some("1"));
    assert!(matches!(r, Ok(RiskCommand::Usage)));
    let r = risk_command(true, some("1"), some("1"), some("2"), some("1"));
    assert!(matches!(r, Ok(RiskCommand::Usage)));
    let r = table_command(false, some("1"), None);
    assert!(matches!(r, Ok(TableCommand::Usage)));
    let r = table_command(false, None, None);
    assert!(matches!(r, Ok(TableCommand::Usage)));
}

#[test]
fn non_numeric_flag_is_named() {
    let e = risk_command(false, some("1000"), some("x1"), some("abc"), some("1")).unwrap_err();
    assert_eq!(e.flag, 'r');
    assert_eq!(e.token, "x1");
    assert_eq!(e.reason, AmountError::Malformed);
    assert_eq!(e.message(), "-r: invalid number 'x1'");
    let e = table_command(false, some("50"), some("lots")).unwrap_err();
    assert_eq!(e.flag, 'i');
    assert_eq!(e.message(), "-i: invalid number 'lots'");
    let e = table_command(false, some("0.000000001"), some("1")).unwrap_err();
    assert_eq!(e.message(), "-p: more than eight decimal places in '0.000000001'");
}

#[test]
fn flags_read_into_inputs() {
    match risk_command(false, some("10000"), some("1"), some("100"), some("95")) {
        Ok(RiskCommand::Run(inp)) => {
            assert_eq!(inp.cash, amt("10000"));
            assert_eq!(inp.risk, amt("1"));
            assert_eq!(inp.price, amt("100"));
            assert_eq!(inp.stop, amt("95"));
        }
        other => panic!("unexpected {:?}", other),
    }
    match table_command(false, some("50"), some("1000")) {
        Ok(TableCommand::Run(inp)) => {
            assert_eq!(inp.price, amt("50"));
            assert_eq!(inp.cash, amt("1000"));
        }
        other => panic!("unexpected {:?}", other),
    }
}
