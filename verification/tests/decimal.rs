use wallet_ledger::amount::{mul_div_round, Amount, UNIT};
use wallet_ledger::decimal_text::{format_amount, parse_amount};
use wallet_ledger::strutil::amount_to_string;

fn units(s: &str) -> i128 {
    parse_amount(s).unwrap().units()
}

#[test]
fn parse_whole_and_fraction() {
    assert_eq!(units("100"), 100 * UNIT);
    assert_eq!(units("1.03455"), 103_455 * UNIT / 100_000);
    assert_eq!(units("0.5"), UNIT / 2);
    assert_eq!(units("-3.25"), -(3 * UNIT) - UNIT / 4);
    assert_eq!(units("+7"), 7 * UNIT);
    assert_eq!(units("007"), 7 * UNIT);
    assert_eq!(units("0.00000000000000000001"), 1);
}

#[test]
fn parse_rejects_malformed() {
    assert!(parse_amount("").is_none());
    assert!(parse_amount("+").is_none());
    assert!(parse_amount("abc").is_none());
    assert!(parse_amount("1.").is_none());
    assert!(parse_amount(".5").is_none());
    assert!(parse_amount("1e5").is_none());
    assert!(parse_amount("1.2.3").is_none());
    assert!(parse_amount("1 2").is_none());
    // more than twenty fractional digits
    assert!(parse_amount("0.000000000000000000001").is_none());
    // whole part at the machine limit
    assert!(parse_amount("100000000000000000").is_none());
    assert!(parse_amount("99999999999999999").is_some());
}

#[test]
fn format_is_canonical() {
    assert_eq!(format_amount(&parse_amount("50").unwrap()), b"50");
    assert_eq!(format_amount(&parse_amount("0").unwrap()), b"0");
    assert_eq!(format_amount(&parse_amount("-3.25").unwrap()), b"-3.25");
    assert_eq!(format_amount(&parse_amount("0.500").unwrap()), b"0.5");
    assert_eq!(format_amount(&parse_amount("+7.0").unwrap()), b"7");
    assert_eq!(amount_to_string(&parse_amount("43.86492").unwrap()), "43.86492");
}

#[test]
fn parse_format_round_trip() {
    for s in ["0", "1", "50", "100", "1.03455", "-0.00001", "99999999999999999.5"] {
        let a = parse_amount(s).unwrap();
        let printed = amount_to_string(&a);
        assert_eq!(parse_amount(&printed).unwrap().units(), a.units());
    }
}

#[test]
fn rounding_is_half_even() {
    // 2.5 rounds to 2, 1.5 rounds to 2, and the sign mirrors.
    assert_eq!(mul_div_round(5, 1, 2), Some(2));
    assert_eq!(mul_div_round(3, 1, 2), Some(2));
    assert_eq!(mul_div_round(-5, 1, 2), Some(-2));
    assert_eq!(mul_div_round(-3, 1, 2), Some(-2));
    assert_eq!(mul_div_round(7, 1, 2), Some(4));
    assert_eq!(mul_div_round(10, 10, 4), Some(25));
}

#[test]
fn checked_arithmetic_reports_overflow() {
    let a = parse_amount("99999999999999999").unwrap();
    assert!(a.checked_add(a).is_none());
    assert!(a.checked_add(Amount::zero()).is_some());
    assert!(a.checked_sub(a).unwrap().is_zero());
}
