//! How numbers are shown.

use botforge_plan::decimals::{show_float, show_number};
use botforge_plan::error::PlanError;
use botforge_plan::outputs::{coerce_output_value, output_value_to_evaluated};
use botforge_plan::step::OutputType;
use botforge_plan::value::Node;

/// The text that stands for a number that a step wrote.
fn used(text: &str) -> String {
    let value = coerce_output_value("n", text, OutputType::Number).unwrap();
    let used = value.to_use_string();
    assert_eq!(output_value_to_evaluated(value).render(), used);
    used
}

#[test]
fn numbers_are_shown_in_plain_decimal_notation() {
    for (text, shown) in [
        ("7", "7"),
        ("7.0", "7"),
        ("+7.", "7"),
        ("007", "7"),
        ("70e-1", "7"),
        ("2.50", "2.5"),
        (".5", "0.5"),
        ("5e-3", "0.005"),
        ("12.5e2", "1250"),
        ("1.25E1", "12.5"),
        ("1e21", "1000000000000000000000"),
        ("-0.10", "-0.1"),
        ("0", "0"),
        ("0.000", "0"),
        ("-0", "-0"),
        ("0e99999999999999999999999999999999999999999999", "0"),
        ("inf", "inf"),
        ("-Infinity", "-inf"),
        ("NAN", "NaN"),
        ("-nan", "NaN"),
    ] {
        assert_eq!(used(text), shown, "{text}");
        let float: f64 = text.parse().unwrap();
        assert_eq!(float.to_string(), shown, "{text}");
    }
}

#[test]
fn numbers_beyond_the_floats_are_infinite_or_zero() {
    let far = "9".repeat(50);
    for (text, shown) in [
        (format!("1e{far}"), "inf"),
        (format!("-1e{far}"), "-inf"),
        (format!("1e-{far}"), "0"),
        (format!("-1e-{far}"), "-0"),
        ("1e309".to_string(), "inf"),
        ("1.797693134862315808e308".to_string(), "inf"),
        ("2.47e-324".to_string(), "0"),
        ("1e-400".to_string(), "0"),
    ] {
        assert_eq!(used(&text), shown, "{text}");
        let float: f64 = text.parse().unwrap();
        assert_eq!(float.to_string(), shown, "{text}");
    }
    for text in [
        "1e308",
        "1.5e-307",
        "3e-324",
        "2.4703282292062328e-324",
        "2.2250738585072011e-308",
        "1.79769313486231e308",
        "1.7976931348623158e308",
        "1.7976931348623158079e308",
    ] {
        let float: f64 = text.parse().unwrap();
        assert_eq!(used(text), float.to_string(), "{text}");
    }
}

#[test]
fn numbers_are_shown_as_floats_are() {
    let mut digits: u128 = 1;
    for round in 0..400i64 {
        digits = (digits * 48_271_000_003 + 11) % 10u128.pow(1 + (round % 25) as u32);
        let text = format!("{digits}e{}", round * 7 % 640 - 335);
        let float: f64 = text.parse().unwrap();
        assert_eq!(used(&text), float.to_string(), "{text}");
        assert_eq!(show_number(&used(&text)), used(&text));
    }
}

#[test]
fn numbers_of_many_digits_are_rounded() {
    for (text, shown) in [
        ("9007199254740993", "9007199254740992"),
        ("0.1000000000000000055511151231257827", "0.1"),
        ("123456789012345678901234567890", "123456789012345680000000000000"),
        ("-1.00000000000000000000000000001", "-1"),
    ] {
        assert_eq!(used(text), shown);
        let float: f64 = text.parse().unwrap();
        assert_eq!(float.to_string(), shown);
    }
}

#[test]
fn floats_of_documents_are_shown_plainly() {
    let number = |n: &str| Ok(Node::Number(n.to_string()));
    assert_eq!(show_float(&number("1.5e-7")), "0.00000015");
    assert_eq!(show_float(&number("12.0")), "12");
    assert_eq!(show_float(&number("0.0")), "0");
    assert_eq!(show_float(&number(".inf")), "inf");
    assert_eq!(show_float(&Ok(Node::String("0.2e309".to_string()))), "inf");
    assert_eq!(show_float(&Err(PlanError::text("deep"))), "inf");
}

#[test]
fn what_is_no_number_is_shown_as_it_is() {
    for text in ["", "7x", "1e", "--1", "0x10"] {
        assert_eq!(show_number(text), text);
    }
}
