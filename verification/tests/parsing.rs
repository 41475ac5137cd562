//! The three value parsers on raw, still-encoded text.

use route_filter::error::ParseError;
use route_filter::filter::ICAO;
use route_filter::filter::LengthOrder;
use route_filter::filter::RunwayLength;
use route_filter::num::parse_i32;
use route_filter::num::parse_u32;
use route_filter::num::u32_to_decimal;
use route_filter::numeric::numeric_text_valid;
use route_filter::time::Time;

#[test]
fn icao_non_empty_is_kept_verbatim() {
    let r = ICAO::from_form_value("EGLL").unwrap();
    assert_eq!(r.0, "EGLL");
    assert_eq!(r.as_str(), "EGLL");
    let r = ICAO::from_form_value("x").unwrap();
    assert_eq!(r.0, "x");
}

#[test]
fn icao_empty_fails() {
    let e = ICAO::from_form_value("").unwrap_err();
    assert_eq!(e, ParseError::EmptyIdentifier(String::new()));
    assert_eq!(e.raw_text(), "");
}

#[test]
fn time_plain_decimal_hours() {
    // Any float the host grammar accepts comes back as the same text.
    for f in [0.0f32, 3.25, 12.5, 100.5, 0.1] {
        let text = format!("{}", f);
        match Time::from_form_value(&text).unwrap() {
            Time::Hours(s) => {
                assert_eq!(s, text);
                assert_eq!(s.parse::<f32>().unwrap(), f);
            },
            other => panic!("expected plain hours, got {:?}", other),
        }
    }
}

#[test]
fn time_hour_minute_pairs() {
    for h in 0..30i32 {
        for m in 0..60i32 {
            let text = format!("{}%3A{}", h, m);
            let t = Time::from_form_value(&text).unwrap();
            assert_eq!(t, Time::HourMinute(h, m));
            match t {
                Time::HourMinute(hh, mm) => {
                    let hours = hh as f32 + mm as f32 / 60.0;
                    let expect = h as f32 + m as f32 / 60.0;
                    assert!((hours - expect).abs() < 1e-6);
                },
                other => panic!("expected a pair, got {:?}", other),
            }
        }
    }
}

#[test]
fn time_pair_is_not_range_checked() {
    // Out-of-range parts pass through uninterpreted.
    assert_eq!(Time::from_form_value("5%3A-30").unwrap(), Time::HourMinute(5, -30));
    assert_eq!(Time::from_form_value("30%3A99").unwrap(), Time::HourMinute(30, 99));
    assert_eq!(Time::from_form_value("+3%3A+5").unwrap(), Time::HourMinute(3, 5));
}

#[test]
fn time_invalid_inputs_fail() {
    for bad in ["abc", "", "%3A30", "12%3A", "1.5%3A30", "12%3Axy", "--2"] {
        let e = Time::from_form_value(bad).unwrap_err();
        assert_eq!(e, ParseError::InvalidTime(bad.to_string()));
    }
}

#[test]
fn time_splits_at_first_marker_only() {
    // A second marker lands in the minute part and spoils it.
    let e = Time::from_form_value("1%3A2%3A3").unwrap_err();
    assert_eq!(e, ParseError::InvalidTime("1%3A2%3A3".to_string()));
}

#[test]
fn numeric_grammar_matches_host_parsing() {
    let cases = [
        "", "+", "-", ".", "3", "3.", ".5", "3.5", "-3.5e-2", "1e", "e5", "inf", "Infinity",
        "NaN", "nan", "+inf", "-infinity", "--3", "1.2.3", "1e2e3", "0x10", " 3", "3 ", "1_000",
        "1e+9", "INF", "infi", "infinityy", "12345678901234567890", "1e999", "+.5e4", "5.e2",
        "-.5", "3..", "e", "+e2", "1e+", "In", "na",
    ];
    for s in cases {
        assert_eq!(numeric_text_valid(s), s.parse::<f32>().is_ok(), "disagree on {:?}", s);
    }
}

#[test]
fn runway_length_operator_tokens() {
    for v in [0u32, 1, 9, 10, 2500, 4294967295] {
        let r = RunwayLength::from_form_value(&format!("%3C{}", v)).unwrap();
        assert_eq!(r, RunwayLength { order: LengthOrder::Less, value: v });
        let r = RunwayLength::from_form_value(&format!("%3E{}", v)).unwrap();
        assert_eq!(r, RunwayLength { order: LengthOrder::Greater, value: v });
        let r = RunwayLength::from_form_value(&format!("%3D{}", v)).unwrap();
        assert_eq!(r, RunwayLength { order: LengthOrder::Equal, value: v });
    }
}

#[test]
fn runway_length_short_inputs_are_malformed() {
    for bad in ["", "a", "ab", "abc", "%3C", "%3E", "%3D"] {
        let e = RunwayLength::from_form_value(bad).unwrap_err();
        assert_eq!(e, ParseError::MalformedComparison(bad.to_string()));
    }
}

#[test]
fn runway_length_unknown_prefix_is_malformed() {
    for bad in ["abcd", "%3c25", "%3F25", "25%3C", "<250"] {
        let e = RunwayLength::from_form_value(bad).unwrap_err();
        assert_eq!(e, ParseError::MalformedComparison(bad.to_string()));
    }
}

#[test]
fn runway_length_bad_suffix_is_invalid_length() {
    for bad in ["%3Cabc", "%3C2.5", "%3C-5", "%3C99999999999", "%3E4294967296", "%3D+"] {
        let e = RunwayLength::from_form_value(bad).unwrap_err();
        assert_eq!(e, ParseError::InvalidLength(bad.to_string()));
    }
}

#[test]
fn runway_length_suffix_sign_follows_integer_grammar() {
    // The unsigned grammar admits a leading plus, as the host's does.
    let r = RunwayLength::from_form_value("%3C+25").unwrap();
    assert_eq!(r, RunwayLength { order: LengthOrder::Less, value: 25 });
}

#[test]
fn unsigned_text_parsing() {
    assert_eq!(parse_u32("0"), Some(0));
    assert_eq!(parse_u32("0042"), Some(42));
    assert_eq!(parse_u32("+7"), Some(7));
    assert_eq!(parse_u32("4294967295"), Some(4294967295));
    assert_eq!(parse_u32("4294967296"), None);
    assert_eq!(parse_u32("-1"), None);
    assert_eq!(parse_u32(""), None);
    assert_eq!(parse_u32("+"), None);
    assert_eq!(parse_u32("12a"), None);
}

#[test]
fn signed_text_parsing() {
    assert_eq!(parse_i32("12"), Some(12));
    assert_eq!(parse_i32("-30"), Some(-30));
    assert_eq!(parse_i32("+8"), Some(8));
    assert_eq!(parse_i32("2147483647"), Some(2147483647));
    assert_eq!(parse_i32("2147483648"), None);
    assert_eq!(parse_i32("-2147483648"), Some(-2147483648));
    assert_eq!(parse_i32("-2147483649"), None);
    assert_eq!(parse_i32("--2"), None);
    assert_eq!(parse_i32(""), None);
}

#[test]
fn decimal_formatting_is_canonical() {
    assert_eq!(u32_to_decimal(0), "0");
    assert_eq!(u32_to_decimal(7), "7");
    assert_eq!(u32_to_decimal(1234), "1234");
    assert_eq!(u32_to_decimal(4294967295), "4294967295");
}
