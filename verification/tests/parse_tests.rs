use beebot::parse::parse_value;

fn parsed_text(s: &str) -> Option<String> {
    match parse_value(s) {
        Ok(m) => Some(m.text),
        Err(_) => None,
    }
}

#[test]
fn accepts_plain_numbers() {
    assert_eq!(parsed_text("10"), Some("10".to_string()));
    assert_eq!(parsed_text("42.5"), Some("42.5".to_string()));
    assert_eq!(parsed_text("0"), Some("0".to_string()));
    assert_eq!(parsed_text("007"), Some("007".to_string()));
}

#[test]
fn trims_surrounding_whitespace() {
    assert_eq!(parsed_text(" 42.5 "), Some("42.5".to_string()));
    assert_eq!(parsed_text("\t-7\n"), Some("-7".to_string()));
    assert_eq!(parsed_text("\u{2003}5\u{2003}"), Some("5".to_string()));
    assert_eq!(parsed_text("\u{00A0}3.5\u{3000}"), Some("3.5".to_string()));
}

#[test]
fn accepts_signs_fractions_exponents() {
    assert_eq!(parsed_text("+1"), Some("+1".to_string()));
    assert_eq!(parsed_text("-3e10"), Some("-3e10".to_string()));
    assert_eq!(parsed_text("1."), Some("1.".to_string()));
    assert_eq!(parsed_text(".5"), Some(".5".to_string()));
    assert_eq!(parsed_text("+.5e-2"), Some("+.5e-2".to_string()));
    assert_eq!(parsed_text("2E8"), Some("2E8".to_string()));
    assert_eq!(parsed_text("6.02e+23"), Some("6.02e+23".to_string()));
    assert_eq!(parsed_text("1.5e0"), Some("1.5e0".to_string()));
}

#[test]
fn rejects_special_words() {
    // word forms are no measurements: infinities and not-a-number are errors
    assert!(parsed_text("inf").is_none());
    assert!(parsed_text("-Infinity").is_none());
    assert!(parsed_text("Infinity").is_none());
    assert!(parsed_text("NaN").is_none());
    assert!(parsed_text("nan").is_none());
    assert!(parsed_text("+INF").is_none());
}

#[test]
fn rejects_out_of_range_magnitudes() {
    // a magnitude at or above the binary64 overflow threshold
    // (2^1024 - 2^970, about 1.798e308) is outside the floating-point range
    assert!(parsed_text("9.9e999").is_none());
    assert!(parsed_text("1e309").is_none());
    assert!(parsed_text("-1e310").is_none());
    assert!(parsed_text("10000e305").is_none());
    assert!(parsed_text(&("1".repeat(310))).is_none());
    assert!(parsed_text("0.0001e313").is_none());
    assert!(parsed_text("2e308").is_none());
    assert!(parsed_text("0.5e309").is_none());
    assert!(parsed_text("-1.7976931348623159e308").is_none());
    assert!(parsed_text("1.797693134862315808e308").is_none());
    // still within the accepted range
    assert_eq!(parsed_text("1e308"), Some("1e308".to_string()));
    assert_eq!(parsed_text("-1.7e308"), Some("-1.7e308".to_string()));
    assert_eq!(parsed_text(&("9".repeat(308))), Some("9".repeat(308)));
    assert_eq!(
        parsed_text("1.7976931348623157e308"),
        Some("1.7976931348623157e308".to_string())
    );
    assert_eq!(
        parsed_text("17976931348623158e292"),
        Some("17976931348623158e292".to_string())
    );
    // tiny magnitudes and zero significands are values, not range errors
    assert_eq!(parsed_text("1e-999"), Some("1e-999".to_string()));
    assert_eq!(parsed_text("0e99999999999999999999"), Some("0e99999999999999999999".to_string()));
    assert_eq!(parsed_text("000.000e313"), Some("000.000e313".to_string()));
}

#[test]
fn boundary_is_the_exact_overflow_threshold() {
    // the decimal expansion of 2^1024 - 2^970: the smallest magnitude that
    // rounds to infinity (the tie goes up)
    let threshold = "179769313486231580793728971405303415079934132710037826936173778980444968292764750946649017977587207096330286416692887910946555547851940402630657488671505820681908902000708383676273854845817711531764475730270069855571366959622842914819860834936475292719074168444365510704342711559699508093042880177904174497792";
    assert_eq!(threshold.len(), 309);
    assert!(parsed_text(threshold).is_none());
    // one tenth of it falls back into decade 308 and is accepted
    let tenth = format!("{}e-1", threshold);
    assert_eq!(parsed_text(&tenth), Some(tenth.clone()));
    // the same digits one higher in the last place are rejected too
    let above = format!("{}3", &threshold[..308]);
    assert!(parsed_text(&above).is_none());
}

#[test]
fn rejects_non_numeric_text() {
    assert!(parsed_text("hello").is_none());
    assert!(parsed_text("").is_none());
    assert!(parsed_text("   ").is_none());
    assert!(parsed_text("+").is_none());
    assert!(parsed_text(".").is_none());
    assert!(parsed_text("1e").is_none());
    assert!(parsed_text("e5").is_none());
    assert!(parsed_text("1e+").is_none());
    assert!(parsed_text("1.2.3").is_none());
    assert!(parsed_text("4e5e6").is_none());
    assert!(parsed_text("2 3").is_none());
    assert!(parsed_text("12abc").is_none());
    assert!(parsed_text("infinit").is_none());
    assert!(parsed_text("--5").is_none());
    assert!(parsed_text("5-").is_none());
    assert!(parsed_text("0x10").is_none());
    assert!(parsed_text("1_000").is_none());
    assert!(parsed_text("١٢٣").is_none());
}

#[test]
fn accepts_exactly_what_std_parses_to_a_finite_value() {
    // the parser accepts a text exactly when the processor's own float
    // parsing yields a finite number: word forms give infinities or a
    // not-a-number, and overflowing magnitudes round to infinity
    let samples = [
        " 42.5 ", "hello", "10", "", "   ", "+", ".", "1.", ".5", "-3e10", "1e", "e5", "1.2.3",
        "4e5e6", "2 3", "+.5e-2", "1e+", "\t-7\n", "007", "6.02e+23", "2E8", "-.", "+.e1", "-0",
        "0.0e-0", "1e308", "inf", "-Infinity", "NaN", "nan", "2e308", "0.5e309", "9.9e999",
        "1e309", "1.7976931348623157e308", "-1.7976931348623159e308", "17976931348623158e292",
        "1e-999", "0e99999999999999999999",
    ];
    for s in samples {
        let ours = parse_value(s);
        let std_parse = s.trim().parse::<f64>();
        let std_finite = match std_parse {
            Ok(v) => v.is_finite(),
            Err(_) => false,
        };
        assert_eq!(ours.is_ok(), std_finite, "disagreement on {:?}", s);
        if let Ok(m) = ours {
            assert_eq!(m.text, s.trim());
            // the kept text denotes the same value std would have produced
            let v = m.text.parse::<f64>().unwrap();
            assert!(v == std_parse.unwrap());
        }
    }
}

#[test]
fn parsing_is_idempotent_on_its_own_output() {
    for s in ["  42.5\t", "+1e-9 ", " -12.", "10"] {
        let first = parse_value(s).map(|m| m.text).unwrap_or_default();
        let again = parse_value(&first);
        assert!(again.is_ok());
        assert_eq!(again.map(|m| m.text).unwrap_or_default(), first);
    }
}
