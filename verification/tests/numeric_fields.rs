use tabalign::numeric::is_numeric_str;

#[test]
fn numeric_test_agrees_with_float_parsing() {
    let cases = [
        "",
        "1",
        "42",
        "-1",
        "+1",
        "1.",
        ".5",
        "-.5",
        "+.5",
        "1.5",
        "-12.75",
        "1.5e3",
        "1e-3",
        "1E5",
        "1.e2",
        "2.5E+10",
        "inf",
        "-inf",
        "+inf",
        "infinity",
        "Infinity",
        "INFINITY",
        "nan",
        "NaN",
        "NAN",
        "iNf",
        "abc",
        "bob",
        "alice",
        "1e",
        "e5",
        ".",
        "+",
        "-",
        "+.",
        "1.2.3",
        "1_000",
        " 1",
        "1 ",
        "0x10",
        "1e+",
        "1e-",
        "5e5e5",
        "infinityy",
        "in",
        "na",
        "--1",
        "+-1",
        "9.5",
        "10",
        "007",
        ".e5",
        "1.2e03",
    ];
    for s in cases {
        assert_eq!(
            is_numeric_str(s),
            s.parse::<f64>().is_ok(),
            "disagreement on {:?}",
            s
        );
    }
}

#[test]
fn numeric_accepts_plain_and_signed_numbers() {
    assert!(is_numeric_str("9.5"));
    assert!(is_numeric_str("10"));
    assert!(is_numeric_str("-3"));
    assert!(!is_numeric_str("alice"));
    assert!(!is_numeric_str(""));
}
