use volonym::poly::{capture_term, parse_decimal, parse_poly, terms_of, to_i64_vec, TermCapture};

fn capture(sign: Option<&str>, coef: Option<&str>, var: bool, exp: Option<&str>) -> TermCapture {
    TermCapture {
        sign: sign.map(|s| s.as_bytes().to_vec()),
        coef: coef.map(|s| s.as_bytes().to_vec()),
        var: if var { Some(b"x".to_vec()) } else { None },
        exp: exp.map(|s| s.as_bytes().to_vec()),
    }
}

#[test]
fn parses_a_polynomial() {
    assert_eq!(parse_poly("3x^2 - x + 5"), vec![(0, 5), (1, -1), (2, 3)]);
    assert_eq!(parse_poly("-7X^10+2x"), vec![(1, 2), (10, -7)]);
    assert_eq!(parse_poly(""), vec![]);
}

#[test]
fn terms_of_one_exponent_keep_their_order() {
    let captures = vec![
        capture(Some(""), Some("4"), true, Some("2")),
        capture(Some("-"), Some("9"), false, None),
        capture(Some("+"), None, true, Some("2")),
        capture(Some("+"), Some("6"), false, None),
        capture(Some(""), None, true, None),
    ];
    assert_eq!(terms_of(&captures), vec![(0, -9), (0, 6), (1, 1), (2, 4), (2, 1)]);
    assert_eq!(terms_of(&vec![]), vec![]);
}

#[test]
fn a_term_defaults_to_one() {
    assert_eq!(capture_term(&capture(None, None, false, None)), (0, 1));
    assert_eq!(capture_term(&capture(Some("-"), None, true, None)), (1, -1));
    // An exponent without a variable does not count.
    assert_eq!(capture_term(&capture(Some("+"), Some("3"), false, Some("7"))), (0, 3));
    // What does not fit counts as one.
    assert_eq!(capture_term(&capture(Some("-"), Some("9223372036854775808"), true, None)), (1, -1));
    assert_eq!(
        capture_term(&capture(Some(""), Some("9223372036854775807"), true, Some("4294967296"))),
        (1, 9223372036854775807)
    );
    assert_eq!(
        capture_term(&capture(Some("-"), Some("9223372036854775807"), true, Some("4294967295"))),
        (4294967295, -9223372036854775807)
    );
}

#[test]
fn decimal_numbers() {
    assert_eq!(parse_decimal(b"0", 10), Some(0));
    assert_eq!(parse_decimal(b"007", 10), Some(7));
    assert_eq!(parse_decimal(b"10", 10), Some(10));
    assert_eq!(parse_decimal(b"11", 10), None);
    assert_eq!(parse_decimal(b"", 10), None);
    assert_eq!(parse_decimal(b"1a", 100), None);
    assert_eq!(parse_decimal(b"18446744073709551615", u64::MAX), Some(u64::MAX));
    assert_eq!(parse_decimal(b"18446744073709551616", u64::MAX), None);
    assert_eq!(parse_decimal(b"99999999999999999999999999", u64::MAX), None);
}

#[test]
fn coefficients_by_exponent() {
    assert_eq!(to_i64_vec(&vec![(0, 5), (1, -1), (2, 3)], 4), vec![5, -1, 3, 0]);
    // A later term of one exponent replaces the earlier; an exponent that
    // does not fit is left out.
    assert_eq!(to_i64_vec(&vec![(1, 2), (1, 7), (5, 9)], 3), vec![0, 7, 0]);
    assert_eq!(to_i64_vec(&vec![(0, 1)], 0), Vec::<i64>::new());
}
