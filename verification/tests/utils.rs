use riscan_pro::utils::{is_float_token, parse_projective3, parse_usize};
use riscan_pro::Error;

#[test]
fn projective3() {
    let matrix = parse_projective3(
        "-0.010877741999999997 -0.003724941 -0.999933898 0.18508641   0.019274697 0.999806486 -0.0039341460000000013 0.000460517   0.99975505 -0.019316217 -0.01080384 -0.092802787   0 0 0 1",
    )
    .unwrap();
    assert_eq!("-0.003724941", matrix.entry(0, 1).as_str());
    assert_eq!("0.18508641", matrix.entry(0, 3).as_str());
    let identity = parse_projective3("1 0 0 0 0 1 0 0 0 0 1 0 0 0 0 1").unwrap();
    for row in 0..4 {
        for col in 0..4 {
            let expected = if row == col { "1" } else { "0" };
            assert_eq!(expected, identity.entry(row, col).as_str());
        }
    }
    assert!(parse_projective3("1 0 0 0 0 1 0 0 0 0 1 0 0 0 1").is_err());
    assert!(parse_projective3("1 0 0 0 0 1 0 0 0 0 1 0 0 0 0 1 0").is_err());
    assert!(matches!(
        parse_projective3("1 0 0 0 0 1 0 0 0 0 1 0 0 0 1"),
        Err(Error::ParseProjective3(_))
    ));
}

#[test]
fn projective3_newline_separated() {
    let matrix = parse_projective3("1 0 0 0\n0 1 0 0\n0 0 1 0\n0 0 0 1").unwrap();
    assert_eq!("1", matrix.entry(3, 3).as_str());
}

#[test]
fn projective3_bad_token() {
    let err = parse_projective3("1 0 0 0 0 1 0 0 0 0 1 0 0 0 zero 1").unwrap_err();
    assert_eq!(Error::ParseFloat("zero".to_string()), err);
}

#[test]
fn float_tokens() {
    assert!(is_float_token("1"));
    assert!(is_float_token("-0.003724941"));
    assert!(is_float_token("+1.5e-3"));
    assert!(is_float_token("1."));
    assert!(is_float_token(".5"));
    assert!(is_float_token("1.e5"));
    assert!(is_float_token("inf"));
    assert!(is_float_token("-Infinity"));
    assert!(is_float_token("NaN"));
    assert!(!is_float_token(""));
    assert!(!is_float_token("."));
    assert!(!is_float_token("1e"));
    assert!(!is_float_token("e5"));
    assert!(!is_float_token("1.5.2"));
    assert!(!is_float_token("one"));
    assert!(!is_float_token("1 "));
}

#[test]
fn usize_tokens() {
    assert_eq!(1024, parse_usize("1024").unwrap());
    assert_eq!(7, parse_usize("+7").unwrap());
    assert_eq!(0, parse_usize("0").unwrap());
    assert!(parse_usize("").is_err());
    assert!(parse_usize("+").is_err());
    assert!(parse_usize("-1").is_err());
    assert!(parse_usize("1.5").is_err());
    assert_eq!(
        Error::ParseInt("99999999999999999999999999999".to_string()),
        parse_usize("99999999999999999999999999999").unwrap_err()
    );
}
