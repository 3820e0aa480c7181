use hega::numeric::{fmt_fp, fmt_int, parse_fixed, parse_i64, parse_usize, tokens, trim};

fn b(s: &str) -> Vec<u8> {
    s.as_bytes().to_vec()
}

#[test]
fn parse_fixed_plain() {
    assert_eq!(parse_fixed(&b("1")), Some(1_000_000_000));
    assert_eq!(parse_fixed(&b("0.938")), Some(938_000_000));
    assert_eq!(parse_fixed(&b("-1.5")), Some(-1_500_000_000));
    assert_eq!(parse_fixed(&b("+2")), Some(2_000_000_000));
    assert_eq!(parse_fixed(&b("199.239")), Some(199_239_000_000));
}

#[test]
fn parse_fixed_exponent() {
    assert_eq!(parse_fixed(&b("1.23E-05")), Some(12_300));
    assert_eq!(parse_fixed(&b("1.23e2")), Some(123_000_000_000));
    assert_eq!(parse_fixed(&b("2E3")), Some(2_000_000_000_000));
    // below the fixed-point grid: truncated to zero
    assert_eq!(parse_fixed(&b("1e-30")), Some(0));
}

#[test]
fn parse_fixed_malformed() {
    assert_eq!(parse_fixed(&b("")), None);
    assert_eq!(parse_fixed(&b("abc")), None);
    assert_eq!(parse_fixed(&b("1.2.3")), None);
    assert_eq!(parse_fixed(&b("1e")), None);
    // beyond the representable magnitude
    assert_eq!(parse_fixed(&b("1e30")), None);
}

#[test]
fn parse_ints() {
    assert_eq!(parse_i64(&b("-42")), Some(-42));
    assert_eq!(parse_i64(&b("9223372036854775807")), Some(i64::MAX));
    assert_eq!(parse_i64(&b("-9223372036854775808")), Some(i64::MIN));
    assert_eq!(parse_i64(&b("9223372036854775808")), None);
    assert_eq!(parse_i64(&b("1.5")), None);
    assert_eq!(parse_usize(&b("17")), Some(17));
    assert_eq!(parse_usize(&b("-1")), None);
}

#[test]
fn tokens_split() {
    let ts = tokens(&b("  a  bb\tccc \n"));
    let expect: Vec<Vec<u8>> = vec![b("a"), b("bb"), b("ccc")];
    assert_eq!(ts, expect);
    assert_eq!(tokens(&b("")).len(), 0);
}

#[test]
fn trim_ws() {
    assert_eq!(trim(&b("  x y\t ")), b("x y"));
    assert_eq!(trim(&b("   ")), b(""));
}

#[test]
fn format_fixed() {
    assert_eq!(fmt_fp(-1_000_000_000), b("-1.0"));
    assert_eq!(fmt_fp(938_000_000), b("0.938"));
    assert_eq!(fmt_fp(0), b("0.0"));
    assert_eq!(fmt_fp(5_800_000_000), b("5.8"));
    assert_eq!(fmt_int(-42), b("-42"));
    assert_eq!(fmt_int(7), b("7"));
}
