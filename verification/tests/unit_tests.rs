use rpn_calc::literal::parse_int;
use rpn_calc::ops::{apply, operator, BinOp};
use rpn_calc::token::tokenize;

#[test]
fn tokenize_splits_on_whitespace_runs() {
    let toks = tokenize(b"ab  cd\n ef");
    assert_eq!(toks, vec![b"ab".to_vec(), b"cd".to_vec(), b"ef".to_vec()]);
}

#[test]
fn tokenize_empty_and_blank_inputs() {
    assert_eq!(tokenize(b""), Vec::<Vec<u8>>::new());
    assert_eq!(tokenize(b" \t\r\n "), Vec::<Vec<u8>>::new());
}

#[test]
fn tokenize_keeps_order() {
    let toks = tokenize(b"3 4 p");
    assert_eq!(toks, vec![b"3".to_vec(), b"4".to_vec(), b"p".to_vec()]);
}

#[test]
fn operator_registry_entries() {
    assert_eq!(operator(b"p"), Some(BinOp::Add));
    assert_eq!(operator(b"+"), Some(BinOp::Add));
    assert_eq!(operator(b"m"), Some(BinOp::Mul));
    assert_eq!(operator(b"*"), Some(BinOp::Mul));
    assert_eq!(operator(b"d"), Some(BinOp::Div));
}

#[test]
fn operator_registry_is_closed() {
    assert_eq!(operator(b"q"), None);
    assert_eq!(operator(b""), None);
    assert_eq!(operator(b"pp"), None);
}

#[test]
fn apply_addition_wraps() {
    assert_eq!(apply(BinOp::Add, 2, 3), Some(5));
    assert_eq!(apply(BinOp::Add, i64::MAX, 1), Some(i64::MIN));
}

#[test]
fn apply_multiplication_wraps() {
    assert_eq!(apply(BinOp::Mul, 6, 7), Some(42));
    assert_eq!(apply(BinOp::Mul, i64::MAX, 2), Some(-2));
}

#[test]
fn apply_division_truncates() {
    assert_eq!(apply(BinOp::Div, 7, 2), Some(3));
    assert_eq!(apply(BinOp::Div, -7, 2), Some(-3));
    assert_eq!(apply(BinOp::Div, 7, -2), Some(-3));
}

#[test]
fn apply_division_without_result() {
    assert_eq!(apply(BinOp::Div, 7, 0), None);
    assert_eq!(apply(BinOp::Div, i64::MIN, -1), None);
}

#[test]
fn parse_decimal_literals() {
    assert_eq!(parse_int(b"123", 10), Some(123));
    assert_eq!(parse_int(b"-123", 10), Some(-123));
    assert_eq!(parse_int(b"+7", 10), Some(7));
    assert_eq!(parse_int(b"0", 10), Some(0));
}

#[test]
fn parse_decimal_bounds() {
    assert_eq!(parse_int(b"9223372036854775807", 10), Some(i64::MAX));
    assert_eq!(parse_int(b"-9223372036854775808", 10), Some(i64::MIN));
    assert_eq!(parse_int(b"9223372036854775808", 10), None);
    assert_eq!(parse_int(b"-9223372036854775809", 10), None);
}

#[test]
fn parse_decimal_rejects_malformed() {
    assert_eq!(parse_int(b"", 10), None);
    assert_eq!(parse_int(b"-", 10), None);
    assert_eq!(parse_int(b"+", 10), None);
    assert_eq!(parse_int(b"12a", 10), None);
    assert_eq!(parse_int(b"1 2", 10), None);
}

#[test]
fn parse_hex_literals() {
    assert_eq!(parse_int(b"ff", 16), Some(255));
    assert_eq!(parse_int(b"FF", 16), Some(255));
    assert_eq!(parse_int(b"-a", 16), Some(-10));
    assert_eq!(parse_int(b"1f", 16), Some(31));
}

#[test]
fn parse_hex_bounds() {
    assert_eq!(parse_int(b"7fffffffffffffff", 16), Some(i64::MAX));
    assert_eq!(parse_int(b"-8000000000000000", 16), Some(i64::MIN));
    assert_eq!(parse_int(b"8000000000000000", 16), None);
    assert_eq!(parse_int(b"ffffffffffffffff", 16), None);
}

#[test]
fn parse_hex_rejects_letters_in_decimal() {
    assert_eq!(parse_int(b"ff", 10), None);
}
