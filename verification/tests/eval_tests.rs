use rpn_calc::eval::evaluate;
use rpn_calc::render::DisplayFormat;

#[test]
fn add_two_numbers() {
    let r = evaluate("3 4 p");
    assert_eq!(r.stack, vec![7]);
    assert_eq!(r.error, None);
    assert_eq!(r.format, DisplayFormat::Decimal);
}

#[test]
fn add_with_plus_symbol() {
    let r = evaluate("3 4 +");
    assert_eq!(r.stack, vec![7]);
    assert_eq!(r.error, None);
}

#[test]
fn multiply_with_m() {
    let r = evaluate("3 4 m");
    assert_eq!(r.stack, vec![12]);
    assert_eq!(r.error, None);
}

#[test]
fn multiply_with_star() {
    let r = evaluate("3 4 *");
    assert_eq!(r.stack, vec![12]);
    assert_eq!(r.error, None);
}

#[test]
fn divide_truncates_toward_zero() {
    let r = evaluate("7 2 d");
    assert_eq!(r.stack, vec![3]);
    let r = evaluate("-7 2 d");
    assert_eq!(r.stack, vec![-3]);
}

#[test]
fn divide_uses_second_from_top_over_top() {
    let r = evaluate("8 2 d");
    assert_eq!(r.stack, vec![4]);
}

#[test]
fn iota_five() {
    let r = evaluate("5 i");
    assert_eq!(r.stack, vec![1, 2, 3, 4, 5]);
    assert_eq!(r.error, None);
}

#[test]
fn iota_zero_is_silent_no_op() {
    let r = evaluate("0 i");
    assert_eq!(r.stack, Vec::<i64>::new());
    assert_eq!(r.error, None);
}

#[test]
fn iota_negative_is_silent_no_op() {
    let r = evaluate("-3 i");
    assert_eq!(r.stack, Vec::<i64>::new());
    assert_eq!(r.error, None);
}

#[test]
fn iota_on_empty_stack_reports_error() {
    let r = evaluate("i");
    assert_eq!(r.stack, Vec::<i64>::new());
    assert_eq!(r.error.as_deref(), Some("i needs a number"));
}

#[test]
fn iota_ignores_token_suffix() {
    let r = evaluate("3 ix");
    assert_eq!(r.stack, vec![1, 2, 3]);
    assert_eq!(r.error, None);
}

#[test]
fn fold_add() {
    let r = evaluate("1 2 3 /p");
    assert_eq!(r.stack, vec![6]);
    assert_eq!(r.error, None);
}

#[test]
fn fold_multiply() {
    let r = evaluate("2 3 4 /m");
    assert_eq!(r.stack, vec![24]);
    assert_eq!(r.error, None);
}

#[test]
fn fold_on_empty_stack_reports_error() {
    let r = evaluate("/p");
    assert_eq!(r.stack, Vec::<i64>::new());
    assert!(r.error.is_some());
}

#[test]
fn fold_with_unknown_operator_reports_error() {
    let r = evaluate("1 2 /q");
    assert_eq!(r.stack, vec![1, 2]);
    assert_eq!(r.error.as_deref(), Some("/<op>"));
}

#[test]
fn fold_dividing_by_zero_reports_error() {
    let r = evaluate("8 0 /d");
    assert_eq!(r.stack, vec![8, 0]);
    assert_eq!(r.error.as_deref(), Some("division undefined"));
}

#[test]
fn hex_literal_pushes_and_switches_format() {
    let r = evaluate("0x1f");
    assert_eq!(r.stack, vec![31]);
    assert_eq!(r.error, None);
    assert_eq!(r.format, DisplayFormat::Hexadecimal);
    assert_eq!(r.render(), "0x1f ");
}

#[test]
fn hex_literal_with_sign() {
    let r = evaluate("0x-a");
    assert_eq!(r.stack, vec![-10]);
    assert_eq!(r.format, DisplayFormat::Hexadecimal);
}

#[test]
fn hex_prefix_alone_is_unparseable() {
    let r = evaluate("0x");
    assert_eq!(r.stack, Vec::<i64>::new());
    assert_eq!(r.error.as_deref(), Some("couldn't parse '0x'"));
}

#[test]
fn final_directive_wins_decimal() {
    let r = evaluate(".h 10 .d");
    assert_eq!(r.stack, vec![10]);
    assert_eq!(r.format, DisplayFormat::Decimal);
    assert_eq!(r.render(), "10 ");
}

#[test]
fn final_directive_wins_hexadecimal() {
    let r = evaluate(".d 10 .h");
    assert_eq!(r.format, DisplayFormat::Hexadecimal);
    assert_eq!(r.render(), "0xa ");
}

#[test]
fn unknown_directive_is_silent_no_op() {
    let r = evaluate(".z 5");
    assert_eq!(r.stack, vec![5]);
    assert_eq!(r.error, None);
    assert_eq!(r.format, DisplayFormat::Decimal);
}

#[test]
fn unknown_token_reports_error() {
    let r = evaluate("foo");
    assert_eq!(r.stack, Vec::<i64>::new());
    assert_eq!(r.error.as_deref(), Some("couldn't parse 'foo'"));
}

#[test]
fn last_error_wins() {
    let r = evaluate("foo bar");
    assert_eq!(r.stack, Vec::<i64>::new());
    assert_eq!(r.error.as_deref(), Some("couldn't parse 'bar'"));
}

#[test]
fn divide_by_zero_reports_error() {
    let r = evaluate("4 0 d");
    assert_eq!(r.stack, vec![4, 0]);
    assert_eq!(r.error.as_deref(), Some("division undefined"));
}

#[test]
fn divide_overflow_reports_error() {
    let r = evaluate("-9223372036854775808 -1 d");
    assert_eq!(r.stack, vec![i64::MIN, -1]);
    assert_eq!(r.error.as_deref(), Some("division undefined"));
}

#[test]
fn binary_operator_without_operands_is_unparseable() {
    let r = evaluate("5 p");
    assert_eq!(r.stack, vec![5]);
    assert_eq!(r.error.as_deref(), Some("couldn't parse 'p'"));
}

#[test]
fn binary_operator_ignores_token_suffix() {
    let r = evaluate("4 5 px");
    assert_eq!(r.stack, vec![9]);
    assert_eq!(r.error, None);
}

#[test]
fn literals_only_stack_keeps_order() {
    let r = evaluate("1 0x2 zz 3");
    assert_eq!(r.stack, vec![1, 2, 3]);
    assert_eq!(r.error.as_deref(), Some("couldn't parse 'zz'"));
}

#[test]
fn non_ascii_token_is_skipped() {
    let r = evaluate("\u{e9} 5");
    assert_eq!(r.stack, vec![5]);
    assert_eq!(r.error, None);
}

#[test]
fn addition_wraps_on_overflow() {
    let r = evaluate("9223372036854775807 1 p");
    assert_eq!(r.stack, vec![i64::MIN]);
    assert_eq!(r.error, None);
}

#[test]
fn decimal_literal_out_of_range_is_unparseable() {
    let r = evaluate("9223372036854775808");
    assert_eq!(r.stack, Vec::<i64>::new());
    assert_eq!(
        r.error.as_deref(),
        Some("couldn't parse '9223372036854775808'")
    );
}

#[test]
fn plus_signed_literal() {
    let r = evaluate("+5");
    assert_eq!(r.stack, vec![5]);
    assert_eq!(r.error, None);
}

#[test]
fn empty_input_yields_empty_result() {
    let r = evaluate("");
    assert_eq!(r.stack, Vec::<i64>::new());
    assert_eq!(r.error, None);
    assert_eq!(r.format, DisplayFormat::Decimal);
    assert_eq!(r.render(), "");
}
