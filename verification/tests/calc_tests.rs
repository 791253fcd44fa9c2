use enos::calc::eval_calc_expression;

#[test]
fn precedence_and_parentheses() {
    assert_eq!(eval_calc_expression("1+2*3"), Ok(7));
    assert_eq!(eval_calc_expression("(1+2)*3"), Ok(9));
    assert_eq!(eval_calc_expression("2*(3+4)-5"), Ok(9));
    assert_eq!(eval_calc_expression("10-4-3"), Ok(3));
    assert_eq!(eval_calc_expression("100/10/5"), Ok(2));
}

#[test]
fn whitespace_is_ignored() {
    assert_eq!(eval_calc_expression("  42  "), Ok(42));
    assert_eq!(eval_calc_expression(" 1 +\t2 * ( 3 )\n"), Ok(7));
}

#[test]
fn unary_signs() {
    assert_eq!(eval_calc_expression("-5+2"), Ok(-3));
    assert_eq!(eval_calc_expression("--3"), Ok(3));
    assert_eq!(eval_calc_expression("+-+3"), Ok(-3));
    assert_eq!(eval_calc_expression("-(2*3)"), Ok(-6));
}

#[test]
fn truncating_division() {
    assert_eq!(eval_calc_expression("10/3"), Ok(3));
    assert_eq!(eval_calc_expression("-7/2"), Ok(-3));
    assert_eq!(eval_calc_expression("-7%3"), Ok(-1));
    assert_eq!(eval_calc_expression("7%-3"), Ok(1));
}

#[test]
fn division_by_zero() {
    assert_eq!(eval_calc_expression("1/0"), Err("division by zero"));
    assert_eq!(eval_calc_expression("5%(2-2)"), Err("division by zero"));
}

#[test]
fn overflow() {
    assert_eq!(eval_calc_expression("9223372036854775807"), Ok(i64::MAX));
    assert_eq!(eval_calc_expression("9223372036854775807+1"), Err("integer overflow"));
    assert_eq!(eval_calc_expression("9223372036854775808"), Err("integer overflow"));
    assert_eq!(eval_calc_expression("-9223372036854775807-1"), Ok(i64::MIN));
    assert_eq!(eval_calc_expression("(-9223372036854775807-1)/-1"), Err("integer overflow"));
    assert_eq!(eval_calc_expression("-(-9223372036854775807-1)"), Err("integer overflow"));
    assert_eq!(eval_calc_expression("4611686018427387904*2"), Err("integer overflow"));
}

#[test]
fn syntax_errors() {
    assert_eq!(eval_calc_expression(""), Err("expected number"));
    assert_eq!(eval_calc_expression("1 +"), Err("expected number"));
    assert_eq!(eval_calc_expression("abc"), Err("expected number"));
    assert_eq!(eval_calc_expression("(1+2"), Err("missing closing ')'"));
    assert_eq!(eval_calc_expression("1 2"), Err("unexpected trailing input"));
    assert_eq!(eval_calc_expression("3)"), Err("unexpected trailing input"));
}

#[test]
fn grammar_edges() {
    // signs nest, whitespace may stand before every token
    assert_eq!(eval_calc_expression(" - - 3"), Ok(3));
    assert_eq!(eval_calc_expression("2 * -3"), Ok(-6));
    assert_eq!(eval_calc_expression("( 1 + 2 ) * 3 "), Ok(9));
    // two numbers without an operator do not derive from the grammar
    assert_eq!(eval_calc_expression("1 2"), Err("unexpected trailing input"));
    assert_eq!(eval_calc_expression("(1"), Err("missing closing ')'"));
    // left to right, truncating division and remainder
    assert_eq!(eval_calc_expression("7 - 2 - 1"), Ok(4));
    assert_eq!(eval_calc_expression("-7 / 2"), Ok(-3));
    assert_eq!(eval_calc_expression("-7 % 2"), Ok(-1));
    assert_eq!(eval_calc_expression("-9223372036854775807 - 1"), Ok(i64::MIN));
    assert_eq!(eval_calc_expression("(-9223372036854775807 - 1) % -1"), Err("integer overflow"));
}
