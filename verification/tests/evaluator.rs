use mathematician::chars_of;
use mathematician::evaluate;
use mathematician::math::p_expr;
use mathematician::math::p_factor;
use mathematician::math::p_power;
use mathematician::math::p_term;
use mathematician::math::Expr;
use mathematician::parsec::ParseError;

#[test]
fn parenthesized_sum_times_constant() {
    assert_eq!(evaluate("(1+9)*5"), Ok(50));
}

#[test]
fn truncating_division_at_each_step() {
    assert_eq!(evaluate("(3+5)/4*(27/3/3)"), Ok(6));
}

#[test]
fn right_associative_exponent_with_division_and_products() {
    assert_eq!(evaluate("2^3^2/512+50*(2-5)"), Ok(-149));
}

#[test]
fn unary_minus_binds_to_a_whole_factor() {
    assert_eq!(evaluate("-2^2"), Ok(-4));
}

#[test]
fn dangling_operator_is_incomplete() {
    assert_eq!(evaluate("1+"), Err(ParseError::IncompleteParse));
}

#[test]
fn empty_input_is_unexpected_end() {
    assert_eq!(evaluate(""), Err(ParseError::UnexpectedEndOfInput));
}

#[test]
fn decimal_round_trip_samples() {
    let samples: Vec<i64> = vec![
        0,
        1,
        7,
        42,
        12345,
        -1,
        -999,
        i64::MAX,
        i64::MIN + 1,
    ];
    for n in samples {
        let text = format!("{}", n);
        assert_eq!(evaluate(&text), Ok(n));
    }
}

#[test]
fn smallest_value_rendering_is_a_domain_error() {
    // The magnitude of i64::MIN does not fit before the minus applies.
    assert_eq!(
        evaluate("-9223372036854775808"),
        Err(ParseError::DomainError)
    );
}

#[test]
fn smallest_value_is_reachable_by_subtraction() {
    assert_eq!(evaluate("-9223372036854775807-1"), Ok(i64::MIN));
}

#[test]
fn literal_overflow_is_a_domain_error() {
    assert_eq!(
        evaluate("9223372036854775808"),
        Err(ParseError::DomainError)
    );
}

#[test]
fn division_by_zero_is_a_domain_error() {
    assert_eq!(evaluate("1/0"), Err(ParseError::DomainError));
}

#[test]
fn negative_exponent_is_a_domain_error() {
    assert_eq!(evaluate("2^(0-1)"), Err(ParseError::DomainError));
}

#[test]
fn addition_overflow_is_a_domain_error() {
    assert_eq!(
        evaluate("9223372036854775807+1"),
        Err(ParseError::DomainError)
    );
}

#[test]
fn stray_character_is_unexpected() {
    assert_eq!(evaluate("a"), Err(ParseError::UnexpectedCharacter));
}

#[test]
fn trailing_text_is_incomplete() {
    assert_eq!(evaluate("1)"), Err(ParseError::IncompleteParse));
}

#[test]
fn unclosed_parenthesis_is_unexpected_end() {
    assert_eq!(evaluate("(1+2"), Err(ParseError::UnexpectedEndOfInput));
}

#[test]
fn whitespace_is_not_part_of_the_grammar() {
    assert_eq!(evaluate("2 + 2"), Err(ParseError::IncompleteParse));
}

#[test]
fn precedence_of_products_over_sums() {
    assert_eq!(evaluate("1+2*3"), Ok(7));
    assert_eq!(evaluate("(1+2)*3"), Ok(9));
}

#[test]
fn left_associative_subtraction_and_division() {
    assert_eq!(evaluate("10-3-4"), Ok(3));
    assert_eq!(evaluate("100/10/5"), Ok(2));
}

#[test]
fn exponentiation_groups_to_the_right() {
    assert_eq!(evaluate("2^3^2"), Ok(512));
}

#[test]
fn division_truncates_toward_zero() {
    assert_eq!(evaluate("(0-7)/2"), Ok(-3));
    assert_eq!(evaluate("7/(0-2)"), Ok(-3));
    assert_eq!(evaluate("-7/2"), Ok(-3));
}

#[test]
fn doubled_unary_minus_cancels() {
    assert_eq!(evaluate("--2"), Ok(2));
    assert_eq!(evaluate("-(3+4)"), Ok(-7));
}

#[test]
fn zero_exponent_gives_one() {
    assert_eq!(evaluate("5^0"), Ok(1));
    assert_eq!(evaluate("0^0"), Ok(1));
}

#[test]
fn evaluate_is_deterministic_on_repeat_calls() {
    let first = evaluate("2^3^2/512+50*(2-5)");
    let second = evaluate("2^3^2/512+50*(2-5)");
    assert_eq!(first, second);
    let first_err = evaluate("1+");
    let second_err = evaluate("1+");
    assert_eq!(first_err, second_err);
}

#[test]
fn grammar_rules_report_the_consumed_offset() {
    let input = chars_of("1+2)x");
    assert_eq!(p_expr(&input, 0), Ok((3, 3)));
    let input = chars_of("2*3+4");
    assert_eq!(p_term(&input, 0), Ok((6, 3)));
    assert_eq!(p_expr(&input, 0), Ok((10, 5)));
    let input = chars_of("2^3^2*5");
    assert_eq!(p_factor(&input, 0), Ok((512, 5)));
    let input = chars_of("(1+1)");
    assert_eq!(p_power(&input, 0), Ok((2, 5)));
    let input = chars_of("-3^2");
    assert_eq!(p_power(&input, 0), Ok((-9, 4)));
}

#[test]
fn failed_tail_leaves_the_operator_unconsumed() {
    // "1+" parses as the expression 1 with the "+" left unconsumed.
    let input = chars_of("1+");
    assert_eq!(p_expr(&input, 0), Ok((1, 1)));
}

#[test]
fn expr_parses_and_evaluates() {
    let expr = Expr::from_text("2^3^2/512+50*(2-5)").unwrap();
    assert_eq!(expr.eval(), -149);
}

#[test]
fn expr_implements_from_str() {
    let expr = "(1+9)*5".parse::<Expr>().unwrap();
    assert_eq!(expr.eval(), 50);
    assert!("1+".parse::<Expr>().is_err());
}
