use axi::fault::Fault;
use axi::interpreter::Value;
use axi::pipeline::{RunError, run_program};

#[test]
fn precedence_multiplication_binds_tighter() {
    let r = run_program("1 + 2 * 3");
    assert!(matches!(r, Ok(Some(Value::Int(7)))));
}

#[test]
fn left_associativity_of_subtraction() {
    let r = run_program("10 - 2 - 3");
    assert!(matches!(r, Ok(Some(Value::Int(5)))));
}

#[test]
fn left_associativity_of_division() {
    let r = run_program("20 / 2 / 5");
    assert!(matches!(r, Ok(Some(Value::Int(2)))));
}

#[test]
fn mixed_precedence_with_subtraction() {
    let r = run_program("1 - 2 * 3");
    assert!(matches!(r, Ok(Some(Value::Int(-5)))));
}

#[test]
fn rebinding_across_kinds_is_permitted() {
    let r = run_program("let x = 1\nlet x = now");
    assert!(matches!(r, Ok(None)));
}

#[test]
fn clock_type_is_inert_under_subtraction() {
    let r = run_program("now - now");
    match r {
        Err(RunError::Rejected(d)) => {
            assert_eq!(d.title, "Type Mismatch");
            assert_eq!(d.message, "Both sides of this operation must have the same numeric type.");
            assert!(d.help.is_none());
        },
        other => panic!("expected a type mismatch diagnostic, got {:?}", other),
    }
}

#[test]
fn clock_type_is_inert_even_mixed_with_integers() {
    let r = run_program("now + 1");
    assert!(matches!(r, Err(RunError::Rejected(_))));
}

#[test]
fn division_by_zero_passes_checking_but_faults_at_evaluation() {
    let r = run_program("5 / 0");
    assert!(matches!(r, Err(RunError::Fault(Fault::DivisionByZero))));
}

#[test]
fn result_present_with_final_bare_statement() {
    let r = run_program("let a = 10\na");
    assert!(matches!(r, Ok(Some(Value::Int(10)))));
}

#[test]
fn result_absent_without_bare_statement() {
    let r = run_program("let a = 10");
    assert!(matches!(r, Ok(None)));
}

#[test]
fn clock_ticks_strictly_increase_across_statements() {
    let r = run_program("now\nnow");
    assert!(matches!(r, Ok(Some(Value::Time(1)))));
}

#[test]
fn first_clock_tick_is_zero() {
    let r = run_program("now");
    assert!(matches!(r, Ok(Some(Value::Time(0)))));
}

#[test]
fn clock_ticks_left_to_right_inside_one_binding() {
    let r = run_program("let t = now\nnow");
    assert!(matches!(r, Ok(Some(Value::Time(1)))));
}

#[test]
fn unproven_variable_diagnostic_is_exact() {
    let r = run_program("foo");
    match r {
        Err(RunError::Rejected(d)) => {
            assert_eq!(d.title, "Unproven Variable");
            assert_eq!(
                d.message,
                "The variable 'foo' is used here, but no proof exists that it has been defined."
            );
            assert_eq!(
                d.help.as_deref(),
                Some("Define the variable before using it, or pass it as an argument.")
            );
        },
        other => panic!("expected an unproven-variable diagnostic, got {:?}", other),
    }
}

#[test]
fn checking_halts_at_first_failing_statement() {
    let r = run_program("bar\nnow + now");
    match r {
        Err(RunError::Rejected(d)) => assert_eq!(d.title, "Unproven Variable"),
        other => panic!("expected the first statement's diagnostic, got {:?}", other),
    }
}

#[test]
fn unexpected_character_faults_tokenizing() {
    let r = run_program("?");
    assert!(matches!(r, Err(RunError::Fault(Fault::UnexpectedCharacter))));
}

#[test]
fn number_overflow_faults_tokenizing() {
    let r = run_program("99999999999999999999");
    assert!(matches!(r, Err(RunError::Fault(Fault::NumberOverflow))));
}

#[test]
fn largest_literal_still_fits() {
    let r = run_program("9223372036854775807");
    assert!(matches!(r, Ok(Some(Value::Int(9223372036854775807)))));
}

#[test]
fn smallest_overflowing_literal_faults() {
    let r = run_program("9223372036854775808");
    assert!(matches!(r, Err(RunError::Fault(Fault::NumberOverflow))));
}

#[test]
fn operator_in_primary_position_is_unexpected_token() {
    let r = run_program("+");
    assert!(matches!(r, Err(RunError::Fault(Fault::UnexpectedToken))));
}

#[test]
fn missing_identifier_after_let_is_unexpected_token() {
    let r = run_program("let 5 = 3");
    assert!(matches!(r, Err(RunError::Fault(Fault::UnexpectedToken))));
}

#[test]
fn missing_equals_after_name_is_unexpected_token() {
    let r = run_program("let x 3");
    assert!(matches!(r, Err(RunError::Fault(Fault::UnexpectedToken))));
}

#[test]
fn input_ending_mid_expression_is_unexpected_end() {
    let r = run_program("1 +");
    assert!(matches!(r, Err(RunError::Fault(Fault::UnexpectedEndOfInput))));
}

#[test]
fn bare_let_is_unexpected_end() {
    let r = run_program("let");
    assert!(matches!(r, Err(RunError::Fault(Fault::UnexpectedEndOfInput))));
}

#[test]
fn empty_program_has_no_result() {
    let r = run_program("");
    assert!(matches!(r, Ok(None)));
}

#[test]
fn whitespace_only_program_has_no_result() {
    let r = run_program(" \t\n  \r\n");
    assert!(matches!(r, Ok(None)));
}

#[test]
fn whitespace_between_tokens_is_insignificant() {
    let r = run_program(" \t 1\n+\n2 * 3 ");
    assert!(matches!(r, Ok(Some(Value::Int(7)))));
}

#[test]
fn now_is_only_special_at_parse_time() {
    // `nowhere` starts with the letters of `now` but is one identifier.
    let r = run_program("let nowhere = 3\nnowhere");
    assert!(matches!(r, Ok(Some(Value::Int(3)))));
}

#[test]
fn let_spelled_differently_is_an_identifier() {
    let r = run_program("let lets = 4\nlets");
    assert!(matches!(r, Ok(Some(Value::Int(4)))));
}

#[test]
fn underscored_identifiers_lex_as_one_name() {
    let r = run_program("let a_1 = 8\na_1 / 2");
    assert!(matches!(r, Ok(Some(Value::Int(4)))));
}

#[test]
fn rebinding_uses_latest_value() {
    let r = run_program("let x = 1\nlet x = 2\nx");
    assert!(matches!(r, Ok(Some(Value::Int(2)))));
}

#[test]
fn earlier_bare_values_are_discarded() {
    let r = run_program("41\n42");
    assert!(matches!(r, Ok(Some(Value::Int(42)))));
}

#[test]
fn binding_may_use_earlier_bindings() {
    let r = run_program("let a = 6\nlet b = a * 7\nb");
    assert!(matches!(r, Ok(Some(Value::Int(42)))));
}

#[test]
fn addition_wraps_at_the_64_bit_boundary() {
    let r = run_program("9223372036854775807 + 1");
    assert!(matches!(r, Ok(Some(Value::Int(-9223372036854775808)))));
}

#[test]
fn dividing_the_minimum_by_minus_one_is_clamped() {
    let r = run_program("let neg = 0 - 1\nlet m = 0 - 9223372036854775807 - 1\nm / neg");
    assert!(matches!(r, Ok(Some(Value::Int(-9223372036854775808)))));
}

#[test]
fn division_truncates_toward_zero() {
    let r = run_program("7 / 2");
    assert!(matches!(r, Ok(Some(Value::Int(3)))));
}

#[test]
fn negative_dividend_truncates_toward_zero() {
    let r = run_program("0 - 7 / 2");
    // 0 - (7 / 2): division binds tighter.
    assert!(matches!(r, Ok(Some(Value::Int(-3)))));
}
