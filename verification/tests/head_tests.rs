use rowshell::commands::head::{get_line_count, head, run, wants_row};
use rowshell::lang::errors::{ErrorKind, JobError};
use rowshell::lang::table::{Argument, ColumnType, Row};
use rowshell::lang::value::{Builtin, Value, ValueType};

fn numbers(from: i128, to: i128) -> Vec<Row> {
    let mut rows = Vec::new();
    let mut i = from;
    while i <= to {
        rows.push(Row::new(vec![Value::Integer(i)]));
        i += 1;
    }
    rows
}

fn schema() -> Vec<ColumnType> {
    vec![ColumnType::new("value", ValueType::Integer)]
}

#[test]
fn limit_three_of_five() {
    let out = run(&schema(), &vec![Argument::unnamed(Value::Integer(3))], &numbers(1, 5)).unwrap();
    assert_eq!(out, numbers(1, 3));
}

#[test]
fn limit_defaults_to_ten() {
    assert_eq!(get_line_count(&vec![]), Ok(10));
    let out = run(&schema(), &vec![], &numbers(1, 25)).unwrap();
    assert_eq!(out, numbers(1, 10));
}

#[test]
fn limit_larger_than_input_keeps_all() {
    let out = run(&schema(), &vec![Argument::unnamed(Value::Integer(7))], &numbers(1, 4)).unwrap();
    assert_eq!(out, numbers(1, 4));
}

#[test]
fn limit_zero_and_negative_keep_nothing() {
    let zero = run(&schema(), &vec![Argument::unnamed(Value::Integer(0))], &numbers(1, 4)).unwrap();
    assert_eq!(zero.len(), 0);
    let negative = run(&schema(), &vec![Argument::unnamed(Value::Integer(-2))], &numbers(1, 4)).unwrap();
    assert_eq!(negative.len(), 0);
}

#[test]
fn limit_on_empty_input() {
    let out = run(&schema(), &vec![Argument::unnamed(Value::Integer(3))], &vec![]).unwrap();
    assert_eq!(out.len(), 0);
}

#[test]
fn limit_must_be_an_integer() {
    let arguments = vec![Argument::unnamed(Value::String("three".to_string()))];
    assert_eq!(get_line_count(&arguments), Err(JobError::ExpectedNumber));
    let r = run(&schema(), &arguments, &numbers(1, 5));
    assert_eq!(r, Err(JobError::ExpectedNumber));
    assert_eq!(JobError::ExpectedNumber.kind(), ErrorKind::Argument);
    assert_eq!(JobError::ExpectedNumber.message(), "Expected a number");
}

#[test]
fn limit_takes_one_argument_at_most() {
    let arguments = vec![Argument::unnamed(Value::Integer(1)), Argument::unnamed(Value::Integer(2))];
    assert_eq!(get_line_count(&arguments), Err(JobError::TooManyArguments));
    assert_eq!(run(&schema(), &arguments, &numbers(1, 5)), Err(JobError::TooManyArguments));
    assert_eq!(head(schema(), arguments).unwrap_err().kind(), ErrorKind::Argument);
    assert_eq!(JobError::TooManyArguments.message(), "Too many arguments");
}

#[test]
fn line_count_of_one_integer() {
    assert_eq!(get_line_count(&vec![Argument::unnamed(Value::Integer(42))]), Ok(42));
    assert_eq!(get_line_count(&vec![Argument::named("lines", Value::Integer(-1))]), Ok(-1));
}

#[test]
fn head_binds_a_call() {
    let arguments = vec![Argument::unnamed(Value::Integer(3))];
    let call = head(schema(), arguments.clone()).unwrap();
    assert_eq!(call.name, "head");
    assert_eq!(call.input_type, schema());
    assert_eq!(call.output_type, schema());
    assert_eq!(call.arguments, arguments);
    assert_eq!(call.command, Builtin::Head);
}

#[test]
fn head_refuses_a_string() {
    let r = head(schema(), vec![Argument::unnamed(Value::Bool(true))]);
    assert_eq!(r, Err(JobError::ExpectedNumber));
}

#[test]
fn stage_takes_rows_up_to_the_limit() {
    assert_eq!(wants_row(3, 0), true);
    assert_eq!(wants_row(3, 2), true);
    assert_eq!(wants_row(3, 3), false);
    assert_eq!(wants_row(0, 0), false);
    assert_eq!(wants_row(-1, 0), false);
}
