use rowshell::commands::where_cmd::{
    bind, compile, evaluate, parse, perform, run, CompileContext, Config, Reply,
};
use rowshell::lang::errors::{ErrorKind, JobError};
use rowshell::lang::table::{Argument, ColumnType, Row};
use rowshell::lang::value::{Closure, Value, ValueType};

fn number_rows(values: &[i128]) -> Vec<Row> {
    values.iter().map(|v| Row::new(vec![Value::Integer(*v)])).collect()
}

fn schema() -> Vec<ColumnType> {
    vec![ColumnType::new("value", ValueType::Integer)]
}

fn greater_than_two(arguments: &Vec<Argument>) -> Reply {
    match &arguments[0].value {
        Value::Integer(v) => Ok(Value::Bool(*v > 2)),
        _ => Err(JobError::ExpectedNumber),
    }
}

fn condition() -> Closure {
    Closure { captured_scope: 0, body: 7 }
}

#[test]
fn filter_value_greater_than_two() {
    let config = Config { condition: condition(), input: number_rows(&[1, 2, 3, 4]), input_type: schema() };
    let replies: Vec<Reply> =
        config.input.iter().map(|row| greater_than_two(&bind(row, &config.input_type))).collect();
    let filtered = run(&config, &replies);
    assert_eq!(filtered.output, number_rows(&[3, 4]));
    assert_eq!(filtered.reported, vec![]);
    assert_eq!(filtered.output_type, schema());
}

#[test]
fn filter_reports_failures_and_goes_on() {
    let config = Config { condition: condition(), input: number_rows(&[1, 2, 3, 4, 5]), input_type: schema() };
    let replies: Vec<Reply> = vec![
        Ok(Value::Bool(true)),
        Ok(Value::Integer(1)),
        Err(JobError::UnknownName),
        Ok(Value::Bool(false)),
        Ok(Value::Bool(true)),
    ];
    let filtered = run(&config, &replies);
    assert_eq!(filtered.output, number_rows(&[1, 5]));
    assert_eq!(filtered.reported, vec![JobError::ExpectedBoolean, JobError::UnknownName]);
}

#[test]
fn filter_row_without_reply_is_a_type_error() {
    let config = Config { condition: condition(), input: number_rows(&[1, 2]), input_type: schema() };
    let filtered = run(&config, &vec![Ok(Value::Bool(true))]);
    assert_eq!(filtered.output, number_rows(&[1]));
    assert_eq!(filtered.reported, vec![JobError::ExpectedBoolean]);
}

#[test]
fn filter_of_nothing() {
    let config = Config { condition: condition(), input: vec![], input_type: schema() };
    let filtered = run(&config, &vec![Ok(Value::Bool(true))]);
    assert_eq!(filtered.output.len(), 0);
    assert_eq!(filtered.reported.len(), 0);
}

#[test]
fn evaluate_reads_the_verdict() {
    assert_eq!(evaluate(&Ok(Value::Bool(true))), Ok(true));
    assert_eq!(evaluate(&Ok(Value::Bool(false))), Ok(false));
    assert_eq!(evaluate(&Ok(Value::Empty)), Err(JobError::ExpectedBoolean));
    assert_eq!(evaluate(&Ok(Value::String("true".to_string()))), Err(JobError::ExpectedBoolean));
    assert_eq!(evaluate(&Err(JobError::Disconnected)), Err(JobError::ExpectedBoolean));
    assert_eq!(evaluate(&Err(JobError::UnknownName)), Err(JobError::UnknownName));
    assert_eq!(JobError::ExpectedBoolean.kind(), ErrorKind::Type);
    assert_eq!(JobError::ExpectedBoolean.message(), "Expected a boolean result");
}

#[test]
fn bind_names_cells_after_their_columns() {
    let row = Row::new(vec![Value::Integer(1), Value::String("x".to_string()), Value::Bool(true)]);
    let input_type = vec![
        ColumnType::new("a", ValueType::Integer),
        ColumnType::unnamed(ValueType::String),
        ColumnType::new("c", ValueType::Bool),
    ];
    let arguments = bind(&row, &input_type);
    assert_eq!(
        arguments,
        vec![
            Argument::named("a", Value::Integer(1)),
            Argument::unnamed(Value::String("x".to_string())),
            Argument::named("c", Value::Bool(true)),
        ]
    );
}

#[test]
fn bind_stops_at_the_shorter() {
    let row = Row::new(vec![Value::Integer(1), Value::Integer(2)]);
    assert_eq!(bind(&row, &schema()), vec![Argument::named("value", Value::Integer(1))]);
    assert_eq!(bind(&Row::new(vec![]), &schema()), vec![]);
}

#[test]
fn parse_takes_the_closure() {
    let mut arguments = vec![Argument::unnamed(Value::Closure(condition())), Argument::unnamed(Value::Integer(1))];
    assert_eq!(parse(&schema(), &mut arguments), Ok(condition()));
    assert_eq!(arguments, vec![Argument::unnamed(Value::Integer(1))]);
}

#[test]
fn parse_refuses_other_values() {
    let mut arguments = vec![Argument::unnamed(Value::Integer(1))];
    assert_eq!(parse(&schema(), &mut arguments), Err(JobError::ExpectedClosure));
    assert_eq!(arguments.len(), 0);
    let mut none: Vec<Argument> = vec![];
    assert_eq!(parse(&schema(), &mut none), Err(JobError::ExpectedClosure));
    assert_eq!(JobError::ExpectedClosure.kind(), ErrorKind::Argument);
    assert_eq!(JobError::ExpectedClosure.message(), "Expected a closure");
}

fn context(input: Value, arguments: Vec<Argument>) -> CompileContext {
    CompileContext { input, input_type: schema(), rows: number_rows(&[1, 2, 3, 4]), arguments, env: 0 }
}

#[test]
fn perform_filters_a_table_and_a_stream() {
    let replies: Vec<Reply> =
        vec![Ok(Value::Bool(false)), Ok(Value::Bool(false)), Ok(Value::Bool(true)), Ok(Value::Bool(true))];
    let closure = vec![Argument::unnamed(Value::Closure(condition()))];
    let table = perform(context(Value::Rows(1), closure.clone()), &replies).unwrap();
    assert_eq!(table.output, number_rows(&[3, 4]));
    let stream = perform(context(Value::Stream(1), closure), &replies).unwrap();
    assert_eq!(stream.output, number_rows(&[3, 4]));
    assert_eq!(stream.output_type, schema());
}

#[test]
fn perform_wants_rows_and_a_closure() {
    let closure = vec![Argument::unnamed(Value::Closure(condition()))];
    assert_eq!(perform(context(Value::Integer(1), closure), &vec![]), Err(JobError::ExpectedStream));
    assert_eq!(
        perform(context(Value::Rows(1), vec![Argument::unnamed(Value::Integer(1))]), &vec![]),
        Err(JobError::ExpectedClosure)
    );
    assert_eq!(perform(context(Value::Rows(1), vec![]), &vec![]), Err(JobError::ExpectedClosure));
    assert_eq!(JobError::ExpectedStream.message(), "Expected a stream");
}

#[test]
fn compile_checks_input_then_arguments() {
    let mut arguments = vec![Argument::unnamed(Value::Closure(condition())), Argument::unnamed(Value::Integer(1))];
    assert_eq!(compile(&Value::Integer(1), &schema(), &mut arguments), Err(JobError::ExpectedStream));
    assert_eq!(arguments.len(), 2);
    assert_eq!(compile(&Value::Stream(0), &schema(), &mut arguments), Ok(condition()));
    assert_eq!(arguments, vec![Argument::unnamed(Value::Integer(1))]);
    assert_eq!(compile(&Value::Rows(0), &schema(), &mut arguments), Err(JobError::ExpectedClosure));
    assert_eq!(arguments.len(), 0);
}
