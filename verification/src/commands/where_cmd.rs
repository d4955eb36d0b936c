use vstd::prelude::*;
use crate::lang::errors::JobError;
use crate::lang::value::{Value, Closure};
use crate::lang::table::{Argument, ColumnType, Row, row_views, duplicate_schema};

verus! {

/// A filtering stage, bound: the condition, the rows to filter and their
/// schema.
#[derive(Clone, Debug, PartialEq, Eq)]
pub struct Config {
    pub condition: Closure,
    pub input: Vec<Row>,
    pub input_type: Vec<ColumnType>,
}

/// What a command is compiled from: the value it is fed, the schema and
/// the rows behind that value, its arguments and the scope it runs in.
#[derive(Clone, Debug, PartialEq, Eq)]
pub struct CompileContext {
    pub input: Value,
    pub input_type: Vec<ColumnType>,
    pub rows: Vec<Row>,
    pub arguments: Vec<Argument>,
    pub env: usize,
}

/// What a filtering stage leaves: the rows it let through, under the
/// input's schema, and the failures it told the diagnostic sink of.
#[derive(Clone, Debug, PartialEq, Eq)]
pub struct Filtered {
    pub output_type: Vec<ColumnType>,
    pub output: Vec<Row>,
    pub reported: Vec<JobError>,
}

/// What the condition answered for one row: a value, or the failure of its
/// evaluation. `Disconnected` stands for a condition that ended without an
/// answer.
pub type Reply = Result<Value, JobError>;

/// The argument that one cell of a row becomes: it takes the name of its
/// column, and is positional where the column has none.
pub open spec fn bound_cell(cell: Value, column: ColumnType) -> Argument {
    Argument { name: column.name, value: cell }
}

/// The arguments that a row becomes under a schema, cell by cell, as far
/// as both reach.
pub open spec fn bound(row: Seq<Value>, input_type: Seq<ColumnType>) -> Seq<Argument> {
    Seq::new(
        if row.len() <= input_type.len() {
            row.len()
        } else {
            input_type.len()
        },
        |i: int| bound_cell(row[i], input_type[i]),
    )
}

/// The verdict in a reply: the boolean that was answered; a type error for
/// any other value and for no answer at all; the failure of the evaluation
/// as it is.
pub open spec fn verdict(reply: Reply) -> Result<bool, JobError> {
    match reply {
        Ok(Value::Bool(b)) => Ok(b),
        Ok(_) => Err(JobError::ExpectedBoolean),
        Err(JobError::Disconnected) => Err(JobError::ExpectedBoolean),
        Err(e) => Err(e),
    }
}

/// The reply for row `i`; a row beyond the replies got no answer.
pub open spec fn reply_at(replies: Seq<Reply>, i: int) -> Reply {
    if 0 <= i < replies.len() {
        replies[i]
    } else {
        Err(JobError::Disconnected)
    }
}

/// Of the first `n` rows, those whose verdict is `true`, in their order.
pub open spec fn passing(rows: Seq<Seq<Value>>, replies: Seq<Reply>, n: nat) -> Seq<Seq<Value>>
    decreases n,
{
    if n == 0 {
        Seq::empty()
    } else {
        let before = passing(rows, replies, (n - 1) as nat);
        if verdict(reply_at(replies, n - 1)) == Ok::<bool, JobError>(true) {
            before.push(rows[n - 1])
        } else {
            before
        }
    }
}

/// The failures among the verdicts of the first `n` rows, in their order.
pub open spec fn failures(replies: Seq<Reply>, n: nat) -> Seq<JobError>
    decreases n,
{
    if n == 0 {
        Seq::empty()
    } else {
        let before = failures(replies, (n - 1) as nat);
        match verdict(reply_at(replies, n - 1)) {
            Err(e) => before.push(e),
            Ok(_) => before,
        }
    }
}

/// What `parse` answers for an argument list: the closure that is its first
/// argument.
pub open spec fn condition_of(arguments: Seq<Argument>) -> Result<Closure, JobError> {
    if arguments.len() == 0 {
        Err(JobError::ExpectedClosure)
    } else {
        match arguments[0].value {
            Value::Closure(c) => Ok(c),
            _ => Err(JobError::ExpectedClosure),
        }
    }
}

/// Whether a value can feed a stage with rows.
pub open spec fn is_row_source(input: Value) -> bool {
    input is Stream || input is Rows
}

/// The arguments with which the condition is called for a row.
pub fn bind(row: &Row, input_type: &Vec<ColumnType>) -> (arguments: Vec<Argument>)
    ensures
        arguments@ == bound(row@, input_type@),
{
    let n = if row.cells.len() <= input_type.len() {
        row.cells.len()
    } else {
        input_type.len()
    };
    let mut arguments: Vec<Argument> = Vec::new();
    let mut i: usize = 0;
    while i < n
        invariant
            i <= n,
            n <= row.cells@.len(),
            n <= input_type@.len(),
            arguments@.len() == i,
            forall|j: int| 0 <= j < i ==> arguments@[j] == bound_cell(row@[j], input_type@[j]),
        decreases n - i,
    {
        let column = input_type[i].duplicate();
        arguments.push(Argument { name: column.name, value: row.cells[i].duplicate() });
        i += 1;
    }
    proof {
        assert(arguments@ =~= bound(row@, input_type@));
    }
    arguments
}

/// Reads the verdict out of the condition's reply.
pub fn evaluate(reply: &Reply) -> (r: Result<bool, JobError>)
    ensures
        r == verdict(*reply),
        r.is_err() ==> r.unwrap_err().spec_is_reportable(),
{
    match reply {
        Ok(Value::Bool(b)) => Ok(*b),
        Ok(_) => Err(JobError::ExpectedBoolean),
        Err(JobError::Disconnected) => Err(JobError::ExpectedBoolean),
        Err(e) => Err(*e),
    }
}

/// Filters the rows by the replies that the condition gave, row by row:
/// a row passes where its verdict is `true`; where the verdict is a
/// failure the row is left out and the failure reported, and the stage goes
/// on with the next row.
pub fn run(config: &Config, replies: &Vec<Reply>) -> (filtered: Filtered)
    ensures
        filtered.output_type@ == config.input_type@,
        row_views(filtered.output@) == passing(row_views(config.input@), replies@, config.input@.len()),
        filtered.reported@ == failures(replies@, config.input@.len()),
{
    let mut output: Vec<Row> = Vec::new();
    let mut reported: Vec<JobError> = Vec::new();
    let mut i: usize = 0;
    proof {
        assert(row_views(output@) =~= passing(row_views(config.input@), replies@, 0));
    }
    while i < config.input.len()
        invariant
            i <= config.input@.len(),
            row_views(output@) == passing(row_views(config.input@), replies@, i as nat),
            reported@ == failures(replies@, i as nat),
        decreases config.input.len() - i,
    {
        let answer = if i < replies.len() {
            evaluate(&replies[i])
        } else {
            Err(JobError::ExpectedBoolean)
        };
        match answer {
            Ok(pass) => {
                if pass {
                    output.push(config.input[i].duplicate());
                    proof {
                        assert(row_views(output@) =~= passing(
                            row_views(config.input@),
                            replies@,
                            (i + 1) as nat,
                        ));
                    }
                }
            },
            Err(e) => {
                reported.push(e);
            },
        }
        i += 1;
    }
    Filtered { output_type: duplicate_schema(&config.input_type), output, reported }
}

/// Takes the condition off the front of the arguments.
pub fn parse(_input_type: &Vec<ColumnType>, arguments: &mut Vec<Argument>) -> (r: Result<Closure, JobError>)
    ensures
        r == condition_of(old(arguments)@),
        final(arguments)@ == (if old(arguments)@.len() == 0 {
            old(arguments)@
        } else {
            old(arguments)@.skip(1)
        }),
{
    if arguments.len() == 0 {
        return Err(JobError::ExpectedClosure);
    }
    let first = arguments.remove(0);
    proof {
        assert(arguments@ =~= old(arguments)@.skip(1));
    }
    match first.value {
        Value::Closure(c) => Ok(c),
        _ => Err(JobError::ExpectedClosure),
    }
}

/// Compiles the stage: the input must be a stream or a table, and the
/// first argument, which is taken off the list, the condition. No row is
/// read for this.
pub fn compile(input: &Value, input_type: &Vec<ColumnType>, arguments: &mut Vec<Argument>) -> (r: Result<
    Closure,
    JobError,
>)
    ensures
        !is_row_source(*input) ==> r == Err::<Closure, JobError>(JobError::ExpectedStream)
            && final(arguments)@ == old(arguments)@,
        is_row_source(*input) ==> r == condition_of(old(arguments)@) && final(arguments)@ == (if old(
            arguments,
        )@.len() == 0 {
            old(arguments)@
        } else {
            old(arguments)@.skip(1)
        }),
{
    match input {
        Value::Stream(_) | Value::Rows(_) => parse(input_type, arguments),
        _ => Err(JobError::ExpectedStream),
    }
}

/// Compiles and runs the stage on a context: the input must be a stream or
/// a table, and the first argument the condition.
pub fn perform(context: CompileContext, replies: &Vec<Reply>) -> (r: Result<Filtered, JobError>)
    ensures
        !is_row_source(context.input) ==> r == Err::<Filtered, JobError>(JobError::ExpectedStream),
        is_row_source(context.input) ==> match condition_of(context.arguments@) {
            Err(e) => r == Err::<Filtered, JobError>(e),
            Ok(_) => r.is_ok() && r.unwrap().output_type@ == context.input_type@ && row_views(
                r.unwrap().output@,
            ) == passing(row_views(context.rows@), replies@, context.rows@.len())
                && r.unwrap().reported@ == failures(replies@, context.rows@.len()),
        },
{
    let CompileContext { input, input_type, rows, arguments, env: _ } = context;
    match input {
        Value::Stream(_) | Value::Rows(_) => {
            let mut arguments = arguments;
            let condition = match parse(&input_type, &mut arguments) {
                Ok(c) => c,
                Err(e) => { return Err(e); },
            };
            let config = Config { condition, input: rows, input_type };
            Ok(run(&config, replies))
        },
        _ => Err(JobError::ExpectedStream),
    }
}

} // verus!
