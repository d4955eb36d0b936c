use vstd::prelude::*;
use vstd::string::*;
use crate::lang::errors::JobError;
use crate::lang::value::{Value, Builtin};
use crate::commands::call::Call;
use crate::lang::table::{Argument, ColumnType, Row, row_views, duplicate_schema};

verus! {

/// The number of rows that is let through when none is given.
pub const DEFAULT_LINE_COUNT: i128 = 10;

/// What an argument list asks for: the default without arguments, the
/// integer of a single argument, and a failure for anything else.
pub open spec fn line_count(arguments: Seq<Argument>) -> Result<i128, JobError> {
    if arguments.len() == 0 {
        Ok(DEFAULT_LINE_COUNT)
    } else if arguments.len() == 1 {
        match arguments[0].value {
            Value::Integer(v) => Ok(v),
            _ => Err(JobError::ExpectedNumber),
        }
    } else {
        Err(JobError::TooManyArguments)
    }
}

/// How many of `available` rows pass a limit: none for a negative limit.
pub open spec fn passed(limit: i128, available: nat) -> nat {
    if limit <= 0 {
        0
    } else if limit >= available {
        available
    } else {
        limit as nat
    }
}

/// Under a limit that is not negative, as many rows pass as there are, up
/// to the limit.
pub proof fn law_passed_is_least(limit: i128, available: nat)
    requires
        limit >= 0,
    ensures
        passed(limit, available) == if limit <= available {
            limit as nat
        } else {
            available
        },
        passed(limit, available) <= available,
{
}

/// The limit that the arguments give: ten where there is none, the
/// integer where there is one; anything else is refused.
pub fn get_line_count(arguments: &Vec<Argument>) -> (r: Result<i128, JobError>)
    ensures
        r == line_count(arguments@),
{
    if arguments.len() == 0 {
        Ok(DEFAULT_LINE_COUNT)
    } else if arguments.len() == 1 {
        match arguments[0].value {
            Value::Integer(v) => Ok(v),
            _ => Err(JobError::ExpectedNumber),
        }
    } else {
        Err(JobError::TooManyArguments)
    }
}

/// Whether a stage that has let `sent` rows through under `limit` takes
/// another row. Once it does not, it reads no further, so that whoever
/// feeds it sees the stream close.
pub fn wants_row(limit: i128, sent: usize) -> (more: bool)
    ensures
        more == (sent < limit),
        forall|available: nat| available > sent ==> (more <==> passed(limit, available) > sent),
{
    (sent as i128) < limit
}

/// Lets the first rows of `input` through, in their order, up to the limit
/// that the arguments give. Malformed arguments fail before a row is read.
pub fn run(input_type: &Vec<ColumnType>, arguments: &Vec<Argument>, input: &Vec<Row>) -> (r: Result<
    Vec<Row>,
    JobError,
>)
    ensures
        match line_count(arguments@) {
            Ok(limit) => r.is_ok() && row_views(r.unwrap()@) == row_views(input@).take(
                passed(limit, input@.len()) as int,
            ),
            Err(e) => r == Err::<Vec<Row>, JobError>(e),
        },
{
    let tot = match get_line_count(arguments) {
        Ok(v) => v,
        Err(e) => { return Err(e); },
    };
    let mut output: Vec<Row> = Vec::new();
    let mut count: usize = 0;
    while count < input.len() && (count as i128) < tot
        invariant
            count <= input.len(),
            count <= passed(tot, input@.len()),
            output@.len() == count,
            row_views(output@) == row_views(input@).take(count as int),
        decreases input.len() - count,
    {
        output.push(input[count].duplicate());
        proof {
            assert(row_views(output@) =~= row_views(input@).take(count + 1));
        }
        count += 1;
    }
    proof {
        assert(row_views(output@) =~= row_views(input@).take(count as int));
    }
    Ok(output)
}

/// Binds the command to its arguments. The output has the input's schema.
pub fn head(input_type: Vec<ColumnType>, arguments: Vec<Argument>) -> (r: Result<Call, JobError>)
    ensures
        match line_count(arguments@) {
            Ok(_) => r.is_ok() && r.unwrap().name@ == "head"@ && r.unwrap().input_type@
                == input_type@ && r.unwrap().output_type@ == input_type@ && r.unwrap().arguments@
                == arguments@ && r.unwrap().command == Builtin::Head,
            Err(e) => r == Err::<Call, JobError>(e),
        },
{
    match get_line_count(&arguments) {
        Ok(_) => {},
        Err(e) => { return Err(e); },
    }
    let output_type = duplicate_schema(&input_type);
    Ok(Call { name: String::from_str("head"), output_type, input_type, arguments, command: Builtin::Head })
}

} // verus!
