//! The pass-through command: forwards a fixed number of rows from its
//! input to its output and stops consuming.

use vstd::prelude::*;
use vstd::string::StringExecFns;
use crate::JobError;
use crate::cell::stream_v;
use crate::command::{Argument, CompileContext, args_v};
use crate::schema::clone_cols;
use crate::stream::Stream;

verus! {

/// The default number of rows forwarded when no count is given.
pub const DEFAULT_LINES: i128 = 10;

/// Read the row count from the arguments: none means the default, one
/// integer argument gives the count, anything else is an error.
pub fn get_line_count(arguments: &Vec<Argument>) -> (r: Result<i128, JobError>)
    ensures
        arguments@.len() == 0 ==> r is Ok && r->Ok_0 == DEFAULT_LINES,
        arguments@.len() == 1 && args_v(*arguments)[0].1 is Integer ==> r is Ok && r->Ok_0 as int
            == args_v(*arguments)[0].1->Integer_0,
        arguments@.len() == 1 && !(args_v(*arguments)[0].1 is Integer) ==> r is Err
            && r->Err_0.message@ == "Expected a number"@,
        arguments@.len() > 1 ==> r is Err && r->Err_0.message@ == "Too many arguments"@,
{
    if arguments.len() == 0 {
        Ok(DEFAULT_LINES)
    } else if arguments.len() == 1 {
        match &arguments[0].cell {
            crate::cell::Cell::Integer(v) => Ok(*v),
            _ => Err(JobError::new(String::from_str("Expected a number"))),
        }
    } else {
        Err(JobError::new(String::from_str("Too many arguments")))
    }
}

/// How many rows `run` forwards: the requested count, bounded by zero
/// below and by the rows available above.
pub open spec fn forwarded(lines: int, available: int) -> int {
    if lines <= 0 {
        0
    } else if lines < available {
        lines
    } else {
        available
    }
}

/// Forward up to `lines` rows from `input` to `output`, in order, and
/// stop consuming: rows beyond the count stay in the input.
pub fn run(lines: i128, input: &mut Stream, output: &mut Stream) -> (r: Result<(), JobError>)
    requires
        old(output).schema is Some,
    ensures
        ({
            let n = forwarded(lines as int, stream_v(*old(input)).queue.len() as int);
            &&& old(output).consumer_open ==> r is Ok && stream_v(*final(input)).queue
                == stream_v(*old(input)).queue.skip(n) && stream_v(*final(output)).queue
                == stream_v(*old(output)).queue + stream_v(*old(input)).queue.take(n)
            &&& !old(output).consumer_open && n > 0 ==> r is Err
            &&& !old(output).consumer_open && n == 0 ==> r is Ok && *final(input) == *old(input)
                && *final(output) == *old(output)
            &&& stream_v(*final(input)).schema == stream_v(*old(input)).schema
            &&& stream_v(*final(output)).schema == stream_v(*old(output)).schema
        }),
{
    let ghost q0 = stream_v(*old(input)).queue;
    let ghost n = forwarded(lines as int, q0.len() as int);
    let mut count: i128 = 0;
    proof {
        assert(q0.skip(0) =~= q0);
        assert(stream_v(*old(output)).queue + q0.take(0) =~= stream_v(*old(output)).queue);
    }
    loop
        invariant
            n == forwarded(lines as int, q0.len() as int),
            output.schema is Some,
            0 <= count,
            count as int <= q0.len(),
            lines > 0 ==> count <= lines,
            lines <= 0 ==> count == 0,
            stream_v(*input).queue == q0.skip(count as int),
            output.consumer_open == old(output).consumer_open,
            old(output).consumer_open ==> stream_v(*output).queue == stream_v(
                *old(output),
            ).queue + q0.take(count as int),
            !old(output).consumer_open ==> count == 0 && *output == *old(output) && *input
                == *old(input),
            stream_v(*input).schema == stream_v(*old(input)).schema,
            stream_v(*output).schema == stream_v(*old(output)).schema,
        ensures
            output.schema is Some,
            count as int == n,
            stream_v(*input).queue == q0.skip(n),
            output.consumer_open == old(output).consumer_open,
            old(output).consumer_open ==> stream_v(*output).queue == stream_v(
                *old(output),
            ).queue + q0.take(n),
            !old(output).consumer_open ==> *output == *old(output) && *input == *old(input),
            stream_v(*input).schema == stream_v(*old(input)).schema,
            stream_v(*output).schema == stream_v(*old(output)).schema,
        decreases q0.len() - count,
    {
        if count >= lines {
            proof {
                assert(count as int == n);
            }
            break;
        }
        match input.recv() {
            Some(row) => {
                proof {
                    assert(q0.skip(count as int)[0] == q0[count as int]);
                    assert(q0.skip(count as int).skip(1) =~= q0.skip(count as int + 1));
                }
                match output.send(row) {
                    Ok(()) => {},
                    Err(e) => {
                        return Err(e);
                    },
                }
                count = count + 1;
                proof {
                    if old(output).consumer_open {
                        assert(stream_v(*output).queue =~= stream_v(*old(output)).queue + q0.take(
                            count as int,
                        ));
                    }
                }
            },
            None => {
                proof {
                    assert(q0.skip(count as int).len() == 0);
                    assert(count as int == q0.len());
                    assert(count as int == n);
                }
                break;
            },
        }
    }
    Ok(())
}

/// Compile and run the pass-through command: read the count, adopt the
/// input's schema as the output schema, and forward the rows.
pub fn compile_and_run(context: &mut CompileContext) -> (r: Result<(), JobError>)
    ensures
        ({
            let args = args_v(old(context).arguments);
            let lines = if args.len() == 0 {
                DEFAULT_LINES as int
            } else {
                args[0].1->Integer_0
            };
            let n = forwarded(lines, stream_v(old(context).input).queue.len() as int);
            &&& args.len() > 1 ==> r is Err && *final(context) == *old(context)
            &&& args.len() == 1 && !(args[0].1 is Integer) ==> r is Err && *final(context) == *old(
                context,
            )
            &&& old(context).input.schema is None ==> r is Err && *final(context) == *old(context)
            &&& old(context).output.schema is Some ==> r is Err && *final(context) == *old(context)
            &&& (args.len() == 0 || (args.len() == 1 && args[0].1 is Integer))
                && old(context).input.schema is Some && old(context).output.schema is None && old(
                context,
            ).output.consumer_open ==> r is Ok && stream_v(final(context).output).queue == stream_v(
                old(context).output,
            ).queue + stream_v(old(context).input).queue.take(n) && stream_v(
                final(context).input,
            ).queue == stream_v(old(context).input).queue.skip(n) && stream_v(
                final(context).output,
            ).schema == stream_v(old(context).input).schema
        }),
{
    let lines = match get_line_count(&context.arguments) {
        Ok(l) => l,
        Err(e) => {
            return Err(e);
        },
    };
    let schema = match context.input.get_type() {
        Some(cols) => clone_cols(cols),
        None => {
            return Err(JobError::new(String::from_str("Input stream not initialized")));
        },
    };
    match context.output.initialize(schema) {
        Ok(()) => {},
        Err(e) => {
            return Err(e);
        },
    }
    run(lines, &mut context.input, &mut context.output)
}

} // verus!
