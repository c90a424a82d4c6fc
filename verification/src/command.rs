//! The command execution contract: the argument and context types every
//! pipeline stage receives, and the shared diagnostic sink.

use vstd::prelude::*;
use vstd::string::StringExecFns;
use crate::JobError;
use crate::cell::{Cell, CellV, cell_v, strings_v};
use crate::stream::Stream;

verus! {

/// One argument of a command invocation: an optional name and a value.
pub struct Argument {
    pub name: Option<String>,
    pub cell: Cell,
}

/// The view of an argument: its name and its value.
pub open spec fn arg_v(a: Argument) -> (Option<Seq<char>>, CellV) {
    (
        match a.name {
            Some(n) => Some(n@),
            None => None,
        },
        cell_v(a.cell),
    )
}

/// The views of an argument vector.
pub open spec fn args_v(v: Vec<Argument>) -> Seq<(Option<Seq<char>>, CellV)> {
    Seq::new(v@.len(), |i: int| arg_v(v@[i]))
}

/// One input file, already read into lines by the shell around the
/// core: the file's name and its lines without their line breaks.
pub struct FileData {
    pub name: String,
    pub lines: Vec<String>,
}

/// The views of a file vector: each file's name and lines.
pub open spec fn files_v(v: Vec<FileData>) -> Seq<(Seq<char>, Seq<Seq<char>>)> {
    Seq::new(v@.len(), |i: int| (v@[i].name@, strings_v(v@[i].lines)))
}

/// The shared diagnostic sink: workers report non-fatal problems here
/// and carry on.
pub struct Printer {
    pub messages: Vec<String>,
}

impl Printer {
    /// A sink with no messages yet.
    pub fn new() -> (r: Printer)
        ensures
            strings_v(r.messages).len() == 0,
    {
        Printer { messages: Vec::new() }
    }

    /// Report a problem.
    pub fn error(&mut self, msg: &str)
        ensures
            strings_v(final(self).messages) == strings_v(old(self).messages).push(msg@),
    {
        self.messages.push(String::from_str(msg));
        proof {
            assert(strings_v(self.messages) =~= strings_v(old(self).messages).push(msg@));
        }
    }

    /// Report a failed operation.
    pub fn report_failure(&mut self, e: JobError)
        ensures
            strings_v(final(self).messages) == strings_v(old(self).messages).push(e.message@),
    {
        self.messages.push(e.message);
        proof {
            assert(strings_v(self.messages) =~= strings_v(old(self).messages).push(
                e.message@,
            ));
        }
    }

    /// How many messages have been reported.
    pub fn count(&self) -> (r: usize)
        ensures
            r == strings_v(self.messages).len(),
    {
        self.messages.len()
    }
}

/// Everything a command needs to compile and run: its arguments, its
/// input and output streams, the glob expansions and file contents the
/// shell resolved for it, and the diagnostic sink.
pub struct CompileContext {
    pub arguments: Vec<Argument>,
    pub input: Stream,
    pub output: Stream,
    pub globs: Vec<(String, Vec<String>)>,
    pub files: Vec<FileData>,
    pub printer: Printer,
}

} // verus!
