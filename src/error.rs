//! The failures that a run can end in.

use vstd::prelude::*;
use vstd::string::*;
use crate::text::{push_signed, signed_decimal};

verus! {

/// Why a run stopped.
#[derive(Debug, Clone, PartialEq, Eq)]
pub enum Error {
    /// A `NAME=value` entry did not have that shape; holds where it came from and the entry.
    UnparseableLine { source: String, line: String },
    /// No source supplied a value for the variable.
    UnresolvedVar(String),
    /// A job asked for a variable that the resolution pass did not answer.
    UnresolvableVar(String),
    /// The jobs that could not be ordered after their dependencies.
    Unschedulable(Vec<String>),
    /// The single job that was asked for is not among the jobs.
    JobNotFound(String),
    /// The job's directory holds no runnable script.
    NoRunner(String),
    /// A script of the job exited unsuccessfully, with this code (`-1` when none was given).
    JobFailed { name: String, code: i32 },
    /// The invoking user's home directory could not be determined.
    NoHomeDir,
}

/// The texts of `names`, separated by a comma and a space.
pub open spec fn joined(names: Seq<String>) -> Seq<char>
    decreases names.len(),
{
    if names.len() == 0 {
        Seq::empty()
    } else if names.len() == 1 {
        names[0]@
    } else {
        joined(names.drop_last()) + ", "@ + names.last()@
    }
}

/// The one-line message that reports `e`.
pub open spec fn message_of(e: Error) -> Seq<char> {
    match e {
        Error::UnparseableLine { source, line } => "Unparseable line found in "@ + source@ + ": "@
            + line@,
        Error::UnresolvedVar(n) => "Could not resolve var: "@ + n@,
        Error::UnresolvableVar(n) => "Unresolvable variable: "@ + n@,
        Error::Unschedulable(v) => "Unschedulable jobs: "@ + joined(v@),
        Error::JobNotFound(n) => "Cannot locate job: "@ + n@,
        Error::NoRunner(n) => "No runner found for job: "@ + n@,
        Error::JobFailed { name, code } => "Job '"@ + name@ + "' failed with exit code "@
            + signed_decimal(code as int),
        Error::NoHomeDir => "Cannot find home dir"@,
    }
}

impl Error {
    /// The one-line message that reports the failure.
    pub fn message(&self) -> (r: String)
        ensures
            r@ == message_of(*self),
    {
        match self {
            Error::UnparseableLine { source, line } => {
                let mut m = "Unparseable line found in ".to_owned();
                m.append(source.as_str());
                m.append(": ");
                m.append(line.as_str());
                m
            },
            Error::UnresolvedVar(n) => "Could not resolve var: ".to_owned().concat(n.as_str()),
            Error::UnresolvableVar(n) => "Unresolvable variable: ".to_owned().concat(n.as_str()),
            Error::Unschedulable(v) => {
                let mut m = "Unschedulable jobs: ".to_owned();
                let ghost head = m@;
                let mut i: usize = 0;
                while i < v.len()
                    invariant
                        i <= v@.len(),
                        m@ == head + joined(v@.subrange(0, i as int)),
                    decreases v@.len() - i,
                {
                    if i > 0 {
                        m.append(", ");
                    }
                    m.append(v[i].as_str());
                    proof {
                        let t = v@.subrange(0, i + 1);
                        assert(t.drop_last() =~= v@.subrange(0, i as int));
                        assert(m@ =~= head + joined(t));
                    }
                    i += 1;
                }
                assert(v@.subrange(0, i as int) =~= v@);
                m
            },
            Error::JobNotFound(n) => "Cannot locate job: ".to_owned().concat(n.as_str()),
            Error::NoRunner(n) => "No runner found for job: ".to_owned().concat(n.as_str()),
            Error::JobFailed { name, code } => {
                let mut m = "Job '".to_owned();
                m.append(name.as_str());
                m.append("' failed with exit code ");
                push_signed(&mut m, *code);
                m
            },
            Error::NoHomeDir => "Cannot find home dir".to_owned(),
        }
    }
}

} // verus!
