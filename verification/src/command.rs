//! Commands that are run outside: what to run, and what came back.

use vstd::prelude::*;
use crate::text::names;

verus! {

/// A command to run: the program and its arguments.
#[derive(Debug)]
pub struct Invocation {
    pub program: String,
    pub args: Vec<String>,
}

impl Invocation {
    /// The command line: the program, then the arguments.
    pub open spec fn line(&self) -> Seq<Seq<char>> {
        seq![self.program@] + names(self.args@)
    }
}

/// What came back from a command whose output was captured.
#[derive(Debug)]
pub struct Output {
    /// Whether the command exited successfully.
    pub success: bool,
    pub stdout: Vec<u8>,
    pub stderr: Vec<u8>,
}

/// How running a command ended, where its output was not captured.
#[derive(Debug)]
pub enum Status {
    /// The command ran; `success` says whether it exited successfully.
    Exited { success: bool },
    /// The command could not be run; the text says why.
    NotRun(String),
}

/// Appends a copy of every name of `more` to `args`.
pub fn push_all(args: &mut Vec<String>, more: &Vec<String>)
    ensures
        final(args)@ == old(args)@ + more@,
{
    let mut i: usize = 0;
    while i < more.len()
        invariant
            i <= more.len(),
            args@ == old(args)@ + more@.take(i as int),
        decreases more.len() - i,
    {
        args.push(more[i].clone());
        i += 1;
        assert(args@ =~= old(args)@ + more@.take(i as int));
    }
    assert(more@.take(more.len() as int) =~= more@);
}

} // verus!
