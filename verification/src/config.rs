//! Shared data model: solutions, verdicts, protocol envelopes, session
//! tokens, and the contest time record.

use vstd::prelude::*;

verus! {

/// Judged outcome of a single solution (or of a single test run).
#[derive(Clone, Copy, Debug, PartialEq, Eq, Structural)]
pub enum Verdict {
    Accepted,
    WrongAnswer,
    RuntimeError,
    TimeLimit,
    MemoryLimit,
    PresentationError,
    CompileError,
}

/// Source language of a submitted solution.
#[derive(Clone, Copy, Debug, PartialEq, Eq, Structural)]
pub enum Lang {
    Cpp,
}

impl Lang {
    /// File extension used when the solution source is materialized on disk.
    pub fn file_ext(&self) -> (r: &'static str)
        ensures
            r@ == "cpp"@,
    {
        match self {
            Self::Cpp => "cpp",
        }
    }
}

/// A submitted program together with its metadata.
#[derive(Clone, Debug)]
pub struct Solution {
    pub code: String,
    pub lang: Lang,
    pub problem_number: u16,
    pub id: u128,
}

/// The judged outcome of one solution, produced exactly once per dispatched
/// solution by the worker that received it.
#[derive(Clone, Copy, Debug, PartialEq, Eq, Structural)]
pub struct JudgeResult {
    pub solution_id: u128,
    pub verdict: Verdict,
    pub score: u8,
    pub problem_number: u16,
}

/// Per-problem test configuration: how many test cases the problem has.
#[derive(Clone, Copy, Debug, PartialEq, Eq, Structural)]
pub struct Config {
    pub test_count: u16,
}

/// A per-connection session token: a 128-bit value bound to the address it
/// was issued to.
#[derive(Clone, Copy, Debug, PartialEq, Eq, Structural)]
pub struct Token(pub u128);

/// Contest timing: the start instant and an optional duration, both in
/// milliseconds. A set duration never places the finish instant past the
/// representable range.
#[derive(Clone, Copy, Debug)]
pub struct Time {
    pub start: u64,
    pub duration: Option<u64>,
}

impl Time {
    /// The finish instant stays representable: `start + duration` fits in
    /// the millisecond clock.
    pub open spec fn wf(self) -> bool {
        match self.duration {
            Some(d) => self.start + d <= u64::MAX,
            None => true,
        }
    }
}

/// An administrator's edit of the contest duration.
#[derive(Clone, Copy, Debug)]
pub enum UpdateDuration {
    Add(u64),
    Sub(u64),
    Assign(u64),
}

/// A protocol payload together with the session token that authorizes it.
#[derive(Clone, Debug)]
pub struct Secure<T> {
    pub token: Token,
    pub msg: T,
}

/// Messages the server sends to a worker.
#[derive(Clone, Debug)]
pub enum ServerToMachine {
    JudgeSolution(Solution),
    UpdateTests(Vec<u8>),
    InitFailed,
}

/// Messages a worker sends to the server.
#[derive(Clone, Debug)]
pub enum MachineToServer {
    Init,
    JudgeResult(JudgeResult),
}

/// The server's reply to an administrator request: a success payload or an
/// error description.
#[derive(Clone, Debug)]
pub enum ServerToAdmin<T> {
    Success(T),
    Failure(String),
}

} // verus!
