//! Judge execution pipeline: parsing the per-problem checker's textual
//! verdict, combining one test run's outcome, reducing per-test verdicts in
//! test-index order to a single aggregate verdict, and the per-submission
//! state machine that gates test execution on a successful compile.
//!
//! The pipeline itself is driven from outside: the driver performs the file,
//! process and scheduling work and feeds the outcome of each stage back as a
//! [`JudgeEvent`]; every decision lives here.

use vstd::prelude::*;

use crate::config::{Config, JudgeResult, Verdict};

verus! {

/// The verdict a checker's one-line output stands for: exactly `Ok`, `Wa`
/// or `Pe`; anything else is a checker-contract violation read as `Pe`.
pub open spec fn spec_checker_verdict(out: Seq<u8>) -> Verdict {
    if out == seq!['O' as u8, 'k' as u8] {
        Verdict::Accepted
    } else if out == seq!['W' as u8, 'a' as u8] {
        Verdict::WrongAnswer
    } else if out == seq!['P' as u8, 'e' as u8] {
        Verdict::PresentationError
    } else {
        Verdict::PresentationError
    }
}

/// Parses the checker's standard output into a verdict.
pub fn checker_verdict(out: &Vec<u8>) -> (r: Verdict)
    ensures
        r == spec_checker_verdict(out@),
{
    if out.len() == 2 {
        let b0 = out[0];
        let b1 = out[1];
        if b0 == 'O' as u8 && b1 == 'k' as u8 {
            proof {
                assert(out@ =~= seq!['O' as u8, 'k' as u8]);
            }
            Verdict::Accepted
        } else if b0 == 'W' as u8 && b1 == 'a' as u8 {
            proof {
                assert(out@ =~= seq!['W' as u8, 'a' as u8]);
            }
            Verdict::WrongAnswer
        } else {
            Verdict::PresentationError
        }
    } else {
        Verdict::PresentationError
    }
}

/// The verdict of a single test: a run that did not exit successfully is a
/// runtime error and the checker is never consulted; a missing checker
/// output is a checker-contract violation; otherwise the checker's output
/// decides.
pub open spec fn spec_test_verdict(run_succeeded: bool, checker_out: Option<Seq<u8>>) -> Verdict {
    if !run_succeeded {
        Verdict::RuntimeError
    } else {
        match checker_out {
            Some(out) => spec_checker_verdict(out),
            None => Verdict::PresentationError,
        }
    }
}

/// Combines one test run's outcome: whether the solution process exited
/// successfully, and the checker's captured output if the checker could be
/// run at all.
pub fn test_verdict(run_succeeded: bool, checker_out: &Option<Vec<u8>>) -> (r: Verdict)
    ensures
        r == spec_test_verdict(
            run_succeeded,
            match checker_out {
                Some(out) => Some(out@),
                None => None,
            },
        ),
{
    if !run_succeeded {
        Verdict::RuntimeError
    } else {
        match checker_out {
            Some(out) => checker_verdict(out),
            None => Verdict::PresentationError,
        }
    }
}

/// The aggregate verdict of a submission: the first verdict in test-index
/// order that is not `Accepted`, or `Accepted` when every test passed.
pub open spec fn spec_reduce(vs: Seq<Verdict>) -> Verdict
    decreases vs.len(),
{
    if vs.len() == 0 {
        Verdict::Accepted
    } else if vs[0] != Verdict::Accepted {
        vs[0]
    } else {
        spec_reduce(vs.skip(1))
    }
}

/// The aggregate verdict is the verdict of the first test, in index order,
/// that did not pass.
proof fn lemma_reduce_first(vs: Seq<Verdict>, i: int)
    requires
        0 <= i < vs.len(),
        vs[i] != Verdict::Accepted,
        forall|j: int| 0 <= j < i ==> vs[j] == Verdict::Accepted,
    ensures
        spec_reduce(vs) == vs[i],
    decreases i,
{
    if i > 0 {
        lemma_reduce_first(vs.skip(1), i - 1);
    }
}

/// Reduces the per-test verdicts, given in test-index order, to the
/// aggregate verdict of the submission. Ties between tests that finished in
/// any order are decided by test index alone: the result is the first
/// non-`Accepted` verdict by index, or `Accepted` when there is none.
pub fn reduce_verdicts(vs: &Vec<Verdict>) -> (r: Verdict)
    ensures
        r == spec_reduce(vs@),
        (forall|i: int| 0 <= i < vs@.len() ==> vs@[i] == Verdict::Accepted) ==> r
            == Verdict::Accepted,
        (exists|i: int| 0 <= i < vs@.len() && vs@[i] != Verdict::Accepted) ==> exists|i: int|
            0 <= i < vs@.len() && r == vs@[i] && vs@[i] != Verdict::Accepted && (forall|j: int|
                0 <= j < i ==> vs@[j] == Verdict::Accepted),
{
    let n = vs.len();
    let mut res = Verdict::Accepted;
    let mut i: usize = 0;
    while i < n
        invariant
            n == vs@.len(),
            0 <= i <= n,
            res == Verdict::Accepted ==> forall|j: int| 0 <= j < i ==> vs@[j] == Verdict::Accepted,
            res != Verdict::Accepted ==> exists|j: int|
                0 <= j < i && res == vs@[j] && vs@[j] != Verdict::Accepted && (forall|k: int|
                    0 <= k < j ==> vs@[k] == Verdict::Accepted),
        decreases n - i,
    {
        let v = vs[i];
        if !matches!(v, Verdict::Accepted) && matches!(res, Verdict::Accepted) {
            res = v;
        }
        i = i + 1;
    }
    proof {
        if res == Verdict::Accepted {
            lemma_all_accepted(vs@);
        } else {
            let j = choose|j: int|
                0 <= j < vs@.len() && res == vs@[j] && vs@[j] != Verdict::Accepted && (forall|
                    k: int,
                |
                    0 <= k < j ==> vs@[k] == Verdict::Accepted);
            lemma_reduce_first(vs@, j);
        }
    }
    res
}

/// Law: when every test yields `Accepted`, the aggregate verdict is
/// `Accepted`.
pub proof fn lemma_all_accepted(vs: Seq<Verdict>)
    requires
        forall|i: int| 0 <= i < vs.len() ==> vs[i] == Verdict::Accepted,
    ensures
        spec_reduce(vs) == Verdict::Accepted,
    decreases vs.len(),
{
    if vs.len() > 0 {
        lemma_all_accepted(vs.skip(1));
    }
}

/// The score a verdict earns: 100 for `Accepted`, otherwise 0.
pub open spec fn spec_score(v: Verdict) -> u8 {
    if v == Verdict::Accepted {
        100u8
    } else {
        0u8
    }
}

/// Wraps a worker's aggregate verdict into the result reported back to the
/// server, with the binary score: 100 for `Accepted`, 0 otherwise.
pub fn make_judge_result(solution_id: u128, problem_number: u16, verdict: Verdict) -> (r:
    JudgeResult)
    ensures
        r == (JudgeResult {
            solution_id,
            verdict,
            score: spec_score(verdict),
            problem_number,
        }),
{
    JudgeResult {
        solution_id,
        problem_number,
        score: if matches!(verdict, Verdict::Accepted) {
            100
        } else {
            0
        },
        verdict,
    }
}

/// Where a submission stands in the pipeline.
#[derive(Clone, Debug, PartialEq, Eq, Structural)]
pub enum JudgeStage {
    /// The submission arrived; its source is being written out.
    Received,
    /// The source is on disk; the compiler runs.
    Compiling,
    /// The compile succeeded; the per-problem test configuration is read.
    LoadingConfig,
    /// The tests run; the reduction waits for all of them.
    Running { test_count: u16 },
    /// A verdict was produced; terminal.
    Reported { result: JudgeResult },
    /// A resource failure ended the submission without a verdict; terminal.
    Aborted,
}

/// What the driver observed while carrying out the last requested action.
#[derive(Clone, Debug)]
pub enum JudgeEvent {
    Materialized,
    MaterializeFailed,
    /// The compiler ran to completion with this exit outcome, or could not
    /// be launched at all (`success: false` either way).
    Compiled { success: bool },
    ConfigLoaded { config: Config },
    ConfigFailed,
    /// Every spawned test finished; the verdicts stand in test-index order.
    TestsDone { verdicts: Vec<Verdict> },
}

/// What the driver must do next.
#[derive(Clone, Debug, PartialEq, Eq, Structural)]
pub enum JudgeAction {
    Compile,
    LoadConfig,
    RunTests { test_count: u16 },
    Report { result: JudgeResult },
    /// Nothing further: the submission is reported or silently dropped.
    Stop,
}

/// The per-submission judge pipeline: the submission's identity plus the
/// stage it stands in.
pub struct JudgePipeline {
    pub solution_id: u128,
    pub problem_number: u16,
    pub stage: JudgeStage,
}

/// One transition of the pipeline: from the current stage and the driver's
/// event to the next stage and the next action. An event that does not
/// belong to the current stage aborts the submission; a terminal stage
/// ignores every further event.
pub open spec fn spec_step(p: JudgePipeline, ev: JudgeEvent) -> (JudgePipeline, JudgeAction) {
    let abort = (
        JudgePipeline { stage: JudgeStage::Aborted, ..p },
        JudgeAction::Stop,
    );
    match p.stage {
        JudgeStage::Received => match ev {
            JudgeEvent::Materialized => (
                JudgePipeline { stage: JudgeStage::Compiling, ..p },
                JudgeAction::Compile,
            ),
            _ => abort,
        },
        JudgeStage::Compiling => match ev {
            JudgeEvent::Compiled { success } => {
                if success {
                    (
                        JudgePipeline { stage: JudgeStage::LoadingConfig, ..p },
                        JudgeAction::LoadConfig,
                    )
                } else {
                    let result = JudgeResult {
                        solution_id: p.solution_id,
                        verdict: Verdict::CompileError,
                        score: 0u8,
                        problem_number: p.problem_number,
                    };
                    (
                        JudgePipeline { stage: JudgeStage::Reported { result }, ..p },
                        JudgeAction::Report { result },
                    )
                }
            },
            _ => abort,
        },
        JudgeStage::LoadingConfig => match ev {
            JudgeEvent::ConfigLoaded { config } => (
                JudgePipeline { stage: JudgeStage::Running { test_count: config.test_count }, ..p },
                JudgeAction::RunTests { test_count: config.test_count },
            ),
            _ => abort,
        },
        JudgeStage::Running { test_count } => match ev {
            JudgeEvent::TestsDone { verdicts } => {
                if verdicts@.len() == test_count {
                    let verdict = spec_reduce(verdicts@);
                    let result = JudgeResult {
                        solution_id: p.solution_id,
                        verdict,
                        score: spec_score(verdict),
                        problem_number: p.problem_number,
                    };
                    (
                        JudgePipeline { stage: JudgeStage::Reported { result }, ..p },
                        JudgeAction::Report { result },
                    )
                } else {
                    abort
                }
            },
            _ => abort,
        },
        JudgeStage::Reported { .. } => (p, JudgeAction::Stop),
        JudgeStage::Aborted => (p, JudgeAction::Stop),
    }
}

impl JudgePipeline {
    /// A freshly received submission.
    pub fn new(solution_id: u128, problem_number: u16) -> (r: JudgePipeline)
        ensures
            r == (JudgePipeline { solution_id, problem_number, stage: JudgeStage::Received }),
    {
        JudgePipeline { solution_id, problem_number, stage: JudgeStage::Received }
    }

    /// Advances the pipeline on the driver's event and says what to do next.
    pub fn step(&mut self, ev: JudgeEvent) -> (a: JudgeAction)
        ensures
            (*final(self), a) == spec_step(*old(self), ev),
    {
        let (stage, action): (JudgeStage, JudgeAction) = match (&self.stage, ev) {
            (JudgeStage::Received, JudgeEvent::Materialized) => (
                JudgeStage::Compiling,
                JudgeAction::Compile,
            ),
            (JudgeStage::Compiling, JudgeEvent::Compiled { success }) => {
                if success {
                    (JudgeStage::LoadingConfig, JudgeAction::LoadConfig)
                } else {
                    let result = make_judge_result(
                        self.solution_id,
                        self.problem_number,
                        Verdict::CompileError,
                    );
                    (JudgeStage::Reported { result }, JudgeAction::Report { result })
                }
            },
            (JudgeStage::LoadingConfig, JudgeEvent::ConfigLoaded { config }) => (
                JudgeStage::Running { test_count: config.test_count },
                JudgeAction::RunTests { test_count: config.test_count },
            ),
            (JudgeStage::Running { test_count }, JudgeEvent::TestsDone { verdicts }) => {
                let tc = *test_count;
                if verdicts.len() == tc as usize {
                    let verdict = reduce_verdicts(&verdicts);
                    let result = make_judge_result(self.solution_id, self.problem_number, verdict);
                    (JudgeStage::Reported { result }, JudgeAction::Report { result })
                } else {
                    (JudgeStage::Aborted, JudgeAction::Stop)
                }
            },
            (JudgeStage::Reported { result }, _) => (
                JudgeStage::Reported { result: *result },
                JudgeAction::Stop,
            ),
            (JudgeStage::Aborted, _) => (JudgeStage::Aborted, JudgeAction::Stop),
            _ => (JudgeStage::Aborted, JudgeAction::Stop),
        };
        self.stage = stage;
        action
    }
}

/// Law (compile gate): when the compile fails, the submission is reported
/// immediately with verdict `CompileError` and score 0 — the pipeline never
/// reaches the `Running` stage.
pub proof fn lemma_compile_gate(p: JudgePipeline)
    requires
        p.stage is Compiling,
    ensures
        ({
            let (next, action) = spec_step(p, JudgeEvent::Compiled { success: false });
            &&& next.stage matches JudgeStage::Reported { result }
                && result.verdict == Verdict::CompileError && result.score == 0
                && result.solution_id == p.solution_id && result.problem_number
                == p.problem_number
            &&& action matches JudgeAction::Report { result } && result.verdict
                == Verdict::CompileError && result.score == 0
        }),
{
}

/// Law (compile gate, launch side): test tasks are only ever requested by
/// the transition out of `LoadingConfig`, and `LoadingConfig` is only ever
/// entered by a successful compile — so after a failed compile no test task
/// is ever launched.
pub proof fn lemma_tests_only_after_successful_compile(p: JudgePipeline, ev: JudgeEvent)
    ensures
        spec_step(p, ev).1 is RunTests ==> p.stage is LoadingConfig && ev is ConfigLoaded,
        spec_step(p, ev).0.stage is LoadingConfig ==> p.stage is Compiling && ev == (
        JudgeEvent::Compiled { success: true }),
{
}

/// Law (all pass): when every test yields `Accepted`, the reported verdict
/// is `Accepted` and the score is 100.
pub proof fn lemma_all_pass(p: JudgePipeline, verdicts: Vec<Verdict>)
    requires
        p.stage matches JudgeStage::Running { test_count } && verdicts@.len() == test_count,
        forall|i: int| 0 <= i < verdicts@.len() ==> verdicts@[i] == Verdict::Accepted,
    ensures
        ({
            let (next, action) = spec_step(p, JudgeEvent::TestsDone { verdicts });
            &&& next.stage matches JudgeStage::Reported { result } && result.verdict
                == Verdict::Accepted && result.score == 100
            &&& action matches JudgeAction::Report { result } && result.verdict
                == Verdict::Accepted && result.score == 100
        }),
{
    lemma_all_accepted(verdicts@);
}

} // verus!
