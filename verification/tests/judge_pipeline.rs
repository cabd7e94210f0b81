use ocj::config::{Config, Verdict};
use ocj::judge::{
    checker_verdict, make_judge_result, reduce_verdicts, test_verdict, JudgeAction, JudgeEvent,
    JudgePipeline, JudgeStage,
};

#[test]
fn checker_verdict_reads_the_three_words() {
    assert_eq!(checker_verdict(&b"Ok".to_vec()), Verdict::Accepted);
    assert_eq!(checker_verdict(&b"Wa".to_vec()), Verdict::WrongAnswer);
    assert_eq!(checker_verdict(&b"Pe".to_vec()), Verdict::PresentationError);
}

#[test]
fn checker_verdict_treats_anything_else_as_pe() {
    assert_eq!(checker_verdict(&b"".to_vec()), Verdict::PresentationError);
    assert_eq!(checker_verdict(&b"Ok\n".to_vec()), Verdict::PresentationError);
    assert_eq!(checker_verdict(&b"Accepted".to_vec()), Verdict::PresentationError);
    assert_eq!(checker_verdict(&vec![0xff, 0xfe]), Verdict::PresentationError);
}

#[test]
fn test_verdict_failed_run_is_re_without_checker() {
    assert_eq!(test_verdict(false, &Some(b"Ok".to_vec())), Verdict::RuntimeError);
    assert_eq!(test_verdict(false, &None), Verdict::RuntimeError);
}

#[test]
fn test_verdict_missing_checker_output_is_pe() {
    assert_eq!(test_verdict(true, &None), Verdict::PresentationError);
    assert_eq!(test_verdict(true, &Some(b"Wa".to_vec())), Verdict::WrongAnswer);
}

#[test]
fn reduction_takes_first_non_ok_by_index() {
    let vs = vec![
        Verdict::Accepted,
        Verdict::WrongAnswer,
        Verdict::Accepted,
        Verdict::RuntimeError,
    ];
    assert_eq!(reduce_verdicts(&vs), Verdict::WrongAnswer);
}

#[test]
fn reduction_of_all_ok_is_ok() {
    let vs = vec![Verdict::Accepted; 5];
    assert_eq!(reduce_verdicts(&vs), Verdict::Accepted);
    assert_eq!(reduce_verdicts(&Vec::new()), Verdict::Accepted);
}

#[test]
fn score_is_binary() {
    let r = make_judge_result(7, 3, Verdict::Accepted);
    assert_eq!(r.score, 100);
    assert_eq!(r.solution_id, 7);
    assert_eq!(r.problem_number, 3);
    let r = make_judge_result(7, 3, Verdict::TimeLimit);
    assert_eq!(r.score, 0);
    let r = make_judge_result(7, 3, Verdict::MemoryLimit);
    assert_eq!(r.score, 0);
}

#[test]
fn compile_failure_reports_ce_and_never_runs_tests() {
    let mut p = JudgePipeline::new(42, 2);
    let a = p.step(JudgeEvent::Materialized);
    assert_eq!(a, JudgeAction::Compile);
    let a = p.step(JudgeEvent::Compiled { success: false });
    match a {
        JudgeAction::Report { result } => {
            assert_eq!(result.verdict, Verdict::CompileError);
            assert_eq!(result.score, 0);
            assert_eq!(result.solution_id, 42);
            assert_eq!(result.problem_number, 2);
        }
        other => panic!("expected a report, got {:?}", other),
    }
    assert!(matches!(p.stage, JudgeStage::Reported { .. }));
    // terminal: further events change nothing and launch nothing
    let a = p.step(JudgeEvent::ConfigLoaded { config: Config { test_count: 3 } });
    assert_eq!(a, JudgeAction::Stop);
    assert!(matches!(p.stage, JudgeStage::Reported { .. }));
}

#[test]
fn all_pass_reports_ok_with_score_100() {
    let mut p = JudgePipeline::new(1, 1);
    assert_eq!(p.step(JudgeEvent::Materialized), JudgeAction::Compile);
    assert_eq!(p.step(JudgeEvent::Compiled { success: true }), JudgeAction::LoadConfig);
    assert_eq!(
        p.step(JudgeEvent::ConfigLoaded { config: Config { test_count: 3 } }),
        JudgeAction::RunTests { test_count: 3 }
    );
    let a = p.step(JudgeEvent::TestsDone {
        verdicts: vec![Verdict::Accepted, Verdict::Accepted, Verdict::Accepted],
    });
    match a {
        JudgeAction::Report { result } => {
            assert_eq!(result.verdict, Verdict::Accepted);
            assert_eq!(result.score, 100);
        }
        other => panic!("expected a report, got {:?}", other),
    }
}

#[test]
fn out_of_order_failures_still_reduce_by_index() {
    let mut p = JudgePipeline::new(9, 4);
    p.step(JudgeEvent::Materialized);
    p.step(JudgeEvent::Compiled { success: true });
    p.step(JudgeEvent::ConfigLoaded { config: Config { test_count: 4 } });
    let a = p.step(JudgeEvent::TestsDone {
        verdicts: vec![
            Verdict::Accepted,
            Verdict::WrongAnswer,
            Verdict::Accepted,
            Verdict::RuntimeError,
        ],
    });
    match a {
        JudgeAction::Report { result } => assert_eq!(result.verdict, Verdict::WrongAnswer),
        other => panic!("expected a report, got {:?}", other),
    }
}

#[test]
fn materialize_failure_aborts_without_a_verdict() {
    let mut p = JudgePipeline::new(5, 1);
    let a = p.step(JudgeEvent::MaterializeFailed);
    assert_eq!(a, JudgeAction::Stop);
    assert!(matches!(p.stage, JudgeStage::Aborted));
}

#[test]
fn config_failure_aborts_without_a_verdict() {
    let mut p = JudgePipeline::new(5, 1);
    p.step(JudgeEvent::Materialized);
    p.step(JudgeEvent::Compiled { success: true });
    let a = p.step(JudgeEvent::ConfigFailed);
    assert_eq!(a, JudgeAction::Stop);
    assert!(matches!(p.stage, JudgeStage::Aborted));
}

#[test]
fn short_test_collection_aborts() {
    let mut p = JudgePipeline::new(5, 1);
    p.step(JudgeEvent::Materialized);
    p.step(JudgeEvent::Compiled { success: true });
    p.step(JudgeEvent::ConfigLoaded { config: Config { test_count: 2 } });
    let a = p.step(JudgeEvent::TestsDone { verdicts: vec![Verdict::Accepted] });
    assert_eq!(a, JudgeAction::Stop);
    assert!(matches!(p.stage, JudgeStage::Aborted));
}
