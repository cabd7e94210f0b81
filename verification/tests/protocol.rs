use ocj::config::{JudgeResult, Lang, MachineToServer, ServerToAdmin, Token, Verdict};

#[test]
fn cpp_sources_use_the_cpp_extension() {
    assert_eq!(Lang::Cpp.file_ext(), "cpp");
}

#[test]
fn tokens_compare_by_value() {
    assert_eq!(Token(5), Token(5));
    assert_ne!(Token(5), Token(6));
}

#[test]
fn judge_results_travel_whole_through_the_envelope() {
    let result = JudgeResult {
        solution_id: 1,
        verdict: Verdict::Accepted,
        score: 100,
        problem_number: 2,
    };
    let msg = MachineToServer::JudgeResult(result);
    match msg {
        MachineToServer::JudgeResult(r) => assert_eq!(r, result),
        MachineToServer::Init => panic!("wrong envelope"),
    }
}

#[test]
fn admin_replies_carry_either_payload_or_error() {
    let ok: ServerToAdmin<u32> = ServerToAdmin::Success(7);
    match ok {
        ServerToAdmin::Success(v) => assert_eq!(v, 7),
        ServerToAdmin::Failure(_) => panic!("wrong side"),
    }
    let err: ServerToAdmin<u32> = ServerToAdmin::Failure(String::from("denied"));
    assert!(matches!(err, ServerToAdmin::Failure(_)));
}
