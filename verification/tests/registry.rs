use ocj::config::{Lang, ServerToMachine, Solution};
use ocj::error::OcjError;
use ocj::machine::{Machine, Service};
use tokio::sync::mpsc::{unbounded_channel, UnboundedReceiver};

fn solution(id: u128) -> Solution {
    Solution { code: String::from("int main() {}"), lang: Lang::Cpp, problem_number: 1, id }
}

fn pool(ids: &[u16]) -> (Service, Vec<UnboundedReceiver<ServerToMachine>>) {
    let mut service = Service::init();
    let mut receivers = Vec::new();
    for &id in ids {
        let (tx, rx) = unbounded_channel();
        service.add_machine(Machine::new(id, tx));
        receivers.push(rx);
    }
    (service, receivers)
}

#[test]
fn dispatch_on_empty_registry_fails() {
    let mut service = Service::init();
    let r = service.dispatch(&solution(1));
    assert!(matches!(r, Err(OcjError::NoneMachineFound)));
}

#[test]
fn dispatch_always_picks_a_least_loaded_worker() {
    // With no completions, seven dispatches over three idle workers go
    // round-robin in id order, and no worker exceeds ceil(7 / 3) tasks.
    let (mut service, mut receivers) = pool(&[1, 2, 3]);
    let mut chosen = Vec::new();
    for k in 0..7u128 {
        chosen.push(service.dispatch(&solution(k)).unwrap());
    }
    assert_eq!(chosen, vec![1, 2, 3, 1, 2, 3, 1]);
    let mut per_worker = [0u32; 4];
    for id in chosen {
        per_worker[id as usize] += 1;
    }
    assert_eq!(per_worker[1], 3); // ceil(7 / 3)
    assert_eq!(per_worker[2], 2);
    assert_eq!(per_worker[3], 2);
    // every dispatched solution arrived on the chosen worker's queue
    let first = receivers[0].try_recv().unwrap();
    match first {
        ServerToMachine::JudgeSolution(s) => assert_eq!(s.id, 0),
        other => panic!("expected a solution, got {:?}", other),
    }
}

#[test]
fn worker_churn_never_selects_a_deregistered_id() {
    let (mut service, _receivers) = pool(&[10, 20]);
    assert_eq!(service.dispatch(&solution(1)).unwrap(), 10);
    service.remove_machine(10);
    assert!(!service.contains_machine(10));
    assert!(service.contains_machine(20));
    for k in 0..5u128 {
        assert_eq!(service.dispatch(&solution(k)).unwrap(), 20);
    }
}

#[test]
fn remove_machine_is_safe_before_any_dispatch() {
    let (mut service, _receivers) = pool(&[7]);
    service.remove_machine(7);
    assert!(!service.contains_machine(7));
    assert!(matches!(service.dispatch(&solution(1)), Err(OcjError::NoneMachineFound)));
}

#[test]
fn dispatch_prefers_lower_id_on_equal_counts() {
    let (mut service, _receivers) = pool(&[5, 2, 9]);
    assert_eq!(service.dispatch(&solution(1)).unwrap(), 2);
    assert_eq!(service.dispatch(&solution(2)).unwrap(), 5);
    assert_eq!(service.dispatch(&solution(3)).unwrap(), 9);
}

#[test]
fn broadcast_update_tests_reaches_every_worker() {
    let (service, mut receivers) = pool(&[1, 2]);
    let bundle = vec![1u8, 2, 3, 4];
    service.broadcast_update_tests(&bundle);
    for rx in receivers.iter_mut() {
        match rx.try_recv().unwrap() {
            ServerToMachine::UpdateTests(data) => assert_eq!(data, vec![1u8, 2, 3, 4]),
            other => panic!("expected a test bundle, got {:?}", other),
        }
    }
}

#[test]
fn send_solution_lands_on_the_worker_queue() {
    let (tx, mut rx) = unbounded_channel();
    let machine = Machine::new(3, tx);
    assert_eq!(machine.tasks_count, 0);
    assert!(machine.send_solution(&solution(11)));
    match rx.try_recv().unwrap() {
        ServerToMachine::JudgeSolution(s) => {
            assert_eq!(s.id, 11);
            assert_eq!(s.problem_number, 1);
        }
        other => panic!("expected a solution, got {:?}", other),
    }
}

#[test]
fn send_to_a_closed_queue_reports_failure_and_stops_nothing() {
    let (mut service, receivers) = pool(&[1, 2]);
    drop(receivers);
    // both queues are closed; dispatch still updates the load accounting
    assert_eq!(service.dispatch(&solution(1)).unwrap(), 1);
    assert_eq!(service.dispatch(&solution(2)).unwrap(), 2);
    service.broadcast_update_tests(&vec![9u8]);
}
