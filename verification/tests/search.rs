use backtrack::counters::{Counter, JumpingCounter, LoopingCounter};
use backtrack::engine::{get_sequence_to_final_state, Verbosity};

fn counter_values(path: &[Counter]) -> Vec<i32> {
    path.iter().map(|c| c.value).collect()
}

fn jumping_values(path: &[JumpingCounter]) -> Vec<i32> {
    path.iter().map(|c| c.value).collect()
}

#[test]
fn test_counter_counts_to_seven() {
    let path = get_sequence_to_final_state(&Counter { value: 1 }, &Verbosity::Quiet)
        .expect("a path from 1 to 7 exists");
    assert_eq!(counter_values(&path), vec![1, 2, 3, 4, 5, 6, 7]);
}

#[test]
fn test_jumping_counter_prefers_the_larger_jump() {
    // Successors are generated as [value+1, value+2] and tried last-first,
    // so the +2 branch is explored before the +1 branch at every node.
    let path = get_sequence_to_final_state(&JumpingCounter { value: 1 }, &Verbosity::Quiet)
        .expect("a path from 1 to 4 exists");
    assert_eq!(jumping_values(&path), vec![1, 3, 4]);
}

#[test]
fn test_last_successor_wins_when_final() {
    // From 2 the successors are [3, 4]; both lead to the target 4, and the
    // engine must take the later one's branch first and return it.
    let path = get_sequence_to_final_state(&JumpingCounter { value: 2 }, &Verbosity::Quiet)
        .expect("a path from 2 to 4 exists");
    assert_eq!(jumping_values(&path), vec![2, 4]);
}

#[test]
fn test_final_initial_state_returns_single_element_path() {
    let path = get_sequence_to_final_state(&Counter { value: 7 }, &Verbosity::Quiet)
        .expect("the initial state is already final");
    assert_eq!(counter_values(&path), vec![7]);
}

#[test]
fn test_guarded_space_is_exhausted() {
    // From 5 the jumping counter can never come back down to 4, and it
    // stops generating successors above 10: the search must end.
    let result = get_sequence_to_final_state(&JumpingCounter { value: 5 }, &Verbosity::Quiet);
    assert!(result.is_err());
}

#[test]
fn test_self_loop_is_rejected_not_followed() {
    // A state whose only successor is itself must not loop forever: the
    // on-path check rejects it and the search reports exhaustion.
    let result = get_sequence_to_final_state(&LoopingCounter { value: 5 }, &Verbosity::Quiet);
    assert!(result.is_err());
}

#[test]
fn test_verbosity_does_not_change_the_result() {
    let quiet = get_sequence_to_final_state(&JumpingCounter { value: 1 }, &Verbosity::Quiet)
        .expect("a path exists");
    let info = get_sequence_to_final_state(&JumpingCounter { value: 1 }, &Verbosity::Info)
        .expect("a path exists");
    let trace = get_sequence_to_final_state(&JumpingCounter { value: 1 }, &Verbosity::Trace)
        .expect("a path exists");
    assert_eq!(jumping_values(&quiet), jumping_values(&info));
    assert_eq!(jumping_values(&quiet), jumping_values(&trace));
}

#[test]
fn test_found_path_is_a_successor_path() {
    // Every consecutive pair of the result steps by +1 or +2, the first
    // element is the initial state, the last is the target, and no value
    // repeats.
    let path = get_sequence_to_final_state(&JumpingCounter { value: 0 }, &Verbosity::Quiet)
        .expect("a path from 0 to 4 exists");
    let values = jumping_values(&path);
    assert_eq!(values[0], 0);
    assert_eq!(*values.last().unwrap(), 4);
    for w in values.windows(2) {
        assert!(w[1] == w[0] + 1 || w[1] == w[0] + 2);
    }
    let mut sorted = values.clone();
    sorted.sort();
    sorted.dedup();
    assert_eq!(sorted.len(), values.len());
}
