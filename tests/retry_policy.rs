use site_checker::{probe_outcome, Outcome, ProbeResult, RetryState};

fn failure(msg: &str) -> Outcome {
    Outcome::Failure { message: msg.to_string() }
}

/// Feeds the outcomes of a simulated probe to the policy until it stops;
/// returns the number of attempts made and the final state.
fn drive<F: FnMut(usize) -> (Outcome, u64)>(budget: u64, mut probe: F) -> (usize, RetryState) {
    let mut state = RetryState::new(budget);
    let mut attempts: usize = 0;
    while !state.is_finished() {
        let (outcome, took) = probe(attempts);
        attempts += 1;
        state.record(outcome, took);
    }
    (attempts, state)
}

#[test]
fn always_failing_target_makes_budget_plus_one_attempts() {
    for budget in 0..6u64 {
        let (attempts, state) = drive(budget, |_| (failure("connection refused"), 10));
        assert_eq!(attempts as u64, budget + 1);
        let r = state.into_result("http://down.test".to_string()).unwrap();
        assert_eq!(r.outcome, failure("connection refused"));
        assert_eq!(r.elapsed_ns, 10 * (budget + 1));
        assert!(!r.is_up());
    }
}

#[test]
fn success_after_failures_short_circuits() {
    let budget = 3u64;
    for k in 0..=3usize {
        let (attempts, state) = drive(budget, |i| {
            if i < k {
                (failure("dns failure"), 5)
            } else {
                (Outcome::Success { status_code: 200 }, 7)
            }
        });
        assert_eq!(attempts, k + 1);
        let r = state.into_result("http://flaky.test".to_string()).unwrap();
        assert_eq!(r.outcome, Outcome::Success { status_code: 200 });
        assert_eq!(r.elapsed_ns, 5 * k as u64 + 7);
        assert!(r.is_up());
    }
}

#[test]
fn zero_budget_single_attempt_either_way() {
    let (attempts, state) = drive(0, |_| (failure("timed out"), 3));
    assert_eq!(attempts, 1);
    assert_eq!(state.into_result("a".to_string()).unwrap().outcome, failure("timed out"));
    let (attempts, state) = drive(0, |_| (Outcome::Success { status_code: 503 }, 3));
    assert_eq!(attempts, 1);
    assert_eq!(
        state.into_result("b".to_string()).unwrap().outcome,
        Outcome::Success { status_code: 503 }
    );
}

#[test]
fn elapsed_never_decreases_and_sums_attempts() {
    let mut state = RetryState::new(4);
    let mut last = state.elapsed_ns();
    assert_eq!(last, 0);
    let took = [30u64, 0, 12, 1_000];
    for t in took {
        state.record(failure("reset"), t);
        assert!(state.elapsed_ns() >= last);
        last = state.elapsed_ns();
    }
    assert_eq!(last, 1_042);
    assert!(!state.is_finished());
    assert!(state.record(failure("reset"), 8));
    assert_eq!(state.elapsed_ns(), 1_050);
}

#[test]
fn elapsed_saturates() {
    let mut state = RetryState::new(1);
    state.record(failure("x"), u64::MAX);
    state.record(failure("x"), 5);
    assert_eq!(state.elapsed_ns(), u64::MAX);
}

#[test]
fn attempt_after_verdict_is_ignored() {
    let mut state = RetryState::new(2);
    assert!(state.record(Outcome::Success { status_code: 204 }, 4));
    assert!(state.record(failure("late"), 100));
    let r = state.into_result("t".to_string()).unwrap();
    assert_eq!(
        r,
        ProbeResult {
            target: "t".to_string(),
            outcome: Outcome::Success { status_code: 204 },
            elapsed_ns: 4
        }
    );
}

#[test]
fn no_result_before_verdict() {
    let mut state = RetryState::new(1);
    assert!(!state.record(failure("first"), 1));
    assert!(state.into_result("t".to_string()).is_none());
}

#[test]
fn any_response_is_success() {
    assert_eq!(
        probe_outcome(Some(404), "ignored".to_string()),
        Outcome::Success { status_code: 404 }
    );
    assert_eq!(
        probe_outcome(Some(301), String::new()),
        Outcome::Success { status_code: 301 }
    );
    assert_eq!(
        probe_outcome(None, "connection refused".to_string()),
        failure("connection refused")
    );
    assert!(probe_outcome(Some(500), String::new()).is_success());
    assert!(!probe_outcome(None, "x".to_string()).is_success());
}
