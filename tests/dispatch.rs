use site_checker::{Dispatcher, Outcome, RetryState};

fn targets(n: usize) -> Vec<String> {
    (0..n).map(|i| format!("http://host{}.test", i)).collect()
}

#[test]
fn one_result_per_target_in_target_order() {
    let ts = vec![
        "http://a.test".to_string(),
        "http://b.test".to_string(),
        "http://a.test".to_string(),
    ];
    let mut d = Dispatcher::new(ts.clone(), None);
    let mut launched = vec![];
    while let Some(i) = d.launch_next() {
        launched.push(i);
    }
    assert_eq!(launched, vec![0, 1, 2]);
    assert_eq!(d.in_flight(), 3);
    // results come back out of order
    for i in [2usize, 0, 1] {
        assert!(d.report(i, Outcome::Success { status_code: 200 + i as u16 }, i as u64));
    }
    assert!(d.is_complete());
    let rs = d.into_results();
    assert_eq!(rs.len(), 3);
    for (i, r) in rs.iter().enumerate() {
        assert_eq!(r.target, ts[i]);
        assert_eq!(r.outcome, Outcome::Success { status_code: 200 + i as u16 });
        assert_eq!(r.elapsed_ns, i as u64);
    }
}

#[test]
fn stray_reports_are_refused() {
    let mut d = Dispatcher::new(targets(2), Some(1));
    assert!(!d.report(0, Outcome::Success { status_code: 200 }, 1)); // not launched
    assert_eq!(d.launch_next(), Some(0));
    assert_eq!(d.launch_next(), None); // limit reached
    assert!(!d.report(5, Outcome::Success { status_code: 200 }, 1)); // unknown
    assert!(d.report(0, Outcome::Success { status_code: 200 }, 1));
    assert!(!d.report(0, Outcome::Success { status_code: 500 }, 1)); // second result
    assert!(!d.is_complete());
    assert_eq!(d.launch_next(), Some(1));
    assert!(d.report(1, Outcome::Failure { message: "refused".to_string() }, 2));
    assert!(d.is_complete());
    let rs = d.into_results();
    assert_eq!(rs[0].outcome, Outcome::Success { status_code: 200 });
    assert_eq!(rs[1].outcome, Outcome::Failure { message: "refused".to_string() });
}

#[test]
fn empty_run_is_complete() {
    let mut d = Dispatcher::new(vec![], Some(3));
    assert_eq!(d.len(), 0);
    assert!(d.is_complete());
    assert_eq!(d.launch_next(), None);
    assert!(d.into_results().is_empty());
}

#[test]
fn five_hundred_targets_never_exceed_ten_in_flight() {
    let n = 500usize;
    let mut d = Dispatcher::new(targets(n), Some(10));
    let mut in_flight: Vec<usize> = vec![];
    let mut peak = 0usize;
    let mut step = 0usize;
    while !d.is_complete() {
        while let Some(i) = d.launch_next() {
            in_flight.push(i);
        }
        assert!(d.in_flight() <= 10);
        assert_eq!(d.in_flight(), in_flight.len());
        peak = peak.max(in_flight.len());
        // finish some unit other than the oldest, to vary the order
        let pick = (step * 7) % in_flight.len();
        let i = in_flight.remove(pick);
        assert!(d.report(i, Outcome::Success { status_code: 200 }, 1));
        step += 1;
    }
    assert_eq!(peak, 10);
    let rs = d.into_results();
    assert_eq!(rs.len(), n);
    for (i, r) in rs.iter().enumerate() {
        assert_eq!(r.target, format!("http://host{}.test", i));
    }
}

#[test]
fn crashed_unit_reports_failure_others_unaffected() {
    let mut d = Dispatcher::new(targets(5), None);
    while d.launch_next().is_some() {}
    for i in [0usize, 1, 3, 4] {
        assert!(d.report(i, Outcome::Success { status_code: 200 }, 10));
    }
    assert!(!d.is_complete());
    assert!(d.report_crash(2, 4));
    assert!(!d.report_crash(2, 4));
    assert!(d.is_complete());
    let rs = d.into_results();
    assert_eq!(rs.len(), 5);
    for (i, r) in rs.iter().enumerate() {
        if i == 2 {
            assert_eq!(
                r.outcome,
                Outcome::Failure { message: "probing unit crashed before reporting".to_string() }
            );
            assert!(!r.is_up());
        } else {
            assert_eq!(r.outcome, Outcome::Success { status_code: 200 });
        }
    }
}

#[test]
fn ok_and_timeout_targets_scenario() {
    let ts = vec!["http://ok.test".to_string(), "http://timeout.test".to_string()];
    let timeout_ns = 1_000_000_000u64;
    let retries = 2u64;
    let mut d = Dispatcher::new(ts, None);
    let mut attempts = vec![0usize; 2];
    while let Some(i) = d.launch_next() {
        let url = d.target(i).clone();
        let mut state = RetryState::new(retries);
        while !state.is_finished() {
            attempts[i] += 1;
            if url == "http://ok.test" {
                state.record(Outcome::Success { status_code: 200 }, 20_000_000);
            } else {
                state.record(Outcome::Failure { message: "timeout".to_string() }, timeout_ns);
            }
        }
        let elapsed = state.elapsed_ns();
        let r = state.into_result(url).unwrap();
        assert!(d.report(i, r.outcome, elapsed));
    }
    assert_eq!(attempts, vec![1, 3]);
    assert!(d.is_complete());
    let rs = d.into_results();
    assert_eq!(rs[0].outcome, Outcome::Success { status_code: 200 });
    assert_eq!(rs[0].elapsed_ns, 20_000_000);
    assert_eq!(rs[1].outcome, Outcome::Failure { message: "timeout".to_string() });
    assert_eq!(rs[1].elapsed_ns, 3 * timeout_ns);
}

#[test]
fn slots_follow_the_run() {
    let mut d = Dispatcher::new(targets(1), Some(1));
    assert_eq!(d.target(0), "http://host0.test");
    assert_eq!(d.launch_next(), Some(0));
    assert_eq!(d.in_flight(), 1);
    assert!(d.report(0, Outcome::Success { status_code: 418 }, 9));
    assert_eq!(d.in_flight(), 0);
    assert!(d.is_complete());
}
