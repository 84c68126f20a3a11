use simtopo::endpoint::{
    build_service_runtime, finish_response, lookup_method, EndpointError,
};
use simtopo::executor::{CallTarget, LegOutcome, PlanRun};
use simtopo::json::parse_json_str;
use simtopo::model::{CallRecord, Timestamp};
use simtopo::sampler::{
    sample_bernoulli, sample_to_millis, sample_uniform_micros, Sampler,
};

fn ts(seconds: i64) -> Timestamp {
    Timestamp { seconds, nanos: 0 }
}

fn target(service: &str, method: &str) -> CallTarget {
    CallTarget {
        service_name: service.to_string(),
        method_name: method.to_string(),
    }
}

fn ok_outcome(at: i64, sub_trace: Vec<CallRecord>) -> LegOutcome {
    LegOutcome { ok: true, received_at: ts(at), sub_trace }
}

fn err_outcome(at: i64) -> LegOutcome {
    LegOutcome { ok: false, received_at: ts(at), sub_trace: Vec::new() }
}

/// Single leaf: a method with no calls returns an empty trace.
#[test]
fn single_leaf_returns_empty_trace() {
    let run = PlanRun::start(Vec::new());
    assert!(run.is_done());
    let (trace, _) = run.into_trace();
    assert_eq!(trace.len(), 0);

    // its simulated response succeeds with status OK and calls == []
    let response = finish_response("m".to_string(), trace, false).unwrap();
    assert_eq!(response.method_name, "m");
    assert_eq!(response.calls.len(), 0);

    // observed latency of constant(0) is 0 ms
    let zero = Sampler::Constant { value: 0 };
    assert_eq!(zero.sample_millis(7, 0), Some(0));
}

/// Sequential chain A -> B -> C: C's record arrives before B's, and A
/// itself leaves no record in its own trace.
#[test]
fn sequential_chain_orders_records() {
    // C is a leaf: its trace is empty.
    let c_run = PlanRun::start(Vec::new());
    let (c_trace, _) = c_run.into_trace();

    // B calls C once.
    let mut b_run = PlanRun::start(vec![vec![target("C", "m")]]);
    assert!(!b_run.is_done());
    let pending = b_run.pending();
    assert_eq!(pending.len(), 1);
    assert_eq!(pending[0].1.service_name, "C");
    b_run.apply_round(vec![ok_outcome(1, c_trace)]);
    assert!(b_run.is_done());
    let (b_trace, _) = b_run.into_trace();
    assert_eq!(b_trace.len(), 1);
    assert_eq!(b_trace[0].method_name, "m");
    assert!(!b_trace[0].was_an_error);

    // A calls B once; B's accumulated trace rides along.
    let mut a_run = PlanRun::start(vec![vec![target("B", "m")]]);
    a_run.apply_round(vec![ok_outcome(2, b_trace)]);
    assert!(a_run.is_done());
    let (a_trace, _) = a_run.into_trace();
    // the callee's trace comes before the caller's own record
    assert_eq!(a_trace.len(), 2);
    assert_eq!(a_trace[0].response_received_at.seconds, 1);
    assert_eq!(a_trace[1].response_received_at.seconds, 2);
    assert!(a_trace.iter().all(|r| !r.was_an_error));
}

/// Fan-out: records appear in fan-out index order, B before C.
#[test]
fn fan_out_orders_by_index() {
    let mut run = PlanRun::start(vec![vec![target("B", "bm"), target("C", "cm")]]);
    let pending = run.pending();
    assert_eq!(pending.len(), 2);
    assert_eq!(pending[0].0, 0);
    assert_eq!(pending[1].0, 1);
    run.apply_round(vec![ok_outcome(5, Vec::new()), ok_outcome(3, Vec::new())]);
    assert!(run.is_done());
    let (trace, _) = run.into_trace();
    assert_eq!(trace.len(), 2);
    assert_eq!(trace[0].method_name, "bm");
    assert_eq!(trace[1].method_name, "cm");
}

/// Retry on simulated error: one failed attempt leaves an error record,
/// the next round's success closes the leg, and the caller returns OK.
#[test]
fn retry_records_failure_then_success() {
    let mut run = PlanRun::start(vec![vec![target("B", "m")]]);
    run.apply_round(vec![err_outcome(1)]);
    assert!(!run.is_done());
    let pending = run.pending();
    assert_eq!(pending.len(), 1);
    run.apply_round(vec![ok_outcome(2, Vec::new())]);
    assert!(run.is_done());
    let (trace, _) = run.into_trace();
    assert_eq!(trace.len(), 2);
    assert!(trace[0].was_an_error);
    assert!(!trace[1].was_an_error);
    assert_eq!(trace[0].method_name, "m");
    assert_eq!(trace[1].method_name, "m");

    let response = finish_response("m".to_string(), trace, false);
    assert!(response.is_ok());
}

/// Stages are strict: the second stage's legs only become pending once
/// every leg of the first stage has succeeded.
#[test]
fn stage_two_waits_for_stage_one() {
    let mut run = PlanRun::start(vec![
        vec![target("B", "b1"), target("C", "c1")],
        vec![target("D", "d1")],
    ]);
    run.apply_round(vec![err_outcome(1), ok_outcome(1, Vec::new())]);
    assert!(!run.is_done());
    // only the failed leg of stage one is retried
    let pending = run.pending();
    assert_eq!(pending.len(), 1);
    assert_eq!(pending[0].1.service_name, "B");
    run.apply_round(vec![ok_outcome(2, Vec::new())]);
    // now stage two opens
    let pending2 = run.pending();
    assert_eq!(pending2.len(), 1);
    assert_eq!(pending2[0].1.service_name, "D");
    run.apply_round(vec![ok_outcome(3, Vec::new())]);
    assert!(run.is_done());
    let (trace, _) = run.into_trace();
    // stage one's records (including the retry) all precede stage two's
    assert_eq!(trace.len(), 4);
    assert_eq!(trace[3].method_name, "d1");
    assert!(trace.iter().take(3).all(|r| r.method_name != "d1"));
}

#[test]
fn endpoint_rejects_unknown_method_and_simulated_error() {
    let config = parse_json_str(
        r#"{"services": {"A": {"port": "1", "methods": {"m": {
            "latency_distribution": {"type": "constant", "parameters": {"value": 0}},
            "error_rate": {"type": "bernoulli", "parameters": {"p": 1}}
        }}}}}"#,
    )
    .unwrap();
    let a = config.services.get("A").unwrap();
    let runtime = build_service_runtime(a).unwrap();
    assert!(lookup_method(&runtime, "m").is_ok());
    match lookup_method(&runtime, "absent") {
        Err(e) => assert_eq!(e, EndpointError::UnknownMethod),
        Ok(_) => panic!("an absent method must be refused"),
    }

    // a certain error rate fires after the latency sleep
    let m = lookup_method(&runtime, "m").unwrap();
    let fired = m.error_rate.as_ref().unwrap().sample_bool().unwrap();
    assert!(fired);
    match finish_response("m".to_string(), Vec::new(), fired) {
        Err(e) => assert_eq!(e, EndpointError::SimulatedError),
        Ok(_) => panic!("a fired error rate must fail the request"),
    }
}

#[test]
fn runtime_build_rejects_bad_targets_and_distributions() {
    let config = parse_json_str(
        r#"{"services": {"A": {"port": "1", "methods": {"m": {
            "calls": [["no_dot_here"]],
            "latency_distribution": {"type": "constant", "parameters": {"value": 0}}
        }}}}}"#,
    )
    .unwrap();
    let a = config.services.get("A").unwrap();
    assert!(build_service_runtime(a).is_err());

    let config2 = parse_json_str(
        r#"{"services": {"A": {"port": "1", "methods": {"m": {
            "latency_distribution": {"type": "mystery", "parameters": {}}
        }}}}}"#,
    )
    .unwrap();
    assert!(build_service_runtime(config2.services.get("A").unwrap()).is_err());
}

#[test]
fn runtime_splits_call_targets() {
    let config = parse_json_str(
        r#"{"services": {"A": {"port": "1", "methods": {"m": {
            "calls": [["B.n", "C.p"], ["D.q"]],
            "latency_distribution": {"type": "constant", "parameters": {"value": 0}}
        }}}}}"#,
    )
    .unwrap();
    let runtime = build_service_runtime(config.services.get("A").unwrap()).unwrap();
    let m = lookup_method(&runtime, "m").unwrap();
    assert_eq!(m.calls.len(), 2);
    assert_eq!(m.calls[0][0].service_name, "B");
    assert_eq!(m.calls[0][0].method_name, "n");
    assert_eq!(m.calls[0][1].service_name, "C");
    assert_eq!(m.calls[1][0].method_name, "q");
}

/// Sampler bounds: constant rounds half to even; uniform stays within
/// its bounds; bernoulli is certain at its extremes.
#[test]
fn sampler_bounds() {
    // constant(v).sample() == round(v), half to even
    assert_eq!(sample_to_millis(1_500_000), 2);
    assert_eq!(sample_to_millis(2_500_000), 2);
    assert_eq!(sample_to_millis(2_499_999), 2);
    assert_eq!(sample_to_millis(2_500_001), 3);
    assert_eq!(sample_to_millis(-7), 0);
    let c = Sampler::Constant { value: 1_500_000 };
    assert_eq!(c.sample_millis(42, 0), Some(2));

    // uniform(a, b) samples within [a, b]
    for draw in [0u64, 1, 17, u64::MAX] {
        let m = sample_uniform_micros(2_000_000, 5_000_000, draw);
        assert!((2_000_000..=5_000_000).contains(&m));
    }
    let u = Sampler::Uniform { min: 2_000_000, max: 5_000_000 };
    for _ in 0..32 {
        let ms = u.sample_latency_ms(0).unwrap();
        assert!((2..=5).contains(&ms));
    }

    // bernoulli(0) is always false, bernoulli(1) always true
    for draw in [0u64, 1, 999_999, u64::MAX] {
        assert!(!sample_bernoulli(0, draw));
        assert!(sample_bernoulli(1_000_000, draw));
    }
    let never = Sampler::Bernoulli { p: 0 };
    let always = Sampler::Bernoulli { p: 1_000_000 };
    for _ in 0..32 {
        assert_eq!(never.sample_bool(), Some(false));
        assert_eq!(always.sample_bool(), Some(true));
    }
    // a latency kind yields no boolean, an error kind no latency
    assert_eq!(never.sample_millis(3, 0), None);
    assert!(Sampler::Constant { value: 0 }.sample_bool().is_none());
}

#[test]
fn sampler_construction_validates_parameters() {
    let good = parse_json_str(
        r#"{"services": {"A": {"port": "1", "methods": {"m": {
            "latency_distribution": {"type": "uniform", "parameters": {"min": 1, "max": 2}}
        }}}}}"#,
    )
    .unwrap();
    let m = good.services.get("A").unwrap().methods.get("m").unwrap();
    assert!(Sampler::new(&m.latency_distribution).is_ok());

    let bad = parse_json_str(
        r#"{"services": {"A": {"port": "1", "methods": {"m": {
            "latency_distribution": {"type": "exponential", "parameters": {"rate": 0}}
        }}}}}"#,
    )
    .unwrap();
    let m2 = bad.services.get("A").unwrap().methods.get("m").unwrap();
    match Sampler::new(&m2.latency_distribution) {
        Err(e) => assert_eq!(e.kind, "exponential"),
        Ok(_) => panic!("a zero rate must be refused"),
    }
}

#[test]
fn client_pool_dials_once_per_target() {
    let mut pool: simtopo::pool::ClientPool<u64> = simtopo::pool::ClientPool::new();
    assert!(pool.lookup("B").is_none());
    // first use: the driver dialled and got channel 7
    pool.install("B".to_string(), 7);
    assert_eq!(*pool.lookup("B").unwrap(), 7);
    // a concurrent waiter's late install does not replace the channel
    pool.install("B".to_string(), 9);
    assert_eq!(*pool.lookup("B").unwrap(), 7);
    // a failed dial installed nothing, so another target still dials
    assert!(pool.lookup("C").is_none());
}
