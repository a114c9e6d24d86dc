use s3perf::monitor::{BenchmarkState, HudState};
use s3perf::ops::Operation;

fn dummy_op() -> Operation {
    Operation {
        start: 0,
        end: 0,
        first_byte: None,
        last_byte: None,
        op_type: "GET".into(),
        err: String::new(),
        file: "test".into(),
        client_id: "c1".into(),
        endpoint: "http://localhost".into(),
        obj_per_op: 1,
        size: 1024,
        thread: 0,
        categories: 0,
    }
}

#[test]
fn test_new() {
    let m: BenchmarkState<()> = BenchmarkState::new();
    let s = m.status();
    assert_eq!(s.last_status, "initialized");
    assert!(!s.running);
    assert!(!s.data_ready);
    assert!(s.last_error.is_empty());
    assert!(s.filename.is_none());
}

#[test]
fn test_start_and_status() {
    let mut m: BenchmarkState<()> = BenchmarkState::new();
    m.start(1_700_000_000_000_000_000);
    let s = m.status();
    assert!(s.running);
    assert_eq!(s.last_status, "running");
    assert_eq!(m.start_time, Some(1_700_000_000_000_000_000));
}

#[test]
fn mod_test_set_done() {
    let mut m: BenchmarkState<()> = BenchmarkState::new();
    m.start(0);
    m.set_done(Some("result.json".into()));
    let s = m.status();
    assert!(!s.running);
    assert!(!s.data_ready);
    assert_eq!(s.filename.as_deref(), Some("result.json"));
}

#[test]
fn test_set_status() {
    let mut m: BenchmarkState<()> = BenchmarkState::new();
    m.set_status("preparing");
    assert_eq!(m.status().last_status, "preparing");
}

#[test]
fn test_set_error() {
    let mut m: BenchmarkState<()> = BenchmarkState::new();
    m.set_error("something went wrong");
    assert_eq!(m.status().last_error, "something went wrong");
}

#[test]
fn test_add_ops() {
    let mut m: BenchmarkState<()> = BenchmarkState::new();
    let op = dummy_op();
    m.add_ops(&[op]);
    assert_eq!(m.operations.len(), 1);
    assert_eq!(m.operations[0].op_type, "GET");
}

#[test]
fn test_set_aggregated() {
    let mut m: BenchmarkState<Vec<u32>> = BenchmarkState::new();
    m.set_aggregated(Vec::new());
    let s = m.status();
    assert!(s.data_ready);
}

#[test]
fn test_default() {
    let m: BenchmarkState<()> = BenchmarkState::new();
    assert_eq!(m.status().last_status, "initialized");
}

#[test]
fn test_new_state() {
    let state = HudState::new();
    assert!(state.phase.is_empty());
    assert_eq!(state.total_bytes, 0);
    assert_eq!(state.total_ops, 0);
    assert_eq!(state.total_errors, 0);
    assert!(!state.done);
}

#[test]
fn test_set_phase() {
    let mut state = HudState::new();
    state.set_phase("Benchmarking", "GET /bucket/key");
    assert_eq!(state.phase, "Benchmarking");
    assert_eq!(state.phase_detail, "GET /bucket/key");
}

#[test]
fn test_record_op_success() {
    let mut state = HudState::new();
    state.record_op(4096, true);
    assert_eq!(state.total_bytes, 4096);
    assert_eq!(state.total_ops, 1);
    assert_eq!(state.total_errors, 0);
}

#[test]
fn test_record_op_failure() {
    let mut state = HudState::new();
    state.record_op(0, false);
    assert_eq!(state.total_bytes, 0);
    assert_eq!(state.total_ops, 1);
    assert_eq!(state.total_errors, 1);
}

#[test]
fn test_record_op_negative_bytes() {
    let mut state = HudState::new();
    state.record_op(-1, true);
    assert_eq!(state.total_bytes, 0);
    assert_eq!(state.total_ops, 1);
    assert_eq!(state.total_errors, 0);
}

#[test]
fn hud_set_done() {
    let mut state = HudState::new();
    assert!(!state.done);
    state.set_done();
    assert!(state.done);
}

#[test]
fn hud_counters_wrap() {
    let mut state = HudState::new();
    state.total_ops = u64::MAX;
    state.record_op(1, false);
    assert_eq!(state.total_ops, 0);
    assert_eq!(state.total_errors, 1);
}

#[test]
fn status_follows_the_calls() {
    let mut st: BenchmarkState<u32> = BenchmarkState::new();
    let s0 = st.status();
    assert!(!s0.running && !s0.data_ready);
    st.start(5);
    st.set_status("warming up");
    st.set_error("one failure");
    st.add_ops(&[dummy_op()]);
    assert!(st.status().running);
    st.set_done(Some("out.csv.zst".to_string()));
    st.set_status("after");
    assert!(!st.status().running);
    assert!(!st.status().data_ready);
    st.set_aggregated(7);
    st.start(9);
    let s1 = st.status();
    assert!(s1.running && s1.data_ready);
}
