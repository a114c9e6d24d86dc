//! The state a running benchmark reports: to the HTTP status endpoint and to
//! the terminal display.
use vstd::prelude::*;
use crate::ops::Operation;
use crate::text::owned;

verus! {

broadcast use vstd::string::group_string_axioms;

// ---------------------------------------------------------------------------
// The status endpoint
// ---------------------------------------------------------------------------

/// What a benchmark has done so far; `A` is the type of its analysed result.
pub struct BenchmarkState<A> {
    /// When the run started (nanoseconds since the Unix epoch).
    pub start_time: Option<i64>,
    pub operations: Vec<Operation>,
    pub collecting: bool,
    pub done: bool,
    pub filename: Option<String>,
    pub last_error: String,
    pub last_status: String,
    pub aggregated: Option<A>,
}

/// The snapshot the status endpoint serves.
#[derive(Debug, Clone)]
pub struct BenchmarkStatus {
    pub last_status: String,
    pub last_error: String,
    pub filename: Option<String>,
    /// An analysed result is available.
    pub data_ready: bool,
    /// Collecting and not yet done.
    pub running: bool,
}

/// A call on a benchmark state that changes what the status endpoint
/// reports as running or ready.
pub enum StatusCall {
    /// `start`
    Start,
    /// `set_done`
    Done,
    /// `set_status`
    Message,
    /// `set_error`
    Error,
    /// `set_aggregated`
    Result,
    /// `add_ops`
    Ops,
}

/// Collecting, done, and a result stored, after call `c`.
pub open spec fn status_step(f: (bool, bool, bool), c: StatusCall) -> (bool, bool, bool) {
    match c {
        StatusCall::Start => (true, false, f.2),
        StatusCall::Done => (false, true, f.2),
        StatusCall::Result => (f.0, f.1, true),
        _ => f,
    }
}

/// Collecting, done, and a result stored, after the calls in order.
pub open spec fn status_after(f: (bool, bool, bool), calls: Seq<StatusCall>) -> (bool, bool, bool)
    decreases calls.len(),
{
    if calls.len() == 0 {
        f
    } else {
        status_step(status_after(f, calls.drop_last()), calls.last())
    }
}

/// No call after the `i`-th ends the run.
pub open spec fn not_ended_after(calls: Seq<StatusCall>, i: int) -> bool {
    forall|j: int| i < j < calls.len() ==> !(#[trigger] calls[j] is Done)
}

/// Some call starts the run and no later call ends it.
pub open spec fn started_not_ended(calls: Seq<StatusCall>) -> bool {
    exists|i: int| 0 <= i < calls.len() && #[trigger] calls[i] is Start && not_ended_after(calls, i)
}

/// Some call stores a result.
pub open spec fn result_stored(calls: Seq<StatusCall>) -> bool {
    exists|i: int| 0 <= i < calls.len() && #[trigger] calls[i] is Result
}

proof fn lemma_running(calls: Seq<StatusCall>)
    ensures
        (status_after((false, false, false), calls).0 && !status_after((false, false, false), calls).1)
            <==> started_not_ended(calls),
    decreases calls.len(),
{
    if calls.len() > 0 {
        let pre = calls.drop_last();
        let n = calls.len() - 1;
        lemma_running(pre);
        let c = calls[n];
        assert(calls.last() == c);
        if c is Start {
            assert(not_ended_after(calls, n));
            assert(calls[n] is Start);
        } else if c is Done {
            if started_not_ended(calls) {
                let i = choose|i: int| 0 <= i < calls.len() && #[trigger] calls[i] is Start && not_ended_after(calls, i);
                assert(i != n);
                assert(!(calls[n] is Done));
            }
        } else {
            if started_not_ended(pre) {
                let i = choose|i: int| 0 <= i < pre.len() && #[trigger] pre[i] is Start && not_ended_after(pre, i);
                assert(calls[i] == pre[i]);
                assert forall|j: int| i < j < calls.len() implies !(#[trigger] calls[j] is Done) by {
                    if j < n {
                        assert(calls[j] == pre[j]);
                    }
                }
                assert(calls[i] is Start && not_ended_after(calls, i));
            }
            if started_not_ended(calls) {
                let i = choose|i: int| 0 <= i < calls.len() && #[trigger] calls[i] is Start && not_ended_after(calls, i);
                assert(i < n);
                assert(pre[i] == calls[i]);
                assert forall|j: int| i < j < pre.len() implies !(#[trigger] pre[j] is Done) by {
                    assert(calls[j] == pre[j]);
                    assert(!(calls[j] is Done));
                }
                assert(pre[i] is Start && not_ended_after(pre, i));
            }
        }
    }
}

proof fn lemma_ready(calls: Seq<StatusCall>)
    ensures
        status_after((false, false, false), calls).2 <==> result_stored(calls),
    decreases calls.len(),
{
    if calls.len() > 0 {
        let pre = calls.drop_last();
        let n = calls.len() - 1;
        lemma_ready(pre);
        if result_stored(pre) {
            let i = choose|i: int| 0 <= i < pre.len() && #[trigger] pre[i] is Result;
            assert(calls[i] == pre[i]);
        }
        if calls[n] is Result {
            assert(calls[n] is Result);
        }
        if result_stored(calls) {
            let i = choose|i: int| 0 <= i < calls.len() && #[trigger] calls[i] is Result;
            if i < n {
                assert(pre[i] == calls[i]);
            }
        }
    }
}

/// Law: after a sequence of calls on a fresh state, the status endpoint
/// reports the benchmark running exactly when some call started it and no
/// later call ended it, and data ready exactly when some call stored a result.
pub proof fn law_status_over_calls(calls: Seq<StatusCall>)
    ensures
        (status_after((false, false, false), calls).0 && !status_after((false, false, false), calls).1)
            <==> started_not_ended(calls),
        status_after((false, false, false), calls).2 <==> result_stored(calls),
{
    lemma_running(calls);
    lemma_ready(calls);
}

/// The same optional string.
fn copy_opt(s: &Option<String>) -> (r: Option<String>)
    ensures
        r == *s,
{
    match s {
        Some(x) => Some(x.clone()),
        None => None,
    }
}

impl<A> BenchmarkState<A> {
    /// Collecting, done, and a result stored.
    pub open spec fn flags(&self) -> (bool, bool, bool) {
        (self.collecting, self.done, self.aggregated is Some)
    }

    /// A fresh state: status `initialized`, nothing recorded.
    pub fn new() -> (r: BenchmarkState<A>)
        ensures
            r.start_time is None,
            r.operations@.len() == 0,
            !r.collecting,
            !r.done,
            r.filename is None,
            r.last_error@.len() == 0,
            r.last_status@ == "initialized"@,
            r.aggregated is None,
            r.flags() == (false, false, false),
    {
        BenchmarkState {
            start_time: None,
            operations: Vec::new(),
            collecting: false,
            done: false,
            filename: None,
            last_error: String::new(),
            last_status: owned("initialized"),
            aggregated: None,
        }
    }

    /// The run starts at `now`: collecting, not done, status `running`.
    pub fn start(&mut self, now: i64)
        ensures
            final(self).start_time == Some(now),
            final(self).collecting,
            !final(self).done,
            final(self).last_status@ == "running"@,
            final(self).operations == old(self).operations,
            final(self).filename == old(self).filename,
            final(self).last_error == old(self).last_error,
            final(self).aggregated == old(self).aggregated,
            final(self).flags() == status_step(old(self).flags(), StatusCall::Start),
    {
        self.start_time = Some(now);
        self.collecting = true;
        self.done = false;
        self.last_status = owned("running");
    }

    /// The current snapshot.
    pub fn status(&self) -> (r: BenchmarkStatus)
        ensures
            r.last_status == self.last_status,
            r.last_error == self.last_error,
            r.filename == self.filename,
            r.data_ready == (self.aggregated is Some),
            r.running == (self.collecting && !self.done),
    {
        BenchmarkStatus {
            last_status: self.last_status.clone(),
            last_error: self.last_error.clone(),
            filename: copy_opt(&self.filename),
            data_ready: self.aggregated.is_some(),
            running: self.collecting && !self.done,
        }
    }

    /// The run is over; its data went to `filename`.
    pub fn set_done(&mut self, filename: Option<String>)
        ensures
            final(self).done,
            !final(self).collecting,
            final(self).filename == filename,
            final(self).last_status@ == "done"@,
            final(self).start_time == old(self).start_time,
            final(self).operations == old(self).operations,
            final(self).last_error == old(self).last_error,
            final(self).aggregated == old(self).aggregated,
            final(self).flags() == status_step(old(self).flags(), StatusCall::Done),
    {
        self.done = true;
        self.collecting = false;
        self.filename = filename;
        self.last_status = owned("done");
    }

    /// Replaces the status message.
    pub fn set_status(&mut self, msg: &str)
        ensures
            final(self).last_status@ == msg@,
            final(self).done == old(self).done,
            final(self).collecting == old(self).collecting,
            final(self).last_error == old(self).last_error,
            final(self).aggregated == old(self).aggregated,
            final(self).flags() == status_step(old(self).flags(), StatusCall::Message),
    {
        self.last_status = owned(msg);
    }

    /// Replaces the error message.
    pub fn set_error(&mut self, msg: &str)
        ensures
            final(self).last_error@ == msg@,
            final(self).last_status == old(self).last_status,
            final(self).done == old(self).done,
            final(self).collecting == old(self).collecting,
            final(self).aggregated == old(self).aggregated,
            final(self).flags() == status_step(old(self).flags(), StatusCall::Error),
    {
        self.last_error = owned(msg);
    }

    /// Stores the analysed result.
    pub fn set_aggregated(&mut self, agg: A)
        ensures
            final(self).aggregated == Some(agg),
            final(self).last_status == old(self).last_status,
            final(self).done == old(self).done,
            final(self).collecting == old(self).collecting,
            final(self).flags() == status_step(old(self).flags(), StatusCall::Result),
    {
        self.aggregated = Some(agg);
    }

    /// Appends copies of `ops` to the recorded operations.
    pub fn add_ops(&mut self, ops: &[Operation])
        ensures
            final(self).operations@ == old(self).operations@ + ops@,
            final(self).last_status == old(self).last_status,
            final(self).done == old(self).done,
            final(self).collecting == old(self).collecting,
            final(self).aggregated == old(self).aggregated,
            final(self).flags() == status_step(old(self).flags(), StatusCall::Ops),
    {
        let mut i: usize = 0;
        let ghost before = self.operations@;
        while i < ops.len()
            invariant
                i <= ops@.len(),
                self.operations@ == before + ops@.subrange(0, i as int),
                self.last_status == old(self).last_status,
                self.done == old(self).done,
                self.collecting == old(self).collecting,
                self.aggregated == old(self).aggregated,
            decreases ops@.len() - i,
        {
            self.operations.push(ops[i].copy());
            i = i + 1;
            assert(self.operations@ =~= before + ops@.subrange(0, i as int));
        }
        assert(ops@.subrange(0, ops@.len() as int) =~= ops@);
    }
}

// ---------------------------------------------------------------------------
// The terminal display
// ---------------------------------------------------------------------------

/// The counters and labels the terminal display shows.
#[derive(Debug, Clone)]
pub struct HudState {
    pub phase: String,
    pub phase_detail: String,
    pub total_bytes: u64,
    pub total_ops: u64,
    pub total_errors: u64,
    pub done: bool,
}

/// `a + b` wrapped to 64 bits, as an atomic add does.
pub open spec fn wrap_add(a: u64, b: u64) -> u64 {
    vstd::wrapping::u64_specs::wrapping_add(a, b)
}

impl HudState {
    /// Empty labels, zero counters, not done.
    pub fn new() -> (r: HudState)
        ensures
            r.phase@.len() == 0,
            r.phase_detail@.len() == 0,
            r.total_bytes == 0,
            r.total_ops == 0,
            r.total_errors == 0,
            !r.done,
    {
        HudState {
            phase: String::new(),
            phase_detail: String::new(),
            total_bytes: 0,
            total_ops: 0,
            total_errors: 0,
            done: false,
        }
    }

    /// Replaces the phase label and its detail line.
    pub fn set_phase(&mut self, phase: &str, detail: &str)
        ensures
            final(self).phase@ == phase@,
            final(self).phase_detail@ == detail@,
            final(self).total_bytes == old(self).total_bytes,
            final(self).total_ops == old(self).total_ops,
            final(self).total_errors == old(self).total_errors,
            final(self).done == old(self).done,
    {
        self.phase = owned(phase);
        self.phase_detail = owned(detail);
    }

    /// Counts one operation: its bytes when positive, and an error when it
    /// failed. The counters wrap as atomics do.
    pub fn record_op(&mut self, bytes: i64, success: bool)
        ensures
            final(self).total_bytes == (if bytes > 0 {
                wrap_add(old(self).total_bytes, bytes as u64)
            } else {
                old(self).total_bytes
            }),
            final(self).total_ops == wrap_add(old(self).total_ops, 1),
            final(self).total_errors == (if success {
                old(self).total_errors
            } else {
                wrap_add(old(self).total_errors, 1)
            }),
            final(self).phase == old(self).phase,
            final(self).phase_detail == old(self).phase_detail,
            final(self).done == old(self).done,
    {
        if bytes > 0 {
            self.total_bytes = self.total_bytes.wrapping_add(bytes as u64);
        }
        self.total_ops = self.total_ops.wrapping_add(1);
        if !success {
            self.total_errors = self.total_errors.wrapping_add(1);
        }
    }

    /// Marks the run as finished.
    pub fn set_done(&mut self)
        ensures
            final(self).done,
            final(self).total_bytes == old(self).total_bytes,
            final(self).total_ops == old(self).total_ops,
            final(self).total_errors == old(self).total_errors,
    {
        self.done = true;
    }
}

} // verus!
