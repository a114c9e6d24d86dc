//! Auto-termination: a run stops once its throughput has been stable for
//! long enough. Here: which recent windows of operations are measured, what
//! each window sums to, and how the stability clock advances. The rates and
//! their spread are compared by the caller.
use vstd::prelude::*;
use crate::ops::Operation;

verus! {

/// `a - b`, or 0 when `b` is larger.
pub open spec fn sat_sub(a: int, b: int) -> int {
    if a >= b {
        a - b
    } else {
        0
    }
}

/// The size of a window over `n` operations split `split_into` ways: at
/// least 2.
pub open spec fn chunk_size(n: nat, split_into: nat) -> nat {
    if n / split_into >= 2 {
        n / split_into
    } else {
        2
    }
}

/// The windows from the `i`-th most recent on, `(start, end)` positions in
/// the start-ordered operations: up to 7 windows of `c` operations counted
/// back from the end, each kept when it holds at least 2.
pub open spec fn windows_from(n: nat, c: nat, i: nat, count: nat) -> Seq<(nat, nat)>
    decreases count - i,
{
    if i >= count {
        seq![]
    } else {
        let s = sat_sub(n as int, (c * (i + 1)) as int);
        let e = sat_sub(n as int, (c * i) as int);
        let rest = windows_from(n, c, i + 1, count);
        if e <= s || s >= n || e - s < 2 {
            rest
        } else {
            seq![(s as nat, e as nat)] + rest
        }
    }
}

/// The measured windows of `n` operations.
pub open spec fn windows(n: nat, split_into: nat) -> Seq<(nat, nat)> {
    let c = chunk_size(n, split_into);
    windows_from(n, c, 0, if n / c < 7 { n / c } else { 7 })
}

/// See [`windows`].
pub fn chunk_windows(n: usize, split_into: usize) -> (r: Vec<(usize, usize)>)
    requires
        split_into > 0,
    ensures
        r@.map_values(|w: (usize, usize)| (w.0 as nat, w.1 as nat)) == windows(n as nat, split_into as nat),
{
    let q = n / split_into;
    let c: usize = if q >= 2 { q } else { 2 };
    let m = n / c;
    let count: usize = if m < 7 { m } else { 7 };
    assert(count * c <= n) by (nonlinear_arith)
        requires
            count <= m,
            m == n / c,
            c >= 2,
    ;
    let mut rev: Vec<(usize, usize)> = Vec::new();
    let mut k: usize = count;
    while k > 0
        invariant
            k <= count,
            count * c <= n,
            c == chunk_size(n as nat, split_into as nat),
            count == (if (n / c) < 7 { n / c } else { 7 }),
            rev@.map_values(|w: (usize, usize)| (w.0 as nat, w.1 as nat)) == windows_from(
                n as nat,
                c as nat,
                k as nat,
                count as nat,
            ),
        decreases k,
    {
        let i = k - 1;
        assert(c * (i + 1) <= n) by (nonlinear_arith)
            requires
                i + 1 <= count,
                count * c <= n,
        ;
        assert(c * i <= c * (i + 1)) by (nonlinear_arith);
        let s = n - c * (i + 1);
        let e = n - c * i;
        let ghost before = rev@.map_values(|w: (usize, usize)| (w.0 as nat, w.1 as nat));
        if !(e <= s || s >= n || e - s < 2) {
            rev.insert(0, (s, e));
            assert(rev@.map_values(|w: (usize, usize)| (w.0 as nat, w.1 as nat)) =~= seq![
                (s as nat, e as nat),
            ] + before);
        }
        k = i;
    }
    rev
}

/// The bytes of operations `s[start..end]`.
pub open spec fn window_bytes(s: Seq<Operation>) -> int
    decreases s.len(),
{
    if s.len() == 0 {
        0
    } else {
        window_bytes(s.drop_last()) + s.last().size
    }
}

/// The span of a window in whole milliseconds (truncated toward zero): from
/// the first operation's start to the last one's end.
pub open spec fn window_millis(s: Seq<Operation>) -> int {
    let d = s.last().end - s[0].start;
    if d >= 0 {
        d / 1000000
    } else {
        -((-d) / 1000000)
    }
}

/// What a window of start-ordered operations sums to: its bytes and its
/// span in milliseconds. The byte total must fit in an `i64`.
pub fn window_totals(ops: &[Operation], start: usize, end: usize) -> (r: (i64, i64))
    requires
        start < end <= ops@.len(),
        forall|k: int|
            start <= k <= end ==> i64::MIN <= #[trigger] window_bytes(ops@.subrange(start as int, k))
                <= i64::MAX,
    ensures
        r.0 == window_bytes(ops@.subrange(start as int, end as int)),
        r.1 == window_millis(ops@.subrange(start as int, end as int)),
{
    let mut total: i64 = 0;
    let mut i: usize = start;
    assert(ops@.subrange(start as int, start as int) =~= Seq::<Operation>::empty());
    while i < end
        invariant
            start <= i <= end <= ops@.len(),
            total == window_bytes(ops@.subrange(start as int, i as int)),
            forall|k: int|
                start <= k <= end ==> i64::MIN <= #[trigger] window_bytes(ops@.subrange(start as int, k))
                    <= i64::MAX,
        decreases end - i,
    {
        assert(ops@.subrange(start as int, i + 1).drop_last() =~= ops@.subrange(start as int, i as int));
        assert(i64::MIN <= window_bytes(ops@.subrange(start as int, i + 1 as int)) <= i64::MAX);
        total = total + ops[i].size;
        i = i + 1;
    }
    let ghost w = ops@.subrange(start as int, end as int);
    assert(w[0] == ops@[start as int]);
    assert(w.last() == ops@[end - 1]);
    let d: i128 = ops[end - 1].end as i128 - ops[start].start as i128;
    let ms: i128 = if d >= 0 {
        d / 1000000
    } else {
        -((-d) / 1000000)
    };
    (total, ms as i64)
}

/// The stability clock after one check: a stable check starts the clock
/// (or keeps it), an unstable one stops it; the run ends once the clock has
/// run for `min_dur`. Instants are nanoseconds from a common origin.
pub open spec fn stability_spec(since: Option<u64>, stable: bool, now: u64, min_dur: u64) -> (Option<u64>, bool) {
    if stable {
        match since {
            Some(s) => if sat_sub(now as int, s as int) >= min_dur {
                (Some(s), true)
            } else {
                (Some(s), false)
            },
            None => (Some(now), false),
        }
    } else {
        (None, false)
    }
}

/// See [`stability_spec`]; the flag says whether to stop the run.
pub fn stability_step(since: Option<u64>, stable: bool, now: u64, min_dur: u64) -> (r: (Option<u64>, bool))
    ensures
        r == stability_spec(since, stable, now, min_dur),
{
    if stable {
        match since {
            Some(s) => {
                let elapsed = if now >= s {
                    now - s
                } else {
                    0
                };
                (Some(s), elapsed >= min_dur)
            },
            None => (Some(now), false),
        }
    } else {
        (None, false)
    }
}

/// A run never stops on its first stable check, and never right after an
/// unstable one: stopping takes an uninterrupted stable stretch of at least
/// `min_dur` (when `min_dur` is positive).
pub proof fn law_stop_needs_stable_stretch(since: Option<u64>, stable: bool, now: u64, min_dur: u64)
    requires
        min_dur > 0,
    ensures
        stability_spec(since, stable, now, min_dur).1 ==> stable && (since matches Some(s) && now - s >= min_dur),
        !stable ==> stability_spec(since, stable, now, min_dur).0 is None,
{
}

} // verus!
