//! Pacing of requests under a cap on requests per second: a request may go
//! at once when the fixed interval since the last granted request has
//! passed; otherwise it waits until it has. Instants and spans are
//! nanoseconds on one monotonic clock, counted from its start.
use vstd::prelude::*;

verus! {

/// What a request does under the cap.
#[derive(Debug, Clone, Copy, PartialEq, Eq)]
pub enum Pace {
    /// Go now; `stamp` becomes the last granted instant.
    Go { stamp: i64 },
    /// Wait `nanos`, then go; `stamp` becomes the last granted instant.
    Wait { nanos: i64, stamp: i64 },
}

/// The pace of a request at `now`, the last request having been granted at
/// `last` (none yet: `None`) and requests being `interval` apart.
pub open spec fn pace_spec(last: Option<i64>, now: i64, interval: i64) -> Pace {
    match last {
        None => Pace::Go { stamp: now },
        Some(l) => if now < l + interval {
            Pace::Wait { nanos: (l + interval - now) as i64, stamp: (l + interval) as i64 }
        } else {
            Pace::Go { stamp: now }
        },
    }
}

/// The instant a pace grants the request at.
pub open spec fn granted_at(p: Pace) -> int {
    match p {
        Pace::Go { stamp } => stamp as int,
        Pace::Wait { stamp, .. } => stamp as int,
    }
}

impl Pace {
    /// The instant the request is granted at: the new last granted instant,
    /// to be recorded as soon as the pace is decided.
    pub fn stamp(&self) -> (r: i64)
        ensures
            r as int == granted_at(*self),
    {
        match self {
            Pace::Go { stamp } => *stamp,
            Pace::Wait { stamp, .. } => *stamp,
        }
    }
}

/// Decides the pace of a request; the next allowed instant must be
/// representable (the monotonic clock panics past its range).
pub fn pace(last: Option<i64>, now: i64, interval: i64) -> (r: Pace)
    requires
        interval >= 0,
        now >= 0,
        last matches Some(l) ==> l + interval <= i64::MAX,
    ensures
        r == pace_spec(last, now, interval),
{
    match last {
        None => Pace::Go { stamp: now },
        Some(l) => {
            let next = l + interval;
            if now < next {
                Pace::Wait { nanos: next - now, stamp: next }
            } else {
                Pace::Go { stamp: now }
            }
        },
    }
}

/// Granted requests are at least the interval apart, no request is
/// granted before it asks, and a wait lasts exactly until the grant.
pub proof fn law_grants_spaced(last: Option<i64>, now: i64, interval: i64)
    requires
        interval >= 0,
        now >= 0,
        last matches Some(l) ==> l + interval <= i64::MAX,
    ensures
        last matches Some(l) ==> granted_at(pace_spec(last, now, interval)) >= l + interval,
        granted_at(pace_spec(last, now, interval)) >= now,
        pace_spec(last, now, interval) matches Pace::Wait { nanos, stamp } ==> nanos > 0 && now + nanos == stamp,
{
}

/// The instants granted to requests asking at the instants `ts`, in order,
/// each grant recorded as the last one as soon as it is decided.
pub open spec fn grants(ts: Seq<i64>, interval: i64) -> Seq<int>
    decreases ts.len(),
{
    if ts.len() == 0 {
        Seq::empty()
    } else {
        let g = grants(ts.drop_last(), interval);
        let last = if g.len() == 0 {
            None
        } else {
            Some(g.last() as i64)
        };
        g.push(granted_at(pace_spec(last, ts.last(), interval)))
    }
}

/// Law: requests asking at the instants `ts` (none after `bound`) one after
/// the other are granted in turn: the first when it asks, each later one
/// when it asks or one interval after the previous grant, whichever comes
/// later. So grants are at least the interval apart, and a request asking
/// an interval or more after the previous grant goes at once. Every grant
/// stays within the clock's range.
pub proof fn law_grants_in_sequence(ts: Seq<i64>, interval: i64, bound: i64)
    requires
        interval >= 0,
        forall|k: int| 0 <= k < ts.len() ==> 0 <= #[trigger] ts[k] <= bound,
        bound + ts.len() * interval <= i64::MAX,
    ensures
        grants(ts, interval).len() == ts.len(),
        ts.len() > 0 ==> grants(ts, interval)[0] == ts[0],
        forall|k: int|
            0 < k < ts.len() ==> #[trigger] grants(ts, interval)[k] == if ts[k] < grants(ts, interval)[k - 1]
                + interval {
                grants(ts, interval)[k - 1] + interval
            } else {
                ts[k] as int
            },
        forall|k: int| 0 <= k < ts.len() ==> #[trigger] grants(ts, interval)[k] >= ts[k],
        forall|k: int| 0 < k < ts.len() ==> #[trigger] grants(ts, interval)[k] >= grants(ts, interval)[k - 1] + interval,
        forall|k: int| 0 <= k < ts.len() ==> #[trigger] grants(ts, interval)[k] <= bound + k * interval,
    decreases ts.len(),
{
    if ts.len() > 0 {
        let pre = ts.drop_last();
        assert forall|k: int| 0 <= k < pre.len() implies 0 <= #[trigger] pre[k] <= bound by {
            assert(pre[k] == ts[k]);
        }
        assert(bound + pre.len() * interval <= bound + ts.len() * interval) by (nonlinear_arith)
            requires
                interval >= 0,
                pre.len() <= ts.len(),
        ;
        law_grants_in_sequence(pre, interval, bound);
        let g = grants(pre, interval);
        let n = pre.len() as int;
        assert(ts.last() == ts[n]);
        if n > 0 {
            assert(g.last() == g[n - 1]);
            assert(g[n - 1] + interval <= bound + n * interval) by (nonlinear_arith)
                requires
                    g[n - 1] <= bound + (n - 1) * interval,
            ;
            assert(bound + n * interval <= i64::MAX) by (nonlinear_arith)
                requires
                    bound + (n + 1) * interval <= i64::MAX,
                    interval >= 0,
            ;
        }
        assert(0 <= bound);
        assert(bound <= bound + n * interval) by (nonlinear_arith)
            requires
                interval >= 0,
                n >= 0,
        ;
        let r = grants(ts, interval);
        assert(r == g.push(r[n]));
        assert forall|k: int| 0 <= k < n implies r[k] == #[trigger] g[k] by {}
    }
}

} // verus!
