//! Time segments of a run: operations grouped by the fixed-length segment
//! their start falls in, with the counts of each segment. Rates and
//! averages over a segment are computed from these counts by the caller.
use vstd::prelude::*;
use crate::ops::{min_start, time_range, Operation};

verus! {

/// The whole milliseconds before an instant in nanoseconds (rounded down).
pub open spec fn millis_of(nanos: int) -> int {
    nanos / 1000000
}

/// `millis_of`, computed.
pub fn timestamp_millis(nanos: i64) -> (r: i64)
    ensures
        r == millis_of(nanos as int),
{
    let n = nanos as i128;
    let q: i128 = if n >= 0 {
        n / 1000000
    } else {
        -((-n - 1) / 1000000) - 1
    };
    assert(q == (n as int) / 1000000) by (nonlinear_arith)
        requires
            n >= 0 ==> q == n / 1000000,
            n < 0 ==> q == -((-n - 1) / 1000000) - 1,
    ;
    q as i64
}

/// The segment an operation starting at `start_ms` falls in.
pub open spec fn segment_index(start_ms: int, origin_ms: int, dur_ms: int) -> int {
    (start_ms - origin_ms) / dur_ms
}

/// The segment of each operation, in operation order.
pub open spec fn segment_indices(s: Seq<Operation>, origin_ms: int, dur_ms: int) -> Seq<int> {
    s.map_values(|o: Operation| segment_index(millis_of(o.start as int), origin_ms, dur_ms))
}

/// The positions of the operations in segment `k`, in operation order.
pub open spec fn members(ix: Seq<int>, k: int) -> Seq<nat>
    decreases ix.len(),
{
    if ix.len() == 0 {
        seq![]
    } else if ix.last() == k {
        members(ix.drop_last(), k).push((ix.len() - 1) as nat)
    } else {
        members(ix.drop_last(), k)
    }
}

/// Strictly increasing.
pub open spec fn increasing(s: Seq<int>) -> bool {
    forall|i: int, j: int| 0 <= i < j < s.len() ==> s[i] < s[j]
}

/// The segments of a run, each with the positions of its operations: the
/// occupied segments in increasing order, every one of them once.
pub open spec fn segments_ok(r: Seq<(int, Seq<nat>)>, ix: Seq<int>) -> bool {
    &&& increasing(r.map_values(|g: (int, Seq<nat>)| g.0))
    &&& forall|k: int| ix.contains(k) <==> exists|i: int| 0 <= i < r.len() && #[trigger] r[i].0 == k
    &&& forall|i: int| 0 <= i < r.len() ==> (#[trigger] r[i]).1 == members(ix, r[i].0)
}

/// Adds `k` to a strictly increasing list unless it is there.
fn insert_sorted(keys: &mut Vec<i64>, k: i64)
    requires
        increasing(old(keys)@.map_values(|x: i64| x as int)),
    ensures
        increasing(final(keys)@.map_values(|x: i64| x as int)),
        final(keys)@.to_set() == old(keys)@.to_set().insert(k),
{
    let ghost before = keys@;
    let mut p: usize = 0;
    while p < keys.len() && keys[p] < k
        invariant
            p <= keys@.len(),
            keys@ == before,
            forall|j: int| 0 <= j < p ==> keys@[j] < k,
        decreases keys@.len() - p,
    {
        p = p + 1;
    }
    if p < keys.len() && keys[p] == k {
        assert(keys@.to_set().insert(k) =~= keys@.to_set());
        return ;
    }
    proof {
        assert forall|j: int| p <= j < before.len() implies before[j] > k by {
            let a = before.map_values(|x: i64| x as int);
            if j > p {
                assert(a[p as int] < a[j]);
            }
        }
    }
    keys.insert(p, k);
    let ghost after = keys@;
    assert(increasing(after.map_values(|x: i64| x as int))) by {
        let a = before.map_values(|x: i64| x as int);
        let b = after.map_values(|x: i64| x as int);
        assert forall|i: int, j: int| 0 <= i < j < b.len() implies b[i] < b[j] by {
            if j < p {
                assert(b[i] == a[i] && b[j] == a[j]);
            } else if j == p {
                assert(b[i] == a[i]);
            } else if i < p {
                assert(b[i] == a[i] && b[j] == a[j - 1]);
            } else if i == p {
                assert(b[j] == a[j - 1]);
            } else {
                assert(b[i] == a[i - 1] && b[j] == a[j - 1]);
            }
        }
    }
    assert(after.to_set() =~= before.to_set().insert(k)) by {
        assert forall|x: i64| after.to_set().contains(x) implies before.to_set().insert(k).contains(x) by {
            let q = choose|q: int| 0 <= q < after.len() && after[q] == x;
            if q < p {
                assert(before[q] == x);
            } else if q > p {
                assert(before[q - 1] == x);
            }
        }
        assert forall|x: i64| before.to_set().insert(k).contains(x) implies after.to_set().contains(x) by {
            if x == k {
                assert(after[p as int] == x);
            } else {
                let q = choose|q: int| 0 <= q < before.len() && before[q] == x;
                if q < p {
                    assert(after[q] == x);
                } else {
                    assert(after[q + 1] == x);
                }
            }
        }
    }
}

/// The segment of each operation, for segments of `dur_ms` milliseconds
/// counted from `origin_ms`; each operation must start at or after the
/// origin.
pub fn segment_of_each(ops: &[Operation], origin_ms: i64, dur_ms: i64) -> (r: Vec<i64>)
    requires
        dur_ms > 0,
        origin_ms >= -9223372036855,
        forall|i: int| 0 <= i < ops@.len() ==> millis_of(ops@[i].start as int) >= origin_ms,
    ensures
        r@.map_values(|x: i64| x as int) == segment_indices(ops@, origin_ms as int, dur_ms as int),
{
    let mut r: Vec<i64> = Vec::new();
    let mut i: usize = 0;
    while i < ops.len()
        invariant
            i <= ops@.len(),
            dur_ms > 0,
            origin_ms >= -9223372036855,
            forall|k: int| 0 <= k < ops@.len() ==> millis_of(ops@[k].start as int) >= origin_ms,
            r@.map_values(|x: i64| x as int) == segment_indices(ops@.subrange(0, i as int), origin_ms as int, dur_ms as int),
        decreases ops@.len() - i,
    {
        let ms = timestamp_millis(ops[i].start);
        assert(ms >= origin_ms);
        assert(ms <= 9223372036854) by (nonlinear_arith)
            requires
                ms == millis_of(ops@[i as int].start as int),
                ops@[i as int].start <= i64::MAX,
        ;
        let diff = ms - origin_ms;
        let b = diff / dur_ms;
        let ghost before = r@;
        r.push(b);
        let ghost seg = segment_index(millis_of(ops@[i as int].start as int), origin_ms as int, dur_ms as int);
        assert(b as int == seg);
        assert(ops@.subrange(0, i + 1) =~= ops@.subrange(0, i as int).push(ops@[i as int]));
        assert(segment_indices(ops@.subrange(0, i + 1), origin_ms as int, dur_ms as int) =~= segment_indices(
            ops@.subrange(0, i as int),
            origin_ms as int,
            dur_ms as int,
        ).push(seg));
        assert(r@.map_values(|x: i64| x as int) =~= before.map_values(|x: i64| x as int).push(b as int));
        i = i + 1;
    }
    assert(ops@.subrange(0, ops@.len() as int) =~= ops@);
    r
}

/// The positions whose segment is `k`.
fn members_of(ix: &Vec<i64>, k: i64) -> (r: Vec<usize>)
    ensures
        r@.map_values(|x: usize| x as nat) == members(ix@.map_values(|x: i64| x as int), k as int),
{
    let ghost a = ix@.map_values(|x: i64| x as int);
    let mut r: Vec<usize> = Vec::new();
    let mut i: usize = 0;
    while i < ix.len()
        invariant
            i <= ix@.len(),
            a == ix@.map_values(|x: i64| x as int),
            r@.map_values(|x: usize| x as nat) == members(a.subrange(0, i as int), k as int),
        decreases ix@.len() - i,
    {
        assert(a.subrange(0, i + 1).drop_last() =~= a.subrange(0, i as int));
        assert(a.subrange(0, i + 1).last() == ix@[i as int] as int);
        if ix[i] == k {
            let ghost before = r@;
            r.push(i);
            assert(r@.map_values(|x: usize| x as nat) =~= before.map_values(|x: usize| x as nat).push(i as nat));
        }
        i = i + 1;
    }
    assert(a.subrange(0, ix@.len() as int) =~= a);
    r
}

/// The occupied segments in increasing order, each with the positions of
/// its operations in operation order.
pub fn group_by_segment(ix: &Vec<i64>) -> (r: Vec<(i64, Vec<usize>)>)
    ensures
        segments_ok(
            r@.map_values(|g: (i64, Vec<usize>)| (g.0 as int, g.1@.map_values(|x: usize| x as nat))),
            ix@.map_values(|x: i64| x as int),
        ),
{
    let ghost a = ix@.map_values(|x: i64| x as int);
    let mut keys: Vec<i64> = Vec::new();
    let mut i: usize = 0;
    while i < ix.len()
        invariant
            i <= ix@.len(),
            increasing(keys@.map_values(|x: i64| x as int)),
            keys@.to_set() == ix@.subrange(0, i as int).to_set(),
        decreases ix@.len() - i,
    {
        insert_sorted(&mut keys, ix[i]);
        assert(ix@.subrange(0, i + 1) =~= ix@.subrange(0, i as int).push(ix@[i as int]));
        proof {
            lemma_push_set(ix@.subrange(0, i as int), ix@[i as int]);
        }
        i = i + 1;
    }
    assert(ix@.subrange(0, ix@.len() as int) =~= ix@);
    let mut out: Vec<(i64, Vec<usize>)> = Vec::new();
    let mut j: usize = 0;
    while j < keys.len()
        invariant
            j <= keys@.len(),
            a == ix@.map_values(|x: i64| x as int),
            out@.len() == j,
            forall|q: int| 0 <= q < j ==> (#[trigger] out@[q]).0 == keys@[q],
            forall|q: int|
                0 <= q < j ==> (#[trigger] out@[q]).1@.map_values(|x: usize| x as nat) == members(
                    a,
                    out@[q].0 as int,
                ),
        decreases keys@.len() - j,
    {
        let m = members_of(ix, keys[j]);
        out.push((keys[j], m));
        j = j + 1;
    }
    let ghost rv = out@.map_values(|g: (i64, Vec<usize>)| (g.0 as int, g.1@.map_values(|x: usize| x as nat)));
    let ghost kv = keys@.map_values(|x: i64| x as int);
    assert(rv.map_values(|g: (int, Seq<nat>)| g.0) =~= kv);
    assert forall|k: int| a.contains(k) <==> exists|q: int| 0 <= q < rv.len() && #[trigger] rv[q].0 == k by {
        if a.contains(k) {
            let p = choose|p: int| 0 <= p < a.len() && a[p] == k;
            assert(ix@.to_set().contains(ix@[p]));
            let q = choose|q: int| 0 <= q < keys@.len() && keys@[q] == ix@[p];
            assert(rv[q].0 == k);
        }
        if exists|q: int| 0 <= q < rv.len() && #[trigger] rv[q].0 == k {
            let q = choose|q: int| 0 <= q < rv.len() && #[trigger] rv[q].0 == k;
            assert(keys@.to_set().contains(keys@[q]));
            let p = choose|p: int| 0 <= p < ix@.len() && ix@[p] == keys@[q];
            assert(a[p] == k);
        }
    }
    assert forall|q: int| 0 <= q < rv.len() implies (#[trigger] rv[q]).1 == members(a, rv[q].0) by {
        assert(out@[q].1@.map_values(|x: usize| x as nat) == members(a, out@[q].0 as int));
    }
    out
}

proof fn lemma_push_set<A>(s: Seq<A>, x: A)
    ensures
        s.push(x).to_set() == s.to_set().insert(x),
{
    assert(s.push(x).to_set() =~= s.to_set().insert(x)) by {
        assert forall|y: A| s.push(x).to_set().contains(y) implies s.to_set().insert(x).contains(y) by {
            let k = choose|k: int| 0 <= k < s.push(x).len() && s.push(x)[k] == y;
            if k < s.len() {
                assert(s[k] == y);
            }
        }
        assert forall|y: A| s.to_set().insert(x).contains(y) implies s.push(x).to_set().contains(y) by {
            if y == x {
                assert(s.push(x)[s.len() as int] == y);
            } else {
                let k = choose|k: int| 0 <= k < s.len() && s[k] == y;
                assert(s.push(x)[k] == y);
            }
        }
    }
}

/// The counts of one segment.
#[derive(Debug, Clone)]
pub struct SegmentCounts {
    pub total_bytes: i64,
    /// Objects moved (objects-per-operation summed).
    pub objects: u64,
    /// Operations that started and ended inside the segment.
    pub full_ops: usize,
    pub errors: usize,
    pub ops: usize,
}

/// The operations at the given positions.
pub open spec fn picked(s: Seq<Operation>, m: Seq<usize>) -> Seq<Operation> {
    m.map_values(|i: usize| s[i as int])
}

/// The byte total of some operations.
pub open spec fn bytes_of(s: Seq<Operation>) -> int
    decreases s.len(),
{
    if s.len() == 0 {
        0
    } else {
        bytes_of(s.drop_last()) + s.last().size
    }
}

/// The object total of some operations.
pub open spec fn objects_of(s: Seq<Operation>) -> int
    decreases s.len(),
{
    if s.len() == 0 {
        0
    } else {
        objects_of(s.drop_last()) + s.last().obj_per_op
    }
}

/// How many of some operations lie inside `[lo, hi]`.
pub open spec fn inside_count(s: Seq<Operation>, lo: int, hi: int) -> int
    decreases s.len(),
{
    if s.len() == 0 {
        0
    } else {
        inside_count(s.drop_last(), lo, hi) + if s.last().start >= lo && s.last().end <= hi {
            1int
        } else {
            0
        }
    }
}

/// How many of some operations failed.
pub open spec fn error_count(s: Seq<Operation>) -> int
    decreases s.len(),
{
    if s.len() == 0 {
        0
    } else {
        error_count(s.drop_last()) + if s.last().err@.len() != 0 {
            1int
        } else {
            0
        }
    }
}

proof fn lemma_counts_bounded(s: Seq<Operation>, lo: int, hi: int)
    ensures
        0 <= inside_count(s, lo, hi) <= s.len(),
        0 <= error_count(s) <= s.len(),
        0 <= objects_of(s) <= s.len() * 4294967295,
    decreases s.len(),
{
    if s.len() > 0 {
        lemma_counts_bounded(s.drop_last(), lo, hi);
    }
}

/// The counts of the operations at positions `m`, for a segment from `lo`
/// to `hi` (nanoseconds); the byte total must fit in an `i64`.
pub fn segment_counts(ops: &[Operation], m: &[usize], lo: i64, hi: i64) -> (r: SegmentCounts)
    requires
        forall|k: int| 0 <= k < m@.len() ==> (m@[k] as int) < ops@.len(),
        forall|k: int|
            0 <= k <= m@.len() ==> i64::MIN <= #[trigger] bytes_of(picked(ops@, m@.subrange(0, k))) <= i64::MAX,
        m@.len() * 4294967295 <= u64::MAX,
    ensures
        r.total_bytes == bytes_of(picked(ops@, m@)),
        r.objects == objects_of(picked(ops@, m@)),
        r.full_ops == inside_count(picked(ops@, m@), lo as int, hi as int),
        r.errors == error_count(picked(ops@, m@)),
        r.ops == m@.len(),
{
    let mut c = SegmentCounts { total_bytes: 0, objects: 0, full_ops: 0, errors: 0, ops: 0 };
    let mut i: usize = 0;
    assert(picked(ops@, m@.subrange(0, 0)) =~= Seq::<Operation>::empty());
    while i < m.len()
        invariant
            i <= m@.len(),
            forall|k: int| 0 <= k < m@.len() ==> (m@[k] as int) < ops@.len(),
            forall|k: int|
                0 <= k <= m@.len() ==> i64::MIN <= #[trigger] bytes_of(picked(ops@, m@.subrange(0, k))) <= i64::MAX,
            m@.len() * 4294967295 <= u64::MAX,
            c.total_bytes == bytes_of(picked(ops@, m@.subrange(0, i as int))),
            c.objects == objects_of(picked(ops@, m@.subrange(0, i as int))),
            c.full_ops == inside_count(picked(ops@, m@.subrange(0, i as int)), lo as int, hi as int),
            c.errors == error_count(picked(ops@, m@.subrange(0, i as int))),
            c.ops == i,
        decreases m@.len() - i,
    {
        let ghost p = picked(ops@, m@.subrange(0, i + 1));
        assert(p.drop_last() =~= picked(ops@, m@.subrange(0, i as int)));
        assert(p.last() == ops@[m@[i as int] as int]);
        assert(i64::MIN <= bytes_of(picked(ops@, m@.subrange(0, i + 1 as int))) <= i64::MAX);
        proof {
            lemma_counts_bounded(p, lo as int, hi as int);
            assert(p.len() * 4294967295 <= m@.len() * 4294967295) by (nonlinear_arith)
                requires
                    p.len() <= m@.len(),
            ;
        }
        let o = &ops[m[i]];
        c.total_bytes = c.total_bytes + o.size;
        c.objects = c.objects + o.obj_per_op as u64;
        if o.start >= lo && o.end <= hi {
            c.full_ops = c.full_ops + 1;
        }
        if !o.successful() {
            c.errors = c.errors + 1;
        }
        c.ops = c.ops + 1;
        i = i + 1;
    }
    assert(m@.subrange(0, m@.len() as int) =~= m@);
    c
}


// ---------------------------------------------------------------------------
// The segments of a run
// ---------------------------------------------------------------------------

/// `x` clamped to the `i64` range.
pub open spec fn clamp_i64(x: int) -> int {
    if x < i64::MIN {
        i64::MIN as int
    } else if x > i64::MAX {
        i64::MAX as int
    } else {
        x
    }
}

/// The operations at the given positions.
pub open spec fn picked_at(s: Seq<Operation>, m: Seq<nat>) -> Seq<Operation> {
    m.map_values(|i: nat| s[i as int])
}

/// Every running byte total of `s` fits in an `i64`, and its object total
/// fits in a `u64` whatever the objects per operation.
pub open spec fn totals_fit(s: Seq<Operation>) -> bool {
    &&& forall|k: int| 0 <= k <= s.len() ==> i64::MIN <= #[trigger] bytes_of(s.subrange(0, k)) <= i64::MAX
    &&& s.len() * 4294967295 <= u64::MAX
}

/// `c` holds the counts of `s` for a segment from `lo` to `hi` (nanoseconds).
pub open spec fn counts_of(c: SegmentCounts, s: Seq<Operation>, lo: int, hi: int) -> bool {
    &&& c.total_bytes == bytes_of(s)
    &&& c.objects == objects_of(s)
    &&& c.full_ops == inside_count(s, lo, hi)
    &&& c.errors == error_count(s)
    &&& c.ops == s.len()
}

/// Segment `k` of `dur` milliseconds from `origin` can be reported: its start
/// fits in an `i64` and so do the totals of its operations.
pub open spec fn reportable(s: Seq<Operation>, ix: Seq<int>, origin: int, dur: int, k: int) -> bool {
    &&& i64::MIN <= k * dur <= i64::MAX
    &&& i64::MIN <= origin + k * dur <= i64::MAX
    &&& totals_fit(picked_at(s, members(ix, k)))
}

/// The starts of the reported segments.
pub open spec fn segment_starts(r: Seq<(i64, SegmentCounts)>) -> Seq<int> {
    r.map_values(|e: (i64, SegmentCounts)| e.0 as int)
}

/// `r` is the report of the segments of `s`: for every occupied segment `k`
/// that can be reported, in increasing order, its start in milliseconds and
/// the counts of its operations, over the segment's span in nanoseconds
/// (clamped to the `i64` range).
pub open spec fn segments_report(r: Seq<(i64, SegmentCounts)>, s: Seq<Operation>, origin: int, dur: int) -> bool {
    &&& increasing(segment_starts(r))
    &&& report_sound(r, s, segment_indices(s, origin, dur), origin, dur)
    &&& report_complete(r, s, segment_indices(s, origin, dur), origin, dur)
}

/// The segment index of a segment starting at `start_ms`.
pub open spec fn index_of_start(start_ms: int, origin: int, dur: int) -> int {
    (start_ms - origin) / dur
}

/// Every reported segment is an occupied segment (of the segment indices
/// `ix` of `s`) that can be reported, with its start and the counts of its
/// operations.
pub open spec fn report_sound(r: Seq<(i64, SegmentCounts)>, s: Seq<Operation>, ix: Seq<int>, origin: int, dur: int) -> bool {
    forall|i: int|
        0 <= i < r.len() ==> {
            let k = index_of_start((#[trigger] r[i]).0 as int, origin, dur);
            &&& ix.contains(k)
            &&& reportable(s, ix, origin, dur, k)
            &&& r[i].0 == origin + k * dur
            &&& counts_of(
                r[i].1,
                picked_at(s, members(ix, k)),
                clamp_i64(r[i].0 * 1000000),
                clamp_i64(clamp_i64(r[i].0 + dur) * 1000000),
            )
        }
}

/// Every occupied segment (of the segment indices `ix` of `s`) that can be
/// reported is reported.
pub open spec fn report_complete(r: Seq<(i64, SegmentCounts)>, s: Seq<Operation>, ix: Seq<int>, origin: int, dur: int) -> bool {
    forall|k: int|
        ix.contains(k) && reportable(s, ix, origin, dur, k) ==> exists|i: int|
            0 <= i < r.len() && #[trigger] r[i].0 == origin + k * dur
}

proof fn lemma_min_start_le(s: Seq<Operation>, i: int)
    requires
        0 <= i < s.len(),
    ensures
        min_start(s) <= s[i].start,
    decreases s.len(),
{
    if s.len() > 1 && i < s.len() - 1 {
        lemma_min_start_le(s.drop_last(), i);
    }
}

proof fn lemma_members_bound(ix: Seq<int>, k: int)
    ensures
        forall|j: int| 0 <= j < members(ix, k).len() ==> #[trigger] members(ix, k)[j] < ix.len(),
    decreases ix.len(),
{
    if ix.len() > 0 {
        lemma_members_bound(ix.drop_last(), k);
        let pre = members(ix.drop_last(), k);
        assert forall|j: int| 0 <= j < members(ix, k).len() implies #[trigger] members(ix, k)[j] < ix.len() by {
            if j < pre.len() {
                assert(members(ix, k)[j] == pre[j]);
            }
        }
    }
}

proof fn lemma_min_start_range(s: Seq<Operation>)
    requires
        s.len() > 0,
    ensures
        i64::MIN <= min_start(s) <= i64::MAX,
    decreases s.len(),
{
    if s.len() > 1 {
        lemma_min_start_range(s.drop_last());
    }
}

proof fn lemma_scaled_increasing(ks: Seq<int>, origin: int, dur: int)
    requires
        increasing(ks),
        dur > 0,
    ensures
        increasing(ks.map_values(|k: int| origin + k * dur)),
{
    let v = ks.map_values(|k: int| origin + k * dur);
    assert forall|x: int, y: int| 0 <= x < y < v.len() implies v[x] < v[y] by {
        let (kx, ky) = (ks[x], ks[y]);
        assert(kx * dur < ky * dur) by (nonlinear_arith)
            requires
                kx < ky,
                dur > 0,
        ;
    }
}

/// `clamp_i64`, computed.
fn clamp_to_i64(x: i128) -> (r: i64)
    ensures
        r == clamp_i64(x as int),
{
    if x < i64::MIN as i128 {
        i64::MIN
    } else if x > i64::MAX as i128 {
        i64::MAX
    } else {
        x as i64
    }
}

/// Whether every running byte total of the operations at positions `m`
/// fits in an `i64`.
fn bytes_fit(ops: &[Operation], m: &Vec<usize>) -> (r: bool)
    requires
        forall|k: int| 0 <= k < m@.len() ==> (m@[k] as int) < ops@.len(),
    ensures
        r <==> forall|k: int|
            0 <= k <= m@.len() ==> i64::MIN <= #[trigger] bytes_of(picked(ops@, m@.subrange(0, k))) <= i64::MAX,
{
    let mut acc: i64 = 0;
    let mut i: usize = 0;
    assert(picked(ops@, m@.subrange(0, 0)) =~= Seq::<Operation>::empty());
    while i < m.len()
        invariant
            i <= m@.len(),
            forall|k: int| 0 <= k < m@.len() ==> (m@[k] as int) < ops@.len(),
            acc == bytes_of(picked(ops@, m@.subrange(0, i as int))),
            forall|k: int|
                0 <= k <= i ==> i64::MIN <= #[trigger] bytes_of(picked(ops@, m@.subrange(0, k))) <= i64::MAX,
        decreases m@.len() - i,
    {
        let ghost p = picked(ops@, m@.subrange(0, i + 1));
        assert(p.drop_last() =~= picked(ops@, m@.subrange(0, i as int)));
        assert(p.last() == ops@[m@[i as int] as int]);
        match acc.checked_add(ops[m[i]].size) {
            Some(v) => {
                acc = v;
            },
            None => {
                assert(!(i64::MIN <= bytes_of(picked(ops@, m@.subrange(0, i + 1))) <= i64::MAX));
                return false;
            },
        }
        i = i + 1;
    }
    true
}

/// The occupied segments of `dur_ms` milliseconds counted from the first
/// start (in milliseconds), in increasing order, each with its start and the
/// counts of its operations; a segment whose start or totals do not fit is
/// left out. No segments for no operations or a duration that is not
/// positive, nor when the first start lies so far before the epoch that its
/// milliseconds do not fit in an `i64` as nanoseconds.
pub fn run_segments(ops: &[Operation], dur_ms: i64) -> (r: Vec<(i64, SegmentCounts)>)
    ensures
        ops@.len() == 0 || dur_ms <= 0 || millis_of(min_start(ops@)) < -9223372036855 ==> r@.len() == 0,
        ops@.len() > 0 && dur_ms > 0 && millis_of(min_start(ops@)) >= -9223372036855 ==> segments_report(
            r@,
            ops@,
            millis_of(min_start(ops@)),
            dur_ms as int,
        ),
{
    let first = match time_range(ops) {
        Some(t) => t.0,
        None => return Vec::new(),
    };
    proof {
        lemma_min_start_range(ops@);
    }
    assert(first as int == min_start(ops@));
    if dur_ms <= 0 {
        return Vec::new();
    }
    let origin = timestamp_millis(first);
    if origin < -9223372036855 {
        return Vec::new();
    }
    proof {
        assert forall|i: int| 0 <= i < ops@.len() implies millis_of(ops@[i].start as int) >= origin by {
            lemma_min_start_le(ops@, i);
            vstd::arithmetic::div_mod::lemma_div_is_ordered(min_start(ops@), ops@[i].start as int, 1000000);
        }
    }
    let ix = segment_of_each(ops, origin, dur_ms);
    let groups = group_by_segment(&ix);
    let ghost a = ix@.map_values(|x: i64| x as int);
    let ghost g = groups@.map_values(|e: (i64, Vec<usize>)| (e.0 as int, e.1@.map_values(|x: usize| x as nat)));
    let ghost gk = g.map_values(|e: (int, Seq<nat>)| e.0);
    let ghost ov = origin as int;
    let ghost dv = dur_ms as int;
    assert(a == segment_indices(ops@, ov, dv));
    let mut out: Vec<(i64, SegmentCounts)> = Vec::new();
    let ghost mut ks: Seq<int> = Seq::empty();
    let mut j: usize = 0;
    while j < groups.len()
        invariant
            j <= groups@.len(),
            dur_ms > 0,
            ov == origin,
            dv == dur_ms,
            a == ix@.map_values(|x: i64| x as int),
            a.len() == ops@.len(),
            a == segment_indices(ops@, ov, dv),
            ov == millis_of(min_start(ops@)),
            g == groups@.map_values(|e: (i64, Vec<usize>)| (e.0 as int, e.1@.map_values(|x: usize| x as nat))),
            gk == g.map_values(|e: (int, Seq<nat>)| e.0),
            segments_ok(g, a),
            ks.len() == out@.len(),
            increasing(ks),
            j < g.len() ==> forall|q: int| 0 <= q < ks.len() ==> #[trigger] ks[q] < gk[j as int],
            forall|q: int| 0 <= q < ks.len() ==> out@[q].0 == ov + #[trigger] ks[q] * dv,
            forall|q: int|
                0 <= q < ks.len() ==> a.contains(#[trigger] ks[q]) && reportable(ops@, a, ov, dv, ks[q])
                    && counts_of(
                    out@[q].1,
                    picked_at(ops@, members(a, ks[q])),
                    clamp_i64(out@[q].0 * 1000000),
                    clamp_i64(clamp_i64(out@[q].0 + dv) * 1000000),
                ),
            forall|p: int| 0 <= p < j && reportable(ops@, a, ov, dv, #[trigger] gk[p]) ==> ks.contains(gk[p]),
        decreases groups@.len() - j,
    {
        let k = groups[j].0;
        let m = &groups[j].1;
        let ghost ps = picked_at(ops@, members(a, k as int));
        proof {
            assert(gk[j as int] == k as int);
            assert(g[j as int].1 == members(a, k as int));
            assert(g[j as int].1 == m@.map_values(|x: usize| x as nat));
            lemma_members_bound(a, k as int);
            assert forall|t: int| 0 <= t < m@.len() implies (m@[t] as int) < ops@.len() by {
                assert(members(a, k as int)[t] == m@[t] as nat);
            }
            assert forall|t: int| 0 <= t <= m@.len() implies #[trigger] picked(ops@, m@.subrange(0, t)) =~= ps.subrange(0, t) by {
                assert forall|u: int| 0 <= u < t implies picked(ops@, m@.subrange(0, t))[u] == ps.subrange(0, t)[u] by {
                    assert(members(a, k as int)[u] == m@[u] as nat);
                }
            }
            assert(picked(ops@, m@.subrange(0, m@.len() as int)) =~= ps.subrange(0, m@.len() as int));
            assert(m@.subrange(0, m@.len() as int) =~= m@);
            assert(ps.subrange(0, ps.len() as int) =~= ps);
            assert(a.contains(k as int)) by {
                assert(0 <= j < g.len() && g[j as int].0 == k as int);
            }
        }
        let start = match k.checked_mul(dur_ms) {
            Some(v) => v.checked_add(origin),
            None => None,
        };
        let bytes_ok = bytes_fit(ops, m);
        let fits = bytes_ok && m.len() as u128 * 4294967295u128 <= u64::MAX as u128;
        proof {
            if fits {
                assert forall|t: int| 0 <= t <= ps.len() implies i64::MIN <= #[trigger] bytes_of(ps.subrange(0, t)) <= i64::MAX by {
                    assert(picked(ops@, m@.subrange(0, t)) =~= ps.subrange(0, t));
                }
            }
            if totals_fit(ps) {
                assert forall|t: int| 0 <= t <= m@.len() implies i64::MIN <= #[trigger] bytes_of(picked(ops@, m@.subrange(0, t))) <= i64::MAX by {
                    assert(picked(ops@, m@.subrange(0, t)) =~= ps.subrange(0, t));
                }
            }
            assert(fits <==> totals_fit(ps));
            assert((start is Some && fits) <==> reportable(ops@, a, ov, dv, k as int));
        }
        let ghost ks0 = ks;
        match start {
            Some(st) => {
                if fits {
                    let lo = clamp_to_i64(st as i128 * 1000000);
                    let hi = clamp_to_i64(clamp_to_i64(st as i128 + dur_ms as i128) as i128 * 1000000);
                    let c = segment_counts(ops, m.as_slice(), lo, hi);
                    out.push((st, c));
                    proof {
                        ks = ks.push(k as int);
                        assert(picked(ops@, m@) =~= ps);
                    }
                }
            },
            None => {},
        }
        proof {
            if j + 1 < g.len() {
                assert(gk[j as int] < gk[j + 1]);
            }
            assert forall|p: int| 0 <= p < j + 1 && reportable(ops@, a, ov, dv, #[trigger] gk[p]) implies ks.contains(gk[p]) by {
                if p == j {
                    assert(ks == ks0.push(k as int));
                    assert(ks[ks.len() - 1] == gk[p]);
                } else {
                    assert(ks0.contains(gk[p]));
                    let q = choose|q: int| 0 <= q < ks0.len() && ks0[q] == gk[p];
                    assert(ks[q] == ks0[q]);
                }
            }
        }
        j = j + 1;
    }
    proof {
        lemma_scaled_increasing(ks, ov, dv);
        assert(segment_starts(out@) =~= ks.map_values(|k: int| ov + k * dv));
        assert forall|i: int| 0 <= i < out@.len() implies index_of_start(
            (#[trigger] out@[i]).0 as int,
            ov,
            dv,
        ) == ks[i] by {
            let k = ks[i];
            assert(out@[i].0 == ov + k * dv);
            assert((ov + k * dv - ov) / dv == k) by (nonlinear_arith)
                requires
                    dv > 0,
            ;
        }
        assert forall|k: int| a.contains(k) && reportable(ops@, a, ov, dv, k) implies exists|i: int|
            0 <= i < out@.len() && #[trigger] out@[i].0 == ov + k * dv by {
            let p = choose|p: int| 0 <= p < g.len() && #[trigger] g[p].0 == k;
            assert(gk[p] == k);
            let q = choose|q: int| 0 <= q < ks.len() && ks[q] == k;
            assert(out@[q].0 == ov + ks[q] * dv);
        }
        assert(increasing(segment_starts(out@)));
        assert(report_sound(out@, ops@, a, ov, dv));
        assert(report_complete(out@, ops@, a, ov, dv));
    }
    out
}

} // verus!
