//! Recorded operations: one request and its response each, with the
//! selections and summaries the analysis makes of a run's operations.
//!
//! Instants are nanoseconds since the Unix epoch (UTC); spans are
//! nanoseconds.
use vstd::prelude::*;
use crate::text::{str_eq, str_is_empty, views};

verus! {

broadcast use vstd::string::group_string_axioms;

/// One request and its response.
#[derive(Debug, Clone)]
pub struct Operation {
    pub start: i64,
    pub end: i64,
    pub first_byte: Option<i64>,
    pub last_byte: Option<i64>,
    pub op_type: String,
    /// The error text; empty for a success.
    pub err: String,
    pub file: String,
    pub client_id: String,
    pub endpoint: String,
    pub obj_per_op: u32,
    pub size: i64,
    pub thread: u32,
    pub categories: u64,
}

/// The span from `a` to `b`, zero when `b` is before `a`.
pub open spec fn span(a: i64, b: i64) -> nat {
    if b >= a {
        (b - a) as nat
    } else {
        0
    }
}

/// The span from `a` to `b`, zero when `b` is before `a`.
pub fn span_nanos(a: i64, b: i64) -> (r: u64)
    ensures
        r == span(a, b),
{
    if b >= a {
        (b as i128 - a as i128) as u64
    } else {
        0
    }
}

impl Operation {
    /// A field-by-field copy.
    pub fn copy(&self) -> (r: Operation)
        ensures
            r == *self,
    {
        Operation {
            start: self.start,
            end: self.end,
            first_byte: self.first_byte,
            last_byte: self.last_byte,
            op_type: self.op_type.clone(),
            err: self.err.clone(),
            file: self.file.clone(),
            client_id: self.client_id.clone(),
            endpoint: self.endpoint.clone(),
            obj_per_op: self.obj_per_op,
            size: self.size,
            thread: self.thread,
            categories: self.categories,
        }
    }

    /// How long the request took (zero if it ended before it started).
    pub fn duration(&self) -> (r: u64)
        ensures
            r == span(self.start, self.end),
    {
        span_nanos(self.start, self.end)
    }

    /// The time to the first byte, where one was recorded.
    pub fn ttfb(&self) -> (r: Option<u64>)
        ensures
            match self.first_byte {
                Some(fb) => r == Some(span(self.start, fb) as u64),
                None => r is None,
            },
    {
        match self.first_byte {
            Some(fb) => Some(span_nanos(self.start, fb)),
            None => None,
        }
    }

    /// Whether the request succeeded: it has no error text.
    pub fn successful(&self) -> (r: bool)
        ensures
            r == (self.err@.len() == 0),
    {
        str_is_empty(self.err.as_str())
    }
}

// ---------------------------------------------------------------------------
// Selections
// ---------------------------------------------------------------------------

/// Which operations a selection keeps.
pub enum Keep {
    OpType(Seq<char>),
    Endpoint(Seq<char>),
    Successful,
    Failed,
    /// Started at or after the first bound and ended at or before the second.
    Inside(int, int),
}

/// Whether selection `k` keeps `o`.
pub open spec fn keeps(k: Keep, o: Operation) -> bool {
    match k {
        Keep::OpType(t) => o.op_type@ == t,
        Keep::Endpoint(e) => o.endpoint@ == e,
        Keep::Successful => o.err@.len() == 0,
        Keep::Failed => o.err@.len() != 0,
        Keep::Inside(a, b) => o.start >= a && o.end <= b,
    }
}

/// The operations of `s` that `k` keeps, in their order.
pub open spec fn select(s: Seq<Operation>, k: Keep) -> Seq<Operation>
    decreases s.len(),
{
    if s.len() == 0 {
        seq![]
    } else if keeps(k, s.last()) {
        select(s.drop_last(), k).push(s.last())
    } else {
        select(s.drop_last(), k)
    }
}

/// A selection, as the program runs it.
pub enum Selector<'a> {
    OpType(&'a str),
    Endpoint(&'a str),
    Successful,
    Failed,
    Inside(i64, i64),
}

/// The selection a selector makes.
pub open spec fn selector_keep(f: Selector) -> Keep {
    match f {
        Selector::OpType(t) => Keep::OpType(t@),
        Selector::Endpoint(e) => Keep::Endpoint(e@),
        Selector::Successful => Keep::Successful,
        Selector::Failed => Keep::Failed,
        Selector::Inside(a, b) => Keep::Inside(a as int, b as int),
    }
}

fn selector_keeps(f: &Selector, o: &Operation) -> (r: bool)
    ensures
        r == keeps(selector_keep(*f), *o),
{
    match f {
        Selector::OpType(t) => str_eq(o.op_type.as_str(), t),
        Selector::Endpoint(e) => str_eq(o.endpoint.as_str(), e),
        Selector::Successful => o.successful(),
        Selector::Failed => !o.successful(),
        Selector::Inside(a, b) => o.start >= *a && o.end <= *b,
    }
}

/// Copies of the operations a selector keeps, in their order.
pub fn select_ops(ops: &[Operation], f: Selector) -> (r: Vec<Operation>)
    ensures
        r@ == select(ops@, selector_keep(f)),
{
    let mut r: Vec<Operation> = Vec::new();
    let mut i: usize = 0;
    while i < ops.len()
        invariant
            i <= ops@.len(),
            r@ == select(ops@.subrange(0, i as int), selector_keep(f)),
        decreases ops@.len() - i,
    {
        let ghost pre = ops@.subrange(0, i as int);
        assert(ops@.subrange(0, i + 1).drop_last() =~= pre);
        assert(ops@.subrange(0, i + 1).last() == ops@[i as int]);
        if selector_keeps(&f, &ops[i]) {
            r.push(ops[i].copy());
        }
        i = i + 1;
    }
    assert(ops@.subrange(0, ops@.len() as int) =~= ops@);
    r
}

/// The operations of the given type.
pub fn filter_by_op(ops: &[Operation], op: &str) -> (r: Vec<Operation>)
    ensures
        r@ == select(ops@, Keep::OpType(op@)),
{
    select_ops(ops, Selector::OpType(op))
}

/// The operations sent to the given endpoint.
pub fn filter_by_endpoint(ops: &[Operation], ep: &str) -> (r: Vec<Operation>)
    ensures
        r@ == select(ops@, Keep::Endpoint(ep@)),
{
    select_ops(ops, Selector::Endpoint(ep))
}

/// The successful operations.
pub fn filter_successful(ops: &[Operation]) -> (r: Vec<Operation>)
    ensures
        r@ == select(ops@, Keep::Successful),
{
    select_ops(ops, Selector::Successful)
}

/// The failed operations.
pub fn filter_errors(ops: &[Operation]) -> (r: Vec<Operation>)
    ensures
        r@ == select(ops@, Keep::Failed),
{
    select_ops(ops, Selector::Failed)
}

/// The operations that started at or after `start` and ended at or before
/// `end`.
pub fn filter_inside_range(ops: &[Operation], start: i64, end: i64) -> (r: Vec<Operation>)
    ensures
        r@ == select(ops@, Keep::Inside(start as int, end as int)),
{
    select_ops(ops, Selector::Inside(start, end))
}

/// Every operation is either successful or failed: the two selections
/// together are as many as the operations.
pub proof fn law_success_split(s: Seq<Operation>)
    ensures
        select(s, Keep::Successful).len() + select(s, Keep::Failed).len() == s.len(),
    decreases s.len(),
{
    if s.len() > 0 {
        law_success_split(s.drop_last());
    }
}

/// A selection keeps only what it should, and nothing twice: its result is
/// no longer than the operations, and each kept operation passes the test.
pub proof fn law_selection_sound(s: Seq<Operation>, k: Keep)
    ensures
        select(s, k).len() <= s.len(),
        forall|i: int| 0 <= i < select(s, k).len() ==> keeps(k, #[trigger] select(s, k)[i]),
    decreases s.len(),
{
    if s.len() > 0 {
        law_selection_sound(s.drop_last(), k);
    }
}

// ---------------------------------------------------------------------------
// Summaries
// ---------------------------------------------------------------------------

/// The smallest size of `s` (`s` not empty).
pub open spec fn min_size(s: Seq<Operation>) -> int
    decreases s.len(),
{
    if s.len() <= 1 {
        s[0].size as int
    } else {
        let m = min_size(s.drop_last());
        if s.last().size < m {
            s.last().size as int
        } else {
            m
        }
    }
}

/// The largest size of `s` (`s` not empty).
pub open spec fn max_size(s: Seq<Operation>) -> int
    decreases s.len(),
{
    if s.len() <= 1 {
        s[0].size as int
    } else {
        let m = max_size(s.drop_last());
        if s.last().size > m {
            s.last().size as int
        } else {
            m
        }
    }
}

/// The earliest start of `s` (`s` not empty).
pub open spec fn min_start(s: Seq<Operation>) -> int
    decreases s.len(),
{
    if s.len() <= 1 {
        s[0].start as int
    } else {
        let m = min_start(s.drop_last());
        if s.last().start < m {
            s.last().start as int
        } else {
            m
        }
    }
}

/// The latest end of `s` (`s` not empty).
pub open spec fn max_end(s: Seq<Operation>) -> int
    decreases s.len(),
{
    if s.len() <= 1 {
        s[0].end as int
    } else {
        let m = max_end(s.drop_last());
        if s.last().end > m {
            s.last().end as int
        } else {
            m
        }
    }
}

/// The smallest and the largest object size, for a non-empty list.
pub fn min_max_size(ops: &[Operation]) -> (r: Option<(i64, i64)>)
    ensures
        ops@.len() == 0 ==> r is None,
        ops@.len() > 0 ==> r == Some((min_size(ops@) as i64, max_size(ops@) as i64)),
{
    if ops.len() == 0 {
        return None;
    }
    let mut lo: i64 = ops[0].size;
    let mut hi: i64 = ops[0].size;
    let mut i: usize = 1;
    while i < ops.len()
        invariant
            1 <= i <= ops@.len(),
            lo == min_size(ops@.subrange(0, i as int)),
            hi == max_size(ops@.subrange(0, i as int)),
        decreases ops@.len() - i,
    {
        assert(ops@.subrange(0, i + 1).drop_last() =~= ops@.subrange(0, i as int));
        if ops[i].size < lo {
            lo = ops[i].size;
        }
        if ops[i].size > hi {
            hi = ops[i].size;
        }
        i = i + 1;
    }
    assert(ops@.subrange(0, ops@.len() as int) =~= ops@);
    Some((lo, hi))
}

/// The earliest start and the latest end, for a non-empty list.
pub fn time_range(ops: &[Operation]) -> (r: Option<(i64, i64)>)
    ensures
        ops@.len() == 0 ==> r is None,
        ops@.len() > 0 ==> r == Some((min_start(ops@) as i64, max_end(ops@) as i64)),
{
    if ops.len() == 0 {
        return None;
    }
    let mut lo: i64 = ops[0].start;
    let mut hi: i64 = ops[0].end;
    let mut i: usize = 1;
    while i < ops.len()
        invariant
            1 <= i <= ops@.len(),
            lo == min_start(ops@.subrange(0, i as int)),
            hi == max_end(ops@.subrange(0, i as int)),
        decreases ops@.len() - i,
    {
        assert(ops@.subrange(0, i + 1).drop_last() =~= ops@.subrange(0, i as int));
        if ops[i].start < lo {
            lo = ops[i].start;
        }
        if ops[i].end > hi {
            hi = ops[i].end;
        }
        i = i + 1;
    }
    assert(ops@.subrange(0, ops@.len() as int) =~= ops@);
    Some((lo, hi))
}

/// The extreme sizes bound every size of a non-empty list, and are sizes
/// of it.
pub proof fn law_min_max_bound(s: Seq<Operation>)
    requires
        s.len() > 0,
    ensures
        forall|i: int| 0 <= i < s.len() ==> min_size(s) <= #[trigger] s[i].size <= max_size(s),
        exists|i: int| 0 <= i < s.len() && s[i].size == min_size(s),
        exists|i: int| 0 <= i < s.len() && s[i].size == max_size(s),
    decreases s.len(),
{
    if s.len() > 1 {
        law_min_max_bound(s.drop_last());
        assert forall|i: int| 0 <= i < s.len() implies min_size(s) <= #[trigger] s[i].size <= max_size(s) by {
            if i < s.len() - 1 {
                assert(s[i] == s.drop_last()[i]);
            }
        }
        let a = choose|i: int| 0 <= i < s.drop_last().len() && s.drop_last()[i].size == min_size(s.drop_last());
        let b = choose|i: int| 0 <= i < s.drop_last().len() && s.drop_last()[i].size == max_size(s.drop_last());
        assert(s[a] == s.drop_last()[a]);
        assert(s[b] == s.drop_last()[b]);
        if s.last().size < min_size(s.drop_last()) {
            assert(s[s.len() - 1].size == min_size(s));
        } else {
            assert(s[a].size == min_size(s));
        }
        if s.last().size > max_size(s.drop_last()) {
            assert(s[s.len() - 1].size == max_size(s));
        } else {
            assert(s[b].size == max_size(s));
        }
    } else {
        assert(s[0].size == min_size(s));
    }
}

/// The total of the request durations of `s`.
pub open spec fn total_span(s: Seq<Operation>) -> nat
    decreases s.len(),
{
    if s.len() == 0 {
        0
    } else {
        total_span(s.drop_last()) + span(s.last().start, s.last().end)
    }
}

/// The summed request durations; the sum must fit in a `u64` of nanoseconds.
pub fn total_duration(ops: &[Operation]) -> (r: u64)
    requires
        total_span(ops@) <= u64::MAX,
    ensures
        r == total_span(ops@),
{
    let mut t: u64 = 0;
    let mut i: usize = 0;
    while i < ops.len()
        invariant
            i <= ops@.len(),
            t == total_span(ops@.subrange(0, i as int)),
            total_span(ops@) <= u64::MAX,
        decreases ops@.len() - i,
    {
        assert(ops@.subrange(0, i + 1).drop_last() =~= ops@.subrange(0, i as int));
        proof {
            lemma_total_span_prefix(ops@, (i + 1) as nat);
        }
        t = t + ops[i].duration();
        i = i + 1;
    }
    assert(ops@.subrange(0, ops@.len() as int) =~= ops@);
    t
}

proof fn lemma_total_span_prefix(s: Seq<Operation>, n: nat)
    requires
        n <= s.len(),
    ensures
        total_span(s.subrange(0, n as int)) <= total_span(s),
    decreases s.len() - n,
{
    if n < s.len() {
        lemma_total_span_prefix(s, n + 1);
        assert(s.subrange(0, n + 1 as int).drop_last() =~= s.subrange(0, n as int));
    } else {
        assert(s.subrange(0, n as int) =~= s);
    }
}

// ---------------------------------------------------------------------------
// Distinct values
// ---------------------------------------------------------------------------

/// The set of worker ids of `s`.
pub open spec fn thread_set(s: Seq<Operation>) -> Set<u32>
    decreases s.len(),
{
    if s.len() == 0 {
        Set::empty()
    } else {
        thread_set(s.drop_last()).insert(s.last().thread)
    }
}

/// The set of endpoints of `s`.
pub open spec fn endpoint_set(s: Seq<Operation>) -> Set<Seq<char>>
    decreases s.len(),
{
    if s.len() == 0 {
        Set::empty()
    } else {
        endpoint_set(s.drop_last()).insert(s.last().endpoint@)
    }
}

/// The set of client ids of `s`.
pub open spec fn client_set(s: Seq<Operation>) -> Set<Seq<char>>
    decreases s.len(),
{
    if s.len() == 0 {
        Set::empty()
    } else {
        client_set(s.drop_last()).insert(s.last().client_id@)
    }
}

proof fn lemma_push_to_set<A>(s: Seq<A>, x: A)
    ensures
        s.push(x).to_set() == s.to_set().insert(x),
{
    assert(s.push(x).to_set() =~= s.to_set().insert(x)) by {
        assert forall|y: A| s.push(x).to_set().contains(y) implies s.to_set().insert(x).contains(y) by {
            let k = choose|k: int| 0 <= k < s.push(x).len() && s.push(x)[k] == y;
            if k < s.len() {
                assert(s[k] == y);
            }
        }
        assert forall|y: A| s.to_set().insert(x).contains(y) implies s.push(x).to_set().contains(y) by {
            if y == x {
                assert(s.push(x)[s.len() as int] == y);
            } else {
                let k = choose|k: int| 0 <= k < s.len() && s[k] == y;
                assert(s.push(x)[k] == y);
            }
        }
    }
}

proof fn lemma_push_no_dup<A>(s: Seq<A>, x: A)
    requires
        s.no_duplicates(),
        !s.contains(x),
    ensures
        s.push(x).no_duplicates(),
{
    assert forall|a: int, b: int| 0 <= a < s.push(x).len() && 0 <= b < s.push(x).len() && a != b implies s.push(
        x,
    )[a] != s.push(x)[b] by {
        if a < s.len() && b < s.len() {
            assert(s.push(x)[a] == s[a]);
            assert(s.push(x)[b] == s[b]);
        } else if a < s.len() {
            assert(s.push(x)[a] == s[a]);
        } else if b < s.len() {
            assert(s.push(x)[b] == s[b]);
        }
    }
}

/// The number of distinct worker ids.
pub fn threads(ops: &[Operation]) -> (r: usize)
    ensures
        r == thread_set(ops@).len(),
{
    let mut seen: Vec<u32> = Vec::new();
    let mut i: usize = 0;
    while i < ops.len()
        invariant
            i <= ops@.len(),
            seen@.no_duplicates(),
            seen@.to_set() == thread_set(ops@.subrange(0, i as int)),
        decreases ops@.len() - i,
    {
        let t = ops[i].thread;
        assert(ops@.subrange(0, i + 1).drop_last() =~= ops@.subrange(0, i as int));
        let mut j: usize = 0;
        let mut found = false;
        while j < seen.len()
            invariant
                j <= seen@.len(),
                found == seen@.subrange(0, j as int).contains(t),
            decreases seen@.len() - j,
        {
            proof {
                assert(seen@.subrange(0, j + 1) =~= seen@.subrange(0, j as int).push(seen@[j as int]));
                lemma_push_to_set(seen@.subrange(0, j as int), seen@[j as int]);
            }
            if seen[j] == t {
                found = true;
            }
            j = j + 1;
            assert(seen@.subrange(0, j as int).to_set().contains(t) == seen@.subrange(0, j as int).contains(t));
        }
        assert(seen@.subrange(0, seen@.len() as int) =~= seen@);
        proof {
            lemma_push_to_set(seen@, t);
        }
        if !found {
            proof {
                lemma_push_no_dup(seen@, t);
            }
            seen.push(t);
        } else {
            assert(seen@.to_set().contains(t));
            assert(seen@.to_set().insert(t) =~= seen@.to_set());
        }
        i = i + 1;
    }
    assert(ops@.subrange(0, ops@.len() as int) =~= ops@);
    proof {
        seen@.unique_seq_to_set();
    }
    seen.len()
}

/// Adds `v` to `seen` unless a string with the same characters is there.
fn insert_unique(seen: &mut Vec<String>, v: &String)
    requires
        views(old(seen)@).no_duplicates(),
    ensures
        views(final(seen)@).no_duplicates(),
        views(final(seen)@).to_set() == views(old(seen)@).to_set().insert(v@),
        final(seen)@.len() == views(final(seen)@).len(),
{
    let ghost vs = views(seen@);
    let mut j: usize = 0;
    let mut found = false;
    while j < seen.len()
        invariant
            j <= seen@.len(),
            vs == views(seen@),
            found == vs.subrange(0, j as int).contains(v@),
        decreases seen@.len() - j,
    {
        proof {
            assert(vs.subrange(0, j + 1) =~= vs.subrange(0, j as int).push(vs[j as int]));
            lemma_push_to_set(vs.subrange(0, j as int), vs[j as int]);
            assert(vs.subrange(0, j as int).to_set().contains(v@) == vs.subrange(0, j as int).contains(v@));
            assert(vs.subrange(0, j + 1).to_set().contains(v@) == vs.subrange(0, j + 1).contains(v@));
        }
        if str_eq(seen[j].as_str(), v.as_str()) {
            found = true;
        }
        j = j + 1;
    }
    assert(vs.subrange(0, vs.len() as int) =~= vs);
    proof {
        lemma_push_to_set(vs, v@);
    }
    if !found {
        proof {
            lemma_push_no_dup(vs, v@);
        }
        seen.push(v.clone());
        assert(views(seen@) =~= vs.push(v@));
    } else {
        assert(vs.to_set().contains(v@));
        assert(vs.to_set().insert(v@) =~= vs.to_set());
    }
}

/// The number of distinct endpoints.
pub fn hosts(ops: &[Operation]) -> (r: usize)
    ensures
        r == endpoint_set(ops@).len(),
{
    let mut seen: Vec<String> = Vec::new();
    assert(views(seen@) =~= Seq::<Seq<char>>::empty());
    assert(views(seen@).to_set() =~= Set::<Seq<char>>::empty());
    let mut i: usize = 0;
    while i < ops.len()
        invariant
            i <= ops@.len(),
            views(seen@).no_duplicates(),
            views(seen@).to_set() == endpoint_set(ops@.subrange(0, i as int)),
        decreases ops@.len() - i,
    {
        assert(ops@.subrange(0, i + 1).drop_last() =~= ops@.subrange(0, i as int));
        insert_unique(&mut seen, &ops[i].endpoint);
        i = i + 1;
    }
    assert(ops@.subrange(0, ops@.len() as int) =~= ops@);
    proof {
        views(seen@).unique_seq_to_set();
    }
    seen.len()
}

/// The number of distinct clients.
pub fn clients(ops: &[Operation]) -> (r: usize)
    ensures
        r == client_set(ops@).len(),
{
    let mut seen: Vec<String> = Vec::new();
    assert(views(seen@) =~= Seq::<Seq<char>>::empty());
    assert(views(seen@).to_set() =~= Set::<Seq<char>>::empty());
    let mut i: usize = 0;
    while i < ops.len()
        invariant
            i <= ops@.len(),
            views(seen@).no_duplicates(),
            views(seen@).to_set() == client_set(ops@.subrange(0, i as int)),
        decreases ops@.len() - i,
    {
        assert(ops@.subrange(0, i + 1).drop_last() =~= ops@.subrange(0, i as int));
        insert_unique(&mut seen, &ops[i].client_id);
        i = i + 1;
    }
    assert(ops@.subrange(0, ops@.len() as int) =~= ops@);
    proof {
        views(seen@).unique_seq_to_set();
    }
    seen.len()
}

// ---------------------------------------------------------------------------
// Ordering by start time
// ---------------------------------------------------------------------------

/// Where `x` goes in a list sorted by start: after every operation that
/// started no later than it.
pub open spec fn insert_pos(s: Seq<Operation>, x: Operation) -> nat
    decreases s.len(),
{
    if s.len() == 0 {
        0
    } else if s[0].start > x.start {
        0
    } else {
        1 + insert_pos(s.drop_first(), x)
    }
}

/// The operations ordered by start time, equal starts keeping their order
/// (what a stable sort by start gives).
pub open spec fn by_start(s: Seq<Operation>) -> Seq<Operation>
    decreases s.len(),
{
    if s.len() == 0 {
        seq![]
    } else {
        let t = by_start(s.drop_last());
        t.insert(insert_pos(t, s.last()) as int, s.last())
    }
}

proof fn lemma_insert_pos_bound(s: Seq<Operation>, x: Operation)
    ensures
        insert_pos(s, x) <= s.len(),
    decreases s.len(),
{
    if s.len() > 0 && s[0].start <= x.start {
        lemma_insert_pos_bound(s.drop_first(), x);
    }
}

proof fn lemma_by_start_len(s: Seq<Operation>)
    ensures
        by_start(s).len() == s.len(),
    decreases s.len(),
{
    if s.len() > 0 {
        lemma_by_start_len(s.drop_last());
        lemma_insert_pos_bound(by_start(s.drop_last()), s.last());
    }
}

/// Copies of the operations, ordered by start time (stable).
pub fn sort_by_start_time(ops: &[Operation]) -> (r: Vec<Operation>)
    ensures
        r@ == by_start(ops@),
{
    let mut out: Vec<Operation> = Vec::new();
    let mut i: usize = 0;
    while i < ops.len()
        invariant
            i <= ops@.len(),
            out@ == by_start(ops@.subrange(0, i as int)),
        decreases ops@.len() - i,
    {
        let x = ops[i].copy();
        assert(ops@.subrange(0, i + 1).drop_last() =~= ops@.subrange(0, i as int));
        assert(ops@.subrange(0, i + 1).last() == x);
        let ghost t = out@;
        let mut p: usize = 0;
        assert(t.subrange(0, t.len() as int) =~= t);
        while p < out.len() && out[p].start <= x.start
            invariant
                p <= out@.len(),
                out@ == t,
                insert_pos(t, x) == p + insert_pos(t.subrange(p as int, t.len() as int), x),
            decreases out@.len() - p,
        {
            assert(t.subrange(p as int, t.len() as int).drop_first() =~= t.subrange(p + 1, t.len() as int));
            p = p + 1;
        }
        proof {
            if p < t.len() {
                assert(t.subrange(p as int, t.len() as int)[0] == t[p as int]);
            } else {
                assert(t.subrange(p as int, t.len() as int).len() == 0);
            }
        }
        out.insert(p, x);
        i = i + 1;
    }
    assert(ops@.subrange(0, ops@.len() as int) =~= ops@);
    out
}

/// The `n` operations that started first (all of them when there are
/// fewer).
pub fn filter_first(ops: &[Operation], n: usize) -> (r: Vec<Operation>)
    ensures
        r@ == (if n < ops@.len() {
            by_start(ops@).subrange(0, n as int)
        } else {
            by_start(ops@)
        }),
{
    let mut v = sort_by_start_time(ops);
    proof {
        lemma_by_start_len(ops@);
    }
    v.truncate(n);
    v
}

/// The `n` operations that started last (all of them when there are
/// fewer), in start order.
pub fn filter_last(ops: &[Operation], n: usize) -> (r: Vec<Operation>)
    ensures
        r@ == (if n < ops@.len() {
            by_start(ops@).subrange(ops@.len() - n, ops@.len() as int)
        } else {
            by_start(ops@)
        }),
{
    let v = sort_by_start_time(ops);
    proof {
        lemma_by_start_len(ops@);
    }
    if n < v.len() {
        let skip = v.len() - n;
        let mut out: Vec<Operation> = Vec::new();
        let mut i: usize = skip;
        while i < v.len()
            invariant
                skip <= i <= v@.len(),
                out@ == v@.subrange(skip as int, i as int),
            decreases v@.len() - i,
        {
            out.push(v[i].copy());
            i = i + 1;
            assert(out@ =~= v@.subrange(skip as int, i as int));
        }
        out
    } else {
        v
    }
}

/// Operations ordered by start time are in non-decreasing start order.
pub open spec fn starts_sorted(s: Seq<Operation>) -> bool {
    forall|i: int, j: int| 0 <= i < j < s.len() ==> s[i].start <= s[j].start
}

proof fn lemma_insert_sorted(t: Seq<Operation>, x: Operation)
    requires
        starts_sorted(t),
    ensures
        starts_sorted(t.insert(insert_pos(t, x) as int, x)),
        forall|k: int| 0 <= k < insert_pos(t, x) ==> t[k].start <= x.start,
        forall|k: int| insert_pos(t, x) <= k < t.len() ==> t[k].start > x.start,
    decreases t.len(),
{
    lemma_insert_pos_bound(t, x);
    if t.len() > 0 && t[0].start <= x.start {
        let d = t.drop_first();
        assert(starts_sorted(d)) by {
            assert forall|i: int, j: int| 0 <= i < j < d.len() implies d[i].start <= d[j].start by {
                assert(d[i] == t[i + 1] && d[j] == t[j + 1]);
            }
        }
        lemma_insert_sorted(d, x);
        assert forall|k: int| 0 <= k < insert_pos(t, x) implies t[k].start <= x.start by {
            if k > 0 {
                assert(t[k] == d[k - 1]);
            }
        }
        assert forall|k: int| insert_pos(t, x) <= k < t.len() implies t[k].start > x.start by {
            assert(t[k] == d[k - 1]);
        }
    } else if t.len() > 0 {
        assert forall|k: int| 0 <= k < t.len() implies t[k].start > x.start by {
            assert(t[0].start <= t[k].start);
        }
    }
    let p = insert_pos(t, x) as int;
    let u = t.insert(p, x);
    assert forall|i: int, j: int| 0 <= i < j < u.len() implies u[i].start <= u[j].start by {
        if j < p {
        } else if j == p {
            assert(u[i] == t[i]);
        } else if i < p {
            assert(u[j] == t[j - 1]);
            assert(u[i] == t[i]);
        } else if i == p {
            assert(u[j] == t[j - 1]);
        } else {
            assert(u[i] == t[i - 1]);
            assert(u[j] == t[j - 1]);
        }
    }
}

/// Ordering by start time gives non-decreasing starts.
pub proof fn law_by_start_sorted(s: Seq<Operation>)
    ensures
        starts_sorted(by_start(s)),
        by_start(s).len() == s.len(),
    decreases s.len(),
{
    lemma_by_start_len(s);
    if s.len() > 0 {
        law_by_start_sorted(s.drop_last());
        lemma_insert_sorted(by_start(s.drop_last()), s.last());
    }
}

/// The span the run was active: the same as [`time_range`].
pub fn active_time_range(ops: &[Operation]) -> (r: Option<(i64, i64)>)
    ensures
        ops@.len() == 0 ==> r is None,
        ops@.len() > 0 ==> r == Some((min_start(ops@) as i64, max_end(ops@) as i64)),
{
    time_range(ops)
}

// ---------------------------------------------------------------------------
// Other orders
// ---------------------------------------------------------------------------

/// The other orders a run's operations can be sorted in.
#[derive(Debug, Clone, Copy, PartialEq, Eq, Structural)]
pub enum SortKey {
    /// By end time.
    End,
    /// By duration.
    Duration,
    /// By time to first byte; operations without one come first.
    Ttfb,
}

/// The key of `op` in the order `k` (a missing first byte sorts below every
/// recorded one).
pub open spec fn key_of(k: SortKey, op: Operation) -> int {
    match k {
        SortKey::End => op.end as int,
        SortKey::Duration => span(op.start, op.end) as int,
        SortKey::Ttfb => match op.first_byte {
            Some(fb) => span(op.start, fb) as int,
            None => -1,
        },
    }
}

/// The key of `op` in the order `k`.
fn key_exec(k: SortKey, op: &Operation) -> (r: i128)
    ensures
        r == key_of(k, *op),
{
    match k {
        SortKey::End => op.end as i128,
        SortKey::Duration => op.duration() as i128,
        SortKey::Ttfb => match op.ttfb() {
            Some(t) => t as i128,
            None => -1,
        },
    }
}

/// Where `x` goes in a list sorted by `k`: after every operation whose key is
/// no larger.
pub open spec fn insert_pos_by(k: SortKey, s: Seq<Operation>, x: Operation) -> nat
    decreases s.len(),
{
    if s.len() == 0 {
        0
    } else if key_of(k, s[0]) > key_of(k, x) {
        0
    } else {
        1 + insert_pos_by(k, s.drop_first(), x)
    }
}

/// The operations ordered by `k`, equal keys keeping their order (what a
/// stable sort by that key gives).
pub open spec fn by_key(k: SortKey, s: Seq<Operation>) -> Seq<Operation>
    decreases s.len(),
{
    if s.len() == 0 {
        seq![]
    } else {
        let t = by_key(k, s.drop_last());
        t.insert(insert_pos_by(k, t, s.last()) as int, s.last())
    }
}

proof fn lemma_insert_pos_by_bound(k: SortKey, s: Seq<Operation>, x: Operation)
    ensures
        insert_pos_by(k, s, x) <= s.len(),
    decreases s.len(),
{
    if s.len() > 0 && key_of(k, s[0]) <= key_of(k, x) {
        lemma_insert_pos_by_bound(k, s.drop_first(), x);
    }
}

proof fn lemma_by_key_len(k: SortKey, s: Seq<Operation>)
    ensures
        by_key(k, s).len() == s.len(),
    decreases s.len(),
{
    if s.len() > 0 {
        lemma_by_key_len(k, s.drop_last());
        lemma_insert_pos_by_bound(k, by_key(k, s.drop_last()), s.last());
    }
}

/// Copies of the operations, ordered by `k` (stable).
fn sort_by(ops: &[Operation], k: SortKey) -> (r: Vec<Operation>)
    ensures
        r@ == by_key(k, ops@),
{
    let mut out: Vec<Operation> = Vec::new();
    let mut i: usize = 0;
    while i < ops.len()
        invariant
            i <= ops@.len(),
            out@ == by_key(k, ops@.subrange(0, i as int)),
        decreases ops@.len() - i,
    {
        let x = ops[i].copy();
        let kx = key_exec(k, &x);
        assert(ops@.subrange(0, i + 1).drop_last() =~= ops@.subrange(0, i as int));
        assert(ops@.subrange(0, i + 1).last() == x);
        let ghost t = out@;
        let mut p: usize = 0;
        assert(t.subrange(0, t.len() as int) =~= t);
        while p < out.len() && key_exec(k, &out[p]) <= kx
            invariant
                p <= out@.len(),
                out@ == t,
                kx == key_of(k, x),
                insert_pos_by(k, t, x) == p + insert_pos_by(k, t.subrange(p as int, t.len() as int), x),
            decreases out@.len() - p,
        {
            assert(t.subrange(p as int, t.len() as int)[0] == t[p as int]);
            assert(t.subrange(p as int, t.len() as int).drop_first() =~= t.subrange(p + 1, t.len() as int));
            p = p + 1;
        }
        proof {
            if p < t.len() {
                assert(t.subrange(p as int, t.len() as int)[0] == t[p as int]);
            } else {
                assert(t.subrange(p as int, t.len() as int).len() == 0);
            }
        }
        out.insert(p, x);
        i = i + 1;
    }
    assert(ops@.subrange(0, ops@.len() as int) =~= ops@);
    out
}

/// Copies of the operations, ordered by end time (stable).
pub fn sort_by_end_time(ops: &[Operation]) -> (r: Vec<Operation>)
    ensures
        r@ == by_key(SortKey::End, ops@),
{
    sort_by(ops, SortKey::End)
}

/// Copies of the operations, ordered by duration (stable).
pub fn sort_by_duration(ops: &[Operation]) -> (r: Vec<Operation>)
    ensures
        r@ == by_key(SortKey::Duration, ops@),
{
    sort_by(ops, SortKey::Duration)
}

/// Copies of the operations, ordered by time to first byte (stable; those
/// without a first byte first).
pub fn sort_by_ttfb(ops: &[Operation]) -> (r: Vec<Operation>)
    ensures
        r@ == by_key(SortKey::Ttfb, ops@),
{
    sort_by(ops, SortKey::Ttfb)
}

/// The keys of a list are in non-decreasing order.
pub open spec fn keys_sorted(k: SortKey, s: Seq<Operation>) -> bool {
    forall|i: int, j: int| 0 <= i < j < s.len() ==> key_of(k, s[i]) <= key_of(k, s[j])
}

proof fn lemma_insert_by_sorted(k: SortKey, t: Seq<Operation>, x: Operation)
    requires
        keys_sorted(k, t),
    ensures
        keys_sorted(k, t.insert(insert_pos_by(k, t, x) as int, x)),
        forall|j: int| 0 <= j < insert_pos_by(k, t, x) ==> key_of(k, t[j]) <= key_of(k, x),
        forall|j: int| insert_pos_by(k, t, x) <= j < t.len() ==> key_of(k, t[j]) > key_of(k, x),
    decreases t.len(),
{
    lemma_insert_pos_by_bound(k, t, x);
    if t.len() > 0 && key_of(k, t[0]) <= key_of(k, x) {
        let d = t.drop_first();
        assert(keys_sorted(k, d)) by {
            assert forall|i: int, j: int| 0 <= i < j < d.len() implies key_of(k, d[i]) <= key_of(k, d[j]) by {
                assert(d[i] == t[i + 1] && d[j] == t[j + 1]);
            }
        }
        lemma_insert_by_sorted(k, d, x);
        assert forall|j: int| 0 <= j < insert_pos_by(k, t, x) implies key_of(k, t[j]) <= key_of(k, x) by {
            if j > 0 {
                assert(t[j] == d[j - 1]);
            }
        }
        assert forall|j: int| insert_pos_by(k, t, x) <= j < t.len() implies key_of(k, t[j]) > key_of(k, x) by {
            assert(t[j] == d[j - 1]);
        }
    } else if t.len() > 0 {
        assert forall|j: int| 0 <= j < t.len() implies key_of(k, t[j]) > key_of(k, x) by {
            assert(key_of(k, t[0]) <= key_of(k, t[j]));
        }
    }
    let p = insert_pos_by(k, t, x) as int;
    let u = t.insert(p, x);
    assert forall|i: int, j: int| 0 <= i < j < u.len() implies key_of(k, u[i]) <= key_of(k, u[j]) by {
        if j < p {
        } else if j == p {
            assert(u[i] == t[i]);
        } else if i < p {
            assert(u[j] == t[j - 1]);
            assert(u[i] == t[i]);
        } else if i == p {
            assert(u[j] == t[j - 1]);
        } else {
            assert(u[i] == t[i - 1]);
            assert(u[j] == t[j - 1]);
        }
    }
}

/// Ordering by a key gives non-decreasing keys and keeps the length.
pub proof fn law_by_key_sorted(k: SortKey, s: Seq<Operation>)
    ensures
        keys_sorted(k, by_key(k, s)),
        by_key(k, s).len() == s.len(),
    decreases s.len(),
{
    lemma_by_key_len(k, s);
    if s.len() > 0 {
        law_by_key_sorted(k, s.drop_last());
        lemma_insert_by_sorted(k, by_key(k, s.drop_last()), s.last());
    }
}

/// Ordering by start time keeps exactly the same operations.
pub proof fn law_by_start_permutes(s: Seq<Operation>)
    ensures
        by_start(s).to_multiset() == s.to_multiset(),
    decreases s.len(),
{
    if s.len() > 0 {
        let t = by_start(s.drop_last());
        law_by_start_permutes(s.drop_last());
        lemma_by_start_len(s.drop_last());
        lemma_insert_pos_bound(t, s.last());
        vstd::seq_lib::to_multiset_insert(t, insert_pos(t, s.last()) as int, s.last());
        vstd::seq_lib::to_multiset_build(s.drop_last(), s.last());
        assert(s.drop_last().push(s.last()) =~= s);
    } else {
        assert(by_start(s) =~= s);
    }
}

/// Ordering by a key keeps exactly the same operations.
pub proof fn law_by_key_permutes(k: SortKey, s: Seq<Operation>)
    ensures
        by_key(k, s).to_multiset() == s.to_multiset(),
    decreases s.len(),
{
    if s.len() > 0 {
        let t = by_key(k, s.drop_last());
        law_by_key_permutes(k, s.drop_last());
        lemma_by_key_len(k, s.drop_last());
        lemma_insert_pos_by_bound(k, t, s.last());
        vstd::seq_lib::to_multiset_insert(t, insert_pos_by(k, t, s.last()) as int, s.last());
        vstd::seq_lib::to_multiset_build(s.drop_last(), s.last());
        assert(s.drop_last().push(s.last()) =~= s);
    } else {
        assert(by_key(k, s) =~= s);
    }
}

// ---------------------------------------------------------------------------
// Merging runs
// ---------------------------------------------------------------------------

/// The latest first start among the non-empty runs.
pub open spec fn latest_first_start(sets: Seq<Seq<Operation>>) -> Option<int>
    decreases sets.len(),
{
    if sets.len() == 0 {
        None
    } else {
        let rest = latest_first_start(sets.drop_last());
        let s = sets.last();
        if s.len() == 0 {
            rest
        } else {
            match rest {
                Some(m) => Some(if min_start(s) > m { min_start(s) } else { m }),
                None => Some(min_start(s)),
            }
        }
    }
}

/// The earliest last end among the non-empty runs.
pub open spec fn earliest_last_end(sets: Seq<Seq<Operation>>) -> Option<int>
    decreases sets.len(),
{
    if sets.len() == 0 {
        None
    } else {
        let rest = earliest_last_end(sets.drop_last());
        let s = sets.last();
        if s.len() == 0 {
            rest
        } else {
            match rest {
                Some(m) => Some(if max_end(s) < m { max_end(s) } else { m }),
                None => Some(max_end(s)),
            }
        }
    }
}

/// Each run's operations inside `[a, b]`, run after run.
pub open spec fn concat_inside(sets: Seq<Seq<Operation>>, a: int, b: int) -> Seq<Operation>
    decreases sets.len(),
{
    if sets.len() == 0 {
        seq![]
    } else {
        concat_inside(sets.drop_last(), a, b) + select(sets.last(), Keep::Inside(a, b))
    }
}

/// The operations of several runs that fall in the span all of them cover:
/// from the latest first start to the earliest last end.
pub open spec fn merge_spec(sets: Seq<Seq<Operation>>) -> Seq<Operation> {
    match (latest_first_start(sets), earliest_last_end(sets)) {
        (Some(a), Some(b)) => concat_inside(sets, a, b),
        _ => seq![],
    }
}

proof fn lemma_extremes_in_range(s: Seq<Operation>)
    requires
        s.len() > 0,
    ensures
        i64::MIN <= min_start(s) <= i64::MAX,
        i64::MIN <= max_end(s) <= i64::MAX,
    decreases s.len(),
{
    if s.len() > 1 {
        lemma_extremes_in_range(s.drop_last());
    }
}

proof fn lemma_both_or_neither(sets: Seq<Seq<Operation>>)
    ensures
        latest_first_start(sets) is Some <==> earliest_last_end(sets) is Some,
        latest_first_start(sets) is None ==> concat_inside(sets, 0, 0).len() == 0,
    decreases sets.len(),
{
    if sets.len() > 0 {
        lemma_both_or_neither(sets.drop_last());
    }
}

/// See [`merge_spec`].
pub fn merge(op_sets: &[Vec<Operation>]) -> (r: Vec<Operation>)
    ensures
        r@ == merge_spec(op_sets@.map_values(|v: Vec<Operation>| v@)),
{
    let ghost sv = op_sets@.map_values(|v: Vec<Operation>| v@);
    let mut lo: Option<i64> = None;
    let mut hi: Option<i64> = None;
    let mut i: usize = 0;
    while i < op_sets.len()
        invariant
            i <= op_sets@.len(),
            sv == op_sets@.map_values(|v: Vec<Operation>| v@),
            lo == (match latest_first_start(sv.subrange(0, i as int)) {
                Some(m) => Some(m as i64),
                None => None::<i64>,
            }),
            hi == (match earliest_last_end(sv.subrange(0, i as int)) {
                Some(m) => Some(m as i64),
                None => None::<i64>,
            }),
            latest_first_start(sv.subrange(0, i as int)) matches Some(m) ==> i64::MIN <= m <= i64::MAX,
            earliest_last_end(sv.subrange(0, i as int)) matches Some(m) ==> i64::MIN <= m <= i64::MAX,
        decreases op_sets@.len() - i,
    {
        assert(sv.subrange(0, i + 1).drop_last() =~= sv.subrange(0, i as int));
        assert(sv.subrange(0, i + 1).last() == op_sets@[i as int]@);
        proof {
            if op_sets@[i as int]@.len() > 0 {
                lemma_extremes_in_range(op_sets@[i as int]@);
            }
        }
        match time_range(op_sets[i].as_slice()) {
            Some((a, b)) => {
                lo = match lo {
                    Some(m) => Some(if a > m { a } else { m }),
                    None => Some(a),
                };
                hi = match hi {
                    Some(m) => Some(if b < m { b } else { m }),
                    None => Some(b),
                };
            },
            None => {},
        }
        i = i + 1;
    }
    assert(sv.subrange(0, op_sets@.len() as int) =~= sv);
    proof {
        lemma_both_or_neither(sv);
    }
    let mut out: Vec<Operation> = Vec::new();
    match (lo, hi) {
        (Some(a), Some(b)) => {
            let mut j: usize = 0;
            while j < op_sets.len()
                invariant
                    j <= op_sets@.len(),
                    sv == op_sets@.map_values(|v: Vec<Operation>| v@),
                    out@ == concat_inside(sv.subrange(0, j as int), a as int, b as int),
                decreases op_sets@.len() - j,
            {
                assert(sv.subrange(0, j + 1).drop_last() =~= sv.subrange(0, j as int));
                assert(sv.subrange(0, j + 1).last() == op_sets@[j as int]@);
                let part = filter_inside_range(op_sets[j].as_slice(), a, b);
                let mut k: usize = 0;
                let ghost before = out@;
                while k < part.len()
                    invariant
                        k <= part@.len(),
                        out@ == before + part@.subrange(0, k as int),
                    decreases part@.len() - k,
                {
                    out.push(part[k].copy());
                    k = k + 1;
                    assert(out@ =~= before + part@.subrange(0, k as int));
                }
                assert(part@.subrange(0, part@.len() as int) =~= part@);
                j = j + 1;
            }
            assert(sv.subrange(0, op_sets@.len() as int) =~= sv);
        },
        _ => {},
    }
    out
}

proof fn lemma_concat_inside(sets: Seq<Seq<Operation>>, a: int, b: int)
    ensures
        forall|i: int|
            0 <= i < concat_inside(sets, a, b).len() ==> (#[trigger] concat_inside(sets, a, b)[i]).start >= a
                && concat_inside(sets, a, b)[i].end <= b,
    decreases sets.len(),
{
    if sets.len() > 0 {
        lemma_concat_inside(sets.drop_last(), a, b);
        law_selection_sound(sets.last(), Keep::Inside(a, b));
        let x = concat_inside(sets.drop_last(), a, b);
        let y = select(sets.last(), Keep::Inside(a, b));
        assert forall|i: int| 0 <= i < (x + y).len() implies (#[trigger] (x + y)[i]).start >= a && (x + y)[i].end
            <= b by {
            if i >= x.len() {
                assert((x + y)[i] == y[i - x.len()]);
                assert(keeps(Keep::Inside(a, b), y[i - x.len()]));
            } else {
                assert((x + y)[i] == x[i]);
            }
        }
    }
}

/// Merged runs keep only what every run covers: each merged operation
/// started no earlier than the latest first start and ended no later than
/// the earliest last end.
pub proof fn law_merge_within_common_span(sets: Seq<Seq<Operation>>)
    ensures
        forall|i: int|
            0 <= i < merge_spec(sets).len() ==> (#[trigger] merge_spec(sets)[i]).start >= latest_first_start(
                sets,
            )->0 && merge_spec(sets)[i].end <= earliest_last_end(sets)->0,
{
    match (latest_first_start(sets), earliest_last_end(sets)) {
        (Some(a), Some(b)) => lemma_concat_inside(sets, a, b),
        _ => {},
    }
}

} // verus!
