//! The decisions inside the benchmark loops: which operation comes next,
//! which object version it works on, and which catalog entry a catalog read
//! targets. The loops themselves (requests, timers, workers) run these
//! decisions and report back.
use vstd::prelude::*;
use rand::seq::SliceRandom;
use crate::text::{clone_strings, concat2, concat3, join_spec, join_strings, owned, str_eq, views};
use crate::tree::{NamespaceInfo, TableInfo, ViewInfo};

verus! {

broadcast use vstd::string::group_string_axioms;

/// Calls `SliceRandom::shuffle` with `rand::thread_rng()`: the vector is put
/// in a random order, so it holds the same items as before.
#[verifier::external_body]
fn shuffle_in_place<T>(v: &mut Vec<T>)
    ensures
        final(v)@.to_multiset() == old(v)@.to_multiset(),
{
    v.shuffle(&mut rand::thread_rng());
}

// ---------------------------------------------------------------------------
// Catalog operation mix
// ---------------------------------------------------------------------------

/// The operation names of a count table, each repeated as often as its
/// count says, in table order.
pub open spec fn expand_counts(w: Seq<(Seq<char>, nat)>) -> Seq<Seq<char>>
    decreases w.len(),
{
    if w.len() == 0 {
        seq![]
    } else {
        expand_counts(w.drop_last()) + Seq::new(w.last().1, |i: int| w.last().0)
    }
}

/// The plain values of a count table.
pub open spec fn count_views(w: Seq<(String, usize)>) -> Seq<(Seq<char>, nat)> {
    w.map_values(|p: (String, usize)| (p.0@, p.1 as nat))
}

/// The operation names of a count table, unshuffled.
pub fn expand_pool(counts: &[(String, usize)]) -> (r: Vec<String>)
    requires
        expand_counts(count_views(counts@)).len() <= usize::MAX,
    ensures
        views(r@) == expand_counts(count_views(counts@)),
{
    let ghost cv = count_views(counts@);
    let mut pool: Vec<String> = Vec::new();
    let mut i: usize = 0;
    while i < counts.len()
        invariant
            i <= counts@.len(),
            cv == count_views(counts@),
            views(pool@) == expand_counts(cv.subrange(0, i as int)),
            expand_counts(cv).len() <= usize::MAX,
        decreases counts@.len() - i,
    {
        let ghost pre = views(pool@);
        assert(cv.subrange(0, i + 1).drop_last() =~= cv.subrange(0, i as int));
        assert(cv[i as int] == (counts@[i as int].0@, counts@[i as int].1 as nat));
        proof {
            lemma_expand_prefix_len(cv, (i + 1) as nat);
        }
        let n = counts[i].1;
        let mut j: usize = 0;
        while j < n
            invariant
                j <= n,
                i < counts@.len(),
                n == counts@[i as int].1,
                views(pool@) == pre + Seq::new(j as nat, |k: int| counts@[i as int].0@),
            decreases n - j,
        {
            let ghost before_push = pool@;
            let item = counts[i].0.clone();
            pool.push(item);
            assert(views(pool@) =~= views(before_push).push(counts@[i as int].0@));
            j = j + 1;
            assert(views(pool@) =~= pre + Seq::new(j as nat, |k: int| counts@[i as int].0@));
        }
        assert(expand_counts(cv.subrange(0, i + 1)) =~= pre + Seq::new(
            n as nat,
            |k: int| counts@[i as int].0@,
        ));
        i = i + 1;
    }
    assert(cv.subrange(0, counts@.len() as int) =~= cv);
    pool
}

proof fn lemma_expand_prefix_len(w: Seq<(Seq<char>, nat)>, n: nat)
    requires
        n <= w.len(),
    ensures
        expand_counts(w.subrange(0, n as int)).len() <= expand_counts(w).len(),
    decreases w.len() - n,
{
    if n < w.len() {
        lemma_expand_prefix_len(w, n + 1);
        assert(w.subrange(0, n + 1 as int).drop_last() =~= w.subrange(0, n as int));
    } else {
        assert(w.subrange(0, n as int) =~= w);
    }
}

/// A pool of operation names handed out in turn, starting over at the end.
pub struct IcebergMixedDistribution {
    ops: Vec<String>,
    current: usize,
}

/// The position after `k` turns in a pool of `len` names from `cur`.
pub open spec fn turn_after(cur: nat, len: nat, k: nat) -> nat
    decreases k,
{
    if k == 0 {
        cur
    } else {
        (turn_after(cur, len, (k - 1) as nat) + 1) % len
    }
}

impl IcebergMixedDistribution {
    /// The pool, in hand-out order.
    pub closed spec fn pool(&self) -> Seq<String> {
        self.ops@
    }

    /// The position of the next name.
    pub closed spec fn position(&self) -> nat {
        self.current as nat
    }

    /// The position lies inside a non-empty pool.
    pub open spec fn wf(&self) -> bool {
        if self.pool().len() == 0 {
            self.position() == 0
        } else {
            self.position() < self.pool().len()
        }
    }

    /// The names of the count table in a random order, handed out from the
    /// first.
    pub fn from_counts(counts: &[(String, usize)]) -> (r: IcebergMixedDistribution)
        requires
            expand_counts(count_views(counts@)).len() <= usize::MAX,
        ensures
            r.wf(),
            r.position() == 0,
            exists|p: Seq<String>|
                #![trigger p.to_multiset()]
                views(p) == expand_counts(count_views(counts@)) && r.pool().to_multiset()
                    == p.to_multiset(),
    {
        let mut pool = expand_pool(counts);
        let ghost before = pool@;
        shuffle_in_place(&mut pool);
        let r = IcebergMixedDistribution { ops: pool, current: 0 };
        assert(views(before) == expand_counts(count_views(counts@)) && r.pool().to_multiset()
            == before.to_multiset());
        r
    }

    /// The next name, the empty string for an empty pool; the turn moves on.
    pub fn get_op(&mut self) -> (r: String)
        requires
            old(self).wf(),
        ensures
            final(self).wf(),
            final(self).pool() == old(self).pool(),
            old(self).pool().len() == 0 ==> r@.len() == 0 && final(self).position() == 0,
            old(self).pool().len() > 0 ==> r == old(self).pool()[old(self).position() as int]
                && final(self).position() == (old(self).position() + 1) % old(self).pool().len(),
    {
        if self.ops.len() == 0 {
            return String::new();
        }
        let op = self.ops[self.current].clone();
        self.current = (self.current + 1) % self.ops.len();
        op
    }
}

/// After as many turns as the pool has names, the turn is back where it
/// started: every name is handed out once per round.
pub proof fn law_round_returns(cur: nat, len: nat)
    requires
        cur < len,
    ensures
        turn_after(cur, len, len) == cur,
{
    lemma_turn_after(cur, len, len);
    assert((cur + len) % len == cur) by (nonlinear_arith)
        requires
            cur < len,
    ;
}

/// The names that `n` turns hand out from `pool`, starting `start` turns
/// after position `cur`.
pub open spec fn handed_out(pool: Seq<String>, cur: nat, start: nat, n: nat) -> Seq<String> {
    Seq::new(n, |j: int| pool[turn_after(cur, pool.len(), start + j as nat) as int])
}

/// Law: any run of as many consecutive turns as the pool has names hands out
/// every name of the pool exactly as often as the pool holds it, and each
/// turn hands out the same name as the turn one round later.
pub proof fn law_every_round_holds_the_pool(pool: Seq<String>, cur: nat, start: nat)
    requires
        cur < pool.len(),
    ensures
        handed_out(pool, cur, start, pool.len()).to_multiset() == pool.to_multiset(),
        pool[turn_after(cur, pool.len(), start + pool.len()) as int] == pool[turn_after(
            cur,
            pool.len(),
            start,
        ) as int],
{
    let len = pool.len();
    let s = turn_after(cur, len, start);
    lemma_turn_after(cur, len, start);
    lemma_turn_after(cur, len, start + len);
    assert((cur + start + len) as int % (len as int) == (cur + start) as int % (len as int)) by {
        vstd::arithmetic::div_mod::lemma_mod_add_multiples_vanish((cur + start) as int, len as int);
    }
    let h = handed_out(pool, cur, start, len);
    let rot = pool.subrange(s as int, len as int) + pool.subrange(0, s as int);
    assert forall|j: int| 0 <= j < len implies #[trigger] h[j] == rot[j] by {
        lemma_turn_after(cur, len, start + j as nat);
        if j < len - s {
            assert((cur + start + j) as int % (len as int) == s + j) by {
                vstd::arithmetic::div_mod::lemma_add_mod_noop((cur + start) as int, j, len as int);
                vstd::arithmetic::div_mod::lemma_small_mod(j as nat, len);
                vstd::arithmetic::div_mod::lemma_small_mod((s + j) as nat, len);
            }
        } else {
            assert((cur + start + j) as int % (len as int) == s + j - len) by {
                vstd::arithmetic::div_mod::lemma_add_mod_noop((cur + start) as int, j, len as int);
                vstd::arithmetic::div_mod::lemma_small_mod(j as nat, len);
                vstd::arithmetic::div_mod::lemma_mod_sub_multiples_vanish((s + j) as int, len as int);
                vstd::arithmetic::div_mod::lemma_small_mod((s + j - len) as nat, len);
            }
        }
    }
    assert(h =~= rot);
    assert(pool =~= pool.subrange(0, s as int) + pool.subrange(s as int, len as int));
    vstd::seq_lib::lemma_seq_union_to_multiset_commutative(
        pool.subrange(s as int, len as int),
        pool.subrange(0, s as int),
    );
}

/// How many times the count table `w` lists name `x`, its counts summed.
pub open spec fn count_of(w: Seq<(Seq<char>, nat)>, x: Seq<char>) -> nat
    decreases w.len(),
{
    if w.len() == 0 {
        0
    } else {
        count_of(w.drop_last(), x) + if w.last().0 == x {
            w.last().1
        } else {
            0
        }
    }
}

proof fn lemma_const_count(n: nat, y: Seq<char>, x: Seq<char>)
    ensures
        Seq::new(n, |i: int| y).to_multiset().count(x) == if y == x {
            n
        } else {
            0
        },
    decreases n,
{
    broadcast use vstd::seq_lib::group_to_multiset_ensures;

    let s = Seq::new(n, |i: int| y);
    if n == 0 {
        assert(s =~= Seq::<Seq<char>>::empty());
    } else {
        lemma_const_count((n - 1) as nat, y, x);
        assert(s =~= Seq::new((n - 1) as nat, |i: int| y).push(y));
    }
}

proof fn lemma_expand_count(w: Seq<(Seq<char>, nat)>, x: Seq<char>)
    ensures
        expand_counts(w).to_multiset().count(x) == count_of(w, x),
    decreases w.len(),
{
    broadcast use vstd::seq_lib::group_to_multiset_ensures, vstd::multiset::group_multiset_axioms;

    if w.len() > 0 {
        lemma_expand_count(w.drop_last(), x);
        let tail = Seq::new(w.last().1, |i: int| w.last().0);
        assert(expand_counts(w) =~= expand_counts(w.drop_last()) + tail);
        vstd::seq_lib::lemma_multiset_commutative(expand_counts(w.drop_last()), tail);
        lemma_const_count(w.last().1, w.last().0, x);
    } else {
        assert(expand_counts(w) =~= Seq::<Seq<char>>::empty());
        assert(expand_counts(w).to_multiset().len() == 0);
    }
}

/// Sequences with the same elements keep them when each is mapped to its
/// plain value.
proof fn lemma_views_same_multiset(a: Seq<String>, b: Seq<String>)
    requires
        a.to_multiset() == b.to_multiset(),
    ensures
        views(a).to_multiset() == views(b).to_multiset(),
    decreases a.len(),
{
    broadcast use vstd::seq_lib::group_to_multiset_ensures;

    if a.len() == 0 {
        assert(a.to_multiset().len() == 0);
        assert(b.to_multiset().len() == b.len());
        assert(views(a) =~= Seq::<Seq<char>>::empty());
        assert(views(b) =~= Seq::<Seq<char>>::empty());
    } else {
        let x = a.last();
        let pre = a.drop_last();
        assert(a =~= pre.push(x));
        assert(b.to_multiset().count(x) > 0);
        assert(b.contains(x));
        let i = choose|i: int| 0 <= i < b.len() && b[i] == x;
        assert(pre.to_multiset() =~= b.remove(i).to_multiset());
        lemma_views_same_multiset(pre, b.remove(i));
        assert(views(a) =~= views(pre).push(x@));
        assert(views(b.remove(i)) =~= views(b).remove(i));
        assert(views(b)[i] == x@);
    }
}

/// Law: any run of as many consecutive turns as the pool has names hands
/// out every name exactly as often as the count table the pool was made
/// from lists it.
pub proof fn law_round_counts(
    pool: Seq<String>,
    p: Seq<String>,
    w: Seq<(Seq<char>, nat)>,
    cur: nat,
    start: nat,
    x: Seq<char>,
)
    requires
        cur < pool.len(),
        views(p) == expand_counts(w),
        pool.to_multiset() == p.to_multiset(),
    ensures
        views(handed_out(pool, cur, start, pool.len())).to_multiset().count(x) == count_of(w, x),
{
    law_every_round_holds_the_pool(pool, cur, start);
    lemma_views_same_multiset(handed_out(pool, cur, start, pool.len()), p);
    lemma_expand_count(w, x);
}

proof fn lemma_turn_after(cur: nat, len: nat, k: nat)
    requires
        cur < len,
    ensures
        turn_after(cur, len, k) as int == (cur + k) as int % (len as int),
    decreases k,
{
    if k > 0 {
        lemma_turn_after(cur, len, (k - 1) as nat);
        let a: int = cur + k - 1;
        vstd::arithmetic::div_mod::lemma_add_mod_noop_right(1, a, len as int);
    } else {
        vstd::arithmetic::div_mod::lemma_small_mod(cur, len);
    }
}

// ---------------------------------------------------------------------------
// Object operation pools
// ---------------------------------------------------------------------------

/// An S3 object operation.
#[derive(Debug, Clone, Copy, PartialEq, Eq, Structural)]
pub enum OpKind {
    Get,
    Stat,
    Put,
    Delete,
}

/// The name an operation is recorded under.
pub open spec fn op_name(k: OpKind) -> Seq<char> {
    match k {
        OpKind::Get => "GET"@,
        OpKind::Stat => "STAT"@,
        OpKind::Put => "PUT"@,
        OpKind::Delete => "DELETE"@,
    }
}

impl OpKind {
    /// The name the operation is recorded under.
    pub fn name(&self) -> (r: &'static str)
        ensures
            r@ == op_name(*self),
    {
        match self {
            OpKind::Get => "GET",
            OpKind::Stat => "STAT",
            OpKind::Put => "PUT",
            OpKind::Delete => "DELETE",
        }
    }
}

/// `n` copies of `k`.
pub open spec fn repeat(k: OpKind, n: nat) -> Seq<OpKind> {
    Seq::new(n, |i: int| k)
}

/// The unshuffled pool of a versioned run: the GETs, STATs and PUTs of the
/// counts, then DELETEs up to `size`, cut to `size` entries.
pub open spec fn versioned_pool(get: nat, stat: nat, put: nat, size: nat) -> Seq<OpKind> {
    let head = repeat(OpKind::Get, get) + repeat(OpKind::Stat, stat) + repeat(OpKind::Put, put);
    if head.len() >= size {
        head.subrange(0, size as int)
    } else {
        head + repeat(OpKind::Delete, (size - head.len()) as nat)
    }
}

fn push_repeat(v: &mut Vec<OpKind>, k: OpKind, n: usize)
    requires
        old(v)@.len() + n <= usize::MAX,
    ensures
        final(v)@ == old(v)@ + repeat(k, n as nat),
{
    let ghost before = v@;
    let mut j: usize = 0;
    while j < n
        invariant
            j <= n,
            v@ == before + repeat(k, j as nat),
            before.len() + n <= usize::MAX,
        decreases n - j,
    {
        v.push(k);
        j = j + 1;
        assert(v@ =~= before + repeat(k, j as nat));
    }
}

/// The operations of a versioned run in a random order: the pool of the
/// counts (see [`versioned_pool`]), shuffled.
pub fn build_versioned_pool(get: usize, stat: usize, put: usize, size: usize) -> (r: Vec<OpKind>)
    requires
        get + stat + put <= usize::MAX,
    ensures
        r@.to_multiset() == versioned_pool(get as nat, stat as nat, put as nat, size as nat).to_multiset(),
        r@.len() == size,
{
    let mut pool: Vec<OpKind> = Vec::new();
    push_repeat(&mut pool, OpKind::Get, get);
    push_repeat(&mut pool, OpKind::Stat, stat);
    push_repeat(&mut pool, OpKind::Put, put);
    if pool.len() < size {
        let fill = size - pool.len();
        push_repeat(&mut pool, OpKind::Delete, fill);
    } else {
        pool.truncate(size);
    }
    let ghost before = pool@;
    assert(before =~= versioned_pool(get as nat, stat as nat, put as nat, size as nat));
    shuffle_in_place(&mut pool);
    proof {
        before.to_multiset_ensures();
        pool@.to_multiset_ensures();
    }
    pool
}

/// The operation at turn `idx` of a pool, going round.
pub fn pool_op(pool: &[OpKind], idx: usize) -> (r: OpKind)
    requires
        pool@.len() > 0,
    ensures
        r == pool@[(idx as int) % (pool@.len() as int)],
{
    pool[idx % pool.len()]
}

// ---------------------------------------------------------------------------
// Object versions of a versioned run
// ---------------------------------------------------------------------------

/// The objects of a versioned run and the versions of each, in the order
/// they were first recorded.
pub struct VersionRegistry {
    keys: Vec<String>,
    versions: Vec<Vec<String>>,
}

/// A registry's contents: `(key, versions)` pairs.
pub struct RegistryView {
    pub keys: Seq<Seq<char>>,
    pub versions: Seq<Seq<Seq<char>>>,
}

impl View for VersionRegistry {
    type V = RegistryView;

    closed spec fn view(&self) -> RegistryView {
        RegistryView {
            keys: views(self.keys@),
            versions: self.versions@.map_values(|v: Vec<String>| views(v@)),
        }
    }
}

/// Keys are distinct, every key has at least one version.
pub open spec fn registry_wf(r: RegistryView) -> bool {
    &&& r.keys.len() == r.versions.len()
    &&& r.keys.no_duplicates()
    &&& forall|i: int| 0 <= i < r.versions.len() ==> (#[trigger] r.versions[i]).len() > 0
}

/// The registry after recording version `v` of `k`: appended to the key's
/// versions, or a new entry when the key is new.
pub open spec fn registry_record(r: RegistryView, k: Seq<char>, v: Seq<char>) -> RegistryView {
    if r.keys.contains(k) {
        let i = r.keys.index_of(k);
        RegistryView { keys: r.keys, versions: r.versions.update(i, r.versions[i].push(v)) }
    } else {
        RegistryView { keys: r.keys.push(k), versions: r.versions.push(seq![v]) }
    }
}

impl VersionRegistry {
    /// No objects.
    pub fn new() -> (r: VersionRegistry)
        ensures
            r@.keys.len() == 0,
            registry_wf(r@),
    {
        let r = VersionRegistry { keys: Vec::new(), versions: Vec::new() };
        assert(r@.keys =~= Seq::<Seq<char>>::empty());
        assert(r@.versions =~= Seq::<Seq<Seq<char>>>::empty());
        r
    }

    /// The number of objects.
    pub fn len(&self) -> (r: usize)
        requires
            registry_wf(self@),
        ensures
            r == self@.keys.len(),
    {
        self.keys.len()
    }

    /// The number of versions of object `i`.
    pub fn version_count(&self, i: usize) -> (r: usize)
        requires
            registry_wf(self@),
            i < self@.keys.len(),
        ensures
            r == self@.versions[i as int].len(),
            r > 0,
    {
        assert(self@.versions[i as int] == views(self.versions@[i as int]@));
        self.versions[i].len()
    }

    /// Object `i` and its version `j`.
    pub fn pick(&self, i: usize, j: usize) -> (r: (String, String))
        requires
            registry_wf(self@),
            i < self@.keys.len(),
            j < self@.versions[i as int].len(),
        ensures
            r.0@ == self@.keys[i as int],
            r.1@ == self@.versions[i as int][j as int],
    {
        assert(self@.versions[i as int] == views(self.versions@[i as int]@));
        assert(self@.keys[i as int] == self.keys@[i as int]@);
        (self.keys[i].clone(), self.versions[i][j].clone())
    }

    /// Records version `v` of object `k`.
    pub fn record(&mut self, k: String, v: String)
        requires
            registry_wf(old(self)@),
        ensures
            registry_wf(final(self)@),
            final(self)@ == registry_record(old(self)@, k@, v@),
    {
        let ghost old_view = self@;
        let mut i: usize = 0;
        while i < self.keys.len()
            invariant
                i <= self.keys@.len(),
                self@ == old_view,
                old_view == old(self)@,
                registry_wf(old_view),
                forall|j: int| 0 <= j < i ==> old_view.keys[j] != k@,
            decreases self.keys@.len() - i,
        {
            assert(old_view.keys[i as int] == self.keys@[i as int]@);
            if str_eq(self.keys[i].as_str(), k.as_str()) {
                assert(old_view.keys.contains(k@));
                assert(old_view.keys.index_of(k@) == i) by {
                    let f = old_view.keys.index_of(k@);
                    if f != i {
                        assert(old_view.keys[f] == k@);
                    }
                }
                assert(old_view.versions[i as int] == views(self.versions@[i as int]@));
                let mut vs = clone_strings(self.versions[i].as_slice());
                let ghost before_push = vs@;
                vs.push(v);
                assert(views(vs@) =~= views(before_push).push(v@));
                let ghost vv = views(vs@);
                let ghost ov = self.versions@;
                self.versions.set(i, vs);
                assert forall|j: int| 0 <= j < self.versions@.len() implies #[trigger] self@.versions[j]
                    == old_view.versions.update(i as int, old_view.versions[i as int].push(v@))[j] by {
                    if j != i {
                        assert(self.versions@[j] == ov[j]);
                    }
                }
                assert(self@.versions =~= old_view.versions.update(i as int, old_view.versions[i as int].push(v@)));
                assert(self@.keys == old_view.keys);
                assert(self@ == registry_record(old_view, k@, v@));
                return ;
            }
            i = i + 1;
        }
        assert(!old_view.keys.contains(k@));
        self.keys.push(k);
        let mut vs: Vec<String> = Vec::new();
        vs.push(v);
        assert(views(vs@) =~= seq![v@]);
        let ghost ov = self.versions@;
        self.versions.push(vs);
        assert forall|j: int| 0 <= j < self.versions@.len() implies #[trigger] self@.versions[j]
            == old_view.versions.push(seq![v@])[j] by {
            if j < ov.len() {
                assert(self.versions@[j] == ov[j]);
            }
        }
        assert(self@.keys =~= old_view.keys.push(k@));
        assert(self@.versions =~= old_view.versions.push(seq![v@]));
        assert(self@.keys.no_duplicates());
    }
}

/// Recording a version keeps every earlier version and adds the new one
/// at the end of its object's list.
pub proof fn law_record_keeps_versions(r: RegistryView, k: Seq<char>, v: Seq<char>)
    requires
        registry_wf(r),
    ensures
        registry_record(r, k, v).keys.contains(k),
        ({
            let n = registry_record(r, k, v);
            let i = n.keys.index_of(k);
            n.versions[i].last() == v && n.versions[i].drop_last() == (if r.keys.contains(k) {
                r.versions[r.keys.index_of(k)]
            } else {
                seq![]
            })
        }),
{
    let n = registry_record(r, k, v);
    if r.keys.contains(k) {
        assert(n.versions[r.keys.index_of(k)].drop_last() =~= r.versions[r.keys.index_of(k)]);
    } else {
        assert(n.keys[r.keys.len() as int] == k);
        let i = n.keys.index_of(k);
        if i < r.keys.len() {
            assert(r.keys[i] == k);
        }
        assert(n.versions[i].drop_last() =~= seq![]);
    }
}

// ---------------------------------------------------------------------------
// Catalog reads
// ---------------------------------------------------------------------------

/// Where each worker is in the namespace, table and view lists.
#[derive(Debug, Clone)]
pub struct ReadCursors {
    pub ns: usize,
    pub tbl: usize,
    pub vw: usize,
}

/// Worker `thread` starts at its own offset in each list.
pub fn read_cursors_start(thread: usize, n_ns: usize, n_tbl: usize, n_vw: usize) -> (r: ReadCursors)
    ensures
        r.ns == thread % (if n_ns > 0 { n_ns } else { 1 }),
        r.tbl == thread % (if n_tbl > 0 { n_tbl } else { 1 }),
        r.vw == thread % (if n_vw > 0 { n_vw } else { 1 }),
{
    let a = if n_ns > 0 { n_ns } else { 1 };
    let b = if n_tbl > 0 { n_tbl } else { 1 };
    let c = if n_vw > 0 { n_vw } else { 1 };
    ReadCursors { ns: thread % a, tbl: thread % b, vw: thread % c }
}

/// The catalog read kinds.
pub open spec fn read_kind(op: Seq<char>) -> int {
    if op == "NS_LIST"@ || op == "NS_HEAD"@ || op == "NS_GET"@ {
        0
    } else if op == "TABLE_LIST"@ {
        1
    } else if op == "TABLE_HEAD"@ || op == "TABLE_GET"@ {
        2
    } else if op == "VIEW_LIST"@ {
        3
    } else if op == "VIEW_HEAD"@ || op == "VIEW_GET"@ {
        4
    } else {
        5
    }
}

/// `<catalog>/<dotted namespace>/` or, with a name, `<catalog>/<dotted
/// namespace>/<name>`.
pub open spec fn entry_path(catalog: Seq<char>, ns: Seq<Seq<char>>, name: Option<Seq<char>>) -> Seq<char> {
    catalog + "/"@ + join_spec(ns, "."@) + "/"@ + match name {
        Some(n) => n,
        None => seq![],
    }
}

/// The file a catalog read names, and the cursors after it; `None` where the
/// operation is unknown or its list is empty (the worker skips the turn).
pub open spec fn read_target_spec(
    op: Seq<char>,
    catalog: Seq<char>,
    c: (nat, nat, nat),
    namespaces: Seq<Seq<Seq<char>>>,
    tables: Seq<(Seq<Seq<char>>, Seq<char>)>,
    views_: Seq<(Seq<Seq<char>>, Seq<char>)>,
) -> Option<(Seq<char>, (nat, nat, nat))> {
    let k = read_kind(op);
    if k == 0 && namespaces.len() > 0 {
        Some((entry_path(catalog, namespaces[(c.0 % namespaces.len()) as int], None), (c.0 + 1, c.1, c.2)))
    } else if (k == 1 || k == 2) && tables.len() > 0 {
        let t = tables[(c.1 % tables.len()) as int];
        Some((entry_path(catalog, t.0, if k == 2 { Some(t.1) } else { None }), (c.0, c.1 + 1, c.2)))
    } else if (k == 3 || k == 4) && views_.len() > 0 {
        let v = views_[(c.2 % views_.len()) as int];
        Some((entry_path(catalog, v.0, if k == 4 { Some(v.1) } else { None }), (c.0, c.1, c.2 + 1)))
    } else {
        None
    }
}

/// The catalog read operations.
pub open spec fn catalog_read_op(op: Seq<char>) -> bool {
    op == "NS_LIST"@ || op == "NS_HEAD"@ || op == "NS_GET"@ || op == "TABLE_LIST"@ || op == "TABLE_HEAD"@
        || op == "TABLE_GET"@ || op == "VIEW_LIST"@ || op == "VIEW_HEAD"@ || op == "VIEW_GET"@
}

/// Law: what each catalog read names. A namespace read names the next
/// namespace (`<catalog>/<dotted path>/`); a table or view listing names the
/// next entry's namespace the same way; a table or view head or get names
/// the entry itself (`<catalog>/<dotted path>/<name>`). Only the cursor of
/// the list read moves, by one. An unknown operation, or one whose list is
/// empty, names nothing.
pub proof fn law_read_targets(
    op: Seq<char>,
    catalog: Seq<char>,
    c: (nat, nat, nat),
    namespaces: Seq<Seq<Seq<char>>>,
    tables: Seq<(Seq<Seq<char>>, Seq<char>)>,
    views_: Seq<(Seq<Seq<char>>, Seq<char>)>,
)
    ensures
        (op == "NS_LIST"@ || op == "NS_HEAD"@ || op == "NS_GET"@) && namespaces.len() > 0 ==> read_target_spec(
            op,
            catalog,
            c,
            namespaces,
            tables,
            views_,
        ) == Some((
            catalog + "/"@ + join_spec(namespaces[(c.0 % namespaces.len()) as int], "."@) + "/"@,
            (c.0 + 1, c.1, c.2),
        )),
        op == "TABLE_LIST"@ && tables.len() > 0 ==> read_target_spec(op, catalog, c, namespaces, tables, views_)
            == Some((
            catalog + "/"@ + join_spec(tables[(c.1 % tables.len()) as int].0, "."@) + "/"@,
            (c.0, c.1 + 1, c.2),
        )),
        (op == "TABLE_HEAD"@ || op == "TABLE_GET"@) && tables.len() > 0 ==> read_target_spec(
            op,
            catalog,
            c,
            namespaces,
            tables,
            views_,
        ) == Some((
            catalog + "/"@ + join_spec(tables[(c.1 % tables.len()) as int].0, "."@) + "/"@ + tables[(c.1
                % tables.len()) as int].1,
            (c.0, c.1 + 1, c.2),
        )),
        op == "VIEW_LIST"@ && views_.len() > 0 ==> read_target_spec(op, catalog, c, namespaces, tables, views_)
            == Some((
            catalog + "/"@ + join_spec(views_[(c.2 % views_.len()) as int].0, "."@) + "/"@,
            (c.0, c.1, c.2 + 1),
        )),
        (op == "VIEW_HEAD"@ || op == "VIEW_GET"@) && views_.len() > 0 ==> read_target_spec(
            op,
            catalog,
            c,
            namespaces,
            tables,
            views_,
        ) == Some((
            catalog + "/"@ + join_spec(views_[(c.2 % views_.len()) as int].0, "."@) + "/"@ + views_[(c.2
                % views_.len()) as int].1,
            (c.0, c.1, c.2 + 1),
        )),
        !catalog_read_op(op) ==> read_target_spec(op, catalog, c, namespaces, tables, views_) is None,
        (op == "NS_LIST"@ || op == "NS_HEAD"@ || op == "NS_GET"@) && namespaces.len() == 0 ==> read_target_spec(
            op,
            catalog,
            c,
            namespaces,
            tables,
            views_,
        ) is None,
        (op == "TABLE_LIST"@ || op == "TABLE_HEAD"@ || op == "TABLE_GET"@) && tables.len() == 0
            ==> read_target_spec(op, catalog, c, namespaces, tables, views_) is None,
        (op == "VIEW_LIST"@ || op == "VIEW_HEAD"@ || op == "VIEW_GET"@) && views_.len() == 0
            ==> read_target_spec(op, catalog, c, namespaces, tables, views_) is None,
{
    reveal_strlit("NS_LIST");
    reveal_strlit("NS_HEAD");
    reveal_strlit("NS_GET");
    reveal_strlit("TABLE_LIST");
    reveal_strlit("TABLE_HEAD");
    reveal_strlit("TABLE_GET");
    reveal_strlit("VIEW_LIST");
    reveal_strlit("VIEW_HEAD");
    reveal_strlit("VIEW_GET");
    assert("NS_LIST"@[1] == 'S' && "NS_HEAD"@[1] == 'S' && "NS_GET"@[1] == 'S');
    assert("TABLE_LIST"@[0] == 'T' && "TABLE_HEAD"@[0] == 'T' && "TABLE_GET"@[0] == 'T');
    assert("VIEW_LIST"@[0] == 'V' && "VIEW_HEAD"@[0] == 'V' && "VIEW_GET"@[0] == 'V');
    assert("NS_LIST"@[0] == 'N' && "NS_HEAD"@[0] == 'N' && "NS_GET"@[0] == 'N');
    assert("TABLE_LIST"@[6] == 'L' && "TABLE_HEAD"@[6] == 'H' && "TABLE_GET"@[6] == 'G');
    assert("VIEW_LIST"@[5] == 'L' && "VIEW_HEAD"@[5] == 'H' && "VIEW_GET"@[5] == 'G');
    assert("NS_LIST"@[3] == 'L' && "NS_HEAD"@[3] == 'H' && "NS_GET"@[3] == 'G');
}

fn read_kind_of(op: &str) -> (r: u8)
    ensures
        r == read_kind(op@),
{
    if str_eq(op, "NS_LIST") || str_eq(op, "NS_HEAD") || str_eq(op, "NS_GET") {
        0
    } else if str_eq(op, "TABLE_LIST") {
        1
    } else if str_eq(op, "TABLE_HEAD") || str_eq(op, "TABLE_GET") {
        2
    } else if str_eq(op, "VIEW_LIST") {
        3
    } else if str_eq(op, "VIEW_HEAD") || str_eq(op, "VIEW_GET") {
        4
    } else {
        5
    }
}

fn path_of(catalog: &str, ns: &[String], name: Option<&String>) -> (r: String)
    ensures
        r@ == entry_path(
            catalog@,
            views(ns@),
            match name {
                Some(n) => Some(n@),
                None => None,
            },
        ),
{
    let dotted = join_strings(ns, ".");
    let head = concat3(catalog, "/", dotted.as_str());
    match name {
        Some(n) => concat3(head.as_str(), "/", n.as_str()),
        None => concat2(head.as_str(), "/"),
    }
}

/// The file of one catalog read, moving the cursor of its list on; `None`
/// (cursors unchanged) where the worker skips the turn.
pub fn read_target(
    op: &str,
    catalog: &str,
    c: &mut ReadCursors,
    namespaces: &[NamespaceInfo],
    tables: &[TableInfo],
    views_: &[ViewInfo],
) -> (r: Option<String>)
    requires
        old(c).ns < usize::MAX,
        old(c).tbl < usize::MAX,
        old(c).vw < usize::MAX,
    ensures
        match read_target_spec(
            op@,
            catalog@,
            (old(c).ns as nat, old(c).tbl as nat, old(c).vw as nat),
            namespaces@.map_values(|n: NamespaceInfo| views(n.path@)),
            tables@.map_values(|t: TableInfo| (views(t.namespace@), t.name@)),
            views_@.map_values(|t: ViewInfo| (views(t.namespace@), t.name@)),
        ) {
            Some((f, (a, b, d))) => r matches Some(s) && s@ == f && final(c).ns == a && final(c).tbl == b
                && final(c).vw == d,
            None => r is None && final(c).ns == old(c).ns && final(c).tbl == old(c).tbl
                && final(c).vw == old(c).vw,
        },
{
    let k = read_kind_of(op);
    let ghost nv = namespaces@.map_values(|n: NamespaceInfo| views(n.path@));
    let ghost tv = tables@.map_values(|t: TableInfo| (views(t.namespace@), t.name@));
    let ghost vv = views_@.map_values(|t: ViewInfo| (views(t.namespace@), t.name@));
    if k == 0 && namespaces.len() > 0 {
        let i = c.ns % namespaces.len();
        assert(nv[i as int] == views(namespaces@[i as int].path@));
        let f = path_of(catalog, namespaces[i].path.as_slice(), None);
        c.ns = c.ns + 1;
        Some(f)
    } else if (k == 1 || k == 2) && tables.len() > 0 {
        let i = c.tbl % tables.len();
        assert(tv[i as int] == (views(tables@[i as int].namespace@), tables@[i as int].name@));
        let f = if k == 2 {
            path_of(catalog, tables[i].namespace.as_slice(), Some(&tables[i].name))
        } else {
            path_of(catalog, tables[i].namespace.as_slice(), None)
        };
        c.tbl = c.tbl + 1;
        Some(f)
    } else if (k == 3 || k == 4) && views_.len() > 0 {
        let i = c.vw % views_.len();
        assert(vv[i as int] == (views(views_@[i as int].namespace@), views_@[i as int].name@));
        let f = if k == 4 {
            path_of(catalog, views_[i].namespace.as_slice(), Some(&views_[i].name))
        } else {
            path_of(catalog, views_[i].namespace.as_slice(), None)
        };
        c.vw = c.vw + 1;
        Some(f)
    } else {
        None
    }
}

// ---------------------------------------------------------------------------
// Batch deletes
// ---------------------------------------------------------------------------

/// The first offset of worker `thread`.
pub fn delete_start(thread: usize, chunk: usize) -> (r: usize)
    requires
        thread * (if chunk > 0 { chunk } else { 1 }) <= usize::MAX,
    ensures
        r == thread * (if chunk > 0 { chunk } else { 1 }),
{
    let c = if chunk > 0 { chunk } else { 1 };
    thread * c
}

/// The keys one delete request removes: from `offset`, at most the batch
/// size and at most 1000 (the service's limit), with the offset of the
/// worker's next request; `None` once the offset is past the keys.
pub fn delete_batch(keys: &[String], offset: usize, chunk: usize) -> (r: Option<(Vec<String>, usize)>)
    requires
        offset + chunk <= usize::MAX,
    ensures
        offset >= keys@.len() ==> r is None,
        offset < keys@.len() ==> (r matches Some((b, next)) && next == offset + (if chunk > 0 { chunk } else { 1 })
            && views(b@) == views(keys@.subrange(
            offset as int,
            vstd::math::min(keys@.len() as int, offset + vstd::math::min(if chunk > 0 { chunk as int } else { 1 }, 1000)),
        ))),
{
    if offset >= keys.len() {
        return None;
    }
    let c = if chunk > 0 { chunk } else { 1 };
    let take = if c < 1000 { c } else { 1000 };
    let end = if keys.len() - offset < take { keys.len() } else { offset + take };
    let mut batch: Vec<String> = Vec::new();
    let mut i: usize = offset;
    while i < end
        invariant
            offset <= i <= end <= keys@.len(),
            views(batch@) == views(keys@.subrange(offset as int, i as int)),
        decreases end - i,
    {
        let k = keys[i].clone();
        let ghost before = batch@;
        batch.push(k);
        assert(views(batch@) =~= views(before).push(keys@[i as int]@));
        i = i + 1;
        assert(views(keys@.subrange(offset as int, i as int)) =~= views(keys@.subrange(offset as int, i - 1)).push(
            keys@[i - 1]@,
        ));
    }
    Some((batch, offset + c))
}

// ---------------------------------------------------------------------------
// Fan-out writes
// ---------------------------------------------------------------------------

/// The key of copy `i` of an object: `<base>/copy-<i, at least 4 digits>`.
pub fn fanout_key(base: &str, i: usize) -> (r: String)
    ensures
        r@ == base@ + "/copy-"@ + crate::num::zero_pad(crate::num::dec_str(i as nat), 4),
{
    let digits = crate::num::render_radix(i as u64, 10);
    let padded = crate::num::pad_zeros(&digits, 4);
    let n = crate::text::string_from_chars(padded.as_slice());
    concat3(base, "/copy-", n.as_str())
}

/// What a fan-out round records: no error and all copies' bytes when every
/// copy was written, else `<failed>/<copies> copies failed` and no bytes.
pub fn fanout_outcome(copies: usize, ok_count: usize, size: i64) -> (r: (String, i64))
    requires
        ok_count <= copies <= i64::MAX,
        ok_count == copies ==> i64::MIN <= size * copies <= i64::MAX,
    ensures
        ok_count == copies ==> r.0@.len() == 0 && r.1 == size * copies,
        ok_count < copies ==> r.0@ == crate::num::dec_str((copies - ok_count) as nat) + "/"@
            + crate::num::dec_str(copies as nat) + " copies failed"@ && r.1 == 0,
{
    if ok_count == copies {
        let c = copies as i64;
        assert(c == copies);
        (String::new(), size * c)
    } else {
        let failed = crate::num::fmt_usize(copies - ok_count);
        let total = crate::num::fmt_usize(copies);
        let head = concat3(failed.as_str(), "/", total.as_str());
        (concat2(head.as_str(), " copies failed"), 0)
    }
}

// ---------------------------------------------------------------------------
// Append chains
// ---------------------------------------------------------------------------

/// The most writes to one object of an append chain; the next write starts
/// a new object.
pub const MAX_APPEND_PARTS: u32 = 10000;

/// Where a worker's append chain stands: the part number of its next write
/// and the counter that names the object written.
#[derive(Debug, Clone, Copy, PartialEq, Eq)]
pub struct AppendChain {
    pub part: u32,
    pub counter: u64,
}

/// The chain a worker starts with: part 1 of the object named by its own
/// number.
pub fn append_chain_start(thread: usize) -> (r: AppendChain)
    requires
        thread <= u64::MAX,
    ensures
        r.part == 1,
        r.counter == thread,
{
    AppendChain { part: 1, counter: thread as u64 }
}

/// The chain after one more write: the next part, or part 1 of the next
/// object once the parts are used up.
pub open spec fn append_next_spec(c: AppendChain) -> AppendChain {
    if c.part + 1 > MAX_APPEND_PARTS {
        AppendChain { part: 1, counter: (c.counter + 1) as u64 }
    } else {
        AppendChain { part: (c.part + 1) as u32, counter: c.counter }
    }
}

/// See [`append_next_spec`]; the object counter must not be at its limit
/// when a new object starts.
pub fn append_next(c: AppendChain) -> (r: AppendChain)
    requires
        c.part + 1 > MAX_APPEND_PARTS ==> c.counter < u64::MAX,
        c.part < u32::MAX,
    ensures
        r == append_next_spec(c),
{
    let part = c.part + 1;
    if part > MAX_APPEND_PARTS {
        AppendChain { part: 1, counter: c.counter + 1 }
    } else {
        AppendChain { part, counter: c.counter }
    }
}

/// The key of an append chain's object: `<prefix>.<counter, 16 hex digits>.append`.
pub open spec fn append_key_spec(prefix: Seq<char>, counter: nat) -> Seq<char> {
    prefix + "."@ + crate::generator::hex16(counter) + ".append"@
}

/// [`append_key_spec`], written out.
pub fn append_key(prefix: &str, counter: u64) -> (r: String)
    ensures
        r@ == append_key_spec(prefix@, counter as nat),
{
    let digits = crate::num::render_radix(counter, 16);
    let padded = crate::num::pad_zeros(&digits, 16);
    let hex = crate::text::string_from_chars(padded.as_slice());
    let head = concat3(prefix, ".", hex.as_str());
    concat2(head.as_str(), ".append")
}

/// The size a write of part `part` stands for: the object so far.
pub fn append_logical_size(part: u32, obj_size: i64) -> (r: i64)
    requires
        i64::MIN <= part * obj_size <= i64::MAX,
    ensures
        r == part * obj_size,
{
    (part as i64) * obj_size
}

/// An append chain keeps its part number between 1 and the limit, and
/// moves to a new object exactly when the limit is passed.
pub proof fn law_append_parts_bounded(c: AppendChain)
    requires
        1 <= c.part <= MAX_APPEND_PARTS,
        c.counter < u64::MAX,
    ensures
        1 <= append_next_spec(c).part <= MAX_APPEND_PARTS,
        append_next_spec(c).counter == c.counter <==> c.part < MAX_APPEND_PARTS,
{
}

// ---------------------------------------------------------------------------
// Catalog writes
// ---------------------------------------------------------------------------

/// The entry a catalog write names, counting `id` round the list: a
/// namespace for `NS_UPDATE`, a table for `TABLE_UPDATE` and `COMMIT`, a
/// view for `VIEW_UPDATE`; `None` for another operation or an empty list.
pub open spec fn update_target_spec(
    op: Seq<char>,
    catalog: Seq<char>,
    id: nat,
    namespaces: Seq<Seq<Seq<char>>>,
    tables: Seq<(Seq<Seq<char>>, Seq<char>)>,
    views_: Seq<(Seq<Seq<char>>, Seq<char>)>,
) -> Option<Seq<char>> {
    if op == "NS_UPDATE"@ && namespaces.len() > 0 {
        Some(entry_path(catalog, namespaces[(id % namespaces.len()) as int], None))
    } else if (op == "TABLE_UPDATE"@ || op == "COMMIT"@) && tables.len() > 0 {
        let t = tables[(id % tables.len()) as int];
        Some(entry_path(catalog, t.0, Some(t.1)))
    } else if op == "VIEW_UPDATE"@ && views_.len() > 0 {
        let v = views_[(id % views_.len()) as int];
        Some(entry_path(catalog, v.0, Some(v.1)))
    } else {
        None
    }
}

/// See [`update_target_spec`].
pub fn update_target(
    op: &str,
    catalog: &str,
    id: usize,
    namespaces: &[NamespaceInfo],
    tables: &[TableInfo],
    views_: &[ViewInfo],
) -> (r: Option<String>)
    ensures
        match update_target_spec(
            op@,
            catalog@,
            id as nat,
            namespaces@.map_values(|n: NamespaceInfo| views(n.path@)),
            tables@.map_values(|t: TableInfo| (views(t.namespace@), t.name@)),
            views_@.map_values(|t: ViewInfo| (views(t.namespace@), t.name@)),
        ) {
            Some(f) => r matches Some(s) && s@ == f,
            None => r is None,
        },
{
    if str_eq(op, "NS_UPDATE") && namespaces.len() > 0 {
        let n = &namespaces[id % namespaces.len()];
        Some(path_of(catalog, n.path.as_slice(), None))
    } else if (str_eq(op, "TABLE_UPDATE") || str_eq(op, "COMMIT")) && tables.len() > 0 {
        let t = &tables[id % tables.len()];
        Some(path_of(catalog, t.namespace.as_slice(), Some(&t.name)))
    } else if str_eq(op, "VIEW_UPDATE") && views_.len() > 0 {
        let v = &views_[id % views_.len()];
        Some(path_of(catalog, v.namespace.as_slice(), Some(&v.name)))
    } else {
        None
    }
}

/// How many workers commit to one kind of entry: the number asked for,
/// else half the concurrency (at least one) when there are entries, else
/// none.
pub fn commit_workers(requested: usize, concurrency: usize, available: usize) -> (r: usize)
    ensures
        r == (if requested > 0 {
            requested
        } else if available > 0 {
            if concurrency / 2 >= 1 { concurrency / 2 } else { 1usize }
        } else {
            0usize
        }),
{
    if requested > 0 {
        requested
    } else if available > 0 {
        let half = concurrency / 2;
        if half >= 1 { half } else { 1 }
    } else {
        0
    }
}

} // verus!
