//! The N-ary namespace tree that the Iceberg catalog benchmarks populate:
//! `namespace_depth` levels, each namespace with `namespace_width` children,
//! and tables and views under every leaf namespace.
use vstd::prelude::*;
use crate::num::{dec_str, fmt_usize};
use crate::text::{clone_strings, concat2, join_spec, join_strings, owned, views};
use crate::random::rng_below;

verus! {

// ---------------------------------------------------------------------------
// Arithmetic model
// ---------------------------------------------------------------------------

/// `b` to the power `e`.
pub open spec fn pw(b: nat, e: nat) -> nat
    decreases e,
{
    if e == 0 {
        1
    } else {
        b * pw(b, (e - 1) as nat)
    }
}

/// Number of namespaces in the first `d` levels: `1 + w + ... + w^(d-1)`.
pub open spec fn ns_count(w: nat, d: nat) -> nat
    decreases d,
{
    if d == 0 {
        0
    } else {
        ns_count(w, (d - 1) as nat) + pw(w, (d - 1) as nat)
    }
}

/// The index that the `i`-th namespace of level `d` carries in its path
/// component at `level` (`level <= d`): the index of its ancestor on that
/// level, so that a child's path is its parent's path plus its own
/// component (the parent of namespace `i` of a level is namespace `i / w` of
/// the level above).
pub open spec fn level_idx(w: nat, d: nat, i: nat, level: nat) -> nat {
    if level == d {
        i
    } else {
        i / pw(w, (d - level) as nat)
    }
}

/// The text `ns_<k>`.
pub open spec fn ns_name(k: nat) -> Seq<char> {
    "ns_"@ + dec_str(k)
}

/// The path of the `i`-th namespace of level `d`.
pub open spec fn ns_path(w: nat, d: nat, i: nat) -> Seq<Seq<char>> {
    Seq::new(d + 1, |level: int| ns_name(level_idx(w, d, i, level as nat)))
}

/// A namespace as plain values.
pub struct NamespaceView {
    pub path: Seq<Seq<char>>,
    pub ordinal: nat,
}

/// The namespaces of level `d`, in order.
pub open spec fn level_seq(w: nat, d: nat) -> Seq<NamespaceView> {
    Seq::new(
        pw(w, d),
        |i: int| NamespaceView { path: ns_path(w, d, i as nat), ordinal: ns_count(w, d) + i as nat },
    )
}

/// All namespaces of the first `d` levels, level by level.
pub open spec fn ns_seq(w: nat, d: nat) -> Seq<NamespaceView>
    decreases d,
{
    if d == 0 {
        Seq::empty()
    } else {
        ns_seq(w, (d - 1) as nat) + level_seq(w, (d - 1) as nat)
    }
}

/// The leaf namespaces of a tree of depth `depth`.
pub open spec fn leaf_seq(w: nat, depth: nat) -> Seq<NamespaceView> {
    if depth == 0 {
        Seq::empty()
    } else {
        level_seq(w, (depth - 1) as nat)
    }
}

/// A table or view entry as plain values.
pub struct EntryView {
    pub namespace: Seq<Seq<char>>,
    pub name: Seq<char>,
    pub location: Seq<char>,
}

/// The entry named `prefix<t>` under namespace path `path`.
pub open spec fn entry_at(base: Seq<char>, path: Seq<Seq<char>>, prefix: Seq<char>, t: nat) -> EntryView {
    let name = prefix + dec_str(t);
    EntryView { namespace: path, name, location: base + "/"@ + join_spec(path, "/"@) + "/"@ + name }
}

/// The `per_ns` entries of every leaf namespace, leaf by leaf.
pub open spec fn entries_seq(
    w: nat,
    depth: nat,
    per_ns: nat,
    base: Seq<char>,
    prefix: Seq<char>,
) -> Seq<EntryView> {
    let leaves = leaf_seq(w, depth);
    Seq::new(
        leaves.len(),
        |j: int| Seq::new(per_ns, |t: int| entry_at(base, leaves[j].path, prefix, t as nat)),
    ).flatten()
}

// ---------------------------------------------------------------------------
// Lemmas
// ---------------------------------------------------------------------------

pub proof fn lemma_pw_pos(b: nat, e: nat)
    requires
        b >= 1,
    ensures
        pw(b, e) >= 1,
    decreases e,
{
    if e > 0 {
        lemma_pw_pos(b, (e - 1) as nat);
        assert(b * pw(b, (e - 1) as nat) >= 1) by (nonlinear_arith)
            requires
                b >= 1,
                pw(b, (e - 1) as nat) >= 1,
        ;
    }
}

pub proof fn lemma_pw_mono(b: nat, e1: nat, e2: nat)
    requires
        b >= 1,
        e1 <= e2,
    ensures
        pw(b, e1) <= pw(b, e2),
    decreases e2,
{
    if e1 < e2 {
        lemma_pw_mono(b, e1, (e2 - 1) as nat);
        lemma_pw_pos(b, (e2 - 1) as nat);
        assert(pw(b, (e2 - 1) as nat) <= b * pw(b, (e2 - 1) as nat)) by (nonlinear_arith)
            requires
                b >= 1,
        ;
    }
}

/// `ns_count(w, d) * (w - 1) == w^d - 1`.
pub proof fn lemma_ns_count_geometric(w: nat, d: nat)
    requires
        w >= 2,
    ensures
        ns_count(w, d) * ((w - 1) as nat) + 1 == pw(w, d),
    decreases d,
{
    let k = (w - 1) as nat;
    if d > 0 {
        lemma_ns_count_geometric(w, (d - 1) as nat);
        let c = ns_count(w, (d - 1) as nat);
        let p = pw(w, (d - 1) as nat);
        assert(pw(w, d) == w * p);
        assert(ns_count(w, d) == c + p);
        assert((c + p) * k + 1 == w * p) by (nonlinear_arith)
            requires
                c * k + 1 == p,
                k + 1 == w,
        ;
    } else {
        assert(ns_count(w, d) == 0);
        assert(ns_count(w, d) * k == 0) by (nonlinear_arith)
            requires
                ns_count(w, d) == 0,
        ;
    }
}

/// With `w >= 2` there are fewer namespaces in the first `d` levels than in
/// level `d`; with `w == 1` there are exactly `d`.
pub proof fn lemma_ns_count_bound(w: nat, d: nat)
    requires
        w >= 1,
    ensures
        w == 1 ==> ns_count(w, d) == d,
        w >= 2 ==> ns_count(w, d) < pw(w, d),
    decreases d,
{
    if w == 1 {
        if d > 0 {
            lemma_ns_count_bound(w, (d - 1) as nat);
            lemma_pw_one(d - 1);
        }
    } else {
        lemma_ns_count_geometric(w, d);
        let c = ns_count(w, d);
        assert(c <= c * ((w - 1) as nat)) by (nonlinear_arith)
            requires
                w >= 2,
        ;
    }
}

pub proof fn lemma_pw_one(e: int)
    requires
        e >= 0,
    ensures
        pw(1, e as nat) == 1,
    decreases e,
{
    if e > 0 {
        lemma_pw_one(e - 1);
    }
}

pub proof fn lemma_ns_seq_len(w: nat, d: nat)
    ensures
        ns_seq(w, d).len() == ns_count(w, d),
    decreases d,
{
    if d > 0 {
        lemma_ns_seq_len(w, (d - 1) as nat);
    }
}

/// Every component index is below `w^d`.
pub proof fn lemma_level_idx_bound(w: nat, d: nat, i: nat, level: nat)
    requires
        w >= 1,
        level <= d,
        i < pw(w, d),
    ensures
        level_idx(w, d, i, level) < pw(w, d),
{
    if level < d {
        lemma_pw_pos(w, (d - level) as nat);
        let p = pw(w, (d - level) as nat);
        assert(i / p <= i) by (nonlinear_arith)
            requires
                p >= 1,
        ;
    }
}

/// A child's path is its parent's path followed by the child's own
/// component: namespace `i` of level `d` sits under namespace `i / w` of
/// level `d - 1`.
pub proof fn law_child_extends_parent(w: nat, d: nat, i: nat)
    requires
        w >= 1,
        d >= 1,
        i < pw(w, d),
    ensures
        i / w < pw(w, (d - 1) as nat),
        ns_path(w, d, i) == ns_path(w, (d - 1) as nat, i / w).push(ns_name(i)),
{
    let pd = (d - 1) as nat;
    assert(pw(w, d) == w * pw(w, pd));
    lemma_pw_pos(w, pd);
    assert(i / w < pw(w, pd)) by (nonlinear_arith)
        requires
            i < w * pw(w, pd),
            w >= 1,
    ;
    let a = ns_path(w, d, i);
    let b = ns_path(w, pd, i / w).push(ns_name(i));
    assert forall|level: int| 0 <= level < a.len() implies #[trigger] a[level] == b[level] by {
        if level < d {
            let k = (pd - level) as nat;
            lemma_pw_pos(w, k);
            assert(pw(w, (d - level) as nat) == w * pw(w, k));
            vstd::arithmetic::div_mod::lemma_div_denominator(i as int, w as int, pw(w, k) as int);
            if level == pd {
                assert(level_idx(w, pd, i / w, level as nat) == i / w);
                assert(pw(w, 0) == 1);
                assert(i / w / 1 == i / w);
            }
        }
    }
    assert(a =~= b);
}

/// Every namespace of level `d` below the deepest has exactly `w`
/// children on the next level: namespaces `j * w` to `j * w + w - 1`.
pub proof fn law_children_of(w: nat, d: nat, j: nat, c: nat)
    requires
        w >= 1,
        j < pw(w, d),
        c < w,
    ensures
        j * w + c < pw(w, d + 1),
        (j * w + c) / w == j,
        ns_path(w, d + 1, j * w + c) == ns_path(w, d, j).push(ns_name(j * w + c)),
{
    assert(pw(w, d + 1) == w * pw(w, d));
    assert(j * w + c < w * pw(w, d)) by (nonlinear_arith)
        requires
            j < pw(w, d),
            c < w,
    ;
    assert((j * w + c) / w == j) by (nonlinear_arith)
        requires
            c < w,
            w >= 1,
    ;
    law_child_extends_parent(w, d + 1, j * w + c);
}

/// Flattening rows that all hold `m` items gives `n * m` items.
pub proof fn lemma_flatten_uniform_len<A>(rows: Seq<Seq<A>>, m: nat)
    requires
        forall|j: int| 0 <= j < rows.len() ==> #[trigger] rows[j].len() == m,
    ensures
        rows.flatten().len() == rows.len() * m,
    decreases rows.len(),
{
    if rows.len() > 0 {
        let rest = rows.drop_first();
        assert forall|j: int| 0 <= j < rest.len() implies #[trigger] rest[j].len() == m by {
            assert(rest[j] == rows[j + 1]);
        }
        lemma_flatten_uniform_len(rest, m);
        assert(rows.flatten() == rows.first() + rest.flatten());
        assert((rows.len() - 1) * m + m == rows.len() * m) by (nonlinear_arith);
    }
}

/// In rows of `m` items each, item `k` of row `j` is item `j * m + k` of
/// the rows flattened.
pub proof fn lemma_flatten_uniform_index<A>(rows: Seq<Seq<A>>, m: nat, j: int, k: int)
    requires
        forall|i: int| 0 <= i < rows.len() ==> #[trigger] rows[i].len() == m,
        0 <= j < rows.len(),
        0 <= k < m,
    ensures
        j * m + k < rows.flatten().len(),
        rows.flatten()[j * m + k] == rows[j][k],
    decreases j,
{
    let rest = rows.drop_first();
    assert forall|i: int| 0 <= i < rest.len() implies #[trigger] rest[i].len() == m by {
        assert(rest[i] == rows[i + 1]);
    }
    lemma_flatten_uniform_len(rows, m);
    let len = rows.len();
    assert(j * m + k < len * m) by (nonlinear_arith)
        requires
            0 <= j < len,
            0 <= k < m,
    ;
    assert(rows.flatten() == rows.first() + rest.flatten());
    assert(rows.first().len() == m);
    if j > 0 {
        lemma_flatten_uniform_index(rest, m, j - 1, k);
        assert(rest[j - 1] == rows[j]);
        let x = (j - 1) * m + k;
        assert(j * m + k == m + x) by (nonlinear_arith)
            requires
                x == (j - 1) * m + k,
        ;
        assert(rows.flatten()[m + x] == rest.flatten()[x]);
    } else {
        assert(j * m + k == k) by (nonlinear_arith)
            requires
                j == 0,
        ;
        assert(rows.flatten()[k] == rows.first()[k]);
    }
}

// ---------------------------------------------------------------------------
// Executable data
// ---------------------------------------------------------------------------

/// Shape and naming of the tree.
#[derive(Debug, Clone)]
pub struct TreeConfig {
    pub namespace_width: usize,
    pub namespace_depth: usize,
    pub tables_per_ns: usize,
    pub views_per_ns: usize,
    pub columns: usize,
    pub properties: usize,
    pub base_location: String,
    pub catalog_name: String,
}

impl Default for TreeConfig {
    fn default() -> (r: Self)
        ensures
            r.namespace_width == 2,
            r.namespace_depth == 3,
            r.tables_per_ns == 5,
            r.views_per_ns == 5,
            r.columns == 10,
            r.properties == 5,
            r.base_location@ == "s3://benchmark"@,
            r.catalog_name@ == "benchmarkcatalog"@,
    {
        TreeConfig {
            namespace_width: 2,
            namespace_depth: 3,
            tables_per_ns: 5,
            views_per_ns: 5,
            columns: 10,
            properties: 5,
            base_location: owned("s3://benchmark"),
            catalog_name: owned("benchmarkcatalog"),
        }
    }
}

/// One namespace: its path from the root and its position in creation order.
#[derive(Debug, Clone)]
pub struct NamespaceInfo {
    pub path: Vec<String>,
    pub ordinal: usize,
}

impl View for NamespaceInfo {
    type V = NamespaceView;

    open spec fn view(&self) -> NamespaceView {
        NamespaceView { path: views(self.path@), ordinal: self.ordinal as nat }
    }
}

/// A table under a leaf namespace.
#[derive(Debug, Clone)]
pub struct TableInfo {
    pub namespace: Vec<String>,
    pub name: String,
    pub location: String,
}

impl View for TableInfo {
    type V = EntryView;

    open spec fn view(&self) -> EntryView {
        EntryView { namespace: views(self.namespace@), name: self.name@, location: self.location@ }
    }
}

/// A view under a leaf namespace.
#[derive(Debug, Clone)]
pub struct ViewInfo {
    pub namespace: Vec<String>,
    pub name: String,
    pub location: String,
}

impl View for ViewInfo {
    type V = EntryView;

    open spec fn view(&self) -> EntryView {
        EntryView { namespace: views(self.namespace@), name: self.name@, location: self.location@ }
    }
}

pub open spec fn ns_views(v: Seq<NamespaceInfo>) -> Seq<NamespaceView> {
    v.map_values(|n: NamespaceInfo| n@)
}

pub open spec fn table_views(v: Seq<TableInfo>) -> Seq<EntryView> {
    v.map_values(|n: TableInfo| n@)
}

pub open spec fn view_views(v: Seq<ViewInfo>) -> Seq<EntryView> {
    v.map_values(|n: ViewInfo| n@)
}

/// The tree described by a configuration.
pub struct Tree {
    cfg: TreeConfig,
}

/// `b^e`, which must fit in a `usize`.
pub fn pow_usize(b: usize, e: usize) -> (r: usize)
    requires
        b >= 1,
        pw(b as nat, e as nat) <= usize::MAX,
    ensures
        r == pw(b as nat, e as nat),
{
    let mut r: usize = 1;
    let mut k: usize = 0;
    while k < e
        invariant
            b >= 1,
            k <= e,
            r == pw(b as nat, k as nat),
            pw(b as nat, e as nat) <= usize::MAX,
        decreases e - k,
    {
        proof {
            lemma_pw_mono(b as nat, (k + 1) as nat, e as nat);
            assert(pw(b as nat, (k + 1) as nat) == b * pw(b as nat, k as nat));
            assert(r * b == b * r) by (nonlinear_arith);
        }
        r = r * b;
        k = k + 1;
    }
    r
}

/// The text `ns_<k>`.
fn ns_name_exec(k: usize) -> (r: String)
    ensures
        r@ == ns_name(k as nat),
{
    let d = fmt_usize(k);
    concat2("ns_", d.as_str())
}

impl Tree {
    /// The arithmetic of the tree stays within `usize`: `width^depth` fits.
    pub open spec fn fits(cfg: TreeConfig) -> bool {
        &&& cfg.namespace_width >= 1
        &&& pw(cfg.namespace_width as nat, cfg.namespace_depth as nat) <= usize::MAX
    }

    pub closed spec fn cfg_spec(&self) -> TreeConfig {
        self.cfg
    }

    pub open spec fn width(&self) -> nat {
        self.cfg_spec().namespace_width as nat
    }

    pub open spec fn depth(&self) -> nat {
        self.cfg_spec().namespace_depth as nat
    }

    pub fn new(cfg: TreeConfig) -> (r: Self)
        ensures
            r.cfg_spec() == cfg,
    {
        Tree { cfg }
    }

    pub fn config(&self) -> (r: &TreeConfig)
        ensures
            *r == self.cfg_spec(),
    {
        &self.cfg
    }

    /// Number of namespaces in the tree: `1 + w + ... + w^(d-1)`.
    pub fn total_namespaces(&self) -> (r: usize)
        requires
            Tree::fits(self.cfg_spec()),
        ensures
            r == ns_count(self.width(), self.depth()),
    {
        let w = self.cfg.namespace_width;
        let d = self.cfg.namespace_depth;
        if w == 1 {
            proof {
                lemma_ns_count_bound(1, d as nat);
            }
            return d;
        }
        let p = pow_usize(w, d);
        proof {
            lemma_ns_count_geometric(w as nat, d as nat);
            let c = ns_count(w as nat, d as nat);
            assert((p - 1) as nat / ((w - 1) as nat) == c) by (nonlinear_arith)
                requires
                    c * ((w - 1) as nat) + 1 == p,
                    w >= 2,
            ;
        }
        (p - 1) / (w - 1)
    }

    /// Number of leaf namespaces: `w^(d-1)`.
    pub fn leaf_namespaces(&self) -> (r: usize)
        requires
            Tree::fits(self.cfg_spec()),
            self.depth() >= 1,
        ensures
            r == pw(self.width(), (self.depth() - 1) as nat),
    {
        proof {
            lemma_pw_mono(self.width(), (self.depth() - 1) as nat, self.depth());
        }
        pow_usize(self.cfg.namespace_width, self.cfg.namespace_depth - 1)
    }

    /// Number of tables: leaves times tables per namespace.
    pub fn total_tables(&self) -> (r: usize)
        requires
            Tree::fits(self.cfg_spec()),
            self.depth() >= 1,
            pw(self.width(), (self.depth() - 1) as nat) * self.cfg_spec().tables_per_ns
                <= usize::MAX,
        ensures
            r == pw(self.width(), (self.depth() - 1) as nat) * self.cfg_spec().tables_per_ns,
    {
        self.leaf_namespaces() * self.cfg.tables_per_ns
    }

    /// Number of views: leaves times views per namespace.
    pub fn total_views(&self) -> (r: usize)
        requires
            Tree::fits(self.cfg_spec()),
            self.depth() >= 1,
            pw(self.width(), (self.depth() - 1) as nat) * self.cfg_spec().views_per_ns
                <= usize::MAX,
        ensures
            r == pw(self.width(), (self.depth() - 1) as nat) * self.cfg_spec().views_per_ns,
    {
        self.leaf_namespaces() * self.cfg.views_per_ns
    }

    /// The path of the `i`-th namespace of level `d`.
    fn namespace_path_at(&self, d: usize, i: usize) -> (r: Vec<String>)
        requires
            Tree::fits(self.cfg_spec()),
            d < self.depth(),
            i < pw(self.width(), d as nat),
        ensures
            views(r@) == ns_path(self.width(), d as nat, i as nat),
    {
        let w = self.cfg.namespace_width;
        let ghost wn = w as nat;
        proof {
            lemma_pw_mono(wn, d as nat, self.depth());
        }
        let mut path: Vec<String> = Vec::new();
        let mut level: usize = 0;
        while level <= d
            invariant
                Tree::fits(self.cfg_spec()),
                w == self.cfg_spec().namespace_width,
                wn == w as nat,
                d < self.depth(),
                i < pw(wn, d as nat),
                pw(wn, d as nat) <= pw(wn, self.depth()),
                level <= d + 1,
                views(path@) == ns_path(wn, d as nat, i as nat).subrange(0, level as int),
            decreases d + 1 - level,
        {
            proof {
                lemma_level_idx_bound(wn, d as nat, i as nat, level as nat);
                lemma_pw_mono(wn, level as nat, d as nat);
            }
            let idx: usize = if level == d {
                i
            } else {
                proof {
                    lemma_pw_mono(wn, (d - level) as nat, d as nat);
                    lemma_pw_pos(wn, (d - level) as nat);
                    lemma_pw_pos(wn, level as nat);
                }
                let a = pow_usize(w, d - level);
                i / a
            };
            assert(idx == level_idx(wn, d as nat, i as nat, level as nat));
            let name = ns_name_exec(idx);
            let ghost old_path = path@;
            path.push(name);
            proof {
                assert(views(path@) =~= views(old_path).push(name@));
                assert(ns_path(wn, d as nat, i as nat).subrange(0, level + 1) =~= ns_path(
                    wn,
                    d as nat,
                    i as nat,
                ).subrange(0, level as int).push(name@));
            }
            level = level + 1;
        }
        assert(ns_path(wn, d as nat, i as nat).subrange(0, (d + 1) as int) =~= ns_path(
            wn,
            d as nat,
            i as nat,
        ));
        path
    }

    /// Appends the namespaces of level `d` to `out`.
    fn push_level(&self, d: usize, out: &mut Vec<NamespaceInfo>)
        requires
            Tree::fits(self.cfg_spec()),
            d < self.depth(),
        ensures
            ns_views(final(out)@) == ns_views(old(out)@) + level_seq(self.width(), d as nat),
    {
        let w = self.cfg.namespace_width;
        let ghost wn = w as nat;
        proof {
            lemma_pw_mono(wn, d as nat, self.depth());
            lemma_ns_count_bound(wn, d as nat);
            lemma_pw_mono(wn, d as nat, self.depth());
        }
        let count = pow_usize(w, d);
        let base = self.level_start(d);
        let ghost start = ns_views(out@);
        let mut i: usize = 0;
        while i < count
            invariant
                Tree::fits(self.cfg_spec()),
                w == self.cfg_spec().namespace_width,
                wn == w as nat,
                d < self.depth(),
                count == pw(wn, d as nat),
                base == ns_count(wn, d as nat),
                base + count <= usize::MAX,
                i <= count,
                ns_views(out@) == start + level_seq(wn, d as nat).subrange(0, i as int),
            decreases count - i,
        {
            let path = self.namespace_path_at(d, i);
            let info = NamespaceInfo { path, ordinal: base + i };
            let ghost old_out = out@;
            out.push(info);
            proof {
                assert(ns_views(out@) =~= ns_views(old_out).push(info@));
                assert(level_seq(wn, d as nat).subrange(0, i + 1) =~= level_seq(
                    wn,
                    d as nat,
                ).subrange(0, i as int).push(info@));
            }
            i = i + 1;
        }
        assert(level_seq(wn, d as nat).subrange(0, count as int) =~= level_seq(wn, d as nat));
    }

    /// The ordinal of the first namespace of level `d`, with room for the
    /// whole level after it.
    fn level_start(&self, d: usize) -> (r: usize)
        requires
            Tree::fits(self.cfg_spec()),
            d < self.depth(),
        ensures
            r == ns_count(self.width(), d as nat),
            r + pw(self.width(), d as nat) <= usize::MAX,
    {
        let w = self.cfg.namespace_width;
        let ghost wn = w as nat;
        proof {
            lemma_ns_count_bound(wn, d as nat);
            lemma_ns_count_bound(wn, (d + 1) as nat);
            lemma_pw_mono(wn, d as nat, self.depth());
            lemma_pw_mono(wn, (d + 1) as nat, self.depth());
            assert(ns_count(wn, (d + 1) as nat) == ns_count(wn, d as nat) + pw(wn, d as nat));
            if wn == 1 {
                lemma_pw_one(d as int);
            }
        }
        if w == 1 {
            d
        } else {
            let p = pow_usize(w, d);
            proof {
                lemma_ns_count_geometric(wn, d as nat);
                let c = ns_count(wn, d as nat);
                assert((p - 1) as nat / ((w - 1) as nat) == c) by (nonlinear_arith)
                    requires
                        c * ((w - 1) as nat) + 1 == p,
                        w >= 2,
                ;
            }
            (p - 1) / (w - 1)
        }
    }

    /// Every namespace, level by level from the root, each with its path and
    /// creation ordinal.
    pub fn all_namespaces(&self) -> (r: Vec<NamespaceInfo>)
        requires
            Tree::fits(self.cfg_spec()),
        ensures
            ns_views(r@) == ns_seq(self.width(), self.depth()),
    {
        let depth = self.cfg.namespace_depth;
        let mut out: Vec<NamespaceInfo> = Vec::new();
        let mut d: usize = 0;
        while d < depth
            invariant
                Tree::fits(self.cfg_spec()),
                depth == self.depth(),
                d <= depth,
                ns_views(out@) == ns_seq(self.width(), d as nat),
            decreases depth - d,
        {
            self.push_level(d, &mut out);
            d = d + 1;
        }
        out
    }

    /// The leaf namespaces (those at full depth), in creation order.
    pub fn leaf_namespaces_list(&self) -> (r: Vec<NamespaceInfo>)
        requires
            Tree::fits(self.cfg_spec()),
        ensures
            ns_views(r@) == leaf_seq(self.width(), self.depth()),
    {
        let depth = self.cfg.namespace_depth;
        let mut out: Vec<NamespaceInfo> = Vec::new();
        if depth > 0 {
            self.push_level(depth - 1, &mut out);
            assert(ns_views(out@) =~= leaf_seq(self.width(), self.depth()));
        } else {
            assert(ns_views(out@) =~= leaf_seq(self.width(), self.depth()));
        }
        out
    }

    /// `per` entries `<prefix><t>` under each leaf namespace, located at
    /// `<base>/<path joined by '/'>/<prefix><t>`.
    fn leaf_entries(&self, prefix: &str, per: usize) -> (r: Vec<TableInfo>)
        requires
            Tree::fits(self.cfg_spec()),
        ensures
            table_views(r@) == entries_seq(
                self.width(),
                self.depth(),
                per as nat,
                self.cfg_spec().base_location@,
                prefix@,
            ),
    {
        let leaves = self.leaf_namespaces_list();
        let mut out: Vec<TableInfo> = Vec::new();
        let ghost rows = Seq::new(
            leaves@.len(),
            |j: int|
                Seq::new(
                    per as nat,
                    |t: int|
                        entry_at(self.cfg_spec().base_location@, leaves@[j]@.path, prefix@, t as nat),
                ),
        );
        let mut j: usize = 0;
        while j < leaves.len()
            invariant
                j <= leaves@.len(),
                rows == Seq::new(
                    leaves@.len(),
                    |j: int|
                        Seq::new(
                            per as nat,
                            |t: int|
                                entry_at(
                                    self.cfg_spec().base_location@,
                                    leaves@[j]@.path,
                                    prefix@,
                                    t as nat,
                                ),
                        ),
                ),
                table_views(out@) == rows.subrange(0, j as int).flatten(),
            decreases leaves@.len() - j,
        {
            let ns = &leaves[j];
            let joined = join_strings(ns.path.as_slice(), "/");
            let mut t: usize = 0;
            let ghost before = table_views(out@);
            while t < per
                invariant
                    t <= per,
                    j < leaves@.len(),
                        *ns == leaves@[j as int],
                    joined@ == join_spec(views(ns.path@), "/"@),
                    table_views(out@) == before + rows[j as int].subrange(0, t as int),
                    rows[j as int] == Seq::new(
                        per as nat,
                        |t: int|
                            entry_at(
                                self.cfg_spec().base_location@,
                                leaves@[j as int]@.path,
                                prefix@,
                                t as nat,
                            ),
                    ),
                decreases per - t,
            {
                let num = fmt_usize(t);
                let name = concat2(prefix, num.as_str());
                let loc1 = concat2(self.cfg.base_location.as_str(), "/");
                let loc2 = concat2(loc1.as_str(), joined.as_str());
                let loc3 = concat2(loc2.as_str(), "/");
                let location = concat2(loc3.as_str(), name.as_str());
                let info = TableInfo { namespace: clone_strings(ns.path.as_slice()), name, location };
                let ghost old_out = out@;
                out.push(info);
                proof {
                    assert(table_views(out@) =~= table_views(old_out).push(info@));
                    assert(info@ == rows[j as int][t as int]);
                    assert(rows[j as int].subrange(0, t + 1) =~= rows[j as int].subrange(
                        0,
                        t as int,
                    ).push(info@));
                }
                t = t + 1;
            }
            proof {
                assert(rows[j as int].subrange(0, per as int) =~= rows[j as int]);
                let a = rows.subrange(0, j + 1);
                assert(a.drop_last() =~= rows.subrange(0, j as int));
                lemma_flatten_push(rows.subrange(0, j as int), rows[j as int]);
                assert(a =~= rows.subrange(0, j as int).push(rows[j as int]));
            }
            j = j + 1;
        }
        proof {
            assert(rows.subrange(0, leaves@.len() as int) =~= rows);
            let leaves_spec = leaf_seq(self.width(), self.depth());
            assert(leaves_spec.len() == leaves@.len());
            assert forall|k: int| 0 <= k < leaves@.len() implies leaves@[k]@.path
                == #[trigger] leaves_spec[k].path by {
                assert(ns_views(leaves@)[k] == leaves@[k]@);
            }
            assert(rows =~= Seq::new(
                leaves_spec.len(),
                |j: int|
                    Seq::new(
                        per as nat,
                        |t: int|
                            entry_at(
                                self.cfg_spec().base_location@,
                                leaves_spec[j].path,
                                prefix@,
                                t as nat,
                            ),
                    ),
            ));
        }
        out
    }

    /// Every table: `tables_per_ns` tables `tbl_<t>` under each leaf namespace,
    /// located at `<base>/<path joined by '/'>/tbl_<t>`.
    pub fn all_tables(&self) -> (r: Vec<TableInfo>)
        requires
            Tree::fits(self.cfg_spec()),
        ensures
            table_views(r@) == entries_seq(
                self.width(),
                self.depth(),
                self.cfg_spec().tables_per_ns as nat,
                self.cfg_spec().base_location@,
                "tbl_"@,
            ),
    {
        self.leaf_entries("tbl_", self.cfg.tables_per_ns)
    }

    /// Every view: `views_per_ns` views `view_<v>` under each leaf namespace,
    /// located at `<base>/<path joined by '/'>/view_<v>`.
    pub fn all_views(&self) -> (r: Vec<ViewInfo>)
        requires
            Tree::fits(self.cfg_spec()),
        ensures
            view_views(r@) == entries_seq(
                self.width(),
                self.depth(),
                self.cfg_spec().views_per_ns as nat,
                self.cfg_spec().base_location@,
                "view_"@,
            ),
    {
        let tables = self.leaf_entries("view_", self.cfg.views_per_ns);
        let mut out: Vec<ViewInfo> = Vec::new();
        let mut i: usize = 0;
        while i < tables.len()
            invariant
                i <= tables@.len(),
                view_views(out@) == table_views(tables@).subrange(0, i as int),
            decreases tables@.len() - i,
        {
            let t = &tables[i];
            let v = ViewInfo {
                namespace: clone_strings(t.namespace.as_slice()),
                name: t.name.clone(),
                location: t.location.clone(),
            };
            let ghost old_out = out@;
            out.push(v);
            proof {
                assert(view_views(out@) =~= view_views(old_out).push(v@));
                assert(table_views(tables@).subrange(0, i + 1) =~= table_views(tables@).subrange(
                    0,
                    i as int,
                ).push(v@));
            }
            i = i + 1;
        }
        assert(table_views(tables@).subrange(0, tables@.len() as int) =~= table_views(tables@));
        out
    }

    /// A namespace of the tree, drawn at random.
    pub fn random_namespace(&self, rng: &mut rand::rngs::SmallRng) -> (r: NamespaceInfo)
        requires
            Tree::fits(self.cfg_spec()),
            ns_seq(self.width(), self.depth()).len() > 0,
        ensures
            exists|i: int| 0 <= i < ns_seq(self.width(), self.depth()).len() && r@ == ns_seq(self.width(), self.depth())[i],
    {
        let mut all = self.all_namespaces();
        assert(all@.len() == ns_views(all@).len());
        let i = rng_below(rng, all.len() as u64) as usize;
        let ghost before = all@;
        let r = all.swap_remove(i);
        assert(r@ == ns_views(before)[i as int]);
        r
    }

    /// A table of the tree, drawn at random.
    pub fn random_table(&self, rng: &mut rand::rngs::SmallRng) -> (r: TableInfo)
        requires
            Tree::fits(self.cfg_spec()),
            self.table_entries().len() > 0,
        ensures
            exists|i: int| 0 <= i < self.table_entries().len() && r@ == self.table_entries()[i],
    {
        let mut all = self.all_tables();
        assert(all@.len() == table_views(all@).len());
        let i = rng_below(rng, all.len() as u64) as usize;
        let ghost before = all@;
        let r = all.swap_remove(i);
        assert(r@ == table_views(before)[i as int]);
        r
    }

    /// A view of the tree, drawn at random.
    pub fn random_view(&self, rng: &mut rand::rngs::SmallRng) -> (r: ViewInfo)
        requires
            Tree::fits(self.cfg_spec()),
            self.view_entries().len() > 0,
        ensures
            exists|i: int| 0 <= i < self.view_entries().len() && r@ == self.view_entries()[i],
    {
        let mut all = self.all_views();
        assert(all@.len() == view_views(all@).len());
        let i = rng_below(rng, all.len() as u64) as usize;
        let ghost before = all@;
        let r = all.swap_remove(i);
        assert(r@ == view_views(before)[i as int]);
        r
    }

    /// The tables of the tree, as views.
    pub open spec fn table_entries(&self) -> Seq<EntryView> {
        entries_seq(self.width(), self.depth(), self.cfg_spec().tables_per_ns as nat, self.cfg_spec().base_location@, "tbl_"@)
    }

    /// The views of the tree, as views.
    pub open spec fn view_entries(&self) -> Seq<EntryView> {
        entries_seq(self.width(), self.depth(), self.cfg_spec().views_per_ns as nat, self.cfg_spec().base_location@, "view_"@)
    }
}

/// Flattening after pushing a row appends that row.
pub proof fn lemma_flatten_push<A>(rows: Seq<Seq<A>>, row: Seq<A>)
    ensures
        rows.push(row).flatten() == rows.flatten() + row,
    decreases rows.len(),
{
    if rows.len() == 0 {
        assert(rows.push(row).drop_first() =~= Seq::<Seq<A>>::empty());
        assert(rows.push(row).flatten() == row + Seq::<Seq<A>>::empty().flatten());
        assert(row + Seq::<A>::empty() =~= row);
        assert(Seq::<A>::empty() + row =~= row);
    } else {
        let rest = rows.drop_first();
        lemma_flatten_push(rest, row);
        assert(rows.push(row).drop_first() =~= rest.push(row));
        assert(rows.push(row).flatten() == rows.first() + rest.push(row).flatten());
        assert(rows.flatten() == rows.first() + rest.flatten());
        assert(rows.first() + (rest.flatten() + row) =~= (rows.first() + rest.flatten()) + row);
    }
}

/// The path of the child `name` of the namespace at `parent`.
pub fn namespace_path(parent: &[String], name: &str) -> (r: Vec<String>)
    ensures
        views(r@) == views(parent@).push(name@),
{
    let mut p = clone_strings(parent);
    let ghost before = p@;
    p.push(owned(name));
    assert(views(p@) =~= views(before).push(name@));
    p
}

/// The REST identifier of table `name` in `namespace`: the namespace path
/// followed by the name.
pub fn to_table_identifier(namespace: &[String], name: &str) -> (r: Vec<String>)
    ensures
        views(r@) == views(namespace@).push(name@),
{
    namespace_path(namespace, name)
}

// ---------------------------------------------------------------------------
// Laws
// ---------------------------------------------------------------------------

/// `all_namespaces` lists exactly `total_namespaces` namespaces.
pub proof fn law_namespace_count(w: nat, depth: nat)
    ensures
        ns_seq(w, depth).len() == ns_count(w, depth),
{
    lemma_ns_seq_len(w, depth);
}

/// The `k`-th namespace of `all_namespaces` has ordinal `k`, and a namespace
/// of level `d` has a path of `d + 1` components.
pub proof fn law_namespace_ordinals(w: nat, depth: nat)
    ensures
        forall|k: int| 0 <= k < ns_seq(w, depth).len() ==> #[trigger] ns_seq(w, depth)[k].ordinal == k,
        forall|k: int|
            0 <= k < ns_seq(w, depth).len() ==> 1 <= #[trigger] ns_seq(w, depth)[k].path.len() <= depth,
    decreases depth,
{
    if depth > 0 {
        let d = (depth - 1) as nat;
        law_namespace_ordinals(w, d);
        lemma_ns_seq_len(w, d);
        let a = ns_seq(w, d);
        let b = level_seq(w, d);
        assert forall|k: int| 0 <= k < ns_seq(w, depth).len() implies #[trigger] ns_seq(
            w,
            depth,
        )[k].ordinal == k && 1 <= ns_seq(w, depth)[k].path.len() <= depth by {
            if k < a.len() {
                assert(ns_seq(w, depth)[k] == a[k]);
            } else {
                assert(ns_seq(w, depth)[k] == b[k - a.len()]);
            }
        }
    }
}

/// The leaf namespaces are exactly the namespaces of `all_namespaces` whose
/// path is `namespace_depth` long, in the same order.
pub proof fn law_leaves_are_full_depth(w: nat, depth: nat)
    ensures
        ns_seq(w, depth).filter(|n: NamespaceView| n.path.len() == depth) == leaf_seq(w, depth),
{
    let p = |n: NamespaceView| n.path.len() == depth;
    if depth == 0 {
        assert(ns_seq(w, depth).filter(p) =~= Seq::<NamespaceView>::empty());
    } else {
        let d = (depth - 1) as nat;
        lemma_filter_none_below(w, d, depth);
        Seq::filter_distributes_over_add(ns_seq(w, d), level_seq(w, d), p);
        lemma_filter_all(level_seq(w, d), p);
        assert(ns_seq(w, d).filter(p) + level_seq(w, d) =~= level_seq(w, d));
    }
}

/// No namespace of the first `d` levels has a path `len` long when `len > d`.
proof fn lemma_filter_none_below(w: nat, d: nat, len: nat)
    requires
        d < len,
    ensures
        ns_seq(w, d).filter(|n: NamespaceView| n.path.len() == len).len() == 0,
    decreases d,
{
    let p = |n: NamespaceView| n.path.len() == len;
    if d > 0 {
        let e = (d - 1) as nat;
        lemma_filter_none_below(w, e, len);
        Seq::filter_distributes_over_add(ns_seq(w, e), level_seq(w, e), p);
        lemma_filter_none(level_seq(w, e), p);
    } else {
        assert(ns_seq(w, d).filter(p) =~= Seq::<NamespaceView>::empty()) by {
            reveal(Seq::filter);
        }
    }
}

proof fn lemma_filter_all<A>(s: Seq<A>, p: spec_fn(A) -> bool)
    requires
        forall|i: int| 0 <= i < s.len() ==> p(#[trigger] s[i]),
    ensures
        s.filter(p) == s,
    decreases s.len(),
{
    if s.len() == 0 {
        assert(s.filter(p) =~= s) by {
            reveal(Seq::filter);
        }
    } else {
        let t = s.drop_last();
        lemma_filter_all(t, p);
        assert(t.push(s.last()) =~= s);
        t.lemma_filter_push(s.last(), p);
    }
}

proof fn lemma_filter_none<A>(s: Seq<A>, p: spec_fn(A) -> bool)
    requires
        forall|i: int| 0 <= i < s.len() ==> !p(#[trigger] s[i]),
    ensures
        s.filter(p).len() == 0,
    decreases s.len(),
{
    if s.len() == 0 {
        assert(s.filter(p) =~= s) by {
            reveal(Seq::filter);
        }
    } else {
        let t = s.drop_last();
        lemma_filter_none(t, p);
        assert(t.push(s.last()) =~= s);
        t.lemma_filter_push(s.last(), p);
    }
}

/// `leaf_namespaces_list` holds `leaf_namespaces` namespaces.
pub proof fn law_leaf_count(w: nat, depth: nat)
    requires
        depth >= 1,
    ensures
        leaf_seq(w, depth).len() == pw(w, (depth - 1) as nat),
{
}

/// `all_tables` (and `all_views`) hold `leaf_namespaces * per_ns` entries, the
/// `per_ns` entries of each leaf next to each other.
pub proof fn law_entry_count(w: nat, depth: nat, per_ns: nat, base: Seq<char>, prefix: Seq<char>)
    ensures
        entries_seq(w, depth, per_ns, base, prefix).len() == leaf_seq(w, depth).len() * per_ns,
{
    let leaves = leaf_seq(w, depth);
    let rows = Seq::new(
        leaves.len(),
        |j: int| Seq::new(per_ns, |t: int| entry_at(base, leaves[j].path, prefix, t as nat)),
    );
    lemma_flatten_uniform_len(rows, per_ns);
}

/// Law: entry `k` of leaf `j` stands at position `j * per_ns + k` of
/// `all_tables` (and `all_views`): named `<prefix><k>`, under the leaf's path,
/// located at `<base>/<path joined by '/'>/<prefix><k>`.
pub proof fn law_entry_at(w: nat, depth: nat, per_ns: nat, base: Seq<char>, prefix: Seq<char>, j: int, k: int)
    requires
        0 <= j < leaf_seq(w, depth).len(),
        0 <= k < per_ns,
    ensures
        j * per_ns + k < entries_seq(w, depth, per_ns, base, prefix).len(),
        entries_seq(w, depth, per_ns, base, prefix)[j * per_ns + k] == entry_at(
            base,
            leaf_seq(w, depth)[j].path,
            prefix,
            k as nat,
        ),
{
    let leaves = leaf_seq(w, depth);
    let rows = Seq::new(
        leaves.len(),
        |i: int| Seq::new(per_ns, |t: int| entry_at(base, leaves[i].path, prefix, t as nat)),
    );
    lemma_flatten_uniform_index(rows, per_ns, j, k);
}

} // verus!
