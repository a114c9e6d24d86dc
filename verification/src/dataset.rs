//! Creating and removing a catalog dataset: the order of the work and what
//! each outcome means. The catalog requests themselves are made by the
//! caller, one step at a time.
use vstd::prelude::*;
use crate::iceberg::{already_exists_spec, ExternalCatalogType, IsAlreadyExists};
use crate::text::{concat3, str_is_empty, views};
use crate::tree::NamespaceInfo;

verus! {

broadcast use vstd::string::group_string_axioms;

/// What `format!("{:?}", list)` renders for a list of strings.
pub uninterp spec fn debug_strings(v: Seq<Seq<char>>) -> Seq<char>;

/// Calls `format!("{:?}", v)` on a list of strings (std's `Debug`).
#[verifier::external_body]
fn debug_list(v: &Vec<String>) -> (r: String)
    ensures
        r@ == debug_strings(views(v@)),
{
    format!("{:?}", v)
}

// ---------------------------------------------------------------------------
// The warehouse
// ---------------------------------------------------------------------------

/// An AIStor warehouse is created when the catalog is AIStor's own and its
/// address and access key are given.
pub fn creates_warehouse(ext: ExternalCatalogType, catalog_uri: &str, access_key: &str) -> (r: bool)
    ensures
        r == (ext == ExternalCatalogType::Builtin && catalog_uri@.len() > 0 && access_key@.len() > 0),
{
    ext == ExternalCatalogType::Builtin && !str_is_empty(catalog_uri) && !str_is_empty(access_key)
}

/// An AIStor warehouse is removed when the catalog is AIStor's own and its
/// address is given.
pub fn deletes_warehouse(ext: ExternalCatalogType, catalog_uri: &str) -> (r: bool)
    ensures
        r == (ext == ExternalCatalogType::Builtin && catalog_uri@.len() > 0),
{
    ext == ExternalCatalogType::Builtin && !str_is_empty(catalog_uri)
}

// ---------------------------------------------------------------------------
// Creation
// ---------------------------------------------------------------------------

/// The next piece of creation work.
#[derive(Debug, Clone, PartialEq, Eq)]
pub enum CreateStep {
    EnsureWarehouse,
    /// Create the namespace at this position of the namespace list.
    CreateNamespace(usize),
    CreateTable(usize),
    CreateView(usize),
    Done,
    /// Creation stopped with this message.
    Failed(String),
}

/// The counts a creation works through.
#[derive(Debug, Clone, Copy)]
pub struct CreatePlan {
    pub warehouse: bool,
    pub namespaces: usize,
    pub tables: usize,
    pub views: usize,
}

/// The step that starts at namespace `i`, or at the tables and views after
/// the namespaces.
pub open spec fn from_namespace(p: CreatePlan, i: nat) -> CreateStep {
    if i < p.namespaces {
        CreateStep::CreateNamespace(i as usize)
    } else {
        from_table(p, 0)
    }
}

/// The step that starts at table `i`, or at the views after the tables.
pub open spec fn from_table(p: CreatePlan, i: nat) -> CreateStep {
    if i < p.tables {
        CreateStep::CreateTable(i as usize)
    } else {
        from_view(p, 0)
    }
}

/// The step that starts at view `i`, or the end.
pub open spec fn from_view(p: CreatePlan, i: nat) -> CreateStep {
    if i < p.views {
        CreateStep::CreateView(i as usize)
    } else {
        CreateStep::Done
    }
}

fn start_namespace(p: CreatePlan, i: usize) -> (r: CreateStep)
    ensures
        r == from_namespace(p, i as nat),
{
    if i < p.namespaces {
        CreateStep::CreateNamespace(i)
    } else {
        start_table(p, 0)
    }
}

fn start_table(p: CreatePlan, i: usize) -> (r: CreateStep)
    ensures
        r == from_table(p, i as nat),
{
    if i < p.tables {
        CreateStep::CreateTable(i)
    } else {
        start_view(p, 0)
    }
}

fn start_view(p: CreatePlan, i: usize) -> (r: CreateStep)
    ensures
        r == from_view(p, i as nat),
{
    if i < p.views {
        CreateStep::CreateView(i)
    } else {
        CreateStep::Done
    }
}

/// `s` is a step the plan can reach.
pub open spec fn step_of(p: CreatePlan, s: CreateStep) -> bool {
    match s {
        CreateStep::CreateNamespace(i) => i < p.namespaces,
        CreateStep::CreateTable(i) => i < p.tables,
        CreateStep::CreateView(i) => i < p.views,
        _ => true,
    }
}

/// The first step: the warehouse where one is managed, else the first
/// namespace.
pub fn first_create_step(p: CreatePlan) -> (r: CreateStep)
    ensures
        r == (if p.warehouse {
            CreateStep::EnsureWarehouse
        } else {
            from_namespace(p, 0)
        }),
{
    if p.warehouse {
        CreateStep::EnsureWarehouse
    } else {
        start_namespace(p, 0)
    }
}

/// The step after `step` finished with `outcome` (the error text of a
/// failed request). A failed warehouse stops creation with its error; a
/// failed namespace stops it unless the namespace already exists, with
/// `namespace <path>: <error>`; tables and views go on whatever happens.
pub fn next_create_step(p: CreatePlan, step: &CreateStep, outcome: Result<(), String>, path: &Vec<String>) -> (r:
    CreateStep)
    requires
        step_of(p, *step),
    ensures
        match *step {
            CreateStep::EnsureWarehouse => match outcome {
                Ok(()) => r == from_namespace(p, 0),
                Err(e) => r matches CreateStep::Failed(m) && m@ == e@,
            },
            CreateStep::CreateNamespace(i) => match outcome {
                Err(e) if !already_exists_spec(e@) => r matches CreateStep::Failed(m) && m@
                    == "namespace "@ + debug_strings(views(path@)) + ": "@ + e@,
                _ => r == from_namespace(p, (i + 1) as nat),
            },
            CreateStep::CreateTable(i) => r == from_table(p, (i + 1) as nat),
            CreateStep::CreateView(i) => r == from_view(p, (i + 1) as nat),
            CreateStep::Done => r == CreateStep::Done,
            CreateStep::Failed(m) => r == CreateStep::Failed(m),
        },
{
    match step {
        CreateStep::EnsureWarehouse => match outcome {
            Ok(()) => start_namespace(p, 0),
            Err(e) => CreateStep::Failed(e),
        },
        CreateStep::CreateNamespace(i) => {
            let go_on = match &outcome {
                Ok(()) => true,
                Err(e) => IsAlreadyExists::check(e.as_str()),
            };
            if go_on {
                if *i < usize::MAX {
                    start_namespace(p, *i + 1)
                } else {
                    CreateStep::Done
                }
            } else {
                match outcome {
                    Err(e) => {
                        let shown = debug_list(path);
                        let head = concat3("namespace ", shown.as_str(), ": ");
                        CreateStep::Failed(crate::text::concat2(head.as_str(), e.as_str()))
                    },
                    Ok(()) => CreateStep::Done,
                }
            }
        },
        CreateStep::CreateTable(i) => if *i < usize::MAX {
            start_table(p, *i + 1)
        } else {
            CreateStep::Done
        },
        CreateStep::CreateView(i) => if *i < usize::MAX {
            start_view(p, *i + 1)
        } else {
            CreateStep::Done
        },
        CreateStep::Done => CreateStep::Done,
        CreateStep::Failed(m) => CreateStep::Failed(m.clone()),
    }
}

/// Creation goes namespaces, then tables, then views: from any namespace
/// step a table step is never followed by a namespace step, nor a view
/// step by a table step.
pub proof fn law_creation_order(p: CreatePlan, i: nat)
    ensures
        from_table(p, i) matches CreateStep::CreateTable(_) || from_table(p, i) matches CreateStep::CreateView(
            _,
        ) || from_table(p, i) == CreateStep::Done,
        from_view(p, i) matches CreateStep::CreateView(_) || from_view(p, i) == CreateStep::Done,
{
}

// ---------------------------------------------------------------------------
// Removal
// ---------------------------------------------------------------------------

/// The positions of the namespaces of depth `d`, in list order.
pub open spec fn at_depth(ns: Seq<nat>, d: nat) -> Seq<nat>
    decreases ns.len(),
{
    if ns.len() == 0 {
        seq![]
    } else if ns.last() == d {
        at_depth(ns.drop_last(), d).push((ns.len() - 1) as nat)
    } else {
        at_depth(ns.drop_last(), d)
    }
}

/// The positions of the namespaces deepest first, in list order among
/// equals (the order a stable sort by descending depth gives), for depths
/// `d` down to 0.
pub open spec fn deepest_first(ns: Seq<nat>, d: nat) -> Seq<nat>
    decreases d,
{
    if d == 0 {
        at_depth(ns, 0)
    } else {
        at_depth(ns, d) + deepest_first(ns, (d - 1) as nat)
    }
}

/// The depths (path lengths) of a namespace list.
pub open spec fn depths(ns: Seq<NamespaceInfo>) -> Seq<nat> {
    ns.map_values(|n: NamespaceInfo| n.path@.len())
}

/// The largest of `s` (0 for an empty list).
pub open spec fn max_of(s: Seq<nat>) -> nat
    decreases s.len(),
{
    if s.len() == 0 {
        0
    } else if s.last() > max_of(s.drop_last()) {
        s.last()
    } else {
        max_of(s.drop_last())
    }
}

/// The positions of the namespaces in removal order: children before their
/// parents, deepest first, list order among equal depths.
pub fn namespace_removal_order(ns: &[NamespaceInfo]) -> (r: Vec<usize>)
    ensures
        r@.map_values(|i: usize| i as nat) == deepest_first(depths(ns@), max_of(depths(ns@))),
{
    let ghost ds = depths(ns@);
    let mut maxd: usize = 0;
    let mut i: usize = 0;
    while i < ns.len()
        invariant
            i <= ns@.len(),
            ds == depths(ns@),
            maxd == max_of(ds.subrange(0, i as int)),
        decreases ns@.len() - i,
    {
        assert(ds.subrange(0, i + 1).drop_last() =~= ds.subrange(0, i as int));
        assert(ds[i as int] == ns@[i as int].path@.len());
        let l = ns[i].path.len();
        if l > maxd {
            maxd = l;
        }
        i = i + 1;
    }
    assert(ds.subrange(0, ns@.len() as int) =~= ds);
    let mut out: Vec<usize> = Vec::new();
    let mut d: usize = maxd;
    loop
        invariant_except_break
            out@.map_values(|i: usize| i as nat) + deepest_first(ds, d as nat) == deepest_first(ds, maxd as nat),
        invariant
            d <= maxd,
            maxd == max_of(ds),
            ds == depths(ns@),
        ensures
            out@.map_values(|i: usize| i as nat) == deepest_first(ds, maxd as nat),
        decreases d,
    {
        let ghost before = out@.map_values(|i: usize| i as nat);
        let mut j: usize = 0;
        while j < ns.len()
            invariant
                j <= ns@.len(),
                ds == depths(ns@),
                out@.map_values(|i: usize| i as nat) == before + at_depth(ds.subrange(0, j as int), d as nat),
            decreases ns@.len() - j,
        {
            assert(ds.subrange(0, j + 1).drop_last() =~= ds.subrange(0, j as int));
            assert(ds[j as int] == ns@[j as int].path@.len());
            proof {
                lemma_at_depth_prefix(ds, d as nat, j as nat);
            }
            if ns[j].path.len() == d {
                let ghost o = out@;
                out.push(j);
                assert(out@.map_values(|i: usize| i as nat) =~= o.map_values(|i: usize| i as nat).push(j as nat));
            }
            j = j + 1;
        }
        assert(ds.subrange(0, ns@.len() as int) =~= ds);
        if d == 0 {
            assert(deepest_first(ds, 0) == at_depth(ds, 0));
            assert(out@.map_values(|i: usize| i as nat) =~= deepest_first(ds, maxd as nat));
            break;
        }
        assert(deepest_first(ds, d as nat) == at_depth(ds, d as nat) + deepest_first(ds, (d - 1) as nat));
        assert(out@.map_values(|i: usize| i as nat) + deepest_first(ds, (d - 1) as nat) =~= deepest_first(ds, maxd as nat));
        d = d - 1;
    }
    out
}

proof fn lemma_at_depth_prefix(ds: Seq<nat>, d: nat, j: nat)
    requires
        j < ds.len(),
    ensures
        at_depth(ds.subrange(0, j + 1 as int), d) == if ds[j as int] == d {
            at_depth(ds.subrange(0, j as int), d).push(j)
        } else {
            at_depth(ds.subrange(0, j as int), d)
        },
{
    assert(ds.subrange(0, j + 1 as int).drop_last() =~= ds.subrange(0, j as int));
}

proof fn lemma_at_depth_members(ns: Seq<nat>, d: nat)
    ensures
        forall|k: int|
            0 <= k < at_depth(ns, d).len() ==> #[trigger] at_depth(ns, d)[k] < ns.len() && ns[at_depth(
                ns,
                d,
            )[k] as int] == d,
    decreases ns.len(),
{
    if ns.len() > 0 {
        lemma_at_depth_members(ns.drop_last(), d);
        let a = at_depth(ns.drop_last(), d);
        assert forall|k: int| 0 <= k < a.len() implies #[trigger] a[k] < ns.len() && ns[a[k] as int] == d by {
            assert(ns.drop_last()[a[k] as int] == ns[a[k] as int]);
        }
    }
}

proof fn lemma_deepest_first_members(ns: Seq<nat>, d: nat)
    ensures
        forall|k: int|
            0 <= k < deepest_first(ns, d).len() ==> #[trigger] deepest_first(ns, d)[k] < ns.len() && ns[deepest_first(
                ns,
                d,
            )[k] as int] <= d,
    decreases d,
{
    lemma_at_depth_members(ns, d);
    if d > 0 {
        lemma_deepest_first_members(ns, (d - 1) as nat);
        let a = at_depth(ns, d);
        let b = deepest_first(ns, (d - 1) as nat);
        assert forall|k: int| 0 <= k < (a + b).len() implies #[trigger] (a + b)[k] < ns.len() && ns[(a
            + b)[k] as int] <= d by {
            if k >= a.len() {
                assert((a + b)[k] == b[k - a.len()]);
            }
        }
    }
}

/// In removal order every namespace comes after all deeper ones: a child
/// is removed before its parent.
pub proof fn law_children_removed_first(ns: Seq<nat>, d: nat)
    ensures
        forall|i: int, j: int|
            0 <= i < j < deepest_first(ns, d).len() ==> ns[#[trigger] deepest_first(ns, d)[i] as int]
                >= ns[#[trigger] deepest_first(ns, d)[j] as int],
    decreases d,
{
    lemma_at_depth_members(ns, d);
    if d > 0 {
        law_children_removed_first(ns, (d - 1) as nat);
        lemma_deepest_first_members(ns, (d - 1) as nat);
        let a = at_depth(ns, d);
        let b = deepest_first(ns, (d - 1) as nat);
        assert forall|i: int, j: int| 0 <= i < j < (a + b).len() implies ns[#[trigger] (a + b)[i] as int]
            >= ns[#[trigger] (a + b)[j] as int] by {
            if j < a.len() {
                assert(ns[a[i] as int] == d && ns[a[j] as int] == d);
            } else if i < a.len() {
                assert((a + b)[j] == b[j - a.len()]);
                assert(ns[b[j - a.len()] as int] <= d - 1);
            } else {
                assert((a + b)[i] == b[i - a.len()]);
                assert((a + b)[j] == b[j - a.len()]);
            }
        }
    }
}

} // verus!
