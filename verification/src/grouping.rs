//! The order of texts, and operations split by a text key (endpoint, kind of
//! request, client) into groups listed in increasing key order, as a map
//! ordered by its keys lists them.
use vstd::prelude::*;
use crate::ops::Operation;
use crate::text::{str_chars, str_eq, views};

verus! {

broadcast use vstd::string::group_string_axioms;

/// `a` sorts before `b`: at the first position where they differ the
/// character of `a` is smaller, or `a` is a proper prefix of `b`. This is
/// the order of `String`, whose byte order is the order of code points.
pub open spec fn text_lt(a: Seq<char>, b: Seq<char>) -> bool
    decreases a.len(),
{
    if b.len() == 0 {
        false
    } else if a.len() == 0 {
        true
    } else if a[0] != b[0] {
        a[0] < b[0]
    } else {
        text_lt(a.drop_first(), b.drop_first())
    }
}

/// No text sorts before itself.
pub proof fn lemma_text_lt_irreflexive(a: Seq<char>)
    ensures
        !text_lt(a, a),
    decreases a.len(),
{
    if a.len() > 0 {
        lemma_text_lt_irreflexive(a.drop_first());
    }
}

/// The order is transitive.
pub proof fn lemma_text_lt_transitive(a: Seq<char>, b: Seq<char>, c: Seq<char>)
    requires
        text_lt(a, b),
        text_lt(b, c),
    ensures
        text_lt(a, c),
    decreases a.len(),
{
    if a.len() > 0 && b.len() > 0 && c.len() > 0 && a[0] == b[0] && b[0] == c[0] {
        lemma_text_lt_transitive(a.drop_first(), b.drop_first(), c.drop_first());
    }
}

/// Of two different texts, one sorts before the other.
pub proof fn lemma_text_lt_total(a: Seq<char>, b: Seq<char>)
    requires
        a != b,
    ensures
        text_lt(a, b) || text_lt(b, a),
    decreases a.len(),
{
    if a.len() > 0 && b.len() > 0 && a[0] == b[0] {
        if a.drop_first() == b.drop_first() {
            assert(a.drop_first().len() == b.drop_first().len());
            assert(a.len() == b.len());
            assert(a =~= b) by {
                assert forall|i: int| 0 <= i < a.len() implies a[i] == b[i] by {
                    if i > 0 {
                        assert(a[i] == a.drop_first()[i - 1]);
                        assert(b[i] == b.drop_first()[i - 1]);
                    }
                }
            }
        }
        lemma_text_lt_total(a.drop_first(), b.drop_first());
    }
    if a.len() == 0 && b.len() == 0 {
        assert(a =~= b);
    }
}

/// Whether `a` sorts before `b`.
pub fn text_less(a: &[char], b: &[char]) -> (r: bool)
    ensures
        r == text_lt(a@, b@),
{
    let mut i: usize = 0;
    assert(a@.subrange(0, a@.len() as int) =~= a@);
    assert(b@.subrange(0, b@.len() as int) =~= b@);
    loop
        invariant
            i <= a@.len(),
            i <= b@.len(),
            text_lt(a@, b@) == text_lt(a@.subrange(i as int, a@.len() as int), b@.subrange(i as int, b@.len() as int)),
        decreases a@.len() - i,
    {
        if i == b.len() {
            return false;
        }
        if i == a.len() {
            return true;
        }
        let x = a[i];
        let y = b[i];
        if x != y {
            return x < y;
        }
        assert(a@.subrange(i as int, a@.len() as int).drop_first() =~= a@.subrange(i + 1, a@.len() as int));
        assert(b@.subrange(i as int, b@.len() as int).drop_first() =~= b@.subrange(i + 1, b@.len() as int));
        i = i + 1;
    }
}

/// Strictly increasing in the order of texts (so no text occurs twice).
pub open spec fn texts_increasing(s: Seq<Seq<char>>) -> bool {
    forall|i: int, j: int| 0 <= i < j < s.len() ==> text_lt(#[trigger] s[i], #[trigger] s[j])
}


proof fn lemma_to_set_push<A>(s: Seq<A>, x: A)
    ensures
        s.push(x).to_set() == s.to_set().insert(x),
{
    assert(s.push(x).to_set() =~= s.to_set().insert(x)) by {
        assert forall|y: A| s.push(x).to_set().contains(y) implies s.to_set().insert(x).contains(y) by {
            let k = choose|k: int| 0 <= k < s.push(x).len() && s.push(x)[k] == y;
            if k < s.len() {
                assert(s[k] == y);
            }
        }
        assert forall|y: A| s.to_set().insert(x).contains(y) implies s.push(x).to_set().contains(y) by {
            if y == x {
                assert(s.push(x)[s.len() as int] == y);
            } else {
                let k = choose|k: int| 0 <= k < s.len() && s[k] == y;
                assert(s.push(x)[k] == y);
            }
        }
    }
}

/// Adds `k` to a strictly increasing list of texts unless it is there.
fn insert_text(keys: &mut Vec<String>, k: &String)
    requires
        texts_increasing(views(old(keys)@)),
    ensures
        texts_increasing(views(final(keys)@)),
        views(final(keys)@).to_set() == views(old(keys)@).to_set().insert(k@),
{
    let ghost before = views(keys@);
    let kc = str_chars(k.as_str());
    let mut p: usize = 0;
    loop
        invariant
            p <= keys@.len(),
            views(keys@) == before,
            kc@ == k@,
            forall|j: int| 0 <= j < p ==> text_lt(#[trigger] before[j], k@),
        ensures
            p <= keys@.len(),
            views(keys@) == before,
            forall|j: int| 0 <= j < p ==> text_lt(#[trigger] before[j], k@),
            p < keys@.len() ==> !text_lt(before[p as int], k@),
        decreases keys@.len() - p,
    {
        if p >= keys.len() {
            break;
        }
        let c = str_chars(keys[p].as_str());
        assert(c@ == before[p as int]);
        if !text_less(&c, &kc) {
            break;
        }
        p = p + 1;
    }
    if p < keys.len() && str_eq(keys[p].as_str(), k.as_str()) {
        assert(before[p as int] == k@);
        assert(before.to_set().insert(k@) =~= before.to_set()) by {
            assert(before.to_set().contains(before[p as int]));
        }
        return ;
    }
    proof {
        assert forall|j: int| p <= j < before.len() implies text_lt(k@, #[trigger] before[j]) by {
            assert(before[p as int] != k@);
            lemma_text_lt_total(before[p as int], k@);
            if j > p {
                lemma_text_lt_transitive(k@, before[p as int], before[j]);
            }
        }
    }
    keys.insert(p, k.clone());
    let ghost after = views(keys@);
    assert(after.len() == before.len() + 1);
    assert(forall|j: int| 0 <= j < p ==> after[j] == before[j]);
    assert(after[p as int] == k@);
    assert(forall|j: int| p < j < after.len() ==> after[j] == before[j - 1]);
    assert(texts_increasing(after)) by {
        assert forall|i: int, j: int| 0 <= i < j < after.len() implies text_lt(#[trigger] after[i], #[trigger] after[j]) by {
            if j < p {
                assert(text_lt(before[i], before[j]));
            } else if j == p {
                assert(text_lt(before[i], k@));
            } else if i < p {
                assert(text_lt(before[i], k@));
                assert(text_lt(k@, before[j - 1]));
                lemma_text_lt_transitive(before[i], k@, before[j - 1]);
            } else if i == p {
                assert(text_lt(k@, before[j - 1]));
            } else {
                assert(text_lt(before[i - 1], before[j - 1]));
            }
        }
    }
    assert(after.to_set() =~= before.to_set().insert(k@)) by {
        assert forall|x: Seq<char>| after.to_set().contains(x) implies before.to_set().insert(k@).contains(x) by {
            let q = choose|q: int| 0 <= q < after.len() && after[q] == x;
            if q < p {
                assert(before[q] == x);
            } else if q > p {
                assert(before[q - 1] == x);
            }
        }
        assert forall|x: Seq<char>| before.to_set().insert(k@).contains(x) implies after.to_set().contains(x) by {
            if x == k@ {
                assert(after[p as int] == x);
            } else {
                let q = choose|q: int| 0 <= q < before.len() && before[q] == x;
                if q < p {
                    assert(after[q] == x);
                } else {
                    assert(after[q + 1] == x);
                }
            }
        }
    }
}

/// The different texts of `keys`, each once, in increasing order.
pub fn distinct_sorted(keys: &[String]) -> (r: Vec<String>)
    ensures
        texts_increasing(views(r@)),
        views(r@).to_set() == views(keys@).to_set(),
{
    let mut out: Vec<String> = Vec::new();
    assert(views(out@).to_set() =~= views(keys@.subrange(0, 0)).to_set());
    let mut i: usize = 0;
    while i < keys.len()
        invariant
            i <= keys@.len(),
            texts_increasing(views(out@)),
            views(out@).to_set() == views(keys@.subrange(0, i as int)).to_set(),
        decreases keys@.len() - i,
    {
        insert_text(&mut out, &keys[i]);
        assert(views(keys@.subrange(0, i + 1)) =~= views(keys@.subrange(0, i as int)).push(keys@[i as int]@));
        proof {
            lemma_to_set_push(views(keys@.subrange(0, i as int)), keys@[i as int]@);
        }
        i = i + 1;
    }
    assert(keys@.subrange(0, keys@.len() as int) =~= keys@);
    out
}

/// The positions of `keys` that hold `k`, in increasing order.
pub open spec fn positions_of(keys: Seq<Seq<char>>, k: Seq<char>) -> Seq<nat>
    decreases keys.len(),
{
    if keys.len() == 0 {
        seq![]
    } else if keys.last() == k {
        positions_of(keys.drop_last(), k).push((keys.len() - 1) as nat)
    } else {
        positions_of(keys.drop_last(), k)
    }
}

/// A position is listed for `k` exactly where `k` stands.
pub proof fn lemma_positions_of(keys: Seq<Seq<char>>, k: Seq<char>, j: int)
    ensures
        positions_of(keys, k).contains(j as nat) && 0 <= j <==> 0 <= j < keys.len() && keys[j] == k,
    decreases keys.len(),
{
    if keys.len() > 0 {
        lemma_positions_of(keys.drop_last(), k, j);
        let p = positions_of(keys.drop_last(), k);
        if keys.last() == k {
            assert(positions_of(keys, k) == p.push((keys.len() - 1) as nat));
            if j == keys.len() - 1 {
                assert(positions_of(keys, k)[p.len() as int] == j as nat);
            } else if positions_of(keys, k).contains(j as nat) && 0 <= j {
                let q = choose|q: int| 0 <= q < positions_of(keys, k).len() && positions_of(keys, k)[q] == j as nat;
                if q < p.len() {
                    assert(p.contains(j as nat));
                }
            } else if 0 <= j < keys.len() && keys[j] == k {
                assert(keys.drop_last()[j] == k);
                let q = choose|q: int| 0 <= q < p.len() && p[q] == j as nat;
                assert(positions_of(keys, k)[q] == j as nat);
            }
        } else if 0 <= j < keys.len() - 1 {
            assert(keys.drop_last()[j] == keys[j]);
        }
    }
}

/// Texts grouped: the keys in increasing order, exactly the texts that
/// occur in `keys`, each with the positions that hold it.
pub open spec fn grouped(r: Seq<(Seq<char>, Seq<nat>)>, keys: Seq<Seq<char>>) -> bool {
    &&& texts_increasing(r.map_values(|g: (Seq<char>, Seq<nat>)| g.0))
    &&& forall|k: Seq<char>| keys.contains(k) <==> exists|i: int| 0 <= i < r.len() && #[trigger] r[i].0 == k
    &&& forall|i: int| 0 <= i < r.len() ==> (#[trigger] r[i]).1 == positions_of(keys, r[i].0)
}

/// The positions of `keys` that hold `k`.
fn positions_with(keys: &Vec<String>, k: &String) -> (r: Vec<usize>)
    ensures
        r@.map_values(|x: usize| x as nat) == positions_of(views(keys@), k@),
{
    let ghost a = views(keys@);
    let mut r: Vec<usize> = Vec::new();
    let mut i: usize = 0;
    while i < keys.len()
        invariant
            i <= keys@.len(),
            a == views(keys@),
            r@.map_values(|x: usize| x as nat) == positions_of(a.subrange(0, i as int), k@),
        decreases keys@.len() - i,
    {
        assert(a.subrange(0, i + 1).drop_last() =~= a.subrange(0, i as int));
        assert(a.subrange(0, i + 1).last() == keys@[i as int]@);
        if str_eq(keys[i].as_str(), k.as_str()) {
            let ghost before = r@;
            r.push(i);
            assert(r@.map_values(|x: usize| x as nat) =~= before.map_values(|x: usize| x as nat).push(i as nat));
        }
        i = i + 1;
    }
    assert(a.subrange(0, keys@.len() as int) =~= a);
    r
}

/// The different texts of `keys` in increasing order, each with the
/// positions that hold it.
pub fn group_by_text(keys: &Vec<String>) -> (r: Vec<(String, Vec<usize>)>)
    ensures
        grouped(r@.map_values(|g: (String, Vec<usize>)| (g.0@, g.1@.map_values(|x: usize| x as nat))), views(keys@)),
{
    let ghost a = views(keys@);
    let names = distinct_sorted(keys.as_slice());
    let mut out: Vec<(String, Vec<usize>)> = Vec::new();
    let mut j: usize = 0;
    while j < names.len()
        invariant
            j <= names@.len(),
            a == views(keys@),
            out@.len() == j,
            forall|q: int| 0 <= q < j ==> (#[trigger] out@[q]).0@ == names@[q]@,
            forall|q: int|
                0 <= q < j ==> (#[trigger] out@[q]).1@.map_values(|x: usize| x as nat) == positions_of(a, out@[q].0@),
        decreases names@.len() - j,
    {
        let m = positions_with(keys, &names[j]);
        out.push((names[j].clone(), m));
        j = j + 1;
    }
    let ghost rv = out@.map_values(|g: (String, Vec<usize>)| (g.0@, g.1@.map_values(|x: usize| x as nat)));
    assert(rv.map_values(|g: (Seq<char>, Seq<nat>)| g.0) =~= views(names@));
    assert forall|k: Seq<char>| a.contains(k) <==> exists|q: int| 0 <= q < rv.len() && #[trigger] rv[q].0 == k by {
        if a.contains(k) {
            assert(a.to_set().contains(k));
            assert(views(names@).to_set().contains(k));
            let q = choose|q: int| 0 <= q < views(names@).len() && views(names@)[q] == k;
            assert(rv[q].0 == k);
        }
        if exists|q: int| 0 <= q < rv.len() && #[trigger] rv[q].0 == k {
            let q = choose|q: int| 0 <= q < rv.len() && #[trigger] rv[q].0 == k;
            assert(views(names@)[q] == k);
            assert(views(names@).to_set().contains(k));
            assert(a.to_set().contains(k));
        }
    }
    assert forall|q: int| 0 <= q < rv.len() implies (#[trigger] rv[q]).1 == positions_of(a, rv[q].0) by {
        assert(out@[q].1@.map_values(|x: usize| x as nat) == positions_of(a, out@[q].0@));
    }
    out
}

/// Every position lies in the group of the text it holds.
pub proof fn law_every_position_grouped(r: Seq<(Seq<char>, Seq<nat>)>, keys: Seq<Seq<char>>, j: int)
    requires
        grouped(r, keys),
        0 <= j < keys.len(),
    ensures
        exists|i: int| 0 <= i < r.len() && #[trigger] r[i].0 == keys[j] && r[i].1.contains(j as nat),
{
    assert(keys.contains(keys[j]));
    let i = choose|i: int| 0 <= i < r.len() && #[trigger] r[i].0 == keys[j];
    lemma_positions_of(keys, keys[j], j);
    assert(r[i].1 == positions_of(keys, r[i].0));
}

// ---------------------------------------------------------------------------
// Operations split by a text key
// ---------------------------------------------------------------------------

/// The text operations are split by.
#[derive(Clone, Copy, Debug, PartialEq, Eq)]
pub enum SplitKey {
    Endpoint,
    OpType,
    Client,
}

/// The key text of `o`.
pub open spec fn key_of(k: SplitKey, o: Operation) -> Seq<char> {
    match k {
        SplitKey::Endpoint => o.endpoint@,
        SplitKey::OpType => o.op_type@,
        SplitKey::Client => o.client_id@,
    }
}

/// The key text of each operation, in operation order.
pub open spec fn keys_of(s: Seq<Operation>, k: SplitKey) -> Seq<Seq<char>> {
    s.map_values(|o: Operation| key_of(k, o))
}

/// The operations at positions `m`, in that order.
pub open spec fn at_positions(s: Seq<Operation>, m: Seq<nat>) -> Seq<Operation> {
    m.map_values(|i: nat| s[i as int])
}

/// `r` splits `s` by key `k`: the keys in increasing order, exactly the
/// keys that occur, each with its operations in their order.
pub open spec fn split_ok(r: Seq<(Seq<char>, Seq<Operation>)>, s: Seq<Operation>, k: SplitKey) -> bool {
    &&& texts_increasing(r.map_values(|g: (Seq<char>, Seq<Operation>)| g.0))
    &&& forall|t: Seq<char>| keys_of(s, k).contains(t) <==> exists|i: int| 0 <= i < r.len() && #[trigger] r[i].0 == t
    &&& forall|i: int| 0 <= i < r.len() ==> (#[trigger] r[i]).1 == at_positions(s, positions_of(keys_of(s, k), r[i].0))
}

/// The view of a split.
pub open spec fn split_view(r: Seq<(String, Vec<Operation>)>) -> Seq<(Seq<char>, Seq<Operation>)> {
    r.map_values(|g: (String, Vec<Operation>)| (g.0@, g.1@))
}

/// The key text of `o`.
fn key_text(o: &Operation, k: SplitKey) -> (r: String)
    ensures
        r@ == key_of(k, *o),
{
    match k {
        SplitKey::Endpoint => o.endpoint.clone(),
        SplitKey::OpType => o.op_type.clone(),
        SplitKey::Client => o.client_id.clone(),
    }
}

/// The key texts of the operations.
fn key_texts(ops: &[Operation], k: SplitKey) -> (r: Vec<String>)
    ensures
        views(r@) == keys_of(ops@, k),
{
    let mut r: Vec<String> = Vec::new();
    let mut i: usize = 0;
    while i < ops.len()
        invariant
            i <= ops@.len(),
            views(r@) == keys_of(ops@.subrange(0, i as int), k),
        decreases ops@.len() - i,
    {
        let t = key_text(&ops[i], k);
        r.push(t);
        assert(keys_of(ops@.subrange(0, i + 1), k) =~= keys_of(ops@.subrange(0, i as int), k).push(key_of(k, ops@[i as int])));
        assert(views(r@) =~= keys_of(ops@.subrange(0, i + 1), k));
        i = i + 1;
    }
    assert(ops@.subrange(0, ops@.len() as int) =~= ops@);
    r
}

/// The operations at positions `m` (each a position of `ops`).
fn pick_ops(ops: &[Operation], m: &Vec<usize>) -> (r: Vec<Operation>)
    requires
        forall|t: int| 0 <= t < m@.len() ==> (m@[t] as int) < ops@.len(),
    ensures
        r@ == at_positions(ops@, m@.map_values(|x: usize| x as nat)),
{
    let mut r: Vec<Operation> = Vec::new();
    let mut t: usize = 0;
    while t < m.len()
        invariant
            t <= m@.len(),
            forall|q: int| 0 <= q < m@.len() ==> (m@[q] as int) < ops@.len(),
            r@ == at_positions(ops@, m@.subrange(0, t as int).map_values(|x: usize| x as nat)),
        decreases m@.len() - t,
    {
        let o = ops[m[t]].copy();
        r.push(o);
        assert(at_positions(ops@, m@.subrange(0, t + 1).map_values(|x: usize| x as nat)) =~= at_positions(
            ops@,
            m@.subrange(0, t as int).map_values(|x: usize| x as nat),
        ).push(ops@[m@[t as int] as int]));
        t = t + 1;
    }
    assert(m@.subrange(0, m@.len() as int) =~= m@);
    r
}

/// The operations split by the key `k`, keys in increasing order.
pub fn split_by(ops: &[Operation], k: SplitKey) -> (r: Vec<(String, Vec<Operation>)>)
    ensures
        split_ok(split_view(r@), ops@, k),
{
    let keys = key_texts(ops, k);
    let groups = group_by_text(&keys);
    let ghost a = keys_of(ops@, k);
    let ghost gv = groups@.map_values(|g: (String, Vec<usize>)| (g.0@, g.1@.map_values(|x: usize| x as nat)));
    let mut out: Vec<(String, Vec<Operation>)> = Vec::new();
    let mut j: usize = 0;
    while j < groups.len()
        invariant
            j <= groups@.len(),
            views(keys@) == a,
            a == keys_of(ops@, k),
            a.len() == ops@.len(),
            gv == groups@.map_values(|g: (String, Vec<usize>)| (g.0@, g.1@.map_values(|x: usize| x as nat))),
            grouped(gv, a),
            out@.len() == j,
            forall|q: int| 0 <= q < j ==> (#[trigger] out@[q]).0@ == gv[q].0,
            forall|q: int| 0 <= q < j ==> (#[trigger] out@[q]).1@ == at_positions(ops@, gv[q].1),
        decreases groups@.len() - j,
    {
        let ghost key = gv[j as int].0;
        proof {
            assert forall|t: int| 0 <= t < groups@[j as int].1@.len() implies (groups@[j as int].1@[t] as int) < ops@.len() by {
                let pos = gv[j as int].1;
                assert(pos == positions_of(a, key));
                assert(pos[t] == groups@[j as int].1@[t] as nat);
                lemma_positions_of(a, key, groups@[j as int].1@[t] as int);
            }
        }
        let picked = pick_ops(ops, &groups[j].1);
        out.push((groups[j].0.clone(), picked));
        j = j + 1;
    }
    let ghost rv = split_view(out@);
    assert(rv.map_values(|g: (Seq<char>, Seq<Operation>)| g.0) =~= gv.map_values(|g: (Seq<char>, Seq<nat>)| g.0));
    assert forall|t: Seq<char>| a.contains(t) <==> exists|i: int| 0 <= i < rv.len() && #[trigger] rv[i].0 == t by {
        if a.contains(t) {
            let i = choose|i: int| 0 <= i < gv.len() && #[trigger] gv[i].0 == t;
            assert(rv[i].0 == t);
        }
        if exists|i: int| 0 <= i < rv.len() && #[trigger] rv[i].0 == t {
            let i = choose|i: int| 0 <= i < rv.len() && #[trigger] rv[i].0 == t;
            assert(gv[i].0 == t);
        }
    }
    assert forall|i: int| 0 <= i < rv.len() implies (#[trigger] rv[i]).1 == at_positions(ops@, positions_of(a, rv[i].0)) by {
        assert(gv[i].1 == positions_of(a, gv[i].0));
    }
    out
}

/// The operations per endpoint, endpoints in increasing order.
pub fn by_endpoint(ops: &[Operation]) -> (r: Vec<(String, Vec<Operation>)>)
    ensures
        split_ok(split_view(r@), ops@, SplitKey::Endpoint),
{
    split_by(ops, SplitKey::Endpoint)
}

/// The operations per endpoint, endpoints in increasing order.
pub fn sort_split_by_endpoint(ops: &[Operation]) -> (r: Vec<(String, Vec<Operation>)>)
    ensures
        split_ok(split_view(r@), ops@, SplitKey::Endpoint),
{
    split_by(ops, SplitKey::Endpoint)
}

/// The operations per kind of request, kinds in increasing order.
pub fn sort_split_by_op_type(ops: &[Operation]) -> (r: Vec<(String, Vec<Operation>)>)
    ensures
        split_ok(split_view(r@), ops@, SplitKey::OpType),
{
    split_by(ops, SplitKey::OpType)
}

/// The operations per client, clients in increasing order.
pub fn sort_split_by_client(ops: &[Operation]) -> (r: Vec<(String, Vec<Operation>)>)
    ensures
        split_ok(split_view(r@), ops@, SplitKey::Client),
{
    split_by(ops, SplitKey::Client)
}

/// The different endpoints, in increasing order.
pub fn endpoints(ops: &[Operation]) -> (r: Vec<String>)
    ensures
        texts_increasing(views(r@)),
        views(r@).to_set() == keys_of(ops@, SplitKey::Endpoint).to_set(),
{
    let keys = key_texts(ops, SplitKey::Endpoint);
    distinct_sorted(keys.as_slice())
}

/// The different kinds of request, in increasing order.
pub fn op_types(ops: &[Operation]) -> (r: Vec<String>)
    ensures
        texts_increasing(views(r@)),
        views(r@).to_set() == keys_of(ops@, SplitKey::OpType).to_set(),
{
    let keys = key_texts(ops, SplitKey::OpType);
    distinct_sorted(keys.as_slice())
}

/// Splitting by a key places every operation in the group of its key.
pub proof fn law_split_covers(r: Seq<(Seq<char>, Seq<Operation>)>, s: Seq<Operation>, k: SplitKey, j: int)
    requires
        split_ok(r, s, k),
        0 <= j < s.len(),
    ensures
        exists|i: int|
            0 <= i < r.len() && #[trigger] r[i].0 == key_of(k, s[j]) && r[i].1.contains(s[j]),
{
    let a = keys_of(s, k);
    assert(a[j] == key_of(k, s[j]));
    assert(a.contains(a[j]));
    let i = choose|i: int| 0 <= i < r.len() && #[trigger] r[i].0 == a[j];
    lemma_positions_of(a, a[j], j);
    let pos = positions_of(a, a[j]);
    let q = choose|q: int| 0 <= q < pos.len() && pos[q] == j as nat;
    assert(r[i].1 == at_positions(s, pos));
    assert(r[i].1[q] == s[j]);
}

} // verus!
