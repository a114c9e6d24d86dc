use s3perf::tree::{NamespaceInfo, TableInfo, ViewInfo};
use s3perf::workload::{
    build_versioned_pool, delete_batch, delete_start, expand_pool, fanout_key, fanout_outcome, pool_op,
    read_cursors_start, read_target, IcebergMixedDistribution, OpKind, VersionRegistry,
};

fn s(v: &[&str]) -> Vec<String> {
    v.iter().map(|x| x.to_string()).collect()
}

#[test]
fn catalog_mix_pool() {
    let counts = vec![("NS_LIST".to_string(), 2), ("VIEW_GET".to_string(), 1)];
    assert_eq!(expand_pool(&counts), s(&["NS_LIST", "NS_LIST", "VIEW_GET"]));
    let mut d = IcebergMixedDistribution::from_counts(&counts);
    let mut seen: Vec<String> = (0..3).map(|_| d.get_op()).collect();
    let again: Vec<String> = (0..3).map(|_| d.get_op()).collect();
    assert_eq!(seen, again);
    seen.sort();
    assert_eq!(seen, s(&["NS_LIST", "NS_LIST", "VIEW_GET"]));
    let mut empty = IcebergMixedDistribution::from_counts(&[]);
    assert_eq!(empty.get_op(), "");
}

#[test]
fn versioned_pool_counts() {
    let pool = build_versioned_pool(450, 300, 150, 1000);
    assert_eq!(pool.len(), 1000);
    assert_eq!(pool.iter().filter(|k| **k == OpKind::Get).count(), 450);
    assert_eq!(pool.iter().filter(|k| **k == OpKind::Delete).count(), 100);
    let cut = build_versioned_pool(800, 300, 0, 1000);
    assert_eq!(cut.iter().filter(|k| **k == OpKind::Stat).count(), 200);
    assert_eq!(cut.iter().filter(|k| **k == OpKind::Delete).count(), 0);
    assert_eq!(pool_op(&[OpKind::Put, OpKind::Get], 5), OpKind::Get);
    assert_eq!(OpKind::Delete.name(), "DELETE");
}

#[test]
fn version_registry() {
    let mut r = VersionRegistry::new();
    r.record("a".to_string(), "v1".to_string());
    r.record("b".to_string(), "v1".to_string());
    r.record("a".to_string(), "v2".to_string());
    assert_eq!(r.len(), 2);
    assert_eq!(r.version_count(0), 2);
    assert_eq!(r.pick(0, 1), ("a".to_string(), "v2".to_string()));
    assert_eq!(r.pick(1, 0), ("b".to_string(), "v1".to_string()));
}

#[test]
fn catalog_read_targets() {
    let ns = vec![NamespaceInfo { path: s(&["n1"]), ordinal: 0 }, NamespaceInfo { path: s(&["n1", "n2"]), ordinal: 1 }];
    let tables = vec![TableInfo { namespace: s(&["n1", "n2"]), name: "t0".to_string(), location: String::new() }];
    let views: Vec<ViewInfo> = Vec::new();
    let mut c = read_cursors_start(3, ns.len(), tables.len(), views.len());
    assert_eq!((c.ns, c.tbl, c.vw), (1, 0, 0));
    assert_eq!(read_target("NS_GET", "cat", &mut c, &ns, &tables, &views), Some("cat/n1.n2/".to_string()));
    assert_eq!(read_target("NS_LIST", "cat", &mut c, &ns, &tables, &views), Some("cat/n1/".to_string()));
    assert_eq!(read_target("TABLE_HEAD", "cat", &mut c, &ns, &tables, &views), Some("cat/n1.n2/t0".to_string()));
    assert_eq!(read_target("TABLE_LIST", "cat", &mut c, &ns, &tables, &views), Some("cat/n1.n2/".to_string()));
    assert_eq!(read_target("VIEW_GET", "cat", &mut c, &ns, &tables, &views), None);
    assert_eq!(read_target("BOGUS", "cat", &mut c, &ns, &tables, &views), None);
    assert_eq!((c.ns, c.tbl, c.vw), (3, 2, 0));
}

#[test]
fn delete_batches() {
    let keys = s(&["k0", "k1", "k2", "k3", "k4"]);
    assert_eq!(delete_start(2, 2), 4);
    assert_eq!(delete_start(2, 0), 2);
    assert_eq!(delete_batch(&keys, 1, 3), Some((s(&["k1", "k2", "k3"]), 4)));
    assert_eq!(delete_batch(&keys, 4, 3), Some((s(&["k4"]), 7)));
    assert_eq!(delete_batch(&keys, 5, 3), None);
}

#[test]
fn fanout_records() {
    assert_eq!(fanout_key("obj", 7), "obj/copy-0007");
    assert_eq!(fanout_outcome(4, 4, 10), (String::new(), 40));
    assert_eq!(fanout_outcome(4, 1, 10), ("3/4 copies failed".to_string(), 0));
}

#[test]
fn any_round_of_turns_holds_the_whole_pool() {
    let counts = vec![("A".to_string(), 2), ("B".to_string(), 1), ("C".to_string(), 1)];
    let mut d = IcebergMixedDistribution::from_counts(&counts);
    let seq: Vec<String> = (0..12).map(|_| d.get_op()).collect();
    for start in 0..8 {
        let mut window: Vec<String> = seq[start..start + 4].to_vec();
        window.sort();
        assert_eq!(window, s(&["A", "A", "B", "C"]));
        assert_eq!(seq[start], seq[start + 4]);
    }
}
