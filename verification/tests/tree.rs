use rand::SeedableRng;
use s3perf::tree::{namespace_path, to_table_identifier, Tree, TreeConfig};

#[test]
fn test_tree_counts() {
    let cfg = TreeConfig {
        namespace_width: 2,
        namespace_depth: 3,
        ..Default::default()
    };
    let tree = Tree::new(cfg);
    assert_eq!(tree.total_namespaces(), 7); // 1+2+4
    assert_eq!(tree.leaf_namespaces(), 4);
    assert_eq!(tree.total_tables(), 20); // 4*5
    assert_eq!(tree.total_views(), 20);
}

#[test]
fn test_tree_namespace_list() {
    let cfg = TreeConfig {
        namespace_width: 1,
        namespace_depth: 2,
        ..Default::default()
    };
    let tree = Tree::new(cfg);
    let all = tree.all_namespaces();
    assert_eq!(all.len(), 2); // depth=2, width=1 → 2 ns
}

fn tree(w: usize, d: usize) -> Tree {
    Tree::new(TreeConfig { namespace_width: w, namespace_depth: d, ..Default::default() })
}

#[test]
fn tree_namespace_paths_width_two() {
    let t = tree(2, 3);
    let all = t.all_namespaces();
    let paths: Vec<String> = all.iter().map(|n| n.path.join("/")).collect();
    assert_eq!(
        paths,
        vec![
            "ns_0",
            "ns_0/ns_0", "ns_0/ns_1",
            "ns_0/ns_0/ns_0", "ns_0/ns_0/ns_1", "ns_0/ns_1/ns_2", "ns_0/ns_1/ns_3",
        ]
    );
    let ordinals: Vec<usize> = all.iter().map(|n| n.ordinal).collect();
    assert_eq!(ordinals, (0..7).collect::<Vec<_>>());
    // every namespace below the root sits under a listed parent
    for n in &all[1..] {
        let parent = &n.path[..n.path.len() - 1];
        assert!(all.iter().any(|p| p.path == parent));
    }
}

#[test]
fn tree_count_law_matches_list() {
    for (w, d) in [(1, 4), (2, 4), (3, 3), (4, 2), (5, 1)] {
        let t = tree(w, d);
        assert_eq!(t.all_namespaces().len(), t.total_namespaces());
        assert_eq!(t.leaf_namespaces_list().len(), t.leaf_namespaces());
        assert_eq!(t.all_tables().len(), t.total_tables());
        assert_eq!(t.all_views().len(), t.total_views());
        let full: Vec<_> = t
            .all_namespaces()
            .into_iter()
            .filter(|n| n.path.len() == d)
            .map(|n| (n.path, n.ordinal))
            .collect();
        let leaves: Vec<_> = t.leaf_namespaces_list().into_iter().map(|n| (n.path, n.ordinal)).collect();
        assert_eq!(full, leaves);
    }
}

#[test]
fn tree_tables_and_views_locations() {
    let t = Tree::new(TreeConfig {
        namespace_width: 2,
        namespace_depth: 2,
        tables_per_ns: 2,
        views_per_ns: 1,
        base_location: "s3://b".into(),
        ..Default::default()
    });
    let tables = t.all_tables();
    assert_eq!(tables.len(), 4);
    assert_eq!(tables[0].name, "tbl_0");
    assert_eq!(tables[0].location, "s3://b/ns_0/ns_0/tbl_0");
    assert_eq!(tables[3].name, "tbl_1");
    assert_eq!(tables[3].location, "s3://b/ns_0/ns_1/tbl_1");
    assert_eq!(tables[3].namespace, vec!["ns_0".to_string(), "ns_1".to_string()]);
    let views = t.all_views();
    assert_eq!(views.len(), 2);
    assert_eq!(views[1].location, "s3://b/ns_0/ns_1/view_0");
}

#[test]
fn tree_depth_zero_is_empty() {
    let t = tree(3, 0);
    assert_eq!(t.total_namespaces(), 0);
    assert!(t.all_namespaces().is_empty());
    assert!(t.leaf_namespaces_list().is_empty());
    assert!(t.all_tables().is_empty());
}

#[test]
fn tree_identifiers() {
    let ns = vec!["a".to_string(), "b".to_string()];
    assert_eq!(namespace_path(&ns, "c"), vec!["a", "b", "c"]);
    assert_eq!(to_table_identifier(&ns, "t"), vec!["a", "b", "t"]);
    assert_eq!(tree(2, 3).config().namespace_width, 2);
}

#[test]
fn random_picks_come_from_the_tree() {
    let tree = Tree::new(TreeConfig { namespace_width: 2, namespace_depth: 3, ..Default::default() });
    let mut rng = rand::rngs::SmallRng::seed_from_u64(11);
    let names: Vec<Vec<String>> = tree.all_namespaces().into_iter().map(|n| n.path).collect();
    let tables: Vec<String> = tree.all_tables().into_iter().map(|t| t.location).collect();
    let views: Vec<String> = tree.all_views().into_iter().map(|v| v.location).collect();
    for _ in 0..20 {
        assert!(names.contains(&tree.random_namespace(&mut rng).path));
        assert!(tables.contains(&tree.random_table(&mut rng).location));
        assert!(views.contains(&tree.random_view(&mut rng).location));
    }
}
