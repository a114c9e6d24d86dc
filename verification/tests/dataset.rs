use s3perf::dataset::{
    creates_warehouse, deletes_warehouse, first_create_step, namespace_removal_order, next_create_step, CreatePlan,
    CreateStep,
};
use s3perf::iceberg::ExternalCatalogType;
use s3perf::tree::NamespaceInfo;

#[test]
fn warehouse_decisions() {
    assert!(creates_warehouse(ExternalCatalogType::Builtin, "http://c", "ak"));
    assert!(!creates_warehouse(ExternalCatalogType::Builtin, "http://c", ""));
    assert!(!creates_warehouse(ExternalCatalogType::Polaris, "http://c", "ak"));
    assert!(deletes_warehouse(ExternalCatalogType::Builtin, "http://c"));
    assert!(!deletes_warehouse(ExternalCatalogType::Builtin, ""));
}

#[test]
fn creation_walks_the_plan() {
    let plan = CreatePlan { warehouse: true, namespaces: 1, tables: 0, views: 1 };
    let path = vec!["n".to_string()];
    let mut step = first_create_step(plan);
    assert_eq!(step, CreateStep::EnsureWarehouse);
    step = next_create_step(plan, &step, Ok(()), &path);
    assert_eq!(step, CreateStep::CreateNamespace(0));
    step = next_create_step(plan, &step, Err("Namespace already exists".to_string()), &path);
    assert_eq!(step, CreateStep::CreateView(0));
    step = next_create_step(plan, &step, Err("boom".to_string()), &path);
    assert_eq!(step, CreateStep::Done);
    let failed = next_create_step(plan, &CreateStep::CreateNamespace(0), Err("denied".to_string()), &path);
    assert_eq!(failed, CreateStep::Failed("namespace [\"n\"]: denied".to_string()));
    let wh = next_create_step(plan, &CreateStep::EnsureWarehouse, Err("no".to_string()), &path);
    assert_eq!(wh, CreateStep::Failed("no".to_string()));
}

#[test]
fn removal_order_children_first() {
    let ns = vec![
        NamespaceInfo { path: vec![], ordinal: 0 },
        NamespaceInfo { path: vec!["a".to_string()], ordinal: 1 },
        NamespaceInfo { path: vec!["a".to_string(), "b".to_string()], ordinal: 2 },
        NamespaceInfo { path: vec!["c".to_string()], ordinal: 3 },
    ];
    assert_eq!(namespace_removal_order(&ns), vec![2, 1, 3, 0]);
    assert!(namespace_removal_order(&[]).is_empty());
}
