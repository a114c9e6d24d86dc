use s3perf::grouping::{
    by_endpoint, distinct_sorted, endpoints, group_by_text, op_types, sort_split_by_client, sort_split_by_endpoint,
    sort_split_by_op_type, text_less,
};
use s3perf::ops::Operation;

fn op(op_type: &str, start: i64, endpoint: &str, client: &str) -> Operation {
    Operation {
        start,
        end: start + 5,
        first_byte: None,
        last_byte: None,
        op_type: op_type.to_string(),
        err: String::new(),
        file: format!("obj-{start}"),
        client_id: client.to_string(),
        endpoint: endpoint.to_string(),
        obj_per_op: 1,
        size: 10,
        thread: 0,
        categories: 0,
    }
}

fn sample() -> Vec<Operation> {
    vec![
        op("PUT", 1, "b:9000", "c2"),
        op("GET", 2, "a:9000", "c1"),
        op("GET", 3, "b:9000", "c1"),
        op("DELETE", 4, "a:9000", "c2"),
        op("GET", 5, "a:9000", "c1"),
    ]
}

#[test]
fn text_order_follows_code_points() {
    let c = |s: &str| s.chars().collect::<Vec<char>>();
    assert!(text_less(&c("abc"), &c("abd")));
    assert!(text_less(&c("ab"), &c("abc")));
    assert!(!text_less(&c("abc"), &c("ab")));
    assert!(!text_less(&c("same"), &c("same")));
    assert!(text_less(&c("Z"), &c("a")));
    assert!(text_less(&c(""), &c("a")));
    for (a, b) in [("GET", "PUT"), ("DELETE", "GET"), ("x", "xy"), ("é", "z")] {
        assert_eq!(text_less(&c(a), &c(b)), a.to_string() < b.to_string());
        assert_eq!(text_less(&c(b), &c(a)), b.to_string() < a.to_string());
    }
}

#[test]
fn distinct_sorted_orders_and_dedups() {
    let v: Vec<String> = ["put", "get", "put", "delete", "get"].iter().map(|s| s.to_string()).collect();
    assert_eq!(distinct_sorted(&v), vec!["delete", "get", "put"]);
    assert!(distinct_sorted(&[]).is_empty());
}

#[test]
fn group_by_text_lists_positions() {
    let v: Vec<String> = ["b", "a", "b", "c", "a"].iter().map(|s| s.to_string()).collect();
    let g = group_by_text(&v);
    assert_eq!(g, vec![("a".to_string(), vec![1, 4]), ("b".to_string(), vec![0, 2]), ("c".to_string(), vec![3])]);
}

#[test]
fn split_by_endpoint_keeps_order_within_groups() {
    let ops = sample();
    let split = by_endpoint(&ops);
    let names: Vec<&str> = split.iter().map(|(k, _)| k.as_str()).collect();
    assert_eq!(names, vec!["a:9000", "b:9000"]);
    let starts: Vec<Vec<i64>> = split.iter().map(|(_, v)| v.iter().map(|o| o.start).collect()).collect();
    assert_eq!(starts, vec![vec![2, 4, 5], vec![1, 3]]);
    let again = sort_split_by_endpoint(&ops);
    assert_eq!(again.len(), 2);
    let total: usize = split.iter().map(|(_, v)| v.len()).sum();
    assert_eq!(total, ops.len());
}

#[test]
fn split_by_op_type_and_client() {
    let ops = sample();
    let by_type = sort_split_by_op_type(&ops);
    let types: Vec<(&str, usize)> = by_type.iter().map(|(k, v)| (k.as_str(), v.len())).collect();
    assert_eq!(types, vec![("DELETE", 1), ("GET", 3), ("PUT", 1)]);
    let by_client = sort_split_by_client(&ops);
    let clients: Vec<(&str, Vec<i64>)> =
        by_client.iter().map(|(k, v)| (k.as_str(), v.iter().map(|o| o.start).collect())).collect();
    assert_eq!(clients, vec![("c1", vec![2, 3, 5]), ("c2", vec![1, 4])]);
}

#[test]
fn endpoint_and_type_lists() {
    let ops = sample();
    assert_eq!(endpoints(&ops), vec!["a:9000", "b:9000"]);
    assert_eq!(op_types(&ops), vec!["DELETE", "GET", "PUT"]);
    assert!(endpoints(&[]).is_empty());
}
