use s3perf::influx::{format_tags, parse_influx_url, parse_influx_url_with, AggregatedStats};
use s3perf::ops::{
    clients, filter_by_endpoint, filter_by_op, filter_errors, filter_first, filter_inside_range, filter_last,
    filter_successful, hosts, merge, min_max_size, sort_by_start_time, threads, time_range, total_duration,
    Operation,
};
use s3perf::ops::{active_time_range, sort_by_duration, sort_by_end_time, sort_by_ttfb};

const MS: i64 = 1_000_000;

fn op(op_type: &str, start_ms: i64, end_ms: i64, size: i64, endpoint: &str, client: &str, thread: u32, err: &str) -> Operation {
    Operation {
        start: start_ms * MS,
        end: end_ms * MS,
        first_byte: None,
        last_byte: None,
        op_type: op_type.to_string(),
        err: err.to_string(),
        file: format!("obj-{start_ms}"),
        client_id: client.to_string(),
        endpoint: endpoint.to_string(),
        obj_per_op: 1,
        size,
        thread,
        categories: 0,
    }
}

fn sample() -> Vec<Operation> {
    vec![
        op("GET", 30, 35, 10, "a", "c1", 0, ""),
        op("PUT", 10, 50, 40, "b", "c1", 1, "boom"),
        op("GET", 10, 12, 5, "a", "c2", 1, ""),
        op("DELETE", 20, 21, 0, "c", "c2", 2, ""),
    ]
}

#[test]
fn test_merge_overlapping() {
    let a: Vec<Operation> = (0..3).map(|i| op("GET", i * 10, i * 10 + 5, 1024, "localhost:9000", "c1", 0, "")).collect();
    let b: Vec<Operation> = (0..3).map(|i| op("GET", i * 10, i * 10 + 5, 1024, "localhost:9000", "c2", 0, "")).collect();
    let merged = merge(&[a, b]);
    assert!(merged.len() > 0, "merge should produce overlapping ops");
    assert_eq!(merged.len(), 6);
}

#[test]
fn merge_keeps_common_window() {
    let a = vec![op("GET", 0, 10, 1, "e", "c", 0, ""), op("GET", 20, 30, 1, "e", "c", 0, "")];
    let b = vec![op("GET", 5, 12, 1, "e", "c", 0, ""), op("GET", 18, 25, 1, "e", "c", 0, "")];
    let m = merge(&[a, b, Vec::new()]);
    // window: latest first start 5, earliest last end 25
    let starts: Vec<i64> = m.iter().map(|o| o.start / MS).collect();
    assert_eq!(starts, vec![5, 18]);
    assert!(merge(&[]).is_empty());
}

#[test]
fn filters_keep_order() {
    let s = sample();
    let gets: Vec<i64> = filter_by_op(&s, "GET").iter().map(|o| o.start / MS).collect();
    assert_eq!(gets, vec![30, 10]);
    assert_eq!(filter_by_endpoint(&s, "a").len(), 2);
    assert_eq!(filter_successful(&s).len(), 3);
    assert_eq!(filter_errors(&s)[0].op_type, "PUT");
    assert_eq!(filter_inside_range(&s, 10 * MS, 35 * MS).len(), 3);
}

#[test]
fn ordering_by_start() {
    let s = sample();
    let sorted: Vec<(i64, String)> = sort_by_start_time(&s).iter().map(|o| (o.start / MS, o.op_type.clone())).collect();
    assert_eq!(
        sorted,
        vec![(10, "PUT".to_string()), (10, "GET".to_string()), (20, "DELETE".to_string()), (30, "GET".to_string())]
    );
    let first: Vec<i64> = filter_first(&s, 2).iter().map(|o| o.start / MS).collect();
    assert_eq!(first, vec![10, 10]);
    let last: Vec<String> = filter_last(&s, 2).iter().map(|o| o.op_type.clone()).collect();
    assert_eq!(last, vec!["DELETE", "GET"]);
    assert_eq!(filter_last(&s, 10).len(), 4);
}

#[test]
fn summaries() {
    let s = sample();
    assert_eq!(min_max_size(&s), Some((0, 40)));
    assert_eq!(time_range(&s), Some((10 * MS, 50 * MS)));
    assert_eq!(min_max_size(&[]), None);
    assert_eq!(total_duration(&s), (5 + 40 + 2 + 1) as u64 * MS as u64);
    assert_eq!(threads(&s), 3);
    assert_eq!(hosts(&s), 3);
    assert_eq!(clients(&s), 2);
    let backwards = op("GET", 10, 5, 0, "a", "c", 0, "");
    assert_eq!(backwards.duration(), 0);
}

#[test]
fn test_aggregated_stats() {
    let mut stats = AggregatedStats::default();
    let mut o = op("GET", 0, 12, 1024, "localhost:9000", "c1", 0, "");
    o.first_byte = Some(8 * MS);
    stats.add_operation(&o);
    assert_eq!(stats.ops, 1);
    assert_eq!(stats.bytes, 1024);
    assert_eq!(stats.errors, 0);
    assert_eq!(stats.req_min, 12 * MS as u64);
    assert_eq!(stats.ttfb_max, 8 * MS as u64);
    let bad = op("PUT", 0, 3, 1, "x", "c", 0, "fail");
    stats.add_operation(&bad);
    assert_eq!(stats.errors, 1);
    assert_eq!(stats.req_min, 3 * MS as u64);
    assert_eq!(stats.req_max, 12 * MS as u64);
    assert_eq!(stats.objects, 2);
}

#[test]
fn test_parse_influx_url() {
    let cfg = parse_influx_url("http://mytoken@localhost:8086/mybucket/myorg?host=dev&dc=us1").unwrap();
    assert_eq!(cfg.url, "http://localhost:8086");
    assert_eq!(cfg.token, "mytoken");
    assert_eq!(cfg.bucket, "mybucket");
    assert_eq!(cfg.org, "myorg");
    let keys: Vec<&str> = cfg.global_tags.iter().map(|(k, _)| k.as_str()).collect();
    assert!(keys.contains(&"host"));
    assert!(keys.contains(&"dc"));
    assert!(keys.contains(&"run_id"));
}

#[test]
fn influx_url_details() {
    let cfg = parse_influx_url_with("https://t@h:1/b?x=1&y&x=2", "abcd1234").unwrap();
    assert_eq!(cfg.url, "https://h:1");
    assert_eq!(cfg.org, "default");
    let mut tags = cfg.global_tags.clone();
    tags.sort();
    assert_eq!(tags, vec![("run_id".to_string(), "abcd1234".to_string()), ("x".to_string(), "2".to_string())]);
    assert_eq!(parse_influx_url_with("ftp://x", "r").unwrap_err(), "missing URL scheme (http:// or https://)");
    assert_eq!(
        parse_influx_url_with("http://host:1/b", "r").unwrap_err(),
        "missing token segment (expect token@host:port/bucket/org)"
    );
    assert_eq!(
        parse_influx_url_with("http://t@host:1", "r").unwrap_err(),
        "missing bucket path segment (expect host:port/bucket/org)"
    );
    let run_id = parse_influx_url("http://t@h:1/b/o").unwrap();
    let id = &run_id.global_tags.iter().find(|(k, _)| k == "run_id").unwrap().1;
    assert_eq!(id.len(), 8);
    assert!(!id.contains('-'));
}

#[test]
fn tags_format() {
    let global = vec![("run_id".to_string(), "r1".to_string())];
    assert_eq!(format_tags(&[("op", "GET"), ("endpoint", "h")], &global), "op=GET,endpoint=h,run_id=r1");
    assert_eq!(format_tags(&[], &[]), "");
}

#[test]
fn other_orders_are_stable_sorts() {
    let ops = sample();
    let ends: Vec<i64> = sort_by_end_time(&ops).iter().map(|o| o.end / MS).collect();
    assert_eq!(ends, vec![12, 21, 35, 50]);
    let durs: Vec<String> = sort_by_duration(&ops).iter().map(|o| o.file.clone()).collect();
    assert_eq!(durs, vec!["obj-20", "obj-10", "obj-30", "obj-10"]);
    assert_eq!(sort_by_duration(&ops)[1].op_type, "GET");
    let mut with_fb = sample();
    with_fb[0].first_byte = Some(31 * MS);
    with_fb[2].first_byte = Some(11 * MS);
    let by_fb: Vec<String> = sort_by_ttfb(&with_fb).iter().map(|o| o.op_type.clone()).collect();
    // no first byte first (PUT, DELETE in input order), then 1 ms, then 1 ms (stable)
    assert_eq!(by_fb, vec!["PUT", "DELETE", "GET", "GET"]);
    assert_eq!(sort_by_ttfb(&with_fb)[2].start, 30 * MS);
    assert_eq!(active_time_range(&ops), Some((10 * MS, 50 * MS)));
    assert_eq!(active_time_range(&[]), None);
}

#[test]
fn stats_hold_the_totals_of_all_operations() {
    let mut ops = vec![
        op("GET", 0, 12, 1024, "e", "c", 0, ""),
        op("PUT", 5, 8, -24, "e", "c", 0, "boom"),
        op("GET", 1, 31, 100, "e", "c", 0, ""),
    ];
    ops[0].first_byte = Some(4 * MS);
    ops[2].first_byte = Some(11 * MS);
    let mut stats = AggregatedStats::default();
    for o in &ops {
        stats.add_operation(o);
    }
    assert_eq!(stats.ops, 3);
    assert_eq!(stats.bytes, 1100);
    assert_eq!(stats.errors, 1);
    assert_eq!(stats.req_dur, (12 + 3 + 30) * MS as u64);
    assert_eq!(stats.req_min, 3 * MS as u64);
    assert_eq!(stats.req_max, 30 * MS as u64);
    assert_eq!(stats.ttfb, (4 + 10) * MS as u64);
    assert_eq!(stats.ttfb_max, 10 * MS as u64);
}
