use s3perf::autoterm::{chunk_windows, stability_step, window_totals};
use s3perf::checksum::ChecksumType;
use s3perf::generator::ObjSize;
use s3perf::ops::Operation;
use s3perf::runs::{fixed_or, json_path_for, plan_for_run_file, randomized, upload_checksum, RunPlan};
use s3perf::segments::{group_by_segment, run_segments, segment_counts, segment_of_each, timestamp_millis};
use s3perf::text::replace_all;

const MS: i64 = 1_000_000;

fn op(start_ms: i64, end_ms: i64, size: i64, err: &str) -> Operation {
    Operation {
        start: start_ms * MS,
        end: end_ms * MS,
        first_byte: None,
        last_byte: None,
        op_type: "GET".to_string(),
        err: err.to_string(),
        file: String::new(),
        client_id: "c".to_string(),
        endpoint: "e".to_string(),
        obj_per_op: 2,
        size,
        thread: 0,
        categories: 0,
    }
}

#[test]
fn run_file_plans() {
    assert_eq!(plan_for_run_file("get", 0), Ok(RunPlan::Get { versions: 1 }));
    assert_eq!(plan_for_run_file("get", 3), Ok(RunPlan::Get { versions: 3 }));
    assert_eq!(plan_for_run_file("list", 2), Ok(RunPlan::List { versioned: true }));
    assert_eq!(plan_for_run_file("retention", 0), Ok(RunPlan::Retention { versions: 5 }));
    assert_eq!(
        plan_for_run_file("multipart", 0),
        Ok(RunPlan::Multipart { part_size: 5242880, parts: 200, object: "s3perf-multipart.bin".to_string() })
    );
    assert_eq!(
        plan_for_run_file("multipart-put", 0),
        Ok(RunPlan::MultipartPut { parts: 8, part_size: 5242880, part_concurrency: 4 })
    );
    assert_eq!(plan_for_run_file("nope", 0), Err("unsupported benchmark type: nope".to_string()));
}

#[test]
fn size_conversions() {
    match randomized(&ObjSize::Fixed(99)) {
        ObjSize::Random { max } => assert_eq!(max, 99),
        _ => panic!(),
    }
    match randomized(&ObjSize::Bucketed { buckets: vec![], total_weight: 0 }) {
        ObjSize::Random { max } => assert_eq!(max, 1048576),
        _ => panic!(),
    }
    assert_eq!(fixed_or(&ObjSize::Fixed(10), 7), 10);
    assert_eq!(fixed_or(&ObjSize::Random { max: 10 }, 7), 7);
    assert_eq!(upload_checksum("sha256", true), Some(ChecksumType::SHA256));
    assert_eq!(upload_checksum("", true), Some(ChecksumType::MD5));
    assert_eq!(upload_checksum("bogus", false), None);
}

#[test]
fn replacing_text() {
    assert_eq!(json_path_for("/tmp/run.csv.zst"), "/tmp/run.json.zst");
    assert_eq!(json_path_for("a.csv.zst.csv.zst"), "a.json.zst.json.zst");
    assert_eq!(json_path_for("plain"), "plain");
    assert_eq!(replace_all("aaa", "aa", "b"), "ba");
}

#[test]
fn autoterm_windows_and_clock() {
    assert_eq!(chunk_windows(100, 25), vec![(96, 100), (92, 96), (88, 92), (84, 88), (80, 84), (76, 80), (72, 76)]);
    assert_eq!(chunk_windows(3, 25), vec![(1, 3)]);
    assert!(chunk_windows(1, 25).is_empty());
    let ops = vec![op(0, 5, 10, ""), op(3, 2500, 20, ""), op(4, 9, 1, "")];
    assert_eq!(window_totals(&ops, 0, 3), (31, 9));
    assert_eq!(stability_step(None, true, 100, 50), (Some(100), false));
    assert_eq!(stability_step(Some(100), true, 140, 50), (Some(100), false));
    assert_eq!(stability_step(Some(100), true, 150, 50), (Some(100), true));
    assert_eq!(stability_step(Some(100), false, 150, 50), (None, false));
}

#[test]
fn segments_group_and_count() {
    assert_eq!(timestamp_millis(1_500_000), 1);
    assert_eq!(timestamp_millis(-1), -1);
    let ops = vec![op(2500, 2600, 5, ""), op(100, 200, 7, "x"), op(1100, 3000, 9, ""), op(2100, 2200, 1, "")];
    let ix = segment_of_each(&ops, 100, 1000);
    assert_eq!(ix, vec![2, 0, 1, 2]);
    let groups = group_by_segment(&ix);
    assert_eq!(groups, vec![(0, vec![1]), (1, vec![2]), (2, vec![0, 3])]);
    let c = segment_counts(&ops, &groups[2].1, 2100 * MS, 3100 * MS);
    assert_eq!((c.total_bytes, c.objects, c.full_ops, c.errors, c.ops), (6, 4, 2, 0, 2));
    let d = segment_counts(&ops, &groups[0].1, 100 * MS, 150 * MS);
    assert_eq!((d.full_ops, d.errors), (0, 1));
}

#[test]
fn run_segments_report_each_occupied_segment() {
    let ops = vec![op(2500, 2600, 5, ""), op(100, 200, 7, "x"), op(1100, 3000, 9, ""), op(2100, 2200, 1, "")];
    let r = run_segments(&ops, 1000);
    let starts: Vec<i64> = r.iter().map(|e| e.0).collect();
    assert_eq!(starts, vec![100, 1100, 2100]);
    let last = &r[2].1;
    assert_eq!((last.total_bytes, last.objects, last.full_ops, last.errors, last.ops), (6, 4, 2, 0, 2));
    let first = &r[0].1;
    assert_eq!((first.total_bytes, first.full_ops, first.errors, first.ops), (7, 1, 1, 1));
    let mid = &r[1].1;
    assert_eq!((mid.total_bytes, mid.full_ops, mid.ops), (9, 0, 1));
}

#[test]
fn run_segments_edge_cases() {
    assert!(run_segments(&[], 1000).is_empty());
    assert!(run_segments(&[op(0, 1, 1, "")], 0).is_empty());
    assert!(run_segments(&[op(0, 1, 1, "")], -5).is_empty());
    let big = vec![op(0, 1, i64::MAX, ""), op(1, 2, 1, ""), op(5000, 5001, 3, "")];
    let r = run_segments(&big, 1000);
    assert_eq!(r.len(), 1);
    assert_eq!(r[0].0, 5000);
    assert_eq!(r[0].1.total_bytes, 3);
}
