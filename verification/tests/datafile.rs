use s3perf::datafile::{decode_ops_tsv, encode_ops_tsv, read_ops_zst, write_ops_zst};
use s3perf::ops::Operation;

fn op_at(start: i64, end: i64, file: String) -> Operation {
    Operation {
        start,
        end,
        first_byte: None,
        last_byte: None,
        op_type: "GET".to_string(),
        err: String::new(),
        file,
        client_id: "c1".to_string(),
        endpoint: "localhost:9000".to_string(),
        obj_per_op: 1,
        size: 1024,
        thread: 0,
        categories: 0,
    }
}

const MS: i64 = 1_000_000;

#[test]
fn test_csv_roundtrip() {
    let now = chrono::Utc::now().timestamp_nanos_opt().unwrap();
    let ops: Vec<Operation> =
        (0..5).map(|i| op_at(now + i * 10 * MS, now + (i * 10 + 5) * MS, format!("obj-{i}"))).collect();
    let buf = write_ops_zst(&ops).unwrap();
    let decoded = read_ops_zst(&buf).unwrap();
    assert_eq!(decoded.len(), ops.len());
    assert_eq!(decoded[0].op_type, "GET");
}

#[test]
fn roundtrip_keeps_every_field() {
    let mut a = op_at(1_700_000_000_123_456_789, 1_700_000_001_000_000_000, "dir/obj\twith tab".to_string());
    a.first_byte = Some(1_700_000_000_200_000_000);
    a.last_byte = Some(1_700_000_000_900_000_000);
    a.err = "timeout, \"quoted\"".to_string();
    a.thread = 7;
    a.obj_per_op = 3;
    a.size = -5;
    a.categories = 42;
    a.client_id = "client\nnewline".to_string();
    let b = op_at(0, 10, String::new());
    let ops = vec![a.clone(), b.clone()];
    let back = read_ops_zst(&write_ops_zst(&ops).unwrap()).unwrap();
    assert_eq!(back.len(), 2);
    for (x, y) in back.iter().zip(ops.iter()) {
        assert_eq!(x.start, y.start);
        assert_eq!(x.end, y.end);
        assert_eq!(x.first_byte, y.first_byte);
        assert_eq!(x.last_byte, y.last_byte);
        assert_eq!(x.op_type, y.op_type);
        assert_eq!(x.err, y.err);
        assert_eq!(x.file, y.file);
        assert_eq!(x.client_id, y.client_id);
        assert_eq!(x.endpoint, y.endpoint);
        assert_eq!(x.obj_per_op, y.obj_per_op);
        assert_eq!(x.size, y.size);
        assert_eq!(x.thread, y.thread);
        assert_eq!(x.categories, y.categories);
    }
}

#[test]
fn records_hold_fifteen_fields_in_order() {
    let mut a = op_at(0, 2_500, "obj".to_string());
    a.first_byte = Some(1_000);
    a.thread = 4;
    a.categories = 9;
    let text = String::from_utf8(encode_ops_tsv(&[a]).unwrap()).unwrap();
    let line = text.trim_end_matches('\n');
    let fields: Vec<&str> = line.split('\t').collect();
    assert_eq!(fields.len(), 15);
    assert_eq!(fields[0], "0");
    assert_eq!(fields[1], "4");
    assert_eq!(fields[2], "GET");
    assert_eq!(fields[3], "c1");
    assert_eq!(fields[4], "1");
    assert_eq!(fields[5], "1024");
    assert_eq!(fields[6], "localhost:9000");
    assert_eq!(fields[7], "obj");
    assert_eq!(fields[8], "");
    assert_eq!(fields[9], "1970-01-01T00:00:00+00:00");
    assert_eq!(fields[10], "1970-01-01T00:00:00.000001+00:00");
    assert_eq!(fields[11], "");
    assert_eq!(fields[12], "1970-01-01T00:00:00.000002500+00:00");
    assert_eq!(fields[13], "2500");
    assert_eq!(fields[14], "9");
}

#[test]
fn unreadable_fields_take_their_defaults() {
    let data = "9\tx\tPUT\tc2\tmany\t-7\th:1\tf\t\tnot a time\t\tbad\t1970-01-01T00:00:01+00:00\t0\tz\n";
    let ops = decode_ops_tsv(data.as_bytes()).unwrap();
    assert_eq!(ops.len(), 1);
    let op = &ops[0];
    assert_eq!(op.thread, 0);
    assert_eq!(op.op_type, "PUT");
    assert_eq!(op.client_id, "c2");
    assert_eq!(op.obj_per_op, 1);
    assert_eq!(op.size, -7);
    assert_eq!(op.endpoint, "h:1");
    assert_eq!(op.file, "f");
    assert_eq!(op.err, "");
    assert_eq!(op.start, 0);
    assert_eq!(op.first_byte, None);
    assert_eq!(op.last_byte, None);
    assert_eq!(op.end, 1_000_000_000);
    assert_eq!(op.categories, 0);
}

#[test]
fn short_records_are_skipped() {
    let ops = decode_ops_tsv(b"1\t2\t3\n4\t5\t6\n").unwrap();
    assert!(ops.is_empty());
}

#[test]
fn records_of_unequal_length_are_a_csv_error() {
    let data = "1\t2\t3\n0\t0\tGET\tc\t1\t0\te\tf\t\t\t\t\t\t0\t0\n";
    let e = decode_ops_tsv(data.as_bytes()).unwrap_err();
    assert!(e.starts_with("CSV error: "));
}

#[test]
fn garbage_is_a_zstd_error() {
    let e = read_ops_zst(b"definitely not zstd").unwrap_err();
    assert!(e.starts_with("Zstd error: "));
}

#[test]
fn empty_list_roundtrips() {
    let back = read_ops_zst(&write_ops_zst(&[]).unwrap()).unwrap();
    assert!(back.is_empty());
}
