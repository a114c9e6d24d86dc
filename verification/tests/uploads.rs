use s3perf::checksum::ChecksumType;
use s3perf::multipart::{completion, part_bytes, part_worker, upload_key, PartResult};
use s3perf::upload::{content_md5, eq_ignore_ascii_case, recorded_size, wants_md5};

#[test]
fn upload_keys_and_workers() {
    assert_eq!(upload_key(3, 10), "3.upload-000a");
    assert_eq!(upload_key(0, 0x12345), "0.upload-12345");
    assert_eq!(part_worker(2, 4, 3), 10);
    assert_eq!(part_bytes(true, 5), 5);
    assert_eq!(part_bytes(false, 5), 0);
}

#[test]
fn completion_needs_every_part() {
    let ok = vec![
        PartResult { part_number: 1, etag: "e1".to_string(), ok: true },
        PartResult { part_number: 2, etag: "e2".to_string(), ok: true },
    ];
    assert_eq!(completion(&ok), Some(vec![(1, "e1".to_string()), (2, "e2".to_string())]));
    let missing_tag = vec![PartResult { part_number: 1, etag: String::new(), ok: true }];
    assert_eq!(completion(&missing_tag), None);
    let failed = vec![PartResult { part_number: 1, etag: "e".to_string(), ok: false }];
    assert_eq!(completion(&failed), None);
    assert_eq!(completion(&[]), None);
}

#[test]
fn md5_decisions() {
    assert!(eq_ignore_ascii_case("MD5cs", "md5CS"));
    assert!(!eq_ignore_ascii_case("md5", "md5cs"));
    assert!(wants_md5(true, None, None));
    assert!(wants_md5(false, Some(ChecksumType::MD5), None));
    assert!(wants_md5(false, None, Some("Md5")));
    assert!(!wants_md5(false, Some(ChecksumType::SHA256), Some("sha256")));
    assert_eq!(content_md5(b""), "1B2M2Y8AsgTpgAmY7PhCfg==");
    assert_eq!(content_md5(b"hello"), "XUFAKrxLKna5cZ2REBfFkg==");
    assert_eq!(recorded_size(true, 9), 9);
    assert_eq!(recorded_size(false, 9), 0);
}
