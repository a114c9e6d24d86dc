use s3perf::config::{
    default_access_key, default_autoterm_dur, default_bucket, default_concurrent, default_duration_str,
    default_host, default_obj_size, default_objects, default_region, default_secret_key,
    valid_benchmarks, AutotermParams, BenchmarkParams, DistribParams, ObjParams, RemoteConfig,
    RunConfigError, RunFileConfig, RunSpec,
};

fn remote(host: &str, ak: &str, sk: &str, bucket: &str) -> RemoteConfig {
    RemoteConfig {
        host: host.to_string(),
        access_key: ak.to_string(),
        secret_key: sk.to_string(),
        bucket: bucket.to_string(),
        ..Default::default()
    }
}

fn run(api: &str, benchmark: &str, remote: RemoteConfig, params: BenchmarkParams) -> RunFileConfig {
    RunFileConfig {
        s3perf: RunSpec {
            api: api.to_string(),
            benchmark: benchmark.to_string(),
            quiet: false,
            bench_data: None,
            remote,
            params,
        },
    }
}

#[test]
fn test_validate_ok() {
    let config = run("v1", "mixed", remote("localhost:9000", "minioadmin", "minioadmin", "test"), Default::default());
    assert!(config.validate().is_ok());
}

#[test]
fn test_validate_bad_api() {
    let config = run("v2", "mixed", remote("localhost:9000", "minioadmin", "minioadmin", "test"), Default::default());
    let err = config.validate().unwrap_err();
    assert!(err.message().contains("v2"), "unexpected message: {}", err.message());
}

#[test]
fn test_validate_bad_benchmark() {
    let config = run(
        "v1",
        "nonexistent",
        remote("localhost:9000", "minioadmin", "minioadmin", "test"),
        Default::default(),
    );
    let err = config.validate().unwrap_err();
    assert!(err.message().contains("nonexistent"), "unexpected validation message: {}", err.message());
}

#[test]
fn test_validate_empty_host() {
    let config = run("v1", "get", remote("", "minioadmin", "minioadmin", "test"), Default::default());
    assert!(config.validate().is_err());
}

#[test]
fn test_validate_empty_bucket() {
    let config = run("v1", "get", remote("localhost:9000", "minioadmin", "minioadmin", ""), Default::default());
    assert!(config.validate().is_err());
}

#[test]
fn validation_messages_are_exact() {
    let bad_api = run("v2", "get", remote("h", "a", "s", "b"), Default::default());
    assert_eq!(
        bad_api.validate().unwrap_err().message(),
        "config validation failed: unsupported API version 'v2', only 'v1' is supported"
    );
    let bad_bm = run("v1", "nope", remote("h", "a", "s", "b"), Default::default());
    assert_eq!(
        bad_bm.validate().unwrap_err().message(),
        "config validation failed: invalid benchmark type 'nope'; valid values: mixed, get, put, delete, list, stat, versioned, retention, multipart, multipart-put, snowball, fanout, append, zip"
    );
    let no_ak = run("v1", "get", remote("h", "", "s", "b"), Default::default());
    assert_eq!(no_ak.validate().unwrap_err().message(), "config validation failed: remote.access-key cannot be empty");
    let no_sk = run("v1", "get", remote("h", "a", "", "b"), Default::default());
    assert_eq!(no_sk.validate().unwrap_err().message(), "config validation failed: remote.secret-key cannot be empty");
    let no_host = run("v1", "get", remote("", "a", "s", "b"), Default::default());
    assert_eq!(no_host.validate().unwrap_err().message(), "config validation failed: remote.host cannot be empty");
    let no_bucket = run("v1", "get", remote("h", "a", "s", ""), Default::default());
    assert_eq!(no_bucket.validate().unwrap_err().message(), "config validation failed: remote.bucket cannot be empty");
}

#[test]
fn test_to_cli_args_defaults_omitted() {
    let config = run(
        "v1",
        "get",
        remote("localhost:9000", "minioadmin", "minioadmin", "s3perf-benchmark-bucket"),
        Default::default(),
    );
    let args = config.to_cli_args();
    assert_eq!(args, vec!["get"], "expected only subcommand for defaults: {args:?}");
}

#[test]
fn test_to_cli_args_all_flags() {
    let mut r = remote("remote:9000", "admin", "admin123", "bench-bucket");
    r.region = "eu-central-1".to_string();
    r.tls = true;
    r.insecure = true;
    let params = BenchmarkParams {
        duration: "10m".to_string(),
        concurrent: 30,
        objects: 20000,
        versions: 3,
        obj: ObjParams { size: "2MiB".to_string(), rand_size: true },
        distribution: Some(DistribParams {
            get: "0.5".to_string(),
            stat: "0.2".to_string(),
            put: "0.2".to_string(),
            delete: "0.1".to_string(),
        }),
        autoterm: AutotermParams { enabled: true, dur: "30s".to_string(), pct: "5".to_string() },
        no_clear: true,
    };
    let mut config = run("v1", "mixed", r, params);
    config.s3perf.quiet = true;
    config.s3perf.bench_data = Some("output.json".to_string());
    let args = config.to_cli_args();
    let joined = args.join(" ");

    assert_eq!(args[0], "mixed");
    assert!(joined.contains("--quiet"));
    assert!(joined.contains("--tls"));
    assert!(joined.contains("--insecure"));
    assert!(joined.contains("--obj-randsize"));
    assert!(joined.contains("--autoterm"));
    assert!(joined.contains("--noclear"));

    assert!(joined.contains("--host=remote:9000"));
    assert!(!joined.contains("--host=localhost:9000"));
    assert!(joined.contains("--access-key=admin"));
    assert!(joined.contains("--secret-key=admin123"));
    assert!(joined.contains("--region=eu-central-1"));
    assert!(joined.contains("--bucket=bench-bucket"));
    assert!(joined.contains("--duration=10m"));
    assert!(joined.contains("--concurrent=30"));
    assert!(joined.contains("--objects=20000"));
    assert!(joined.contains("--versions=3"));
    assert!(joined.contains("--obj-size=2MiB"));

    assert!(joined.contains("--get-distrib=0.5"));
    assert!(joined.contains("--stat-distrib=0.2"));

    assert!(joined.contains("--autoterm-dur=30s"));
    assert!(joined.contains("--autoterm-pct=5"));
}

#[test]
fn to_cli_args_order_is_fixed() {
    let mut r = remote("h:1", "minioadmin", "minioadmin", "s3perf-benchmark-bucket");
    r.tls = true;
    let mut params = BenchmarkParams::default();
    params.concurrent = 7;
    let mut config = run("v1", "put", r, params);
    config.s3perf.bench_data = Some(String::new());
    assert_eq!(config.to_cli_args(), vec!["put", "--tls", "--host=h:1", "--concurrent=7"]);
}

#[test]
fn test_to_cli_args_autoterm_disabled() {
    let mut params = BenchmarkParams::default();
    params.duration = "10m".to_string();
    params.autoterm = AutotermParams { enabled: false, dur: "15s".to_string(), pct: "7.5".to_string() };
    let config = run("v1", "put", remote("localhost:9000", "minioadmin", "minioadmin", "test"), params);
    let args = config.to_cli_args();
    let joined = args.join(" ");

    assert!(!joined.contains("--autoterm"));
    assert!(!joined.contains("--autoterm-dur"));
    assert!(!joined.contains("--autoterm-pct"));
}

#[test]
fn test_to_cli_args_single_value_distribution() {
    let mut params = BenchmarkParams::default();
    params.distribution = Some(DistribParams {
        get: "1".to_string(),
        stat: "0".to_string(),
        put: "0".to_string(),
        delete: "0".to_string(),
    });
    let config = run("v1", "mixed", remote("localhost:9000", "minioadmin", "minioadmin", "test"), params);
    let args = config.to_cli_args();
    let joined = args.join(" ");

    assert!(joined.contains("--get-distrib=1"));
    assert!(joined.contains("--stat-distrib=0"));
}

#[test]
fn test_valid_benchmarks_list() {
    let expected: &[&str] = &[
        "mixed", "get", "put", "delete", "list", "stat",
        "versioned", "retention", "multipart", "multipart-put",
        "snowball", "fanout", "append", "zip",
    ];
    let valid = valid_benchmarks();
    for name in expected {
        assert!(valid.iter().any(|v| v == name), "VALID_BENCHMARKS must contain '{name}'");
    }
    assert_eq!(valid.len(), expected.len());
}

#[test]
fn test_all_benchmarks_validate() {
    for bm in valid_benchmarks() {
        let config = run("v1", &bm, remote("localhost:9000", "minioadmin", "minioadmin", "test"), Default::default());
        assert!(config.validate().is_ok(), "benchmark '{bm}' should validate");
    }
}

#[test]
fn test_default_functions() {
    assert_eq!(default_host(), "localhost:9000");
    assert_eq!(default_access_key(), "minioadmin");
    assert_eq!(default_secret_key(), "minioadmin");
    assert_eq!(default_region(), "us-east-1");
    assert_eq!(default_bucket(), "s3perf-benchmark-bucket");
    assert_eq!(default_duration_str(), "5m");
    assert_eq!(default_concurrent(), 20);
    assert_eq!(default_objects(), 10000);
    assert_eq!(default_obj_size(), "1MiB");
    assert_eq!(default_autoterm_dur(), "15s");
    assert_eq!(AutotermParams::default().pct, "7.5");
}

#[test]
fn test_error_display_and_source() {
    let io_err = RunConfigError::Io { path: "cfg.yml".into(), message: "not found".into() };
    let msg = io_err.message();
    assert!(msg.contains("cfg.yml"), "display should contain path: {msg}");
    assert_eq!(msg, "failed to read config file 'cfg.yml': not found");

    let parse_err = RunConfigError::Parse { path: "bad.yml".into(), message: "[invalid".into() };
    assert_eq!(parse_err.message(), "failed to parse config file 'bad.yml': [invalid");

    let val_err = RunConfigError::Validation("bad config".into());
    assert_eq!(val_err.message(), "config validation failed: bad config");
}

#[test]
fn defaults_of_sections() {
    let r = RemoteConfig::default();
    assert_eq!(r.host, "localhost:9000");
    assert_eq!(r.bucket, "s3perf-benchmark-bucket");
    assert!(!r.tls && !r.insecure);
    let p = BenchmarkParams::default();
    assert_eq!(p.duration, "5m");
    assert_eq!(p.concurrent, 20);
    assert_eq!(p.objects, 10000);
    assert_eq!(p.versions, 0);
    assert_eq!(p.obj.size, "1MiB");
    assert!(p.distribution.is_none());
    assert_eq!(p.autoterm.dur, "15s");
}
