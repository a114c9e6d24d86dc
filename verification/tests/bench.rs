use s3perf::bench::{
    args_without_remote_hosts_flag, client_host, distributed_bench_subcommand, endpoint_for, host_count, host_index,
    new_host_inflight, pick_host_index, release_host_index, run_prefix, CommandKind, HostSelect, S3Config, SseConfig,
};

#[test]
fn host_select_names() {
    assert_eq!("weighed".parse::<HostSelect>(), Ok(HostSelect::Weighed));
    assert_eq!("RoundRobin".parse::<HostSelect>(), Ok(HostSelect::RoundRobin));
    assert_eq!("random".parse::<HostSelect>(), Err("unknown host selection policy: random".to_string()));
    assert_eq!(HostSelect::default(), HostSelect::Weighed);
}

#[test]
fn host_indices() {
    let hosts = vec!["a:1".to_string(), "b:2".to_string(), "c:3".to_string()];
    assert_eq!(host_count(0), 1);
    assert_eq!(host_count(3), 3);
    assert_eq!(host_index(7, 3), 1);
    assert_eq!(host_index(7, 0), 0);
    assert_eq!(endpoint_for(&hosts, 4), "b:2");
    assert_eq!(endpoint_for(&[], 4), "");
    assert_eq!(client_host("cfg:9", &hosts, 5), "c:3");
    assert_eq!(client_host("cfg:9", &[], 5), "cfg:9");
    assert_eq!(new_host_inflight(0), vec![0]);
    assert_eq!(new_host_inflight(2), vec![0, 0]);
}

#[test]
fn weighed_selection_picks_least_loaded() {
    let mut inflight = vec![2, 1, 1];
    let i = pick_host_index(HostSelect::Weighed, 9, 3, &mut inflight);
    assert_eq!(i, 1);
    assert_eq!(inflight, vec![2, 2, 1]);
    let j = pick_host_index(HostSelect::Weighed, 9, 3, &mut inflight);
    assert_eq!(j, 2);
    release_host_index(HostSelect::Weighed, j, 3, &mut inflight);
    release_host_index(HostSelect::Weighed, i, 3, &mut inflight);
    assert_eq!(inflight, vec![2, 1, 1]);
    let k = pick_host_index(HostSelect::RoundRobin, 7, 3, &mut inflight);
    assert_eq!(k, 1);
    assert_eq!(inflight, vec![2, 1, 1]);
    assert_eq!(pick_host_index(HostSelect::Weighed, 7, 0, &mut inflight), 0);
    let mut zero = vec![0];
    release_host_index(HostSelect::Weighed, 0, 1, &mut zero);
    assert_eq!(zero, vec![0]);
}

#[test]
fn endpoint_urls() {
    let mut c = S3Config {
        host: "s3.local:9000".to_string(),
        access_key: "a".to_string(),
        secret_key: "s".to_string(),
        region: "r".to_string(),
        tls: false,
        insecure: false,
        no_verify_ssl: false,
        ca_pem: None,
    };
    assert_eq!(c.endpoint_url(), "http://s3.local:9000");
    assert!(!c.needs_custom_https());
    c.tls = true;
    assert_eq!(c.endpoint_url(), "https://s3.local:9000");
    assert!(!c.needs_custom_https());
    c.ca_pem = Some(vec![1, 2]);
    assert!(c.needs_custom_https());
    assert!(!c.skips_verification());
    c.no_verify_ssl = true;
    assert!(c.skips_verification());
}

#[test]
fn encryption_settings() {
    let s3 = SseConfig::SseS3;
    assert!(s3.for_put().server_side_aes256);
    assert!(s3.for_put().customer_key_b64.is_none());
    assert!(!s3.for_get().server_side_aes256);
    let c = SseConfig::SseC { key: [0u8; 32] };
    assert_eq!(c.for_put().customer_key_b64.unwrap(), "AAAAAAAAAAAAAAAAAAAAAAAAAAAAAAAAAAAAAAAAAAA=");
    assert_eq!(c.for_get().customer_key_b64.unwrap().len(), 44);
    assert!(matches!(SseConfig::default(), SseConfig::Off));
    assert!(matches!(SseConfig::random_ssec(), SseConfig::SseC { .. }));
}

#[test]
fn run_prefixes() {
    assert_eq!(run_prefix(&Some("mine".to_string())), "mine");
    let p = run_prefix(&None);
    assert!(p.starts_with("s3perf-"));
    assert_eq!(p.len(), 15);
    assert!(!p[7..].contains('-'));
}

#[test]
fn distributed_names() {
    assert_eq!(distributed_bench_subcommand(CommandKind::MultipartPut), Some("multipart-put"));
    assert_eq!(distributed_bench_subcommand(CommandKind::Zip), Some("zip"));
    assert_eq!(distributed_bench_subcommand(CommandKind::Analyze), None);
}

#[test]
fn forwarded_arguments() {
    let argv: Vec<String> = ["s3perf", "--remote-hosts", "a,b", "get", "--remote-hosts=x", "--remote-hosts", "--tls", "-v"]
        .iter()
        .map(|s| s.to_string())
        .collect();
    assert_eq!(args_without_remote_hosts_flag(&argv), vec!["s3perf", "get", "--tls", "-v"]);
    assert!(args_without_remote_hosts_flag(&Vec::new()).is_empty());
}
