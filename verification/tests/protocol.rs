use s3perf::protocol::{
    parse_hosts, reply_plan, ClientReplyType, ServerInfo, ServerRequestOp, StageProgress,
};

#[test]
fn test_parse_hosts() {
    let hosts = parse_hosts("host1:7761,host2:7761");
    assert_eq!(hosts.len(), 2);
}

#[test]
fn test_parse_hosts_brace() {
    let hosts = parse_hosts("host{1...3}:7761");
    assert_eq!(hosts, vec!["host1:7761", "host2:7761", "host3:7761"]);
}

#[test]
fn test_server_info_validate() {
    let info = ServerInfo {
        id: "test".into(),
        secret: "s".into(),
        version: 1,
    };
    assert!(info.validate().is_ok());

    let bad_ver = ServerInfo {
        id: "t".into(),
        secret: "s".into(),
        version: 99,
    };
    assert!(bad_ver.validate().is_err());
}

#[test]
fn server_info_messages() {
    let no_id = ServerInfo { id: String::new(), secret: "s".into(), version: 1 };
    assert_eq!(no_id.validate().unwrap_err(), "no server id sent");
    let bad = ServerInfo { id: "x".into(), secret: "s".into(), version: 7 };
    assert_eq!(bad.validate().unwrap_err(), "version mismatch: server=7, client=1");
}

#[test]
fn parse_hosts_trims_and_skips_empty() {
    assert_eq!(parse_hosts(" a:1 , ,b:2,"), vec!["a:1", "b:2"]);
    assert!(parse_hosts("").is_empty());
}

#[test]
fn parse_hosts_brace_defaults() {
    // unparsable low bound counts as 1, missing high bound as the low bound
    assert_eq!(parse_hosts("n{x...2}"), vec!["n1", "n2"]);
    assert_eq!(parse_hosts("n{4...}"), vec!["n4"]);
    // reversed range is empty
    assert!(parse_hosts("n{5...2}").is_empty());
    // no dots: kept verbatim
    assert_eq!(parse_hosts("n{1,2}"), vec!["n{1", "2}"]);
    assert_eq!(parse_hosts("n{12}"), vec!["n{12}"]);
    // unclosed brace: kept verbatim
    assert_eq!(parse_hosts("n{1...3"), vec!["n{1...3"]);
    assert_eq!(parse_hosts("a{0...1}b{2...3}"), vec!["a0b{2...3}", "a1b{2...3}"]);
}

#[test]
fn reply_plans() {
    let p = reply_plan(ServerRequestOp::Benchmark);
    assert_eq!(p.reply_type, ClientReplyType::BenchmarkStarted);
    assert!(p.started && !p.finished);
    assert_eq!(p.progress, StageProgress::Zero);
    let p = reply_plan(ServerRequestOp::SendOps);
    assert_eq!(p.reply_type, ClientReplyType::Ops);
    assert!(p.carries_ops);
    assert_eq!(p.progress, StageProgress::Full);
    let p = reply_plan(ServerRequestOp::StageStatus);
    assert_eq!(p.progress, StageProgress::Half);
    assert!(p.started && p.finished);
    let p = reply_plan(ServerRequestOp::StageAbort);
    assert_eq!(p.reply_type, ClientReplyType::BenchmarkStatus);
    assert!(!p.started && !p.finished);
    let p = reply_plan(ServerRequestOp::Disconnect);
    assert!(p.finished && !p.carries_ops);
}

#[test]
fn joined_host_lists_concatenate() {
    let a = "x{1...2}:1, ,y";
    let b = " z:2,,w{3...4}";
    let joined = parse_hosts(&format!("{a},{b}"));
    let mut parts = parse_hosts(a);
    parts.extend(parse_hosts(b));
    assert_eq!(joined, parts);
    assert_eq!(joined, vec!["x1:1", "x2:1", "y", "z:2", "w3", "w4"]);
    assert!(parse_hosts("").is_empty());
    assert!(parse_hosts(" , ").is_empty());
}

#[test]
fn hosts_are_non_empty_and_trimmed() {
    let hosts = parse_hosts(" a{1...2} b ,\tc ,  ");
    assert_eq!(hosts, vec!["a1 b", "a2 b", "c"]);
    for h in &hosts {
        assert!(!h.is_empty());
        assert_eq!(h.trim(), h);
    }
}
