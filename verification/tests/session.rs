use s3perf::protocol::{ServerInfo, COORD_PROTOCOL_VERSION};
use s3perf::session::{
    accept_coordinator, agent_hosts, all_done, connect_failure, handshake_verdict, next_connect_delay, stage_names,
};

fn info(id: &str, version: u32) -> ServerInfo {
    ServerInfo { id: id.to_string(), secret: "s".to_string(), version }
}

#[test]
fn agents_accept_one_coordinator() {
    assert!(accept_coordinator(None, &info("c1", COORD_PROTOCOL_VERSION)).is_ok());
    assert!(accept_coordinator(Some("c1"), &info("c1", COORD_PROTOCOL_VERSION)).is_ok());
    assert!(accept_coordinator(Some(""), &info("c2", COORD_PROTOCOL_VERSION)).is_ok());
    assert_eq!(
        accept_coordinator(Some("c1"), &info("c2", COORD_PROTOCOL_VERSION)).unwrap_err(),
        "another coordinator is already attached"
    );
    assert_eq!(accept_coordinator(None, &info("", COORD_PROTOCOL_VERSION)).unwrap_err(), "no server id sent");
    assert_eq!(
        accept_coordinator(None, &info("c1", 99)).unwrap_err(),
        format!("version mismatch: server=99, client={}", COORD_PROTOCOL_VERSION)
    );
}

#[test]
fn agent_hosts_expand_every_value() {
    let v = vec!["h{1...2}:7761".to_string(), "x:1,y:2".to_string()];
    assert_eq!(agent_hosts(&v).unwrap(), vec!["h1:7761", "h2:7761", "x:1", "y:2"]);
    assert_eq!(agent_hosts(&[]).unwrap_err(), "no remote benchmarking agents specified");
    assert_eq!(agent_hosts(&[" , ".to_string()]).unwrap_err(), "parsed hosts is empty");
}

#[test]
fn connection_retries_back_off() {
    assert_eq!(next_connect_delay(1), 2);
    assert_eq!(next_connect_delay(4), 8);
    assert_eq!(next_connect_delay(5), 10);
    assert_eq!(next_connect_delay(8), 10);
    assert_eq!(connect_failure("h:1", 3, "refused"), "connect to h:1 failed after 3 retries: refused");
}

#[test]
fn handshake_and_stage_decisions() {
    assert!(handshake_verdict(&None).is_ok());
    assert!(handshake_verdict(&Some(String::new())).is_ok());
    assert_eq!(handshake_verdict(&Some("busy".to_string())).unwrap_err(), "remote agent rejected handshake: busy");
    assert!(all_done(&[]));
    assert!(all_done(&[true, true]));
    assert!(!all_done(&[true, false]));
    assert_eq!(stage_names(), vec!["prepare", "benchmark", "cleanup"]);
}
