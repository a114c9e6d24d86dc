//! Decisions of distributed runs: which coordinator an agent accepts, which
//! agents a coordinator drives, how it retries a connection, and when a
//! stage is over on every agent.
use vstd::prelude::*;
use crate::num::{dec_str, fmt_usize};
use crate::protocol::{parse_hosts, parse_hosts_spec, version_mismatch_msg, ServerInfo, COORD_PROTOCOL_VERSION};
use crate::text::{concat2, concat3, owned, str_eq, views};

verus! {

broadcast use vstd::string::group_string_axioms;

/// An agent's answer to a coordinator announcing itself with `info` while
/// the coordinator `attached` (its id; none: `None`) holds the agent: the
/// announcement must be valid, and an agent held by another coordinator
/// with a non-empty id refuses.
pub fn accept_coordinator(attached: Option<&str>, info: &ServerInfo) -> (r: Result<(), String>)
    ensures
        info.id@.len() == 0 ==> (r matches Err(e) && e@ == "no server id sent"@),
        info.id@.len() > 0 && info.version != COORD_PROTOCOL_VERSION ==> (r matches Err(e) && e@
            == version_mismatch_msg(info.version)),
        info.id@.len() > 0 && info.version == COORD_PROTOCOL_VERSION ==> match attached {
            Some(a) => if a@.len() > 0 && a@ != info.id@ {
                r matches Err(e) && e@ == "another coordinator is already attached"@
            } else {
                r is Ok
            },
            None => r is Ok,
        },
{
    match info.validate() {
        Err(e) => Err(e),
        Ok(()) => match attached {
            Some(a) => {
                if !a.is_empty() && !str_eq(a, info.id.as_str()) {
                    Err(owned("another coordinator is already attached"))
                } else {
                    Ok(())
                }
            },
            None => Ok(()),
        },
    }
}

/// The agents of a run: every `--remote-hosts` value expanded, in order.
pub open spec fn agents_spec(values: Seq<Seq<char>>) -> Seq<Seq<char>> {
    values.map_values(|h: Seq<char>| parse_hosts_spec(h)).flatten()
}

/// The agents a coordinator drives; refused when no value is given or the
/// values name no host.
pub fn agent_hosts(values: &[String]) -> (r: Result<Vec<String>, String>)
    ensures
        values@.len() == 0 ==> (r matches Err(e) && e@ == "no remote benchmarking agents specified"@),
        values@.len() > 0 && agents_spec(views(values@)).len() == 0 ==> (r matches Err(e) && e@
            == "parsed hosts is empty"@),
        values@.len() > 0 && agents_spec(views(values@)).len() > 0 ==> (r matches Ok(v) && views(v@)
            == agents_spec(views(values@))),
{
    if values.len() == 0 {
        return Err(owned("no remote benchmarking agents specified"));
    }
    let ghost vs = views(values@);
    let mut out: Vec<String> = Vec::new();
    let mut i: usize = 0;
    while i < values.len()
        invariant
            i <= values@.len(),
            vs == views(values@),
            views(out@) == agents_spec(vs.subrange(0, i as int)),
        decreases values@.len() - i,
    {
        let hosts = parse_hosts(values[i].as_str());
        let ghost before = views(out@);
        let mut j: usize = 0;
        while j < hosts.len()
            invariant
                j <= hosts@.len(),
                i < values@.len(),
                views(hosts@) == parse_hosts_spec(values@[i as int]@),
                views(out@) == before + views(hosts@).subrange(0, j as int),
            decreases hosts@.len() - j,
        {
            let ghost prev = views(out@);
            out.push(hosts[j].clone());
            assert(views(out@) =~= prev.push(hosts@[j as int]@));
            assert(views(hosts@).subrange(0, j + 1) =~= views(hosts@).subrange(0, j as int).push(hosts@[j as int]@));
            assert(views(out@) =~= before + views(hosts@).subrange(0, j + 1));
            j = j + 1;
        }
        proof {
            let rows = vs.subrange(0, i + 1).map_values(|h: Seq<char>| parse_hosts_spec(h));
            assert(rows.drop_last() =~= vs.subrange(0, i as int).map_values(|h: Seq<char>| parse_hosts_spec(h)));
            assert(rows.drop_last().push(rows.last()) =~= rows);
            assert(views(hosts@).subrange(0, hosts@.len() as int) =~= views(hosts@));
            assert(rows.last() == views(hosts@));
            rows.drop_last().lemma_flatten_push(rows.last());
        }
        i = i + 1;
    }
    assert(vs.subrange(0, values@.len() as int) =~= vs);
    if out.len() == 0 {
        return Err(owned("parsed hosts is empty"));
    }
    Ok(out)
}

/// The delay before the next connection attempt: twice the last, at most
/// ten seconds.
pub fn next_connect_delay(secs: u64) -> (r: u64)
    ensures
        r == if 2 * secs <= 10 { 2 * secs } else { 10 },
{
    if secs <= 5 {
        2 * secs
    } else {
        10
    }
}

/// The error after the last failed connection attempt.
pub open spec fn connect_failure_msg(host: Seq<char>, retries: nat, last: Seq<char>) -> Seq<char> {
    "connect to "@ + host + " failed after "@ + dec_str(retries) + " retries: "@ + last
}

/// [`connect_failure_msg`], written out.
pub fn connect_failure(host: &str, retries: usize, last: &str) -> (r: String)
    ensures
        r@ == connect_failure_msg(host@, retries as nat, last@),
{
    let n = fmt_usize(retries);
    let a = concat3("connect to ", host, " failed after ");
    let b = concat3(a.as_str(), n.as_str(), " retries: ");
    concat2(b.as_str(), last)
}

/// A coordinator's verdict on an agent's acknowledgement: an error text
/// that is not empty refuses the connection.
pub fn handshake_verdict(err: &Option<String>) -> (r: Result<(), String>)
    ensures
        match err {
            Some(e) => if e@.len() > 0 {
                r matches Err(m) && m@ == "remote agent rejected handshake: "@ + e@
            } else {
                r is Ok
            },
            None => r is Ok,
        },
{
    match err {
        Some(e) => {
            if e.as_str().is_empty() {
                Ok(())
            } else {
                Err(concat2("remote agent rejected handshake: ", e.as_str()))
            }
        },
        None => Ok(()),
    }
}

/// Whether every agent has finished the stage.
pub fn all_done(done: &[bool]) -> (r: bool)
    ensures
        r == (forall|i: int| 0 <= i < done@.len() ==> done@[i]),
{
    let mut i: usize = 0;
    while i < done.len()
        invariant
            i <= done@.len(),
            forall|k: int| 0 <= k < i ==> done@[k],
        decreases done@.len() - i,
    {
        if !done[i] {
            return false;
        }
        i = i + 1;
    }
    true
}

/// The stages every agent goes through, in order.
pub fn stage_names() -> (r: Vec<String>)
    ensures
        views(r@) == seq!["prepare"@, "benchmark"@, "cleanup"@],
{
    let mut r: Vec<String> = Vec::new();
    r.push(owned("prepare"));
    r.push(owned("benchmark"));
    r.push(owned("cleanup"));
    assert(views(r@) =~= seq!["prepare"@, "benchmark"@, "cleanup"@]);
    r
}

} // verus!
