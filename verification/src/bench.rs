//! What the benchmarks share: endpoint selection across several hosts, the
//! S3 endpoint settings, server-side encryption settings, the object-name
//! prefix of a run, and the command line forwarded to remote agents.
use vstd::prelude::*;
use rand::Rng;
use crate::codec::{base64_encode, base64_standard};
use crate::random::uuid_v4_string;
use crate::text::{
    concat2, concat3, matches_at, owned, str_chars, str_eq, string_from_chars, to_lowercase,
    unicode_lower, views, slice_chars,
};

verus! {

broadcast use vstd::string::group_string_axioms;

// ---------------------------------------------------------------------------
// Host selection
// ---------------------------------------------------------------------------

/// How a request picks one of several endpoints.
#[derive(Debug, Clone, Copy, PartialEq, Eq, Structural)]
pub enum HostSelect {
    /// The endpoint with the fewest requests in flight.
    Weighed,
    /// Endpoints in turn, by worker.
    RoundRobin,
}

impl Default for HostSelect {
    fn default() -> (r: HostSelect)
        ensures
            r == HostSelect::Weighed,
    {
        HostSelect::Weighed
    }
}

/// The policy a lower-cased name selects.
pub open spec fn host_select_named(lowered: Seq<char>) -> Option<HostSelect> {
    if lowered == "weighed"@ {
        Some(HostSelect::Weighed)
    } else if lowered == "roundrobin"@ {
        Some(HostSelect::RoundRobin)
    } else {
        None
    }
}

impl HostSelect {
    /// Reads a policy name, in any letter case.
    pub fn parse(s: &str) -> (r: Result<HostSelect, String>)
        ensures
            match host_select_named(unicode_lower(s@)) {
                Some(h) => r == Ok::<HostSelect, String>(h),
                None => r matches Err(m) && m@ == "unknown host selection policy: "@ + s@,
            },
    {
        let lowered = to_lowercase(s);
        if str_eq(lowered.as_str(), "weighed") {
            Ok(HostSelect::Weighed)
        } else if str_eq(lowered.as_str(), "roundrobin") {
            Ok(HostSelect::RoundRobin)
        } else {
            Err(concat2("unknown host selection policy: ", s))
        }
    }
}

impl core::str::FromStr for HostSelect {
    type Err = String;

    fn from_str(s: &str) -> (r: Result<HostSelect, String>)
        ensures
            match host_select_named(unicode_lower(s@)) {
                Some(h) => r == Ok::<HostSelect, String>(h),
                None => r matches Err(m) && m@ == "unknown host selection policy: "@ + s@,
            },
    {
        HostSelect::parse(s)
    }
}

/// The number of endpoints, counting a run without extra hosts as one.
pub open spec fn host_count_spec(n: nat) -> nat {
    if n > 0 {
        n
    } else {
        1
    }
}

/// The number of endpoints (at least 1).
pub fn host_count(n_hosts: usize) -> (r: usize)
    ensures
        r == host_count_spec(n_hosts as nat),
{
    if n_hosts > 0 {
        n_hosts
    } else {
        1
    }
}

/// The endpoint of worker `thread` in turn-taking order.
pub fn host_index(thread: usize, n_hosts: usize) -> (r: usize)
    ensures
        r == (thread as nat) % host_count_spec(n_hosts as nat),
        r < host_count_spec(n_hosts as nat),
{
    thread % host_count(n_hosts)
}

/// The address of endpoint `idx` (taken modulo the host count); empty when
/// the run has no extra hosts.
pub fn endpoint_for(hosts: &[String], idx: usize) -> (r: String)
    ensures
        hosts@.len() == 0 ==> r@.len() == 0,
        hosts@.len() > 0 ==> r@ == hosts@[(idx as int) % (hosts@.len() as int)]@,
{
    if hosts.len() == 0 {
        String::new()
    } else {
        hosts[idx % hosts.len()].clone()
    }
}

/// Per-endpoint in-flight counters, all zero, one per host (at least one).
pub fn new_host_inflight(n_hosts: usize) -> (r: Vec<usize>)
    ensures
        r@.len() == host_count_spec(n_hosts as nat),
        forall|i: int| 0 <= i < r@.len() ==> r@[i] == 0,
{
    let n = host_count(n_hosts);
    let mut r: Vec<usize> = Vec::new();
    let mut i: usize = 0;
    while i < n
        invariant
            i <= n,
            r@.len() == i,
            forall|j: int| 0 <= j < i ==> r@[j] == 0,
        decreases n - i,
    {
        r.push(0);
        i = i + 1;
    }
    r
}

/// `i` is the first of `0..n` whose counter is smallest.
pub open spec fn is_first_min(g: Seq<usize>, n: nat, i: nat) -> bool {
    &&& i < n
    &&& forall|j: int| 0 <= j < n ==> g[i as int] <= #[trigger] g[j]
    &&& forall|j: int| 0 <= j < i ==> g[i as int] < #[trigger] g[j]
}

/// The endpoint one request goes to. Turn-taking takes the worker's turn;
/// weighed selection takes the least loaded endpoint (the first of equals)
/// and counts the request in flight there. Without extra hosts it is 0.
pub fn pick_host_index(select: HostSelect, thread_id: usize, n_hosts: usize, inflight: &mut Vec<usize>) -> (r: usize)
    requires
        old(inflight)@.len() >= n_hosts,
        forall|i: int| 0 <= i < n_hosts ==> old(inflight)@[i] < usize::MAX,
    ensures
        n_hosts == 0 ==> r == 0 && final(inflight)@ == old(inflight)@,
        n_hosts > 0 && select == HostSelect::RoundRobin ==> r == thread_id % n_hosts
            && final(inflight)@ == old(inflight)@,
        n_hosts > 0 && select == HostSelect::Weighed ==> is_first_min(
            old(inflight)@,
            n_hosts as nat,
            r as nat,
        ) && final(inflight)@ == old(inflight)@.update(r as int, (old(inflight)@[r as int] + 1) as usize),
{
    if n_hosts == 0 {
        return 0;
    }
    match select {
        HostSelect::RoundRobin => thread_id % n_hosts,
        HostSelect::Weighed => {
            let mut best: usize = 0;
            let mut i: usize = 1;
            while i < n_hosts
                invariant
                    1 <= i <= n_hosts,
                    n_hosts <= inflight@.len(),
                    inflight@ == old(inflight)@,
                    is_first_min(inflight@.subrange(0, i as int), i as nat, best as nat),
                decreases n_hosts - i,
            {
                if inflight[i] < inflight[best] {
                    best = i;
                }
                i = i + 1;
            }
            assert(is_first_min(inflight@, n_hosts as nat, best as nat)) by {
                assert forall|j: int| 0 <= j < n_hosts implies inflight@[best as int] <= #[trigger] inflight@[j] by {
                    assert(inflight@.subrange(0, n_hosts as int)[j] == inflight@[j]);
                }
                assert forall|j: int| 0 <= j < best implies inflight@[best as int] < #[trigger] inflight@[j] by {
                    assert(inflight@.subrange(0, n_hosts as int)[j] == inflight@[j]);
                }
            }
            let v = inflight[best];
            inflight.set(best, v + 1);
            best
        },
    }
}

/// Ends a request on endpoint `idx` (modulo the host count): under weighed
/// selection its in-flight counter drops by one, never below zero.
pub fn release_host_index(select: HostSelect, idx: usize, n_hosts: usize, inflight: &mut Vec<usize>)
    requires
        old(inflight)@.len() >= n_hosts,
    ensures
        n_hosts == 0 || select != HostSelect::Weighed ==> final(inflight)@ == old(inflight)@,
        n_hosts > 0 && select == HostSelect::Weighed ==> final(inflight)@ == (if old(
            inflight,
        )@[(idx % n_hosts) as int] > 0 {
            old(inflight)@.update((idx % n_hosts) as int, (old(inflight)@[(idx % n_hosts) as int] - 1) as usize)
        } else {
            old(inflight)@
        }),
{
    if n_hosts == 0 || select != HostSelect::Weighed {
        return ;
    }
    let i = idx % n_hosts;
    if inflight[i] > 0 {
        let v = inflight[i];
        inflight.set(i, v - 1);
    }
}

/// Under weighed selection, releasing the endpoint a request picked brings
/// the in-flight counters back to what they were.
pub proof fn law_release_undoes_pick(before: Seq<usize>, n: nat, r: nat)
    requires
        n > 0,
        before.len() >= n,
        r < n,
        before[r as int] < usize::MAX,
    ensures
        ({
            let during = before.update(r as int, (before[r as int] + 1) as usize);
            let after = if during[(r % n) as int] > 0 {
                during.update((r % n) as int, (during[(r % n) as int] - 1) as usize)
            } else {
                during
            };
            after == before
        }),
{
    let during = before.update(r as int, (before[r as int] + 1) as usize);
    assert(r % n == r) by (nonlinear_arith)
        requires
            r < n,
    ;
    assert(during.update(r as int, (during[r as int] - 1) as usize) =~= before);
}

// ---------------------------------------------------------------------------
// The S3 endpoint
// ---------------------------------------------------------------------------

/// How to reach and sign in to the S3 service.
#[derive(Debug, Clone)]
pub struct S3Config {
    pub host: String,
    pub access_key: String,
    pub secret_key: String,
    pub region: String,
    pub tls: bool,
    pub insecure: bool,
    pub no_verify_ssl: bool,
    /// Extra trusted certificates (a whole PEM file), added to the system's.
    pub ca_pem: Option<Vec<u8>>,
}

/// `https://host` with TLS, `http://host` without.
pub open spec fn endpoint_url_spec(tls: bool, host: Seq<char>) -> Seq<char> {
    (if tls {
        "https"@
    } else {
        "http"@
    }) + "://"@ + host
}

impl S3Config {
    /// The endpoint URL.
    pub fn endpoint_url(&self) -> (r: String)
        ensures
            r@ == endpoint_url_spec(self.tls, self.host@),
    {
        let scheme = if self.tls {
            "https"
        } else {
            "http"
        };
        concat3(scheme, "://", self.host.as_str())
    }

    /// Whether the connection needs a TLS client of its own: TLS with
    /// verification switched off or with extra certificates.
    pub fn needs_custom_https(&self) -> (r: bool)
        ensures
            r == (self.tls && (self.insecure || self.no_verify_ssl || self.ca_pem is Some)),
    {
        self.tls && (self.insecure || self.no_verify_ssl || self.ca_pem.is_some())
    }

    /// Whether certificate verification is switched off.
    pub fn skips_verification(&self) -> (r: bool)
        ensures
            r == (self.insecure || self.no_verify_ssl),
    {
        self.insecure || self.no_verify_ssl
    }
}

/// The host a client for endpoint `idx` talks to: one of the extra hosts
/// (modulo their number), or the configured host when there are none.
pub fn client_host(config_host: &str, hosts: &[String], idx: usize) -> (r: String)
    ensures
        hosts@.len() == 0 ==> r@ == config_host@,
        hosts@.len() > 0 ==> r@ == hosts@[(idx as int) % (hosts@.len() as int)]@,
{
    if hosts.len() == 0 {
        owned(config_host)
    } else {
        hosts[idx % hosts.len()].clone()
    }
}

// ---------------------------------------------------------------------------
// Server-side encryption
// ---------------------------------------------------------------------------

/// Server-side encryption of the objects a benchmark writes.
#[derive(Debug, Clone)]
pub enum SseConfig {
    /// No encryption.
    Off,
    /// Customer-provided 32-byte key, sent with each request.
    SseC { key: [u8; 32] },
    /// Keys managed by the service (AES256).
    SseS3,
}

impl Default for SseConfig {
    fn default() -> (r: SseConfig)
        ensures
            r is Off,
    {
        SseConfig::Off
    }
}

/// The encryption settings of one request.
#[derive(Debug, Clone)]
pub struct SseRequest {
    /// Ask the service to encrypt with its own AES256 keys.
    pub server_side_aes256: bool,
    /// The customer key, base64-encoded; the algorithm is then AES256.
    pub customer_key_b64: Option<String>,
}

/// Calls `rand::thread_rng().fill` on a 32-byte array; any key can come out.
#[verifier::external_body]
fn random_key32() -> (r: [u8; 32]) {
    let mut key = [0u8; 32];
    rand::thread_rng().fill(&mut key);
    key
}

impl SseConfig {
    /// Customer-key encryption with a fresh random key.
    pub fn random_ssec() -> (r: SseConfig)
        ensures
            r is SseC,
    {
        SseConfig::SseC { key: random_key32() }
    }

    /// The customer-key setting, where there is one.
    fn customer_key(&self) -> (r: Option<String>)
        ensures
            match *self {
                SseConfig::SseC { key } => r matches Some(k) && k@ == base64_standard(key@),
                _ => r is None,
            },
    {
        match self {
            SseConfig::SseC { key } => Some(base64_encode(key.as_slice())),
            _ => None,
        }
    }

    /// The settings of an upload: service keys for SSE-S3, the customer key
    /// for SSE-C.
    pub fn for_put(&self) -> (r: SseRequest)
        ensures
            r.server_side_aes256 == (*self is SseS3),
            match *self {
                SseConfig::SseC { key } => r.customer_key_b64 matches Some(k) && k@ == base64_standard(key@),
                _ => r.customer_key_b64 is None,
            },
    {
        let aes = match self {
            SseConfig::SseS3 => true,
            _ => false,
        };
        SseRequest { server_side_aes256: aes, customer_key_b64: self.customer_key() }
    }

    /// The settings of a download: only a customer key has to be sent again.
    pub fn for_get(&self) -> (r: SseRequest)
        ensures
            !r.server_side_aes256,
            match *self {
                SseConfig::SseC { key } => r.customer_key_b64 matches Some(k) && k@ == base64_standard(key@),
                _ => r.customer_key_b64 is None,
            },
    {
        SseRequest { server_side_aes256: false, customer_key_b64: self.customer_key() }
    }
}

// ---------------------------------------------------------------------------
// The object-name prefix of a run
// ---------------------------------------------------------------------------

/// The prefix objects of a run are named under: the one given, or
/// `s3perf-` followed by the first group (8 hex digits) of a fresh random
/// UUID.
pub fn run_prefix(custom: &Option<String>) -> (r: String)
    ensures
        custom matches Some(c) ==> r@ == c@,
        custom is None ==> r@.len() == 15 && r@.subrange(0, 7) == "s3perf-"@ && forall|i: int|
            7 <= i < 15 ==> r@[i] != '-',
{
    match custom {
        Some(c) => c.clone(),
        None => {
            let id = uuid_v4_string();
            let chars = str_chars(id.as_str());
            let first = slice_chars(chars.as_slice(), 0, 8);
            let head = string_from_chars(first.as_slice());
            let r = concat2("s3perf-", head.as_str());
            proof {
                reveal_strlit("s3perf-");
                assert(r@.subrange(0, 7) =~= "s3perf-"@);
            }
            r
        },
    }
}

// ---------------------------------------------------------------------------
// Distributed runs
// ---------------------------------------------------------------------------

/// The subcommands of the tool.
#[derive(Debug, Clone, Copy, PartialEq, Eq, Structural)]
pub enum CommandKind {
    Mixed,
    Get,
    Put,
    Delete,
    List,
    Stat,
    Versioned,
    Retention,
    Multipart,
    MultipartPut,
    Snowball,
    Fanout,
    Append,
    Zip,
    Run,
    Client,
    Iceberg,
    Analyze,
    Cmp,
    Merge,
    CatalogRead,
    CatalogCommits,
    CatalogMixed,
    CatalogWrite,
    Sustained,
}

/// The benchmark name remote agents run for a subcommand, for the S3
/// benchmarks that can be distributed.
pub open spec fn distributed_name(c: CommandKind) -> Option<Seq<char>> {
    match c {
        CommandKind::Mixed => Some("mixed"@),
        CommandKind::Get => Some("get"@),
        CommandKind::Put => Some("put"@),
        CommandKind::Delete => Some("delete"@),
        CommandKind::List => Some("list"@),
        CommandKind::Stat => Some("stat"@),
        CommandKind::Versioned => Some("versioned"@),
        CommandKind::Retention => Some("retention"@),
        CommandKind::Multipart => Some("multipart"@),
        CommandKind::MultipartPut => Some("multipart-put"@),
        CommandKind::Snowball => Some("snowball"@),
        CommandKind::Fanout => Some("fanout"@),
        CommandKind::Append => Some("append"@),
        CommandKind::Zip => Some("zip"@),
        _ => None,
    }
}

/// See [`distributed_name`].
pub fn distributed_bench_subcommand(cmd: CommandKind) -> (r: Option<&'static str>)
    ensures
        match distributed_name(cmd) {
            Some(n) => r matches Some(s) && s@ == n,
            None => r is None,
        },
{
    match cmd {
        CommandKind::Mixed => Some("mixed"),
        CommandKind::Get => Some("get"),
        CommandKind::Put => Some("put"),
        CommandKind::Delete => Some("delete"),
        CommandKind::List => Some("list"),
        CommandKind::Stat => Some("stat"),
        CommandKind::Versioned => Some("versioned"),
        CommandKind::Retention => Some("retention"),
        CommandKind::Multipart => Some("multipart"),
        CommandKind::MultipartPut => Some("multipart-put"),
        CommandKind::Snowball => Some("snowball"),
        CommandKind::Fanout => Some("fanout"),
        CommandKind::Append => Some("append"),
        CommandKind::Zip => Some("zip"),
        _ => None,
    }
}

/// Whether `s` starts with `p`.
pub open spec fn starts_with(s: Seq<char>, p: Seq<char>) -> bool {
    s.len() >= p.len() && s.subrange(0, p.len() as int) == p
}

/// The arguments from position `i` on, without `--remote-hosts` and its
/// value (the next argument when it does not start with `-`) and without
/// `--remote-hosts=...`.
pub open spec fn strip_remote_hosts(argv: Seq<Seq<char>>, i: nat) -> Seq<Seq<char>>
    decreases argv.len() - i,
{
    if i >= argv.len() {
        seq![]
    } else if argv[i as int] == "--remote-hosts"@ {
        if i + 1 < argv.len() && !starts_with(argv[i + 1 as int], "-"@) {
            strip_remote_hosts(argv, i + 2)
        } else {
            strip_remote_hosts(argv, i + 1)
        }
    } else if starts_with(argv[i as int], "--remote-hosts="@) {
        strip_remote_hosts(argv, i + 1)
    } else {
        seq![argv[i as int]] + strip_remote_hosts(argv, i + 1)
    }
}

/// The program name, then the arguments without the remote-hosts option.
pub open spec fn forwarded_args(argv: Seq<Seq<char>>) -> Seq<Seq<char>> {
    if argv.len() == 0 {
        seq![]
    } else {
        seq![argv[0]] + strip_remote_hosts(argv, 1)
    }
}

/// Whether `s` starts with `p`.
fn has_prefix(s: &str, p: &str) -> (r: bool)
    ensures
        r == starts_with(s@, p@),
{
    let a = str_chars(s);
    let b = str_chars(p);
    if a.len() < b.len() {
        return false;
    }
    let r = matches_at(a.as_slice(), b.as_slice(), 0);
    proof {
        assert(a@.subrange(0, b@.len() as int) == a@.subrange(0, 0 + b@.len() as int));
    }
    r
}

/// The command line a coordinator forwards to its agents: `argv` without
/// the remote-hosts option.
pub fn args_without_remote_hosts_flag(argv: &Vec<String>) -> (r: Vec<String>)
    ensures
        views(r@) == forwarded_args(views(argv@)),
{
    let ghost a = views(argv@);
    let mut out: Vec<String> = Vec::new();
    if argv.len() == 0 {
        assert(views(out@) =~= forwarded_args(a));
        return out;
    }
    out.push(argv[0].clone());
    let mut i: usize = 1;
    while i < argv.len()
        invariant
            1 <= i <= argv@.len(),
            a == views(argv@),
            seq![a[0]] + strip_remote_hosts(a, 1) == views(out@) + strip_remote_hosts(a, i as nat),
        decreases argv@.len() - i,
    {
        let ghost before = views(out@);
        assert(a[i as int] == argv@[i as int]@);
        if str_eq(argv[i].as_str(), "--remote-hosts") {
            if i + 1 < argv.len() && !has_prefix(argv[i + 1].as_str(), "-") {
                assert(a[i + 1] == argv@[i + 1]@);
                i = i + 2;
            } else {
                proof {
                    if i + 1 < argv.len() {
                        assert(a[i + 1] == argv@[i + 1]@);
                    }
                }
                i = i + 1;
            }
        } else if has_prefix(argv[i].as_str(), "--remote-hosts=") {
            i = i + 1;
        } else {
            out.push(argv[i].clone());
            assert(views(out@) =~= before + seq![a[i as int]]);
            assert(before + strip_remote_hosts(a, i as nat) =~= before + seq![a[i as int]]
                + strip_remote_hosts(a, (i + 1) as nat));
            i = i + 1;
        }
    }
    assert(strip_remote_hosts(a, i as nat) =~= seq![]);
    assert(views(out@) =~= views(out@) + strip_remote_hosts(a, i as nat));
    out
}

} // verus!
