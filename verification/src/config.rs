//! Run files (`s3perf run <file>`): the settings they hold, their defaults,
//! their validation, and their flattening into command-line arguments.
//!
//! The floating-point settings of a run file (operation shares, the
//! auto-termination threshold) are held here as the text the command line
//! carries for them.
use vstd::prelude::*;
use crate::num::{dec_str, fmt_usize};
use crate::text::{concat2, concat3, join_spec, join_strings, owned, str_eq, str_is_empty, views};

verus! {

broadcast use vstd::string::group_string_axioms;

// ---------------------------------------------------------------------------
// Benchmarks and defaults
// ---------------------------------------------------------------------------

/// The benchmark names a run file may ask for.
pub open spec fn benchmark_names() -> Seq<Seq<char>> {
    seq![
        "mixed"@,
        "get"@,
        "put"@,
        "delete"@,
        "list"@,
        "stat"@,
        "versioned"@,
        "retention"@,
        "multipart"@,
        "multipart-put"@,
        "snowball"@,
        "fanout"@,
        "append"@,
        "zip"@,
    ]
}

/// The supported benchmark names, in their documented order.
pub fn valid_benchmarks() -> (r: Vec<String>)
    ensures
        views(r@) == benchmark_names(),
{
    let mut r: Vec<String> = Vec::new();
    r.push(owned("mixed"));
    r.push(owned("get"));
    r.push(owned("put"));
    r.push(owned("delete"));
    r.push(owned("list"));
    r.push(owned("stat"));
    r.push(owned("versioned"));
    r.push(owned("retention"));
    r.push(owned("multipart"));
    r.push(owned("multipart-put"));
    r.push(owned("snowball"));
    r.push(owned("fanout"));
    r.push(owned("append"));
    r.push(owned("zip"));
    assert(views(r@) =~= benchmark_names());
    r
}

/// The default benchmark bucket.
pub fn default_bucket() -> (r: String)
    ensures
        r@ == "s3perf-benchmark-bucket"@,
{
    owned("s3perf-benchmark-bucket")
}

/// The default S3 endpoint.
pub fn default_host() -> (r: String)
    ensures
        r@ == "localhost:9000"@,
{
    owned("localhost:9000")
}

/// The default access key id.
pub fn default_access_key() -> (r: String)
    ensures
        r@ == "minioadmin"@,
{
    owned("minioadmin")
}

/// The default secret access key.
pub fn default_secret_key() -> (r: String)
    ensures
        r@ == "minioadmin"@,
{
    owned("minioadmin")
}

/// The default region.
pub fn default_region() -> (r: String)
    ensures
        r@ == "us-east-1"@,
{
    owned("us-east-1")
}

/// The default run duration.
pub fn default_duration_str() -> (r: String)
    ensures
        r@ == "5m"@,
{
    owned("5m")
}

/// The default number of workers.
pub fn default_concurrent() -> (r: usize)
    ensures
        r == 20,
{
    20
}

/// The default number of objects prepared.
pub fn default_objects() -> (r: usize)
    ensures
        r == 10000,
{
    10000
}

/// The default object size.
pub fn default_obj_size() -> (r: String)
    ensures
        r@ == "1MiB"@,
{
    owned("1MiB")
}

/// The default minimum steady duration before auto-termination.
pub fn default_autoterm_dur() -> (r: String)
    ensures
        r@ == "15s"@,
{
    owned("15s")
}

/// The default auto-termination threshold, as the command line renders it.
pub fn default_autoterm_pct_text() -> (r: String)
    ensures
        r@ == "7.5"@,
{
    owned("7.5")
}

// ---------------------------------------------------------------------------
// The run file
// ---------------------------------------------------------------------------

/// A run file: everything sits under its `s3perf` root.
#[derive(Debug, Clone)]
pub struct RunFileConfig {
    pub s3perf: RunSpec,
}

/// The `s3perf` section.
#[derive(Debug, Clone)]
pub struct RunSpec {
    /// Schema version; `v1` is the only one.
    pub api: String,
    /// The benchmark to run.
    pub benchmark: String,
    pub quiet: bool,
    /// Where to write the benchmark data.
    pub bench_data: Option<String>,
    pub remote: RemoteConfig,
    pub params: BenchmarkParams,
}

/// The S3 endpoint and credentials.
#[derive(Debug, Clone)]
pub struct RemoteConfig {
    pub host: String,
    pub access_key: String,
    pub secret_key: String,
    pub region: String,
    pub tls: bool,
    pub insecure: bool,
    pub bucket: String,
}

impl Default for RemoteConfig {
    fn default() -> (r: RemoteConfig)
        ensures
            r.host@ == "localhost:9000"@,
            r.access_key@ == "minioadmin"@,
            r.secret_key@ == "minioadmin"@,
            r.region@ == "us-east-1"@,
            !r.tls,
            !r.insecure,
            r.bucket@ == "s3perf-benchmark-bucket"@,
    {
        RemoteConfig {
            host: default_host(),
            access_key: default_access_key(),
            secret_key: default_secret_key(),
            region: default_region(),
            tls: false,
            insecure: false,
            bucket: default_bucket(),
        }
    }
}

/// Timing, concurrency and object settings.
#[derive(Debug, Clone)]
pub struct BenchmarkParams {
    pub duration: String,
    pub concurrent: usize,
    pub objects: usize,
    /// Versions per object (versioned workloads).
    pub versions: usize,
    pub obj: ObjParams,
    /// The operation mix of mixed and versioned workloads.
    pub distribution: Option<DistribParams>,
    pub autoterm: AutotermParams,
    pub no_clear: bool,
}

impl Default for BenchmarkParams {
    fn default() -> (r: BenchmarkParams)
        ensures
            r.duration@ == "5m"@,
            r.concurrent == 20,
            r.objects == 10000,
            r.versions == 0,
            r.obj.size@ == "1MiB"@,
            !r.obj.rand_size,
            r.distribution is None,
            !r.autoterm.enabled,
            r.autoterm.dur@ == "15s"@,
            r.autoterm.pct@ == "7.5"@,
            !r.no_clear,
    {
        BenchmarkParams {
            duration: default_duration_str(),
            concurrent: default_concurrent(),
            objects: default_objects(),
            versions: 0,
            obj: ObjParams::default(),
            distribution: None,
            autoterm: AutotermParams::default(),
            no_clear: false,
        }
    }
}

/// Object sizing.
#[derive(Debug, Clone)]
pub struct ObjParams {
    pub size: String,
    pub rand_size: bool,
}

impl Default for ObjParams {
    fn default() -> (r: ObjParams)
        ensures
            r.size@ == "1MiB"@,
            !r.rand_size,
    {
        ObjParams { size: default_obj_size(), rand_size: false }
    }
}

/// The operation mix: each operation's share as the command line carries it
/// (the file's percentage divided by 100).
#[derive(Debug, Clone)]
pub struct DistribParams {
    pub get: String,
    pub stat: String,
    pub put: String,
    pub delete: String,
}

/// Auto-termination settings; the threshold as the command line renders it.
#[derive(Debug, Clone)]
pub struct AutotermParams {
    pub enabled: bool,
    pub dur: String,
    pub pct: String,
}

impl Default for AutotermParams {
    fn default() -> (r: AutotermParams)
        ensures
            !r.enabled,
            r.dur@ == "15s"@,
            r.pct@ == "7.5"@,
    {
        AutotermParams { enabled: false, dur: default_autoterm_dur(), pct: default_autoterm_pct_text() }
    }
}

// ---------------------------------------------------------------------------
// Errors
// ---------------------------------------------------------------------------

/// Why a run file could not be used.
#[derive(Debug, Clone)]
pub enum RunConfigError {
    /// The file could not be read.
    Io { path: String, message: String },
    /// The file is not a valid run file.
    Parse { path: String, message: String },
    /// The settings break a rule.
    Validation(String),
}

/// The text of an error.
pub open spec fn run_config_error_text(e: RunConfigError) -> Seq<char> {
    match e {
        RunConfigError::Io { path, message } => "failed to read config file '"@ + path@ + "': "@
            + message@,
        RunConfigError::Parse { path, message } => "failed to parse config file '"@ + path@
            + "': "@ + message@,
        RunConfigError::Validation(m) => "config validation failed: "@ + m@,
    }
}

impl RunConfigError {
    /// The error's message.
    pub fn message(&self) -> (r: String)
        ensures
            r@ == run_config_error_text(*self),
    {
        match self {
            RunConfigError::Io { path, message } => {
                let a = concat3("failed to read config file '", path.as_str(), "': ");
                concat2(a.as_str(), message.as_str())
            },
            RunConfigError::Parse { path, message } => {
                let a = concat3("failed to parse config file '", path.as_str(), "': ");
                concat2(a.as_str(), message.as_str())
            },
            RunConfigError::Validation(m) => concat2("config validation failed: ", m.as_str()),
        }
    }
}

// ---------------------------------------------------------------------------
// Validation
// ---------------------------------------------------------------------------

/// The validation message for `spec`, if a rule is broken (the first one in
/// the order: version, benchmark, host, access key, secret key, bucket).
pub open spec fn validation_failure(s: RunSpec) -> Option<Seq<char>> {
    if s.api@ != "v1"@ {
        Some("unsupported API version '"@ + s.api@ + "', only 'v1' is supported"@)
    } else if !benchmark_names().contains(s.benchmark@) {
        Some(
            "invalid benchmark type '"@ + s.benchmark@ + "'; valid values: "@ + join_spec(
                benchmark_names(),
                ", "@,
            ),
        )
    } else if s.remote.host@.len() == 0 {
        Some("remote.host cannot be empty"@)
    } else if s.remote.access_key@.len() == 0 {
        Some("remote.access-key cannot be empty"@)
    } else if s.remote.secret_key@.len() == 0 {
        Some("remote.secret-key cannot be empty"@)
    } else if s.remote.bucket@.len() == 0 {
        Some("remote.bucket cannot be empty"@)
    } else {
        None
    }
}

/// Whether `name` is one of `names`.
fn contains_name(names: &Vec<String>, name: &str) -> (r: bool)
    ensures
        r == views(names@).contains(name@),
{
    let mut i: usize = 0;
    while i < names.len()
        invariant
            i <= names@.len(),
            forall|j: int| 0 <= j < i ==> names@[j]@ != name@,
        decreases names@.len() - i,
    {
        if str_eq(names[i].as_str(), name) {
            assert(views(names@)[i as int] == name@);
            return true;
        }
        i = i + 1;
    }
    assert forall|j: int| 0 <= j < views(names@).len() implies views(names@)[j] != name@ by {
        assert(views(names@)[j] == names@[j]@);
    }
    false
}

impl RunFileConfig {
    /// Checks the version, the benchmark name and the remote settings.
    pub fn validate(&self) -> (r: Result<(), RunConfigError>)
        ensures
            match validation_failure(self.s3perf) {
                None => r is Ok,
                Some(m) => r matches Err(RunConfigError::Validation(x)) && x@ == m,
            },
    {
        let s = &self.s3perf;
        if !str_eq(s.api.as_str(), "v1") {
            let a = concat3("unsupported API version '", s.api.as_str(), "', only 'v1' is supported");
            return Err(RunConfigError::Validation(a));
        }
        let names = valid_benchmarks();
        if !contains_name(&names, s.benchmark.as_str()) {
            let valid = join_strings(names.as_slice(), ", ");
            let a = concat3("invalid benchmark type '", s.benchmark.as_str(), "'; valid values: ");
            return Err(RunConfigError::Validation(concat2(a.as_str(), valid.as_str())));
        }
        let r = &s.remote;
        if str_is_empty(r.host.as_str()) {
            return Err(RunConfigError::Validation(owned("remote.host cannot be empty")));
        }
        if str_is_empty(r.access_key.as_str()) {
            return Err(RunConfigError::Validation(owned("remote.access-key cannot be empty")));
        }
        if str_is_empty(r.secret_key.as_str()) {
            return Err(RunConfigError::Validation(owned("remote.secret-key cannot be empty")));
        }
        if str_is_empty(r.bucket.as_str()) {
            return Err(RunConfigError::Validation(owned("remote.bucket cannot be empty")));
        }
        Ok(())
    }
}

// ---------------------------------------------------------------------------
// Flattening into command-line arguments
// ---------------------------------------------------------------------------

/// `flag` when `cond` holds, nothing otherwise.
pub open spec fn bool_arg(cond: bool, flag: Seq<char>) -> Seq<Seq<char>> {
    if cond {
        seq![flag]
    } else {
        seq![]
    }
}

/// `flag=value` when `value` is not `default`, nothing otherwise.
pub open spec fn kv_arg(flag: Seq<char>, value: Seq<char>, default: Seq<char>) -> Seq<Seq<char>> {
    if value != default {
        seq![flag + "="@ + value]
    } else {
        seq![]
    }
}

/// `--benchdata=<path>` for a path that is set and not empty.
pub open spec fn bench_data_arg(b: Option<String>) -> Seq<Seq<char>> {
    match b {
        Some(v) => if v@.len() > 0 {
            seq!["--benchdata="@ + v@]
        } else {
            seq![]
        },
        None => seq![],
    }
}

/// `--versions=<n>` for more than one version.
pub open spec fn versions_arg(n: usize) -> Seq<Seq<char>> {
    if n > 1 {
        seq!["--versions="@ + dec_str(n as nat)]
    } else {
        seq![]
    }
}

/// The four share flags of an operation mix.
pub open spec fn distrib_args(d: Option<DistribParams>) -> Seq<Seq<char>> {
    match d {
        Some(d) => seq![
            "--get-distrib="@ + d.get@,
            "--stat-distrib="@ + d.stat@,
            "--put-distrib="@ + d.put@,
            "--delete-distrib="@ + d.delete@,
        ],
        None => seq![],
    }
}

/// The auto-termination tuning flags, given only when it is enabled.
pub open spec fn autoterm_args(a: AutotermParams) -> Seq<Seq<char>> {
    if a.enabled {
        kv_arg("--autoterm-dur"@, a.dur@, "15s"@) + kv_arg("--autoterm-pct"@, a.pct@, "7.5"@)
    } else {
        seq![]
    }
}

/// The arguments of a run: the benchmark, then the switches that are on,
/// then each setting that differs from its default.
pub open spec fn cli_args(s: RunSpec) -> Seq<Seq<char>> {
    let r = s.remote;
    let p = s.params;
    seq![s.benchmark@] + bool_arg(s.quiet, "--quiet"@) + bool_arg(r.tls, "--tls"@) + bool_arg(
        r.insecure,
        "--insecure"@,
    ) + bool_arg(p.obj.rand_size, "--obj-randsize"@) + bool_arg(p.autoterm.enabled, "--autoterm"@)
        + bool_arg(p.no_clear, "--noclear"@) + bench_data_arg(s.bench_data) + kv_arg(
        "--host"@,
        r.host@,
        "localhost:9000"@,
    ) + kv_arg("--access-key"@, r.access_key@, "minioadmin"@) + kv_arg(
        "--secret-key"@,
        r.secret_key@,
        "minioadmin"@,
    ) + kv_arg("--region"@, r.region@, "us-east-1"@) + kv_arg(
        "--bucket"@,
        r.bucket@,
        "s3perf-benchmark-bucket"@,
    ) + kv_arg("--duration"@, p.duration@, "5m"@) + kv_arg(
        "--concurrent"@,
        dec_str(p.concurrent as nat),
        dec_str(20),
    ) + kv_arg("--objects"@, dec_str(p.objects as nat), dec_str(10000)) + versions_arg(p.versions)
        + kv_arg("--obj-size"@, p.obj.size@, "1MiB"@) + distrib_args(p.distribution) + autoterm_args(
        p.autoterm,
    )
}

/// Appends `flag` when `cond` holds.
pub fn push_bool(args: &mut Vec<String>, cond: bool, flag: &str)
    ensures
        views(final(args)@) == views(old(args)@) + bool_arg(cond, flag@),
{
    let ghost before = args@;
    if cond {
        args.push(owned(flag));
    }
    assert(views(args@) =~= views(before) + bool_arg(cond, flag@));
}

/// Appends `flag=value` when `value` differs from `default`.
pub fn push_kv(args: &mut Vec<String>, flag: &str, value: &str, default: &str)
    ensures
        views(final(args)@) == views(old(args)@) + kv_arg(flag@, value@, default@),
{
    let ghost before = args@;
    if !str_eq(value, default) {
        args.push(concat3(flag, "=", value));
    }
    assert(views(args@) =~= views(before) + kv_arg(flag@, value@, default@));
}

/// Appends one argument.
fn push_arg(args: &mut Vec<String>, a: String)
    ensures
        views(final(args)@) == views(old(args)@) + seq![a@],
{
    let ghost before = args@;
    args.push(a);
    assert(views(args@) =~= views(before) + seq![a@]);
}

impl RunFileConfig {
    /// The command line of the run: `[benchmark, "--flag", "--flag=value", ...]`.
    #[verifier::spinoff_prover]
    #[verifier::rlimit(60)]
    pub fn to_cli_args(&self) -> (r: Vec<String>)
        ensures
            views(r@) == cli_args(self.s3perf),
    {
        let s = &self.s3perf;
        let r = &s.remote;
        let p = &s.params;
        let mut args: Vec<String> = Vec::new();
        push_arg(&mut args, s.benchmark.clone());
        assert(views(args@) =~= seq![s.benchmark@]);
        push_bool(&mut args, s.quiet, "--quiet");
        push_bool(&mut args, r.tls, "--tls");
        push_bool(&mut args, r.insecure, "--insecure");
        push_bool(&mut args, p.obj.rand_size, "--obj-randsize");
        push_bool(&mut args, p.autoterm.enabled, "--autoterm");
        push_bool(&mut args, p.no_clear, "--noclear");
        let ghost before_bench = views(args@);
        match &s.bench_data {
            Some(v) => {
                if !str_is_empty(v.as_str()) {
                    push_arg(&mut args, concat2("--benchdata=", v.as_str()));
                }
            },
            None => {},
        }
        assert(views(args@) =~= before_bench + bench_data_arg(s.bench_data));
        push_kv(&mut args, "--host", r.host.as_str(), "localhost:9000");
        push_kv(&mut args, "--access-key", r.access_key.as_str(), "minioadmin");
        push_kv(&mut args, "--secret-key", r.secret_key.as_str(), "minioadmin");
        push_kv(&mut args, "--region", r.region.as_str(), "us-east-1");
        push_kv(&mut args, "--bucket", r.bucket.as_str(), "s3perf-benchmark-bucket");
        push_kv(&mut args, "--duration", p.duration.as_str(), "5m");
        let conc = fmt_usize(p.concurrent);
        let conc_default = fmt_usize(20);
        push_kv(&mut args, "--concurrent", conc.as_str(), conc_default.as_str());
        let objs = fmt_usize(p.objects);
        let objs_default = fmt_usize(10000);
        push_kv(&mut args, "--objects", objs.as_str(), objs_default.as_str());
        let ghost before_versions = views(args@);
        if p.versions > 1 {
            let n = fmt_usize(p.versions);
            push_arg(&mut args, concat2("--versions=", n.as_str()));
        }
        assert(views(args@) =~= before_versions + versions_arg(p.versions));
        push_kv(&mut args, "--obj-size", p.obj.size.as_str(), "1MiB");
        let ghost before_distrib = views(args@);
        match &p.distribution {
            Some(d) => {
                push_arg(&mut args, concat2("--get-distrib=", d.get.as_str()));
                push_arg(&mut args, concat2("--stat-distrib=", d.stat.as_str()));
                push_arg(&mut args, concat2("--put-distrib=", d.put.as_str()));
                push_arg(&mut args, concat2("--delete-distrib=", d.delete.as_str()));
            },
            None => {},
        }
        assert(views(args@) =~= before_distrib + distrib_args(p.distribution));
        let ghost before_autoterm = views(args@);
        if p.autoterm.enabled {
            push_kv(&mut args, "--autoterm-dur", p.autoterm.dur.as_str(), "15s");
            push_kv(&mut args, "--autoterm-pct", p.autoterm.pct.as_str(), "7.5");
        }
        assert(views(args@) =~= before_autoterm + autoterm_args(p.autoterm));
        args
    }
}

/// A run file that only restates the defaults flattens to the benchmark name
/// alone.
pub proof fn law_defaults_omitted(s: RunSpec)
    requires
        !s.quiet,
        s.bench_data is None,
        s.remote.host@ == "localhost:9000"@,
        s.remote.access_key@ == "minioadmin"@,
        s.remote.secret_key@ == "minioadmin"@,
        s.remote.region@ == "us-east-1"@,
        !s.remote.tls,
        !s.remote.insecure,
        s.remote.bucket@ == "s3perf-benchmark-bucket"@,
        s.params.duration@ == "5m"@,
        s.params.concurrent == 20,
        s.params.objects == 10000,
        s.params.versions <= 1,
        s.params.obj.size@ == "1MiB"@,
        !s.params.obj.rand_size,
        s.params.distribution is None,
        !s.params.autoterm.enabled,
        !s.params.no_clear,
    ensures
        cli_args(s) == seq![s.benchmark@],
{
    assert(cli_args(s) =~= seq![s.benchmark@]);
}

/// The first argument of a run is always its benchmark.
pub proof fn law_benchmark_leads(s: RunSpec)
    ensures
        cli_args(s).len() >= 1,
        cli_args(s)[0] == s.benchmark@,
{
}

/// Every listed benchmark passes validation when the version is `v1` and the
/// remote settings are filled in; any other name fails.
pub proof fn law_listed_benchmarks_validate(s: RunSpec)
    requires
        s.api@ == "v1"@,
        s.remote.host@.len() > 0,
        s.remote.access_key@.len() > 0,
        s.remote.secret_key@.len() > 0,
        s.remote.bucket@.len() > 0,
    ensures
        validation_failure(s) is None <==> benchmark_names().contains(s.benchmark@),
{
}

} // verus!
