//! Iceberg REST catalog plumbing that does not touch the network: catalog
//! kinds and endpoints, request paths, error classification, retry pacing and
//! the SigV4 signature of warehouse requests.
use vstd::prelude::*;
use crate::codec::{
    base64_encode, base64_standard, hex_encode, hex_lower, hmac_sha256, hmac_sha256_spec, sha256,
    sha256_digest, format_utc, utc_format,
};
use crate::text::{
    concat2, concat3, join_spec, join_strings, owned, seq_contains, str_contains, str_eq,
    to_lowercase, unicode_lower, views, str_chars, string_from_chars,
};

verus! {

broadcast use vstd::string::group_string_axioms;

// ---------------------------------------------------------------------------
// Catalog kinds and configuration
// ---------------------------------------------------------------------------

/// Which catalog implementation serves the REST API.
#[derive(Debug, Clone, Copy, PartialEq, Eq, Structural)]
pub enum ExternalCatalogType {
    /// No external catalog: MinIO AIStor Tables (SigV4 requests).
    Builtin,
    /// Apache Polaris (bearer token).
    Polaris,
}

impl ExternalCatalogType {
    /// `polaris` in any case selects Polaris; anything else AIStor.
    pub fn from_str(s: &str) -> (r: ExternalCatalogType)
        ensures
            r == (if unicode_lower(s@) == "polaris"@ {
                ExternalCatalogType::Polaris
            } else {
                ExternalCatalogType::Builtin
            }),
    {
        let l = to_lowercase(s);
        if str_eq(l.as_str(), "polaris") {
            ExternalCatalogType::Polaris
        } else {
            ExternalCatalogType::Builtin
        }
    }
}

impl Default for ExternalCatalogType {
    fn default() -> (r: Self)
        ensures
            r == ExternalCatalogType::Builtin,
    {
        ExternalCatalogType::Builtin
    }
}

/// Where the catalog is and how to authenticate.
#[derive(Debug, Clone)]
pub struct CatalogConfig {
    pub catalog_uri: String,
    pub warehouse: String,
    pub access_key: String,
    pub secret_key: String,
    pub region: String,
    pub tls: bool,
    pub external_catalog: ExternalCatalogType,
}

impl Default for CatalogConfig {
    fn default() -> (r: Self)
        ensures
            r.catalog_uri@ == "http://localhost:9001"@,
            r.warehouse@ == "benchmarkcatalog"@,
            r.access_key@ == "minioadmin"@,
            r.secret_key@ == "minioadmin"@,
            r.region@ == "us-east-1"@,
            !r.tls,
            r.external_catalog == ExternalCatalogType::Builtin,
    {
        CatalogConfig {
            catalog_uri: owned("http://localhost:9001"),
            warehouse: owned("benchmarkcatalog"),
            access_key: owned("minioadmin"),
            secret_key: owned("minioadmin"),
            region: owned("us-east-1"),
            tls: false,
            external_catalog: ExternalCatalogType::Builtin,
        }
    }
}

// ---------------------------------------------------------------------------
// Endpoints
// ---------------------------------------------------------------------------

/// `s` with every leading repetition of `pat` removed (`str::trim_start_matches`).
pub open spec fn trim_start_all(s: Seq<char>, pat: Seq<char>) -> Seq<char>
    decreases s.len(),
{
    if pat.len() > 0 && pat.len() <= s.len() && s.subrange(0, pat.len() as int) == pat {
        trim_start_all(s.subrange(pat.len() as int, s.len() as int), pat)
    } else {
        s
    }
}

/// `s.trim_start_matches(pat)`.
pub fn trim_start_matches(s: &[char], pat: &[char]) -> (r: Vec<char>)
    ensures
        r@ == trim_start_all(s@, pat@),
{
    let mut lo: usize = 0;
    assert(s@.subrange(0, s@.len() as int) =~= s@);
    while pat.len() > 0 && pat.len() <= s.len() - lo && crate::text::matches_at(s, pat, lo)
        invariant
            lo <= s@.len(),
            trim_start_all(s@, pat@) == trim_start_all(s@.subrange(lo as int, s@.len() as int), pat@),
        decreases s.len() - lo,
    {
        proof {
            let rest = s@.subrange(lo as int, s@.len() as int);
            assert(rest.subrange(0, pat@.len() as int) =~= s@.subrange(lo as int, lo + pat@.len()));
            assert(rest.subrange(pat@.len() as int, rest.len() as int) =~= s@.subrange(
                lo + pat@.len(),
                s@.len() as int,
            ));
        }
        lo = lo + pat.len();
    }
    proof {
        let rest = s@.subrange(lo as int, s@.len() as int);
        if pat@.len() > 0 && pat@.len() <= rest.len() {
            assert(rest.subrange(0, pat@.len() as int) =~= s@.subrange(lo as int, lo + pat@.len()));
        }
    }
    crate::text::slice_chars(s, lo, s.len())
}

/// The host part of a catalog URI: any `http://` prefixes, then any
/// `https://` prefixes, removed.
pub open spec fn catalog_host(uri: Seq<char>) -> Seq<char> {
    trim_start_all(trim_start_all(uri, "http://"@), "https://"@)
}

pub open spec fn scheme(tls: bool) -> Seq<char> {
    if tls {
        "https"@
    } else {
        "http"@
    }
}

fn scheme_exec(tls: bool) -> (r: &'static str)
    ensures
        r@ == scheme(tls),
{
    if tls {
        "https"
    } else {
        "http"
    }
}

/// The host part of a catalog URI.
pub fn catalog_host_exec(uri: &str) -> (r: String)
    ensures
        r@ == catalog_host(uri@),
{
    let u = str_chars(uri);
    let p1 = str_chars("http://");
    let p2 = str_chars("https://");
    let a = trim_start_matches(u.as_slice(), p1.as_slice());
    let b = trim_start_matches(a.as_slice(), p2.as_slice());
    string_from_chars(b.as_slice())
}

/// `<scheme>://<host><suffix>`.
pub open spec fn catalog_url(tls: bool, uri: Seq<char>, suffix: Seq<char>) -> Seq<char> {
    scheme(tls) + "://"@ + catalog_host(uri) + suffix
}

fn catalog_url_exec(tls: bool, uri: &str, suffix: &str) -> (r: String)
    ensures
        r@ == catalog_url(tls, uri@, suffix@),
{
    let host = catalog_host_exec(uri);
    let a = concat3(scheme_exec(tls), "://", host.as_str());
    concat2(a.as_str(), suffix)
}

/// The bytes of a string in UTF-8.
pub open spec fn utf8(s: Seq<char>) -> Seq<u8> {
    vstd::utf8::encode_utf8(s)
}

/// The `Authorization` value of a Polaris catalog: `Bearer ` and the base64 of
/// `access_key:secret_key`.
pub open spec fn polaris_auth(access_key: Seq<char>, secret_key: Seq<char>) -> Seq<char> {
    "Bearer "@ + base64_standard(utf8(access_key + ":"@ + secret_key))
}

/// Where REST calls of a catalog go and how they authenticate.
#[derive(Debug, Clone)]
pub struct CatalogEndpoint {
    pub base_url: String,
    pub warehouse: String,
    /// `Authorization` header value; `None` for per-request SigV4.
    pub auth_header: Option<String>,
}

impl CatalogEndpoint {
    /// An AIStor Tables catalog: `<scheme>://<host>/_iceberg/v1`.
    pub fn new_ai_stor(cfg: &CatalogConfig) -> (r: CatalogEndpoint)
        ensures
            r.base_url@ == catalog_url(cfg.tls, cfg.catalog_uri@, "/_iceberg/v1"@),
            r.warehouse@ == cfg.warehouse@,
            r.auth_header is None,
    {
        CatalogEndpoint {
            base_url: catalog_url_exec(cfg.tls, cfg.catalog_uri.as_str(), "/_iceberg/v1"),
            warehouse: cfg.warehouse.clone(),
            auth_header: None,
        }
    }

    /// A Polaris catalog: `<scheme>://<host>/api/catalog/v1` with a bearer
    /// token made of the credentials.
    pub fn new_polaris(cfg: &CatalogConfig) -> (r: CatalogEndpoint)
        requires
            4 * ((utf8(cfg.access_key@ + ":"@ + cfg.secret_key@).len() + 2) / 3) <= usize::MAX,
        ensures
            r.base_url@ == catalog_url(cfg.tls, cfg.catalog_uri@, "/api/catalog/v1"@),
            r.warehouse@ == cfg.warehouse@,
            r.auth_header matches Some(h) && h@ == polaris_auth(cfg.access_key@, cfg.secret_key@),
    {
        let token = concat3(cfg.access_key.as_str(), ":", cfg.secret_key.as_str());
        let b64 = base64_encode(token.as_str().as_bytes());
        let auth = concat2("Bearer ", b64.as_str());
        CatalogEndpoint {
            base_url: catalog_url_exec(cfg.tls, cfg.catalog_uri.as_str(), "/api/catalog/v1"),
            warehouse: cfg.warehouse.clone(),
            auth_header: Some(auth),
        }
    }

    /// The endpoint for the configured catalog kind.
    pub fn new(cfg: &CatalogConfig) -> (r: CatalogEndpoint)
        requires
            4 * ((utf8(cfg.access_key@ + ":"@ + cfg.secret_key@).len() + 2) / 3) <= usize::MAX,
        ensures
            cfg.external_catalog == ExternalCatalogType::Polaris ==> (r.base_url@ == catalog_url(
                cfg.tls,
                cfg.catalog_uri@,
                "/api/catalog/v1"@,
            ) && (r.auth_header matches Some(h) && h@ == polaris_auth(cfg.access_key@, cfg.secret_key@))),
            cfg.external_catalog == ExternalCatalogType::Builtin ==> r.base_url@ == catalog_url(
                cfg.tls,
                cfg.catalog_uri@,
                "/_iceberg/v1"@,
            ) && r.auth_header is None,
            r.warehouse@ == cfg.warehouse@,
    {
        match cfg.external_catalog {
            ExternalCatalogType::Polaris => Self::new_polaris(cfg),
            _ => Self::new_ai_stor(cfg),
        }
    }

    /// `<base>/<warehouse>/<path without leading '/'>`.
    pub fn api_url(&self, path: &str) -> (r: String)
        ensures
            r@ == self.base_url@ + "/"@ + self.warehouse@ + "/"@ + trim_start_all(path@, "/"@),
    {
        let p = str_chars(path);
        let slash = str_chars("/");
        let t = trim_start_matches(p.as_slice(), slash.as_slice());
        let ts = string_from_chars(t.as_slice());
        let a = concat3(self.base_url.as_str(), "/", self.warehouse.as_str());
        concat3(a.as_str(), "/", ts.as_str())
    }
}

// ---------------------------------------------------------------------------
// Request paths
// ---------------------------------------------------------------------------

/// Path of a namespace: `namespaces/<parts joined by '.'>`.
pub open spec fn namespace_resource(ns: Seq<Seq<char>>) -> Seq<char> {
    "namespaces/"@ + join_spec(ns, "."@)
}

/// `namespaces/<ns>`.
pub fn namespace_resource_exec(ns: &[String]) -> (r: String)
    ensures
        r@ == namespace_resource(views(ns@)),
{
    let j = join_strings(ns, ".");
    concat2("namespaces/", j.as_str())
}

/// Path listing namespaces, under `parent` when given.
pub fn list_namespaces_path(parent: Option<&[String]>) -> (r: String)
    ensures
        match parent {
            Some(p) => r@ == "namespaces?parent="@ + join_spec(views(p@), "."@),
            None => r@ == "namespaces"@,
        },
{
    match parent {
        Some(p) => {
            let j = join_strings(p, ".");
            concat2("namespaces?parent=", j.as_str())
        },
        None => owned("namespaces"),
    }
}

/// `namespaces/<ns>/<tail>`, the path of a child collection or object.
pub fn namespace_child_path(ns: &[String], tail: &str) -> (r: String)
    ensures
        r@ == namespace_resource(views(ns@)) + "/"@ + tail@,
{
    let base = namespace_resource_exec(ns);
    concat3(base.as_str(), "/", tail)
}

/// Path that drops a table together with its data.
pub fn drop_table_path(ns: &[String], table: &str) -> (r: String)
    ensures
        r@ == namespace_resource(views(ns@)) + "/tables/"@ + table@ + "?purgeRequested=true"@,
{
    let base = namespace_resource_exec(ns);
    let a = concat3(base.as_str(), "/tables/", table);
    concat2(a.as_str(), "?purgeRequested=true")
}

// ---------------------------------------------------------------------------
// Error classification
// ---------------------------------------------------------------------------

/// Errors worth retrying: conflicts, internal server errors and throttling.
pub open spec fn retryable_spec(err: Seq<char>) -> bool {
    let s = unicode_lower(err);
    seq_contains(s, "conflict"@) || seq_contains(s, "internal server error"@) || seq_contains(
        s,
        "429"@,
    ) || seq_contains(s, "too many requests"@)
}

/// Whether a failed catalog call is worth retrying.
pub fn is_retryable(err_str: &str) -> (r: bool)
    ensures
        r == retryable_spec(err_str@),
{
    let s = to_lowercase(err_str);
    str_contains(s.as_str(), "conflict") || str_contains(s.as_str(), "internal server error")
        || str_contains(s.as_str(), "429") || str_contains(s.as_str(), "too many requests")
}

/// Errors meaning that the resource already exists.
pub open spec fn already_exists_spec(err: Seq<char>) -> bool {
    let s = unicode_lower(err);
    seq_contains(s, "alreadyexists"@) || seq_contains(s, "already exists"@) || seq_contains(
        s,
        "conflict"@,
    )
}

/// Recognises "already exists" errors of catalog create calls.
pub struct IsAlreadyExists;

impl IsAlreadyExists {
    /// Whether a create call failed only because the resource exists.
    pub fn check(err: &str) -> (r: bool)
        ensures
            r == already_exists_spec(err@),
    {
        let s = to_lowercase(err);
        str_contains(s.as_str(), "alreadyexists") || str_contains(s.as_str(), "already exists")
            || str_contains(s.as_str(), "conflict")
    }
}

/// Whether a failed create of a table or view counts as done (the catalog
/// reported `AlreadyExists` or `Conflict`, case-sensitively).
pub fn create_error_is_idempotent(err: &str) -> (r: bool)
    ensures
        r == (seq_contains(err@, "AlreadyExists"@) || seq_contains(err@, "Conflict"@)),
{
    str_contains(err, "AlreadyExists") || str_contains(err, "Conflict")
}

// ---------------------------------------------------------------------------
// Retry pacing
// ---------------------------------------------------------------------------

/// Exponential back-off settings (milliseconds).
#[derive(Debug, Clone, Copy, PartialEq, Eq, Structural)]
pub struct RetryConfig {
    pub max_retries: usize,
    pub base_backoff_ms: u64,
    pub max_backoff_ms: u64,
}

impl Default for RetryConfig {
    fn default() -> (r: Self)
        ensures
            r.max_retries == 4,
            r.base_backoff_ms == 100,
            r.max_backoff_ms == 60000,
    {
        RetryConfig { max_retries: 4, base_backoff_ms: 100, max_backoff_ms: 60000 }
    }
}

impl RetryConfig {
    /// After attempt number `attempt` (from 0) failed: whether to try again.
    /// Only retryable errors are retried, and at most `max_retries` times.
    pub fn should_retry(&self, attempt: usize, retryable: bool) -> (r: bool)
        ensures
            r == (retryable && attempt < self.max_retries),
    {
        retryable && attempt < self.max_retries
    }

    /// The back-off after `backoff_ms`: doubled, capped at `max_backoff_ms`.
    pub fn next_backoff(&self, backoff_ms: u64) -> (r: u64)
        ensures
            r == (if 2 * backoff_ms < self.max_backoff_ms {
                2 * backoff_ms
            } else {
                self.max_backoff_ms as int
            }),
    {
        if backoff_ms < self.max_backoff_ms / 2 + self.max_backoff_ms % 2 {
            backoff_ms * 2
        } else {
            self.max_backoff_ms
        }
    }
}

/// One back-off step never goes above the cap, and below the cap it never
/// shrinks.
pub proof fn law_backoff_capped(cfg: RetryConfig, b: u64)
    ensures
        ({
            let n = if 2 * b < cfg.max_backoff_ms {
                2 * b
            } else {
                cfg.max_backoff_ms as int
            };
            n <= cfg.max_backoff_ms && (b < cfg.max_backoff_ms ==> n >= b)
        }),
{
}

// ---------------------------------------------------------------------------
// Warehouse requests
// ---------------------------------------------------------------------------

/// URL that creates warehouses.
pub fn warehouse_url(cfg: &CatalogConfig) -> (r: String)
    ensures
        r@ == catalog_url(cfg.tls, cfg.catalog_uri@, "/_iceberg/v1/warehouses"@),
{
    catalog_url_exec(cfg.tls, cfg.catalog_uri.as_str(), "/_iceberg/v1/warehouses")
}

/// URL that deletes this configuration's warehouse.
pub fn warehouse_delete_url(cfg: &CatalogConfig) -> (r: String)
    ensures
        r@ == catalog_url(cfg.tls, cfg.catalog_uri@, "/_iceberg/v1/warehouses/"@ + cfg.warehouse@),
{
    let suffix = concat2("/_iceberg/v1/warehouses/", cfg.warehouse.as_str());
    catalog_url_exec(cfg.tls, cfg.catalog_uri.as_str(), suffix.as_str())
}

/// The headers that sign a warehouse request.
#[derive(Debug, Clone)]
pub struct SignedHeaders {
    pub amz_date: String,
    pub content_sha256: String,
    pub authorization: String,
}

pub open spec fn hex_sha256(s: Seq<char>) -> Seq<char> {
    hex_lower(sha256(utf8(s)))
}

/// The canonical request that is signed (fixed method, path and host).
pub open spec fn canonical_request(amz_date: Seq<char>, payload_hash: Seq<char>) -> Seq<char> {
    "POST\n/_iceberg/v1/warehouses\n\n"@ + "content-type:application/json\nhost:localhost\nx-amz-content-sha256:"@
        + payload_hash + "\nx-amz-date:"@ + amz_date + "\n"@ + "\n"@
        + "content-type;host;x-amz-content-sha256;x-amz-date"@ + "\n"@ + payload_hash
}

pub open spec fn credential_scope(date_stamp: Seq<char>, region: Seq<char>) -> Seq<char> {
    date_stamp + "/"@ + region + "/s3tables/aws4_request"@
}

pub open spec fn string_to_sign(amz_date: Seq<char>, scope: Seq<char>, canonical: Seq<char>) -> Seq<char> {
    "AWS4-HMAC-SHA256\n"@ + amz_date + "\n"@ + scope + "\n"@ + hex_sha256(canonical)
}

/// The signing key derived from the secret key, date, region and service.
pub open spec fn signing_key(secret: Seq<char>, date_stamp: Seq<char>, region: Seq<char>) -> Seq<u8> {
    let k_date = hmac_sha256_spec(utf8("AWS4"@ + secret), utf8(date_stamp));
    let k_region = hmac_sha256_spec(k_date, utf8(region));
    let k_service = hmac_sha256_spec(k_region, utf8("s3tables"@));
    hmac_sha256_spec(k_service, utf8("aws4_request"@))
}

/// The `Authorization` header of a SigV4-signed warehouse request.
pub open spec fn sigv4_authorization(
    access_key: Seq<char>,
    secret_key: Seq<char>,
    region: Seq<char>,
    body: Seq<char>,
    amz_date: Seq<char>,
    date_stamp: Seq<char>,
) -> Seq<char> {
    let payload_hash = hex_sha256(body);
    let scope = credential_scope(date_stamp, region);
    let sts = string_to_sign(amz_date, scope, canonical_request(amz_date, payload_hash));
    let signature = hex_lower(hmac_sha256_spec(signing_key(secret_key, date_stamp, region), utf8(sts)));
    "AWS4-HMAC-SHA256 Credential="@ + access_key + "/"@ + scope
        + ", SignedHeaders=content-type;host;x-amz-content-sha256;x-amz-date, Signature="@ + signature
}

fn hex_sha256_exec(s: &str) -> (r: String)
    ensures
        r@ == hex_sha256(s@),
{
    let d = sha256_digest(s.as_bytes());
    hex_encode(d.as_slice())
}

/// The SigV4 headers of a warehouse request sent at `secs` (seconds since the
/// Unix epoch); `None` when chrono cannot represent that time.
pub fn sign_warehouse_request(
    access_key: &str,
    secret_key: &str,
    region: &str,
    body: &str,
    secs: i64,
) -> (r: Option<SignedHeaders>)
    ensures
        match (utc_format(secs, "%Y%m%dT%H%M%SZ"@), utc_format(secs, "%Y%m%d"@)) {
            (Some(amz), Some(day)) => (r matches Some(h) && h.amz_date@ == amz && h.content_sha256@
                == hex_sha256(body@) && h.authorization@ == sigv4_authorization(
                access_key@,
                secret_key@,
                region@,
                body@,
                amz,
                day,
            )),
            _ => r is None,
        },
{
    let amz_date = match format_utc(secs, "%Y%m%dT%H%M%SZ") {
        Some(d) => d,
        None => return None,
    };
    let date_stamp = match format_utc(secs, "%Y%m%d") {
        Some(d) => d,
        None => return None,
    };
    let payload_hash = hex_sha256_exec(body);
    let c1 = concat3(
        "POST\n/_iceberg/v1/warehouses\n\n",
        "content-type:application/json\nhost:localhost\nx-amz-content-sha256:",
        payload_hash.as_str(),
    );
    let c2 = concat3(c1.as_str(), "\nx-amz-date:", amz_date.as_str());
    let c3 = concat3(c2.as_str(), "\n", "\n");
    let c4 = concat3(c3.as_str(), "content-type;host;x-amz-content-sha256;x-amz-date", "\n");
    let canonical = concat2(c4.as_str(), payload_hash.as_str());
    let s1 = concat3(date_stamp.as_str(), "/", region);
    let scope = concat2(s1.as_str(), "/s3tables/aws4_request");
    let canon_hash = hex_sha256_exec(canonical.as_str());
    let t1 = concat3("AWS4-HMAC-SHA256\n", amz_date.as_str(), "\n");
    let t2 = concat3(t1.as_str(), scope.as_str(), "\n");
    let sts = concat2(t2.as_str(), canon_hash.as_str());
    let kd_key = concat2("AWS4", secret_key);
    let k_date = hmac_sha256(kd_key.as_str().as_bytes(), date_stamp.as_str().as_bytes());
    let k_region = hmac_sha256(k_date.as_slice(), region.as_bytes());
    let k_service = hmac_sha256(k_region.as_slice(), "s3tables".as_bytes());
    let k_signing = hmac_sha256(k_service.as_slice(), "aws4_request".as_bytes());
    let sig_bytes = hmac_sha256(k_signing.as_slice(), sts.as_str().as_bytes());
    let signature = hex_encode(sig_bytes.as_slice());
    let a1 = concat3("AWS4-HMAC-SHA256 Credential=", access_key, "/");
    let a2 = concat3(
        a1.as_str(),
        scope.as_str(),
        ", SignedHeaders=content-type;host;x-amz-content-sha256;x-amz-date, Signature=",
    );
    let authorization = concat2(a2.as_str(), signature.as_str());
    proof {
        assert(canonical@ == canonical_request(amz_date@, payload_hash@));
        assert(sts@ == string_to_sign(amz_date@, scope@, canonical@));
    }
    Some(SignedHeaders { amz_date, content_sha256: payload_hash, authorization })
}

} // verus!
