//! InfluxDB v2 telemetry: the ingest URL, tag sets, and the per-operation
//! running statistics that are written out.
use vstd::prelude::*;
use crate::ops::{span, Operation};
use crate::random::uuid_v4_string;
use crate::text::{
    concat2, concat3, find_char, index_of_first, lemma_index_of_first_bound, join_spec, join_strings, owned, slice_chars,
    split_chars, split_spec, str_chars, str_eq, string_from_chars, views,
};

verus! {

broadcast use vstd::string::group_string_axioms;

// ---------------------------------------------------------------------------
// Tag sets
// ---------------------------------------------------------------------------

/// The tags a list of `(key, value)` pairs sets, later pairs winning.
pub open spec fn tag_map(v: Seq<(String, String)>) -> Map<Seq<char>, Seq<char>>
    decreases v.len(),
{
    if v.len() == 0 {
        Map::empty()
    } else {
        tag_map(v.drop_last()).insert(v.last().0@, v.last().1@)
    }
}

/// No key occurs twice.
pub open spec fn unique_keys(v: Seq<(String, String)>) -> bool
    decreases v.len(),
{
    v.len() == 0 || (unique_keys(v.drop_last()) && !tag_map(v.drop_last()).dom().contains(v.last().0@))
}

/// The pairs of `v` whose key is not `k`, in order.
pub open spec fn without_key(v: Seq<(String, String)>, k: Seq<char>) -> Seq<(String, String)>
    decreases v.len(),
{
    if v.len() == 0 {
        seq![]
    } else if v.last().0@ == k {
        without_key(v.drop_last(), k)
    } else {
        without_key(v.drop_last(), k).push(v.last())
    }
}

proof fn lemma_without_key(v: Seq<(String, String)>, k: Seq<char>)
    requires
        unique_keys(v),
    ensures
        tag_map(without_key(v, k)) == tag_map(v).remove(k),
        unique_keys(without_key(v, k)),
    decreases v.len(),
{
    if v.len() > 0 {
        lemma_without_key(v.drop_last(), k);
        let w = without_key(v.drop_last(), k);
        if v.last().0@ == k {
            assert(tag_map(v).remove(k) =~= tag_map(v.drop_last()).remove(k));
        } else {
            assert(w.push(v.last()).drop_last() =~= w);
            assert(tag_map(w.push(v.last())) =~= tag_map(v).remove(k));
        }
    } else {
        assert(tag_map(v).remove(k) =~= Map::empty());
    }
}

/// Sets tag `k` to `x`, replacing an earlier value.
pub fn set_tag(tags: &mut Vec<(String, String)>, k: String, x: String)
    requires
        unique_keys(old(tags)@),
    ensures
        unique_keys(final(tags)@),
        tag_map(final(tags)@) == tag_map(old(tags)@).insert(k@, x@),
{
    let ghost before = tags@;
    let mut kept: Vec<(String, String)> = Vec::new();
    let mut i: usize = 0;
    while i < tags.len()
        invariant
            i <= tags@.len(),
            tags@ == before,
            kept@ == without_key(before.subrange(0, i as int), k@),
        decreases tags@.len() - i,
    {
        assert(before.subrange(0, i + 1).drop_last() =~= before.subrange(0, i as int));
        if !str_eq(tags[i].0.as_str(), k.as_str()) {
            let pair = (tags[i].0.clone(), tags[i].1.clone());
            kept.push(pair);
        }
        i = i + 1;
    }
    assert(before.subrange(0, before.len() as int) =~= before);
    proof {
        lemma_without_key(before, k@);
    }
    let ghost w = kept@;
    kept.push((k, x));
    assert(kept@.drop_last() =~= w);
    assert(tag_map(kept@) =~= tag_map(before).insert(k@, x@));
    *tags = kept;
}

/// `key=value` for each tag, the given ones first, then the global ones,
/// joined by commas.
pub open spec fn tags_text(local: Seq<(Seq<char>, Seq<char>)>, global: Seq<(String, String)>) -> Seq<char> {
    join_spec(
        local.map_values(|t: (Seq<char>, Seq<char>)| t.0 + "="@ + t.1) + global.map_values(
            |t: (String, String)| t.0@ + "="@ + t.1@,
        ),
        ","@,
    )
}

/// The tag list of one series.
pub fn format_tags(local: &[(&str, &str)], global: &[(String, String)]) -> (r: String)
    ensures
        r@ == tags_text(
            local@.map_values(|t: (&str, &str)| (t.0@, t.1@)),
            global@,
        ),
{
    let mut parts: Vec<String> = Vec::new();
    let mut i: usize = 0;
    let ghost lv = local@.map_values(|t: (&str, &str)| (t.0@, t.1@));
    let ghost lp = lv.map_values(|t: (Seq<char>, Seq<char>)| t.0 + "="@ + t.1);
    let ghost gp = global@.map_values(|t: (String, String)| t.0@ + "="@ + t.1@);
    while i < local.len()
        invariant
            i <= local@.len(),
            lv == local@.map_values(|t: (&str, &str)| (t.0@, t.1@)),
            lp == lv.map_values(|t: (Seq<char>, Seq<char>)| t.0 + "="@ + t.1),
            views(parts@) == lp.subrange(0, i as int),
        decreases local@.len() - i,
    {
        let (k, v) = local[i];
        let ghost before = views(parts@);
        parts.push(concat3(k, "=", v));
        assert(lv[i as int] == (k@, v@));
        assert(lp[i as int] == k@ + "="@ + v@);
        assert(views(parts@) =~= before.push(k@ + "="@ + v@));
        assert(lp.subrange(0, i + 1) =~= lp.subrange(0, i as int).push(lp[i as int]));
        assert(views(parts@) =~= lp.subrange(0, i + 1));
        i = i + 1;
    }
    let mut j: usize = 0;
    assert(lp.subrange(0, local@.len() as int) =~= lp);
    while j < global.len()
        invariant
            j <= global@.len(),
            gp == global@.map_values(|t: (String, String)| t.0@ + "="@ + t.1@),
            views(parts@) == lp + gp.subrange(0, j as int),
        decreases global@.len() - j,
    {
        let ghost before = views(parts@);
        let s = concat3(global[j].0.as_str(), "=", global[j].1.as_str());
        parts.push(s);
        assert(gp[j as int] == global@[j as int].0@ + "="@ + global@[j as int].1@);
        assert(views(parts@) =~= before.push(s@));
        assert(gp.subrange(0, j + 1) =~= gp.subrange(0, j as int).push(gp[j as int]));
        assert(views(parts@) =~= lp + gp.subrange(0, j + 1));
        j = j + 1;
    }
    assert(gp.subrange(0, global@.len() as int) =~= gp);
    join_strings(parts.as_slice(), ",")
}

// ---------------------------------------------------------------------------
// The ingest URL
// ---------------------------------------------------------------------------

/// Where and how to write metrics.
#[derive(Debug, Clone)]
pub struct InfluxConfig {
    /// `scheme://host:port`.
    pub url: String,
    pub token: String,
    pub bucket: String,
    pub org: String,
    /// Tags put on every series; keys are unique.
    pub global_tags: Vec<(String, String)>,
}

/// A parsed ingest URL, as plain values.
pub struct InfluxView {
    pub url: Seq<char>,
    pub token: Seq<char>,
    pub bucket: Seq<char>,
    pub org: Seq<char>,
    pub tags: Map<Seq<char>, Seq<char>>,
}

/// The tags the query pairs of a URL set (`k=v` pairs; others are ignored),
/// later pairs winning.
pub open spec fn query_tags(pairs: Seq<Seq<char>>) -> Map<Seq<char>, Seq<char>>
    decreases pairs.len(),
{
    if pairs.len() == 0 {
        Map::empty()
    } else {
        let m = query_tags(pairs.drop_last());
        let p = pairs.last();
        match index_of_first(p, '=') {
            Some(e) => m.insert(p.subrange(0, e as int), p.subrange(e + 1 as int, p.len() as int)),
            None => m,
        }
    }
}

/// `s` without its first `n` characters.
pub open spec fn after(s: Seq<char>, n: int) -> Seq<char> {
    s.subrange(n, s.len() as int)
}

/// What `http[s]://<token>@<host:port>/<bucket>/<org>?k=v&...` says, with
/// `run_id` as the run's correlation tag.
pub open spec fn influx_parse(raw: Seq<char>, run_id: Seq<char>) -> Result<InfluxView, Seq<char>> {
    let https = raw.len() >= 8 && raw.subrange(0, 8) == "https://"@;
    let http = raw.len() >= 7 && raw.subrange(0, 7) == "http://"@;
    if !https && !http {
        Err("missing URL scheme (http:// or https://)"@)
    } else {
        let scheme = if https {
            "https"@
        } else {
            "http"@
        };
        let rest = if https {
            after(raw, 8)
        } else {
            after(raw, 7)
        };
        match index_of_first(rest, '@') {
            None => Err("missing token segment (expect token@host:port/bucket/org)"@),
            Some(a) => {
                let token = rest.subrange(0, a as int);
                let rest2 = after(rest, a + 1 as int);
                match index_of_first(rest2, '/') {
                    None => Err("missing bucket path segment (expect host:port/bucket/org)"@),
                    Some(sl) => {
                        let host_port = rest2.subrange(0, sl as int);
                        let pq = after(rest2, sl + 1 as int);
                        let path = match index_of_first(pq, '?') {
                            Some(q) => pq.subrange(0, q as int),
                            None => pq,
                        };
                        let query = match index_of_first(pq, '?') {
                            Some(q) => after(pq, q + 1 as int),
                            None => seq![],
                        };
                        let parts = split_spec(path, '/');
                        Ok(
                            InfluxView {
                                url: scheme + "://"@ + host_port,
                                token,
                                bucket: parts[0],
                                org: if parts.len() > 1 {
                                    parts[1]
                                } else {
                                    "default"@
                                },
                                tags: query_tags(split_spec(query, '&')).insert("run_id"@, run_id),
                            },
                        )
                    },
                }
            },
        }
    }
}

/// The plain values of a configuration.
pub open spec fn influx_view(c: InfluxConfig) -> InfluxView {
    InfluxView {
        url: c.url@,
        token: c.token@,
        bucket: c.bucket@,
        org: c.org@,
        tags: tag_map(c.global_tags@),
    }
}

proof fn lemma_split_nonempty(s: Seq<char>, c: char)
    ensures
        split_spec(s, c).len() >= 1,
    decreases s.len(),
{
    match index_of_first(s, c) {
        Some(i) => if i < s.len() {
            lemma_split_nonempty(s.subrange((i + 1) as int, s.len() as int), c);
        },
        None => {},
    }
}

/// Whether `s` starts with `p`.
fn starts(s: &Vec<char>, p: &str) -> (r: bool)
    ensures
        r == (s@.len() >= p@.len() && s@.subrange(0, p@.len() as int) == p@),
{
    let pc = str_chars(p);
    if s.len() < pc.len() {
        return false;
    }
    let r = crate::text::matches_at(s.as_slice(), pc.as_slice(), 0);
    assert(s@.subrange(0, pc@.len() as int) == s@.subrange(0, 0 + pc@.len() as int));
    r
}

/// The tags the `&`-separated `k=v` pairs of a query set.
fn read_query_tags(query: &[char]) -> (tags: Vec<(String, String)>)
    ensures
        unique_keys(tags@),
        tag_map(tags@) == query_tags(split_spec(query@, '&')),
{
    let pairs = split_chars(query, '&');
    let ghost qv = pairs@.map_values(|v: Vec<char>| v@);
    let mut tags: Vec<(String, String)> = Vec::new();
    assert(tag_map(tags@) =~= query_tags(qv.subrange(0, 0)));
    let mut i: usize = 0;
    while i < pairs.len()
        invariant
            i <= pairs@.len(),
            qv == pairs@.map_values(|v: Vec<char>| v@),
            unique_keys(tags@),
            tag_map(tags@) == query_tags(qv.subrange(0, i as int)),
        decreases pairs@.len() - i,
    {
        assert(qv.subrange(0, i + 1).drop_last() =~= qv.subrange(0, i as int));
        assert(qv.subrange(0, i + 1).last() == pairs@[i as int]@);
        let p = &pairs[i];
        let plen = p.len();
        assert(qv[i as int] == p@);
        let ghost prev = tag_map(tags@);
        proof {
            lemma_index_of_first_bound(p@, '=');
        }
        match find_char(p.as_slice(), '=') {
            Some(e) => {
                let k = slice_chars(p.as_slice(), 0, e);
                let v = slice_chars(p.as_slice(), e + 1, plen);
                let ks = string_from_chars(k.as_slice());
                let vs = string_from_chars(v.as_slice());
                set_tag(&mut tags, ks, vs);
                assert(query_tags(qv.subrange(0, i + 1)) == prev.insert(k@, v@));
            },
            None => {
                assert(query_tags(qv.subrange(0, i + 1)) == prev);
            },
        }
        i = i + 1;
    }
    assert(qv.subrange(0, pairs@.len() as int) =~= qv);
    tags
}

/// Reads an ingest URL, tagging the run with `run_id`.
#[verifier::spinoff_prover]
#[verifier::rlimit(40)]
pub fn parse_influx_url_with(raw: &str, run_id: &str) -> (r: Result<InfluxConfig, String>)
    ensures
        match influx_parse(raw@, run_id@) {
            Ok(v) => r matches Ok(c) && influx_view(c) == v && unique_keys(c.global_tags@),
            Err(m) => r matches Err(e) && e@ == m,
        },
{
    let c = str_chars(raw);
    proof {
        reveal_strlit("https://");
        reveal_strlit("http://");
    }
    let https = starts(&c, "https://");
    let http = starts(&c, "http://");
    if !https && !http {
        return Err(owned("missing URL scheme (http:// or https://)"));
    }
    let skip: usize = if https {
        8
    } else {
        7
    };
    let rest = slice_chars(c.as_slice(), skip, c.len());
    let ghost sp = if https { after(raw@, 8) } else { after(raw@, 7) };
    assert(rest@ == sp);
    proof {
        lemma_index_of_first_bound(sp, '@');
    }
    let a = match find_char(rest.as_slice(), '@') {
        Some(a) => a,
        None => {
            assert(index_of_first(sp, '@') is None);
            return Err(owned("missing token segment (expect token@host:port/bucket/org)"));
        },
    };
    let token = slice_chars(rest.as_slice(), 0, a);
    let rest2 = slice_chars(rest.as_slice(), a + 1, rest.len());
    assert(index_of_first(sp, '@') == Some(a as nat));
    assert(rest2@ == after(sp, a + 1 as int));
    proof {
        lemma_index_of_first_bound(rest2@, '/');
    }
    let sl = match find_char(rest2.as_slice(), '/') {
        Some(sl) => sl,
        None => {
            assert(index_of_first(after(sp, a + 1 as int), '/') is None);
            assert(influx_parse(raw@, run_id@) == Err::<InfluxView, Seq<char>>("missing bucket path segment (expect host:port/bucket/org)"@));
            return Err(owned("missing bucket path segment (expect host:port/bucket/org)"));
        },
    };
    let host_port = slice_chars(rest2.as_slice(), 0, sl);
    let pq = slice_chars(rest2.as_slice(), sl + 1, rest2.len());
    proof {
        lemma_index_of_first_bound(pq@, '?');
    }
    let (path, query) = match find_char(pq.as_slice(), '?') {
        Some(q) => (slice_chars(pq.as_slice(), 0, q), slice_chars(pq.as_slice(), q + 1, pq.len())),
        None => (slice_chars(pq.as_slice(), 0, pq.len()), Vec::new()),
    };
    assert(pq@.subrange(0, pq@.len() as int) =~= pq@);
    let parts = split_chars(path.as_slice(), '/');
    proof {
        lemma_split_nonempty(path@, '/');
    }
    let ghost pv = parts@.map_values(|v: Vec<char>| v@);
    assert(pv[0] == parts@[0]@);
    let bucket = string_from_chars(parts[0].as_slice());
    let org = if parts.len() > 1 {
        assert(pv[1] == parts@[1]@);
        string_from_chars(parts[1].as_slice())
    } else {
        owned("default")
    };
    let mut tags = read_query_tags(query.as_slice());
    set_tag(&mut tags, owned("run_id"), owned(run_id));
    let scheme = if https {
        "https"
    } else {
        "http"
    };
    let hp = string_from_chars(host_port.as_slice());
    let url = concat3(scheme, "://", hp.as_str());
    let tok = string_from_chars(token.as_slice());
    Ok(InfluxConfig { url, token: tok, bucket, org, global_tags: tags })
}

/// Reads an ingest URL; the run is tagged `run_id` with the first 8
/// characters of a fresh random UUID.
pub fn parse_influx_url(raw: &str) -> (r: Result<InfluxConfig, String>)
    ensures
        exists|id: Seq<char>|
            #![trigger influx_parse(raw@, id)]
            id.len() == 8 && (forall|i: int| 0 <= i < 8 ==> id[i] != '-') && match influx_parse(
                raw@,
                id,
            ) {
                Ok(v) => r matches Ok(c) && influx_view(c) == v && unique_keys(c.global_tags@),
                Err(m) => r matches Err(e) && e@ == m,
            },
{
    let u = uuid_v4_string();
    let uc = str_chars(u.as_str());
    let first = slice_chars(uc.as_slice(), 0, 8);
    let id = string_from_chars(first.as_slice());
    let r = parse_influx_url_with(raw, id.as_str());
    assert(influx_parse(raw@, id@) == influx_parse(raw@, id@));
    r
}

// ---------------------------------------------------------------------------
// Running statistics
// ---------------------------------------------------------------------------

/// Running totals of the operations of one series. Spans are nanoseconds.
#[derive(Debug, Clone)]
pub struct AggregatedStats {
    pub bytes: i64,
    /// Objects moved (each operation's objects-per-operation summed).
    pub objects: u64,
    pub ops: usize,
    pub errors: usize,
    pub req_dur: u64,
    pub req_min: u64,
    pub req_max: u64,
    pub ttfb: u64,
    pub ttfb_min: u64,
    pub ttfb_max: u64,
}

impl Default for AggregatedStats {
    fn default() -> (r: AggregatedStats)
        ensures
            r == (AggregatedStats {
                bytes: 0,
                objects: 0,
                ops: 0,
                errors: 0,
                req_dur: 0,
                req_min: 0,
                req_max: 0,
                ttfb: 0,
                ttfb_min: 0,
                ttfb_max: 0,
            }),
    {
        AggregatedStats {
            bytes: 0,
            objects: 0,
            ops: 0,
            errors: 0,
            req_dur: 0,
            req_min: 0,
            req_max: 0,
            ttfb: 0,
            ttfb_min: 0,
            ttfb_max: 0,
        }
    }
}

/// The statistics after one more operation `o`.
pub open spec fn stats_after(s: AggregatedStats, o: Operation) -> AggregatedStats {
    let d = span(o.start, o.end) as u64;
    let with_req = AggregatedStats {
        bytes: (s.bytes + o.size) as i64,
        objects: (s.objects + o.obj_per_op) as u64,
        ops: (s.ops + 1) as usize,
        errors: if o.err@.len() == 0 {
            s.errors
        } else {
            (s.errors + 1) as usize
        },
        req_dur: (s.req_dur + d) as u64,
        req_min: if s.ops + 1 == 1 || d < s.req_min {
            d
        } else {
            s.req_min
        },
        req_max: if s.ops + 1 == 1 || d > s.req_max {
            d
        } else {
            s.req_max
        },
        ..s
    };
    match o.first_byte {
        Some(fb) => {
            let t = span(o.start, fb) as u64;
            AggregatedStats {
                ttfb: (s.ttfb + t) as u64,
                ttfb_min: if s.ttfb_min == 0 || s.ttfb_min > t {
                    t
                } else {
                    s.ttfb_min
                },
                ttfb_max: if t > s.ttfb_max {
                    t
                } else {
                    s.ttfb_max
                },
                ..with_req
            }
        },
        None => with_req,
    }
}

/// No total of `s` overflows when `o` is added.
pub open spec fn can_add(s: AggregatedStats, o: Operation) -> bool {
    &&& i64::MIN <= s.bytes + o.size <= i64::MAX
    &&& s.objects + o.obj_per_op <= u64::MAX
    &&& s.ops < usize::MAX
    &&& s.errors < usize::MAX
    &&& s.req_dur + span(o.start, o.end) <= u64::MAX
    &&& (o.first_byte matches Some(fb) ==> s.ttfb + span(o.start, fb) <= u64::MAX)
}

impl AggregatedStats {
    /// Counts one more operation.
    pub fn add_operation(&mut self, op: &Operation)
        requires
            can_add(*old(self), *op),
        ensures
            *final(self) == stats_after(*old(self), *op),
    {
        self.bytes = self.bytes + op.size;
        self.objects = self.objects + op.obj_per_op as u64;
        self.ops = self.ops + 1;
        if !op.successful() {
            self.errors = self.errors + 1;
        }
        let dur = op.duration();
        self.req_dur = self.req_dur + dur;
        if self.ops == 1 {
            self.req_min = dur;
            self.req_max = dur;
        } else {
            if dur < self.req_min {
                self.req_min = dur;
            }
            if dur > self.req_max {
                self.req_max = dur;
            }
        }
        match op.ttfb() {
            Some(t) => {
                self.ttfb = self.ttfb + t;
                if self.ttfb_min == 0 || self.ttfb_min > t {
                    self.ttfb_min = t;
                }
                if t > self.ttfb_max {
                    self.ttfb_max = t;
                }
            },
            None => {},
        }
    }
}

/// Statistics with nothing counted yet.
pub open spec fn fresh_stats() -> AggregatedStats {
    AggregatedStats {
        bytes: 0,
        objects: 0,
        ops: 0,
        errors: 0,
        req_dur: 0,
        req_min: 0,
        req_max: 0,
        ttfb: 0,
        ttfb_min: 0,
        ttfb_max: 0,
    }
}

/// Fresh statistics after counting each of `ops`, in order.
pub open spec fn stats_of(ops: Seq<Operation>) -> AggregatedStats
    decreases ops.len(),
{
    if ops.len() == 0 {
        fresh_stats()
    } else {
        stats_after(stats_of(ops.drop_last()), ops.last())
    }
}

/// The sizes of `ops` summed.
pub open spec fn sum_size(ops: Seq<Operation>) -> int
    decreases ops.len(),
{
    if ops.len() == 0 {
        0
    } else {
        sum_size(ops.drop_last()) + ops.last().size
    }
}

/// The objects of `ops` summed.
pub open spec fn sum_objects(ops: Seq<Operation>) -> nat
    decreases ops.len(),
{
    if ops.len() == 0 {
        0
    } else {
        sum_objects(ops.drop_last()) + ops.last().obj_per_op as nat
    }
}

/// How many of `ops` failed.
pub open spec fn count_failed(ops: Seq<Operation>) -> nat
    decreases ops.len(),
{
    if ops.len() == 0 {
        0
    } else {
        count_failed(ops.drop_last()) + if ops.last().err@.len() == 0 {
            0nat
        } else {
            1nat
        }
    }
}

/// The request spans of `ops` summed.
pub open spec fn sum_span(ops: Seq<Operation>) -> nat
    decreases ops.len(),
{
    if ops.len() == 0 {
        0
    } else {
        sum_span(ops.drop_last()) + span(ops.last().start, ops.last().end)
    }
}

/// The shortest request span of `ops` (0 for none).
pub open spec fn min_span(ops: Seq<Operation>) -> nat
    decreases ops.len(),
{
    if ops.len() == 0 {
        0
    } else {
        let d = span(ops.last().start, ops.last().end);
        if ops.len() == 1 || d < min_span(ops.drop_last()) {
            d
        } else {
            min_span(ops.drop_last())
        }
    }
}

/// The longest request span of `ops` (0 for none).
pub open spec fn max_span(ops: Seq<Operation>) -> nat
    decreases ops.len(),
{
    if ops.len() == 0 {
        0
    } else {
        let d = span(ops.last().start, ops.last().end);
        if ops.len() == 1 || d > max_span(ops.drop_last()) {
            d
        } else {
            max_span(ops.drop_last())
        }
    }
}

/// The times to first byte of `ops` (those that have one) summed.
pub open spec fn sum_ttfb(ops: Seq<Operation>) -> nat
    decreases ops.len(),
{
    if ops.len() == 0 {
        0
    } else {
        sum_ttfb(ops.drop_last()) + match ops.last().first_byte {
            Some(fb) => span(ops.last().start, fb),
            None => 0nat,
        }
    }
}

/// The longest time to first byte of `ops` (0 for none).
pub open spec fn max_ttfb(ops: Seq<Operation>) -> nat
    decreases ops.len(),
{
    if ops.len() == 0 {
        0
    } else {
        match ops.last().first_byte {
            Some(fb) => if span(ops.last().start, fb) > max_ttfb(ops.drop_last()) {
                span(ops.last().start, fb)
            } else {
                max_ttfb(ops.drop_last())
            },
            None => max_ttfb(ops.drop_last()),
        }
    }
}

/// No total overflows while `ops` are counted one by one.
pub open spec fn totals_fit(ops: Seq<Operation>) -> bool {
    &&& forall|n: int| 0 <= n <= ops.len() ==> i64::MIN <= #[trigger] sum_size(ops.take(n)) <= i64::MAX
    &&& sum_objects(ops) <= u64::MAX
    &&& ops.len() < usize::MAX
    &&& sum_span(ops) <= u64::MAX
    &&& sum_ttfb(ops) <= u64::MAX
}

/// Law: counting operations one by one into fresh statistics can always go
/// on while the totals fit, and then the statistics hold the totals of all
/// of them: bytes, objects, operations, failures, request time and its
/// extremes, time to first byte and its longest.
pub proof fn law_stats_totals(ops: Seq<Operation>)
    requires
        totals_fit(ops),
    ensures
        forall|n: int| 0 <= n < ops.len() ==> can_add(stats_of(#[trigger] ops.take(n)), ops[n]),
        stats_of(ops).bytes == sum_size(ops),
        stats_of(ops).objects == sum_objects(ops),
        stats_of(ops).ops == ops.len(),
        stats_of(ops).errors == count_failed(ops),
        stats_of(ops).req_dur == sum_span(ops),
        stats_of(ops).req_min == min_span(ops),
        stats_of(ops).req_max == max_span(ops),
        stats_of(ops).ttfb == sum_ttfb(ops),
        stats_of(ops).ttfb_max == max_ttfb(ops),
    decreases ops.len(),
{
    if ops.len() > 0 {
        let pre = ops.drop_last();
        let o = ops.last();
        assert forall|n: int| 0 <= n <= pre.len() implies i64::MIN <= #[trigger] sum_size(pre.take(n))
            <= i64::MAX by {
            assert(pre.take(n) =~= ops.take(n));
        }
        lemma_count_failed_le(pre);
        law_stats_totals(pre);
        assert(ops.take(ops.len() as int) =~= ops);
        assert(ops.take(pre.len() as int) =~= pre);
        assert(sum_size(ops.take(ops.len() as int)) == sum_size(pre) + o.size);
        assert(sum_objects(ops) == sum_objects(pre) + o.obj_per_op);
        assert(sum_span(ops) == sum_span(pre) + span(o.start, o.end));
        assert(o.first_byte matches Some(fb) ==> sum_ttfb(ops) == sum_ttfb(pre) + span(o.start, fb));
        assert(can_add(stats_of(pre), o));
        assert forall|n: int| 0 <= n < ops.len() implies can_add(stats_of(#[trigger] ops.take(n)), ops[n]) by {
            if n < pre.len() {
                assert(pre.take(n) =~= ops.take(n));
                assert(pre[n] == ops[n]);
            }
        }
    }
}

/// The time to first byte of `o`, where it has a first byte.
pub open spec fn ttfb_at(o: Operation) -> Option<nat> {
    match o.first_byte {
        Some(fb) => Some(span(o.start, fb)),
        None => None,
    }
}

/// Law: after counting operations into fresh statistics, the shortest time
/// to first byte is no longer than any recorded one and is one of them (0
/// when none was recorded), provided every recorded time is positive (a
/// zero time counts as "none yet" and is not kept).
pub proof fn law_ttfb_min(ops: Seq<Operation>)
    requires
        forall|k: int| 0 <= k < ops.len() ==> (#[trigger] ttfb_at(ops[k]) matches Some(t) ==> t > 0),
    ensures
        forall|k: int| 0 <= k < ops.len() ==> (#[trigger] ttfb_at(ops[k]) matches Some(t) ==> stats_of(ops).ttfb_min <= t),
        (exists|k: int| 0 <= k < ops.len() && #[trigger] ttfb_at(ops[k]) is Some) ==> exists|k: int|
            0 <= k < ops.len() && #[trigger] ttfb_at(ops[k]) == Some(stats_of(ops).ttfb_min as nat),
        (forall|k: int| 0 <= k < ops.len() ==> #[trigger] ttfb_at(ops[k]) is None) ==> stats_of(ops).ttfb_min == 0,
    decreases ops.len(),
{
    if ops.len() > 0 {
        let pre = ops.drop_last();
        let o = ops.last();
        let n = pre.len() as int;
        assert forall|k: int| 0 <= k < pre.len() implies (#[trigger] ttfb_at(pre[k]) matches Some(t) ==> t > 0) by {
            assert(pre[k] == ops[k]);
        }
        law_ttfb_min(pre);
        let m = stats_of(pre).ttfb_min;
        assert(ops[n] == o);
        let pre_some = exists|k: int| 0 <= k < pre.len() && #[trigger] ttfb_at(pre[k]) is Some;
        if pre_some {
            let j = choose|k: int| 0 <= k < pre.len() && #[trigger] ttfb_at(pre[k]) == Some(m as nat);
            assert(pre[j] == ops[j]);
            assert(m > 0);
        } else {
            assert forall|k: int| 0 <= k < pre.len() implies #[trigger] ttfb_at(pre[k]) is None by {}
            assert(m == 0);
        }
        match o.first_byte {
            Some(fb) => {
                let t = span(o.start, fb);
                assert(ttfb_at(ops[n]) == Some(t));
                assert(t <= u64::MAX);
                assert(t > 0);
                let r = stats_of(ops).ttfb_min;
                assert(r == if m == 0 || m > t { t as u64 } else { m });
                assert forall|k: int| 0 <= k < ops.len() implies (#[trigger] ttfb_at(ops[k]) matches Some(x) ==> r <= x) by {
                    if k < n {
                        assert(pre[k] == ops[k]);
                        if ttfb_at(pre[k]) is Some {
                            assert(pre_some);
                        }
                    }
                }
                if r == t {
                    assert(ttfb_at(ops[n]) == Some(r as nat));
                } else {
                    let j = choose|k: int| 0 <= k < pre.len() && #[trigger] ttfb_at(pre[k]) == Some(m as nat);
                    assert(pre[j] == ops[j]);
                    assert(ttfb_at(ops[j]) == Some(r as nat));
                }
            },
            None => {
                assert(ttfb_at(ops[n]) is None);
                assert(stats_of(ops).ttfb_min == m);
                assert forall|k: int| 0 <= k < ops.len() implies (#[trigger] ttfb_at(ops[k]) matches Some(x) ==> m <= x) by {
                    if k < n {
                        assert(pre[k] == ops[k]);
                    }
                }
                if exists|k: int| 0 <= k < ops.len() && #[trigger] ttfb_at(ops[k]) is Some {
                    let i = choose|k: int| 0 <= k < ops.len() && #[trigger] ttfb_at(ops[k]) is Some;
                    assert(i < n);
                    assert(pre[i] == ops[i]);
                    assert(ttfb_at(pre[i]) is Some);
                    let j = choose|k: int| 0 <= k < pre.len() && #[trigger] ttfb_at(pre[k]) == Some(m as nat);
                    assert(pre[j] == ops[j]);
                    assert(ttfb_at(ops[j]) == Some(m as nat));
                }
                if forall|k: int| 0 <= k < ops.len() ==> #[trigger] ttfb_at(ops[k]) is None {
                    assert forall|k: int| 0 <= k < pre.len() implies #[trigger] ttfb_at(pre[k]) is None by {
                        assert(pre[k] == ops[k]);
                        assert(ttfb_at(ops[k]) is None);
                    }
                }
            },
        }
    }
}

proof fn lemma_count_failed_le(ops: Seq<Operation>)
    ensures
        count_failed(ops) <= ops.len(),
    decreases ops.len(),
{
    if ops.len() > 0 {
        lemma_count_failed_le(ops.drop_last());
    }
}

/// After any operations, the shortest request is no longer than the longest.
pub proof fn law_stats_min_le_max(s: AggregatedStats, o: Operation)
    requires
        s.ops == 0 || s.req_min <= s.req_max,
        can_add(s, o),
    ensures
        stats_after(s, o).req_min <= stats_after(s, o).req_max,
        stats_after(s, o).ops == s.ops + 1,
        stats_after(s, o).errors <= stats_after(s, o).ops || s.errors > s.ops,
{
}

} // verus!
