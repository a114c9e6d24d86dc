//! Control-plane types of distributed runs (coordinator and remote agents),
//! and the expansion of agent host lists such as `host{1...3}:7761`.
use vstd::prelude::*;
use vstd::seq_lib::lemma_flatten_concat;
use crate::num::{dec_str, fmt_usize, lemma_dec_str_value, parse_usize, parse_usize_spec};
use crate::text::{
    concat2, concat3, find_char, find_seq, first_occurrence, index_of_first, owned, slice_chars,
    split_chars, split_spec, string_from_chars, str_chars, trim_chars, trim_spec, views, is_ws, lemma_trim_ends,
    lemma_trim_fixed, lemma_trim_bounds,
};

verus! {

/// Version of the coordinator protocol spoken by this build.
pub const COORD_PROTOCOL_VERSION: u32 = 1;

// ---------------------------------------------------------------------------
// ServerInfo
// ---------------------------------------------------------------------------

/// What a coordinator announces to an agent when it connects.
#[derive(Debug, Clone)]
pub struct ServerInfo {
    pub id: String,
    pub secret: String,
    pub version: u32,
}

/// The message for a protocol version other than ours.
pub open spec fn version_mismatch_msg(v: u32) -> Seq<char> {
    "version mismatch: server="@ + dec_str(v as nat) + ", client="@ + dec_str(
        COORD_PROTOCOL_VERSION as nat,
    )
}

impl ServerInfo {
    /// Accepts an announcement with a non-empty id and our protocol version.
    pub fn validate(&self) -> (r: Result<(), String>)
        ensures
            self.id@.len() == 0 ==> (r matches Err(e) && e@ == "no server id sent"@),
            self.id@.len() > 0 && self.version != COORD_PROTOCOL_VERSION ==> (r matches Err(e)
                && e@ == version_mismatch_msg(self.version)),
            self.id@.len() > 0 && self.version == COORD_PROTOCOL_VERSION ==> r is Ok,
    {
        if self.id.as_str().is_empty() {
            return Err(owned("no server id sent"));
        }
        if self.version != COORD_PROTOCOL_VERSION {
            let v = fmt_usize(self.version as usize);
            let c = fmt_usize(COORD_PROTOCOL_VERSION as usize);
            let a = concat3("version mismatch: server=", v.as_str(), ", client=");
            return Err(concat2(a.as_str(), c.as_str()));
        }
        Ok(())
    }
}

// ---------------------------------------------------------------------------
// Requests and replies
// ---------------------------------------------------------------------------

/// Operation a coordinator asks of an agent.
#[derive(Debug, Clone, Copy, PartialEq, Eq, Structural)]
pub enum ServerRequestOp {
    Disconnect,
    Benchmark,
    StartStage,
    StageStatus,
    StageAbort,
    SendOps,
}

/// The benchmark an agent is asked to run.
#[derive(Debug, Clone)]
pub struct BenchmarkConfig {
    pub command: String,
    /// Flag names and values, each name at most once.
    pub flags: Vec<(String, String)>,
    pub args: Vec<String>,
}

/// Kind of an agent's reply.
#[derive(Debug, Clone, Copy, PartialEq, Eq, Structural)]
pub enum ClientReplyType {
    BenchmarkStarted,
    BenchmarkStatus,
    AbortRequested,
    Ops,
}

/// Progress that an agent reports in a reply.
#[derive(Debug, Clone, Copy, PartialEq, Eq, Structural)]
pub enum StageProgress {
    /// Nothing done (0.0).
    Zero,
    /// Half done (0.5).
    Half,
    /// Done (1.0).
    Full,
}

/// The content of an agent's reply to a request, time stamp aside.
#[derive(Debug, Clone, Copy, PartialEq, Eq, Structural)]
pub struct ReplyPlan {
    pub reply_type: ClientReplyType,
    pub progress: StageProgress,
    pub started: bool,
    pub finished: bool,
    /// The reply carries an (empty) list of operations.
    pub carries_ops: bool,
}

/// How an agent answers each kind of request.
pub open spec fn reply_plan_spec(op: ServerRequestOp) -> ReplyPlan {
    match op {
        ServerRequestOp::Disconnect => ReplyPlan {
            reply_type: ClientReplyType::BenchmarkStatus,
            progress: StageProgress::Full,
            started: false,
            finished: true,
            carries_ops: false,
        },
        ServerRequestOp::Benchmark => ReplyPlan {
            reply_type: ClientReplyType::BenchmarkStarted,
            progress: StageProgress::Zero,
            started: true,
            finished: false,
            carries_ops: false,
        },
        ServerRequestOp::StageStatus => ReplyPlan {
            reply_type: ClientReplyType::BenchmarkStatus,
            progress: StageProgress::Half,
            started: true,
            finished: true,
            carries_ops: false,
        },
        ServerRequestOp::SendOps => ReplyPlan {
            reply_type: ClientReplyType::Ops,
            progress: StageProgress::Full,
            started: false,
            finished: true,
            carries_ops: true,
        },
        _ => ReplyPlan {
            reply_type: ClientReplyType::BenchmarkStatus,
            progress: StageProgress::Zero,
            started: false,
            finished: false,
            carries_ops: false,
        },
    }
}

/// The reply an agent sends for a request of kind `op`.
pub fn reply_plan(op: ServerRequestOp) -> (r: ReplyPlan)
    ensures
        r == reply_plan_spec(op),
{
    match op {
        ServerRequestOp::Disconnect => ReplyPlan {
            reply_type: ClientReplyType::BenchmarkStatus,
            progress: StageProgress::Full,
            started: false,
            finished: true,
            carries_ops: false,
        },
        ServerRequestOp::Benchmark => ReplyPlan {
            reply_type: ClientReplyType::BenchmarkStarted,
            progress: StageProgress::Zero,
            started: true,
            finished: false,
            carries_ops: false,
        },
        ServerRequestOp::StageStatus => ReplyPlan {
            reply_type: ClientReplyType::BenchmarkStatus,
            progress: StageProgress::Half,
            started: true,
            finished: true,
            carries_ops: false,
        },
        ServerRequestOp::SendOps => ReplyPlan {
            reply_type: ClientReplyType::Ops,
            progress: StageProgress::Full,
            started: false,
            finished: true,
            carries_ops: true,
        },
        _ => ReplyPlan {
            reply_type: ClientReplyType::BenchmarkStatus,
            progress: StageProgress::Zero,
            started: false,
            finished: false,
            carries_ops: false,
        },
    }
}

// ---------------------------------------------------------------------------
// Host lists
// ---------------------------------------------------------------------------

/// `v` if present, else `d`.
pub open spec fn unwrap_or_usize(v: Option<usize>, d: usize) -> usize {
    match v {
        Some(x) => x,
        None => d,
    }
}

/// The hosts that `{lo...hi}` expands to, between `prefix` and `suffix`.
pub open spec fn range_hosts(prefix: Seq<char>, lo: usize, hi: usize, suffix: Seq<char>) -> Seq<Seq<char>> {
    Seq::new(
        if hi >= lo {
            (hi - lo + 1) as nat
        } else {
            0
        },
        |k: int| prefix + dec_str((lo + k) as nat) + suffix,
    )
}

/// The hosts that one host pattern stands for: the first `{lo...hi}` range
/// (after the first `{`, closed by the next `}`) expands to one host per
/// number, an unparsable `lo` counting as 1 and an unparsable `hi` as `lo`;
/// a pattern without such a range stands for itself.
pub open spec fn brace_expansion(s: Seq<char>) -> Seq<Seq<char>> {
    match index_of_first(s, '{') {
        Some(start) => match index_of_first(s.subrange(start as int, s.len() as int), '}') {
            Some(e) => {
                let end = start + e;
                let range = s.subrange((start + 1) as int, end as int);
                match first_occurrence(range, "..."@) {
                    Some(dot) => {
                        let lo = unwrap_or_usize(parse_usize_spec(range.subrange(0, dot as int)), 1);
                        let hi = unwrap_or_usize(
                            parse_usize_spec(range.subrange((dot + 3) as int, range.len() as int)),
                            lo,
                        );
                        range_hosts(s.subrange(0, start as int), lo, hi, s.subrange((end + 1) as int, s.len() as int))
                    },
                    None => seq![s],
                }
            },
            None => seq![s],
        },
        None => seq![s],
    }
}

/// The hosts of a comma-separated host list: each piece trimmed, empty pieces
/// dropped, each remaining piece brace-expanded.
pub open spec fn parse_hosts_spec(input: Seq<char>) -> Seq<Seq<char>> {
    split_spec(input, ',').map_values(|p: Seq<char>| host_piece(p)).flatten()
}

/// The hosts one comma-separated piece stands for.
pub open spec fn host_piece(p: Seq<char>) -> Seq<Seq<char>> {
    if trim_spec(p).len() == 0 {
        Seq::<Seq<char>>::empty()
    } else {
        brace_expansion(trim_spec(p))
    }
}

proof fn lemma_index_of_first_join(a: Seq<char>, b: Seq<char>, c: char)
    ensures
        index_of_first(a + seq![c] + b, c) == (match index_of_first(a, c) {
            Some(i) => Some(i),
            None => Some(a.len()),
        }),
    decreases a.len(),
{
    let s = a + seq![c] + b;
    if a.len() > 0 && a[0] != c {
        lemma_index_of_first_join(a.drop_first(), b, c);
        assert(s.drop_first() =~= a.drop_first() + seq![c] + b);
    } else if a.len() == 0 {
        assert(s[0] == c);
    }
}

proof fn lemma_split_join(a: Seq<char>, b: Seq<char>, c: char)
    ensures
        split_spec(a + seq![c] + b, c) == split_spec(a, c) + split_spec(b, c),
    decreases a.len(),
{
    let s = a + seq![c] + b;
    lemma_index_of_first_join(a, b, c);
    lemma_index_bound(a, c);
    match index_of_first(a, c) {
        Some(i) => {
            let rest = a.subrange((i + 1) as int, a.len() as int);
            lemma_split_join(rest, b, c);
            assert(s.subrange(0, i as int) =~= a.subrange(0, i as int));
            assert(s.subrange((i + 1) as int, s.len() as int) =~= rest + seq![c] + b);
            assert(split_spec(s, c) =~= seq![a.subrange(0, i as int)] + (split_spec(rest, c) + split_spec(
                b,
                c,
            )));
        },
        None => {
            assert(s.subrange(0, a.len() as int) =~= a);
            assert(s.subrange((a.len() + 1) as int, s.len() as int) =~= b);
            assert(split_spec(s, c) =~= seq![a] + split_spec(b, c));
        },
    }
}

/// Law: the hosts of two lists joined by a comma are the hosts of the first
/// followed by the hosts of the second.
pub proof fn law_parse_hosts_join(a: Seq<char>, b: Seq<char>)
    ensures
        parse_hosts_spec(a + seq![','] + b) == parse_hosts_spec(a) + parse_hosts_spec(b),
{
    let f = |p: Seq<char>| host_piece(p);
    lemma_split_join(a, b, ',');
    let pa = split_spec(a, ',');
    let pb = split_spec(b, ',');
    assert((pa + pb).map_values(f) =~= pa.map_values(f) + pb.map_values(f));
    lemma_flatten_concat(pa.map_values(f), pb.map_values(f));
}

/// A host name as the list yields it: not empty, and neither starting nor
/// ending with white space (so trimming leaves it as it is).
pub open spec fn clean_host(h: Seq<char>) -> bool {
    h.len() > 0 && !is_ws(h[0]) && !is_ws(h.last())
}

proof fn lemma_digits_not_ws(n: nat)
    ensures
        dec_str(n).len() > 0,
        !is_ws(dec_str(n)[0]),
        !is_ws(dec_str(n).last()),
{
    lemma_dec_str_value(n);
    assert('0' <= dec_str(n)[0] <= '9');
    assert('0' <= dec_str(n)[dec_str(n).len() - 1] <= '9');
}

proof fn lemma_brace_clean(t: Seq<char>)
    requires
        clean_host(t),
    ensures
        forall|k: int| 0 <= k < brace_expansion(t).len() ==> clean_host(#[trigger] brace_expansion(t)[k]),
{
    lemma_index_bound(t, '{');
    match index_of_first(t, '{') {
        Some(start) => {
            let rest = t.subrange(start as int, t.len() as int);
            lemma_index_bound(rest, '}');
            match index_of_first(rest, '}') {
                Some(e) => {
                    let end = start + e;
                    let range = t.subrange((start + 1) as int, end as int);
                    match first_occurrence(range, "..."@) {
                        Some(dot) => {
                            let lo = unwrap_or_usize(parse_usize_spec(range.subrange(0, dot as int)), 1);
                            let hi = unwrap_or_usize(
                                parse_usize_spec(range.subrange((dot + 3) as int, range.len() as int)),
                                lo,
                            );
                            let pre = t.subrange(0, start as int);
                            let suf = t.subrange((end + 1) as int, t.len() as int);
                            assert forall|k: int| 0 <= k < range_hosts(pre, lo, hi, suf).len() implies clean_host(
                                #[trigger] range_hosts(pre, lo, hi, suf)[k],
                            ) by {
                                let d = dec_str((lo + k) as nat);
                                lemma_digits_not_ws((lo + k) as nat);
                                let h = pre + d + suf;
                                assert(range_hosts(pre, lo, hi, suf)[k] == h);
                                if pre.len() > 0 {
                                    assert(h[0] == t[0]);
                                } else {
                                    assert(h[0] == d[0]);
                                }
                                if suf.len() > 0 {
                                    assert(h.last() == suf.last());
                                    assert(suf.last() == t.last());
                                } else {
                                    assert(h.last() == d.last());
                                }
                            }
                        },
                        None => {},
                    }
                },
                None => {},
            }
        },
        None => {},
    }
}

proof fn lemma_flatten_clean(rows: Seq<Seq<Seq<char>>>)
    requires
        forall|j: int, k: int| 0 <= j < rows.len() && 0 <= k < rows[j].len() ==> clean_host(#[trigger] rows[j][k]),
    ensures
        forall|i: int| 0 <= i < rows.flatten().len() ==> clean_host(#[trigger] rows.flatten()[i]),
    decreases rows.len(),
{
    if rows.len() > 0 {
        let rest = rows.drop_first();
        assert forall|j: int, k: int| 0 <= j < rest.len() && 0 <= k < rest[j].len() implies clean_host(
            #[trigger] rest[j][k],
        ) by {
            assert(rest[j] == rows[j + 1]);
        }
        lemma_flatten_clean(rest);
        assert(rows.flatten() == rows.first() + rest.flatten());
        assert forall|i: int| 0 <= i < rows.flatten().len() implies clean_host(#[trigger] rows.flatten()[i]) by {
            if i < rows.first().len() {
                assert(rows.flatten()[i] == rows[0][i]);
            } else {
                assert(rows.flatten()[i] == rest.flatten()[i - rows.first().len()]);
            }
        }
    }
}

/// Law: every host of a host list is non-empty and its own trim, and an
/// empty list has no hosts.
pub proof fn law_hosts_clean(input: Seq<char>)
    ensures
        forall|i: int| 0 <= i < parse_hosts_spec(input).len() ==> clean_host(#[trigger] parse_hosts_spec(input)[i])
            && trim_spec(parse_hosts_spec(input)[i]) == parse_hosts_spec(input)[i],
        input.len() == 0 ==> parse_hosts_spec(input).len() == 0,
{
    let f = |p: Seq<char>| host_piece(p);
    let pieces = split_spec(input, ',');
    let rows = pieces.map_values(f);
    assert forall|j: int, k: int| 0 <= j < rows.len() && 0 <= k < rows[j].len() implies clean_host(
        #[trigger] rows[j][k],
    ) by {
        let t = trim_spec(pieces[j]);
        lemma_trim_ends(pieces[j]);
        if t.len() > 0 {
            lemma_brace_clean(t);
        }
    }
    lemma_flatten_clean(rows);
    assert forall|i: int| 0 <= i < parse_hosts_spec(input).len() implies trim_spec(
        #[trigger] parse_hosts_spec(input)[i],
    ) == parse_hosts_spec(input)[i] by {
        lemma_trim_fixed(parse_hosts_spec(input)[i]);
    }
    if input.len() == 0 {
        assert(split_spec(input, ',') =~= seq![input]);
        assert(trim_spec(input).len() == 0) by {
            lemma_trim_bounds(input);
        }
        assert(rows =~= seq![Seq::<Seq<char>>::empty()]);
        assert(rows.flatten() =~= Seq::<Seq<char>>::empty()) by {
            assert(rows.len() == 1);
            assert(rows.first() =~= Seq::<Seq<char>>::empty());
            assert(rows.drop_first() =~= Seq::<Seq<Seq<char>>>::empty());
            assert(rows.drop_first().flatten() =~= Seq::<Seq<char>>::empty());
            assert(rows.flatten() == rows.first() + rows.drop_first().flatten());
        }
    }
}

proof fn lemma_index_bound(s: Seq<char>, c: char)
    ensures
        index_of_first(s, c) matches Some(i) ==> i < s.len(),
    decreases s.len(),
{
    if s.len() > 0 && s[0] != c {
        lemma_index_bound(s.drop_first(), c);
    }
}

proof fn lemma_occurrence_bound(hay: Seq<char>, needle: Seq<char>)
    ensures
        first_occurrence(hay, needle) matches Some(i) ==> i + needle.len() <= hay.len(),
    decreases hay.len(),
{
    if !(0 + needle.len() <= hay.len() && hay.subrange(0, needle.len() as int) == needle)
        && hay.len() > 0 {
        lemma_occurrence_bound(hay.drop_first(), needle);
    }
}

/// Appends `prefix<i>suffix` for every `i` in `lo..=hi` to `out`.
fn push_range(out: &mut Vec<String>, prefix: &[char], lo: usize, hi: usize, suffix: &[char])
    ensures
        views(final(out)@) == views(old(out)@) + range_hosts(prefix@, lo, hi, suffix@),
{
    let ghost start = views(out@);
    let ghost all = range_hosts(prefix@, lo, hi, suffix@);
    if hi < lo {
        assert(all =~= Seq::<Seq<char>>::empty());
        assert(views(out@) =~= start + all);
        return ;
    }
    let p = string_from_chars(prefix);
    let sfx = string_from_chars(suffix);
    let mut i: usize = lo;
    loop
        invariant_except_break
            views(out@) == start + all.subrange(0, (i - lo) as int),
        invariant
            lo <= i <= hi,
            p@ == prefix@,
            sfx@ == suffix@,
            all == range_hosts(prefix@, lo, hi, suffix@),
        ensures
            views(out@) == start + all,
        decreases hi - i,
    {
        let n = fmt_usize(i);
        let h = concat3(p.as_str(), n.as_str(), sfx.as_str());
        let ghost old_out = out@;
        out.push(h);
        proof {
            assert(views(out@) =~= views(old_out).push(h@));
            assert(all[(i - lo) as int] == h@);
            assert(all.subrange(0, (i - lo + 1) as int) =~= all.subrange(0, (i - lo) as int).push(
                h@,
            ));
        }
        if i == hi {
            assert(all.subrange(0, (i - lo + 1) as int) =~= all);
            break;
        }
        i = i + 1;
    }
}

/// The hosts that one host pattern stands for (see [`brace_expansion`]).
pub fn expand_brace(s: &[char]) -> (r: Vec<String>)
    ensures
        views(r@) == brace_expansion(s@),
{
    let mut out: Vec<String> = Vec::new();
    proof {
        lemma_index_bound(s@, '{');
    }
    if let Some(start) = find_char(s, '{') {
        let rest = slice_chars(s, start, s.len());
        proof {
            lemma_index_bound(rest@, '}');
        }
        if let Some(e) = find_char(rest.as_slice(), '}') {
            let end = start + e;
            let range = slice_chars(s, start + 1, end);
            assert(range@ == s@.subrange(start + 1, end as int));
            let dots = str_chars("...");
            proof {
                lemma_occurrence_bound(range@, dots@);
            }
            if let Some(dot) = find_seq(range.as_slice(), dots.as_slice()) {
                proof {
                    reveal_strlit("...");
                }
                let lo_txt = slice_chars(range.as_slice(), 0, dot);
                let hi_txt = slice_chars(range.as_slice(), dot + 3, range.len());
                let lo: usize = match parse_usize(lo_txt.as_slice()) {
                    Some(v) => v,
                    None => 1,
                };
                let hi: usize = match parse_usize(hi_txt.as_slice()) {
                    Some(v) => v,
                    None => lo,
                };
                let prefix = slice_chars(s, 0, start);
                let suffix = slice_chars(s, end + 1, s.len());
                push_range(&mut out, prefix.as_slice(), lo, hi, suffix.as_slice());
                assert(views(out@) =~= brace_expansion(s@));
                return out;
            }
        }
    }
    out.push(string_from_chars(s));
    assert(views(out@) =~= brace_expansion(s@));
    out
}

/// The hosts of a comma-separated host list (see [`parse_hosts_spec`]).
pub fn parse_hosts(input: &str) -> (r: Vec<String>)
    ensures
        views(r@) == parse_hosts_spec(input@),
{
    let chars = str_chars(input);
    let pieces = split_chars(chars.as_slice(), ',');
    let ghost rows = split_spec(input@, ',').map_values(|p: Seq<char>| host_piece(p));
    let mut out: Vec<String> = Vec::new();
    let mut i: usize = 0;
    while i < pieces.len()
        invariant
            i <= pieces@.len(),
            pieces@.map_values(|v: Vec<char>| v@) == split_spec(input@, ','),
            rows == split_spec(input@, ',').map_values(|p: Seq<char>| host_piece(p)),
            views(out@) == rows.subrange(0, i as int).flatten(),
        decreases pieces@.len() - i,
    {
        let t = trim_chars(pieces[i].as_slice());
        let ghost row = rows[i as int];
        assert(pieces@.map_values(|v: Vec<char>| v@)[i as int] == pieces@[i as int]@);
        assert(row == host_piece(pieces@[i as int]@));
        assert(t@ == trim_spec(pieces@[i as int]@));
        let ghost before = views(out@);
        if t.len() > 0 {
            assert(row == brace_expansion(t@));
            let hosts = expand_brace(t.as_slice());
            let mut k: usize = 0;
            while k < hosts.len()
                invariant
                    k <= hosts@.len(),
                    views(out@) == before + views(hosts@).subrange(0, k as int),
                decreases hosts@.len() - k,
            {
                let h = hosts[k].clone();
                let ghost old_out = out@;
                out.push(h);
                proof {
                    assert(views(out@) =~= views(old_out).push(h@));
                    assert(views(hosts@).subrange(0, k + 1) =~= views(hosts@).subrange(
                        0,
                        k as int,
                    ).push(h@));
                }
                k = k + 1;
            }
            assert(views(hosts@).subrange(0, hosts@.len() as int) =~= views(hosts@));
            assert(views(out@) == before + row);
        } else {
            assert(t@.len() == 0);
            assert(row == Seq::<Seq<char>>::empty());
            assert(views(out@) =~= before + row);
        }
        proof {
            crate::tree::lemma_flatten_push(rows.subrange(0, i as int), row);
            assert(rows.subrange(0, i + 1) =~= rows.subrange(0, i as int).push(row));
        }
        i = i + 1;
    }
    assert(rows.subrange(0, pieces@.len() as int) =~= rows);
    out
}

/// A host list without braces and without empty pieces lists exactly its
/// trimmed comma-separated pieces.
pub proof fn law_plain_hosts(input: Seq<char>)
    requires
        forall|i: int| 0 <= i < input.len() ==> input[i] != '{',
        forall|p: Seq<char>| #[trigger] split_spec(input, ',').contains(p) ==> trim_spec(p).len() > 0,
    ensures
        parse_hosts_spec(input) == split_spec(input, ',').map_values(|p: Seq<char>| trim_spec(p)),
{
    let pieces = split_spec(input, ',');
    let rows = pieces.map_values(|p: Seq<char>| host_piece(p));
    let g = |p: Seq<char>| trim_spec(p);
    assert forall|j: int| 0 <= j < pieces.len() implies #[trigger] rows[j] == seq![g(pieces[j])] by {
        assert(pieces.contains(pieces[j]));
        lemma_split_piece_has_no(input, ',', '{', j);
        lemma_trim_sub(pieces[j]);
        lemma_no_brace_index(trim_spec(pieces[j]));
    }
    lemma_flatten_singletons(rows, pieces.map_values(g));
}

proof fn lemma_no_brace_index(s: Seq<char>)
    requires
        forall|i: int| 0 <= i < s.len() ==> s[i] != '{',
    ensures
        index_of_first(s, '{') is None,
    decreases s.len(),
{
    if s.len() > 0 {
        assert forall|i: int| 0 <= i < s.drop_first().len() implies s.drop_first()[i] != '{' by {
            assert(s.drop_first()[i] == s[i + 1]);
        }
        lemma_no_brace_index(s.drop_first());
    }
}

/// A trimmed piece holds only characters of the piece.
proof fn lemma_trim_sub(p: Seq<char>)
    ensures
        forall|i: int| 0 <= i < trim_spec(p).len() ==> exists|j: int|
            0 <= j < p.len() && #[trigger] trim_spec(p)[i] == p[j],
{
    crate::text::lemma_trim_bounds(p);
    let lo = crate::text::lead_ws(p) as int;
    assert forall|i: int| 0 <= i < trim_spec(p).len() implies exists|j: int|
        0 <= j < p.len() && #[trigger] trim_spec(p)[i] == p[j] by {
        assert(trim_spec(p)[i] == p[lo + i]);
    }
}

/// The pieces of a split hold only characters of the input.
proof fn lemma_split_piece_has_no(s: Seq<char>, c: char, bad: char, j: int)
    requires
        forall|i: int| 0 <= i < s.len() ==> s[i] != bad,
        0 <= j < split_spec(s, c).len(),
    ensures
        forall|i: int| 0 <= i < split_spec(s, c)[j].len() ==> split_spec(s, c)[j][i] != bad,
    decreases s.len(),
{
    lemma_index_bound(s, c);
    match index_of_first(s, c) {
        Some(k) => {
            let tail = s.subrange((k + 1) as int, s.len() as int);
            if j == 0 {
                assert forall|i: int| 0 <= i < split_spec(s, c)[j].len() implies split_spec(s, c)[j][i]
                    != bad by {
                    assert(split_spec(s, c)[j][i] == s[i]);
                }
            } else {
                assert forall|i: int| 0 <= i < tail.len() implies tail[i] != bad by {
                    assert(tail[i] == s[k + 1 + i]);
                }
                assert(split_spec(s, c)[j] == split_spec(tail, c)[j - 1]);
                lemma_split_piece_has_no(tail, c, bad, j - 1);
            }
        },
        None => {},
    }
}

proof fn lemma_flatten_singletons(rows: Seq<Seq<Seq<char>>>, items: Seq<Seq<char>>)
    requires
        rows.len() == items.len(),
        forall|j: int| 0 <= j < rows.len() ==> #[trigger] rows[j] == seq![items[j]],
    ensures
        rows.flatten() == items,
    decreases rows.len(),
{
    if rows.len() > 0 {
        let r2 = rows.drop_first();
        let i2 = items.drop_first();
        assert forall|j: int| 0 <= j < r2.len() implies #[trigger] r2[j] == seq![i2[j]] by {
            assert(r2[j] == rows[j + 1]);
        }
        lemma_flatten_singletons(r2, i2);
        assert(rows.flatten() == rows.first() + r2.flatten());
        assert(seq![items[0]] + i2 =~= items);
    } else {
        assert(items =~= Seq::<Seq<char>>::empty());
    }
}

} // verus!
