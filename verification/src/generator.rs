//! Test data: object size strategies, a seekable pseudo-random byte stream,
//! and object sources that name and size the objects a benchmark uploads.
use vstd::prelude::*;
use crate::num::{
    dec_str, fmt_usize,
    int_error_message, int_error_text, int_from_str, parse_int, radix_str, render_radix, zero_pad,
    pad_zeros, IntErrorKind,
};
use crate::random::{rng_below, small_rng_from_seed};
use crate::text::{
    concat2, concat3, index_of_first, owned, seq_contains, slice_chars, split_chars, split_spec,
    str_chars, string_from_chars, find_char,
};

verus! {

// ---------------------------------------------------------------------------
// Object sizes
// ---------------------------------------------------------------------------

/// How big generated objects are.
#[derive(Debug, Clone)]
pub enum ObjSize {
    /// Every object has this size.
    Fixed(i64),
    /// Sizes `1..=max` (1 when `max` is below 1), drawn from
    /// `1..=2^floor(log2(max + 1))` and kept within `max`.
    Random { max: i64 },
    /// Sizes drawn from `(size, weight)` buckets in proportion to the weights.
    Bucketed { buckets: Vec<(i64, u64)>, total_weight: u64 },
}

/// A parsed object size, as plain values.
pub enum ObjSizeView {
    Fixed(int),
    Random(int),
    Bucketed(Seq<(int, int)>, int),
}

impl View for ObjSize {
    type V = ObjSizeView;

    open spec fn view(&self) -> ObjSizeView {
        match self {
            ObjSize::Fixed(s) => ObjSizeView::Fixed(*s as int),
            ObjSize::Random { max } => ObjSizeView::Random(*max as int),
            ObjSize::Bucketed { buckets, total_weight } => ObjSizeView::Bucketed(
                buckets@.map_values(|b: (i64, u64)| (b.0 as int, b.1 as int)),
                *total_weight as int,
            ),
        }
    }
}

/// `i64` parsing as std does it.
pub open spec fn i64_from_str(s: Seq<char>) -> Result<int, IntErrorKind> {
    int_from_str(s, true, i64::MIN as int, i64::MAX as int)
}

/// `u64` parsing as std does it.
pub open spec fn u64_from_str(s: Seq<char>) -> Result<int, IntErrorKind> {
    int_from_str(s, false, 0, u64::MAX as int)
}

/// Outcome of reading bucket parts `parts[i..]` with `total` weight so far.
pub enum BucketScan {
    Done(Seq<(int, int)>, int),
    Failed(Seq<char>),
    /// The running weight total left `u64`, where the original code overflows.
    Overflow,
}

/// Reads `size:weight` parts one after the other, stopping at the first
/// malformed part or at the first weight that makes the total overflow.
pub open spec fn scan_buckets(parts: Seq<Seq<char>>, i: nat, total: int) -> BucketScan
    decreases parts.len() - i,
{
    if i >= parts.len() {
        BucketScan::Done(Seq::empty(), total)
    } else {
        let part = parts[i as int];
        match index_of_first(part, ':') {
            None => BucketScan::Failed("invalid bucket spec `"@ + part + "`"@),
            Some(c) => match i64_from_str(part.subrange(0, c as int)) {
                Err(e) => BucketScan::Failed("invalid object size in bucket: "@ + int_error_text(e)),
                Ok(size) => match u64_from_str(part.subrange((c + 1) as int, part.len() as int)) {
                    Err(e) => BucketScan::Failed("invalid bucket weight: "@ + int_error_text(e)),
                    Ok(w) => if total + w > u64::MAX {
                        BucketScan::Overflow
                    } else {
                        match scan_buckets(parts, i + 1, total + w) {
                            BucketScan::Done(rest, t) => BucketScan::Done(seq![(size, w)] + rest, t),
                            other => other,
                        }
                    },
                },
            },
        }
    }
}

/// What `ObjSize::parse` gives for `s`, or `None` where the original code
/// overflows its weight total.
pub open spec fn obj_size_parse(s: Seq<char>) -> Option<Result<ObjSizeView, Seq<char>>> {
    if s.len() >= 5 && s.subrange(0, 5) == "rand:"@ {
        match i64_from_str(s.subrange(5, s.len() as int)) {
            Ok(m) => Some(Ok(ObjSizeView::Random(m))),
            Err(e) => Some(Err("invalid random suffix max bytes: "@ + int_error_text(e))),
        }
    } else if index_of_first(s, ':') is Some {
        match scan_buckets(split_spec(s, ','), 0, 0) {
            BucketScan::Done(b, t) => Some(Ok(ObjSizeView::Bucketed(b, t))),
            BucketScan::Failed(m) => Some(Err(m)),
            BucketScan::Overflow => None,
        }
    } else {
        match i64_from_str(s) {
            Ok(v) => Some(Ok(ObjSizeView::Fixed(v))),
            Err(e) => Some(Err("invalid fixed object size: "@ + int_error_text(e))),
        }
    }
}

/// `ObjSize::parse` gives an answer (does not overflow its weight total).
pub open spec fn obj_size_parse_defined(s: Seq<char>) -> bool {
    obj_size_parse(s) is Some
}

/// The result of a parse, as plain values.
pub open spec fn parse_result_view(r: Result<ObjSize, String>) -> Result<ObjSizeView, Seq<char>> {
    match r {
        Ok(o) => Ok(o@),
        Err(e) => Err(e@),
    }
}

fn read_i64(s: &[char]) -> (r: Result<i64, IntErrorKind>)
    ensures
        match i64_from_str(s@) {
            Ok(v) => r matches Ok(x) && x as int == v,
            Err(k) => r == Err::<i64, IntErrorKind>(k),
        },
{
    match parse_int(s, true, i64::MIN as i128, i64::MAX as i128) {
        Ok(v) => Ok(v as i64),
        Err(k) => Err(k),
    }
}

fn read_u64(s: &[char]) -> (r: Result<u64, IntErrorKind>)
    ensures
        match u64_from_str(s@) {
            Ok(v) => r matches Ok(x) && x as int == v,
            Err(k) => r == Err::<u64, IntErrorKind>(k),
        },
{
    match parse_int(s, false, 0, u64::MAX as i128) {
        Ok(v) => Ok(v as u64),
        Err(k) => Err(k),
    }
}

proof fn lemma_index_bound(s: Seq<char>, c: char)
    ensures
        index_of_first(s, c) matches Some(i) ==> i < s.len(),
    decreases s.len(),
{
    if s.len() > 0 && s[0] != c {
        lemma_index_bound(s.drop_first(), c);
    }
}

fn bucket_views(v: Seq<(i64, u64)>) -> (r: Ghost<Seq<(int, int)>>)
    ensures
        r@ == v.map_values(|b: (i64, u64)| (b.0 as int, b.1 as int)),
{
    Ghost(v.map_values(|b: (i64, u64)| (b.0 as int, b.1 as int)))
}

/// Parses the bucket form `size:weight,size:weight,...`; `None` where the
/// running weight total would overflow.
fn parse_buckets(s: &[char]) -> (r: Option<Result<ObjSize, String>>)
    ensures
        match scan_buckets(split_spec(s@, ','), 0, 0) {
            BucketScan::Done(b, t) => r matches Some(Ok(o)) && o@ == ObjSizeView::Bucketed(b, t),
            BucketScan::Failed(m) => r matches Some(Err(e)) && e@ == m,
            BucketScan::Overflow => r is None,
        },
{
    let parts = split_chars(s, ',');
    let ghost ps = parts@.map_values(|v: Vec<char>| v@);
    let mut buckets: Vec<(i64, u64)> = Vec::new();
    let mut total: u64 = 0;
    let mut i: usize = 0;
    while i < parts.len()
        invariant
            i <= parts@.len(),
            ps == parts@.map_values(|v: Vec<char>| v@),
            ps == split_spec(s@, ','),
            scan_buckets(ps, 0, 0) == (match scan_buckets(ps, i as nat, total as int) {
                BucketScan::Done(rest, t) => BucketScan::Done(
                    buckets@.map_values(|b: (i64, u64)| (b.0 as int, b.1 as int)) + rest,
                    t,
                ),
                other => other,
            }),
        decreases parts@.len() - i,
    {
        let part = &parts[i];
        assert(part@ == ps[i as int]);
        proof {
            lemma_index_bound(part@, ':');
        }
        let colon = match find_char(part.as_slice(), ':') {
            Some(c) => c,
            None => {
                assert(scan_buckets(ps, i as nat, total as int) == BucketScan::Failed(
                    "invalid bucket spec `"@ + part@ + "`"@,
                ));
                let p = string_from_chars(part.as_slice());
                return Some(Err(concat3("invalid bucket spec `", p.as_str(), "`")));
            },
        };
        let plen = part.len();
        assert(colon < plen);
        let size_txt = slice_chars(part.as_slice(), 0, colon);
        let weight_txt = slice_chars(part.as_slice(), colon + 1, plen);
        assert(size_txt@ == part@.subrange(0, colon as int));
        assert(weight_txt@ == part@.subrange(colon + 1, part@.len() as int));
        let size = match read_i64(size_txt.as_slice()) {
            Ok(v) => v,
            Err(e) => {
                assert(scan_buckets(ps, i as nat, total as int) == BucketScan::Failed(
                    "invalid object size in bucket: "@ + int_error_text(e),
                ));
                let m = int_error_message(e);
                return Some(Err(concat2("invalid object size in bucket: ", m.as_str())));
            },
        };
        let weight = match read_u64(weight_txt.as_slice()) {
            Ok(v) => v,
            Err(e) => {
                assert(scan_buckets(ps, i as nat, total as int) == BucketScan::Failed(
                    "invalid bucket weight: "@ + int_error_text(e),
                ));
                let m = int_error_message(e);
                return Some(Err(concat2("invalid bucket weight: ", m.as_str())));
            },
        };
        if weight > u64::MAX - total {
            assert(scan_buckets(ps, i as nat, total as int) == BucketScan::Overflow);
            return None;
        }
        assert(scan_buckets(ps, i as nat, total as int) == (match scan_buckets(
            ps,
            (i + 1) as nat,
            total + weight,
        ) {
            BucketScan::Done(rest, t) => BucketScan::Done(seq![(size as int, weight as int)] + rest, t),
            other => other,
        }));
        let ghost old_b = buckets@;
        buckets.push((size, weight));
        proof {
            let f = |b: (i64, u64)| (b.0 as int, b.1 as int);
            assert(buckets@.map_values(f) =~= old_b.map_values(f).push((size as int, weight as int)));
            let tail = scan_buckets(ps, (i + 1) as nat, total + weight);
            match tail {
                BucketScan::Done(rest, t) => {
                    assert(old_b.map_values(f) + (seq![(size as int, weight as int)] + rest)
                        =~= buckets@.map_values(f) + rest);
                },
                _ => {},
            }
        }
        total = total + weight;
        i = i + 1;
    }
    proof {
        let f = |b: (i64, u64)| (b.0 as int, b.1 as int);
        assert(buckets@.map_values(f) + Seq::<(int, int)>::empty() =~= buckets@.map_values(f));
    }
    Some(Ok(ObjSize::Bucketed { buckets, total_weight: total }))
}

impl ObjSize {
    /// Parses an object-size strategy: `rand:<max>`, a bucket list
    /// `size:weight,...`, or a plain byte count. Defined wherever the
    /// running weight total of a bucket list fits in a `u64`.
    pub fn parse(s: &str) -> (r: Result<ObjSize, String>)
        requires
            obj_size_parse_defined(s@),
        ensures
            obj_size_parse(s@) == Some(parse_result_view(r)),
    {
        match Self::parse_checked(s) {
            Some(r) => r,
            None => Err(String::new()),
        }
    }

    /// Like [`ObjSize::parse`], with `None` where the weight total of a
    /// bucket list would overflow.
    pub fn parse_checked(s: &str) -> (r: Option<Result<ObjSize, String>>)
        ensures
            match obj_size_parse(s@) {
                Some(x) => r matches Some(y) && parse_result_view(y) == x,
                None => r is None,
            },
    {
        let c = str_chars(s);
        let prefix = str_chars("rand:");
        proof {
            reveal_strlit("rand:");
        }
        if c.len() >= 5 && crate::text::matches_at(c.as_slice(), prefix.as_slice(), 0) {
            assert(c@.subrange(0, 5) == "rand:"@);
            let inner = slice_chars(c.as_slice(), 5, c.len());
            return match read_i64(inner.as_slice()) {
                Ok(max) => Some(Ok(ObjSize::Random { max })),
                Err(e) => {
                    let m = int_error_message(e);
                    Some(Err(concat2("invalid random suffix max bytes: ", m.as_str())))
                },
            };
        }
        assert(!(c@.len() >= 5 && c@.subrange(0, 5) == "rand:"@));
        if find_char(c.as_slice(), ':').is_some() {
            return parse_buckets(c.as_slice());
        }
        match read_i64(c.as_slice()) {
            Ok(v) => Some(Ok(ObjSize::Fixed(v))),
            Err(e) => {
                let m = int_error_message(e);
                Some(Err(concat2("invalid fixed object size: ", m.as_str())))
            },
        }
    }
}

// ---------------------------------------------------------------------------
// Drawing sizes
// ---------------------------------------------------------------------------

/// `floor(log2(n))` for `n >= 1`.
pub open spec fn log2_floor(n: nat) -> nat
    decreases n,
{
    if n < 2 {
        0
    } else {
        1 + log2_floor(n / 2)
    }
}

/// `2^k`.
pub open spec fn pow2(k: nat) -> nat
    decreases k,
{
    if k == 0 {
        1
    } else {
        2 * pow2((k - 1) as nat)
    }
}

proof fn lemma_log2_bound(n: nat)
    requires
        n >= 1,
    ensures
        pow2(log2_floor(n)) <= n,
    decreases n,
{
    if n >= 2 {
        lemma_log2_bound(n / 2);
    }
}

/// `log2(n) < k` when `n < 2^k`.
proof fn lemma_log2_lt(n: nat, k: nat)
    requires
        1 <= n < pow2(k),
    ensures
        log2_floor(n) < k,
    decreases n,
{
    if k == 0 {
        assert(pow2(0) == 1);
    } else if n >= 2 {
        assert(pow2(k) == 2 * pow2((k - 1) as nat));
        lemma_log2_lt(n / 2, (k - 1) as nat);
    }
}

proof fn lemma_pow2_64()
    ensures
        pow2(63) == 0x8000_0000_0000_0000,
        pow2(64) == 0x1_0000_0000_0000_0000,
{
    reveal_with_fuel(pow2, 65);
}

proof fn lemma_log2_small(n: nat)
    requires
        1 <= n <= 0x7fff_ffff_ffff_ffff,
    ensures
        log2_floor(n) <= 62,
{
    lemma_pow2_64();
    lemma_log2_lt(n, 63);
}

proof fn lemma_log2_le64(n: nat)
    requires
        1 <= n <= u64::MAX,
    ensures
        log2_floor(n) <= 63,
{
    lemma_pow2_64();
    lemma_log2_lt(n, 64);
}

/// `floor(log2(n))` (`u64::ilog2`).
pub fn ilog2(n: u64) -> (r: u32)
    requires
        n >= 1,
    ensures
        r == log2_floor(n as nat),
{
    let mut k: u32 = 0;
    let mut m: u64 = n;
    proof {
        lemma_log2_le64(n as nat);
    }
    while m >= 2
        invariant
            m >= 1,
            k + log2_floor(m as nat) == log2_floor(n as nat),
            log2_floor(n as nat) <= 63,
        decreases m,
    {
        m = m / 2;
        k = k + 1;
    }
    k
}

/// `2^k` as a `u64`.
fn pow2_u64(k: u32) -> (r: u64)
    requires
        k <= 63,
    ensures
        r == pow2(k as nat),
{
    let mut r: u64 = 1;
    let mut i: u32 = 0;
    while i < k
        invariant
            i <= k <= 63,
            r == pow2(i as nat),
            r <= pow2(i as nat),
        decreases k - i,
    {
        proof {
            lemma_pow2_le(i as nat + 1);
        }
        r = r * 2;
        i = i + 1;
    }
    r
}

proof fn lemma_pow2_le(k: nat)
    requires
        k <= 63,
    ensures
        pow2(k) <= 0x8000_0000_0000_0000,
{
    lemma_pow2_mono(k, 63);
    lemma_pow2_64();
}

proof fn lemma_pow2_mono(a: nat, b: nat)
    requires
        a <= b,
    ensures
        pow2(a) <= pow2(b),
    decreases b,
{
    if a < b {
        lemma_pow2_mono(a, (b - 1) as nat);
    }
}


/// The number range a size is drawn from: `[0, bound)`.
pub open spec fn draw_bound(o: ObjSizeView) -> nat {
    match o {
        ObjSizeView::Fixed(_) => 1,
        ObjSizeView::Random(max) => pow2(log2_floor((max + 1) as nat)),
        ObjSizeView::Bucketed(_, t) => t as nat,
    }
}

/// The first bucket whose cumulated weight exceeds `w`, scanning from `i`.
pub open spec fn bucket_pick(b: Seq<(int, int)>, i: nat, w: int) -> int
    decreases b.len() - i,
{
    if i >= b.len() {
        if b.len() > 0 {
            b.last().0
        } else {
            1024
        }
    } else if w < b[i as int].1 {
        b[i as int].0
    } else {
        bucket_pick(b, i + 1, w - b[i as int].1)
    }
}

/// The size that draw `d` selects.
pub open spec fn size_for_draw(o: ObjSizeView, d: nat) -> int {
    match o {
        ObjSizeView::Fixed(s) => s,
        ObjSizeView::Random(max) => if d + 1 <= max {
            (d + 1) as int
        } else if max >= 1 {
            max
        } else {
            1
        },
        ObjSizeView::Bucketed(b, _) => bucket_pick(b, 0, d as int),
    }
}

/// Sizes can be drawn: a random maximum is in `0..i64::MAX`, a bucket list
/// has a positive total weight.
pub open spec fn drawable_view(o: ObjSizeView) -> bool {
    match o {
        ObjSizeView::Fixed(_) => true,
        ObjSizeView::Random(max) => 0 <= max < i64::MAX,
        ObjSizeView::Bucketed(_, t) => t > 0,
    }
}

impl ObjSize {
    /// See [`drawable_view`].
    pub open spec fn drawable(&self) -> bool {
        drawable_view(self@)
    }

    /// A copy with the same strategy.
    pub fn duplicate(&self) -> (r: ObjSize)
        ensures
            r@ == self@,
    {
        match self {
            ObjSize::Fixed(s) => ObjSize::Fixed(*s),
            ObjSize::Random { max } => ObjSize::Random { max: *max },
            ObjSize::Bucketed { buckets, total_weight } => {
                let mut copy: Vec<(i64, u64)> = Vec::new();
                let mut i: usize = 0;
                while i < buckets.len()
                    invariant
                        i <= buckets@.len(),
                        copy@ == buckets@.subrange(0, i as int),
                    decreases buckets@.len() - i,
                {
                    let (a, b) = buckets[i];
                    copy.push((a, b));
                    i = i + 1;
                    assert(copy@ =~= buckets@.subrange(0, i as int));
                }
                assert(buckets@.subrange(0, buckets@.len() as int) =~= buckets@);
                ObjSize::Bucketed { buckets: copy, total_weight: *total_weight }
            },
        }
    }

    /// The size that draw `d` (below [`draw_bound`]) selects.
    pub fn size_for(&self, d: u64) -> (r: i64)
        requires
            self.drawable(),
            d < draw_bound(self@),
        ensures
            r == size_for_draw(self@, d as nat),
    {
        match self {
            ObjSize::Fixed(s) => *s,
            ObjSize::Random { max } => {
                proof {
                    lemma_log2_small((*max + 1) as nat);
                    lemma_log2_bound((*max + 1) as nat);
                }
                if d < *max as u64 {
                    (d + 1) as i64
                } else if *max >= 1 {
                    *max
                } else {
                    1
                }
            },
            ObjSize::Bucketed { buckets, total_weight } => {
                let ghost bv = buckets@.map_values(|b: (i64, u64)| (b.0 as int, b.1 as int));
                let mut w: u64 = d;
                let mut i: usize = 0;
                while i < buckets.len()
                    invariant
                        i <= buckets@.len(),
                        bv == buckets@.map_values(|b: (i64, u64)| (b.0 as int, b.1 as int)),
                        bucket_pick(bv, 0, d as int) == bucket_pick(bv, i as nat, w as int),
                        self@ == ObjSizeView::Bucketed(bv, *total_weight as int),
                    decreases buckets@.len() - i,
                {
                    let (size, weight) = buckets[i];
                    assert(bv[i as int] == (size as int, weight as int));
                    if w < weight {
                        assert(bucket_pick(bv, i as nat, w as int) == size as int);
                        return size;
                    }
                    w = w - weight;
                    i = i + 1;
                }
                if buckets.len() > 0 {
                    assert(bv[bv.len() - 1] == (buckets@[buckets@.len() - 1].0 as int, buckets@[buckets@.len() - 1].1 as int));
                    buckets[buckets.len() - 1].0
                } else {
                    1024
                }
            },
        }
    }

    /// The number of equally likely draws.
    pub fn draw_count(&self) -> (r: u64)
        requires
            self.drawable(),
        ensures
            r == draw_bound(self@),
            r > 0,
    {
        match self {
            ObjSize::Fixed(_) => 1,
            ObjSize::Random { max } => {
                let bits = ilog2((*max + 1) as u64);
                proof {
                    lemma_log2_small((*max + 1) as nat);
                    lemma_pow2_le(bits as nat);
                    lemma_pow2_pos(bits as nat);
                }
                pow2_u64(bits)
            },
            ObjSize::Bucketed { total_weight, .. } => *total_weight,
        }
    }

    /// Draws one object size.
    pub fn gen(&self, rng: &mut rand::rngs::SmallRng) -> (r: i64)
        requires
            self.drawable(),
        ensures
            exists|d: nat| d < draw_bound(self@) && r == size_for_draw(self@, d),
    {
        let n = self.draw_count();
        let d = rng_below(rng, n);
        self.size_for(d)
    }
}

proof fn lemma_pow2_pos(k: nat)
    ensures
        pow2(k) >= 1,
    decreases k,
{
    if k > 0 {
        lemma_pow2_pos((k - 1) as nat);
    }
}

/// A random size lies in `1..=max`.
pub proof fn law_random_size_in_range(max: int, d: nat)
    requires
        0 <= max < i64::MAX,
        d < draw_bound(ObjSizeView::Random(max)),
    ensures
        1 <= size_for_draw(ObjSizeView::Random(max), d),
        max >= 1 ==> size_for_draw(ObjSizeView::Random(max), d) <= max,
{
}

/// A bucketed size is one of the buckets' sizes.
pub proof fn law_bucket_size_is_a_bucket(b: Seq<(int, int)>, w: int)
    requires
        b.len() > 0,
    ensures
        exists|j: int| 0 <= j < b.len() && bucket_pick(b, 0, w) == b[j].0,
{
    lemma_bucket_pick_member(b, 0, w);
}

proof fn lemma_bucket_pick_member(b: Seq<(int, int)>, i: nat, w: int)
    requires
        b.len() > 0,
    ensures
        exists|j: int| 0 <= j < b.len() && bucket_pick(b, i, w) == b[j].0,
    decreases b.len() - i,
{
    if i >= b.len() {
        assert(bucket_pick(b, i, w) == b[b.len() - 1].0);
    } else if w < b[i as int].1 {
        assert(bucket_pick(b, i, w) == b[i as int].0);
    } else {
        lemma_bucket_pick_member(b, i + 1, w - b[i as int].1);
    }
}

// ---------------------------------------------------------------------------
// The pseudo-random byte stream
// ---------------------------------------------------------------------------

/// One xorshift step (shifts 13, 7, 17).
pub open spec fn xorshift(s: u64) -> u64 {
    let a = s ^ (s << 13u64);
    let b = a ^ (a >> 7u64);
    b ^ (b << 17u64)
}

/// Byte `p` of the stream of `seed`: bits 8..16 of one xorshift step from
/// `seed * 6364136223846793005 + p` (wrapping). It depends only on the seed
/// and the byte's own offset.
pub open spec fn stream_byte(seed: u64, p: u64) -> u8 {
    (xorshift(
        vstd::wrapping::u64_specs::wrapping_add(vstd::wrapping::u64_specs::wrapping_mul(seed, 6364136223846793005u64), p),
    ) >> 8u64) as u8
}

/// The `n` bytes of the stream from offset `offset` on (offsets wrap at
/// 2^64).
pub open spec fn stream_bytes(seed: u64, offset: u64, n: nat) -> Seq<u8> {
    Seq::new(n, |i: int| stream_byte(seed, vstd::wrapping::u64_specs::wrapping_add(offset, i as u64)))
}

/// Reading the stream in two pieces gives the same bytes as reading it in
/// one: `a` bytes from `offset`, then `b` bytes from where they stopped.
pub proof fn law_stream_chunks(seed: u64, offset: u64, a: nat, b: nat)
    requires
        offset + a + b <= u64::MAX,
    ensures
        stream_bytes(seed, offset, a) + stream_bytes(seed, (offset + a) as u64, b) == stream_bytes(seed, offset, a + b),
{
    let l = stream_bytes(seed, offset, a) + stream_bytes(seed, (offset + a) as u64, b);
    let r = stream_bytes(seed, offset, a + b);
    assert forall|i: int| 0 <= i < a + b implies #[trigger] l[i] == r[i] by {
        if i >= a {
            assert(vstd::wrapping::u64_specs::wrapping_add((offset + a) as u64, (i - a) as u64) == offset + i);
        }
        assert(vstd::wrapping::u64_specs::wrapping_add(offset, i as u64) == offset + i);
    }
    assert(l =~= r);
}

/// How many bytes a read into a buffer of `len` bytes gives at `v`: as many
/// as fit and are left.
pub open spec fn read_len(v: ReaderView, len: nat) -> nat {
    if len < remaining_bytes(v) {
        len
    } else {
        remaining_bytes(v)
    }
}

/// The reader after reads into buffers of the given lengths, in order.
pub open spec fn after_reads(v: ReaderView, lens: Seq<nat>) -> ReaderView
    decreases lens.len(),
{
    if lens.len() == 0 {
        v
    } else {
        let u = after_reads(v, lens.drop_last());
        ReaderView { pos: u.pos + read_len(u, lens.last()), ..u }
    }
}

/// The bytes those reads give, one after the other.
pub open spec fn reads_output(v: ReaderView, lens: Seq<nat>) -> Seq<u8>
    decreases lens.len(),
{
    if lens.len() == 0 {
        Seq::empty()
    } else {
        let u = after_reads(v, lens.drop_last());
        reads_output(v, lens.drop_last()) + stream_bytes(v.seed, u.pos as u64, read_len(u, lens.last()))
    }
}

/// The buffer lengths summed.
pub open spec fn sum_lens(lens: Seq<nat>) -> nat
    decreases lens.len(),
{
    if lens.len() == 0 {
        0
    } else {
        sum_lens(lens.drop_last()) + lens.last()
    }
}

/// Law: reads one after the other from a reader not past its end move it by
/// the bytes they give in all, which are as many as the buffers hold and are
/// left, and those bytes are the stream from where it stood; once the
/// stream is used up, every further read gives nothing.
pub proof fn law_reads_in_sequence(v: ReaderView, lens: Seq<nat>)
    requires
        i64::MIN <= v.size <= i64::MAX,
        v.pos <= stream_len(v.size),
    ensures
        after_reads(v, lens).size == v.size,
        after_reads(v, lens).seed == v.seed,
        after_reads(v, lens).pos == v.pos + if sum_lens(lens) < remaining_bytes(v) {
            sum_lens(lens)
        } else {
            remaining_bytes(v)
        },
        reads_output(v, lens) == stream_bytes(v.seed, v.pos as u64, (after_reads(v, lens).pos - v.pos) as nat),
        sum_lens(lens) >= remaining_bytes(v) ==> remaining_bytes(after_reads(v, lens)) == 0,
    decreases lens.len(),
{
    if lens.len() > 0 {
        let pre = lens.drop_last();
        law_reads_in_sequence(v, pre);
        let u = after_reads(v, pre);
        let a = (u.pos - v.pos) as nat;
        let b = read_len(u, lens.last());
        assert(v.pos + a + b <= stream_len(v.size));
        assert(stream_len(v.size) <= u64::MAX);
        law_stream_chunks(v.seed, v.pos as u64, a, b);
        assert((v.pos as u64 + a) as u64 == u.pos as u64);
    } else {
        assert(stream_bytes(v.seed, v.pos as u64, 0) =~= Seq::<u8>::empty());
    }
}

/// Where to move a reader to, as `std::io::SeekFrom` has it.
#[derive(Debug, Clone, Copy, PartialEq, Eq, Structural)]
pub enum SeekPos {
    Start(u64),
    End(i64),
    Current(i64),
}

/// Why a seek was refused.
#[derive(Debug, Clone, Copy, PartialEq, Eq, Structural)]
pub enum SeekError {
    /// The target lies before the start of the stream.
    NegativeOffset,
}

impl SeekError {
    /// The error's message.
    pub fn message(&self) -> (r: String)
        ensures
            r@ == "negative seek offset"@,
    {
        owned("negative seek offset")
    }
}

/// A byte stream read and moved in place: what a benchmark uploads from.
pub trait ReadSeek {
    /// Whether `seek(pos)` stays within the position arithmetic.
    spec fn can_seek(&self, pos: SeekPos) -> bool;

    /// Reads up to `buf.len()` bytes into the front of `buf`; returns how
    /// many were read, 0 at the end of the stream.
    fn read(&mut self, buf: &mut [u8]) -> (r: usize)
        ensures
            r <= old(buf)@.len(),
            final(buf)@.len() == old(buf)@.len(),
    ;

    /// Moves the position; returns the new one.
    fn seek(&mut self, pos: SeekPos) -> (r: Result<u64, SeekError>)
        requires
            old(self).can_seek(pos),
    ;
}

/// Reports the offset of the last byte a stream holds.
pub trait LastByte {
    /// The offset of the last byte, `None` for an empty stream.
    fn last_byte(&self) -> Option<u64>;
}

/// A reader's state: its length (as given, possibly negative), its position
/// and its seed.
pub struct ReaderView {
    pub size: int,
    pub pos: nat,
    pub seed: u64,
}

/// The stream length a reader serves: its size taken as a `u64`.
pub open spec fn stream_len(size: int) -> nat {
    if size >= 0 {
        size as nat
    } else {
        (size + 18446744073709551616) as nat
    }
}

/// The bytes left from the position to the end.
pub open spec fn remaining_bytes(v: ReaderView) -> nat {
    if stream_len(v.size) > v.pos {
        (stream_len(v.size) - v.pos) as nat
    } else {
        0
    }
}

/// A `u64` position taken as an `i64`, as `as` does.
pub open spec fn as_signed(x: nat) -> int {
    if x <= i64::MAX {
        x as int
    } else {
        x - 18446744073709551616
    }
}

/// The position a seek aims at.
pub open spec fn seek_target(v: ReaderView, p: SeekPos) -> int {
    match p {
        SeekPos::Start(q) => as_signed(q as nat),
        SeekPos::End(d) => v.size + d,
        SeekPos::Current(d) => as_signed(v.pos) + d,
    }
}

/// A deterministic pseudo-random byte stream of a given length: the byte at
/// an offset depends only on the seed and that offset, so seeking and
/// reading give the same bytes however the reads are split.
#[derive(Debug, Clone)]
pub struct RandomReader {
    size: i64,
    pos: u64,
    seed: u64,
}

impl View for RandomReader {
    type V = ReaderView;

    closed spec fn view(&self) -> ReaderView {
        ReaderView { size: self.size as int, pos: self.pos as nat, seed: self.seed }
    }
}

impl RandomReader {
    /// A reader of `size` bytes at position 0.
    pub fn new(size: i64, seed: u64) -> (r: RandomReader)
        ensures
            r@ == (ReaderView { size: size as int, pos: 0, seed }),
    {
        RandomReader { size, pos: 0, seed }
    }

    /// Fills all of `buf` with the stream as it runs from `offset`.
    pub fn fill_at(&self, offset: u64, buf: &mut [u8])
        ensures
            final(buf)@ == stream_bytes(self@.seed, offset, old(buf)@.len()),
    {
        let n = buf.len();
        self.fill_front(offset, buf, n);
        assert(final(buf)@ =~= final(buf)@.subrange(0, n as int));
    }

    /// Fills the first `n` bytes of `buf` with the stream as it runs from
    /// `offset`, leaving the rest.
    fn fill_front(&self, offset: u64, buf: &mut [u8], n: usize)
        requires
            n <= old(buf)@.len(),
        ensures
            final(buf)@.len() == old(buf)@.len(),
            final(buf)@.subrange(0, n as int) == stream_bytes(self@.seed, offset, n as nat),
            final(buf)@.subrange(n as int, old(buf)@.len() as int) == old(buf)@.subrange(
                n as int,
                old(buf)@.len() as int,
            ),
    {
        let base: u64 = self.seed.wrapping_mul(6364136223846793005u64);
        let mut i: usize = 0;
        while i < n
            invariant
                i <= n <= buf@.len(),
                buf@.len() == old(buf)@.len(),
                base == vstd::wrapping::u64_specs::wrapping_mul(self@.seed, 6364136223846793005u64),
                forall|j: int| 0 <= j < i ==> buf@[j] == stream_byte(self@.seed, vstd::wrapping::u64_specs::wrapping_add(offset, j as u64)),
                forall|j: int| n <= j < buf@.len() ==> buf@[j] == old(buf)@[j],
            decreases n - i,
        {
            let p = offset.wrapping_add(i as u64);
            let s0 = base.wrapping_add(p);
            let mut state = s0 ^ (s0 << 13u64);
            state = state ^ (state >> 7u64);
            state = state ^ (state << 17u64);
            assert(state == xorshift(s0));
            buf[i] = (state >> 8u64) as u8;
            i = i + 1;
        }
        assert(buf@.subrange(0, n as int) =~= stream_bytes(self@.seed, offset, n as nat));
        assert(buf@.subrange(n as int, buf@.len() as int) =~= old(buf)@.subrange(
            n as int,
            old(buf)@.len() as int,
        ));
    }

    /// The stream length, `size` taken as a `u64`.
    fn stream_length(&self) -> (r: u64)
        ensures
            r == stream_len(self@.size),
    {
        if self.size >= 0 {
            self.size as u64
        } else {
            (self.size as i128 + 18446744073709551616i128) as u64
        }
    }
}

impl ReadSeek for RandomReader {
    open spec fn can_seek(&self, pos: SeekPos) -> bool {
        i64::MIN <= seek_target(self@, pos) <= i64::MAX
    }

    /// Fills the front of `buf` with the next bytes of the stream, as many as
    /// fit and are left.
    fn read(&mut self, buf: &mut [u8]) -> (r: usize)
        ensures
            r as int == if (old(buf)@.len() as int) < remaining_bytes(old(self)@) as int {
                old(buf)@.len() as int
            } else {
                remaining_bytes(old(self)@) as int
            },
            final(buf)@.subrange(0, r as int) == stream_bytes(old(self)@.seed, old(self)@.pos as u64, r as nat),
            final(buf)@.subrange(r as int, old(buf)@.len() as int) == old(buf)@.subrange(
                r as int,
                old(buf)@.len() as int,
            ),
            final(self)@ == (ReaderView { pos: (old(self)@.pos + r) as nat, ..old(self)@ }),
    {
        let cap = self.stream_length();
        let remaining: u64 = cap.saturating_sub(self.pos);
        let len = buf.len();
        let n: usize = if (len as u64) < remaining {
            len
        } else {
            remaining as usize
        };
        if n == 0 {
            assert(final(buf)@.subrange(0, 0) =~= stream_bytes(old(self)@.seed, old(self)@.pos as u64, 0));
            return 0;
        }
        self.fill_front(self.pos, buf, n);
        self.pos = self.pos + n as u64;
        n
    }

    /// Moves the position to the target when it is not negative.
    fn seek(&mut self, pos: SeekPos) -> (r: Result<u64, SeekError>)
        ensures
            seek_target(old(self)@, pos) >= 0 ==> r == Ok::<u64, SeekError>(
                seek_target(old(self)@, pos) as u64,
            ) && final(self)@ == (ReaderView { pos: seek_target(old(self)@, pos) as nat, ..old(self)@ }),
            seek_target(old(self)@, pos) < 0 ==> r == Err::<u64, SeekError>(SeekError::NegativeOffset)
                && final(self)@ == old(self)@,
    {
        let current: i128 = if self.pos <= i64::MAX as u64 {
            self.pos as i128
        } else {
            self.pos as i128 - 18446744073709551616i128
        };
        let target: i128 = match pos {
            SeekPos::Start(q) => if q <= i64::MAX as u64 {
                q as i128
            } else {
                q as i128 - 18446744073709551616i128
            },
            SeekPos::End(d) => self.size as i128 + d as i128,
            SeekPos::Current(d) => current + d as i128,
        };
        if target < 0 {
            return Err(SeekError::NegativeOffset);
        }
        self.pos = target as u64;
        Ok(self.pos)
    }
}

impl LastByte for RandomReader {
    fn last_byte(&self) -> (r: Option<u64>)
        ensures
            r == (if self@.size > 0 {
                Some((self@.size - 1) as u64)
            } else {
                None
            }),
    {
        if self.size > 0 {
            Some(self.size as u64 - 1)
        } else {
            None
        }
    }
}

// ---------------------------------------------------------------------------
// Objects and their sources
// ---------------------------------------------------------------------------

/// One test object: its data stream and what a request needs to know of it.
#[derive(Debug, Clone)]
pub struct Object {
    pub reader: RandomReader,
    pub name: String,
    pub content_type: String,
    pub prefix: String,
    pub version_id: String,
    pub size: i64,
    pub last_byte: Option<u64>,
}

/// All the bytes an object's reader has left, or nothing when the object's
/// size is not positive. The whole remainder is taken in one read.
pub fn read_object_bytes(obj: Object) -> (r: Vec<u8>)
    requires
        remaining_bytes(obj.reader@) <= usize::MAX,
    ensures
        obj.size <= 0 ==> r@.len() == 0,
        obj.size > 0 ==> r@ == stream_bytes(
            obj.reader@.seed,
            obj.reader@.pos as u64,
            remaining_bytes(obj.reader@),
        ),
{
    let mut obj = obj;
    if obj.size <= 0 {
        return Vec::new();
    }
    let cap = obj.reader.stream_length();
    let n: u64 = cap.saturating_sub(obj.reader.pos);
    let mut buf: Vec<u8> = vec![0u8; n as usize];
    let got = obj.reader.read(buf.as_mut_slice());
    assert(buf@ =~= buf@.subrange(0, got as int));
    buf
}

/// The lower-case hexadecimal rendering of `n`, zero-padded to 16 digits.
pub open spec fn hex16(n: nat) -> Seq<char> {
    zero_pad(radix_str(n, 16), 16)
}

/// The state of a [`DefaultSource`].
pub struct DefaultSourceView {
    pub prefix: Seq<char>,
    pub obj_size: ObjSizeView,
    pub counter: nat,
    pub seed: u64,
}

/// `o` is an object that a source in state `v` may hand out: its size is one
/// the strategy can draw, its name is `<prefix>.<counter as 16 hex digits>.data`
/// and its stream is seeded with `seed + counter` (wrapping).
pub open spec fn object_from(v: DefaultSourceView, o: Object) -> bool {
    &&& exists|d: nat| d < draw_bound(v.obj_size) && o.size == size_for_draw(v.obj_size, d)
    &&& o.name@ == v.prefix + "."@ + hex16(v.counter) + ".data"@
    &&& o.content_type@ == "application/octet-stream"@
    &&& o.prefix@ == v.prefix
    &&& o.version_id@ == Seq::<char>::empty()
    &&& o.reader@ == (ReaderView {
        size: o.size as int,
        pos: 0,
        seed: vstd::wrapping::u64_specs::wrapping_add(v.seed, v.counter as u64),
    })
    &&& o.last_byte == (if o.size > 0 {
        Some((o.size - 1) as u64)
    } else {
        None
    })
}

/// A factory of test objects.
pub trait Source {
    /// Whether `object` can be called.
    spec fn can_draw(&self) -> bool;

    /// Whether `prefix` can be called.
    spec fn has_prefix(&self) -> bool;

    /// The next object.
    fn object(&mut self) -> Object
        requires
            old(self).can_draw(),
    ;

    /// The key prefix of the objects.
    fn prefix(&self) -> &str
        requires
            self.has_prefix(),
    ;

    /// Changes the key prefix of later objects, where the source allows it.
    fn set_prefix(&mut self, prefix: String);
}

/// Objects named `<prefix>.<counter>.data`, sized by a strategy, with data
/// seeded by the source's seed plus the counter.
pub struct DefaultSource {
    prefix: String,
    obj_size: ObjSize,
    counter: u64,
    seed: u64,
    rng: rand::rngs::SmallRng,
}

impl View for DefaultSource {
    type V = DefaultSourceView;

    closed spec fn view(&self) -> DefaultSourceView {
        DefaultSourceView {
            prefix: self.prefix@,
            obj_size: self.obj_size@,
            counter: self.counter as nat,
            seed: self.seed,
        }
    }
}

impl DefaultSource {
    /// A source at counter 0 whose sizes are drawn by a generator seeded with
    /// `seed`.
    pub fn new(prefix: String, obj_size: ObjSize, seed: u64) -> (r: DefaultSource)
        ensures
            r@ == (DefaultSourceView { prefix: prefix@, obj_size: obj_size@, counter: 0, seed }),
    {
        let rng = small_rng_from_seed(seed);
        DefaultSource { prefix, obj_size, counter: 0, seed, rng }
    }
}

impl Source for DefaultSource {
    open spec fn can_draw(&self) -> bool {
        drawable_view(self@.obj_size) && self@.counter < u64::MAX
    }

    open spec fn has_prefix(&self) -> bool {
        true
    }

    fn object(&mut self) -> (o: Object)
        ensures
            object_from(old(self)@, o),
            final(self)@ == (DefaultSourceView { counter: old(self)@.counter + 1, ..old(self)@ }),
    {
        let size = self.obj_size.gen(&mut self.rng);
        let obj_seed = self.seed.wrapping_add(self.counter);
        let digits = render_radix(self.counter, 16);
        let padded = pad_zeros(&digits, 16);
        let hex = string_from_chars(padded.as_slice());
        let head = concat3(self.prefix.as_str(), ".", hex.as_str());
        let name = concat2(head.as_str(), ".data");
        self.counter = self.counter + 1;
        let reader = RandomReader::new(size, obj_seed);
        let last_byte = if size > 0 {
            Some(size as u64 - 1)
        } else {
            None
        };
        Object {
            reader,
            name,
            content_type: owned("application/octet-stream"),
            prefix: self.prefix.clone(),
            version_id: String::new(),
            size,
            last_byte,
        }
    }

    fn prefix(&self) -> (r: &str)
        ensures
            r@ == self@.prefix,
    {
        self.prefix.as_str()
    }

    fn set_prefix(&mut self, prefix: String)
        ensures
            final(self)@ == (DefaultSourceView { prefix: prefix@, ..old(self)@ }),
    {
        self.prefix = prefix;
    }
}

/// The prefix of source `i` among `count`: the base alone for a single
/// source, `<base>-<i>` otherwise.
pub open spec fn sub_prefix(base: Seq<char>, count: nat, i: nat) -> Seq<char> {
    if count > 1 {
        base + "-"@ + dec_str(i)
    } else {
        base
    }
}

/// The state of a [`MultiPrefixSource`].
pub struct MultiPrefixView {
    pub sources: Seq<DefaultSourceView>,
    pub next: nat,
}

/// One [`DefaultSource`] per prefix, handing out objects from each in turn.
pub struct MultiPrefixSource {
    sources: Vec<DefaultSource>,
    next: usize,
}

impl View for MultiPrefixSource {
    type V = MultiPrefixView;

    closed spec fn view(&self) -> MultiPrefixView {
        MultiPrefixView { sources: self.sources@.map_values(|d: DefaultSource| d@), next: self.next as nat }
    }
}

impl MultiPrefixSource {
    /// `count` sources; source `i` has prefix [`sub_prefix`] and seed
    /// `seed + i` (wrapping). The turn starts at the first.
    pub fn new(base_prefix: String, obj_size: ObjSize, count: usize, seed: u64) -> (r: MultiPrefixSource)
        ensures
            r@.next == 0,
            r@.sources.len() == count,
            forall|i: int|
                0 <= i < count ==> #[trigger] r@.sources[i] == (DefaultSourceView {
                    prefix: sub_prefix(base_prefix@, count as nat, i as nat),
                    obj_size: obj_size@,
                    counter: 0,
                    seed: vstd::wrapping::u64_specs::wrapping_add(seed, i as u64),
                }),
    {
        let mut sources: Vec<DefaultSource> = Vec::new();
        let mut i: usize = 0;
        while i < count
            invariant
                i <= count,
                sources@.len() == i,
                forall|j: int|
                    0 <= j < i ==> #[trigger] sources@[j]@ == (DefaultSourceView {
                        prefix: sub_prefix(base_prefix@, count as nat, j as nat),
                        obj_size: obj_size@,
                        counter: 0,
                        seed: vstd::wrapping::u64_specs::wrapping_add(seed, j as u64),
                    }),
            decreases count - i,
        {
            let p = if count > 1 {
                let n = fmt_usize(i);
                concat3(base_prefix.as_str(), "-", n.as_str())
            } else {
                base_prefix.clone()
            };
            let src = DefaultSource::new(p, obj_size.duplicate(), seed.wrapping_add(i as u64));
            sources.push(src);
            i = i + 1;
        }
        let r = MultiPrefixSource { sources, next: 0 };
        assert forall|j: int| 0 <= j < count implies #[trigger] r@.sources[j] == (DefaultSourceView {
            prefix: sub_prefix(base_prefix@, count as nat, j as nat),
            obj_size: obj_size@,
            counter: 0,
            seed: vstd::wrapping::u64_specs::wrapping_add(seed, j as u64),
        }) by {
            assert(r@.sources[j] == r.sources@[j]@);
        }
        r
    }
}

impl Source for MultiPrefixSource {
    open spec fn can_draw(&self) -> bool {
        &&& self@.sources.len() > 0
        &&& self@.next < self@.sources.len()
        &&& forall|i: int|
            0 <= i < self@.sources.len() ==> drawable_view(#[trigger] self@.sources[i].obj_size)
                && self@.sources[i].counter < u64::MAX
    }

    open spec fn has_prefix(&self) -> bool {
        self@.sources.len() > 0
    }

    /// The next object of the source whose turn it is; the turn passes on.
    fn object(&mut self) -> (o: Object)
        ensures
            object_from(old(self)@.sources[old(self)@.next as int], o),
            final(self)@ == (MultiPrefixView {
                sources: old(self)@.sources.update(
                    old(self)@.next as int,
                    DefaultSourceView {
                        counter: old(self)@.sources[old(self)@.next as int].counter + 1,
                        ..old(self)@.sources[old(self)@.next as int]
                    },
                ),
                next: ((old(self)@.next + 1) % old(self)@.sources.len()) as nat,
            }),
    {
        let idx = self.next;
        let len = self.sources.len();
        assert(self@.sources.len() == len);
        assert(idx < len);
        self.next = (idx + 1) % len;
        assert(self.sources@[idx as int]@ == old(self)@.sources[idx as int]);
        let o = self.sources[idx].object();
        assert(self@.sources =~= old(self)@.sources.update(
            idx as int,
            DefaultSourceView { counter: old(self)@.sources[idx as int].counter + 1, ..old(self)@.sources[idx as int] },
        ));
        o
    }

    /// The first source's prefix.
    fn prefix(&self) -> (r: &str)
        ensures
            r@ == self@.sources[0].prefix,
    {
        assert(self.sources@[0]@ == self@.sources[0]);
        self.sources[0].prefix()
    }

    /// Changes nothing: the prefixes are fixed.
    fn set_prefix(&mut self, prefix: String)
        ensures
            final(self)@ == old(self)@,
    {
    }
}

} // verus!
