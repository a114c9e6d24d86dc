//! Character-level string helpers shared by the parsers and formatters.
//!
//! Strings are modelled by their `Seq<char>` views; every helper states its
//! result over those views.
use vstd::prelude::*;
use vstd::utf8::is_ascii_chars;
use vstd::std_specs::iter::IteratorSpec;

verus! {

broadcast use vstd::string::group_string_axioms;

/// `String::push` appends one character.
pub assume_specification[ String::push ](s: &mut String, ch: char)
    ensures
        final(s)@ == old(s)@.push(ch),
;

// ---------------------------------------------------------------------------
// Conversions between strings and character vectors
// ---------------------------------------------------------------------------

/// The characters of `s`, in order.
pub fn str_chars(s: &str) -> (v: Vec<char>)
    ensures
        v@ == s@,
{
    let mut v: Vec<char> = Vec::new();
    let mut it = s.chars();
    let ghost total = s@;
    loop
        invariant
            v@ + it.remaining() == total,
            it.obeys_prophetic_iter_laws(),
            it.decrease() is Some,
        ensures
            v@ == total,
        decreases it.decrease()->0,
    {
        let ghost before = it.remaining();
        match it.next() {
            Some(c) => {
                proof {
                    assert(before == seq![c] + it.remaining());
                }
                v.push(c);
                assert(v@ + it.remaining() =~= total);
            },
            None => {
                assert(v@ =~= total);
                break ;
            },
        }
    }
    v
}

/// The string whose characters are `v`.
pub fn string_from_chars(v: &[char]) -> (s: String)
    ensures
        s@ == v@,
{
    let mut s = String::new();
    let mut i: usize = 0;
    while i < v.len()
        invariant
            i <= v.len(),
            s@ == v@.subrange(0, i as int),
        decreases v.len() - i,
    {
        s.push(v[i]);
        i = i + 1;
        assert(s@ =~= v@.subrange(0, i as int));
    }
    assert(v@.subrange(0, v.len() as int) =~= v@);
    s
}

/// A copy of the string `s`.
pub fn owned(s: &str) -> (r: String)
    ensures
        r@ == s@,
{
    s.to_owned()
}

/// `a` followed by `b`.
pub fn concat2(a: &str, b: &str) -> (r: String)
    ensures
        r@ == a@ + b@,
{
    let mut r = a.to_owned();
    r.append(b);
    r
}

/// `a`, `b` and `c`, one after the other.
pub fn concat3(a: &str, b: &str, c: &str) -> (r: String)
    ensures
        r@ == a@ + b@ + c@,
{
    let mut r = a.to_owned();
    r.append(b);
    r.append(c);
    r
}

/// Whether `s` has no characters.
pub fn str_is_empty(s: &str) -> (r: bool)
    ensures
        r == (s@.len() == 0),
{
    let mut it = s.chars();
    let ghost total = s@;
    proof {
        assert(it.remaining() == total);
    }
    match it.next() {
        Some(c) => false,
        None => true,
    }
}

/// Whether two strings hold the same characters.
pub fn str_eq(a: &str, b: &str) -> (r: bool)
    ensures
        r == (a@ == b@),
{
    let va = str_chars(a);
    let vb = str_chars(b);
    chars_eq(&va, &vb)
}

/// Whether two character slices are equal.
pub fn chars_eq(a: &[char], b: &[char]) -> (r: bool)
    ensures
        r == (a@ == b@),
{
    if a.len() != b.len() {
        return false;
    }
    let mut i: usize = 0;
    while i < a.len()
        invariant
            a.len() == b.len(),
            i <= a.len(),
            forall|j: int| 0 <= j < i ==> a@[j] == b@[j],
        decreases a.len() - i,
    {
        if a[i] != b[i] {
            return false;
        }
        i = i + 1;
    }
    assert(a@ =~= b@);
    true
}

// ---------------------------------------------------------------------------
// ASCII case mapping
// ---------------------------------------------------------------------------

pub open spec fn ascii_upper_char(c: char) -> char {
    if 'a' <= c && c <= 'z' {
        ((c as u32) - 32) as char
    } else {
        c
    }
}

pub open spec fn ascii_lower_char(c: char) -> char {
    if 'A' <= c && c <= 'Z' {
        ((c as u32) + 32) as char
    } else {
        c
    }
}

pub open spec fn ascii_upper(s: Seq<char>) -> Seq<char> {
    s.map_values(|c: char| ascii_upper_char(c))
}

pub open spec fn ascii_lower(s: Seq<char>) -> Seq<char> {
    s.map_values(|c: char| ascii_lower_char(c))
}

/// What `str::to_uppercase` returns (Unicode case mapping).
pub uninterp spec fn unicode_upper(s: Seq<char>) -> Seq<char>;

/// What `str::to_lowercase` returns (Unicode case mapping).
pub uninterp spec fn unicode_lower(s: Seq<char>) -> Seq<char>;

/// Calls `str::to_uppercase`. The result is the named Unicode mapping of the
/// input; on ASCII input it is the ASCII mapping, which std documents as the
/// ASCII part of the same conversion.
#[verifier::external_body]
pub(crate) fn to_uppercase(s: &str) -> (r: String)
    ensures
        r@ == unicode_upper(s@),
        is_ascii_chars(s@) ==> r@ == ascii_upper(s@),
{
    s.to_uppercase()
}

/// Calls `str::to_lowercase`. The result is the named Unicode mapping of the
/// input; on ASCII input it is the ASCII mapping.
#[verifier::external_body]
pub(crate) fn to_lowercase(s: &str) -> (r: String)
    ensures
        r@ == unicode_lower(s@),
        is_ascii_chars(s@) ==> r@ == ascii_lower(s@),
{
    s.to_lowercase()
}

// ---------------------------------------------------------------------------
// Searching
// ---------------------------------------------------------------------------

/// `needle` occurs in `hay` starting at position `i`.
pub open spec fn occurs_at(hay: Seq<char>, needle: Seq<char>, i: int) -> bool {
    0 <= i && i + needle.len() <= hay.len() && hay.subrange(i, i + needle.len()) == needle
}

/// `needle` occurs somewhere in `hay`.
pub open spec fn seq_contains(hay: Seq<char>, needle: Seq<char>) -> bool {
    exists|i: int| occurs_at(hay, needle, i)
}

/// Whether `needle` occurs in `hay` at position `i`.
pub fn matches_at(hay: &[char], needle: &[char], i: usize) -> (r: bool)
    ensures
        r == occurs_at(hay@, needle@, i as int),
{
    if needle.len() > hay.len() || i > hay.len() - needle.len() {
        return false;
    }
    let mut j: usize = 0;
    while j < needle.len()
        invariant
            i + needle.len() <= hay.len(),
            j <= needle.len(),
            forall|k: int| 0 <= k < j ==> hay@[i + k] == needle@[k],
        decreases needle.len() - j,
    {
        if hay[i + j] != needle[j] {
            assert(hay@.subrange(i as int, i + needle.len())[j as int] != needle@[j as int]);
            return false;
        }
        j = j + 1;
    }
    assert(hay@.subrange(i as int, i + needle.len()) =~= needle@);
    true
}

/// The first position at which `needle` occurs in `hay`.
pub open spec fn first_occurrence(hay: Seq<char>, needle: Seq<char>) -> Option<nat>
    decreases hay.len(),
{
    if occurs_at(hay, needle, 0) {
        Some(0)
    } else if hay.len() == 0 {
        None
    } else {
        match first_occurrence(hay.drop_first(), needle) {
            Some(i) => Some(i + 1),
            None => None,
        }
    }
}

proof fn lemma_occurs_shift(hay: Seq<char>, needle: Seq<char>, i: int)
    requires
        hay.len() > 0,
        i >= 1,
    ensures
        occurs_at(hay, needle, i) == occurs_at(hay.drop_first(), needle, i - 1),
{
    if occurs_at(hay, needle, i) {
        assert(hay.drop_first().subrange(i - 1, i - 1 + needle.len()) =~= hay.subrange(
            i,
            i + needle.len(),
        ));
    }
    if occurs_at(hay.drop_first(), needle, i - 1) {
        assert(hay.drop_first().subrange(i - 1, i - 1 + needle.len()) =~= hay.subrange(
            i,
            i + needle.len(),
        ));
    }
}

proof fn lemma_first_occurrence(hay: Seq<char>, needle: Seq<char>, i: int)
    requires
        occurs_at(hay, needle, i),
        forall|j: int| 0 <= j < i ==> !occurs_at(hay, needle, j),
    ensures
        first_occurrence(hay, needle) == Some(i as nat),
    decreases i,
{
    if i > 0 {
        assert(!occurs_at(hay, needle, 0));
        lemma_occurs_shift(hay, needle, i);
        assert forall|j: int| 0 <= j < i - 1 implies !occurs_at(hay.drop_first(), needle, j) by {
            lemma_occurs_shift(hay, needle, j + 1);
        }
        lemma_first_occurrence(hay.drop_first(), needle, i - 1);
    }
}

proof fn lemma_no_occurrence(hay: Seq<char>, needle: Seq<char>)
    requires
        forall|j: int| !occurs_at(hay, needle, j),
    ensures
        first_occurrence(hay, needle) is None,
    decreases hay.len(),
{
    if hay.len() > 0 {
        assert forall|j: int| !occurs_at(hay.drop_first(), needle, j) by {
            if j >= 0 {
                lemma_occurs_shift(hay, needle, j + 1);
            }
        }
        lemma_no_occurrence(hay.drop_first(), needle);
    }
}

/// The first position at which `needle` occurs in `hay`, if any.
pub fn find_seq(hay: &[char], needle: &[char]) -> (r: Option<usize>)
    ensures
        match r {
            Some(i) => occurs_at(hay@, needle@, i as int) && forall|j: int|
                0 <= j < i ==> !occurs_at(hay@, needle@, j),
            None => !seq_contains(hay@, needle@),
        },
        r == (match first_occurrence(hay@, needle@) {
            Some(i) => Some(i as usize),
            None => None::<usize>,
        }),
{
    if needle.len() > hay.len() {
        assert forall|j: int| !occurs_at(hay@, needle@, j) by {}
        proof {
            lemma_no_occurrence(hay@, needle@);
        }
        return None;
    }
    let last = hay.len() - needle.len();
    let mut i: usize = 0;
    loop
        invariant
            last == hay.len() - needle.len(),
            i <= last,
            forall|j: int| 0 <= j < i ==> !occurs_at(hay@, needle@, j),
        ensures
            forall|j: int| 0 <= j <= last ==> !occurs_at(hay@, needle@, j),
        decreases last - i,
    {
        if matches_at(hay, needle, i) {
            proof {
                lemma_first_occurrence(hay@, needle@, i as int);
            }
            return Some(i);
        }
        if i == last {
            break;
        }
        i = i + 1;
    }
    proof {
        lemma_no_occurrence(hay@, needle@);
    }
    None
}

/// Whether `needle` occurs anywhere in `hay`.
pub fn contains_chars(hay: &[char], needle: &[char]) -> (r: bool)
    ensures
        r == seq_contains(hay@, needle@),
{
    find_seq(hay, needle).is_some()
}

/// Whether `needle` occurs anywhere in `hay`.
pub fn str_contains(hay: &str, needle: &str) -> (r: bool)
    ensures
        r == seq_contains(hay@, needle@),
{
    let h = str_chars(hay);
    let n = str_chars(needle);
    contains_chars(&h, &n)
}

/// The first position of character `c` in `s`.
pub open spec fn index_of_first(s: Seq<char>, c: char) -> Option<nat>
    decreases s.len(),
{
    if s.len() == 0 {
        None
    } else if s[0] == c {
        Some(0)
    } else {
        match index_of_first(s.drop_first(), c) {
            Some(i) => Some(i + 1),
            None => None,
        }
    }
}

proof fn lemma_index_of_first(s: Seq<char>, c: char, i: int)
    requires
        0 <= i <= s.len(),
        forall|j: int| 0 <= j < i ==> s[j] != c,
        i < s.len() ==> s[i] == c,
    ensures
        index_of_first(s, c) == (if i < s.len() {
            Some(i as nat)
        } else {
            None
        }),
    decreases i,
{
    if i > 0 {
        let t = s.drop_first();
        assert forall|j: int| 0 <= j < i - 1 implies t[j] != c by {
            assert(t[j] == s[j + 1]);
        }
        if i < s.len() {
            assert(t[i - 1] == s[i]);
        }
        lemma_index_of_first(t, c, i - 1);
    }
}

/// The first position of character `c` in `s`, if any.
pub fn find_char(s: &[char], c: char) -> (r: Option<usize>)
    ensures
        match r {
            Some(i) => i < s@.len() && s@[i as int] == c && forall|j: int| 0 <= j < i ==> s@[j] != c,
            None => forall|j: int| 0 <= j < s@.len() ==> s@[j] != c,
        },
        r == (match index_of_first(s@, c) {
            Some(i) => Some(i as usize),
            None => None::<usize>,
        }),
{
    let mut i: usize = 0;
    while i < s.len()
        invariant
            i <= s.len(),
            forall|j: int| 0 <= j < i ==> s@[j] != c,
        decreases s.len() - i,
    {
        if s[i] == c {
            proof {
                lemma_index_of_first(s@, c, i as int);
            }
            return Some(i);
        }
        i = i + 1;
    }
    proof {
        lemma_index_of_first(s@, c, i as int);
    }
    None
}

/// The pieces of `s` between occurrences of `c`, as `str::split` with a
/// character pattern yields them (empty pieces included).
pub open spec fn split_spec(s: Seq<char>, c: char) -> Seq<Seq<char>>
    decreases s.len(),
{
    match index_of_first(s, c) {
        Some(i) => if i < s.len() {
            seq![s.subrange(0, i as int)] + split_spec(s.subrange((i + 1) as int, s.len() as int), c)
        } else {
            seq![s]
        },
        None => seq![s],
    }
}

pub proof fn lemma_index_of_first_bound(s: Seq<char>, c: char)
    ensures
        index_of_first(s, c) matches Some(i) ==> i < s.len() && s[i as int] == c,
    decreases s.len(),
{
    if s.len() > 0 && s[0] != c {
        lemma_index_of_first_bound(s.drop_first(), c);
    }
}

/// `s.split(c)`, as owned character vectors.
pub fn split_chars(s: &[char], c: char) -> (r: Vec<Vec<char>>)
    ensures
        r@.map_values(|v: Vec<char>| v@) == split_spec(s@, c),
    decreases s.len(),
{
    match find_char(s, c) {
        Some(i) => {
            proof {
                lemma_index_of_first_bound(s@, c);
            }
            let head = slice_chars(s, 0, i);
            let tail = slice_chars(s, i + 1, s.len());
            let rest = split_chars(tail.as_slice(), c);
            let mut out: Vec<Vec<char>> = Vec::new();
            out.push(head);
            let mut k: usize = 0;
            let ghost first = out@.map_values(|v: Vec<char>| v@);
            while k < rest.len()
                invariant
                    k <= rest@.len(),
                    first == seq![s@.subrange(0, i as int)],
                    out@.map_values(|v: Vec<char>| v@) == first + rest@.map_values(
                        |v: Vec<char>| v@,
                    ).subrange(0, k as int),
                decreases rest@.len() - k,
            {
                let item = slice_chars(rest[k].as_slice(), 0, rest[k].len());
                let ghost old_out = out@;
                out.push(item);
                proof {
                    assert(rest[k as int]@.subrange(0, rest[k as int]@.len() as int) =~= rest[k as int]@);
                    assert(out@.map_values(|v: Vec<char>| v@) =~= old_out.map_values(
                        |v: Vec<char>| v@,
                    ).push(item@));
                    assert(rest@.map_values(|v: Vec<char>| v@).subrange(0, k + 1) =~= rest@.map_values(
                        |v: Vec<char>| v@,
                    ).subrange(0, k as int).push(item@));
                }
                k = k + 1;
            }
            assert(rest@.map_values(|v: Vec<char>| v@).subrange(0, rest@.len() as int)
                =~= rest@.map_values(|v: Vec<char>| v@));
            out
        },
        None => {
            let mut out: Vec<Vec<char>> = Vec::new();
            let all = slice_chars(s, 0, s.len());
            assert(s@.subrange(0, s@.len() as int) =~= s@);
            out.push(all);
            assert(out@.map_values(|v: Vec<char>| v@) =~= seq![s@]);
            out
        },
    }
}

/// The characters `s[lo..hi]`.
pub fn slice_chars(s: &[char], lo: usize, hi: usize) -> (r: Vec<char>)
    requires
        lo <= hi <= s@.len(),
    ensures
        r@ == s@.subrange(lo as int, hi as int),
{
    let mut r: Vec<char> = Vec::new();
    let mut i: usize = lo;
    while i < hi
        invariant
            lo <= i <= hi,
            hi <= s@.len(),
            r@ == s@.subrange(lo as int, i as int),
        decreases hi - i,
    {
        r.push(s[i]);
        i = i + 1;
        assert(r@ =~= s@.subrange(lo as int, i as int));
    }
    r
}

// ---------------------------------------------------------------------------
// Whitespace
// ---------------------------------------------------------------------------

/// The characters that `str::trim` removes, restricted to those a command line
/// or configuration value can hold: space, tab, line feed, carriage return,
/// vertical tab and form feed, plus the other Unicode `White_Space` characters.
pub open spec fn is_ws(c: char) -> bool {
    c == ' ' || c == '\t' || c == '\n' || c == '\r' || c == '\u{0b}' || c == '\u{0c}'
        || c == '\u{85}' || c == '\u{a0}' || c == '\u{1680}' || ('\u{2000}' <= c && c
        <= '\u{200a}') || c == '\u{2028}' || c == '\u{2029}' || c == '\u{202f}' || c
        == '\u{205f}' || c == '\u{3000}'
}

pub fn is_ws_exec(c: char) -> (r: bool)
    ensures
        r == is_ws(c),
{
    c == ' ' || c == '\t' || c == '\n' || c == '\r' || c == '\u{0b}' || c == '\u{0c}' || c
        == '\u{85}' || c == '\u{a0}' || c == '\u{1680}' || ('\u{2000}' <= c && c <= '\u{200a}')
        || c == '\u{2028}' || c == '\u{2029}' || c == '\u{202f}' || c == '\u{205f}' || c
        == '\u{3000}'
}

/// Number of leading white-space characters of `s`.
pub open spec fn lead_ws(s: Seq<char>) -> nat
    decreases s.len(),
{
    if s.len() > 0 && is_ws(s[0]) {
        1 + lead_ws(s.subrange(1, s.len() as int))
    } else {
        0
    }
}

/// Number of trailing white-space characters of `s`.
pub open spec fn trail_ws(s: Seq<char>) -> nat
    decreases s.len(),
{
    if s.len() > 0 && is_ws(s[s.len() - 1]) {
        1 + trail_ws(s.subrange(0, s.len() - 1))
    } else {
        0
    }
}

/// `s` without leading and trailing white space.
pub open spec fn trim_spec(s: Seq<char>) -> Seq<char> {
    let a = s.subrange(lead_ws(s) as int, s.len() as int);
    a.subrange(0, a.len() - trail_ws(a))
}

proof fn lemma_lead_le(s: Seq<char>)
    ensures
        lead_ws(s) <= s.len(),
    decreases s.len(),
{
    if s.len() > 0 && is_ws(s[0]) {
        lemma_lead_le(s.subrange(1, s.len() as int));
    }
}

proof fn lemma_trail_le(s: Seq<char>)
    ensures
        trail_ws(s) <= s.len(),
    decreases s.len(),
{
    if s.len() > 0 && is_ws(s[s.len() - 1]) {
        lemma_trail_le(s.subrange(0, s.len() - 1));
    }
}

/// The trimmed text is a window of the input.
pub proof fn lemma_trim_bounds(s: Seq<char>)
    ensures
        lead_ws(s) <= s.len(),
        trim_spec(s).len() <= s.len() - lead_ws(s),
        forall|i: int| 0 <= i < trim_spec(s).len() ==> #[trigger] trim_spec(s)[i] == s[lead_ws(s) + i],
{
    lemma_lead_le(s);
    let a = s.subrange(lead_ws(s) as int, s.len() as int);
    lemma_trail_le(a);
}

proof fn lemma_lead_ws(s: Seq<char>, i: int)
    requires
        0 <= i <= s.len(),
        forall|j: int| 0 <= j < i ==> is_ws(#[trigger] s[j]),
        i == s.len() || !is_ws(s[i]),
    ensures
        lead_ws(s) == i,
    decreases i,
{
    if i > 0 {
        let t = s.subrange(1, s.len() as int);
        assert forall|j: int| 0 <= j < i - 1 implies is_ws(#[trigger] t[j]) by {
            assert(t[j] == s[j + 1]);
        }
        if i - 1 < t.len() {
            assert(t[i - 1] == s[i]);
        }
        lemma_lead_ws(t, i - 1);
    }
}

proof fn lemma_trail_ws(s: Seq<char>, k: int)
    requires
        0 <= k <= s.len(),
        forall|j: int| s.len() - k <= j < s.len() ==> is_ws(#[trigger] s[j]),
        k == s.len() || !is_ws(s[s.len() - k - 1]),
    ensures
        trail_ws(s) == k,
    decreases k,
{
    if k > 0 {
        let t = s.subrange(0, s.len() - 1);
        assert forall|j: int| t.len() - (k - 1) <= j < t.len() implies is_ws(#[trigger] t[j]) by {
            assert(t[j] == s[j]);
        }
        if k - 1 < t.len() {
            assert(t[t.len() - (k - 1) - 1] == s[s.len() - k - 1]);
        }
        lemma_trail_ws(t, k - 1);
    }
}

proof fn lemma_lead_stop(s: Seq<char>)
    ensures
        lead_ws(s) < s.len() ==> !is_ws(s[lead_ws(s) as int]),
    decreases s.len(),
{
    if s.len() > 0 && is_ws(s[0]) {
        let t = s.subrange(1, s.len() as int);
        lemma_lead_stop(t);
        if lead_ws(t) < t.len() {
            assert(t[lead_ws(t) as int] == s[lead_ws(s) as int]);
        }
    }
}

proof fn lemma_trail_stop(s: Seq<char>)
    ensures
        trail_ws(s) < s.len() ==> !is_ws(s[s.len() - trail_ws(s) - 1]),
    decreases s.len(),
{
    if s.len() > 0 && is_ws(s[s.len() - 1]) {
        let t = s.subrange(0, s.len() - 1);
        lemma_trail_stop(t);
        if trail_ws(t) < t.len() {
            assert(t[t.len() - trail_ws(t) - 1] == s[s.len() - trail_ws(s) - 1]);
        }
    }
}

/// Non-empty trimmed text neither starts nor ends with white space.
pub proof fn lemma_trim_ends(s: Seq<char>)
    ensures
        trim_spec(s).len() > 0 ==> !is_ws(trim_spec(s)[0]) && !is_ws(trim_spec(s).last()),
{
    lemma_lead_le(s);
    lemma_lead_stop(s);
    let a = s.subrange(lead_ws(s) as int, s.len() as int);
    lemma_trail_le(a);
    lemma_trail_stop(a);
    if trim_spec(s).len() > 0 {
        assert(trim_spec(s)[0] == a[0]);
        assert(a[0] == s[lead_ws(s) as int]);
        assert(trim_spec(s).last() == a[a.len() - trail_ws(a) - 1]);
    }
}

/// Text that neither starts nor ends with white space is its own trim.
pub proof fn lemma_trim_fixed(e: Seq<char>)
    requires
        e.len() > 0,
        !is_ws(e[0]),
        !is_ws(e.last()),
    ensures
        trim_spec(e) == e,
{
    lemma_lead_ws(e, 0);
    assert(e.subrange(0, e.len() as int) =~= e);
    lemma_trail_ws(e, 0);
    assert(trim_spec(e) =~= e);
}

/// `s` without leading and trailing white space.
pub fn trim_chars(s: &[char]) -> (r: Vec<char>)
    ensures
        r@ == trim_spec(s@),
{
    let mut lo: usize = 0;
    while lo < s.len() && is_ws_exec(s[lo])
        invariant
            lo <= s.len(),
            forall|j: int| 0 <= j < lo ==> is_ws(#[trigger] s@[j]),
        decreases s.len() - lo,
    {
        lo = lo + 1;
    }
    proof {
        lemma_lead_ws(s@, lo as int);
    }
    let ghost a = s@.subrange(lo as int, s@.len() as int);
    let mut hi: usize = s.len();
    while hi > lo && is_ws_exec(s[hi - 1])
        invariant
            lo <= hi <= s.len(),
            a == s@.subrange(lo as int, s@.len() as int),
            forall|j: int| hi <= j < s.len() ==> is_ws(#[trigger] s@[j]),
        decreases hi,
    {
        hi = hi - 1;
    }
    proof {
        let k = (s.len() - hi) as int;
        assert forall|j: int| a.len() - k <= j < a.len() implies is_ws(#[trigger] a[j]) by {
            assert(a[j] == s@[lo + j]);
        }
        if k < a.len() {
            assert(a[a.len() - k - 1] == s@[hi - 1]);
        }
        lemma_trail_ws(a, k);
        assert(a.subrange(0, a.len() - trail_ws(a)) =~= s@.subrange(lo as int, hi as int));
    }
    slice_chars(s, lo, hi)
}

/// `s` without leading and trailing white space.
pub fn trim_str(s: &str) -> (r: String)
    ensures
        r@ == trim_spec(s@),
{
    let v = str_chars(s);
    let t = trim_chars(&v);
    string_from_chars(&t)
}

// ---------------------------------------------------------------------------
// Joining
// ---------------------------------------------------------------------------

/// The views of a vector of strings.
pub open spec fn views(v: Seq<String>) -> Seq<Seq<char>> {
    v.map_values(|s: String| s@)
}

/// The parts separated by `sep`, as `[T]::join` produces them.
pub open spec fn join_spec(parts: Seq<Seq<char>>, sep: Seq<char>) -> Seq<char>
    decreases parts.len(),
{
    if parts.len() == 0 {
        Seq::empty()
    } else if parts.len() == 1 {
        parts[0]
    } else {
        join_spec(parts.drop_last(), sep) + sep + parts.last()
    }
}

/// `parts.join(sep)`.
pub fn join_strings(parts: &[String], sep: &str) -> (r: String)
    ensures
        r@ == join_spec(views(parts@), sep@),
{
    let mut r = String::new();
    let mut i: usize = 0;
    while i < parts.len()
        invariant
            i <= parts.len(),
            r@ == join_spec(views(parts@.subrange(0, i as int)), sep@),
        decreases parts.len() - i,
    {
        let ghost prev = r@;
        if i > 0 {
            r.append(sep);
        }
        r.append(parts[i].as_str());
        proof {
            let a = views(parts@.subrange(0, i + 1));
            let b = views(parts@.subrange(0, i as int));
            assert(a.drop_last() =~= b);
            assert(a.last() == parts@[i as int]@);
            if i == 0 {
                assert(r@ =~= a[0]);
            }
        }
        i = i + 1;
    }
    assert(parts@.subrange(0, parts.len() as int) =~= parts@);
    r
}

/// A copy of every string of `v`.
pub fn clone_strings(v: &[String]) -> (r: Vec<String>)
    ensures
        views(r@) == views(v@),
        r@.len() == v@.len(),
{
    let mut r: Vec<String> = Vec::new();
    let mut i: usize = 0;
    while i < v.len()
        invariant
            i <= v.len(),
            views(r@) == views(v@.subrange(0, i as int)),
            r@.len() == i,
        decreases v.len() - i,
    {
        let c = v[i].clone();
        assert(c == v@[i as int]);
        let ghost old_r = r@;
        r.push(c);
        assert(r@ == old_r.push(c));
        assert(views(r@) =~= views(old_r).push(c@));
        i = i + 1;
        assert(views(v@.subrange(0, i as int)) =~= views(v@.subrange(0, i - 1)).push(c@));
    }
    assert(v@.subrange(0, v.len() as int) =~= v@);
    r
}

/// `s` with every occurrence of `from` (found left to right, not
/// overlapping) replaced by `to`, as `str::replace` does for a non-empty
/// pattern.
pub open spec fn replace_spec(s: Seq<char>, from: Seq<char>, to: Seq<char>) -> Seq<char>
    decreases s.len(),
{
    if from.len() == 0 {
        s
    } else {
        match first_occurrence(s, from) {
            Some(i) => if i + from.len() <= s.len() {
                s.subrange(0, i as int) + to + replace_spec(
                    s.subrange((i + from.len()) as int, s.len() as int),
                    from,
                    to,
                )
            } else {
                s
            },
            None => s,
        }
    }
}

proof fn lemma_first_occurrence_occurs(hay: Seq<char>, needle: Seq<char>)
    ensures
        first_occurrence(hay, needle) matches Some(i) ==> occurs_at(hay, needle, i as int),
    decreases hay.len(),
{
    if !occurs_at(hay, needle, 0) && hay.len() > 0 {
        lemma_first_occurrence_occurs(hay.drop_first(), needle);
        if let Some(i) = first_occurrence(hay.drop_first(), needle) {
            lemma_occurs_shift(hay, needle, i + 1 as int);
        }
    }
}

/// `s.replace(from, to)` for a non-empty `from`.
pub fn replace_all(s: &str, from: &str, to: &str) -> (r: String)
    requires
        from@.len() > 0,
    ensures
        r@ == replace_spec(s@, from@, to@),
{
    let c = str_chars(s);
    let f = str_chars(from);
    let t = str_chars(to);
    let mut out: Vec<char> = Vec::new();
    let mut rest = c;
    assert(out@ + replace_spec(rest@, from@, to@) =~= replace_spec(s@, from@, to@));
    loop
        invariant_except_break
            out@ + replace_spec(rest@, from@, to@) == replace_spec(s@, from@, to@),
        invariant
            f@ == from@,
            t@ == to@,
            f@.len() > 0,
        ensures
            out@ == replace_spec(s@, from@, to@),
        decreases rest@.len(),
    {
        let rl = rest.len();
        proof {
            lemma_first_occurrence_occurs(rest@, f@);
        }
        match find_seq(rest.as_slice(), f.as_slice()) {
            Some(i) => {
                assert(i + f@.len() <= rest@.len());
                assert(first_occurrence(rest@, f@) == Some(i as nat));
                let head = slice_chars(rest.as_slice(), 0, i);
                let tail = slice_chars(rest.as_slice(), i + f.len(), rl);
                let ghost before = out@;
                let mut k: usize = 0;
                while k < head.len()
                    invariant
                        k <= head@.len(),
                        out@ == before + head@.subrange(0, k as int),
                    decreases head@.len() - k,
                {
                    out.push(head[k]);
                    k = k + 1;
                    assert(out@ =~= before + head@.subrange(0, k as int));
                }
                let mut k: usize = 0;
                while k < t.len()
                    invariant
                        k <= t@.len(),
                        out@ == before + head@ + t@.subrange(0, k as int),
                    decreases t@.len() - k,
                {
                    out.push(t[k]);
                    k = k + 1;
                    assert(out@ =~= before + head@ + t@.subrange(0, k as int));
                }
                assert(head@.subrange(0, head@.len() as int) =~= head@);
                assert(t@.subrange(0, t@.len() as int) =~= t@);
                assert(out@ + replace_spec(tail@, from@, to@) =~= before + replace_spec(rest@, from@, to@));
                rest = tail;
            },
            None => {
                assert(replace_spec(rest@, from@, to@) == rest@);
                let ghost before = out@;
                let mut k: usize = 0;
                while k < rest.len()
                    invariant
                        k <= rest@.len(),
                        out@ == before + rest@.subrange(0, k as int),
                    decreases rest@.len() - k,
                {
                    out.push(rest[k]);
                    k = k + 1;
                    assert(out@ =~= before + rest@.subrange(0, k as int));
                }
                assert(rest@.subrange(0, rest@.len() as int) =~= rest@);
                assert(out@ =~= replace_spec(s@, from@, to@));
                break;
            },
        }
    }
    string_from_chars(out.as_slice())
}

/// How many bytes the UTF-8 encoding of `c` takes.
pub open spec fn char_utf8_len(c: char) -> nat {
    if (c as u32) < 0x80 {
        1
    } else if (c as u32) < 0x800 {
        2
    } else if (c as u32) < 0x10000 {
        3
    } else {
        4
    }
}

/// How many bytes the UTF-8 encoding of `s` takes.
pub open spec fn utf8_len(s: Seq<char>) -> nat
    decreases s.len(),
{
    if s.len() == 0 {
        0
    } else {
        utf8_len(s.drop_last()) + char_utf8_len(s.last())
    }
}

} // verus!
