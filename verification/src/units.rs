//! Units of the command line: the unit suffix of a size (`10MiB`, `5k`) and
//! of a duration (`5m`, `30s`, `1h`), and which parser an object-size
//! argument goes to. The number in front of the unit may be fractional and
//! is read by the caller.
use vstd::prelude::*;
use crate::generator::{obj_size_parse, obj_size_parse_defined, parse_result_view, ObjSize};
use crate::text::{find_char, matches_at, occurs_at, slice_chars, str_chars, string_from_chars, to_lowercase, trim_chars, trim_spec, unicode_lower};

verus! {

broadcast use vstd::string::group_string_axioms;

/// `s` ends with `suf`.
pub open spec fn has_suffix(s: Seq<char>, suf: Seq<char>) -> bool {
    suf.len() <= s.len() && s.subrange(s.len() - suf.len(), s.len() as int) == suf
}

/// `s` without its last `n` characters.
pub open spec fn drop_end(s: Seq<char>, n: nat) -> Seq<char> {
    s.subrange(0, s.len() - n)
}

/// The number text and the multiplier of a size written in lower case:
/// binary units `gib`, `mib`, `kib`, decimal units `g`, `m`, `k`, bytes `b`,
/// tried in that order; without a unit the multiplier is one.
pub open spec fn size_split(s: Seq<char>) -> (Seq<char>, i64) {
    if has_suffix(s, seq!['g', 'i', 'b']) {
        (trim_spec(drop_end(s, 3)), 1073741824)
    } else if has_suffix(s, seq!['m', 'i', 'b']) {
        (trim_spec(drop_end(s, 3)), 1048576)
    } else if has_suffix(s, seq!['k', 'i', 'b']) {
        (trim_spec(drop_end(s, 3)), 1024)
    } else if has_suffix(s, seq!['g']) {
        (trim_spec(drop_end(s, 1)), 1000000000)
    } else if has_suffix(s, seq!['m']) {
        (trim_spec(drop_end(s, 1)), 1000000)
    } else if has_suffix(s, seq!['k']) {
        (trim_spec(drop_end(s, 1)), 1000)
    } else if has_suffix(s, seq!['b']) {
        (trim_spec(drop_end(s, 1)), 1)
    } else {
        (s, 1)
    }
}

/// Whether `s` ends with `suf`.
fn ends_with(s: &[char], suf: &[char]) -> (r: bool)
    ensures
        r == has_suffix(s@, suf@),
{
    if suf.len() > s.len() {
        return false;
    }
    let r = matches_at(s, suf, s.len() - suf.len());
    assert(occurs_at(s@, suf@, s@.len() - suf@.len()) == has_suffix(s@, suf@));
    r
}

/// `s` without its last `n` characters, trimmed.
fn trimmed_front(s: &[char], n: usize) -> (r: String)
    requires
        n <= s@.len(),
    ensures
        r@ == trim_spec(drop_end(s@, n as nat)),
{
    let head = slice_chars(s, 0, s.len() - n);
    let t = trim_chars(&head);
    string_from_chars(&t)
}

/// The number text and unit multiplier of a size argument: the argument is
/// trimmed and lower-cased, then its unit suffix is split off.
pub fn size_unit(s: &str) -> (r: (String, i64))
    ensures
        (r.0@, r.1) == size_split(unicode_lower(trim_spec(s@))),
{
    let c = str_chars(s);
    let t = trim_chars(&c);
    let ts = string_from_chars(&t);
    let low = to_lowercase(ts.as_str());
    let v = str_chars(low.as_str());
    let ghost w = v@;
    let gib: Vec<char> = vec!['g', 'i', 'b'];
    let mib: Vec<char> = vec!['m', 'i', 'b'];
    let kib: Vec<char> = vec!['k', 'i', 'b'];
    let g: Vec<char> = vec!['g'];
    let m: Vec<char> = vec!['m'];
    let k: Vec<char> = vec!['k'];
    let b: Vec<char> = vec!['b'];
    assert(gib@ == seq!['g', 'i', 'b'] && mib@ == seq!['m', 'i', 'b'] && kib@ == seq!['k', 'i', 'b']);
    assert(g@ == seq!['g'] && m@ == seq!['m'] && k@ == seq!['k'] && b@ == seq!['b']);
    if ends_with(&v, &gib) {
        (trimmed_front(&v, 3), 1073741824)
    } else if ends_with(&v, &mib) {
        (trimmed_front(&v, 3), 1048576)
    } else if ends_with(&v, &kib) {
        (trimmed_front(&v, 3), 1024)
    } else if ends_with(&v, &g) {
        (trimmed_front(&v, 1), 1000000000)
    } else if ends_with(&v, &m) {
        (trimmed_front(&v, 1), 1000000)
    } else if ends_with(&v, &k) {
        (trimmed_front(&v, 1), 1000)
    } else if ends_with(&v, &b) {
        (trimmed_front(&v, 1), 1)
    } else {
        (low, 1)
    }
}

/// The number text and the seconds per unit of a trimmed duration: hours
/// `h`, minutes `m`, seconds `s`; without a unit, seconds.
pub open spec fn duration_split(s: Seq<char>) -> (Seq<char>, u64) {
    if has_suffix(s, seq!['h']) {
        (drop_end(s, 1), 3600)
    } else if has_suffix(s, seq!['m']) {
        (drop_end(s, 1), 60)
    } else if has_suffix(s, seq!['s']) {
        (drop_end(s, 1), 1)
    } else {
        (s, 1)
    }
}

/// The number text and seconds per unit of a duration argument, after
/// trimming it.
pub fn duration_unit(s: &str) -> (r: (String, u64))
    ensures
        (r.0@, r.1) == duration_split(trim_spec(s@)),
{
    let c = str_chars(s);
    let t = trim_chars(&c);
    let h: Vec<char> = vec!['h'];
    let m: Vec<char> = vec!['m'];
    let sec: Vec<char> = vec!['s'];
    assert(h@ == seq!['h'] && m@ == seq!['m'] && sec@ == seq!['s']);
    if ends_with(&t, &h) || ends_with(&t, &m) || ends_with(&t, &sec) {
        let head = slice_chars(&t, 0, t.len() - 1);
        let unit: u64 = if ends_with(&t, &h) {
            3600
        } else if ends_with(&t, &m) {
            60
        } else {
            1
        };
        (string_from_chars(&head), unit)
    } else {
        (string_from_chars(&t), 1)
    }
}

/// Whether an object-size argument names a strategy (`rand:<max>` or a
/// bucket list `size:weight,...`) rather than a plain size: it holds a `:`.
pub fn is_size_strategy(s: &str) -> (r: bool)
    ensures
        r == s@.contains(':'),
{
    let c = str_chars(s);
    match find_char(&c, ':') {
        Some(i) => {
            assert(c@[i as int] == ':');
            true
        },
        None => false,
    }
}

/// An object-size argument: a strategy goes to [`ObjSize::parse`];
/// otherwise it is a fixed size, `plain` being the argument read as a size.
pub fn parse_obj_size_with(s: &str, plain: Result<i64, String>) -> (r: Result<ObjSize, String>)
    requires
        s@.contains(':') ==> obj_size_parse_defined(s@),
    ensures
        s@.contains(':') ==> obj_size_parse(s@) == Some(parse_result_view(r)),
        !s@.contains(':') ==> match plain {
            Ok(n) => r matches Ok(ObjSize::Fixed(m)) && m == n,
            Err(e) => r matches Err(f) && f@ == e@,
        },
{
    if is_size_strategy(s) {
        ObjSize::parse(s)
    } else {
        match plain {
            Ok(n) => Ok(ObjSize::Fixed(n)),
            Err(e) => Err(e),
        }
    }
}

} // verus!
