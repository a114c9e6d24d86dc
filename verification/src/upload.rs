//! Single-object uploads of the put benchmark: whether a `Content-MD5`
//! header is sent, what it holds, and what an upload counts.
use vstd::prelude::*;
use crate::checksum::ChecksumType;
use crate::codec::{base64_encode, base64_standard};
use crate::text::{ascii_lower, str_chars, chars_eq};

verus! {

broadcast use vstd::string::group_string_axioms;

/// What `md5::compute` returns for some bytes: their MD5 digest.
pub uninterp spec fn md5_spec(data: Seq<u8>) -> Seq<u8>;

/// Calls `md5::compute` (md5 0.7); its `Digest` is 16 bytes.
#[verifier::external_body]
fn md5_digest(data: &[u8]) -> (r: [u8; 16])
    ensures
        r@ == md5_spec(data@),
{
    md5::compute(data).0
}

/// The ASCII letters of `s` in lower case, other characters unchanged.
fn lower_ascii(s: &str) -> (r: Vec<char>)
    ensures
        r@ == ascii_lower(s@),
{
    let c = str_chars(s);
    let mut r: Vec<char> = Vec::new();
    let mut i: usize = 0;
    while i < c.len()
        invariant
            i <= c@.len(),
            c@ == s@,
            r@ == ascii_lower(c@.subrange(0, i as int)),
        decreases c@.len() - i,
    {
        let ch = c[i];
        let lc = if 'A' <= ch && ch <= 'Z' {
            let u: u32 = (ch as u32) + 32;
            let b: u8 = u as u8;
            b as char
        } else {
            ch
        };
        assert(lc == crate::text::ascii_lower_char(ch));
        r.push(lc);
        i = i + 1;
        assert(r@ =~= ascii_lower(c@.subrange(0, i as int)));
    }
    assert(c@.subrange(0, c@.len() as int) =~= c@);
    r
}

/// `a` and `b` are equal ignoring ASCII letter case (`eq_ignore_ascii_case`).
pub fn eq_ignore_ascii_case(a: &str, b: &str) -> (r: bool)
    ensures
        r == (ascii_lower(a@) == ascii_lower(b@)),
{
    let la = lower_ascii(a);
    let lb = lower_ascii(b);
    chars_eq(la.as_slice(), lb.as_slice())
}

/// An upload sends `Content-MD5` when asked to, when the run's checksum is
/// MD5, or when the benchmark's checksum name is `md5` or `md5cs` in any
/// ASCII letter case.
pub open spec fn wants_md5_spec(md5: bool, common: Option<ChecksumType>, checksum: Option<Seq<char>>) -> bool {
    md5 || common == Some(ChecksumType::MD5) || match checksum {
        Some(c) => ascii_lower(c) == ascii_lower("md5"@) || ascii_lower(c) == ascii_lower("md5cs"@),
        None => false,
    }
}

/// See [`wants_md5_spec`].
pub fn wants_md5(md5: bool, common: Option<ChecksumType>, checksum: Option<&str>) -> (r: bool)
    ensures
        r == wants_md5_spec(
            md5,
            common,
            match checksum {
                Some(c) => Some(c@),
                None => None,
            },
        ),
{
    if md5 {
        return true;
    }
    let is_md5 = match common {
        Some(ChecksumType::MD5) => true,
        _ => false,
    };
    if is_md5 {
        return true;
    }
    match checksum {
        Some(c) => eq_ignore_ascii_case(c, "md5") || eq_ignore_ascii_case(c, "md5cs"),
        None => false,
    }
}

/// The `Content-MD5` value of a body: its MD5 digest, base64-encoded.
pub fn content_md5(body: &[u8]) -> (r: String)
    ensures
        r@ == base64_standard(md5_spec(body@)),
{
    let d = md5_digest(body);
    base64_encode(d.as_slice())
}

/// The bytes an upload counts: the object's size when it succeeded.
pub fn recorded_size(ok: bool, size: i64) -> (r: i64)
    ensures
        r == (if ok {
            size
        } else {
            0
        }),
{
    if ok {
        size
    } else {
        0
    }
}

} // verus!
