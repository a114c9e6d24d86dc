//! The simplified TAR archives a Snowball upload sends: `n` entries that all
//! hold the same data, each a 512-byte header, the data, and zero padding to
//! the next 512-byte boundary, then an end marker of 1024 zero bytes.
use vstd::prelude::*;
use vstd::utf8::encode_utf8;
use crate::num::{dec_str, pad_zeros, radix_str, render_radix, zero_pad};
use crate::text::{concat3, string_from_chars, concat2};

verus! {

broadcast use vstd::string::group_string_axioms;

/// The bytes of ASCII characters.
pub open spec fn ascii_bytes(s: Seq<char>) -> Seq<u8> {
    s.map_values(|c: char| (c as u32) as u8)
}

/// `h` with `b` written over it from position `at` on.
pub open spec fn place(h: Seq<u8>, at: int, b: Seq<u8>) -> Seq<u8> {
    h.subrange(0, at) + b + h.subrange(at + b.len(), h.len() as int)
}

/// `n` zero bytes.
pub open spec fn zeros(n: nat) -> Seq<u8> {
    Seq::new(n, |i: int| 0u8)
}

/// The sum of the bytes of `s`.
pub open spec fn byte_sum(s: Seq<u8>) -> nat
    decreases s.len(),
{
    if s.len() == 0 {
        0
    } else {
        byte_sum(s.drop_last()) + s.last() as nat
    }
}

/// The name of entry `i`: `<prefix>/obj-<i, 8 digits>.dat`.
pub open spec fn entry_name(prefix: Seq<char>, i: nat) -> Seq<char> {
    prefix + "/obj-"@ + zero_pad(dec_str(i), 8) + ".dat"@
}

/// A header before its checksum is set: the name (at most 100 bytes), mode
/// 0644, owner and group 0750, the size in octal (at least 11 digits), a
/// zero time, a blank checksum, a regular-file type, and the `ustar`
/// magic.
pub open spec fn header_base(name: Seq<u8>, size: nat) -> Seq<u8> {
    let n = if name.len() < 100 {
        name
    } else {
        name.subrange(0, 100)
    };
    let h = place(zeros(512), 0, n);
    let h = place(h, 100, ascii_bytes("0000644 "@));
    let h = place(h, 108, ascii_bytes("0000750 "@));
    let h = place(h, 116, ascii_bytes("0000750 "@));
    let h = place(h, 124, ascii_bytes(zero_pad(radix_str(size, 8), 11)));
    let h = place(h, 136, ascii_bytes("00000000000"@));
    let h = place(h, 148, ascii_bytes("        "@));
    let h = h.update(156, 48);
    let h = place(h, 257, ascii_bytes("ustar "@));
    place(h, 263, seq![32u8, 0u8])
}

/// A header: the base with its byte sum written in 6 octal digits, a NUL
/// and a space over the checksum field.
pub open spec fn tar_header(name: Seq<u8>, size: nat) -> Seq<u8> {
    let b = header_base(name, size);
    let h = place(b, 148, ascii_bytes(zero_pad(radix_str(byte_sum(b), 8), 6)));
    place(h, 154, seq![0u8, 32u8])
}

/// The zero bytes that bring `n` bytes to a 512-byte boundary.
pub open spec fn pad_len(n: nat) -> nat {
    ((512 - n % 512) % 512) as nat
}

/// One entry: header, data, padding.
pub open spec fn tar_entry(name: Seq<u8>, data: Seq<u8>) -> Seq<u8> {
    tar_header(name, data.len()) + data + zeros(pad_len(data.len()))
}

/// The entries `0..n` of an archive.
pub open spec fn tar_entries(prefix: Seq<char>, data: Seq<u8>, n: nat) -> Seq<u8>
    decreases n,
{
    if n == 0 {
        seq![]
    } else {
        tar_entries(prefix, data, (n - 1) as nat) + tar_entry(
            encode_utf8(entry_name(prefix, (n - 1) as nat)),
            data,
        )
    }
}

/// The whole archive: the entries, then 1024 zero bytes.
pub open spec fn tar_archive(prefix: Seq<char>, data: Seq<u8>, n: nat) -> Seq<u8> {
    tar_entries(prefix, data, n) + zeros(1024)
}

/// Writes `b` over `h` from position `at` on.
fn put_bytes(h: &mut Vec<u8>, at: usize, b: &[u8])
    requires
        at + b@.len() <= old(h)@.len(),
    ensures
        final(h)@ == place(old(h)@, at as int, b@),
{
    let ghost before = h@;
    let hl = h.len();
    let mut i: usize = 0;
    while i < b.len()
        invariant
            i <= b@.len(),
            hl == before.len(),
            at + b@.len() <= before.len(),
            h@.len() == before.len(),
            forall|j: int| 0 <= j < at ==> h@[j] == before[j],
            forall|j: int| at <= j < at + i ==> h@[j] == b@[j - at],
            forall|j: int| at + i <= j < before.len() ==> h@[j] == before[j],
        decreases b@.len() - i,
    {
        h.set(at + i, b[i]);
        i = i + 1;
    }
    assert(h@ =~= place(before, at as int, b@));
}

/// The bytes of ASCII characters.
fn ascii_of(s: &[char]) -> (r: Vec<u8>)
    requires
        forall|i: int| 0 <= i < s@.len() ==> (s@[i] as u32) < 128,
    ensures
        r@ == ascii_bytes(s@),
{
    let mut r: Vec<u8> = Vec::new();
    let mut i: usize = 0;
    while i < s.len()
        invariant
            i <= s@.len(),
            forall|k: int| 0 <= k < s@.len() ==> (s@[k] as u32) < 128,
            r@ == ascii_bytes(s@.subrange(0, i as int)),
        decreases s@.len() - i,
    {
        let c = s[i];
        let b: u8 = (c as u32) as u8;
        r.push(b);
        i = i + 1;
        assert(r@ =~= ascii_bytes(s@.subrange(0, i as int)));
    }
    assert(s@.subrange(0, s@.len() as int) =~= s@);
    r
}

proof fn lemma_radix_digits(n: nat, b: nat)
    requires
        2 <= b <= 16,
    ensures
        forall|i: int| 0 <= i < radix_str(n, b).len() ==> (radix_str(n, b)[i] as u32) < 128,
        radix_str(n, b).len() >= 1,
    decreases n,
{
    if n >= b {
        assert(n / b < n) by (nonlinear_arith)
            requires
                b >= 2,
                n >= b,
        ;
        lemma_radix_digits(n / b, b);
    }
}

proof fn lemma_zero_pad_digits(s: Seq<char>, w: nat)
    requires
        forall|i: int| 0 <= i < s.len() ==> (s[i] as u32) < 128,
    ensures
        forall|i: int| 0 <= i < zero_pad(s, w).len() ==> (#[trigger] zero_pad(s, w)[i] as u32) < 128,
        zero_pad(s, w).len() == if s.len() >= w {
            s.len()
        } else {
            w
        },
{
}

/// The sum of the bytes of `s`, which is at most 512 bytes long.
fn sum_bytes(s: &Vec<u8>) -> (r: u32)
    requires
        s@.len() <= 512,
    ensures
        r == byte_sum(s@),
{
    let mut t: u32 = 0;
    let mut i: usize = 0;
    while i < s.len()
        invariant
            i <= s@.len() <= 512,
            t == byte_sum(s@.subrange(0, i as int)),
            t <= 255 * i,
        decreases s@.len() - i,
    {
        assert(s@.subrange(0, i + 1).drop_last() =~= s@.subrange(0, i as int));
        t = t + s[i] as u32;
        i = i + 1;
    }
    assert(s@.subrange(0, s@.len() as int) =~= s@);
    t
}

/// The 8-digit ASCII octal of a literal field.
fn field(s: &str) -> (r: Vec<u8>)
    requires
        forall|i: int| 0 <= i < s@.len() ==> (s@[i] as u32) < 128,
    ensures
        r@ == ascii_bytes(s@),
{
    let c = crate::text::str_chars(s);
    ascii_of(c.as_slice())
}

/// The header of an entry named `name` (its UTF-8 bytes) holding `size`
/// bytes; the size must fit the 12-byte field.
fn header(name: &[u8], size: usize) -> (r: Vec<u8>)
    requires
        size < 68719476736,
    ensures
        r@ == tar_header(name@, size as nat),
{
    let mut h: Vec<u8> = Vec::new();
    let mut i: usize = 0;
    while i < 512
        invariant
            i <= 512,
            h@ == zeros(i as nat),
        decreases 512 - i,
    {
        h.push(0);
        i = i + 1;
        assert(h@ =~= zeros(i as nat));
    }
    let n = if name.len() < 100 {
        name.len()
    } else {
        100
    };
    let mut nb: Vec<u8> = Vec::new();
    let mut k: usize = 0;
    while k < n
        invariant
            k <= n <= name@.len(),
            nb@ == name@.subrange(0, k as int),
        decreases n - k,
    {
        nb.push(name[k]);
        k = k + 1;
        assert(nb@ =~= name@.subrange(0, k as int));
    }
    assert(name@.subrange(0, name@.len() as int) =~= name@);
    put_bytes(&mut h, 0, nb.as_slice());
    proof {
        reveal_strlit("0000644 ");
        reveal_strlit("0000750 ");
        reveal_strlit("00000000000");
        reveal_strlit("        ");
        reveal_strlit("ustar ");
    }
    let mode = field("0000644 ");
    put_bytes(&mut h, 100, mode.as_slice());
    let owner = field("0000750 ");
    put_bytes(&mut h, 108, owner.as_slice());
    put_bytes(&mut h, 116, owner.as_slice());
    let digits = render_radix(size as u64, 8);
    proof {
        lemma_radix_digits(size as nat, 8);
        lemma_octal_len(size as nat);
        lemma_zero_pad_digits(digits@, 11);
    }
    let padded = pad_zeros(&digits, 11);
    let size_field = ascii_of(padded.as_slice());
    put_bytes(&mut h, 124, size_field.as_slice());
    let mtime = field("00000000000");
    put_bytes(&mut h, 136, mtime.as_slice());
    let blank = field("        ");
    put_bytes(&mut h, 148, blank.as_slice());
    h.set(156, 48);
    let magic = field("ustar ");
    put_bytes(&mut h, 257, magic.as_slice());
    let version: Vec<u8> = vec![32u8, 0u8];
    put_bytes(&mut h, 263, version.as_slice());
    let ghost base = h@;
    assert(base == header_base(name@, size as nat));
    let sum = sum_bytes(&h);
    let cdigits = render_radix(sum as u64, 8);
    proof {
        lemma_sum_bound(base);
        lemma_radix_digits(sum as nat, 8);
        lemma_checksum_len(sum as nat);
        lemma_zero_pad_digits(cdigits@, 6);
    }
    let cpadded = pad_zeros(&cdigits, 6);
    let cfield = ascii_of(cpadded.as_slice());
    put_bytes(&mut h, 148, cfield.as_slice());
    let tail: Vec<u8> = vec![0u8, 32u8];
    put_bytes(&mut h, 154, tail.as_slice());
    h
}

proof fn lemma_sum_bound(s: Seq<u8>)
    ensures
        byte_sum(s) <= 255 * s.len(),
    decreases s.len(),
{
    if s.len() > 0 {
        lemma_sum_bound(s.drop_last());
    }
}

/// `8^k`.
pub open spec fn pow8(k: nat) -> nat
    decreases k,
{
    if k == 0 {
        1
    } else {
        8 * pow8((k - 1) as nat)
    }
}

proof fn lemma_radix_len_bound(n: nat, k: nat)
    requires
        n < pow8(k),
        k >= 1,
    ensures
        radix_str(n, 8).len() <= k,
    decreases k,
{
    if n >= 8 {
        if k == 1 {
            assert(pow8(1) == 8 * pow8(0));
            assert(false);
        }
        assert(n / 8 < pow8((k - 1) as nat)) by (nonlinear_arith)
            requires
                n < pow8(k),
                pow8(k) == 8 * pow8((k - 1) as nat),
        ;
        lemma_radix_len_bound(n / 8, (k - 1) as nat);
    }
}

proof fn lemma_octal_len(size: nat)
    requires
        size < 68719476736,
    ensures
        radix_str(size, 8).len() <= 12,
{
    reveal_with_fuel(pow8, 13);
    assert(pow8(12) == 68719476736);
    lemma_radix_len_bound(size, 12);
}

proof fn lemma_checksum_len(sum: nat)
    requires
        sum <= 255 * 512,
    ensures
        radix_str(sum, 8).len() <= 6,
{
    reveal_with_fuel(pow8, 7);
    assert(pow8(6) == 262144);
    lemma_radix_len_bound(sum, 6);
}

/// Appends `b` to `v`.
fn append_bytes(v: &mut Vec<u8>, b: &[u8])
    ensures
        final(v)@ == old(v)@ + b@,
{
    let ghost before = v@;
    let mut i: usize = 0;
    while i < b.len()
        invariant
            i <= b@.len(),
            v@ == before + b@.subrange(0, i as int),
        decreases b@.len() - i,
    {
        v.push(b[i]);
        i = i + 1;
        assert(v@ =~= before + b@.subrange(0, i as int));
    }
    assert(b@.subrange(0, b@.len() as int) =~= b@);
}

/// Appends `n` zero bytes to `v`.
fn append_zeros(v: &mut Vec<u8>, n: usize)
    ensures
        final(v)@ == old(v)@ + zeros(n as nat),
{
    let ghost before = v@;
    let mut i: usize = 0;
    while i < n
        invariant
            i <= n,
            v@ == before + zeros(i as nat),
        decreases n - i,
    {
        v.push(0);
        i = i + 1;
        assert(v@ =~= before + zeros(i as nat));
    }
}

/// Entry `i` of an archive.
fn entry_bytes(prefix: &str, data: &[u8], i: usize) -> (r: Vec<u8>)
    requires
        data@.len() < 68719476736,
    ensures
        r@ == tar_entry(encode_utf8(entry_name(prefix@, i as nat)), data@),
{
    let digits = render_radix(i as u64, 10);
    let padded = pad_zeros(&digits, 8);
    let num = string_from_chars(padded.as_slice());
    let head = concat3(prefix, "/obj-", num.as_str());
    let name = concat2(head.as_str(), ".dat");
    assert(name@ == entry_name(prefix@, i as nat));
    let bytes = name.as_str().as_bytes();
    assert(bytes@ == encode_utf8(name@));
    let h = header(bytes, data.len());
    let mut out: Vec<u8> = Vec::new();
    append_bytes(&mut out, h.as_slice());
    append_bytes(&mut out, data);
    let pad = (512 - (data.len() % 512)) % 512;
    append_zeros(&mut out, pad);
    assert(out@ =~= tar_entry(encode_utf8(entry_name(prefix@, i as nat)), data@));
    out
}

/// A TAR archive of `num_files` entries named `<prefix>/obj-<8 digits>.dat`,
/// each holding `data`, then the end marker.
pub fn build_tar(prefix: &str, data: &[u8], num_files: usize) -> (r: Vec<u8>)
    requires
        data@.len() < 68719476736,
    ensures
        r@ == tar_archive(prefix@, data@, num_files as nat),
{
    let mut buf: Vec<u8> = Vec::new();
    let mut i: usize = 0;
    while i < num_files
        invariant
            i <= num_files,
            data@.len() < 68719476736,
            buf@ == tar_entries(prefix@, data@, i as nat),
        decreases num_files - i,
    {
        let e = entry_bytes(prefix, data, i);
        append_bytes(&mut buf, e.as_slice());
        i = i + 1;
    }
    append_zeros(&mut buf, 1024);
    buf
}

proof fn lemma_header_len(name: Seq<u8>, size: nat)
    requires
        size < 68719476736,
    ensures
        tar_header(name, size).len() == 512,
{
    lemma_octal_len(size);
    lemma_radix_digits(size, 8);
    reveal_strlit("0000644 ");
    reveal_strlit("0000750 ");
    reveal_strlit("00000000000");
    reveal_strlit("        ");
    reveal_strlit("ustar ");
    let b = header_base(name, size);
    assert(b.len() == 512);
    lemma_sum_bound(b);
    lemma_checksum_len(byte_sum(b));
    lemma_radix_digits(byte_sum(b), 8);
}

proof fn lemma_entries_len(prefix: Seq<char>, data: Seq<u8>, n: nat)
    requires
        data.len() < 68719476736,
    ensures
        tar_entries(prefix, data, n).len() == n * (512 + data.len() + pad_len(data.len())),
    decreases n,
{
    if n > 0 {
        lemma_entries_len(prefix, data, (n - 1) as nat);
        lemma_header_len(encode_utf8(entry_name(prefix, (n - 1) as nat)), data.len());
        let e = 512 + data.len() + pad_len(data.len());
        assert(tar_entry(encode_utf8(entry_name(prefix, (n - 1) as nat)), data).len() == e);
        let m: int = n - 1;
        assert(tar_entries(prefix, data, (n - 1) as nat).len() == m * e);
        assert(tar_entries(prefix, data, n).len() == m * e + e);
        assert(m * e + e == (m + 1) * e) by (nonlinear_arith);
        assert(m + 1 == n);
    } else {
        let e = 512 + data.len() + pad_len(data.len());
        assert(0 * e == 0) by (nonlinear_arith);
    }
}

/// An archive is a whole number of 512-byte blocks: `n` entries of a
/// header block, the data and its padding, then the two-block end marker.
pub proof fn law_tar_blocks(prefix: Seq<char>, data: Seq<u8>, n: nat)
    requires
        data.len() < 68719476736,
    ensures
        tar_archive(prefix, data, n).len() == n * (512 + data.len() + pad_len(data.len())) + 1024,
        tar_archive(prefix, data, n).len() % 512 == 0,
{
    lemma_entries_len(prefix, data, n);
    let l = data.len();
    let e = 512 + l + pad_len(l);
    assert(e % 512 == 0) by (nonlinear_arith)
        requires
            e == 512 + l + ((512 - l % 512) % 512),
            l >= 0,
    ;
    let q: int = (e / 512) as int;
    assert(e == 512 * q);
    assert(n * e + 1024 == (n * q + 2) * 512) by (nonlinear_arith)
        requires
            e == 512 * q,
    ;
    vstd::arithmetic::div_mod::lemma_mod_multiples_basic(n * q + 2, 512);
}

} // verus!
