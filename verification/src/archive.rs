//! In-memory ZIP archives of random entries, written with the `zip` crate,
//! and the entry names and sizes the ZIP workload uses.
use vstd::prelude::*;
use std::io::Cursor;
use crate::generator::ObjSize;
use crate::num::{dec_str, digits_value, lemma_dec_str_value, pad_zeros, render_radix, zero_pad};
use crate::random::{random_bytes, rng_below};
use crate::text::{concat2, concat3, string_from_chars, utf8_len};

verus! {

broadcast use vstd::string::group_string_axioms;

/// A `zip::ZipWriter` writing to an in-memory cursor, held in a private
/// field; the wrappers below are the only way to reach it.
#[verifier::external_body]
pub struct ZipSink {
    inner: zip::ZipWriter<Cursor<Vec<u8>>>,
}

/// How an entry's data is stored.
#[derive(Debug, Clone, Copy, PartialEq, Eq, Structural)]
pub enum ZipMethod {
    /// As it is (`zip::CompressionMethod::Stored`).
    Stored,
    /// Deflate-compressed (`zip::CompressionMethod::Deflated`).
    Deflated,
}

/// What a writer has been given: the entries started, in order, each
/// with its name, its compression method and the non-empty byte runs
/// written to it, in order.
pub uninterp spec fn zip_state(w: ZipSink) -> Seq<(Seq<char>, ZipMethod, Seq<Seq<u8>>)>;

/// An entry is being written: one was started and not yet finished.
pub uninterp spec fn zip_open(w: ZipSink) -> bool;

/// How many bytes the data of an entry takes in the archive when the byte
/// runs are written to it with the compression method.
pub uninterp spec fn zip_stored_size(method: ZipMethod, runs: Seq<Seq<u8>>) -> nat;

/// The byte runs summed.
pub open spec fn run_total(runs: Seq<Seq<u8>>) -> nat
    decreases runs.len(),
{
    if runs.len() == 0 {
        0
    } else {
        run_total(runs.drop_last()) + runs.last().len()
    }
}

/// The archive bytes `ZipWriter::finish` produces for the entries it was
/// given (with the fixed default time stamp).
pub uninterp spec fn zip_archive(entries: Seq<(Seq<char>, ZipMethod, Seq<Seq<u8>>)>) -> Seq<u8>;

/// Calls `ZipWriter::new` on an empty in-memory cursor; nothing is
/// written to the writer yet.
#[verifier::external_body]
fn zip_writer_new() -> (r: ZipSink)
    ensures
        zip_state(r) == Seq::<(Seq<char>, ZipMethod, Seq<Seq<u8>>)>::empty(),
        !zip_open(r),
{
    ZipSink { inner: zip::ZipWriter::new(Cursor::new(Vec::new())) }
}

/// Calls `ZipWriter::start_file` with the compression method and otherwise
/// default options; the error is rendered as text. The name must fit the
/// 16-bit length field of an entry header (the crate panics otherwise). On
/// success the writer holds a new, empty entry named `name` after the
/// others, being written; nothing is said of the writer after a failure.
/// Writing into memory, it fails only for a name already in the archive, or
/// when finishing the entry being written finds it over 4 GiB - 1.
#[verifier::external_body]
fn zip_start_file(w: &mut ZipSink, name: String, method: ZipMethod) -> (r: Result<(), String>)
    requires
        utf8_len(name@) <= 0xFFFF,
    ensures
        r is Ok ==> zip_state(*final(w)) == zip_state(*old(w)).push((name@, method, Seq::<Seq<u8>>::empty())),
        r is Ok ==> zip_open(*final(w)),
        (forall|k: int| 0 <= k < zip_state(*old(w)).len() ==> #[trigger] zip_state(*old(w))[k].0 != name@)
            && (zip_open(*old(w)) && zip_state(*old(w)).len() > 0 ==> zip_stored_size(
            zip_state(*old(w)).last().1,
            zip_state(*old(w)).last().2,
        ) <= 0xFFFF_FFFF) ==> r is Ok,
{
    let m = match method {
        ZipMethod::Stored => zip::CompressionMethod::Stored,
        ZipMethod::Deflated => zip::CompressionMethod::Deflated,
    };
    w.inner.start_file(name, zip::write::SimpleFileOptions::default().compression_method(m)).map_err(|e| e.to_string())
}

/// Calls `std::io::Write::write_all` on the writer (the data goes to the
/// entry being written); the error is rendered as text. On success with
/// data, an entry was open and the data is its newest byte run; empty data
/// changes nothing. Writing into memory, it fails only when no entry is
/// open, or when the entry's data would pass 4 GiB - 1 bytes.
#[verifier::external_body]
fn zip_write_all(w: &mut ZipSink, data: &[u8]) -> (r: Result<(), String>)
    ensures
        r is Ok ==> zip_open(*final(w)) == zip_open(*old(w)),
        data@.len() == 0 ==> r is Ok,
        zip_open(*old(w)) && zip_state(*old(w)).len() > 0 && run_total(zip_state(*old(w)).last().2) + data@.len()
            <= 0xFFFF_FFFF ==> r is Ok,
        r is Ok && data@.len() == 0 ==> zip_state(*final(w)) == zip_state(*old(w)),
        r is Ok && data@.len() > 0 ==> zip_state(*old(w)).len() > 0 && zip_state(*final(w)) == zip_state(
            *old(w),
        ).update(
            zip_state(*old(w)).len() - 1,
            (zip_state(*old(w)).last().0, zip_state(*old(w)).last().1, zip_state(*old(w)).last().2.push(data@)),
        ),
{
    std::io::Write::write_all(&mut w.inner, data).map_err(|e| e.to_string())
}

/// Calls `ZipWriter::finish` and takes the cursor's buffer; the error is
/// rendered as text. On success the bytes are the archive of what the
/// writer was given. Writing into memory, it fails only when finishing the
/// entry being written finds it over 4 GiB - 1.
#[verifier::external_body]
fn zip_finish(w: ZipSink) -> (r: Result<Vec<u8>, String>)
    ensures
        r matches Ok(b) ==> b@ == zip_archive(zip_state(w)),
        (zip_open(w) && zip_state(w).len() > 0 ==> zip_stored_size(zip_state(w).last().1, zip_state(w).last().2)
            <= 0xFFFF_FFFF) ==> r is Ok,
{
    w.inner.finish().map(|c| c.into_inner()).map_err(|e| e.to_string())
}

/// The name of entry `i` under `prefix`: `<prefix>/f-<i, 6 digits>.bin`.
pub open spec fn zip_entry_name(prefix: Seq<char>, i: nat) -> Seq<char> {
    prefix + "/f-"@ + zero_pad(dec_str(i), 6) + ".bin"@
}

/// [`zip_entry_name`], written out.
pub fn zip_entry_name_exec(prefix: &str, i: usize) -> (r: String)
    ensures
        r@ == zip_entry_name(prefix@, i as nat),
{
    let digits = render_radix(i as u64, 10);
    let padded = pad_zeros(&digits, 6);
    let num = string_from_chars(padded.as_slice());
    let head = concat3(prefix, "/f-", num.as_str());
    concat2(head.as_str(), ".bin")
}

/// The byte runs of an entry written with one `write_all` of `d`: none for
/// empty data.
pub open spec fn runs_of(d: Seq<u8>) -> Seq<Seq<u8>> {
    if d.len() == 0 {
        Seq::<Seq<u8>>::empty()
    } else {
        seq![d]
    }
}

/// The entries of an archive whose entry `i` holds `datas[i]`, deflated.
pub open spec fn zip_plan(prefix: Seq<char>, datas: Seq<Seq<u8>>) -> Seq<(Seq<char>, ZipMethod, Seq<Seq<u8>>)> {
    Seq::new(datas.len(), |i: int| (zip_entry_name(prefix, i as nat), ZipMethod::Deflated, runs_of(datas[i])))
}

/// Some data of `n` bytes takes more than 4 GiB - 1 in an archive once
/// deflated.
pub open spec fn deflate_may_overflow(n: nat) -> bool {
    exists|d: Seq<u8>| d.len() == n && #[trigger] zip_stored_size(ZipMethod::Deflated, runs_of(d)) > 0xFFFF_FFFF
}

proof fn lemma_zeros_value(k: nat, s: Seq<char>)
    ensures
        digits_value(Seq::new(k, |i: int| '0') + s) == digits_value(s),
    decreases s.len(), k,
{
    let z = Seq::new(k, |i: int| '0');
    if s.len() == 0 {
        assert(z + s =~= z);
        if k > 0 {
            lemma_zeros_value((k - 1) as nat, s);
            assert(z.drop_last() =~= Seq::new((k - 1) as nat, |i: int| '0') + s);
        }
    } else {
        lemma_zeros_value(k, s.drop_last());
        assert((z + s).drop_last() =~= z + s.drop_last());
    }
}

/// Different entries have different names.
proof fn lemma_entry_names_differ(prefix: Seq<char>, a: nat, b: nat)
    requires
        a != b,
    ensures
        zip_entry_name(prefix, a) != zip_entry_name(prefix, b),
{
    let ma = zero_pad(dec_str(a), 6);
    let mb = zero_pad(dec_str(b), 6);
    lemma_dec_str_value(a);
    lemma_dec_str_value(b);
    if dec_str(a).len() < 6 {
        lemma_zeros_value((6 - dec_str(a).len()) as nat, dec_str(a));
    }
    if dec_str(b).len() < 6 {
        lemma_zeros_value((6 - dec_str(b).len()) as nat, dec_str(b));
    }
    assert(digits_value(ma) == a);
    assert(digits_value(mb) == b);
    let na = zip_entry_name(prefix, a);
    let nb = zip_entry_name(prefix, b);
    reveal_strlit("/f-");
    reveal_strlit(".bin");
    if na == nb {
        let lo = prefix.len() + 3;
        assert(na.subrange(lo as int, na.len() - 4) =~= ma);
        assert(nb.subrange(lo as int, nb.len() - 4) =~= mb);
    }
}

/// An archive of `entries` entries named by [`zip_entry_name`], each of
/// `entry_size` random bytes, deflated; the text of the first failure of the
/// writer otherwise. It fails only when an entry's data is over 4 GiB - 1,
/// or takes more than that once deflated. Every entry name must fit the
/// 16-bit length field of an entry header.
pub fn build_zip_bytes(prefix: &str, entries: usize, entry_size: usize, rng: &mut rand::rngs::SmallRng) -> (r: Result<Vec<u8>, String>)
    requires
        forall|i: nat| i < entries ==> utf8_len(#[trigger] zip_entry_name(prefix@, i)) <= 0xFFFF,
    ensures
        r matches Ok(b) ==> exists|datas: Seq<Seq<u8>>|
            datas.len() == entries && (forall|i: int| 0 <= i < datas.len() ==> (#[trigger] datas[i]).len()
                == entry_size) && b@ == zip_archive(zip_plan(prefix@, datas)),
        r is Err ==> entry_size > 0xFFFF_FFFF || (entries > 0 && deflate_may_overflow(entry_size as nat)),
{
    let mut w = zip_writer_new();
    let ghost mut datas: Seq<Seq<u8>> = Seq::empty();
    let mut i: usize = 0;
    assert(zip_plan(prefix@, datas) =~= Seq::<(Seq<char>, ZipMethod, Seq<Seq<u8>>)>::empty());
    while i < entries
        invariant
            i <= entries,
            datas.len() == i,
            forall|k: int| 0 <= k < datas.len() ==> (#[trigger] datas[k]).len() == entry_size,
            zip_state(w) == zip_plan(prefix@, datas),
            i > 0 ==> zip_open(w),
            forall|j: nat| j < entries ==> utf8_len(#[trigger] zip_entry_name(prefix@, j)) <= 0xFFFF,
        decreases entries - i,
    {
        let name = zip_entry_name_exec(prefix, i);
        assert(utf8_len(zip_entry_name(prefix@, i as nat)) <= 0xFFFF);
        proof {
            assert forall|k: int| 0 <= k < zip_state(w).len() implies #[trigger] zip_state(w)[k].0 != name@ by {
                assert(zip_state(w)[k].0 == zip_entry_name(prefix@, k as nat));
                lemma_entry_names_differ(prefix@, k as nat, i as nat);
            }
        }
        let ghost st0 = zip_state(w);
        match zip_start_file(&mut w, name, ZipMethod::Deflated) {
            Ok(()) => {},
            Err(e) => {
                proof {
                    let d = datas[i - 1];
                    assert(st0.last() == zip_plan(prefix@, datas)[i - 1]);
                    assert(zip_stored_size(ZipMethod::Deflated, runs_of(d)) > 0xFFFF_FFFF);
                }
                return Err(e);
            },
        }
        let chunk = random_bytes(rng, entry_size);
        assert(run_total(Seq::<Seq<u8>>::empty()) == 0);
        match zip_write_all(&mut w, &chunk) {
            Ok(()) => {},
            Err(e) => return Err(e),
        }
        proof {
            let nd = datas.push(chunk@);
            assert(zip_state(w) =~= zip_plan(prefix@, nd)) by {
                assert(zip_plan(prefix@, nd).len() == nd.len());
                assert forall|k: int| 0 <= k < nd.len() implies #[trigger] zip_state(w)[k] == zip_plan(prefix@, nd)[k] by {
                    if k < datas.len() {
                        assert(nd[k] == datas[k]);
                    }
                }
            }
            datas = nd;
        }
        i = i + 1;
    }
    let ghost st = zip_state(w);
    let r = zip_finish(w);
    match r {
        Ok(b) => {
            assert(b@ == zip_archive(zip_plan(prefix@, datas)));
            Ok(b)
        },
        Err(e) => {
            proof {
                let d = datas[entries - 1];
                assert(st.last() == zip_plan(prefix@, datas)[entries - 1]);
                assert(zip_stored_size(ZipMethod::Deflated, runs_of(d)) > 0xFFFF_FFFF);
            }
            Err(e)
        },
    }
}

/// The size of each entry: a fixed size (at least 1), a draw from
/// `1..=max` (max at least 1), or the first bucket's size (at least 1;
/// 4096 without buckets).
pub open spec fn entry_size_ok(o: ObjSize, r: usize) -> bool {
    match o {
        ObjSize::Fixed(s) => r == (if s >= 1 { s } else { 1 }),
        ObjSize::Random { max } => 1 <= r <= (if max >= 1 { max } else { 1 }),
        ObjSize::Bucketed { buckets, .. } => r == (if buckets@.len() > 0 {
            if buckets@[0].0 >= 1 { buckets@[0].0 as int } else { 1 }
        } else {
            4096
        }),
    }
}

/// Chooses the entry size of one archive.
pub fn zip_entry_size(o: &ObjSize, rng: &mut rand::rngs::SmallRng) -> (r: usize)
    requires
        (o matches ObjSize::Fixed(s) ==> s <= usize::MAX),
        (o matches ObjSize::Random { max } ==> max <= usize::MAX),
        (o matches ObjSize::Bucketed { buckets, .. } ==> buckets@.len() > 0 ==> buckets@[0].0 <= usize::MAX),
    ensures
        entry_size_ok(*o, r),
{
    match o {
        ObjSize::Fixed(s) => if *s >= 1 {
            *s as usize
        } else {
            1
        },
        ObjSize::Random { max } => {
            let m: u64 = if *max >= 1 {
                *max as u64
            } else {
                1
            };
            let d = rng_below(rng, m);
            (d + 1) as usize
        },
        ObjSize::Bucketed { buckets, .. } => {
            if buckets.len() > 0 {
                let s = buckets[0].0;
                if s >= 1 {
                    s as usize
                } else {
                    1
                }
            } else {
                4096
            }
        },
    }
}

/// The key of one uploaded archive: `<prefix>/<a random UUID>.zip`.
pub fn zip_object_key(prefix: &str) -> (r: String)
    ensures
        exists|u: Seq<char>| u.len() == 36 && r@ == prefix@ + "/"@ + u + ".zip"@,
{
    let u = crate::random::uuid_v4_string();
    let head = concat3(prefix, "/", u.as_str());
    concat2(head.as_str(), ".zip")
}

} // verus!
