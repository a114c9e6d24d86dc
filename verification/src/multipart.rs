//! Multipart uploads of the multipart-put benchmark: naming each upload,
//! numbering the part workers, and deciding whether an upload is completed
//! or aborted once its parts are back.
use vstd::prelude::*;
use crate::num::{dec_str, fmt_usize, pad_zeros, radix_str, render_radix, zero_pad};
use crate::text::{concat2, string_from_chars, str_is_empty};

verus! {

broadcast use vstd::string::group_string_axioms;

/// The key of upload `counter` of worker `thread`:
/// `<thread>.upload-<counter in hex, at least 4 digits>`.
pub open spec fn upload_key_spec(thread: nat, counter: nat) -> Seq<char> {
    dec_str(thread) + ".upload-"@ + zero_pad(radix_str(counter, 16), 4)
}

/// See [`upload_key_spec`].
pub fn upload_key(thread: usize, counter: u64) -> (r: String)
    ensures
        r@ == upload_key_spec(thread as nat, counter as nat),
{
    let t = fmt_usize(thread);
    let digits = render_radix(counter, 16);
    let padded = pad_zeros(&digits, 4);
    let hex = string_from_chars(padded.as_slice());
    let head = concat2(t.as_str(), ".upload-");
    concat2(head.as_str(), hex.as_str())
}

/// The worker id recorded for part `part_number` (from 1) of worker
/// `thread`: each worker's parts get ids of their own.
pub fn part_worker(thread: usize, part_concurrency: usize, part_number: usize) -> (r: u32)
    requires
        part_number >= 1,
        thread * part_concurrency + part_number - 1 <= u32::MAX,
    ensures
        r == thread * part_concurrency + part_number - 1,
{
    assert(thread * part_concurrency <= u32::MAX) by (nonlinear_arith)
        requires
            thread * part_concurrency + part_number - 1 <= u32::MAX,
            part_number >= 1,
    ;
    (thread * part_concurrency + (part_number - 1)) as u32
}

/// The bytes a part upload counts: the part size when it succeeded.
pub fn part_bytes(ok: bool, part_size: usize) -> (r: i64)
    requires
        part_size <= i64::MAX,
    ensures
        r == (if ok {
            part_size as int
        } else {
            0
        }),
{
    if ok {
        part_size as i64
    } else {
        0
    }
}

/// One part's outcome: its number, its entity tag, whether it succeeded.
#[derive(Debug, Clone)]
pub struct PartResult {
    pub part_number: usize,
    pub etag: String,
    pub ok: bool,
}

/// A part counts toward completion when it succeeded with an entity tag.
pub open spec fn part_usable(p: PartResult) -> bool {
    p.ok && p.etag@.len() > 0
}

/// An upload is completed with all its parts when every part is usable and
/// there is at least one; otherwise it is aborted (`None`).
pub fn completion(results: &[PartResult]) -> (r: Option<Vec<(usize, String)>>)
    ensures
        (results@.len() > 0 && forall|i: int| 0 <= i < results@.len() ==> #[trigger] part_usable(results@[i]))
            <==> r is Some,
        r matches Some(v) ==> v@.len() == results@.len() && forall|i: int|
            0 <= i < v@.len() ==> (#[trigger] v@[i]).0 == results@[i].part_number && v@[i].1@
                == results@[i].etag@,
{
    let mut parts: Vec<(usize, String)> = Vec::new();
    let mut i: usize = 0;
    while i < results.len()
        invariant
            i <= results@.len(),
            parts@.len() == i,
            forall|k: int| 0 <= k < i ==> #[trigger] part_usable(results@[k]),
            forall|k: int|
                0 <= k < i ==> (#[trigger] parts@[k]).0 == results@[k].part_number && parts@[k].1@
                    == results@[k].etag@,
        decreases results@.len() - i,
    {
        let p = &results[i];
        if !p.ok || str_is_empty(p.etag.as_str()) {
            assert(!part_usable(results@[i as int]));
            return None;
        }
        parts.push((p.part_number, p.etag.clone()));
        i = i + 1;
    }
    if parts.len() == 0 {
        return None;
    }
    Some(parts)
}

} // verus!
