//! The operations file of a run: one tab-separated record of 15 fields per
//! operation, compressed with zstd.
//!
//! The fields, in order: the record's index, the worker, the kind of request,
//! the client, objects per operation, size, endpoint, object name, error
//! text, start, first byte, last byte and end (RFC 3339, UTC; the byte times
//! empty when absent), the duration in nanoseconds, and the categories.
use vstd::prelude::*;
use std::io::Cursor;
use crate::num::{
    all_digits, dec_str, digits_value, fmt_i64, fmt_u64, fmt_usize, int_str, lemma_dec_str_value, parse_i64,
    parse_i64_spec, parse_u64, parse_u64_spec, signed_value, unsigned_body, unsigned_value,
};
use crate::ops::{span, Operation};
use crate::text::{concat2, owned, str_chars, str_is_empty, views};

verus! {

broadcast use vstd::string::group_string_axioms;

// ---------------------------------------------------------------------------
// Outside crates
// ---------------------------------------------------------------------------

/// What `zstd::decode_all` gives for `data`: the decompressed bytes, or
/// `None` when it fails.
pub uninterp spec fn zstd_decoded(data: Seq<u8>) -> Option<Seq<u8>>;

/// What `zstd::encode_all` gives for `data` at level 3: the compressed
/// bytes, or `None` when it fails.
pub uninterp spec fn zstd_encoded(data: Seq<u8>) -> Option<Seq<u8>>;

/// Calls `zstd::decode_all` on the bytes; the error is rendered as text.
#[verifier::external_body]
fn zstd_decode(data: &[u8]) -> (r: Result<Vec<u8>, String>)
    ensures
        r is Ok <==> zstd_decoded(data@) is Some,
        r matches Ok(b) ==> zstd_decoded(data@) == Some(b@),
{
    zstd::decode_all(data).map_err(|e| e.to_string())
}

/// Calls `zstd::encode_all` on the bytes at level 3; the error is rendered
/// as text. What it writes, `zstd::decode_all` reads back.
#[verifier::external_body]
fn zstd_encode(data: &[u8]) -> (r: Result<Vec<u8>, String>)
    ensures
        r is Ok <==> zstd_encoded(data@) is Some,
        r matches Ok(b) ==> zstd_encoded(data@) == Some(b@) && zstd_decoded(b@) == Some(data@),
{
    zstd::encode_all(data, 3).map_err(|e| e.to_string())
}

/// What a `csv::Writer` with the tab delimiter (and otherwise default
/// settings) writes for these records, in order.
pub uninterp spec fn tsv_encoded(records: Seq<Seq<Seq<char>>>) -> Seq<u8>;

/// What a `csv::Reader` with the tab delimiter and no header row reads from
/// `data`: every record's fields, or the text of the first record it cannot
/// read.
pub uninterp spec fn tsv_decoded(data: Seq<u8>) -> Result<Seq<Seq<Seq<char>>>, Seq<char>>;

/// Every record holds `n` fields.
pub open spec fn records_of_len(records: Seq<Seq<Seq<char>>>, n: nat) -> bool {
    forall|i: int| 0 <= i < records.len() ==> (#[trigger] records[i]).len() == n
}

/// Every record holds as many fields as the first, and that is at least one.
pub open spec fn uniform_records(records: Seq<Seq<Seq<char>>>) -> bool {
    records.len() > 0 ==> records[0].len() > 0 && records_of_len(records, records[0].len())
}

/// The records begin with a byte-order mark (U+FEFF), which a reader drops
/// at the start of its input.
pub open spec fn starts_with_bom(records: Seq<Seq<Seq<char>>>) -> bool {
    records.len() > 0 && records[0].len() > 0 && records[0][0].len() > 0 && records[0][0][0] == '\u{feff}'
}

/// A `csv::Writer<Vec<u8>>` with the tab delimiter, held in a private field;
/// the wrappers below are the only way to reach it.
#[verifier::external_body]
pub struct TsvSink {
    inner: csv::Writer<Vec<u8>>,
}

/// The records written to a sink so far, in order.
pub uninterp spec fn tsv_state(w: TsvSink) -> Seq<Seq<Seq<char>>>;

/// Calls `csv::WriterBuilder::new().delimiter(b'\t').from_writer(Vec::new())`.
#[verifier::external_body]
fn tsv_writer_new() -> (r: TsvSink)
    ensures
        tsv_state(r) == Seq::<Seq<Seq<char>>>::empty(),
{
    TsvSink { inner: csv::WriterBuilder::new().delimiter(b'\t').from_writer(Vec::new()) }
}

/// Calls `csv::Writer::write_record` with the fields; the error is rendered
/// as text. On success the record follows the earlier ones; nothing is said
/// of the sink after a failure. Writing into a `Vec` the writer fails only
/// when the record holds a different number of fields than the first one.
#[verifier::external_body]
fn tsv_write_record(w: &mut TsvSink, fields: &Vec<String>) -> (r: Result<(), String>)
    ensures
        r is Ok ==> tsv_state(*final(w)) == tsv_state(*old(w)).push(views(fields@)),
        tsv_state(*old(w)).len() == 0 || fields@.len() == tsv_state(*old(w))[0].len() ==> r is Ok,
{
    w.inner.write_record(fields).map_err(|e| e.to_string())
}

/// Calls `csv::Writer::into_inner`, which only flushes into the `Vec` and so
/// does not fail. The bytes are the records' encoding, and a reader with the
/// same delimiter reads the same records back when they all have the same,
/// non-zero, number of fields and do not begin with a byte-order mark.
#[verifier::external_body]
fn tsv_finish(w: TsvSink) -> (r: Result<Vec<u8>, String>)
    ensures
        r is Ok,
        r matches Ok(b) ==> b@ == tsv_encoded(tsv_state(w)),
        r matches Ok(b) ==> (uniform_records(tsv_state(w)) && !starts_with_bom(tsv_state(w)) ==> tsv_decoded(b@)
            == Ok::<Seq<Seq<Seq<char>>>, Seq<char>>(tsv_state(w))),
{
    w.inner.into_inner().map_err(|e| e.to_string())
}

/// Calls `csv::ReaderBuilder` with the tab delimiter and no header row on the
/// bytes and collects every record's fields, stopping at the first record it
/// cannot read (whose error is rendered as text).
#[verifier::external_body]
fn tsv_read(data: &[u8]) -> (r: Result<Vec<Vec<String>>, String>)
    ensures
        match tsv_decoded(data@) {
            Ok(recs) => r matches Ok(v) && v@.len() == recs.len() && forall|i: int| 0 <= i < recs.len() ==> views(#[trigger] v@[i]@) == recs[i],
            Err(m) => r matches Err(e) && e@ == m,
        },
{
    let mut rdr = csv::ReaderBuilder::new().delimiter(b'\t').has_headers(false).from_reader(Cursor::new(data));
    rdr.records().map(|rec| rec.map(|r| r.iter().map(|f| f.to_string()).collect()).map_err(|e| e.to_string())).collect()
}

/// What `to_rfc3339` gives for the UTC time `nanos` nanoseconds after the
/// Unix epoch.
pub uninterp spec fn rfc3339_text(nanos: i64) -> Seq<char>;

/// What `DateTime::parse_from_rfc3339` gives for `s`, taken to UTC and to
/// nanoseconds since the epoch: `None` when the text does not parse or the
/// time is beyond the nanosecond range.
pub uninterp spec fn rfc3339_nanos(s: Seq<char>) -> Option<i64>;

/// Calls `to_rfc3339` on `DateTime::from_timestamp_nanos(nanos)`. The text is
/// never empty, and parsing it back gives the same instant.
#[verifier::external_body]
fn format_rfc3339(nanos: i64) -> (r: String)
    ensures
        r@ == rfc3339_text(nanos),
        r@.len() > 0,
        rfc3339_nanos(r@) == Some(nanos),
{
    chrono::DateTime::from_timestamp_nanos(nanos).to_rfc3339()
}

/// Calls `DateTime::parse_from_rfc3339`, then `with_timezone(&Utc)` and
/// `timestamp_nanos_opt`.
#[verifier::external_body]
fn parse_rfc3339(s: &str) -> (r: Option<i64>)
    ensures
        r == rfc3339_nanos(s@),
{
    match chrono::DateTime::parse_from_rfc3339(s) {
        Ok(t) => t.with_timezone(&chrono::Utc).timestamp_nanos_opt(),
        Err(_) => None,
    }
}

// ---------------------------------------------------------------------------
// Records
// ---------------------------------------------------------------------------

/// An optional instant as a field: empty when absent.
pub open spec fn opt_time_text(t: Option<i64>) -> Seq<char> {
    match t {
        Some(x) => rfc3339_text(x),
        None => Seq::empty(),
    }
}

/// The record of operation `op` written as the `idx`-th.
pub open spec fn op_record(idx: nat, op: Operation) -> Seq<Seq<char>> {
    seq![
        dec_str(idx),
        dec_str(op.thread as nat),
        op.op_type@,
        op.client_id@,
        dec_str(op.obj_per_op as nat),
        int_str(op.size as int),
        op.endpoint@,
        op.file@,
        op.err@,
        rfc3339_text(op.start),
        opt_time_text(op.first_byte),
        opt_time_text(op.last_byte),
        rfc3339_text(op.end),
        dec_str(span(op.start, op.end)),
        dec_str(op.categories as nat),
    ]
}

/// The records of a list of operations.
pub open spec fn ops_records(ops: Seq<Operation>) -> Seq<Seq<Seq<char>>> {
    Seq::new(ops.len(), |i: int| op_record(i as nat, ops[i]))
}

/// An instant read from a field: the epoch when it does not parse.
pub open spec fn time_or_epoch(s: Seq<char>) -> i64 {
    match rfc3339_nanos(s) {
        Some(t) => t,
        None => 0,
    }
}

/// An optional instant read from a field: absent when empty or unreadable.
pub open spec fn opt_time(s: Seq<char>) -> Option<i64> {
    if s.len() == 0 {
        None
    } else {
        rfc3339_nanos(s)
    }
}

/// A `u32` read from a field, `d` when it is not one.
pub open spec fn u32_or(s: Seq<char>, d: u32) -> u32 {
    match parse_u64_spec(s) {
        Some(v) => if v <= u32::MAX {
            v as u32
        } else {
            d
        },
        None => d,
    }
}

/// A `u64` read from a field, 0 when it is not one.
pub open spec fn u64_or_zero(s: Seq<char>) -> u64 {
    match parse_u64_spec(s) {
        Some(v) => v,
        None => 0,
    }
}

/// An `i64` read from a field, 0 when it is not one.
pub open spec fn i64_or_zero(s: Seq<char>) -> i64 {
    match parse_i64_spec(s) {
        Some(v) => v,
        None => 0,
    }
}

/// `op` is what record `r` (of at least 15 fields) reads as.
pub open spec fn record_reads_as(r: Seq<Seq<char>>, op: Operation) -> bool {
    &&& op.thread == u32_or(r[1], 0)
    &&& op.op_type@ == r[2]
    &&& op.client_id@ == r[3]
    &&& op.obj_per_op == u32_or(r[4], 1)
    &&& op.size == i64_or_zero(r[5])
    &&& op.endpoint@ == r[6]
    &&& op.file@ == r[7]
    &&& op.err@ == r[8]
    &&& op.start == time_or_epoch(r[9])
    &&& op.first_byte == opt_time(r[10])
    &&& op.last_byte == opt_time(r[11])
    &&& op.end == time_or_epoch(r[12])
    &&& op.categories == u64_or_zero(r[14])
}

/// The records of at least 15 fields, in order (shorter ones are skipped).
pub open spec fn full_records(recs: Seq<Seq<Seq<char>>>) -> Seq<Seq<Seq<char>>>
    decreases recs.len(),
{
    if recs.len() == 0 {
        Seq::empty()
    } else if recs.last().len() >= 15 {
        full_records(recs.drop_last()).push(recs.last())
    } else {
        full_records(recs.drop_last())
    }
}

/// `ops` is what the records read as: one operation per full record.
pub open spec fn records_read_as(recs: Seq<Seq<Seq<char>>>, ops: Seq<Operation>) -> bool {
    let full = full_records(recs);
    &&& ops.len() == full.len()
    &&& forall|i: int| 0 <= i < ops.len() ==> record_reads_as(#[trigger] full[i], ops[i])
}

/// What reading the uncompressed records `data` gives: the operations of
/// its full records, or the reader's error.
pub open spec fn tsv_outcome(data: Seq<u8>, r: Result<Vec<Operation>, String>) -> bool {
    match tsv_decoded(data) {
        Ok(recs) => r matches Ok(v) && records_read_as(recs, v@),
        Err(m) => r matches Err(e) && e@ == "CSV error: "@ + m,
    }
}

/// `a` and `b` hold the same values in every field.
pub open spec fn same_op(a: Operation, b: Operation) -> bool {
    &&& a.start == b.start
    &&& a.end == b.end
    &&& a.first_byte == b.first_byte
    &&& a.last_byte == b.last_byte
    &&& a.op_type@ == b.op_type@
    &&& a.err@ == b.err@
    &&& a.file@ == b.file@
    &&& a.client_id@ == b.client_id@
    &&& a.endpoint@ == b.endpoint@
    &&& a.obj_per_op == b.obj_per_op
    &&& a.size == b.size
    &&& a.thread == b.thread
    &&& a.categories == b.categories
}

/// The two lists hold the same operations, in the same order.
pub open spec fn same_ops(a: Seq<Operation>, b: Seq<Operation>) -> bool {
    a.len() == b.len() && forall|i: int| 0 <= i < a.len() ==> same_op(#[trigger] a[i], b[i])
}

/// The instants of `op` are written as non-empty text that reads back as
/// the same instants.
pub open spec fn times_read_back(op: Operation) -> bool {
    &&& rfc3339_nanos(rfc3339_text(op.start)) == Some(op.start)
    &&& rfc3339_nanos(rfc3339_text(op.end)) == Some(op.end)
    &&& (op.first_byte matches Some(t) ==> rfc3339_text(t).len() > 0 && rfc3339_nanos(rfc3339_text(t))
        == Some(t))
    &&& (op.last_byte matches Some(t) ==> rfc3339_text(t).len() > 0 && rfc3339_nanos(rfc3339_text(t))
        == Some(t))
}

/// Every way of reading the uncompressed records `data` gives `ops` back.
pub open spec fn tsv_reads_back(data: Seq<u8>, ops: Seq<Operation>) -> bool {
    forall|r: Result<Vec<Operation>, String>| #[trigger]
        tsv_outcome(data, r) ==> (r matches Ok(v) && same_ops(v@, ops))
}

/// What reading the operations file `compressed` gives (the contract of
/// [`read_ops_zst`]).
pub open spec fn read_outcome(compressed: Seq<u8>, r: Result<Vec<Operation>, String>) -> bool {
    match zstd_decoded(compressed) {
        Some(d) => tsv_outcome(d, r),
        None => r matches Err(e) && e@.len() >= 12 && e@.subrange(0, 12) == "Zstd error: "@,
    }
}

/// The file `compressed` decompresses, and its records read back as `ops`.
pub open spec fn file_reads_back(compressed: Seq<u8>, ops: Seq<Operation>) -> bool {
    match zstd_decoded(compressed) {
        Some(d) => tsv_reads_back(d, ops),
        None => false,
    }
}

proof fn lemma_u64_text(n: u64)
    ensures
        parse_u64_spec(dec_str(n as nat)) == Some(n),
{
    let s = dec_str(n as nat);
    lemma_dec_str_value(n as nat);
    assert(s.len() > 0);
    assert(s[0] != '+');
    assert(unsigned_body(s) == s);
    assert(all_digits(s));
    assert(unsigned_value(s) == Some(n as nat));
}

proof fn lemma_i64_text(x: i64)
    ensures
        parse_i64_spec(int_str(x as int)) == Some(x),
{
    if x >= 0 {
        lemma_u64_text(x as u64);
        let s = dec_str(x as nat);
        lemma_dec_str_value(x as nat);
        assert(s[0] != '-');
        assert(unsigned_value(s) == Some(x as nat));
        assert(signed_value(s) == Some(x as int));
    } else {
        let m = (-(x as int)) as nat;
        let d = dec_str(m);
        lemma_dec_str_value(m);
        let s = int_str(x as int);
        assert(s == seq!['-'] + d);
        assert(s.len() > 0 && s[0] == '-');
        let body = s.subrange(1, s.len() as int);
        assert(body =~= d);
        assert(all_digits(body));
        assert(signed_value(s) == Some(-(m as int)));
    }
}

/// The record of `op` reads back as `op`.
proof fn lemma_record_reads_back(idx: nat, op: Operation, back: Operation)
    requires
        times_read_back(op),
        record_reads_as(op_record(idx, op), back),
    ensures
        same_op(back, op),
{
    let r = op_record(idx, op);
    lemma_u64_text(op.thread as u64);
    lemma_u64_text(op.obj_per_op as u64);
    lemma_u64_text(op.categories);
    lemma_i64_text(op.size);
    assert(r[1] == dec_str(op.thread as nat));
    assert(r[4] == dec_str(op.obj_per_op as nat));
    assert(r[5] == int_str(op.size as int));
    assert(r[14] == dec_str(op.categories as nat));
    assert(r[9] == rfc3339_text(op.start));
    assert(r[12] == rfc3339_text(op.end));
    assert(r[10] == opt_time_text(op.first_byte));
    assert(r[11] == opt_time_text(op.last_byte));
}

/// When every record has at least 15 fields, none is skipped.
proof fn lemma_all_full(recs: Seq<Seq<Seq<char>>>)
    requires
        records_of_len(recs, 15),
    ensures
        full_records(recs) == recs,
    decreases recs.len(),
{
    if recs.len() > 0 {
        lemma_all_full(recs.drop_last());
        assert(full_records(recs.drop_last()).push(recs.last()) =~= recs);
    }
}

/// The written records of operations whose instants read back are read back
/// as the same operations.
proof fn lemma_records_read_back(ops: Seq<Operation>, data: Seq<u8>)
    requires
        tsv_decoded(data) == Ok::<Seq<Seq<Seq<char>>>, Seq<char>>(ops_records(ops)),
        forall|k: int| 0 <= k < ops.len() ==> times_read_back(#[trigger] ops[k]),
    ensures
        tsv_reads_back(data, ops),
{
    let recs = ops_records(ops);
    assert(records_of_len(recs, 15));
    lemma_all_full(recs);
    assert forall|r: Result<Vec<Operation>, String>| #[trigger]
        tsv_outcome(data, r) implies (r matches Ok(v) && same_ops(v@, ops)) by {
        let v = r->Ok_0;
        assert forall|i: int| 0 <= i < v@.len() implies same_op(#[trigger] v@[i], ops[i]) by {
            assert(record_reads_as(full_records(recs)[i], v@[i]));
            assert(recs[i] == op_record(i as nat, ops[i]));
            lemma_record_reads_back(i as nat, ops[i], v@[i]);
        }
    }
}

/// Law: an operations file that [`write_ops_zst`] wrote for `ops` is read by
/// [`read_ops_zst`] as the same operations, field by field.
pub proof fn law_read_after_write(ops: Seq<Operation>, compressed: Seq<u8>, r: Result<Vec<Operation>, String>)
    requires
        file_reads_back(compressed, ops),
        read_outcome(compressed, r),
    ensures
        r matches Ok(v) && same_ops(v@, ops),
{
}

fn u32_field(s: &String, d: u32) -> (r: u32)
    ensures
        r == u32_or(s@, d),
{
    let c = str_chars(s.as_str());
    match parse_u64(c.as_slice()) {
        Some(v) => if v <= u32::MAX as u64 {
            v as u32
        } else {
            d
        },
        None => d,
    }
}

fn time_field(s: &String) -> (r: i64)
    ensures
        r == time_or_epoch(s@),
{
    match parse_rfc3339(s.as_str()) {
        Some(t) => t,
        None => 0,
    }
}

fn opt_time_field(s: &String) -> (r: Option<i64>)
    ensures
        r == opt_time(s@),
{
    if str_is_empty(s.as_str()) {
        None
    } else {
        parse_rfc3339(s.as_str())
    }
}

/// The operation a record of at least 15 fields reads as.
fn op_from_record(r: &Vec<String>) -> (op: Operation)
    requires
        r@.len() >= 15,
    ensures
        record_reads_as(views(r@), op),
{
    let size = match parse_i64(str_chars(r[5].as_str()).as_slice()) {
        Some(v) => v,
        None => 0,
    };
    let categories = match parse_u64(str_chars(r[14].as_str()).as_slice()) {
        Some(v) => v,
        None => 0,
    };
    Operation {
        start: time_field(&r[9]),
        end: time_field(&r[12]),
        first_byte: opt_time_field(&r[10]),
        last_byte: opt_time_field(&r[11]),
        op_type: owned(r[2].as_str()),
        err: owned(r[8].as_str()),
        file: owned(r[7].as_str()),
        client_id: owned(r[3].as_str()),
        endpoint: owned(r[6].as_str()),
        obj_per_op: u32_field(&r[4], 1),
        size,
        thread: u32_field(&r[1], 0),
        categories,
    }
}

/// Reads uncompressed records: one operation per record of at least 15
/// fields (shorter records are skipped), fields that do not parse taking
/// their defaults (the epoch for times, 1 object per operation, 0
/// otherwise); the reader's error is reported as a CSV error.
pub fn decode_ops_tsv(data: &[u8]) -> (r: Result<Vec<Operation>, String>)
    ensures
        tsv_outcome(data@, r),
{
    let recs = match tsv_read(data) {
        Ok(v) => v,
        Err(e) => return Err(concat2("CSV error: ", e.as_str())),
    };
    let ghost rv = match tsv_decoded(data@) {
        Ok(x) => x,
        Err(_) => Seq::empty(),
    };
    assert(tsv_decoded(data@) is Ok);
    let mut out: Vec<Operation> = Vec::new();
    let mut i: usize = 0;
    while i < recs.len()
        invariant
            i <= recs@.len(),
            recs@.len() == rv.len(),
            forall|k: int| 0 <= k < rv.len() ==> views(#[trigger] recs@[k]@) == rv[k],
            records_read_as(rv.subrange(0, i as int), out@),
        decreases recs@.len() - i,
    {
        let ghost pre = rv.subrange(0, i as int);
        let ghost next = rv.subrange(0, i + 1);
        assert(next.drop_last() =~= pre);
        assert(next.last() == rv[i as int]);
        assert(views(recs@[i as int]@) == rv[i as int]);
        if recs[i].len() >= 15 {
            let op = op_from_record(&recs[i]);
            let ghost before = out@;
            out.push(op);
            proof {
                let full = full_records(next);
                assert(full == full_records(pre).push(rv[i as int]));
                assert forall|k: int| 0 <= k < out@.len() implies record_reads_as(#[trigger] full[k], out@[k]) by {
                    if k < before.len() {
                        assert(full[k] == full_records(pre)[k]);
                    }
                }
            }
        } else {
            assert(full_records(next) == full_records(pre));
        }
        i = i + 1;
    }
    assert(rv.subrange(0, rv.len() as int) =~= rv);
    Ok(out)
}

/// The fields of operation `op` written as the `idx`-th.
fn op_fields(idx: usize, op: &Operation) -> (r: Vec<String>)
    ensures
        views(r@) == op_record(idx as nat, *op),
        times_read_back(*op),
{
    let mut v: Vec<String> = Vec::new();
    v.push(fmt_usize(idx));
    v.push(fmt_u64(op.thread as u64));
    v.push(owned(op.op_type.as_str()));
    v.push(owned(op.client_id.as_str()));
    v.push(fmt_u64(op.obj_per_op as u64));
    v.push(fmt_i64(op.size));
    v.push(owned(op.endpoint.as_str()));
    v.push(owned(op.file.as_str()));
    v.push(owned(op.err.as_str()));
    v.push(format_rfc3339(op.start));
    v.push(match op.first_byte {
        Some(t) => format_rfc3339(t),
        None => String::new(),
    });
    v.push(match op.last_byte {
        Some(t) => format_rfc3339(t),
        None => String::new(),
    });
    v.push(format_rfc3339(op.end));
    v.push(fmt_u64(op.duration()));
    v.push(fmt_u64(op.categories));
    assert(views(v@) =~= op_record(idx as nat, *op));
    v
}

/// Writes the operations as uncompressed records, the `i`-th operation as
/// record `i`. Every record has the same 15 fields, so the writer does not
/// fail.
pub fn encode_ops_tsv(ops: &[Operation]) -> (r: Result<Vec<u8>, String>)
    ensures
        r is Ok,
        r matches Ok(b) ==> b@ == tsv_encoded(ops_records(ops@)),
        r matches Ok(b) ==> tsv_decoded(b@) == Ok::<Seq<Seq<Seq<char>>>, Seq<char>>(ops_records(ops@)),
        r matches Ok(b) ==> tsv_reads_back(b@, ops@),
{
    let mut w = tsv_writer_new();
    let mut i: usize = 0;
    while i < ops.len()
        invariant
            i <= ops@.len(),
            tsv_state(w) == ops_records(ops@.subrange(0, i as int)),
            forall|k: int| 0 <= k < i ==> times_read_back(#[trigger] ops@[k]),
        decreases ops@.len() - i,
    {
        let fields = op_fields(i, &ops[i]);
        assert(fields@.len() == 15) by {
            assert(views(fields@).len() == 15);
        }
        if i > 0 {
            assert(tsv_state(w)[0] == op_record(0, ops@[0]));
        }
        match tsv_write_record(&mut w, &fields) {
            Ok(()) => {},
            Err(e) => return Err(e),
        }
        assert(tsv_state(w) =~= ops_records(ops@.subrange(0, i + 1)));
        i = i + 1;
    }
    assert(ops@.subrange(0, ops@.len() as int) =~= ops@);
    let ghost st = tsv_state(w);
    assert(records_of_len(st, 15));
    assert(uniform_records(st));
    proof {
        if st.len() > 0 {
            lemma_dec_str_value(0);
            assert(st[0][0] == dec_str(0));
            assert('0' <= st[0][0][0] <= '9');
        }
    }
    match tsv_finish(w) {
        Ok(b) => {
            proof {
                lemma_records_read_back(ops@, b@);
            }
            Ok(b)
        },
        Err(e) => Err(e),
    }
}

/// Reads an operations file: decompresses it and reads its records; a zstd
/// failure is reported as a zstd error.
pub fn read_ops_zst(compressed: &[u8]) -> (r: Result<Vec<Operation>, String>)
    ensures
        read_outcome(compressed@, r),
{
    match zstd_decode(compressed) {
        Ok(d) => decode_ops_tsv(d.as_slice()),
        Err(e) => {
            let m = concat2("Zstd error: ", e.as_str());
            proof {
                reveal_strlit("Zstd error: ");
                assert(m@.subrange(0, 12) =~= "Zstd error: "@);
            }
            Err(m)
        },
    }
}

/// Writes an operations file: the records, compressed at level 3; a
/// compression failure is reported as a zstd error.
pub fn write_ops_zst(ops: &[Operation]) -> (r: Result<Vec<u8>, String>)
    ensures
        r is Ok <==> zstd_encoded(tsv_encoded(ops_records(ops@))) is Some,
        r matches Ok(b) ==> zstd_encoded(tsv_encoded(ops_records(ops@))) == Some(b@),
        r matches Ok(b) ==> zstd_decoded(b@) == Some(tsv_encoded(ops_records(ops@))),
        r matches Ok(b) ==> tsv_decoded(tsv_encoded(ops_records(ops@))) == Ok::<Seq<Seq<Seq<char>>>, Seq<char>>(
            ops_records(ops@),
        ),
        r matches Ok(b) ==> file_reads_back(b@, ops@),
        r matches Err(e) ==> e@.len() >= 12 && e@.subrange(0, 12) == "Zstd error: "@,
{
    let data = encode_ops_tsv(ops)?;
    match zstd_encode(data.as_slice()) {
        Ok(b) => Ok(b),
        Err(e) => {
            let m = concat2("Zstd error: ", e.as_str());
            proof {
                reveal_strlit("Zstd error: ");
                assert(m@.subrange(0, 12) =~= "Zstd error: "@);
            }
            Err(m)
        },
    }
}

} // verus!
