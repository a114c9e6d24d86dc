//! How a run is put together from its settings: which benchmark a run file
//! starts and with which fixed parameters, how object sizes are turned
//! random, which checksum an upload uses, and where the analysis of a run
//! is saved.
use vstd::prelude::*;
use crate::checksum::{checksum_from_upper, ChecksumType};
use crate::generator::{ObjSize, ObjSizeView};
use crate::text::{concat2, owned, replace_all, replace_spec, str_eq, unicode_upper};

verus! {

broadcast use vstd::string::group_string_axioms;

/// Five MiB, the part size of the multipart benchmarks of a run file.
pub const FIVE_MIB: usize = 5242880;

/// A benchmark a run file starts, with the parameters it fixes.
#[derive(Debug, Clone, PartialEq, Eq)]
pub enum RunPlan {
    Mixed,
    Get { versions: usize },
    Put,
    Delete { batch_size: usize },
    List { versioned: bool },
    Stat,
    Versioned,
    Retention { versions: usize },
    Multipart { part_size: usize, parts: usize, object: String },
    MultipartPut { parts: usize, part_size: usize, part_concurrency: usize },
    Snowball { objects_per_archive: usize },
    Fanout { copies: usize },
    Append,
    Zip { entries: usize },
}

/// The plan a run file's benchmark name selects, with `versions` from its
/// parameters; `None` for an unknown name.
pub open spec fn plan_spec(name: Seq<char>, versions: nat) -> Option<RunPlan> {
    if name == "mixed"@ {
        Some(RunPlan::Mixed)
    } else if name == "get"@ {
        Some(RunPlan::Get { versions: if versions > 1 { versions as usize } else { 1 } })
    } else if name == "put"@ {
        Some(RunPlan::Put)
    } else if name == "delete"@ {
        Some(RunPlan::Delete { batch_size: 100 })
    } else if name == "list"@ {
        Some(RunPlan::List { versioned: versions > 1 })
    } else if name == "stat"@ {
        Some(RunPlan::Stat)
    } else if name == "versioned"@ {
        Some(RunPlan::Versioned)
    } else if name == "retention"@ {
        Some(RunPlan::Retention { versions: if versions > 0 { versions as usize } else { 5 } })
    } else if name == "multipart-put"@ {
        Some(RunPlan::MultipartPut { parts: 8, part_size: FIVE_MIB, part_concurrency: 4 })
    } else if name == "snowball"@ {
        Some(RunPlan::Snowball { objects_per_archive: 4 })
    } else if name == "fanout"@ {
        Some(RunPlan::Fanout { copies: 4 })
    } else if name == "append"@ {
        Some(RunPlan::Append)
    } else if name == "zip"@ {
        Some(RunPlan::Zip { entries: 8 })
    } else {
        None
    }
}

/// The plan of a run file: its benchmark with the parameters the file
/// fixes; an error for an unsupported name.
pub fn plan_for_run_file(benchmark: &str, versions: usize) -> (r: Result<RunPlan, String>)
    ensures
        benchmark@ == "multipart"@ ==> (r matches Ok(RunPlan::Multipart { part_size, parts, object })
            && part_size == FIVE_MIB && parts == 200 && object@ == "s3perf-multipart.bin"@),
        benchmark@ != "multipart"@ ==> match plan_spec(benchmark@, versions as nat) {
            Some(p) => r == Ok::<RunPlan, String>(p),
            None => r matches Err(m) && m@ == "unsupported benchmark type: "@ + benchmark@,
        },
{
    proof {
        reveal_strlit("mixed");
        reveal_strlit("get");
        reveal_strlit("put");
        reveal_strlit("delete");
        reveal_strlit("list");
        reveal_strlit("stat");
        reveal_strlit("versioned");
        reveal_strlit("retention");
        reveal_strlit("multipart");
        reveal_strlit("multipart-put");
        reveal_strlit("snowball");
        reveal_strlit("fanout");
        reveal_strlit("append");
        reveal_strlit("zip");
        assert("multipart"@[0] != "versioned"@[0]);
        assert("multipart"@[0] != "retention"@[0]);
        assert("multipart"@.len() == 9);
        assert("mixed"@.len() == 5);
        assert("multipart"@ != "mixed"@);
        assert("multipart"@ != "get"@);
        assert("multipart"@ != "put"@);
        assert("multipart"@ != "delete"@);
        assert("multipart"@ != "list"@);
        assert("multipart"@ != "stat"@);
        assert("multipart"@ != "versioned"@);
        assert("multipart"@ != "retention"@);
    }
    if str_eq(benchmark, "mixed") {
        Ok(RunPlan::Mixed)
    } else if str_eq(benchmark, "get") {
        Ok(RunPlan::Get { versions: if versions > 1 { versions } else { 1 } })
    } else if str_eq(benchmark, "put") {
        Ok(RunPlan::Put)
    } else if str_eq(benchmark, "delete") {
        Ok(RunPlan::Delete { batch_size: 100 })
    } else if str_eq(benchmark, "list") {
        Ok(RunPlan::List { versioned: versions > 1 })
    } else if str_eq(benchmark, "stat") {
        Ok(RunPlan::Stat)
    } else if str_eq(benchmark, "versioned") {
        Ok(RunPlan::Versioned)
    } else if str_eq(benchmark, "retention") {
        Ok(RunPlan::Retention { versions: if versions > 0 { versions } else { 5 } })
    } else if str_eq(benchmark, "multipart") {
        Ok(RunPlan::Multipart { part_size: FIVE_MIB, parts: 200, object: owned("s3perf-multipart.bin") })
    } else if str_eq(benchmark, "multipart-put") {
        Ok(RunPlan::MultipartPut { parts: 8, part_size: FIVE_MIB, part_concurrency: 4 })
    } else if str_eq(benchmark, "snowball") {
        Ok(RunPlan::Snowball { objects_per_archive: 4 })
    } else if str_eq(benchmark, "fanout") {
        Ok(RunPlan::Fanout { copies: 4 })
    } else if str_eq(benchmark, "append") {
        Ok(RunPlan::Append)
    } else if str_eq(benchmark, "zip") {
        Ok(RunPlan::Zip { entries: 8 })
    } else {
        Err(concat2("unsupported benchmark type: ", benchmark))
    }
}

/// Law: the run-file benchmarks that take the file's `versions` use it. The
/// retention benchmark keeps that many versions when it is positive (five
/// otherwise); the get benchmark reads that many versions when more than
/// one (one otherwise); the list benchmark lists versions exactly when more
/// than one is asked for.
pub proof fn law_run_file_versions(versions: nat)
    requires
        versions <= usize::MAX,
    ensures
        versions > 0 ==> plan_spec("retention"@, versions) == Some(RunPlan::Retention { versions: versions as usize }),
        versions == 0 ==> plan_spec("retention"@, versions) == Some(RunPlan::Retention { versions: 5 }),
        versions >= 1 ==> plan_spec("get"@, versions) == Some(RunPlan::Get { versions: versions as usize }),
        versions == 0 ==> plan_spec("get"@, versions) == Some(RunPlan::Get { versions: 1 }),
        plan_spec("list"@, versions) == Some(RunPlan::List { versioned: versions > 1 }),
{
    reveal_strlit("mixed");
    reveal_strlit("get");
    reveal_strlit("put");
    reveal_strlit("delete");
    reveal_strlit("list");
    reveal_strlit("stat");
    reveal_strlit("versioned");
    reveal_strlit("retention");
    assert("retention"@.len() == 9 && "versioned"@.len() == 9);
    assert("mixed"@.len() == 5 && "get"@.len() == 3 && "put"@.len() == 3 && "delete"@.len() == 6);
    assert("list"@.len() == 4 && "stat"@.len() == 4);
    assert("retention"@[0] != "versioned"@[0]);
    assert("get"@[0] != "mixed"@[0]);
    assert("list"@[0] != "stat"@[0]);
}

/// The random-size strategy a size turns into when random sizes are asked
/// for: a fixed size or random maximum is kept as the maximum, a bucket list
/// gives its first size (1 MiB for an empty list).
pub open spec fn randomized_max(o: ObjSizeView) -> int {
    match o {
        ObjSizeView::Fixed(s) => s,
        ObjSizeView::Random(m) => m,
        ObjSizeView::Bucketed(b, _) => if b.len() > 0 {
            b[0].0
        } else {
            1048576
        },
    }
}

/// See [`randomized_max`].
pub fn randomized(o: &ObjSize) -> (r: ObjSize)
    ensures
        r@ == ObjSizeView::Random(randomized_max(o@)),
{
    let max = match o {
        ObjSize::Fixed(s) => *s,
        ObjSize::Random { max } => *max,
        ObjSize::Bucketed { buckets, .. } => if buckets.len() > 0 {
            buckets[0].0
        } else {
            1048576
        },
    };
    ObjSize::Random { max }
}

/// The object size the snowball, fan-out and append benchmarks use: a fixed
/// size (taken as a `usize`, as `as` does), else their default.
pub fn fixed_or(o: &ObjSize, default: usize) -> (r: usize)
    ensures
        o@ matches ObjSizeView::Fixed(s) ==> r == s as usize,
        !(o@ matches ObjSizeView::Fixed(_)) ==> r == default,
{
    match o {
        ObjSize::Fixed(s) => *s as usize,
        _ => default,
    }
}

/// The checksum of an upload: the one a `--checksum` value names, else MD5
/// when `--md5` is given, else none.
pub fn upload_checksum(flag: &str, md5: bool) -> (r: Option<ChecksumType>)
    ensures
        flag@.len() > 0 && checksum_from_upper(unicode_upper(flag@)) is Some ==> r == checksum_from_upper(
            unicode_upper(flag@),
        ),
        !(flag@.len() > 0 && checksum_from_upper(unicode_upper(flag@)) is Some) ==> r == (if md5 {
            Some(ChecksumType::MD5)
        } else {
            None
        }),
{
    match ChecksumType::from_cli_flag(flag) {
        Some(t) => Some(t),
        None => if md5 {
            Some(ChecksumType::MD5)
        } else {
            None
        },
    }
}

/// Where the analysis of a run is saved beside its operations file: every
/// `.csv.zst` of the path replaced by `.json.zst`.
pub fn json_path_for(csv_path: &str) -> (r: String)
    ensures
        r@ == replace_spec(csv_path@, ".csv.zst"@, ".json.zst"@),
{
    proof {
        reveal_strlit(".csv.zst");
    }
    replace_all(csv_path, ".csv.zst", ".json.zst")
}

} // verus!
