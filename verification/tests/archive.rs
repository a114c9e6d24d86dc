use s3perf::archive::{build_zip_bytes, zip_entry_name_exec, zip_entry_size, zip_object_key};
use s3perf::generator::ObjSize;
use rand::SeedableRng;
use s3perf::workload::{append_chain_start, append_key, append_logical_size, append_next, AppendChain, MAX_APPEND_PARTS};
use std::io::Read;

#[test]
fn zip_entry_names_are_padded() {
    assert_eq!(zip_entry_name_exec("run", 0), "run/f-000000.bin");
    assert_eq!(zip_entry_name_exec("run", 42), "run/f-000042.bin");
    assert_eq!(zip_entry_name_exec("p", 1234567), "p/f-1234567.bin");
}

#[test]
fn zip_archive_holds_the_entries() {
    let mut rng = rand::rngs::SmallRng::seed_from_u64(7);
    let bytes = build_zip_bytes("pre", 3, 100, &mut rng).unwrap();
    let mut archive = zip::ZipArchive::new(std::io::Cursor::new(bytes)).unwrap();
    assert_eq!(archive.len(), 3);
    for i in 0..3 {
        let mut f = archive.by_index(i).unwrap();
        assert_eq!(f.name(), format!("pre/f-{i:06}.bin"));
        let mut data = Vec::new();
        f.read_to_end(&mut data).unwrap();
        assert_eq!(data.len(), 100);
    }
}

#[test]
fn zip_with_no_entries_is_empty_archive() {
    let mut rng = rand::rngs::SmallRng::seed_from_u64(1);
    let bytes = build_zip_bytes("pre", 0, 10, &mut rng).unwrap();
    let archive = zip::ZipArchive::new(std::io::Cursor::new(bytes)).unwrap();
    assert_eq!(archive.len(), 0);
}

#[test]
fn zip_entry_sizes() {
    let mut rng = rand::rngs::SmallRng::seed_from_u64(3);
    assert_eq!(zip_entry_size(&ObjSize::Fixed(500), &mut rng), 500);
    assert_eq!(zip_entry_size(&ObjSize::Fixed(0), &mut rng), 1);
    for _ in 0..50 {
        let s = zip_entry_size(&ObjSize::Random { max: 8 }, &mut rng);
        assert!((1..=8).contains(&s));
    }
    assert_eq!(zip_entry_size(&ObjSize::Random { max: 0 }, &mut rng), 1);
    assert_eq!(zip_entry_size(&ObjSize::Bucketed { buckets: vec![(2048, 1), (4096, 3)], total_weight: 4 }, &mut rng), 2048);
    assert_eq!(zip_entry_size(&ObjSize::Bucketed { buckets: vec![], total_weight: 0 }, &mut rng), 4096);
}

#[test]
fn zip_object_keys_are_unique_uuids() {
    let a = zip_object_key("p");
    let b = zip_object_key("p");
    assert!(a.starts_with("p/") && a.ends_with(".zip"));
    assert_eq!(a.len(), 2 + 36 + 4);
    assert_ne!(a, b);
}

#[test]
fn append_chains_rotate_objects() {
    let c = append_chain_start(3);
    assert_eq!(c, AppendChain { part: 1, counter: 3 });
    assert_eq!(append_next(c), AppendChain { part: 2, counter: 3 });
    let last = AppendChain { part: MAX_APPEND_PARTS, counter: 3 };
    assert_eq!(append_next(last), AppendChain { part: 1, counter: 4 });
    assert_eq!(append_key("pre", 255), "pre.00000000000000ff.append");
    assert_eq!(append_logical_size(3, 1024), 3072);
}
