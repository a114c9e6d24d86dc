use rand::SeedableRng;
use s3perf::generator::{
    read_object_bytes, DefaultSource, LastByte, MultiPrefixSource, ObjSize, RandomReader, ReadSeek, SeekError,
    SeekPos, Source,
};

fn stream(seed: u64, offset: u64, n: usize) -> Vec<u8> {
    let mut out = Vec::with_capacity(n);
    for i in 0..n {
        let mut state = seed.wrapping_mul(6364136223846793005).wrapping_add(offset.wrapping_add(i as u64));
        state ^= state << 13;
        state ^= state >> 7;
        state ^= state << 17;
        out.push((state >> 8) as u8);
    }
    out
}

#[test]
fn obj_size_parse_forms() {
    match ObjSize::parse("1048576").unwrap() {
        ObjSize::Fixed(s) => assert_eq!(s, 1048576),
        _ => panic!("expected a fixed size"),
    }
    match ObjSize::parse("rand:4096").unwrap() {
        ObjSize::Random { max } => assert_eq!(max, 4096),
        _ => panic!("expected a random size"),
    }
    match ObjSize::parse("4096:10740,8192:1685").unwrap() {
        ObjSize::Bucketed { buckets, total_weight } => {
            assert_eq!(buckets, vec![(4096, 10740), (8192, 1685)]);
            assert_eq!(total_weight, 12425);
        }
        _ => panic!("expected buckets"),
    }
}

#[test]
fn obj_size_parse_errors() {
    assert_eq!(ObjSize::parse("abc").unwrap_err(), "invalid fixed object size: invalid digit found in string");
    assert_eq!(ObjSize::parse("rand:").unwrap_err(), "invalid random suffix max bytes: cannot parse integer from empty string");
    assert_eq!(ObjSize::parse("4096:1,8192").unwrap_err(), "invalid bucket spec `8192`");
    assert_eq!(ObjSize::parse("x:1").unwrap_err(), "invalid object size in bucket: invalid digit found in string");
    assert_eq!(ObjSize::parse("1:-1").unwrap_err(), "invalid bucket weight: invalid digit found in string");
    assert_eq!(
        ObjSize::parse("99999999999999999999").unwrap_err(),
        "invalid fixed object size: number too large to fit in target type"
    );
    assert!(ObjSize::parse_checked("1:18446744073709551615,2:1").is_none());
}

#[test]
fn sizes_for_draws() {
    let r = ObjSize::Random { max: 7 };
    assert_eq!(r.draw_count(), 8);
    assert_eq!(r.size_for(0), 1);
    assert_eq!(r.size_for(6), 7);
    assert_eq!(r.size_for(7), 7); // kept within max
    let b = ObjSize::Bucketed { buckets: vec![(10, 2), (20, 3)], total_weight: 5 };
    assert_eq!(b.draw_count(), 5);
    assert_eq!(b.size_for(1), 10);
    assert_eq!(b.size_for(2), 20);
    assert_eq!(b.size_for(4), 20);
    let f = ObjSize::Fixed(42);
    let mut rng = rand::rngs::SmallRng::seed_from_u64(3);
    assert_eq!(f.gen(&mut rng), 42);
    for _ in 0..100 {
        let s = r.gen(&mut rng);
        assert!((1..=8).contains(&s));
        let t = b.gen(&mut rng);
        assert!(t == 10 || t == 20);
    }
}

#[test]
fn reader_fill_read_seek() {
    let mut r = RandomReader::new(10, 99);
    let mut buf = [0u8; 4];
    r.fill_at(5, &mut buf);
    assert_eq!(buf.to_vec(), stream(99, 5, 4));
    let mut big = [7u8; 16];
    let n = r.read(&mut big);
    assert_eq!(n, 10);
    assert_eq!(big[..10].to_vec(), stream(99, 0, 10));
    assert_eq!(big[10..], [7u8; 6]);
    assert_eq!(r.read(&mut big), 0);
    assert_eq!(r.seek(SeekPos::Start(3)), Ok(3));
    let mut two = [0u8; 2];
    assert_eq!(r.read(&mut two), 2);
    assert_eq!(two.to_vec(), stream(99, 3, 2));
    assert_eq!(r.seek(SeekPos::End(-4)), Ok(6));
    assert_eq!(r.seek(SeekPos::Current(-2)), Ok(4));
    assert_eq!(r.seek(SeekPos::Current(-5)), Err(SeekError::NegativeOffset));
    assert_eq!(SeekError::NegativeOffset.message(), "negative seek offset");
    assert_eq!(r.last_byte(), Some(9));
    assert_eq!(RandomReader::new(0, 1).last_byte(), None);
}

#[test]
fn object_bytes() {
    let mut src = DefaultSource::new("pfx".to_string(), ObjSize::Fixed(100), 5);
    let o = src.object();
    assert_eq!(o.name, "pfx.0000000000000000.data");
    assert_eq!(o.size, 100);
    assert_eq!(o.last_byte, Some(99));
    assert_eq!(o.content_type, "application/octet-stream");
    let bytes = read_object_bytes(o);
    assert_eq!(bytes, stream(5, 0, 100));
    let o2 = src.object();
    assert_eq!(o2.name, "pfx.0000000000000001.data");
    assert_eq!(read_object_bytes(o2), stream(6, 0, 100));
    let empty = DefaultSource::new("e".to_string(), ObjSize::Fixed(0), 1).object();
    assert_eq!(empty.last_byte, None);
    assert!(read_object_bytes(empty).is_empty());
}

#[test]
fn multi_prefix_sources_take_turns() {
    let mut m = MultiPrefixSource::new("base".to_string(), ObjSize::Fixed(8), 2, 10);
    assert_eq!(m.prefix(), "base-0");
    let a = m.object();
    let b = m.object();
    let c = m.object();
    assert_eq!(a.name, "base-0.0000000000000000.data");
    assert_eq!(b.name, "base-1.0000000000000000.data");
    assert_eq!(c.name, "base-0.0000000000000001.data");
    m.set_prefix("other".to_string());
    assert_eq!(m.prefix(), "base-0");
    let single = MultiPrefixSource::new("solo".to_string(), ObjSize::Fixed(8), 1, 10);
    assert_eq!(single.prefix(), "solo");
    let mut d = DefaultSource::new("x".to_string(), ObjSize::Fixed(1), 0);
    d.set_prefix("y".to_string());
    assert_eq!(d.prefix(), "y");
}

#[test]
fn reader_bytes_do_not_depend_on_read_sizes() {
    let mut whole = RandomReader::new(2, 0);
    let mut a = [0u8; 2];
    assert_eq!(whole.read(&mut a), 2);
    let mut split = RandomReader::new(2, 0);
    let mut b1 = [0u8; 1];
    let mut b2 = [0u8; 1];
    assert_eq!(split.read(&mut b1), 1);
    assert_eq!(split.read(&mut b2), 1);
    assert_eq!(a.to_vec(), vec![b1[0], b2[0]]);
    let mut big = RandomReader::new(100, 42);
    let mut all = [0u8; 100];
    big.read(&mut all);
    let mut again = RandomReader::new(100, 42);
    let mut parts = Vec::new();
    for size in [7usize, 1, 30, 62] {
        let mut buf = vec![0u8; size];
        let n = again.read(&mut buf);
        parts.extend_from_slice(&buf[..n]);
    }
    assert_eq!(parts, all.to_vec());
}

#[test]
fn reads_in_sequence_cover_the_stream_once() {
    let mut r = RandomReader::new(10, 7);
    let mut got = Vec::new();
    let mut counts = Vec::new();
    for _ in 0..5 {
        let mut buf = [0xAAu8; 3];
        let n = r.read(&mut buf);
        counts.push(n);
        got.extend_from_slice(&buf[..n]);
        assert!(buf[n..].iter().all(|&b| b == 0xAA));
    }
    assert_eq!(counts, vec![3, 3, 3, 1, 0]);
    assert_eq!(got, stream(7, 0, 10));
}
