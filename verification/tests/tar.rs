use s3perf::tar::build_tar;

#[test]
fn empty_archive_is_end_marker() {
    let t = build_tar("p", b"abc", 0);
    assert_eq!(t, vec![0u8; 1024]);
}

#[test]
fn single_entry_layout() {
    let data = b"hello";
    let t = build_tar("snow", data, 1);
    assert_eq!(t.len(), 512 + 512 + 1024);
    let h = &t[..512];
    let name = b"snow/obj-00000000.dat";
    assert_eq!(&h[..name.len()], name);
    assert!(h[name.len()..100].iter().all(|&b| b == 0));
    assert_eq!(&h[100..108], b"0000644 ");
    assert_eq!(&h[108..116], b"0000750 ");
    assert_eq!(&h[116..124], b"0000750 ");
    assert_eq!(&h[124..135], b"00000000005");
    assert_eq!(h[135], 0);
    assert_eq!(&h[136..147], b"00000000000");
    assert_eq!(h[156], b'0');
    assert_eq!(&h[257..263], b"ustar ");
    assert_eq!(&h[263..265], b" \0");
    let mut blank = h.to_vec();
    blank[148..156].copy_from_slice(b"        ");
    let sum: u32 = blank.iter().map(|&b| b as u32).sum();
    assert_eq!(std::str::from_utf8(&h[148..154]).unwrap(), format!("{:06o}", sum));
    assert_eq!(h[154], 0);
    assert_eq!(h[155], b' ');
    assert_eq!(&t[512..517], data);
    assert!(t[517..].iter().all(|&b| b == 0));
}

#[test]
fn entries_are_block_aligned() {
    let data = vec![7u8; 512];
    let t = build_tar("x", &data, 3);
    assert_eq!(t.len(), 3 * 1024 + 1024);
    assert_eq!(&t[1024..1024 + 14], b"x/obj-00000001");
    assert_eq!(t.len() % 512, 0);
}
