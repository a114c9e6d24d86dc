use s3perf::checksum::ChecksumType;

#[test]
fn test_from_str_case_insensitive() {
    assert_eq!("crc32".parse::<ChecksumType>().unwrap(), ChecksumType::CRC32);
    assert_eq!("CRC32".parse::<ChecksumType>().unwrap(), ChecksumType::CRC32);
    assert_eq!("Crc32".parse::<ChecksumType>().unwrap(), ChecksumType::CRC32);
}

#[test]
fn test_from_str_crc32_fo() {
    assert_eq!("CRC32-FO".parse::<ChecksumType>().unwrap(), ChecksumType::CRC32);
    assert_eq!("crc32-fo".parse::<ChecksumType>().unwrap(), ChecksumType::CRC32);
}

#[test]
fn test_from_str_crc32c_fo() {
    assert_eq!("CRC32C-FO".parse::<ChecksumType>().unwrap(), ChecksumType::CRC32C);
    assert_eq!("crc32c-fo".parse::<ChecksumType>().unwrap(), ChecksumType::CRC32C);
}

#[test]
fn test_from_str_md5cs() {
    assert_eq!("MD5CS".parse::<ChecksumType>().unwrap(), ChecksumType::MD5);
    assert_eq!("md5cs".parse::<ChecksumType>().unwrap(), ChecksumType::MD5);
}

#[test]
fn test_from_str_xxhash() {
    assert_eq!("XXHASH64".parse::<ChecksumType>().unwrap(), ChecksumType::XXH64);
    assert_eq!("XXHASH3".parse::<ChecksumType>().unwrap(), ChecksumType::XXH3);
    assert_eq!("XXHASH128".parse::<ChecksumType>().unwrap(), ChecksumType::XXH128);
}

#[test]
fn test_from_str_unknown() {
    assert!("UNKNOWN".parse::<ChecksumType>().is_err());
}

#[test]
fn test_display() {
    assert_eq!(ChecksumType::CRC32.to_string(), "CRC32");
    assert_eq!(ChecksumType::CRC32C.to_string(), "CRC32C");
    assert_eq!(ChecksumType::CRC64NVME.to_string(), "CRC64NVME");
    assert_eq!(ChecksumType::SHA1.to_string(), "SHA1");
    assert_eq!(ChecksumType::SHA256.to_string(), "SHA256");
    assert_eq!(ChecksumType::SHA512.to_string(), "SHA512");
    assert_eq!(ChecksumType::MD5.to_string(), "MD5");
    assert_eq!(ChecksumType::XXH64.to_string(), "XXH64");
    assert_eq!(ChecksumType::XXH3.to_string(), "XXH3");
    assert_eq!(ChecksumType::XXH128.to_string(), "XXH128");
}

#[test]
fn test_from_cli_flag() {
    assert_eq!(
        ChecksumType::from_cli_flag("SHA256"),
        Some(ChecksumType::SHA256)
    );
    assert_eq!(ChecksumType::from_cli_flag(""), None);
    assert_eq!(ChecksumType::from_cli_flag("INVALID"), None);
}

#[test]
fn test_all_variants_roundtrip() {
    for variant in &[
        ChecksumType::CRC32,
        ChecksumType::CRC32C,
        ChecksumType::CRC64NVME,
        ChecksumType::SHA1,
        ChecksumType::SHA256,
        ChecksumType::SHA512,
        ChecksumType::MD5,
        ChecksumType::XXH64,
        ChecksumType::XXH3,
        ChecksumType::XXH128,
    ] {
        let s = variant.to_string();
        let parsed: ChecksumType = s.parse().unwrap();
        assert_eq!(&parsed, variant, "roundtrip failed for {}", s);
    }
}

#[test]
fn checksum_unknown_message_names_input() {
    let err = ChecksumType::parse_name("blake3").unwrap_err();
    assert_eq!(err, "unknown checksum algorithm: blake3");
}

#[test]
fn checksum_lowercase_names_roundtrip() {
    assert_eq!("sha512".parse::<ChecksumType>().unwrap(), ChecksumType::SHA512);
    assert_eq!("xxh128".parse::<ChecksumType>().unwrap(), ChecksumType::XXH128);
    assert_eq!("crc64nvme".parse::<ChecksumType>().unwrap(), ChecksumType::CRC64NVME);
}
