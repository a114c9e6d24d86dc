//! Checksum algorithms that a PUT request can ask S3 to compute, and their
//! names on the command line.
use vstd::prelude::*;
use vstd::utf8::is_ascii_chars;
use crate::text::{ascii_upper, ascii_lower, concat2, owned, str_eq, to_uppercase, unicode_upper};

verus! {

/// A checksum algorithm supported by S3.
#[derive(Debug, Clone, Copy, PartialEq, Eq, Structural)]
pub enum ChecksumType {
    CRC32,
    CRC32C,
    CRC64NVME,
    SHA1,
    SHA256,
    SHA512,
    MD5,
    XXH64,
    XXH3,
    XXH128,
}

/// The canonical (upper-case) name of an algorithm.
pub open spec fn checksum_name(t: ChecksumType) -> Seq<char> {
    match t {
        ChecksumType::CRC32 => "CRC32"@,
        ChecksumType::CRC32C => "CRC32C"@,
        ChecksumType::CRC64NVME => "CRC64NVME"@,
        ChecksumType::SHA1 => "SHA1"@,
        ChecksumType::SHA256 => "SHA256"@,
        ChecksumType::SHA512 => "SHA512"@,
        ChecksumType::MD5 => "MD5"@,
        ChecksumType::XXH64 => "XXH64"@,
        ChecksumType::XXH3 => "XXH3"@,
        ChecksumType::XXH128 => "XXH128"@,
    }
}

/// The algorithm that an upper-cased name stands for, aliases included.
pub open spec fn checksum_from_upper(u: Seq<char>) -> Option<ChecksumType> {
    if u == "CRC32"@ || u == "CRC32-FO"@ {
        Some(ChecksumType::CRC32)
    } else if u == "CRC32C"@ || u == "CRC32C-FO"@ {
        Some(ChecksumType::CRC32C)
    } else if u == "CRC64NVME"@ {
        Some(ChecksumType::CRC64NVME)
    } else if u == "SHA1"@ {
        Some(ChecksumType::SHA1)
    } else if u == "SHA256"@ {
        Some(ChecksumType::SHA256)
    } else if u == "SHA512"@ {
        Some(ChecksumType::SHA512)
    } else if u == "MD5"@ || u == "MD5CS"@ {
        Some(ChecksumType::MD5)
    } else if u == "XXH64"@ || u == "XXHASH64"@ {
        Some(ChecksumType::XXH64)
    } else if u == "XXH3"@ || u == "XXHASH3"@ {
        Some(ChecksumType::XXH3)
    } else if u == "XXH128"@ || u == "XXHASH128"@ {
        Some(ChecksumType::XXH128)
    } else {
        None
    }
}

/// The message of the error for an unknown algorithm name.
pub open spec fn unknown_checksum_msg(s: Seq<char>) -> Seq<char> {
    "unknown checksum algorithm: "@ + s
}

fn upper_is(u: &String, name: &str) -> (r: bool)
    ensures
        r == (u@ == name@),
{
    str_eq(u.as_str(), name)
}

impl ChecksumType {
    /// Parses an algorithm name, case-insensitively; aliases such as
    /// `CRC32-FO`, `MD5CS` and `XXHASH64` are accepted.
    pub fn parse_name(s: &str) -> (r: Result<ChecksumType, String>)
        ensures
            match checksum_from_upper(unicode_upper(s@)) {
                Some(t) => r == Ok::<ChecksumType, String>(t),
                None => r matches Err(e) && e@ == unknown_checksum_msg(s@),
            },
            is_ascii_chars(s@) ==> match checksum_from_upper(ascii_upper(s@)) {
                Some(t) => r == Ok::<ChecksumType, String>(t),
                None => r is Err,
            },
    {
        let u = to_uppercase(s);
        if upper_is(&u, "CRC32") || upper_is(&u, "CRC32-FO") {
            Ok(ChecksumType::CRC32)
        } else if upper_is(&u, "CRC32C") || upper_is(&u, "CRC32C-FO") {
            Ok(ChecksumType::CRC32C)
        } else if upper_is(&u, "CRC64NVME") {
            Ok(ChecksumType::CRC64NVME)
        } else if upper_is(&u, "SHA1") {
            Ok(ChecksumType::SHA1)
        } else if upper_is(&u, "SHA256") {
            Ok(ChecksumType::SHA256)
        } else if upper_is(&u, "SHA512") {
            Ok(ChecksumType::SHA512)
        } else if upper_is(&u, "MD5") || upper_is(&u, "MD5CS") {
            Ok(ChecksumType::MD5)
        } else if upper_is(&u, "XXH64") || upper_is(&u, "XXHASH64") {
            Ok(ChecksumType::XXH64)
        } else if upper_is(&u, "XXH3") || upper_is(&u, "XXHASH3") {
            Ok(ChecksumType::XXH3)
        } else if upper_is(&u, "XXH128") || upper_is(&u, "XXHASH128") {
            Ok(ChecksumType::XXH128)
        } else {
            Err(concat2("unknown checksum algorithm: ", s))
        }
    }

    /// The canonical upper-case name of the algorithm.
    pub fn to_string(&self) -> (r: String)
        ensures
            r@ == checksum_name(*self),
    {
        match self {
            ChecksumType::CRC32 => owned("CRC32"),
            ChecksumType::CRC32C => owned("CRC32C"),
            ChecksumType::CRC64NVME => owned("CRC64NVME"),
            ChecksumType::SHA1 => owned("SHA1"),
            ChecksumType::SHA256 => owned("SHA256"),
            ChecksumType::SHA512 => owned("SHA512"),
            ChecksumType::MD5 => owned("MD5"),
            ChecksumType::XXH64 => owned("XXH64"),
            ChecksumType::XXH3 => owned("XXH3"),
            ChecksumType::XXH128 => owned("XXH128"),
        }
    }

    /// The algorithm named by a `--checksum` flag value: `None` for an empty
    /// value or an unknown name.
    pub fn from_cli_flag(s: &str) -> (r: Option<ChecksumType>)
        ensures
            s@.len() == 0 ==> r is None,
            s@.len() > 0 ==> r == checksum_from_upper(unicode_upper(s@)),
            s@.len() > 0 && is_ascii_chars(s@) ==> r == checksum_from_upper(ascii_upper(s@)),
    {
        if s.is_empty() {
            return None;
        }
        match Self::parse_name(s) {
            Ok(t) => Some(t),
            Err(_) => None,
        }
    }
}

impl core::str::FromStr for ChecksumType {
    type Err = String;

    fn from_str(s: &str) -> (r: Result<Self, Self::Err>)
        ensures
            match checksum_from_upper(unicode_upper(s@)) {
                Some(t) => r == Ok::<ChecksumType, String>(t),
                None => r matches Err(e) && e@ == unknown_checksum_msg(s@),
            },
            is_ascii_chars(s@) ==> match checksum_from_upper(ascii_upper(s@)) {
                Some(t) => r == Ok::<ChecksumType, String>(t),
                None => r is Err,
            },
    {
        ChecksumType::parse_name(s)
    }
}

/// Every canonical name is ASCII, and reading it back — as written or in
/// lower case — gives the same algorithm.
pub proof fn lemma_checksum_name_roundtrip(t: ChecksumType)
    ensures
        is_ascii_chars(checksum_name(t)),
        is_ascii_chars(ascii_lower(checksum_name(t))),
        checksum_from_upper(ascii_upper(checksum_name(t))) == Some(t),
        checksum_from_upper(ascii_upper(ascii_lower(checksum_name(t)))) == Some(t),
{
    reveal_strlit("CRC32");
    reveal_strlit("CRC32-FO");
    reveal_strlit("CRC32C");
    reveal_strlit("CRC32C-FO");
    reveal_strlit("CRC64NVME");
    reveal_strlit("SHA1");
    reveal_strlit("SHA256");
    reveal_strlit("SHA512");
    reveal_strlit("MD5");
    reveal_strlit("MD5CS");
    reveal_strlit("XXH64");
    reveal_strlit("XXHASH64");
    reveal_strlit("XXH3");
    reveal_strlit("XXHASH3");
    reveal_strlit("XXH128");
    reveal_strlit("XXHASH128");
    let n = checksum_name(t);
    assert(ascii_upper(n) =~= n);
    assert(ascii_upper(ascii_lower(n)) =~= n);
    assert(n[0] != 'C' ==> n != "CRC32"@ && n != "CRC32-FO"@ && n != "CRC32C"@ && n
        != "CRC32C-FO"@ && n != "CRC64NVME"@);
    assert(n[0] != 'S' ==> n != "SHA1"@ && n != "SHA256"@ && n != "SHA512"@);
    assert(n[0] != 'M' ==> n != "MD5"@ && n != "MD5CS"@);
    assert(n[0] != 'X' ==> n != "XXH64"@ && n != "XXHASH64"@ && n != "XXH3"@ && n
        != "XXHASH3"@ && n != "XXH128"@ && n != "XXHASH128"@);
    match t {
        ChecksumType::CRC32C => {
            assert(n[5] != "CRC32-FO"@[5]);
        },
        ChecksumType::CRC64NVME => {
            assert(n[3] != "CRC32"@[3]);
            assert(n[3] != "CRC32C"@[3]);
        },
        ChecksumType::SHA512 => {
            assert(n[3] != "SHA256"@[3]);
        },
        ChecksumType::XXH3 => {
            assert(n[3] != "XXH64"@[3]);
        },
        ChecksumType::XXH128 => {
            assert(n[3] != "XXH64"@[3]);
            assert(n[3] != "XXHASH64"@[3]);
            assert(n[3] != "XXHASH3"@[3]);
        },
        _ => {},
    }
}

} // verus!
