use jpatchset::address::hash;
use jpatchset::error::{ChainError, Side};

const LEFT: &[u8] = b"{\"name\":\"alpha\",\"tags\":[\"a\",\"b\"],\"count\":1}";

const LEFT_ADDRESS: &str = "301be5058c9bf20ff205d2c7d25990ada9dc6649b270ec00b4dc98e4eb5622bc";

const LEFT_GZIP: [u8; 60] = [
    0x1f, 0x8b, 0x08, 0x00, 0x00, 0x00, 0x00, 0x00, 0x02, 0x03, 0xab, 0x56, 0xca, 0x4b, 0xcc, 0x4d,
    0x55, 0xb2, 0x52, 0x4a, 0xcc, 0x29, 0xc8, 0x48, 0x54, 0xd2, 0x51, 0x2a, 0x49, 0x4c, 0x2f, 0x56,
    0xb2, 0x8a, 0x56, 0x02, 0xb1, 0x93, 0x94, 0x62, 0x75, 0x94, 0x92, 0xf3, 0x4b, 0xf3, 0x4a, 0x94,
    0xac, 0x0c, 0x6b, 0x01, 0x6a, 0x89, 0x1e, 0xb7, 0x2b, 0x00, 0x00, 0x00,
];

const LEFT_BZIP2: [u8; 81] = [
    0x42, 0x5a, 0x68, 0x39, 0x31, 0x41, 0x59, 0x26, 0x53, 0x59, 0x33, 0x6c, 0x1e, 0xbc, 0x00, 0x00,
    0x14, 0x9b, 0x80, 0x10, 0x04, 0x20, 0x10, 0x00, 0x0a, 0x3a, 0xc7, 0xce, 0x0a, 0x20, 0x00, 0x31,
    0x46, 0x8c, 0x81, 0xa3, 0x4c, 0x8d, 0x06, 0xa9, 0xfa, 0xa3, 0x4c, 0x7a, 0x91, 0x89, 0xe9, 0x92,
    0x4c, 0x2d, 0x6a, 0xc9, 0x54, 0x41, 0x5e, 0x19, 0x1e, 0x09, 0x18, 0x5c, 0xb1, 0x0d, 0x77, 0x23,
    0xa8, 0x67, 0x7a, 0xf7, 0x1b, 0xdf, 0xe2, 0xee, 0x48, 0xa7, 0x0a, 0x12, 0x06, 0x6d, 0x83, 0xd7,
    0x80,
];

const LEFT_XZ: [u8; 100] = [
    0xfd, 0x37, 0x7a, 0x58, 0x5a, 0x00, 0x00, 0x04, 0xe6, 0xd6, 0xb4, 0x46, 0x02, 0x00, 0x21, 0x01,
    0x16, 0x00, 0x00, 0x00, 0x74, 0x2f, 0xe5, 0xa3, 0x01, 0x00, 0x2a, 0x7b, 0x22, 0x6e, 0x61, 0x6d,
    0x65, 0x22, 0x3a, 0x22, 0x61, 0x6c, 0x70, 0x68, 0x61, 0x22, 0x2c, 0x22, 0x74, 0x61, 0x67, 0x73,
    0x22, 0x3a, 0x5b, 0x22, 0x61, 0x22, 0x2c, 0x22, 0x62, 0x22, 0x5d, 0x2c, 0x22, 0x63, 0x6f, 0x75,
    0x6e, 0x74, 0x22, 0x3a, 0x31, 0x7d, 0x00, 0x00, 0x11, 0x8b, 0x4a, 0x39, 0x9f, 0x9a, 0x58, 0xed,
    0x00, 0x01, 0x43, 0x2b, 0xad, 0x50, 0x6e, 0x57, 0x1f, 0xb6, 0xf3, 0x7d, 0x01, 0x00, 0x00, 0x00,
    0x00, 0x04, 0x59, 0x5a,
];

#[test]
fn hash_of_plain_content_is_its_blake2b_256_digest() {
    assert_eq!(hash(LEFT).unwrap(), LEFT_ADDRESS);
    assert_eq!(
        hash(b"hello world").unwrap(),
        "256c83b297114d201b30179f3f0ef0cace9783622da5974326b436178aeef610"
    );
}

#[test]
fn hash_is_the_same_on_every_call() {
    let first = hash(LEFT).unwrap();
    let second = hash(LEFT).unwrap();
    assert_eq!(first, second);
}

#[test]
fn hash_tells_different_content_apart() {
    let other = b"{\"name\":\"beta\",\"tags\":[\"a\"],\"count\":1,\"extra\":true}";
    assert_eq!(
        hash(other).unwrap(),
        "93c02175a8b7015a1c321462ffcd5862c254f0a1d9a63e4e6790011f9d06708f"
    );
    assert_ne!(hash(other).unwrap(), hash(LEFT).unwrap());
}

#[test]
fn hash_has_64_lower_case_hex_digits() {
    let address = hash(b"     ").unwrap();
    assert_eq!(address, "f39119ba39e6ac7bd281109693168332f8916bb7cf89c671fc59540f8a40ec16");
    assert_eq!(address.len(), 64);
    assert!(address.chars().all(|c| c.is_ascii_digit() || ('a'..='f').contains(&c)));
}

#[test]
fn hash_looks_through_gzip() {
    assert_eq!(hash(&LEFT_GZIP).unwrap(), LEFT_ADDRESS);
}

#[test]
fn hash_looks_through_bzip2() {
    assert_eq!(hash(&LEFT_BZIP2).unwrap(), LEFT_ADDRESS);
}

#[test]
fn hash_looks_through_xz() {
    assert_eq!(hash(&LEFT_XZ).unwrap(), LEFT_ADDRESS);
}

#[test]
fn hash_looks_through_a_stream_compressed_on_the_spot() {
    let mut stored = Vec::new();
    {
        let mut writer = niffler::get_writer(
            Box::new(&mut stored),
            niffler::compression::Format::Zstd,
            niffler::Level::Three,
        )
        .unwrap();
        std::io::Write::write_all(&mut writer, LEFT).unwrap();
    }
    assert_ne!(stored.as_slice(), LEFT);
    assert_eq!(hash(&stored).unwrap(), LEFT_ADDRESS);
}

#[test]
fn hash_of_fewer_than_five_bytes_is_their_digest() {
    assert_eq!(hash(b"").unwrap(), "0e5751c026e543b2e8ab2eb06099daa1d1e5df47778f7787faab45cdf12fe3a8");
    assert_eq!(hash(b"1").unwrap(), "92cdf578c47085a5992256f0dcf97d0b19f1f1c9de4d5fe30c3ace6191b6e5db");
    assert_eq!(hash(b"{}").unwrap(), "c09da522dac261c3d2566230bed10d2f3ef13f8e7654576c12e857e07f786098");
    assert_eq!(hash(b"[]").unwrap(), "c2c013c86a9c92e22f966f3d8617768f8b7a44c902adcc097bfa1e098afb4e1f");
    assert_eq!(
        hash(b"null").unwrap(),
        "6bfb9a89e7917438ddb17fb73d74243df565eae70968b5a290cf5f3563d76bef"
    );
}

#[test]
fn hash_of_short_content_is_the_same_plain_and_wrapped() {
    let null_gzip: [u8; 24] = [
        0x1f, 0x8b, 0x08, 0x00, 0x00, 0x00, 0x00, 0x00, 0x02, 0x03, 0xcb, 0x2b, 0xcd, 0xc9, 0x01,
        0x00, 0x4f, 0xfc, 0xcb, 0x25, 0x04, 0x00, 0x00, 0x00,
    ];
    assert_eq!(hash(&null_gzip).unwrap(), hash(b"null").unwrap());
    assert_eq!(
        hash(&null_gzip).unwrap(),
        "6bfb9a89e7917438ddb17fb73d74243df565eae70968b5a290cf5f3563d76bef"
    );
}

#[test]
fn hash_takes_bytes_without_a_whole_magic_number_as_content() {
    // Each begins like a compressed stream in its first byte only.
    assert_eq!(
        hash(b"\x1fabcde").unwrap(),
        "c40f3f4e571cfc62069b7db4494cbfbc402619b9680910aace284e333c3222c6"
    );
    assert_eq!(
        hash(b"Bonjour").unwrap(),
        "dec09e5f4263a0cb73155421f1ab6c3e99049ef724fd6cd7bfbea42eb401fb2e"
    );
    assert_eq!(
        hash(b"\xfd7zXY").unwrap(),
        "fe48b411cdd94ae29746d71e7fdbb8ced4e5ee5960bb32b8ab20d051bbc7843c"
    );
}

#[test]
fn hash_is_of_any_bytes_not_of_json_only() {
    assert_eq!(
        hash(b"hello world").unwrap(),
        "256c83b297114d201b30179f3f0ef0cace9783622da5974326b436178aeef610"
    );
    assert!(hash(&[0xff, 0xfe, 0x00, 0x80, 0xc3, 0x28]).is_ok());
}

#[test]
fn hash_refuses_a_broken_compressed_stream() {
    let mut stored = LEFT_GZIP.to_vec();
    stored.truncate(30);
    assert!(matches!(
        hash(&stored),
        Err(ChainError::Unreadable { side: Side::Left, reason: niffler::Error::IOError(_) })
    ));
}
