//! Keys, header records, snapshot headers, stamps, digests and error messages.

use roci_storage::digest::{digest_of, sha256_of, Digest};
use roci_storage::error::{map_not_found, IoFailure, QuotaScope, StorageError};
use roci_storage::fs_storage::fast_restart::{
    config_hash, try_consume_stamp, unread_stamp, unwrap, validate_stamp, wrap, Stamp,
    StampReject, FORMAT_VERSION,
};
use roci_storage::fs_storage::index::FileRead;
use roci_storage::metadata::snapshot;
use roci_storage::metadata::wal_hmac::{
    decode_header, encode_header, framing_mode, FramingMode, HmacKey,
};

const EMPTY_SHA256: &str = "e3b0c44298fc1c149afbf4c8996fb92427ae41e4649b934ca495991b7852b855";

fn key(byte: u8) -> HmacKey {
    HmacKey::new(vec![byte; 64]).unwrap()
}

#[test]
fn header_roundtrip() {
    for mode in [FramingMode::Plain, FramingMode::HmacSha256] {
        let payload = encode_header(mode);
        assert_eq!(decode_header(&payload), Some(mode));
    }
    assert_eq!(decode_header(b"garbage"), None);
    assert_eq!(decode_header(b"roci-wal\x00\x09"), None); // unknown mode
}

#[test]
fn decode_header_unknown_mode_byte() {
    let mut payload = Vec::new();
    payload.extend_from_slice(b"roci-wal\x00");
    payload.push(0x09);
    assert_eq!(decode_header(&payload), None);
}

#[test]
fn header_records_have_a_fixed_form() {
    assert_eq!(encode_header(FramingMode::Plain), b"roci-wal\x00\x00");
    assert_eq!(encode_header(FramingMode::HmacSha256), b"roci-wal\x00\x01");
    assert_eq!(framing_mode(None), FramingMode::Plain);
    assert_eq!(framing_mode(Some(&key(1))), FramingMode::HmacSha256);
}

#[test]
fn keys_need_thirty_two_bytes() {
    assert_eq!(HmacKey::new(vec![0u8; 31]).unwrap_err(), 31);
    let key = HmacKey::new(vec![0xABu8; 32]).unwrap();
    let tag = key.tag(b"hello");
    assert_eq!(tag.len(), 32);
    assert!(key.verify(b"hello", &tag));
    assert!(!key.verify(b"world", &tag));
    assert!(!key.verify(b"hello", &tag[..31]));
}

#[test]
fn tags_match_a_known_vector() {
    // HMAC-SHA256 under a key of 131 bytes, from the published test cases.
    let key = HmacKey::new(vec![0xaau8; 131]).unwrap();
    let tag = key.tag(b"Test Using Larger Than Block-Size Key - Hash Key First");
    let expected = [
        0x60u8, 0xe4, 0x31, 0x59, 0x1e, 0xe0, 0xb6, 0x7f, 0x0d, 0x8a, 0x26, 0xaa, 0xcb, 0xf5, 0xb7,
        0x7f, 0x8e, 0x0b, 0xc6, 0x21, 0x37, 0x28, 0xc5, 0x14, 0x05, 0x46, 0x04, 0x0f, 0x0e, 0xe3,
        0x7f, 0x54,
    ];
    assert_eq!(tag, expected);
}

#[test]
fn snapshot_headers_vouch_for_their_body() {
    let body = b"the body of a snapshot";
    for k in [None, Some(key(0xAB))] {
        let header = snapshot::encode_header(body, k.as_ref());
        assert_eq!(header.len(), 56);
        assert_eq!(&header[..8], b"rocisnap");
        assert_eq!(&header[8..12], &1u32.to_le_bytes());
        assert_eq!(&header[12..20], &(body.len() as u64).to_le_bytes());
        let mut file = header;
        file.extend_from_slice(body);
        assert_eq!(snapshot::verify_header(&file, k.as_ref()), Ok(&body[..]));
    }
}

#[test]
fn snapshot_headers_are_refused_for_a_reason() {
    let body = b"the body of a snapshot";
    let mut file = snapshot::encode_header(body, None);
    file.extend_from_slice(body);
    assert_eq!(
        snapshot::verify_header(&file[..55], None),
        Err("snapshot too small for header")
    );
    let mut magic = file.clone();
    magic[0] = b'x';
    assert_eq!(snapshot::verify_header(&magic, None), Err("bad snapshot magic"));
    let mut version = file.clone();
    version[8] = 2;
    assert_eq!(
        snapshot::verify_header(&version, None),
        Err("unsupported snapshot version")
    );
    assert_eq!(
        snapshot::verify_header(&file[..file.len() - 1], None),
        Err("snapshot body truncated")
    );
    let mut corrupted = file.clone();
    corrupted[56 + 2] ^= 0xFF;
    assert_eq!(
        snapshot::verify_header(&corrupted, None),
        Err("snapshot integrity check failed")
    );
    // Under a key, or another key, the integrity differs.
    assert_eq!(
        snapshot::verify_header(&file, Some(&key(0xAB))),
        Err("snapshot integrity check failed")
    );
    let mut tagged = snapshot::encode_header(body, Some(&key(0xAB)));
    tagged.extend_from_slice(body);
    assert_eq!(
        snapshot::verify_header(&tagged, Some(&key(0xCD))),
        Err("snapshot integrity check failed")
    );
    assert_eq!(
        snapshot::verify_header(&tagged, None),
        Err("snapshot integrity check failed")
    );
}

#[test]
fn wrap_unwrap_roundtrip_crc() {
    let body = b"hello fast restart";
    let wire = wrap(body, None);
    let got = unwrap(&wire, None).unwrap();
    assert_eq!(got, body);
}

#[test]
fn crc_detects_tampering() {
    let body = b"payload";
    let mut wire = wrap(body, None);
    wire[6] ^= 0xFF;
    assert!(unwrap(&wire, None).is_err());
}

#[test]
fn stamps_under_a_key_are_read_under_that_key_alone() {
    let body = b"hello fast restart hmac";
    let mut wire = wrap(body, Some(&key(0xAB)));
    assert_eq!(unwrap(&wire, Some(&key(0xAB))).unwrap(), body);
    assert_eq!(unwrap(&wire, Some(&key(0xBB))), Err("HMAC verification failed"));
    wire[6] ^= 0xFF;
    assert_eq!(unwrap(&wire, Some(&key(0xAB))), Err("HMAC verification failed"));
}

#[test]
fn stamps_of_the_wrong_length_are_refused() {
    assert_eq!(unwrap(&[0u8; 35], None), Err("stamp too small"));
    let mut wire = wrap(b"payload", None);
    wire.push(0);
    assert_eq!(unwrap(&wire, None), Err("stamp length mismatch"));
    let mut flipped = wrap(b"payload", None);
    flipped[4] ^= 1;
    assert_eq!(unwrap(&flipped, None), Err("CRC32C verification failed"));
    let empty = wrap(b"", None);
    assert_eq!(empty.len(), 36);
    assert_eq!(unwrap(&empty, None), Ok(&b""[..]));
}

fn stamp() -> Stamp {
    Stamp {
        format_version: FORMAT_VERSION,
        binary_version: "1.2.3".to_string(),
        config_hash: "abc123".to_string(),
        metadata_generation: 5,
        metadata_log_len: 4096,
        presence: vec![("r".into(), "sha256:aa".into())],
        dedupe: vec![("sha256:aa".into(), "r".into())],
        quota_per_repo: vec![("r".into(), 1024)],
        quota_total: 1024,
        quota_sessions: 3,
        gc_candidates: vec![("r".into(), "sha256:bb".into())],
        gc_roots: vec![("r".into(), "sha256:cc".into())],
        gc_unsafe_repos: vec!["broken".into()],
    }
}

#[test]
fn a_stamp_is_valid_only_for_what_wrote_it() {
    let valid = validate_stamp(stamp(), "1.2.3", "abc123", 5, 4096).unwrap();
    assert_eq!(valid.presence, vec![("r".to_string(), "sha256:aa".to_string())]);
    assert_eq!(valid.quota_sessions, 3);
    assert_eq!(valid.gc_unsafe_repos, vec!["broken".to_string()]);

    let mut newer = stamp();
    newer.format_version = 2;
    let e = validate_stamp(newer, "9", "x", 0, 0).unwrap_err();
    assert_eq!(e, StampReject::FormatVersion { got: 2, expected: 1 });
    assert_eq!(e.message(), "format version 2, expected 1");

    let e = validate_stamp(stamp(), "1.2.4", "x", 0, 0).unwrap_err();
    assert_eq!(e.message(), "binary version 1.2.3, expected 1.2.4");

    for rejected in [
        validate_stamp(stamp(), "1.2.3", "other", 5, 4096),
        validate_stamp(stamp(), "1.2.3", "abc123", 6, 4096),
        validate_stamp(stamp(), "1.2.3", "abc123", 5, 4097),
    ] {
        let e = rejected.unwrap_err();
        assert_eq!(e, StampReject::ConfigMismatch);
        assert_eq!(e.message(), "config hash mismatch");
    }
}

#[test]
fn rejections_say_why() {
    let gone = IoFailure { not_found: true, message: "gone".into() };
    let denied = IoFailure { not_found: false, message: "denied".into() };
    assert_eq!(unread_stamp(gone).message(), "no stamp file");
    assert_eq!(unread_stamp(denied.clone()).message(), "reading stamp: denied");
    assert_eq!(
        StampReject::Integrity("stamp too small".into()).message(),
        "integrity: stamp too small"
    );
    assert_eq!(StampReject::Parse("eof".into()).message(), "parsing stamp: eof");
    assert_eq!(StampReject::Consumed(denied).message(), "consuming stamp: denied");
}

#[test]
fn configurations_are_hashed_by_their_text() {
    assert_eq!(config_hash(""), EMPTY_SHA256);
    assert_ne!(config_hash("dedupe = true\n"), config_hash("dedupe = false\n"));
}

#[test]
fn digests_are_parsed_and_written_in_lower_case() {
    let text = format!("sha256:{}", EMPTY_SHA256.to_uppercase());
    let d = Digest::parse(&text).unwrap();
    assert_eq!(d.algorithm(), "sha256");
    assert_eq!(d.hex(), EMPTY_SHA256);
    assert_eq!(d.as_string(), format!("sha256:{EMPTY_SHA256}"));
    assert!(d.ct_eq(&sha256_of(b"")));
    assert!(!d.ct_eq(&sha256_of(b"x")));
}

#[test]
fn malformed_digests_are_refused_with_their_text() {
    for bad in [
        "",
        "sha256",
        "sha256:",
        "sha256:abc",
        "md5:d41d8cd98f00b204e9800998ecf8427e",
        "SHA256:e3b0c44298fc1c149afbf4c8996fb92427ae41e4649b934ca495991b7852b855",
        "sha256:g3b0c44298fc1c149afbf4c8996fb92427ae41e4649b934ca495991b7852b855",
        "sha512:e3b0c44298fc1c149afbf4c8996fb92427ae41e4649b934ca495991b7852b855",
        "sha256:../../../../etc/passwd0000000000000000000000000000000000000000000",
    ] {
        assert_eq!(Digest::parse(bad), Err(StorageError::BadDigest(bad.to_string())));
    }
}

#[test]
fn contents_are_hashed_under_the_algorithm_asked_for() {
    assert_eq!(
        sha256_of(b"abc").hex(),
        "ba7816bf8f01cfea414140de5dae2223b00361a396177a9cb410ff61f20015ad"
    );
    let long = digest_of(b"abc", "sha512");
    assert_eq!(long.algorithm(), "sha512");
    assert_eq!(
        long.hex(),
        "ddaf35a193617abacc417349ae20413112e6fa4e89a97ea20a9eeee64b55d39a\
         2192992a274fc1a836ba3c23a3feebbd454d4423643ce80e2a9ac94fa54ca49f"
    );
    // Anything but sha512 is hashed under sha256.
    assert_eq!(digest_of(b"abc", "md5").algorithm(), "sha256");
}

#[test]
fn errors_have_messages() {
    let io = IoFailure { not_found: false, message: "disk full".into() };
    for (error, text) in [
        (StorageError::NotFound, "not found"),
        (StorageError::BadDigest("x".into()), "malformed digest: x"),
        (
            StorageError::DigestMismatch { expected: "a".into(), actual: "b".into() },
            "digest mismatch: expected a, got b",
        ),
        (StorageError::Io(io), "io error: disk full"),
        (StorageError::BadPath("..".into()), "unsafe path component: .."),
        (
            StorageError::RangeNotSatisfiable { expected: 10, got: 4 },
            "content range start 4 does not match current offset 10",
        ),
        (
            StorageError::TooLarge { limit: 100, actual: 101 },
            "upload size 101 exceeds maximum 100",
        ),
        (
            StorageError::QuotaExceeded {
                scope: QuotaScope::Repository,
                limit: 1000,
                requested: 1,
            },
            "repository quota of 1000 bytes exceeded (1 bytes requested)",
        ),
        (
            StorageError::QuotaExceeded {
                scope: QuotaScope::Total,
                limit: u64::MAX,
                requested: 0,
            },
            "registry quota of 18446744073709551615 bytes exceeded (0 bytes requested)",
        ),
        (
            StorageError::MissingReference("sha256:x".into()),
            "referenced blob sha256:x is not present",
        ),
        (
            StorageError::TooManySessions { limit: 7 },
            "too many concurrent upload sessions (limit 7)",
        ),
    ] {
        assert_eq!(error.message(), text);
    }
}

#[test]
fn missing_files_are_not_found() {
    let gone = IoFailure { not_found: true, message: "gone".into() };
    let other = IoFailure { not_found: false, message: "denied".into() };
    assert_eq!(map_not_found(gone), StorageError::NotFound);
    assert_eq!(map_not_found(other.clone()), StorageError::Io(other));
}

#[test]
fn a_snapshot_with_any_bit_flipped_is_refused() {
    let body = b"the body of a snapshot";
    let mut file = snapshot::encode_header(body, None);
    file.extend_from_slice(body);
    file.extend_from_slice(b"whatever stands behind it");
    assert_eq!(snapshot::verify_header(&file, None), Ok(&body[..]));
    for i in (0..12).chain(20..52).chain(56..56 + body.len()) {
        for bit in 0..8 {
            let mut bad = file.clone();
            bad[i] ^= 1 << bit;
            assert!(snapshot::verify_header(&bad, None).is_err());
        }
    }
}

#[test]
fn a_stamp_is_consumed_before_it_is_used() {
    let file = wrap(b"body", None);
    // No file, or one that cannot be read.
    assert_eq!(try_consume_stamp(FileRead::Missing).unwrap_err(), StampReject::Absent);
    let gone = IoFailure { not_found: true, message: "gone".into() };
    assert_eq!(try_consume_stamp(FileRead::Failed(gone)).unwrap_err(), StampReject::Absent);
    let denied = IoFailure { not_found: false, message: "denied".into() };
    assert_eq!(
        try_consume_stamp(FileRead::Failed(denied.clone())).unwrap_err(),
        StampReject::Io(denied.clone())
    );
    // One that cannot be removed is not used.
    let found = try_consume_stamp(FileRead::Bytes(file.clone())).unwrap();
    assert_eq!(found.consumed(Err(denied.clone())).unwrap_err(), StampReject::Consumed(denied));
    // One that is gone is used, if it vouches for its body.
    let found = try_consume_stamp(FileRead::Bytes(file.clone())).unwrap();
    assert_eq!(found.consumed(Ok(())).unwrap().body(None).unwrap(), b"body");
    for i in 4..8 {
        let mut bad = file.clone();
        bad[i] ^= 1;
        let found = try_consume_stamp(FileRead::Bytes(bad)).unwrap();
        assert_eq!(
            found.consumed(Ok(())).unwrap().body(None).unwrap_err(),
            StampReject::Integrity("CRC32C verification failed".into())
        );
    }
}
