use cacache::errors::{io_error, Error, IntegrityError, IoErrorExt, IoFailure, IoKind};
use cacache::get::SyncReader;
use cacache::index::Metadata;
use cacache::integrity::{Algorithm, Integrity};
use cacache::layout::{bucket_path, content_path, hash_key};
use cacache::put::{check_commit, commit, mmap_len, WriteOpts, MAX_MMAP_SIZE};
use cacache::record::{frame_record, hash_entry};

fn sri_of(data: &[u8], algo: ssri::Algorithm) -> Integrity {
    let computed = ssri::IntegrityOpts::new().algorithm(algo).chain(data).result();
    Integrity::parse(&computed.to_string()).unwrap()
}

#[test]
fn bucket_path_shards_sha1_of_key() {
    assert_eq!(hash_key("hello"), "aaf4c61ddcc5e8a2dabede0f3b482cd9aea9434d");
    assert_eq!(
        bucket_path("/cache", "hello"),
        "/cache/index-v5/aa/f4/c61ddcc5e8a2dabede0f3b482cd9aea9434d"
    );
}

#[test]
fn content_path_shards_hex_digest() {
    let sri = Integrity::parse("sha1-deadbeef").unwrap();
    assert_eq!(content_path("/cache", &sri).unwrap(), "/cache/content-v2/sha1/75/e6/9d6de79f");
    let hw = sri_of(b"hello world", ssri::Algorithm::Sha256);
    assert_eq!(
        content_path("/c", &hw).unwrap(),
        "/c/content-v2/sha256/b9/4d/27b9934d3e08a52e52d7da7dabfac484efe37a5380ee9088f7ace2efcde9"
    );
}

#[test]
fn content_path_refuses_bad_digest() {
    assert_eq!(content_path("/c", &Integrity::parse("sha1-!!!!").unwrap()), None);
    assert_eq!(content_path("/c", &Integrity::parse("sha1-AA==").unwrap()), None);
}

#[test]
fn record_checksum_is_sha256_hex() {
    let payload = b"{\"key\":\"hello\",\"integrity\":\"sha1-deadbeef\",\"time\":1234567,\"size\":0,\"metadata\":null,\"raw_metadata\":null}";
    assert_eq!(
        String::from_utf8(hash_entry(payload)).unwrap(),
        "9cbbfe2553e7c7e1773f53f0f643fdd72008faa38da53ebcb055e5e20321ae47"
    );
    let framed = frame_record(b"x");
    assert_eq!(framed[0], b'\n');
    assert_eq!(framed[65], b'\t');
    assert_eq!(framed.len(), 67);
}

#[test]
fn write_integrity_is_sha256_of_data() {
    let hw = sri_of(b"hello world", ssri::Algorithm::Sha256);
    assert_eq!(hw.to_string(), "sha256-uU0nuZNNPgilLlLX2n2r+sSE7+N6U4DukIj3rOLvzek=");
    assert_eq!(hw.pick_algorithm(), Algorithm::Sha256);
}

#[test]
fn parse_format_round_trip_every_algorithm() {
    for (algo, name) in [
        (ssri::Algorithm::Sha512, "sha512"),
        (ssri::Algorithm::Sha384, "sha384"),
        (ssri::Algorithm::Sha256, "sha256"),
        (ssri::Algorithm::Sha1, "sha1"),
        (ssri::Algorithm::Xxh3, "xxh3"),
    ] {
        let i = sri_of(b"round trip", algo);
        let text = i.to_string();
        assert!(text.starts_with(name));
        assert_eq!(Integrity::parse(&text).unwrap(), i);
    }
}

#[test]
fn parse_orders_strongest_first() {
    let i = Integrity::parse("sha1-deadbeef sha256-badc0ffee").unwrap();
    assert_eq!(i.pick_algorithm(), Algorithm::Sha256);
    assert_eq!(i.to_string(), "sha256-badc0ffee sha1-deadbeef");
    assert_eq!(Integrity::parse(""), None);
    assert_eq!(Integrity::parse("sha7-deadbeef"), None);
}

#[test]
fn matches_uses_strongest_of_other() {
    let a = Integrity::parse("sha256-AAAA sha1-BBBB").unwrap();
    let b = Integrity::parse("sha256-AAAA").unwrap();
    let c = Integrity::parse("sha1-BBBB").unwrap();
    let d = Integrity::parse("sha256-CCCC sha1-BBBB").unwrap();
    assert_eq!(a.matches(&b), Some(Algorithm::Sha256));
    assert_eq!(a.matches(&c), Some(Algorithm::Sha1));
    assert_eq!(a.matches(&d), None);
}

#[test]
fn size_mismatch_on_commit() {
    let computed = sri_of(b"abcd", ssri::Algorithm::Sha256);
    let opts = WriteOpts::new().size(5);
    assert_eq!(check_commit(&opts, &computed, 4), Err(Error::SizeMismatch(5, 4)));
    match commit("/c", Some("k"), WriteOpts::new().size(5), &computed, 4) {
        Err(Error::SizeMismatch(5, 4)) => {}
        _ => panic!("expected a size mismatch"),
    }
}

#[test]
fn integrity_mismatch_on_commit() {
    let computed = sri_of(b"abcd", ssri::Algorithm::Sha256);
    let other = sri_of(b"abce", ssri::Algorithm::Sha256);
    let opts = WriteOpts::new().integrity(other.clone()).size(3);
    assert_eq!(
        check_commit(&opts, &computed, 4),
        Err(Error::IntegrityError(IntegrityError::IntegrityCheckError(other, computed.clone())))
    );
    assert_eq!(check_commit(&WriteOpts::new().integrity(computed.clone()).size(4), &computed, 4), Ok(()));
}

#[test]
fn commit_places_content_and_binds_key() {
    let computed = sri_of(b"hello world", ssri::Algorithm::Sha256);
    let plan = commit("/c", Some("hello"), WriteOpts::new().time(3), &computed, 11).unwrap();
    assert_eq!(plan.integrity, computed);
    assert_eq!(plan.content, content_path("/c", &computed).unwrap());
    let index = plan.index.unwrap();
    assert_eq!(index.bucket, bucket_path("/c", "hello"));
    assert_eq!(index.entry.integrity, Some(computed.to_string()));
    assert_eq!(index.entry.size, 11);
    assert_eq!(index.entry.time, 3);
    let bare = commit("/c", None, WriteOpts::new(), &computed, 11).unwrap();
    assert!(bare.index.is_none());
}

#[test]
fn same_bytes_same_content_path() {
    let one = sri_of(b"same", ssri::Algorithm::Sha256);
    let two = sri_of(b"same", ssri::Algorithm::Sha256);
    let a = commit("/c", Some("a"), WriteOpts::new(), &one, 4).unwrap();
    let b = commit("/c", Some("b"), WriteOpts::new(), &two, 4).unwrap();
    assert_eq!(a.content, b.content);
    assert_eq!(a.index.unwrap().entry.integrity, b.index.unwrap().entry.integrity);
}

#[test]
fn mmap_only_for_small_announced_sizes() {
    assert_eq!(mmap_len(None), None);
    assert_eq!(mmap_len(Some(0)), Some(0));
    assert_eq!(mmap_len(Some(MAX_MMAP_SIZE)), Some(MAX_MMAP_SIZE));
    assert_eq!(mmap_len(Some(MAX_MMAP_SIZE + 1)), None);
}

#[test]
fn reader_checks_digest_of_what_was_read() {
    let expected = sri_of(b"hello world", ssri::Algorithm::Sha256);
    let reader = SyncReader::open_hash("/c", expected.clone()).unwrap();
    assert_eq!(reader.content_path(), &content_path("/c", &expected).unwrap());
    assert_eq!(reader.algorithm(), Algorithm::Sha256);
    assert_eq!(reader.check(&sri_of(b"hello world", ssri::Algorithm::Sha256)), Ok(Algorithm::Sha256));
    let tampered = sri_of(b"hello_world", ssri::Algorithm::Sha256);
    assert_eq!(
        reader.check(&tampered),
        Err(Error::IntegrityError(IntegrityError::IntegrityCheckError(expected.clone(), tampered)))
    );
    let truncated = sri_of(b"hello worl", ssri::Algorithm::Sha256);
    assert!(reader.check(&truncated).is_err());
}

#[test]
fn reader_open_by_key() {
    match SyncReader::open("/c", "missing", None) {
        Err(Error::EntryNotFound(cache, key)) => {
            assert_eq!(cache, "/c");
            assert_eq!(key, "missing");
        }
        _ => panic!("expected EntryNotFound"),
    }
    let i = sri_of(b"data", ssri::Algorithm::Sha1);
    let found = Metadata {
        key: String::from("k"),
        integrity: i.clone(),
        time: 0,
        size: 4,
        metadata: String::from("null"),
        raw_metadata: None,
    };
    let reader = SyncReader::open("/c", "k", Some(found)).unwrap();
    assert_eq!(reader.algorithm(), Algorithm::Sha1);
    assert_eq!(reader.content_path(), &content_path("/c", &i).unwrap());
}

#[test]
fn io_context_wraps_failures() {
    let failed: Result<u8, IoFailure> = Err(io_error("Unexpected error"));
    match failed.with_context(String::from("while reading")) {
        Err(Error::IoError(e, ctx)) => {
            assert_eq!(e.kind, IoKind::Other);
            assert_eq!(e.message, "Unexpected error");
            assert_eq!(ctx, "while reading");
        }
        _ => panic!("expected an I/O error"),
    }
    let fine: Result<u8, IoFailure> = Ok(3);
    assert_eq!(fine.with_context(String::from("x")), Ok(3));
    assert_eq!(cacache::async_lib::unwrap_joinhandle_value(5u8), 5);
}

#[test]
fn commit_refuses_multiline_metadata_for_a_key() {
    let computed = sri_of(b"abcd", ssri::Algorithm::Sha256);
    let opts = WriteOpts::new().metadata(String::from("{\n}"));
    match commit("/c", Some("k"), opts, &computed, 4) {
        Err(Error::SerdeError(_)) => {}
        _ => panic!("expected the metadata to be refused"),
    }
    let bare = commit("/c", None, WriteOpts::new().metadata(String::from("{\n}")), &computed, 4);
    assert!(bare.is_ok());
}

#[test]
fn commit_passes_on_integrity_error() {
    let computed = sri_of(b"abcd", ssri::Algorithm::Sha256);
    let other = sri_of(b"abce", ssri::Algorithm::Sha256);
    match commit("/c", Some("k"), WriteOpts::new().integrity(other.clone()), &computed, 4) {
        Err(Error::IntegrityError(IntegrityError::IntegrityCheckError(w, a))) => {
            assert_eq!(w, other);
            assert_eq!(a, computed);
        }
        _ => panic!("expected an integrity mismatch"),
    }
}
