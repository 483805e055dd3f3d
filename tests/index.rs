use cacache::index::{delete, encode_payload, find, insert, live_entries, IndexRecord, Metadata, RemoveOpts, RemovePlan};
use cacache::integrity::Integrity;
use cacache::layout::{bucket_path, content_path};
use cacache::put::WriteOpts;
use cacache::record::bucket_payloads;

const MOCK_ENTRY: &str = "\n9cbbfe2553e7c7e1773f53f0f643fdd72008faa38da53ebcb055e5e20321ae47\t{\"key\":\"hello\",\"integrity\":\"sha1-deadbeef\",\"time\":1234567,\"size\":0,\"metadata\":null,\"raw_metadata\":null}";

fn sri(text: &str) -> Integrity {
    Integrity::parse(text).unwrap()
}

fn decode(payload: &[u8]) -> Option<IndexRecord> {
    let v: serde_json::Value = serde_json::from_slice(payload).ok()?;
    Some(IndexRecord {
        key: v.get("key")?.as_str()?.to_string(),
        integrity: v.get("integrity")?.as_str().map(|s| s.to_string()),
        time: v.get("time")?.as_u64()? as u128,
        size: v.get("size")?.as_u64()? as usize,
        metadata: serde_json::to_string(v.get("metadata")?).ok()?,
        raw_metadata: v.get("raw_metadata")?.as_array().map(|a| {
            a.iter().map(|x| x.as_u64().unwrap() as u8).collect()
        }),
    })
}

fn records_of(bucket: &[u8]) -> Vec<IndexRecord> {
    bucket_payloads(bucket).iter().filter_map(|p| decode(p)).collect()
}

fn write_all(bucket: &mut Vec<u8>, cache: &str, key: &str, opts: &WriteOpts) {
    let append = insert(cache, key, opts).unwrap();
    bucket.extend_from_slice(&append.record);
}

fn hello_opts() -> WriteOpts {
    WriteOpts::new().integrity(sri("sha1-deadbeef")).time(1_234_567)
}

fn hello_entry() -> Metadata {
    Metadata {
        key: String::from("hello"),
        integrity: sri("sha1-deadbeef"),
        time: 1_234_567,
        size: 0,
        metadata: String::from("null"),
        raw_metadata: None,
    }
}

#[test]
fn insert_basic() {
    let append = insert("/cache", "hello", &hello_opts()).unwrap();
    assert_eq!(String::from_utf8(append.record).unwrap(), MOCK_ENTRY);
    assert_eq!(append.bucket, bucket_path("/cache", "hello"));
}

#[test]
fn find_basic() {
    let records = records_of(MOCK_ENTRY.as_bytes());
    let entry = find(&records, "hello").unwrap();
    assert_eq!(entry, hello_entry());
}

#[test]
fn find_none() {
    assert_eq!(find(&Vec::new(), "hello"), None);
}

#[test]
fn delete_basic() {
    let mut bucket = Vec::new();
    write_all(&mut bucket, "/cache", "hello", &hello_opts());
    bucket.extend_from_slice(&delete("/cache", "hello").record);
    assert_eq!(find(&records_of(&bucket), "hello"), None);
}

#[test]
fn delete_fully() {
    let mut bucket = Vec::new();
    write_all(&mut bucket, "/cache", "hello", &hello_opts());
    let found = find(&records_of(&bucket), "hello");
    let plan = RemoveOpts::new()
        .remove_fully(true)
        .remove_sync("/cache", "hello", found)
        .unwrap();
    match plan {
        RemovePlan::Unlink(paths) => assert_eq!(
            paths,
            vec![
                content_path("/cache", &sri("sha1-deadbeef")).unwrap(),
                bucket_path("/cache", "hello"),
            ]
        ),
        RemovePlan::Tombstone(_) => panic!("a full removal deletes files"),
    }
}

#[test]
fn index_round_trip() {
    let mut bucket = Vec::new();
    write_all(&mut bucket, "/cache", "hello", &hello_opts());
    let entry = find(&records_of(&bucket), "hello").unwrap();
    assert_eq!(entry, hello_entry());
}

fn ls_entries(records: &Vec<IndexRecord>) -> Vec<String> {
    let mut keys: Vec<String> = live_entries(records).into_iter().map(|m| m.key).collect();
    keys.sort();
    keys
}

#[test]
fn ls_basic() {
    let mut bucket = Vec::new();
    write_all(&mut bucket, "/cache", "hello", &hello_opts());
    write_all(&mut bucket, "/cache", "world", &hello_opts());
    let entries = ls_entries(&records_of(&bucket));
    assert_eq!(entries, vec![String::from("hello"), String::from("world")]);
}

#[test]
fn ls_basic_with_delete() {
    let mut bucket = Vec::new();
    write_all(&mut bucket, "/cache", "hello", &hello_opts());
    write_all(&mut bucket, "/cache", "world", &hello_opts());
    let entries = ls_entries(&records_of(&bucket));
    assert_eq!(entries, vec![String::from("hello"), String::from("world")]);

    bucket.extend_from_slice(&delete("/cache", "hello").record);
    let entries = ls_entries(&records_of(&bucket));
    assert_eq!(entries, vec![String::from("world")]);
}

#[test]
fn ls_keeps_last_record_of_each_key() {
    let mut bucket = Vec::new();
    write_all(&mut bucket, "/c", "k", &WriteOpts::new().integrity(sri("sha256-AAAA")).time(1));
    write_all(&mut bucket, "/c", "j", &WriteOpts::new().integrity(sri("sha256-BBBB")).time(2));
    write_all(&mut bucket, "/c", "k", &WriteOpts::new().integrity(sri("sha256-CCCC")).time(3));
    let live = live_entries(&records_of(&bucket));
    assert_eq!(live.len(), 2);
    assert_eq!(live[0].key, "k");
    assert_eq!(live[0].integrity, sri("sha256-CCCC"));
    assert_eq!(live[0].time, 3);
    assert_eq!(live[1].key, "j");
}

#[test]
fn last_write_wins() {
    let a = Integrity::parse(&ssri::Integrity::from(b"a").to_string()).unwrap();
    let b = Integrity::parse(&ssri::Integrity::from(b"b").to_string()).unwrap();
    let mut bucket = Vec::new();
    write_all(&mut bucket, "/c", "k", &WriteOpts::new().integrity(a.clone()).time(10));
    write_all(&mut bucket, "/c", "k", &WriteOpts::new().integrity(b.clone()).time(20));
    let entry = find(&records_of(&bucket), "k").unwrap();
    assert_eq!(entry.integrity, b);
    assert_eq!(entry.time, 20);
    assert_ne!(content_path("/c", &a), content_path("/c", &b));
}

#[test]
fn tombstone_hides_entry_but_not_content() {
    let x = Integrity::parse(&ssri::Integrity::from(b"x").to_string()).unwrap();
    let mut bucket = Vec::new();
    write_all(&mut bucket, "/c", "k", &WriteOpts::new().integrity(x.clone()).time(1));
    let tomb = delete("/c", "k");
    assert_eq!(tomb.entry.integrity, None);
    bucket.extend_from_slice(&tomb.record);
    assert_eq!(find(&records_of(&bucket), "k"), None);
    assert!(content_path("/c", &x).is_some());
}

#[test]
fn malformed_tail_is_skipped() {
    let mut bucket = Vec::new();
    write_all(&mut bucket, "/c", "hello", &hello_opts());
    bucket.extend_from_slice(b"\ngarbage");
    let payloads = bucket_payloads(&bucket);
    assert_eq!(payloads.len(), 1);
    assert_eq!(find(&records_of(&bucket), "hello").unwrap(), hello_entry());
    assert_eq!(live_entries(&records_of(&bucket)).len(), 1);
}

#[test]
fn corrupted_checksum_is_skipped() {
    let mut bucket = Vec::new();
    write_all(&mut bucket, "/c", "hello", &hello_opts());
    let mut second = insert("/c", "hello", &WriteOpts::new().integrity(sri("sha1-cafe")).time(5)).unwrap().record;
    second[3] = if second[3] == b'0' { b'1' } else { b'0' };
    bucket.extend_from_slice(&second);
    assert_eq!(bucket_payloads(&bucket).len(), 1);
    assert_eq!(find(&records_of(&bucket), "hello").unwrap(), hello_entry());
}

#[test]
fn line_with_two_tabs_is_skipped() {
    let bucket = b"\nabc\tdef\tghi".to_vec();
    assert!(bucket_payloads(&bucket).is_empty());
    assert!(bucket_payloads(b"").is_empty());
}

#[test]
fn unparseable_integrity_clears_entry() {
    let mut bucket = Vec::new();
    write_all(&mut bucket, "/c", "hello", &hello_opts());
    let bad = IndexRecord {
        key: String::from("hello"),
        integrity: Some(String::from("md5-abc")),
        time: 9,
        size: 0,
        metadata: String::from("null"),
        raw_metadata: None,
    };
    let mut records = records_of(&bucket);
    records.push(bad);
    assert_eq!(find(&records, "hello"), None);
    assert!(live_entries(&records).is_empty());
}

#[test]
fn payload_encodes_every_field() {
    let record = IndexRecord {
        key: String::from("a\"b"),
        integrity: None,
        time: 0,
        size: 42,
        metadata: String::from("{\"x\":[1,2]}"),
        raw_metadata: Some(vec![0, 7, 255]),
    };
    let payload = String::from_utf8(encode_payload(&record)).unwrap();
    assert_eq!(
        payload,
        "{\"key\":\"a\\\"b\",\"integrity\":null,\"time\":0,\"size\":42,\"metadata\":{\"x\":[1,2]},\"raw_metadata\":[0,7,255]}"
    );
    assert_eq!(decode(payload.as_bytes()).unwrap(), record);
}

#[test]
fn insert_defaults_fill_size_and_metadata() {
    let append = insert("/c", "k", &WriteOpts::new().size(11).metadata(String::from("{\"a\":1}")).raw_metadata(vec![1, 2]).time(7)).unwrap();
    assert_eq!(append.entry.size, 11);
    assert_eq!(append.entry.metadata, "{\"a\":1}");
    assert_eq!(append.entry.raw_metadata, Some(vec![1, 2]));
    assert_eq!(append.entry.integrity, None);
    let fresh = insert("/c", "k", &WriteOpts::new()).unwrap();
    assert_eq!(fresh.entry.size, 0);
    assert_eq!(fresh.entry.metadata, "null");
    assert!(fresh.entry.time > 1_600_000_000_000);
}

#[test]
fn remove_appends_tombstone_by_default() {
    let plan = RemoveOpts::new().remove_sync("/c", "k", None).unwrap();
    match plan {
        RemovePlan::Tombstone(a) => {
            assert_eq!(a.entry.key, "k");
            assert_eq!(a.entry.integrity, None);
            assert_eq!(a.bucket, bucket_path("/c", "k"));
        }
        RemovePlan::Unlink(_) => panic!("a plain removal appends a tombstone"),
    }
    let removed = cacache::rm::remove_sync("/c", "k");
    assert_eq!(removed.entry.integrity, None);
    match RemoveOpts::new().remove_fully(true).remove_sync("/c", "k", None).unwrap() {
        RemovePlan::Unlink(paths) => assert_eq!(paths, vec![bucket_path("/c", "k")]),
        RemovePlan::Tombstone(_) => panic!("a full removal deletes files"),
    }
}

#[test]
fn metadata_with_raw_newline_is_refused() {
    let opts = WriteOpts::new().metadata(String::from("{\n}")).time(1);
    match insert("/c", "k", &opts) {
        Err(cacache::Error::SerdeError(_)) => {}
        _ => panic!("a record must stay on one line"),
    }
    let tabbed = WriteOpts::new().metadata(String::from("[1,\t2]")).time(1);
    assert!(insert("/c", "k", &tabbed).is_err());
}

#[test]
fn control_characters_in_key_read_back() {
    let key = "line\nbreak\tand tab";
    let mut bucket = b"\nnot a record".to_vec();
    write_all(&mut bucket, "/c", key, &hello_opts());
    let payloads = bucket_payloads(&bucket);
    assert_eq!(payloads.len(), 1);
    let entry = find(&records_of(&bucket), key).unwrap();
    assert_eq!(entry.key, key);
    assert_eq!(entry.integrity, sri("sha1-deadbeef"));
}

#[test]
fn listing_agrees_with_find() {
    let mut bucket = Vec::new();
    write_all(&mut bucket, "/c", "a", &WriteOpts::new().integrity(sri("sha256-AAAA")).time(1));
    write_all(&mut bucket, "/c", "b", &WriteOpts::new().integrity(sri("sha256-BBBB")).time(2));
    bucket.extend_from_slice(&delete("/c", "a").record);
    let records = records_of(&bucket);
    for m in live_entries(&records) {
        assert_eq!(find(&records, &m.key), Some(m.clone()));
    }
    assert_eq!(find(&records, "a"), None);
}
