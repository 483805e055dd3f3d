//! The logical index: entries, their JSON payloads, and the last-write-wins
//! reading of a bucket's records.

use vstd::prelude::*;
use crate::integrity::{Integrity, HashModel, parse_spec};
use crate::layout::{bucket_path, bucket_path_spec, content_path, content_path_spec, utf8_of};
use crate::errors::{Error, IntegrityError};
use crate::record::{bucket_payloads_spec, free_of, frame_record, lemma_append_read_back, push_all, record_of};
use crate::put::WriteOpts;
use crate::integrity::sri_text;

verus! {

/// One index record as decoded from its payload. An absent integrity marks a
/// tombstone. `metadata` is the record's JSON metadata value, as JSON text.
#[derive(Clone, Debug, PartialEq, Eq)]
pub struct IndexRecord {
    pub key: String,
    pub integrity: Option<String>,
    pub time: u128,
    pub size: usize,
    pub metadata: String,
    pub raw_metadata: Option<Vec<u8>>,
}

pub struct RecordModel {
    pub key: Seq<char>,
    pub integrity: Option<Seq<char>>,
    pub time: u128,
    pub size: usize,
    pub metadata: Seq<char>,
    pub raw_metadata: Option<Seq<u8>>,
}

pub open spec fn opt_bytes(o: Option<Vec<u8>>) -> Option<Seq<u8>> {
    match o {
        Some(v) => Some(v@),
        None => None,
    }
}

pub open spec fn opt_text(o: Option<String>) -> Option<Seq<char>> {
    match o {
        Some(v) => Some(v@),
        None => None,
    }
}

impl View for IndexRecord {
    type V = RecordModel;

    open spec fn view(&self) -> RecordModel {
        RecordModel {
            key: self.key@,
            integrity: opt_text(self.integrity),
            time: self.time,
            size: self.size,
            metadata: self.metadata@,
            raw_metadata: opt_bytes(self.raw_metadata),
        }
    }
}

/// A live index entry: a key bound to the integrity of its content.
#[derive(Clone, Debug, PartialEq, Eq)]
pub struct Metadata {
    pub key: String,
    pub integrity: Integrity,
    pub time: u128,
    pub size: usize,
    pub metadata: String,
    pub raw_metadata: Option<Vec<u8>>,
}

pub struct MetadataModel {
    pub key: Seq<char>,
    pub integrity: Seq<HashModel>,
    pub time: u128,
    pub size: usize,
    pub metadata: Seq<char>,
    pub raw_metadata: Option<Seq<u8>>,
}

impl View for Metadata {
    type V = MetadataModel;

    open spec fn view(&self) -> MetadataModel {
        MetadataModel {
            key: self.key@,
            integrity: self.integrity@,
            time: self.time,
            size: self.size,
            metadata: self.metadata@,
            raw_metadata: opt_bytes(self.raw_metadata),
        }
    }
}

/// The entry a record stands for, given its parsed integrity.
pub open spec fn live_entry(r: RecordModel, i: Seq<HashModel>) -> MetadataModel {
    MetadataModel {
        key: r.key,
        integrity: i,
        time: r.time,
        size: r.size,
        metadata: r.metadata,
        raw_metadata: r.raw_metadata,
    }
}

/// The effective entry of `key` after the records `recs`, read in order: a
/// record of the key with parseable integrity sets it, any other record of
/// the key (a tombstone, or integrity that does not parse) clears it, and a
/// record of another key leaves it as it was.
pub open spec fn find_spec(recs: Seq<RecordModel>, key: Seq<char>) -> Option<MetadataModel>
    decreases recs.len(),
{
    if recs.len() == 0 {
        None
    } else {
        let acc = find_spec(recs.drop_last(), key);
        let r = recs.last();
        if r.key == key {
            match r.integrity {
                Some(t) => match parse_spec(t) {
                    Some(i) => Some(live_entry(r, i)),
                    None => None,
                },
                None => None,
            }
        } else {
            acc
        }
    }
}

fn clone_bytes(o: &Option<Vec<u8>>) -> (r: Option<Vec<u8>>)
    ensures
        opt_bytes(r) == opt_bytes(*o),
{
    match o {
        Some(v) => {
            let mut out: Vec<u8> = Vec::new();
            let mut i: usize = 0;
            while i < v.len()
                invariant
                    i <= v@.len(),
                    out@ == v@.subrange(0, i as int),
                decreases v@.len() - i,
            {
                out.push(v[i]);
                i = i + 1;
                assert(out@ =~= v@.subrange(0, i as int));
            }
            assert(v@ =~= v@.subrange(0, v@.len() as int));
            Some(out)
        },
        None => None,
    }
}

/// The entry a record stands for, or `None` for a tombstone or an integrity
/// text that does not parse.
pub fn entry_of(r: &IndexRecord) -> (e: Option<Metadata>)
    ensures
        match e {
            Some(m) => r.integrity matches Some(t) && parse_spec(t@) == Some(m@.integrity) && m@
                == live_entry(r@, m@.integrity),
            None => r.integrity is None || parse_spec(opt_text(r.integrity)->0) is None,
        },
{
    match &r.integrity {
        Some(t) => match Integrity::parse(t.as_str()) {
            Some(i) => Some(
                Metadata {
                    key: r.key.clone(),
                    integrity: i,
                    time: r.time,
                    size: r.size,
                    metadata: r.metadata.clone(),
                    raw_metadata: clone_bytes(&r.raw_metadata),
                },
            ),
            None => None,
        },
        None => None,
    }
}

/// The effective entry of `key` among a bucket's records, in file order: the
/// last record of the key decides, a tombstone or integrity that does not
/// parse meaning no entry.
pub fn find(records: &Vec<IndexRecord>, key: &str) -> (r: Option<Metadata>)
    ensures
        match r {
            Some(m) => find_spec(records@.map_values(|x: IndexRecord| x@), key@) == Some(m@),
            None => find_spec(records@.map_values(|x: IndexRecord| x@), key@) is None,
        },
{
    let ghost recs = records@.map_values(|x: IndexRecord| x@);
    let key_text = String::from_str(key);
    let mut acc: Option<Metadata> = None;
    let mut i: usize = 0;
    proof {
        assert(recs.subrange(0, 0).len() == 0);
    }
    while i < records.len()
        invariant
            recs == records@.map_values(|x: IndexRecord| x@),
            key_text@ == key@,
            i <= records@.len(),
            match acc {
                Some(m) => find_spec(recs.subrange(0, i as int), key@) == Some(m@),
                None => find_spec(recs.subrange(0, i as int), key@) is None,
            },
        decreases records@.len() - i,
    {
        let rec = &records[i];
        proof {
            assert(recs.subrange(0, i + 1).drop_last() =~= recs.subrange(0, i as int));
            assert(recs.subrange(0, i + 1).last() == rec@);
        }
        if rec.key == key_text {
            acc = entry_of(rec);
        }
        i = i + 1;
    }
    proof {
        assert(recs.subrange(0, records@.len() as int) =~= recs);
    }
    acc
}

/// Appending a record to a bucket settles its key: a tombstone (or integrity
/// that does not parse) leaves the key without an entry, a record with
/// parseable integrity becomes the entry, whatever came before; a record of
/// another key changes nothing for `key`.
pub proof fn lemma_last_write_wins(recs: Seq<RecordModel>, r: RecordModel, key: Seq<char>)
    ensures
        r.key == key && !sets_entry(r, key) ==> find_spec(recs.push(r), key) is None,
        r.key == key && r.integrity is Some && parse_spec(r.integrity->0) is Some ==> find_spec(
            recs.push(r),
            key,
        ) == Some(live_entry(r, parse_spec(r.integrity->0)->0)),
        r.key != key ==> find_spec(recs.push(r), key) == find_spec(recs, key),
{
    assert(recs.push(r).drop_last() =~= recs);
}


/// The JSON string literal that denotes a text.
pub uninterp spec fn json_quoted(s: Seq<char>) -> Seq<char>;

/// Relies on `serde_json::to_string` on a `str`, which writes the text as a
/// JSON string literal between double quotes, escaping every control
/// character, and cannot fail for a `str`.
#[verifier::external_body]
fn json_string(s: &str) -> (r: String)
    ensures
        r@ == json_quoted(s@),
        r@.len() >= 2,
        r@[0] == '"',
        r@.last() == '"',
        plain_text(r@),
{
    serde_json::to_string(s).unwrap_or_default()
}

/// A text without a raw newline or tab.
pub open spec fn plain_text(s: Seq<char>) -> bool {
    forall|i: int| 0 <= i < s.len() ==> s[i] != '\n' && s[i] != '\t'
}

/// Bytes without a newline or a tab: they stay within one record line and
/// one record field.
pub open spec fn plain_bytes(b: Seq<u8>) -> bool {
    free_of(b, 9) && free_of(b, 10)
}

proof fn lemma_scalar_plain(c: char)
    requires
        c != '\n',
        c != '\t',
    ensures
        plain_bytes(vstd::utf8::encode_scalar(c as u32)),
{
    let v = c as u32;
    vstd::utf8::char_is_scalar(c);
    assert(forall|y: u8| #[trigger] (0x80u8 | y) >= 0x80u8) by (bit_vector);
    assert(forall|y: u8| #[trigger] (0xC0u8 | y) >= 0x80u8) by (bit_vector);
    assert(forall|y: u8| #[trigger] (0xE0u8 | y) >= 0x80u8) by (bit_vector);
    assert(forall|y: u8| #[trigger] (0xF0u8 | y) >= 0x80u8) by (bit_vector);
    if vstd::utf8::has_width_1_encoding(v) {
        assert(v <= 0x7F ==> (v & 0x7F) == v) by (bit_vector);
        assert(v != 9 && v != 10);
    }
}

/// The UTF-8 bytes of a text without raw newlines or tabs hold no newline or
/// tab byte: every byte of a longer encoding is at least 0x80.
pub proof fn lemma_utf8_plain(s: Seq<char>)
    requires
        plain_text(s),
    ensures
        plain_bytes(utf8_of(s)),
    decreases s.len(),
{
    if s.len() > 0 {
        lemma_scalar_plain(s[0]);
        assert(plain_text(s.drop_first()));
        lemma_utf8_plain(s.drop_first());
        let a = vstd::utf8::encode_scalar(s[0] as u32);
        let b = utf8_of(s.drop_first());
        assert(utf8_of(s) == a + b);
        assert forall|i: int| 0 <= i < (a + b).len() implies (a + b)[i] != 9 && (a + b)[i] != 10 by {
            if i < a.len() {
                assert((a + b)[i] == a[i]);
            } else {
                assert((a + b)[i] == b[i - a.len()]);
            }
        }
    }
}

proof fn lemma_plain_concat(a: Seq<u8>, b: Seq<u8>)
    requires
        plain_bytes(a),
        plain_bytes(b),
    ensures
        plain_bytes(a + b),
{
    assert forall|i: int| 0 <= i < (a + b).len() implies (a + b)[i] != 9 && (a + b)[i] != 10 by {
        if i < a.len() {
            assert((a + b)[i] == a[i]);
        } else {
            assert((a + b)[i] == b[i - a.len()]);
        }
    }
}

/// Decimal digits of a number, most significant first, as ASCII.
pub open spec fn decimal(n: nat) -> Seq<u8>
    decreases n,
{
    if n < 10 {
        seq![(48 + n) as u8]
    } else {
        decimal(n / 10).push((48 + n % 10) as u8)
    }
}

/// The numbers of a byte string in decimal, separated by commas.
pub open spec fn byte_list(b: Seq<u8>) -> Seq<u8>
    decreases b.len(),
{
    if b.len() == 0 {
        Seq::empty()
    } else if b.len() == 1 {
        decimal(b[0] as nat)
    } else {
        byte_list(b.drop_last()) + seq![44u8] + decimal(b.last() as nat)
    }
}

/// JSON for an optional byte string: an array of numbers, or `null`.
pub open spec fn raw_json(o: Option<Seq<u8>>) -> Seq<u8> {
    match o {
        Some(b) => seq![91u8] + byte_list(b) + seq![93u8],
        None => utf8_of("null"@),
    }
}

/// JSON for an optional text: a string literal, or `null`.
pub open spec fn opt_text_json(o: Option<Seq<char>>) -> Seq<u8> {
    match o {
        Some(t) => utf8_of(json_quoted(t)),
        None => utf8_of("null"@),
    }
}

/// The payload of a record: a JSON object with the fields in a fixed order.
pub open spec fn payload_of(r: RecordModel) -> Seq<u8> {
    utf8_of("{\"key\":"@) + utf8_of(json_quoted(r.key)) + utf8_of(",\"integrity\":"@)
        + opt_text_json(r.integrity) + utf8_of(",\"time\":"@) + decimal(r.time as nat) + utf8_of(
        ",\"size\":"@,
    ) + decimal(r.size as nat) + utf8_of(",\"metadata\":"@) + utf8_of(r.metadata) + utf8_of(
        ",\"raw_metadata\":"@,
    ) + raw_json(r.raw_metadata) + utf8_of("}"@)
}

fn push_decimal(out: &mut Vec<u8>, n: u128)
    ensures
        final(out)@ == old(out)@ + decimal(n as nat),
    decreases n,
{
    if n >= 10 {
        push_decimal(out, n / 10);
    }
    out.push((48 + n % 10) as u8);
    assert(out@ =~= old(out)@ + decimal(n as nat));
}

fn push_text(out: &mut Vec<u8>, s: &str)
    ensures
        final(out)@ == old(out)@ + utf8_of(s@),
{
    push_all(out, s.as_bytes());
}

proof fn lemma_decimal_plain(n: nat)
    ensures
        plain_bytes(decimal(n)),
        forall|i: int| 0 <= i < decimal(n).len() ==> 48 <= #[trigger] decimal(n)[i] <= 57,
    decreases n,
{
    if n >= 10 {
        lemma_decimal_plain(n / 10);
    }
}

proof fn lemma_byte_list_plain(b: Seq<u8>)
    ensures
        plain_bytes(byte_list(b)),
    decreases b.len(),
{
    if b.len() == 1 {
        lemma_decimal_plain(b[0] as nat);
    } else if b.len() > 1 {
        lemma_byte_list_plain(b.drop_last());
        lemma_decimal_plain(b.last() as nat);
        lemma_plain_concat(byte_list(b.drop_last()), seq![44u8]);
        lemma_plain_concat(byte_list(b.drop_last()) + seq![44u8], decimal(b.last() as nat));
    }
}

proof fn lemma_literal_plain(s: Seq<char>)
    requires
        plain_text(s),
    ensures
        plain_bytes(utf8_of(s)),
{
    lemma_utf8_plain(s);
}

/// A payload stays on one line, in one field, when its texts do: the JSON
/// string literals of key and integrity, and the metadata.
proof fn lemma_payload_plain(r: RecordModel)
    requires
        plain_text(json_quoted(r.key)),
        r.integrity matches Some(t) ==> plain_text(json_quoted(t)),
        plain_bytes(utf8_of(r.metadata)),
    ensures
        plain_bytes(payload_of(r)),
{
    reveal_strlit("{\"key\":");
    reveal_strlit(",\"integrity\":");
    reveal_strlit(",\"time\":");
    reveal_strlit(",\"size\":");
    reveal_strlit(",\"metadata\":");
    reveal_strlit(",\"raw_metadata\":");
    reveal_strlit("}");
    reveal_strlit("null");
    let l0 = utf8_of("{\"key\":"@);
    let l1 = utf8_of(",\"integrity\":"@);
    let l2 = utf8_of(",\"time\":"@);
    let l3 = utf8_of(",\"size\":"@);
    let l4 = utf8_of(",\"metadata\":"@);
    let l5 = utf8_of(",\"raw_metadata\":"@);
    let l6 = utf8_of("}"@);
    lemma_literal_plain("{\"key\":"@);
    lemma_literal_plain(",\"integrity\":"@);
    lemma_literal_plain(",\"time\":"@);
    lemma_literal_plain(",\"size\":"@);
    lemma_literal_plain(",\"metadata\":"@);
    lemma_literal_plain(",\"raw_metadata\":"@);
    lemma_literal_plain("}"@);
    lemma_literal_plain("null"@);
    lemma_utf8_plain(json_quoted(r.key));
    match r.integrity {
        Some(t) => lemma_utf8_plain(json_quoted(t)),
        None => {},
    }
    lemma_decimal_plain(r.time as nat);
    lemma_decimal_plain(r.size as nat);
    match r.raw_metadata {
        Some(b) => {
            lemma_byte_list_plain(b);
            lemma_plain_concat(seq![91u8], byte_list(b));
            lemma_plain_concat(seq![91u8] + byte_list(b), seq![93u8]);
        },
        None => {},
    }
    let k = utf8_of(json_quoted(r.key));
    let i = opt_text_json(r.integrity);
    let m = utf8_of(r.metadata);
    let w = raw_json(r.raw_metadata);
    lemma_plain_concat(l0, k);
    lemma_plain_concat(l0 + k, l1);
    lemma_plain_concat(l0 + k + l1, i);
    lemma_plain_concat(l0 + k + l1 + i, l2);
    lemma_plain_concat(l0 + k + l1 + i + l2, decimal(r.time as nat));
    lemma_plain_concat(l0 + k + l1 + i + l2 + decimal(r.time as nat), l3);
    lemma_plain_concat(l0 + k + l1 + i + l2 + decimal(r.time as nat) + l3, decimal(r.size as nat));
    let p7 = l0 + k + l1 + i + l2 + decimal(r.time as nat) + l3 + decimal(r.size as nat);
    lemma_plain_concat(p7, l4);
    lemma_plain_concat(p7 + l4, m);
    lemma_plain_concat(p7 + l4 + m, l5);
    lemma_plain_concat(p7 + l4 + m + l5, w);
    lemma_plain_concat(p7 + l4 + m + l5 + w, l6);
}

/// The payload of a record, as it is written to its bucket. It holds no
/// newline or tab byte where the metadata text holds none.
pub fn encode_payload(r: &IndexRecord) -> (p: Vec<u8>)
    ensures
        p@ == payload_of(r@),
        plain_bytes(utf8_of(r.metadata@)) ==> plain_bytes(p@),
{
    let mut out: Vec<u8> = Vec::new();
    push_text(&mut out, "{\"key\":");
    let k = json_string(r.key.as_str());
    push_text(&mut out, k.as_str());
    push_text(&mut out, ",\"integrity\":");
    match &r.integrity {
        Some(t) => {
            let q = json_string(t.as_str());
            push_text(&mut out, q.as_str());
        },
        None => {
            push_text(&mut out, "null");
        },
    }
    push_text(&mut out, ",\"time\":");
    push_decimal(&mut out, r.time);
    push_text(&mut out, ",\"size\":");
    push_decimal(&mut out, r.size as u128);
    push_text(&mut out, ",\"metadata\":");
    push_text(&mut out, r.metadata.as_str());
    push_text(&mut out, ",\"raw_metadata\":");
    let ghost before_raw = out@;
    match &r.raw_metadata {
        Some(b) => {
            out.push(91u8);
            let mut i: usize = 0;
            while i < b.len()
                invariant
                    i <= b@.len(),
                    out@ == before_raw + seq![91u8] + byte_list(b@.subrange(0, i as int)),
                decreases b@.len() - i,
            {
                let ghost prev = out@;
                if i > 0 {
                    out.push(44u8);
                }
                push_decimal(&mut out, b[i] as u128);
                proof {
                    let t = b@.subrange(0, i + 1);
                    assert(t.drop_last() =~= b@.subrange(0, i as int));
                    if i == 0 {
                        assert(byte_list(t) == decimal(b@[0] as nat));
                    }
                    assert(out@ =~= before_raw + seq![91u8] + byte_list(t));
                }
                i = i + 1;
            }
            out.push(93u8);
            assert(b@.subrange(0, b@.len() as int) =~= b@);
        },
        None => {
            push_text(&mut out, "null");
        },
    }
    push_text(&mut out, "}");
    assert(out@ =~= payload_of(r@));
    proof {
        if plain_bytes(utf8_of(r.metadata@)) {
            assert(r@.integrity matches Some(t) ==> plain_text(json_quoted(t)));
            lemma_payload_plain(r@);
        }
    }
    out
}

/// The entries a bucket's records leave live, newest first, once each key is
/// read from its last record (`seen` holds keys whose last record is already
/// read): tombstones and unparseable integrities leave no entry.
pub open spec fn live_spec(recs: Seq<RecordModel>, seen: Set<Seq<char>>) -> Seq<MetadataModel>
    decreases recs.len(),
{
    if recs.len() == 0 {
        Seq::empty()
    } else {
        let r = recs.last();
        if seen.contains(r.key) {
            live_spec(recs.drop_last(), seen)
        } else {
            let rest = live_spec(recs.drop_last(), seen.insert(r.key));
            match r.integrity {
                Some(t) => match parse_spec(t) {
                    Some(i) => seq![live_entry(r, i)] + rest,
                    None => rest,
                },
                None => rest,
            }
        }
    }
}

fn contains_text(keys: &Vec<String>, k: &String) -> (r: bool)
    ensures
        r == exists|j: int| 0 <= j < keys@.len() && keys@[j]@ == k@,
{
    let mut j: usize = 0;
    while j < keys.len()
        invariant
            j <= keys@.len(),
            forall|q: int| 0 <= q < j ==> keys@[q]@ != k@,
        decreases keys@.len() - j,
    {
        if keys[j] == *k {
            return true;
        }
        j = j + 1;
    }
    false
}

/// The live entries of a bucket's records: for each key its last record,
/// newest first, leaving out tombstones and records whose integrity does not
/// parse.
pub fn live_entries(records: &Vec<IndexRecord>) -> (r: Vec<Metadata>)
    ensures
        r@.map_values(|m: Metadata| m@) == live_spec(
            records@.map_values(|x: IndexRecord| x@),
            Set::empty(),
        ),
{
    let ghost recs = records@.map_values(|x: IndexRecord| x@);
    let mut out: Vec<Metadata> = Vec::new();
    let mut keys: Vec<String> = Vec::new();
    let ghost mut seen: Set<Seq<char>> = Set::empty();
    let mut i: usize = records.len();
    proof {
        assert(recs.subrange(0, i as int) =~= recs);
        assert(out@.map_values(|m: Metadata| m@) + live_spec(recs, seen) =~= live_spec(recs, seen));
    }
    while i > 0
        invariant
            recs == records@.map_values(|x: IndexRecord| x@),
            i <= records@.len(),
            forall|s: Seq<char>| seen.contains(s) <==> exists|j: int| 0 <= j < keys@.len() && keys@[j]@ == s,
            out@.map_values(|m: Metadata| m@) + live_spec(recs.subrange(0, i as int), seen)
                == live_spec(recs, Set::empty()),
        decreases i,
    {
        let rec = &records[i - 1];
        let ghost sub = recs.subrange(0, i as int);
        proof {
            assert(sub.drop_last() =~= recs.subrange(0, i - 1));
            assert(sub.last() == rec@);
        }
        let ghost old_out = out@.map_values(|m: Metadata| m@);
        if !contains_text(&keys, &rec.key) {
            proof {
                assert(!seen.contains(rec@.key));
            }
            match entry_of(rec) {
                Some(m) => {
                    out.push(m);
                    proof {
                        assert(out@.map_values(|m: Metadata| m@) =~= old_out.push(m@));
                        assert(old_out.push(m@) + live_spec(recs.subrange(0, i - 1), seen.insert(rec@.key))
                            =~= old_out + (seq![m@] + live_spec(recs.subrange(0, i - 1), seen.insert(rec@.key))));
                    }
                },
                None => {},
            }
            let ghost old_keys = keys@;
            keys.push(rec.key.clone());
            proof {
                seen = seen.insert(rec@.key);
                assert forall|s: Seq<char>| seen.contains(s) implies exists|j: int| 0 <= j < keys@.len() && keys@[j]@ == s by {
                    if s == rec@.key {
                        assert(keys@[keys@.len() - 1]@ == s);
                    } else {
                        let j = choose|j: int| 0 <= j < old_keys.len() && old_keys[j]@ == s;
                        assert(keys@[j] == old_keys[j]);
                    }
                }
                assert forall|s: Seq<char>| (exists|j: int| 0 <= j < keys@.len() && keys@[j]@ == s) implies seen.contains(s) by {
                    let j = choose|j: int| 0 <= j < keys@.len() && keys@[j]@ == s;
                    if j < keys@.len() - 1 {
                        assert(keys@[j] == old_keys[j]);
                    }
                }
            }
        }
        i = i - 1;
    }
    proof {
        assert(recs.subrange(0, 0) =~= Seq::<RecordModel>::empty());
        assert(out@.map_values(|m: Metadata| m@) + Seq::<MetadataModel>::empty() =~= out@.map_values(|m: Metadata| m@));
    }
    out
}


/// Relies on `SystemTime::elapsed` on `UNIX_EPOCH`: the time since the epoch
/// by the system clock, or `None` for a clock set before it.
#[verifier::external_body]
fn since_epoch() -> (r: Option<core::time::Duration>) {
    std::time::UNIX_EPOCH.elapsed().ok()
}

/// Relies on `Duration::as_millis`: the whole milliseconds of a duration.
pub assume_specification[ core::time::Duration::as_millis ](d: &core::time::Duration) -> u128;

/// The clock in milliseconds since the epoch; zero for a clock set before it.
fn now() -> (r: u128) {
    match since_epoch() {
        Some(d) => d.as_millis(),
        None => 0,
    }
}

/// A record to append to a bucket: the entry, and its bytes.
pub struct BucketAppend {
    pub bucket: String,
    pub entry: IndexRecord,
    pub record: Vec<u8>,
}

/// The record `insert` writes for `key` under `opts` at time `time`.
pub open spec fn inserted_record(key: Seq<char>, opts: WriteOpts, time: u128) -> RecordModel {
    RecordModel {
        key: key,
        integrity: match opts.sri {
            Some(i) => Some(sri_text(i@)),
            None => None,
        },
        time: time,
        size: match opts.size {
            Some(s) => s,
            None => 0,
        },
        metadata: match opts.metadata {
            Some(m) => m@,
            None => "null"@,
        },
        raw_metadata: opt_bytes(opts.raw_metadata),
    }
}

/// Whether the metadata of `opts`, if any, is text without newline or tab
/// bytes, as compact JSON is.
pub open spec fn metadata_plain(opts: WriteOpts) -> bool {
    opts.metadata matches Some(m) ==> plain_bytes(utf8_of(m@))
}

fn plain_text_bytes(s: &str) -> (r: bool)
    ensures
        r == plain_bytes(utf8_of(s@)),
{
    let b = s.as_bytes();
    let mut i: usize = 0;
    while i < b.len()
        invariant
            b@ == utf8_of(s@),
            i <= b@.len(),
            forall|k: int| 0 <= k < i ==> b@[k] != 9 && b@[k] != 10,
        decreases b@.len() - i,
    {
        if b[i] == 9u8 || b[i] == 10u8 {
            return false;
        }
        i = i + 1;
    }
    true
}

fn append_for(cache: &str, key: &str, opts: &WriteOpts) -> (r: BucketAppend)
    requires
        metadata_plain(*opts),
    ensures
        r.bucket@ == bucket_path_spec(cache@, key@),
        r.entry@ == inserted_record(key@, *opts, r.entry.time),
        opts.time matches Some(t) ==> r.entry.time == t,
        r.record@ == record_of(payload_of(r.entry@)),
        plain_bytes(payload_of(r.entry@)),
{
    let time = match opts.time {
        Some(t) => t,
        None => now(),
    };
    let entry = IndexRecord {
        key: String::from_str(key),
        integrity: match &opts.sri {
            Some(i) => Some(i.to_string()),
            None => None,
        },
        time,
        size: match opts.size {
            Some(s) => s,
            None => 0,
        },
        metadata: match &opts.metadata {
            Some(m) => m.clone(),
            None => String::from_str("null"),
        },
        raw_metadata: clone_bytes(&opts.raw_metadata),
    };
    proof {
        if opts.metadata is None {
            reveal_strlit("null");
            lemma_literal_plain("null"@);
        }
    }
    let payload = encode_payload(&entry);
    let record = frame_record(payload.as_slice());
    BucketAppend { bucket: bucket_path(cache, key), entry, record }
}

/// The record to append for `key` under `opts`: its integrity, size and
/// metadata come from the options (no integrity makes a tombstone), its time
/// from the options or else the clock. Metadata text holding a newline or a
/// tab byte is refused, since the record must stay on one line: appended to
/// any bucket, the record is read back as that bucket's last payload.
pub fn insert(cache: &str, key: &str, opts: &WriteOpts) -> (r: Result<BucketAppend, Error>)
    ensures
        r is Ok <==> metadata_plain(*opts),
        r matches Err(e) ==> e is SerdeError,
        r matches Ok(a) ==> {
            &&& a.bucket@ == bucket_path_spec(cache@, key@)
            &&& a.entry@ == inserted_record(key@, *opts, a.entry.time)
            &&& (opts.time matches Some(t) ==> a.entry.time == t)
            &&& a.record@ == record_of(payload_of(a.entry@))
            &&& forall|c: Seq<u8>|
                #[trigger] bucket_payloads_spec(c + a.record@) == bucket_payloads_spec(c).push(
                    payload_of(a.entry@),
                )
        },
{
    match &opts.metadata {
        Some(m) => if !plain_text_bytes(m.as_str()) {
            return Err(Error::SerdeError(String::from_str("metadata holds a newline or a tab")));
        },
        None => {},
    }
    let a = append_for(cache, key, opts);
    proof {
        assert forall|c: Seq<u8>|
            #[trigger] bucket_payloads_spec(c + a.record@) == bucket_payloads_spec(c).push(
                payload_of(a.entry@),
            ) by {
            lemma_append_read_back(c, payload_of(a.entry@));
        }
    }
    Ok(a)
}

/// The tombstone record for `key`: appended, it leaves the key without an
/// entry while its content stays in the cache.
pub fn delete(cache: &str, key: &str) -> (r: BucketAppend)
    ensures
        r.bucket@ == bucket_path_spec(cache@, key@),
        r.entry@.key == key@,
        r.entry@.integrity is None,
        r.entry@.size == 0,
        r.entry@.metadata == "null"@,
        r.entry@.raw_metadata is None,
        r.record@ == record_of(payload_of(r.entry@)),
        forall|c: Seq<u8>|
            #[trigger] bucket_payloads_spec(c + r.record@) == bucket_payloads_spec(c).push(
                payload_of(r.entry@),
            ),
{
    let a = append_for(cache, key, &WriteOpts::new());
    proof {
        assert forall|c: Seq<u8>|
            #[trigger] bucket_payloads_spec(c + a.record@) == bucket_payloads_spec(c).push(
                payload_of(a.entry@),
            ) by {
            lemma_append_read_back(c, payload_of(a.entry@));
        }
    }
    a
}


/// Options of a removal.
#[derive(Clone, Copy, Debug, Default)]
pub struct RemoveOpts {
    pub remove_fully: bool,
}

/// What a removal leaves to do.
pub enum RemovePlan {
    /// Append this tombstone.
    Tombstone(BucketAppend),
    /// Delete these files, in order: the content, if an entry was found, and
    /// then the bucket.
    Unlink(Vec<String>),
}

impl RemoveOpts {
    /// Options of a plain removal, which appends a tombstone.
    pub fn new() -> (r: RemoveOpts)
        ensures
            !r.remove_fully,
    {
        RemoveOpts { remove_fully: false }
    }

    /// Sets whether the bucket file and the entry's content are deleted
    /// rather than a tombstone appended.
    pub fn remove_fully(self, remove_fully: bool) -> (r: RemoveOpts)
        ensures
            r.remove_fully == remove_fully,
    {
        RemoveOpts { remove_fully }
    }

    /// Decides the removal of `key`, given the entry the index has for it.
    pub fn remove_sync(self, cache: &str, key: &str, found: Option<Metadata>) -> (r: Result<
        RemovePlan,
        Error,
    >)
        ensures
            !self.remove_fully ==> (r matches Ok(RemovePlan::Tombstone(a)) && a.bucket@
                == bucket_path_spec(cache@, key@) && a.entry@.key == key@ && a.entry@.integrity is None
                && a.record@ == record_of(payload_of(a.entry@))),
            self.remove_fully && found is None ==> (r matches Ok(RemovePlan::Unlink(v)) && v@.len()
                == 1 && v@[0]@ == bucket_path_spec(cache@, key@)),
            self.remove_fully ==> (found matches Some(m) ==> (r is Ok <==> (m.integrity@.len() > 0
                && content_path_spec(cache@, m.integrity@) is Some))),
            self.remove_fully ==> (found matches Some(m) ==> (r matches Ok(p) ==> (p matches RemovePlan::Unlink(v)
                && v@.len() == 2 && Some(v@[0]@) == content_path_spec(cache@, m.integrity@)
                && v@[1]@ == bucket_path_spec(cache@, key@)))),
    {
        if !self.remove_fully {
            return Ok(RemovePlan::Tombstone(delete(cache, key)));
        }
        let mut paths: Vec<String> = Vec::new();
        match &found {
            Some(m) => {
                if m.integrity.hashes.len() == 0 {
                    return Err(Error::IntegrityError(IntegrityError::ParseIntegrityError(String::new())));
                }
                match content_path(cache, &m.integrity) {
                    Some(p) => paths.push(p),
                    None => {
                        let text = m.integrity.to_string();
                        return Err(Error::IntegrityError(IntegrityError::ParseIntegrityError(text)));
                    },
                }
            },
            None => {},
        }
        paths.push(bucket_path(cache, key));
        Ok(RemovePlan::Unlink(paths))
    }
}


/// A record that sets an entry for `key`: of the key, with parseable integrity.
pub open spec fn sets_entry(r: RecordModel, key: Seq<char>) -> bool {
    r.key == key && r.integrity is Some && parse_spec(r.integrity->0) is Some
}

/// The entry of a key is that of its last record: there is an entry exactly
/// when that record sets one, and then it is that record's.
pub proof fn lemma_find_is_last_valid(recs: Seq<RecordModel>, key: Seq<char>)
    ensures
        find_spec(recs, key) matches Some(m) ==> exists|i: int|
            0 <= i < recs.len() && sets_entry(#[trigger] recs[i], key) && m == live_entry(
                recs[i],
                parse_spec(recs[i].integrity->0)->0,
            ) && (forall|j: int| i < j < recs.len() ==> (#[trigger] recs[j]).key != key),
        find_spec(recs, key) is None ==> forall|i: int|
            0 <= i < recs.len() && sets_entry(#[trigger] recs[i], key) ==> exists|j: int|
                i < j < recs.len() && (#[trigger] recs[j]).key == key && !sets_entry(recs[j], key),
    decreases recs.len(),
{
    if recs.len() > 0 {
        let p = recs.drop_last();
        let r = recs.last();
        let n = recs.len() - 1;
        lemma_find_is_last_valid(p, key);
        assert forall|i: int| 0 <= i < n implies recs[i] == p[i] by {}
        if r.key == key {
            if sets_entry(r, key) {
                assert(sets_entry(recs[n], key));
            } else {
                assert forall|i: int| 0 <= i < recs.len() && sets_entry(#[trigger] recs[i], key)
                    implies exists|j: int| i < j < recs.len() && (#[trigger] recs[j]).key == key
                    && !sets_entry(recs[j], key) by {
                    assert(recs[n].key == key && !sets_entry(recs[n], key));
                }
            }
        } else {
            assert(find_spec(recs, key) == find_spec(p, key));
            if find_spec(p, key) is Some {
                let i = choose|i: int|
                    0 <= i < p.len() && sets_entry(#[trigger] p[i], key) && find_spec(p, key)->0
                        == live_entry(p[i], parse_spec(p[i].integrity->0)->0) && (forall|j: int|
                        i < j < p.len() ==> (#[trigger] p[j]).key != key);
                assert(recs[i] == p[i]);
                assert forall|j: int| i < j < recs.len() implies (#[trigger] recs[j]).key != key by {
                    if j < n {
                        assert(recs[j] == p[j]);
                    }
                }
            } else {
                assert forall|i: int| 0 <= i < recs.len() && sets_entry(#[trigger] recs[i], key)
                    implies exists|j: int| i < j < recs.len() && (#[trigger] recs[j]).key == key
                    && !sets_entry(recs[j], key) by {
                    assert(i < n);
                    assert(sets_entry(p[i], key));
                    let j = choose|j: int| i < j < p.len() && (#[trigger] p[j]).key == key && !sets_entry(p[j], key);
                    assert(recs[j] == p[j]);
                }
            }
        }
    }
}

/// Reading a bucket entry by entry agrees with looking a key up: each listed
/// entry is what `find` gives for its key.
pub proof fn lemma_listing_agrees_with_find(recs: Seq<RecordModel>, seen: Set<Seq<char>>, k: int)
    requires
        0 <= k < live_spec(recs, seen).len(),
    ensures
        find_spec(recs, live_spec(recs, seen)[k].key) == Some(live_spec(recs, seen)[k]),
    decreases recs.len(),
{
    let r = recs.last();
    let p = recs.drop_last();
    assert(recs == p.push(r));
    if seen.contains(r.key) {
        lemma_listing_agrees_with_find(p, seen, k);
        let m = live_spec(p, seen)[k];
        lemma_listed_not_seen(p, seen, k);
        assert(m.key != r.key);
    } else {
        let rest = live_spec(p, seen.insert(r.key));
        if sets_entry(r, r.key) && k == 0 {
        } else {
            let k2 = if sets_entry(r, r.key) { k - 1 } else { k };
            lemma_listing_agrees_with_find(p, seen.insert(r.key), k2);
            lemma_listed_not_seen(p, seen.insert(r.key), k2);
            assert(live_spec(recs, seen)[k] == rest[k2]);
        }
    }
}

proof fn lemma_listed_not_seen(recs: Seq<RecordModel>, seen: Set<Seq<char>>, k: int)
    requires
        0 <= k < live_spec(recs, seen).len(),
    ensures
        !seen.contains(live_spec(recs, seen)[k].key),
    decreases recs.len(),
{
    let r = recs.last();
    let p = recs.drop_last();
    if seen.contains(r.key) {
        lemma_listed_not_seen(p, seen, k);
    } else {
        let rest = live_spec(p, seen.insert(r.key));
        if sets_entry(r, r.key) && k == 0 {
        } else {
            let k2 = if sets_entry(r, r.key) { k - 1 } else { k };
            lemma_listed_not_seen(p, seen.insert(r.key), k2);
            assert(live_spec(recs, seen)[k] == rest[k2]);
        }
    }
}

} // verus!
