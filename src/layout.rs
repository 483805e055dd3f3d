//! Deterministic placement of blobs and index buckets under a cache root.
//!
//! A blob with integrity `<algo>-<digest>` lives at
//! `<root>/content-v2/<algo>/<hh>/<hh>/<rest>`, where the `h`s are the lowercase
//! hex of the decoded digest; the index bucket of a key lives at
//! `<root>/index-v5/<kk>/<kk>/<rest>`, from the hex of the key's SHA-1.

use vstd::prelude::*;
use crate::digests::{base64_decode, base64_decoded, hex_encode, hex_of, sha1_digest, sha1_of, lemma_hex_len};
use crate::integrity::{Integrity, HashModel};

verus! {

/// `<h[0..2]>/<h[2..4]>/<h[4..]>`.
pub open spec fn shard(h: Seq<char>) -> Seq<char> {
    h.subrange(0, 2) + seq!['/'] + h.subrange(2, 4) + seq!['/'] + h.subrange(4, h.len() as int)
}

/// The UTF-8 bytes of a text.
pub open spec fn utf8_of(s: Seq<char>) -> Seq<u8> {
    vstd::utf8::encode_utf8(s)
}

/// The hex SHA-1 of a key, which decides its bucket.
pub open spec fn key_hash(key: Seq<char>) -> Seq<char> {
    hex_of(sha1_of(utf8_of(key)))
}

pub open spec fn bucket_path_spec(cache: Seq<char>, key: Seq<char>) -> Seq<char> {
    cache + "/index-v5/"@ + shard(key_hash(key))
}

/// Where the blob of an integrity value lives, going by its strongest hash;
/// `None` where that hash's digest is not base64 of at least two bytes.
pub open spec fn content_path_spec(cache: Seq<char>, sri: Seq<HashModel>) -> Option<Seq<char>> {
    match base64_decoded(sri[0].1) {
        Some(b) => if b.len() >= 2 {
            Some(cache + "/content-v2/"@ + sri[0].0.spec_name() + seq!['/'] + shard(hex_of(b)))
        } else {
            None
        },
        None => None,
    }
}

fn append_shard(out: &mut String, h: &str)
    requires
        h@.len() >= 4,
    ensures
        final(out)@ == old(out)@ + shard(h@),
{
    proof {
        reveal_strlit("/");
    }
    out.append(h.substring_char(0, 2));
    out.append("/");
    out.append(h.substring_char(2, 4));
    out.append("/");
    out.append(h.substring_char(4, h.unicode_len()));
}

/// The lowercase hex SHA-1 of a key's UTF-8 bytes: forty digits.
pub fn hash_key(key: &str) -> (r: String)
    ensures
        r@ == key_hash(key@),
        r@.len() == 40,
{
    let digest = sha1_digest(key.as_bytes());
    proof {
        lemma_hex_len(digest@);
    }
    hex_encode(digest.as_slice())
}

/// The path of the index bucket that holds a key's records.
pub fn bucket_path(cache: &str, key: &str) -> (r: String)
    ensures
        r@ == bucket_path_spec(cache@, key@),
{
    let hashed = hash_key(key);
    let mut out = String::from_str(cache);
    out.append("/index-v5/");
    append_shard(&mut out, hashed.as_str());
    out
}

/// The path of the blob of an integrity value, going by its strongest hash.
/// `None` where that digest is not base64 of at least two bytes.
pub fn content_path(cache: &str, sri: &Integrity) -> (r: Option<String>)
    requires
        sri.hashes@.len() > 0,
    ensures
        match r {
            Some(p) => content_path_spec(cache@, sri@) == Some(p@),
            None => content_path_spec(cache@, sri@) is None,
        },
{
    let h = &sri.hashes[0];
    let bytes = match base64_decode(h.digest.as_str()) {
        Some(b) => b,
        None => return None,
    };
    if bytes.len() < 2 {
        return None;
    }
    let hex = hex_encode(bytes.as_slice());
    proof {
        lemma_hex_len(bytes@);
    }
    let mut out = String::from_str(cache);
    out.append("/content-v2/");
    out.append(h.algorithm.name());
    out.append("/");
    proof {
        reveal_strlit("/");
    }
    append_shard(&mut out, hex.as_str());
    Some(out)
}

} // verus!
