//! Removing entries from the cache.

use vstd::prelude::*;
use crate::index::{BucketAppend, delete, payload_of};
use crate::layout::bucket_path_spec;
use crate::record::record_of;

verus! {

/// Removes the index entry of `key` by appending a tombstone to its bucket;
/// the content stays in the cache, reachable by its integrity.
pub fn remove_sync(cache: &str, key: &str) -> (r: BucketAppend)
    ensures
        r.bucket@ == bucket_path_spec(cache@, key@),
        r.entry@.key == key@,
        r.entry@.integrity is None,
        r.record@ == record_of(payload_of(r.entry@)),
{
    delete(cache, key)
}

} // verus!
