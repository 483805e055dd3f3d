//! Writing to the cache: the options of a write, and the checks and placement
//! decided when a write is committed.

use vstd::prelude::*;
use crate::errors::{Error, IntegrityError, IoFailure};
use crate::index::{BucketAppend, insert, metadata_plain, opt_bytes, payload_of, RecordModel};
use crate::record::bucket_payloads_spec;
use crate::layout::bucket_path_spec;
use crate::integrity::{Algorithm, HashModel, Integrity, matches_spec, sri_text};
use crate::layout::{content_path, content_path_spec};
use crate::record::record_of;

verus! {

/// Files of at most this many bytes are written through a memory map.
pub const MAX_MMAP_SIZE: usize = 1048576;

/// Options and flags of a write.
pub struct WriteOpts {
    /// Digest algorithm; SHA-256 when absent.
    pub algorithm: Option<Algorithm>,
    /// Expected integrity of the data.
    pub sri: Option<Integrity>,
    /// Expected size of the data.
    pub size: Option<usize>,
    /// Time of the entry in milliseconds since the epoch; now when absent.
    pub time: Option<u128>,
    /// Metadata of the entry, as JSON text; `null` when absent.
    pub metadata: Option<String>,
    /// Raw metadata of the entry.
    pub raw_metadata: Option<Vec<u8>>,
}

impl WriteOpts {
    /// Options with nothing set.
    pub fn new() -> (r: WriteOpts)
        ensures
            r.algorithm is None,
            r.sri is None,
            r.size is None,
            r.time is None,
            r.metadata is None,
            r.raw_metadata is None,
    {
        WriteOpts {
            algorithm: None,
            sri: None,
            size: None,
            time: None,
            metadata: None,
            raw_metadata: None,
        }
    }

    /// The digest algorithm a write computes.
    pub open spec fn algorithm_spec(&self) -> Algorithm {
        match self.algorithm {
            Some(a) => a,
            None => Algorithm::Sha256,
        }
    }

    /// The digest algorithm a write computes: the one set, else SHA-256.
    pub fn chosen_algorithm(&self) -> (r: Algorithm)
        ensures
            r == self.algorithm_spec(),
    {
        match self.algorithm {
            Some(a) => a,
            None => Algorithm::Sha256,
        }
    }

    /// Sets the digest algorithm.
    pub fn algorithm(self, algo: Algorithm) -> (r: WriteOpts)
        ensures
            r.algorithm == Some(algo),
            r.sri == self.sri,
            r.size == self.size,
            r.time == self.time,
            r.metadata == self.metadata,
            r.raw_metadata == self.raw_metadata,
    {
        WriteOpts { algorithm: Some(algo), ..self }
    }

    /// Sets the expected size.
    pub fn size(self, size: usize) -> (r: WriteOpts)
        ensures
            r.size == Some(size),
            r.algorithm == self.algorithm,
            r.sri == self.sri,
            r.time == self.time,
            r.metadata == self.metadata,
            r.raw_metadata == self.raw_metadata,
    {
        WriteOpts { size: Some(size), ..self }
    }

    /// Sets the metadata, as JSON text.
    pub fn metadata(self, metadata: String) -> (r: WriteOpts)
        ensures
            r.metadata == Some(metadata),
            r.algorithm == self.algorithm,
            r.sri == self.sri,
            r.size == self.size,
            r.time == self.time,
            r.raw_metadata == self.raw_metadata,
    {
        WriteOpts { metadata: Some(metadata), ..self }
    }

    /// Sets the raw metadata.
    pub fn raw_metadata(self, metadata: Vec<u8>) -> (r: WriteOpts)
        ensures
            r.raw_metadata == Some(metadata),
            r.algorithm == self.algorithm,
            r.sri == self.sri,
            r.size == self.size,
            r.time == self.time,
            r.metadata == self.metadata,
    {
        WriteOpts { raw_metadata: Some(metadata), ..self }
    }

    /// Sets the time of the entry.
    pub fn time(self, time: u128) -> (r: WriteOpts)
        ensures
            r.time == Some(time),
            r.algorithm == self.algorithm,
            r.sri == self.sri,
            r.size == self.size,
            r.metadata == self.metadata,
            r.raw_metadata == self.raw_metadata,
    {
        WriteOpts { time: Some(time), ..self }
    }

    /// Sets the expected integrity.
    pub fn integrity(self, sri: Integrity) -> (r: WriteOpts)
        ensures
            r.sri == Some(sri),
            r.algorithm == self.algorithm,
            r.size == self.size,
            r.time == self.time,
            r.metadata == self.metadata,
            r.raw_metadata == self.raw_metadata,
    {
        WriteOpts { sri: Some(sri), ..self }
    }
}

/// The length to memory-map a new temporary file to, when the announced size
/// is small enough for it.
pub fn mmap_len(size: Option<usize>) -> (r: Option<usize>)
    ensures
        r == match size {
            Some(s) => if s <= MAX_MMAP_SIZE {
                Some(s)
            } else {
                None
            },
            None => None,
        },
{
    match size {
        Some(s) => if s <= MAX_MMAP_SIZE {
            Some(s)
        } else {
            None
        },
        None => None,
    }
}

/// The checks of a commit: the computed integrity must match the expected
/// one, if any, and the number of bytes written the expected size, if any.
pub open spec fn commit_failure(
    expected: Option<Seq<crate::integrity::HashModel>>,
    size: Option<usize>,
    computed: Seq<crate::integrity::HashModel>,
    written: usize,
) -> Option<int> {
    if expected is Some && matches_spec(expected->0, computed) is None {
        Some(0)
    } else if size is Some && size->0 != written {
        Some(1)
    } else {
        None
    }
}

pub open spec fn opt_sri(o: Option<Integrity>) -> Option<Seq<crate::integrity::HashModel>> {
    match o {
        Some(i) => Some(i@),
        None => None,
    }
}

/// Checks a finished write against the options: an integrity mismatch first,
/// then a size mismatch.
pub fn check_commit(opts: &WriteOpts, computed: &Integrity, written: usize) -> (r: Result<(), Error>)
    requires
        computed.hashes@.len() > 0,
    ensures
        commit_failure(opt_sri(opts.sri), opts.size, computed@, written) is None <==> r is Ok,
        commit_failure(opt_sri(opts.sri), opts.size, computed@, written) == Some(0int) ==> (
        r matches Err(Error::IntegrityError(IntegrityError::IntegrityCheckError(w, a))) && w@
            == opt_sri(opts.sri)->0 && a@ == computed@),
        commit_failure(opt_sri(opts.sri), opts.size, computed@, written) == Some(1int) ==> r
            == Err::<(), Error>(Error::SizeMismatch(opts.size->0, written)),
{
    match &opts.sri {
        Some(expected) => {
            if expected.matches(computed).is_none() {
                return Err(
                    Error::IntegrityError(
                        IntegrityError::IntegrityCheckError(expected.duplicate(), computed.duplicate()),
                    ),
                );
            }
        },
        None => {},
    }
    match opts.size {
        Some(s) => if s != written {
            return Err(Error::SizeMismatch(s, written));
        },
        None => {},
    }
    Ok(())
}

/// What a successful commit leaves to do: move the temporary file to
/// `content`, then append `index`, if any, to its bucket.
pub struct CommitPlan {
    pub integrity: Integrity,
    pub content: String,
    pub index: Option<BucketAppend>,
}

/// The record a commit appends for `key`: the computed integrity and the
/// number of bytes written, with the time, metadata and raw metadata of the
/// options.
pub open spec fn committed_record(
    key: Seq<char>,
    opts: WriteOpts,
    computed: Seq<HashModel>,
    written: usize,
    time: u128,
) -> RecordModel {
    RecordModel {
        key: key,
        integrity: Some(sri_text(computed)),
        time: time,
        size: written,
        metadata: match opts.metadata {
            Some(m) => m@,
            None => "null"@,
        },
        raw_metadata: opt_bytes(opts.raw_metadata),
    }
}

/// Decides a commit. The checks of `check_commit` come first, with its
/// errors; then the data goes to the content path of the computed integrity,
/// and a key, if given, is bound to that integrity with the number of bytes
/// written, by a record that reads back from its bucket.
pub fn commit(
    cache: &str,
    key: Option<&str>,
    opts: WriteOpts,
    computed: &Integrity,
    written: usize,
) -> (r: Result<CommitPlan, Error>)
    requires
        computed.hashes@.len() > 0,
    ensures
        r is Ok <==> (commit_failure(opt_sri(opts.sri), opts.size, computed@, written) is None
            && content_path_spec(cache@, computed@) is Some && (key is Some ==> metadata_plain(
            opts,
        ))),
        commit_failure(opt_sri(opts.sri), opts.size, computed@, written) == Some(0int) ==> (
        r matches Err(Error::IntegrityError(IntegrityError::IntegrityCheckError(w, a))) && w@
            == opt_sri(opts.sri)->0 && a@ == computed@),
        commit_failure(opt_sri(opts.sri), opts.size, computed@, written) == Some(1int) ==> r
            == Err::<CommitPlan, Error>(Error::SizeMismatch(opts.size->0, written)),
        commit_failure(opt_sri(opts.sri), opts.size, computed@, written) is None
            && content_path_spec(cache@, computed@) is None ==> (r matches Err(
            Error::IntegrityError(IntegrityError::ParseIntegrityError(_)),
        )),
        commit_failure(opt_sri(opts.sri), opts.size, computed@, written) is None
            && content_path_spec(cache@, computed@) is Some && key is Some && !metadata_plain(opts)
            ==> (r matches Err(e) && e is SerdeError),
        r matches Ok(plan) ==> {
            &&& plan.integrity@ == computed@
            &&& Some(plan.content@) == content_path_spec(cache@, computed@)
            &&& (key is None <==> plan.index is None)
            &&& (plan.index matches Some(a) ==> {
                &&& a.bucket@ == bucket_path_spec(cache@, key->0@)
                &&& a.entry@ == committed_record(key->0@, opts, computed@, written, a.entry.time)
                &&& (opts.time matches Some(t) ==> a.entry.time == t)
                &&& a.record@ == record_of(payload_of(a.entry@))
                &&& forall|c: Seq<u8>|
                    #[trigger] bucket_payloads_spec(c + a.record@) == bucket_payloads_spec(c).push(
                        payload_of(a.entry@),
                    )
            })
        },
{
    match check_commit(&opts, computed, written) {
        Ok(()) => {},
        Err(e) => return Err(e),
    }
    let content = match content_path(cache, computed) {
        Some(p) => p,
        None => {
            return Err(Error::IntegrityError(IntegrityError::ParseIntegrityError(computed.to_string())));
        },
    };
    let index = match key {
        Some(k) => {
            let o = WriteOpts { sri: Some(computed.duplicate()), size: Some(written), ..opts };
            match insert(cache, k, &o) {
                Ok(a) => Some(a),
                Err(e) => return Err(e),
            }
        },
        None => None,
    };
    Ok(CommitPlan { integrity: computed.duplicate(), content, index })
}

/// The outcome of moving a finished temporary file to its content path. A
/// failed move is still a success when the destination exists: a parallel
/// writer put the same bytes there, since the path is their digest.
pub fn persist_outcome(
    rename: Result<(), IoFailure>,
    destination_exists: bool,
    context: String,
) -> (r: Result<(), Error>)
    ensures
        (rename is Ok || destination_exists) <==> r is Ok,
        rename matches Err(e) ==> (!destination_exists ==> r == Err::<(), Error>(Error::IoError(e, context))),
{
    match rename {
        Ok(()) => Ok(()),
        Err(e) => if destination_exists {
            Ok(())
        } else {
            Err(Error::IoError(e, context))
        },
    }
}

} // verus!
