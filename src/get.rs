//! Reading from the cache: locating an entry's content and checking the
//! digest of what was read against the entry's integrity.

use vstd::prelude::*;
use crate::errors::{Error, IntegrityError};
use crate::index::Metadata;
use crate::integrity::{Algorithm, HashModel, Integrity};
use crate::layout::{content_path, content_path_spec};

verus! {

/// Whether the digest of the data read, `computed` (made with `expected`'s
/// strongest algorithm), is one of `expected`'s hashes of that algorithm;
/// the algorithm, if so.
pub open spec fn check_spec(expected: Seq<HashModel>, computed: Seq<HashModel>) -> Option<Algorithm> {
    if computed.len() > 0 && exists|i: int|
        0 <= i < expected.len() && (forall|j: int| 0 <= j <= i ==> #[trigger] expected[j].0 == expected[0].0)
            && #[trigger] expected[i] == computed[0] {
        Some(expected[0].0)
    } else {
        None
    }
}

/// A reader of one blob: where it lives and what its bytes must hash to.
/// The caller streams the file at `content_path`, hashes what it reads with
/// `algorithm`, and hands the result to `check` once at the end.
pub struct SyncReader {
    expected: Integrity,
    path: String,
}

impl SyncReader {
    pub closed spec fn expected_spec(&self) -> Seq<HashModel> {
        self.expected@
    }

    pub closed spec fn path_spec(&self) -> Seq<char> {
        self.path@
    }

    pub closed spec fn wf(&self) -> bool {
        self.expected.hashes@.len() > 0
    }

    /// Opens the blob of the entry found for `key`; `EntryNotFound` when the
    /// index has no entry for it.
    pub fn open(cache: &str, key: &str, found: Option<Metadata>) -> (r: Result<SyncReader, Error>)
        ensures
            found is None ==> (r matches Err(Error::EntryNotFound(c, k)) && c@ == cache@ && k@
                == key@),
            found matches Some(m) ==> (r is Ok <==> (m.integrity@.len() > 0 && content_path_spec(
                cache@,
                m.integrity@,
            ) is Some)),
            r matches Ok(rd) ==> found matches Some(m) && rd.wf() && rd.expected_spec() == m.integrity@
                && Some(rd.path_spec()) == content_path_spec(cache@, m.integrity@),
    {
        match found {
            Some(m) => SyncReader::open_hash(cache, m.integrity),
            None => Err(Error::EntryNotFound(String::from_str(cache), String::from_str(key))),
        }
    }

    /// Opens the blob of an integrity value.
    pub fn open_hash(cache: &str, sri: Integrity) -> (r: Result<SyncReader, Error>)
        ensures
            r is Ok <==> (sri@.len() > 0 && content_path_spec(cache@, sri@) is Some),
            r matches Ok(rd) ==> rd.wf() && rd.expected_spec() == sri@ && Some(rd.path_spec())
                == content_path_spec(cache@, sri@),
    {
        if sri.hashes.len() == 0 {
            return Err(Error::IntegrityError(IntegrityError::ParseIntegrityError(String::new())));
        }
        match content_path(cache, &sri) {
            Some(path) => Ok(SyncReader { expected: sri, path }),
            None => {
                let text = sri.to_string();
                Err(Error::IntegrityError(IntegrityError::ParseIntegrityError(text)))
            },
        }
    }

    /// The file to read.
    pub fn content_path(&self) -> (r: &String)
        ensures
            r@ == self.path_spec(),
    {
        &self.path
    }

    /// The algorithm to hash the data with: the strongest of the expected ones.
    pub fn algorithm(&self) -> (r: Algorithm)
        requires
            self.wf(),
        ensures
            r == self.expected_spec()[0].0,
    {
        self.expected.pick_algorithm()
    }

    /// Checks the digest of all the data read. `IntegrityCheckError` unless it
    /// is one of the expected hashes of the reader's algorithm.
    pub fn check(&self, computed: &Integrity) -> (r: Result<Algorithm, Error>)
        requires
            self.wf(),
        ensures
            match check_spec(self.expected_spec(), computed@) {
                Some(a) => r == Ok::<Algorithm, Error>(a),
                None => r matches Err(Error::IntegrityError(IntegrityError::IntegrityCheckError(w, a)))
                    && w@ == self.expected_spec() && a@ == computed@,
            },
    {
        let algo = self.expected.pick_algorithm();
        if computed.hashes.len() > 0 {
            let c = &computed.hashes[0];
            let mut i: usize = 0;
            while i < self.expected.hashes.len() && self.expected.hashes[i].algorithm == algo
                invariant
                    i <= self.expected@.len(),
                    self.expected@.len() > 0,
                    algo == self.expected@[0].0,
                    computed@.len() > 0,
                    c@ == computed@[0],
                    forall|j: int| 0 <= j < i ==> #[trigger] self.expected@[j].0 == algo,
                    forall|j: int| 0 <= j < i ==> #[trigger] self.expected@[j] != computed@[0],
                decreases self.expected@.len() - i,
            {
                let h = &self.expected.hashes[i];
                if h.digest == c.digest && h.algorithm == c.algorithm {
                    assert(self.expected@[i as int] == computed@[0]);
                    assert(forall|j: int| 0 <= j <= i ==> #[trigger] self.expected@[j].0 == self.expected@[0].0);
                    return Ok(algo);
                }
                i = i + 1;
            }
            proof {
                assert forall|k: int|
                    0 <= k < self.expected@.len() && (forall|j: int|
                        0 <= j <= k ==> #[trigger] self.expected@[j].0 == self.expected@[0].0)
                        implies #[trigger] self.expected@[k] != computed@[0] by {
                    if k >= i {
                        assert(self.expected@[i as int].0 == self.expected@[0].0);
                    }
                }
            }
        }
        Err(
            Error::IntegrityError(
                IntegrityError::IntegrityCheckError(self.expected.duplicate(), computed.duplicate()),
            ),
        )
    }
}

} // verus!
