//! Subresource-integrity tokens: `<algo>-<base64 digest>`, possibly several
//! separated by spaces, kept strongest algorithm first.

use vstd::prelude::*;

verus! {

/// The digest algorithms an integrity token can name, strongest first.
#[derive(Clone, Copy, Debug, PartialEq, Eq, Structural, Hash)]
pub enum Algorithm {
    Sha512,
    Sha384,
    Sha256,
    Sha1,
    Xxh3,
}

impl Algorithm {
    /// The name of the algorithm in integrity text and in content paths.
    pub open spec fn spec_name(self) -> Seq<char> {
        match self {
            Algorithm::Sha512 => "sha512"@,
            Algorithm::Sha384 => "sha384"@,
            Algorithm::Sha256 => "sha256"@,
            Algorithm::Sha1 => "sha1"@,
            Algorithm::Xxh3 => "xxh3"@,
        }
    }

    /// Position in the strength order: 0 is the strongest.
    pub open spec fn rank(self) -> nat {
        match self {
            Algorithm::Sha512 => 0,
            Algorithm::Sha384 => 1,
            Algorithm::Sha256 => 2,
            Algorithm::Sha1 => 3,
            Algorithm::Xxh3 => 4,
        }
    }

    /// The name of the algorithm.
    pub fn name(&self) -> (r: &'static str)
        ensures
            r@ == self.spec_name(),
    {
        match self {
            Algorithm::Sha512 => "sha512",
            Algorithm::Sha384 => "sha384",
            Algorithm::Sha256 => "sha256",
            Algorithm::Sha1 => "sha1",
            Algorithm::Xxh3 => "xxh3",
        }
    }

    /// The algorithm with the given name, matched case-sensitively.
    pub fn from_name(s: &str) -> (r: Option<Algorithm>)
        ensures
            match r {
                Some(a) => a.spec_name() == s@,
                None => !is_algorithm_name(s@),
            },
    {
        if text_eq(s, "sha512") {
            Some(Algorithm::Sha512)
        } else if text_eq(s, "sha384") {
            Some(Algorithm::Sha384)
        } else if text_eq(s, "sha256") {
            Some(Algorithm::Sha256)
        } else if text_eq(s, "sha1") {
            Some(Algorithm::Sha1)
        } else if text_eq(s, "xxh3") {
            Some(Algorithm::Xxh3)
        } else {
            None
        }
    }
}

/// Distinct algorithms have distinct names.
pub proof fn lemma_name_injective(a: Algorithm, b: Algorithm)
    requires
        a.spec_name() == b.spec_name(),
    ensures
        a == b,
{
    reveal_strlit("sha512");
    reveal_strlit("sha384");
    reveal_strlit("sha256");
    reveal_strlit("sha1");
    reveal_strlit("xxh3");
    if a != b {
        let (x, y) = (a.spec_name(), b.spec_name());
        assert(x.len() == y.len());
        assert(x[3] == y[3] && x[4] == y[4] && x[0] == y[0]);
    }
}

/// The strength rank of the algorithm with the given name.
pub open spec fn name_rank(s: Seq<char>) -> nat {
    if s == "sha512"@ {
        0
    } else if s == "sha384"@ {
        1
    } else if s == "sha256"@ {
        2
    } else if s == "sha1"@ {
        3
    } else {
        4
    }
}

proof fn lemma_algorithm_named(a: Algorithm)
    ensures
        algorithm_named(a.spec_name()) == a,
{
    lemma_name_rank(a);
}

proof fn lemma_name_rank(a: Algorithm)
    ensures
        name_rank(a.spec_name()) == a.rank(),
{
    reveal_strlit("sha512");
    reveal_strlit("sha384");
    reveal_strlit("sha256");
    reveal_strlit("sha1");
    reveal_strlit("xxh3");
    match a {
        Algorithm::Sha512 => {},
        Algorithm::Sha384 => {
            assert("sha384"@[3] != "sha512"@[3]);
        },
        Algorithm::Sha256 => {
            assert("sha256"@[3] != "sha512"@[3]);
            assert("sha256"@[4] != "sha384"@[4]);
        },
        Algorithm::Sha1 => {
            assert("sha1"@.len() != "sha512"@.len());
        },
        Algorithm::Xxh3 => {
            assert("xxh3"@[0] != "sha512"@[0]);
            assert("xxh3"@[0] != "sha1"@[0]);
        },
    }
}

pub open spec fn is_algorithm_name(s: Seq<char>) -> bool {
    exists|a: Algorithm| a.spec_name() == s
}

/// Character-wise equality of two texts.
pub fn text_eq(a: &str, b: &str) -> (r: bool)
    ensures
        r == (a@ == b@),
{
    let n = a.unicode_len();
    if n != b.unicode_len() {
        return false;
    }
    let mut i: usize = 0;
    while i < n
        invariant
            n == a@.len(),
            n == b@.len(),
            i <= n,
            a@.subrange(0, i as int) == b@.subrange(0, i as int),
        decreases n - i,
    {
        if a.get_char(i) != b.get_char(i) {
            return false;
        }
        assert(a@.subrange(0, i + 1) =~= a@.subrange(0, i as int).push(a@[i as int]));
        assert(b@.subrange(0, i + 1) =~= b@.subrange(0, i as int).push(b@[i as int]));
        i = i + 1;
    }
    assert(a@ =~= a@.subrange(0, n as int));
    assert(b@ =~= b@.subrange(0, n as int));
    true
}

/// One algorithm/digest pair of an integrity token.
#[derive(Clone, Debug, PartialEq, Eq, Hash)]
pub struct Hash {
    pub algorithm: Algorithm,
    pub digest: String,
}

/// The model of a hash: its algorithm and digest text.
pub type HashModel = (Algorithm, Seq<char>);

impl View for Hash {
    type V = HashModel;

    open spec fn view(&self) -> HashModel {
        (self.algorithm, self.digest@)
    }
}

/// A parsed integrity token: one or more hashes, strongest algorithm first.
#[derive(Clone, Debug, PartialEq, Eq, Hash)]
pub struct Integrity {
    pub hashes: Vec<Hash>,
}

impl View for Integrity {
    type V = Seq<HashModel>;

    open spec fn view(&self) -> Seq<HashModel> {
        self.hashes@.map_values(|h: Hash| h@)
    }
}

/// `<algo>-<digest>`.
pub open spec fn hash_text(h: HashModel) -> Seq<char> {
    h.0.spec_name() + seq!['-'] + h.1
}

/// The hashes' texts joined by single spaces.
pub open spec fn sri_text(hs: Seq<HashModel>) -> Seq<char>
    decreases hs.len(),
{
    if hs.len() == 0 {
        Seq::empty()
    } else if hs.len() == 1 {
        hash_text(hs[0])
    } else {
        sri_text(hs.drop_last()) + seq![' '] + hash_text(hs.last())
    }
}

/// The hashes of `hs` whose algorithm has rank `k`, in their order in `hs`.
pub open spec fn with_rank(hs: Seq<HashModel>, k: nat) -> Seq<HashModel>
    decreases hs.len(),
{
    if hs.len() == 0 {
        Seq::empty()
    } else if hs.last().0.rank() == k {
        with_rank(hs.drop_last(), k).push(hs.last())
    } else {
        with_rank(hs.drop_last(), k)
    }
}

/// A stable reordering of `hs`, strongest algorithm first.
pub open spec fn by_strength(hs: Seq<HashModel>) -> Seq<HashModel> {
    with_rank(hs, 0) + with_rank(hs, 1) + with_rank(hs, 2) + with_rank(hs, 3) + with_rank(hs, 4)
}

pub open spec fn strength_ordered(hs: Seq<HashModel>) -> bool {
    forall|i: int, j: int| 0 <= i < j < hs.len() ==> hs[i].0.rank() <= hs[j].0.rank()
}

/// A character of the standard base64 alphabet, padding included.
pub open spec fn is_base64_char(c: char) -> bool {
    ('A' <= c && c <= 'Z') || ('a' <= c && c <= 'z') || ('0' <= c && c <= '9') || c == '+'
        || c == '/' || c == '='
}

pub open spec fn plain_digests(hs: Seq<HashModel>) -> bool {
    forall|i: int, j: int|
        0 <= i < hs.len() && 0 <= j < hs[i].1.len() ==> is_base64_char(#[trigger] hs[i].1[j])
}

/// A value that integrity text can denote exactly: at least one hash, in
/// strength order, with base64 digests.
pub open spec fn well_formed(hs: Seq<HashModel>) -> bool {
    hs.len() > 0 && strength_ordered(hs) && plain_digests(hs)
}

proof fn lemma_with_rank_none(hs: Seq<HashModel>, k: nat)
    requires
        forall|i: int| 0 <= i < hs.len() ==> hs[i].0.rank() != k,
    ensures
        with_rank(hs, k) == Seq::<HashModel>::empty(),
    decreases hs.len(),
{
    if hs.len() > 0 {
        lemma_with_rank_none(hs.drop_last(), k);
    }
}

/// Reordering by strength keeps every hash.
pub proof fn lemma_by_strength_len(hs: Seq<HashModel>)
    ensures
        by_strength(hs).len() == hs.len(),
    decreases hs.len(),
{
    if hs.len() > 0 {
        lemma_by_strength_len(hs.drop_last());
    }
}

/// A sequence already in strength order is left as it is by the reordering.
pub proof fn lemma_by_strength_identity(hs: Seq<HashModel>)
    requires
        strength_ordered(hs),
    ensures
        by_strength(hs) == hs,
    decreases hs.len(),
{
    if hs.len() > 0 {
        let p = hs.drop_last();
        let x = hs.last();
        assert(strength_ordered(p));
        lemma_by_strength_identity(p);
        let r = x.0.rank();
        assert forall|k: nat| r < k implies with_rank(p, k) == Seq::<HashModel>::empty() by {
            assert forall|i: int| 0 <= i < p.len() implies p[i].0.rank() != k by {
                assert(hs[i] == p[i]);
            }
            lemma_with_rank_none(p, k);
        }
        assert(by_strength(hs) =~= by_strength(p).push(x));
        assert(p.push(x) =~= hs);
    }
}


/// The model of a pair of texts.
pub open spec fn pair_model(p: (String, String)) -> (Seq<char>, Seq<char>) {
    (p.0@, p.1@)
}

/// The model of a hash written as a pair of texts, name and digest.
pub open spec fn named(h: HashModel) -> (Seq<char>, Seq<char>) {
    (h.0.spec_name(), h.1)
}

/// What ssri's parser makes of an integrity text: the (name, digest) pairs of
/// its hashes, or `None` where it refuses the text.
pub uninterp spec fn ssri_parsed(text: Seq<char>) -> Option<Seq<(Seq<char>, Seq<char>)>>;

/// The algorithm with a given name.
pub open spec fn algorithm_named(s: Seq<char>) -> Algorithm {
    if s == "sha512"@ {
        Algorithm::Sha512
    } else if s == "sha384"@ {
        Algorithm::Sha384
    } else if s == "sha256"@ {
        Algorithm::Sha256
    } else if s == "sha1"@ {
        Algorithm::Sha1
    } else {
        Algorithm::Xxh3
    }
}

/// The integrity value a text denotes: the hashes that the parser reads from
/// it, if it reads at least one.
pub open spec fn parse_spec(text: Seq<char>) -> Option<Seq<HashModel>> {
    match ssri_parsed(text) {
        Some(ps) => if ps.len() > 0 {
            Some(ps.map_values(|p: (Seq<char>, Seq<char>)| (algorithm_named(p.0), p.1)))
        } else {
            None
        },
        None => None,
    }
}

/// Relies on `<ssri::Integrity as FromStr>::from_str`, which splits the text at
/// whitespace, reads each piece as `<algo>-<digest>` with a known algorithm name,
/// and sorts the hashes stably by algorithm strength; and on the `Display` of
/// `ssri::Algorithm`, which writes that algorithm's lowercase name.
#[verifier::external_body]
fn parse_pairs(text: &str) -> (r: Option<Vec<(String, String)>>)
    ensures
        match r {
            Some(v) => ssri_parsed(text@) == Some(v@.map_values(|p: (String, String)| pair_model(p))),
            None => ssri_parsed(text@) is None,
        },
        r is Some ==> forall|i: int|
            0 <= i < r->0@.len() ==> is_algorithm_name(#[trigger] r->0@[i].0@),
        r is Some ==> forall|i: int, j: int|
            0 <= i < j < r->0@.len() ==> name_rank(#[trigger] r->0@[i].0@) <= name_rank(
                #[trigger] r->0@[j].0@,
            ),
        forall|hs: Seq<HashModel>|
            #![trigger sri_text(hs)]
            sri_text(hs) == text@ && plain_digests(hs) ==> r is Some && r->0@.map_values(
                |p: (String, String)| pair_model(p),
            ) == by_strength(hs).map_values(|h: HashModel| named(h)),
{
    match text.parse::<ssri::Integrity>() {
        Ok(sri) => Some(
            sri.hashes.into_iter().map(|h| (h.algorithm.to_string(), h.digest)).collect(),
        ),
        Err(_) => None,
    }
}

impl Integrity {
    /// Parses integrity text. Hashes come out strongest algorithm first, and a
    /// text that names no hash at all is refused.
    pub fn parse(text: &str) -> (r: Option<Integrity>)
        ensures
            match r {
                Some(i) => parse_spec(text@) == Some(i@),
                None => parse_spec(text@) is None,
            },
            r matches Some(i) ==> i@.len() > 0 && strength_ordered(i@),
            forall|hs: Seq<HashModel>|
                #![trigger sri_text(hs)]
                sri_text(hs) == text@ && plain_digests(hs) && hs.len() > 0 ==> r is Some
                    && r->0@ == by_strength(hs),
    {
        let pairs = match parse_pairs(text) {
            Some(p) => p,
            None => return None,
        };
        if pairs.len() == 0 {
            proof {
                assert forall|hs: Seq<HashModel>|
                    #![trigger sri_text(hs)]
                    sri_text(hs) == text@ && plain_digests(hs) && hs.len() > 0 implies false by {
                    lemma_by_strength_len(hs);
                    assert(pairs@.map_values(|p: (String, String)| pair_model(p)).len() == 0);
                }
            }
            return None;
        }
        let mut hashes: Vec<Hash> = Vec::new();
        let mut i: usize = 0;
        while i < pairs.len()
            invariant
                i <= pairs@.len(),
                hashes@.len() == i,
                forall|k: int| 0 <= k < pairs@.len() ==> is_algorithm_name(#[trigger] pairs@[k].0@),
                forall|k: int|
                    0 <= k < i ==> named(#[trigger] hashes@[k]@) == pair_model(pairs@[k]),
                forall|k: int|
                    0 <= k < i ==> algorithm_named(pairs@[k].0@) == (#[trigger] hashes@[k]).algorithm,
            decreases pairs@.len() - i,
        {
            let name = pairs[i].0.as_str();
            assert(is_algorithm_name(pairs@[i as int].0@));
            let algorithm = match Algorithm::from_name(name) {
                Some(a) => a,
                None => {
                    return None;
                },
            };
            proof {
                lemma_algorithm_named(algorithm);
            }
            hashes.push(Hash { algorithm, digest: pairs[i].1.clone() });
            i = i + 1;
        }
        let r = Integrity { hashes };
        proof {
            let ps = pairs@.map_values(|p: (String, String)| pair_model(p));
            let m = ps.map_values(|p: (Seq<char>, Seq<char>)| (algorithm_named(p.0), p.1));
            assert forall|k: int| 0 <= k < r@.len() implies r@[k] == m[k] by {
                assert(named(hashes@[k]@) == pair_model(pairs@[k]));
                assert(algorithm_named(pairs@[k].0@) == hashes@[k].algorithm);
            }
            assert(r@ =~= m);
            assert forall|a: int, b: int| 0 <= a < b < r@.len() implies r@[a].0.rank()
                <= r@[b].0.rank() by {
                assert(named(hashes@[a]@) == pair_model(pairs@[a]));
                assert(named(hashes@[b]@) == pair_model(pairs@[b]));
                lemma_name_rank(r@[a].0);
                lemma_name_rank(r@[b].0);
            }
            assert forall|hs: Seq<HashModel>|
                #![trigger sri_text(hs)]
                sri_text(hs) == text@ && plain_digests(hs) && hs.len() > 0 implies r@
                == by_strength(hs) by {
                let bs = by_strength(hs);
                let pm = pairs@.map_values(|p: (String, String)| pair_model(p));
                assert(pm == bs.map_values(|h: HashModel| named(h)));
                assert(r@.len() == bs.len());
                assert forall|k: int| 0 <= k < bs.len() implies r@[k] == bs[k] by {
                    assert(pm[k] == pair_model(pairs@[k]));
                    assert(named(hashes@[k]@) == pair_model(pairs@[k]));
                    assert(named(bs[k]) == pm[k]);
                    lemma_name_injective(r@[k].0, bs[k].0);
                }
                assert(r@ =~= bs);
            }
        }
        Some(r)
    }
}


/// Whether `a` agrees with `b` on `b`'s strongest algorithm: some hash of `a`
/// with that algorithm is also one of `b`'s hashes.
pub open spec fn matches_spec(a: Seq<HashModel>, b: Seq<HashModel>) -> Option<Algorithm> {
    if exists|i: int, j: int|
        0 <= i < a.len() && 0 <= j < b.len() && a[i].0 == b[0].0 && #[trigger] a[i] == #[trigger] b[j] {
        Some(b[0].0)
    } else {
        None
    }
}

impl Integrity {
    /// The text of the token: each hash as `<algo>-<digest>`, separated by spaces.
    pub fn to_string(&self) -> (r: String)
        ensures
            r@ == sri_text(self@),
    {
        let mut out = String::new();
        let mut i: usize = 0;
        proof {
            reveal_strlit(" ");
            reveal_strlit("-");
            assert(self@.take(0) =~= Seq::<HashModel>::empty());
        }
        while i < self.hashes.len()
            invariant
                i <= self@.len(),
                out@ == sri_text(self@.take(i as int)),
            decreases self@.len() - i,
        {
            let h = &self.hashes[i];
            let ghost before = out@;
            if i > 0 {
                out.append(" ");
            }
            out.append(h.algorithm.name());
            out.append("-");
            out.append(h.digest.as_str());
            proof {
                reveal_strlit(" ");
                reveal_strlit("-");
                let t = self@.take(i + 1);
                assert(t.drop_last() =~= self@.take(i as int));
                assert(t.last() == h@);
                if i == 0 {
                    assert(out@ =~= hash_text(h@));
                } else {
                    assert(out@ =~= before + seq![' '] + hash_text(h@));
                }
            }
            i = i + 1;
        }
        assert(self@.take(self@.len() as int) =~= self@);
        out
    }

    /// The strongest algorithm of the token.
    pub fn pick_algorithm(&self) -> (r: Algorithm)
        requires
            self.hashes@.len() > 0,
        ensures
            r == self@[0].0,
    {
        self.hashes[0].algorithm
    }

    /// Compares against `other` on `other`'s strongest algorithm, and gives
    /// that algorithm back where a hash of it is common to both.
    pub fn matches(&self, other: &Integrity) -> (r: Option<Algorithm>)
        requires
            other.hashes@.len() > 0,
        ensures
            r == matches_spec(self@, other@),
    {
        let algo = other.pick_algorithm();
        let mut i: usize = 0;
        while i < self.hashes.len()
            invariant
                i <= self@.len(),
                other@.len() > 0,
                algo == other@[0].0,
                forall|a: int, b: int|
                    0 <= a < i && 0 <= b < other@.len() && self@[a].0 == algo ==> self@[a]
                        != other@[b],
            decreases self@.len() - i,
        {
            let h = &self.hashes[i];
            if h.algorithm == algo {
                let mut j: usize = 0;
                while j < other.hashes.len()
                    invariant
                        i < self@.len(),
                        j <= other@.len(),
                        h@ == self@[i as int],
                        h.algorithm == algo,
                        other@.len() > 0,
                        algo == other@[0].0,
                        forall|b: int| 0 <= b < j ==> self@[i as int] != other@[b],
                    decreases other@.len() - j,
                {
                    let o = &other.hashes[j];
                    if o.algorithm == h.algorithm && o.digest == h.digest {
                        assert(self@[i as int] == other@[j as int]);
                        assert(self@[i as int].0 == other@[0].0);
                        return Some(algo);
                    }
                    j = j + 1;
                }
            }
            i = i + 1;
        }
        None
    }
}

/// Formatting an integrity value and parsing the text gives the value back,
/// for every value that text denotes exactly: parsing yields the hashes of the
/// text in strength order, and a well-formed value is already in that order.
pub proof fn lemma_parse_format_round_trip(i: Integrity)
    requires
        well_formed(i@),
    ensures
        by_strength(i@) == i@,
        plain_digests(i@),
        i@.len() > 0,
{
    lemma_by_strength_identity(i@);
}


impl Integrity {
    /// A copy of the value.
    pub fn duplicate(&self) -> (r: Integrity)
        ensures
            r@ == self@,
    {
        let mut hashes: Vec<Hash> = Vec::new();
        let mut i: usize = 0;
        while i < self.hashes.len()
            invariant
                i <= self@.len(),
                hashes@.map_values(|h: Hash| h@) == self@.subrange(0, i as int),
            decreases self@.len() - i,
        {
            let h = &self.hashes[i];
            let ghost prev = hashes@;
            let d = h.digest.clone();
            hashes.push(Hash { algorithm: h.algorithm, digest: d });
            proof {
                assert(self@[i as int] == h@);
                assert(hashes@ == prev.push(Hash { algorithm: h.algorithm, digest: d }));
                assert(hashes@.map_values(|h: Hash| h@) =~= prev.map_values(|h: Hash| h@).push(h@));
            }
            i = i + 1;
            assert(hashes@.map_values(|h: Hash| h@) =~= self@.subrange(0, i as int));
        }
        assert(self@.subrange(0, self@.len() as int) =~= self@);
        Integrity { hashes }
    }
}

} // verus!
