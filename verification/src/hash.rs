//! Content hashes: SHA-256 in lower-case hex, from which package ids are
//! made, and integrities, the algorithm-tagged hashes that a lockfile
//! records for a rockspec and for its source.

use crate::text::{append_chars, chars_of, string_of};
use vstd::prelude::*;

verus! {

/// The SHA-256 digest of a sequence of bytes.
pub uninterp spec fn sha256_digest(data: Seq<u8>) -> Seq<u8>;

/// `Sha256::digest` of the `sha2` crate: the SHA-256 digest, 32 bytes long.
#[verifier::external_body]
fn sha256(data: &[u8]) -> (r: Vec<u8>)
    ensures
        r@ == sha256_digest(data@),
        r@.len() == 32,
{
    <sha2::Sha256 as sha2::Digest>::digest(data).to_vec()
}

/// The sixteen digits of lower-case hex.
pub open spec fn hex_digits() -> Seq<char> {
    seq!['0', '1', '2', '3', '4', '5', '6', '7', '8', '9', 'a', 'b', 'c', 'd', 'e', 'f']
}

/// The bytes of `data` in hex: two lower-case digits for each byte, the high
/// half first.
pub open spec fn hex_lower(data: Seq<u8>) -> Seq<char>
    decreases data.len(),
{
    if data.len() == 0 {
        Seq::<char>::empty()
    } else {
        hex_lower(data.drop_last()) + seq![
            hex_digits()[data.last() as int / 16],
            hex_digits()[data.last() as int % 16],
        ]
    }
}

/// The hex digit of a number below sixteen.
fn hex_digit(n: u8) -> (r: char)
    requires
        n < 16,
    ensures
        r == hex_digits()[n as int],
{
    match n {
        0 => '0',
        1 => '1',
        2 => '2',
        3 => '3',
        4 => '4',
        5 => '5',
        6 => '6',
        7 => '7',
        8 => '8',
        9 => '9',
        10 => 'a',
        11 => 'b',
        12 => 'c',
        13 => 'd',
        14 => 'e',
        _ => 'f',
    }
}

/// Writes bytes in hex: each byte as two lower-case hex digits.
fn hex_encode(data: &[u8]) -> (r: String)
    ensures
        r@ == hex_lower(data@),
{
    let mut out: Vec<char> = Vec::new();
    let mut i: usize = 0;
    while i < data.len()
        invariant
            i <= data.len(),
            out@ == hex_lower(data@.take(i as int)),
        decreases data.len() - i,
    {
        proof {
            assert(data@.take(i as int + 1).drop_last() =~= data@.take(i as int));
            assert(data@.take(i as int + 1).last() == data@[i as int]);
        }
        out.push(hex_digit(data[i] / 16));
        out.push(hex_digit(data[i] % 16));
        proof {
            assert(out@ =~= hex_lower(data@.take(i as int)) + seq![
                hex_digits()[data@[i as int] as int / 16],
                hex_digits()[data@[i as int] as int % 16],
            ]);
        }
        i = i + 1;
    }
    proof {
        assert(data@.take(data.len() as int) =~= data@);
    }
    crate::text::string_of(&out)
}

/// The SHA-256 digest of the UTF-8 bytes of a text, in lower-case hex.
pub open spec fn sha256_hex(text: Seq<char>) -> Seq<char> {
    hex_lower(sha256_digest(vstd::utf8::encode_utf8(text)))
}

/// Hashes a text: the lower-case hex of the SHA-256 digest of its UTF-8
/// bytes, 64 characters.
pub fn sha256_hex_of(text: &str) -> (r: String)
    ensures
        r@ == sha256_hex(text@),
{
    let digest = sha256(text.as_bytes());
    hex_encode(digest.as_slice())
}

/// One hash of an integrity: the name of the algorithm and the digest in
/// base 64, as they stand on either side of the `-`.
#[derive(Debug, PartialEq, Eq, Hash)]
pub struct IntegrityHash {
    pub algorithm: String,
    pub digest: String,
}

/// An algorithm-tagged content hash, or several of them for one content.
#[derive(Debug, PartialEq, Eq, Hash)]
pub struct Integrity {
    hashes: Vec<IntegrityHash>,
}

impl View for IntegrityHash {
    type V = (Seq<char>, Seq<char>);

    open spec fn view(&self) -> (Seq<char>, Seq<char>) {
        (self.algorithm@, self.digest@)
    }
}

impl View for Integrity {
    type V = Seq<(Seq<char>, Seq<char>)>;

    closed spec fn view(&self) -> Seq<(Seq<char>, Seq<char>)> {
        self.hashes@.map_values(|h: IntegrityHash| h@)
    }
}

/// The hashes that `ssri::Integrity` reads from a text, strongest algorithm
/// first, as pairs of algorithm name and digest; nothing where the text is no
/// integrity.
pub uninterp spec fn integrity_hashes(text: Seq<char>) -> Option<Seq<(Seq<char>, Seq<char>)>>;

/// The integrity that `ssri::Integrity::from` computes for a content: its
/// SHA-256 hash.
pub uninterp spec fn integrity_of(data: Seq<u8>) -> Seq<(Seq<char>, Seq<char>)>;

/// The views of a vector of hashes.
pub open spec fn hash_views(hashes: Seq<IntegrityHash>) -> Seq<(Seq<char>, Seq<char>)> {
    hashes.map_values(|h: IntegrityHash| h@)
}

/// Parsing of `ssri::Integrity`: the hashes of a text of white-space
/// separated `algorithm-digest` items, sorted by algorithm.
#[verifier::external_body]
fn parse_integrity(text: &str) -> (r: Option<Vec<IntegrityHash>>)
    ensures
        r is Some == integrity_hashes(text@) is Some,
        r matches Some(hashes) ==> integrity_hashes(text@) == Some(hash_views(hashes@)),
{
    match text.parse::<ssri::Integrity>() {
        Ok(sri) => Some(
            sri.hashes.iter().map(
                |h| IntegrityHash { algorithm: h.algorithm.to_string(), digest: h.digest.clone() },
            ).collect(),
        ),
        Err(_) => None,
    }
}

/// `ssri::Integrity::from`: the SHA-256 integrity of a content.
#[verifier::external_body]
fn compute_integrity(data: &[u8]) -> (r: Vec<IntegrityHash>)
    ensures
        hash_views(r@) == integrity_of(data@),
{
    ssri::Integrity::from(data).hashes.iter().map(
        |h| IntegrityHash { algorithm: h.algorithm.to_string(), digest: h.digest.clone() },
    ).collect()
}

/// Whether two integrities match: they do where one of the hashes of the
/// one, algorithm and digest, is among the hashes of the other.
pub open spec fn integrity_matches(
    a: Seq<(Seq<char>, Seq<char>)>,
    b: Seq<(Seq<char>, Seq<char>)>,
) -> bool {
    exists|i: int, j: int| 0 <= i < a.len() && 0 <= j < b.len() && a[i] == b[j]
}

/// The text of one hash: the algorithm, `-`, the digest.
pub open spec fn hash_text(h: (Seq<char>, Seq<char>)) -> Seq<char> {
    h.0 + seq!['-'] + h.1
}

/// The text of an integrity: its hashes, separated by one space.
pub open spec fn integrity_text(hashes: Seq<(Seq<char>, Seq<char>)>) -> Seq<char>
    decreases hashes.len(),
{
    if hashes.len() == 0 {
        Seq::<char>::empty()
    } else if hashes.len() == 1 {
        hash_text(hashes[0])
    } else {
        integrity_text(hashes.drop_last()) + seq![' '] + hash_text(hashes.last())
    }
}

/// Two integrities that share a hash match.
pub proof fn lemma_shared_hash_matches(
    a: Seq<(Seq<char>, Seq<char>)>,
    b: Seq<(Seq<char>, Seq<char>)>,
    h: (Seq<char>, Seq<char>),
)
    requires
        a.contains(h),
        b.contains(h),
    ensures
        integrity_matches(a, b),
{
    let i = choose|i: int| 0 <= i < a.len() && a[i] == h;
    let j = choose|j: int| 0 <= j < b.len() && b[j] == h;
    assert(0 <= i < a.len() && 0 <= j < b.len() && a[i] == b[j]);
}

/// Matching does not depend on which integrity is asked.
pub proof fn lemma_matches_symmetric(
    a: Seq<(Seq<char>, Seq<char>)>,
    b: Seq<(Seq<char>, Seq<char>)>,
)
    ensures
        integrity_matches(a, b) == integrity_matches(b, a),
{
    if integrity_matches(a, b) {
        let (i, j) = choose|i: int, j: int| 0 <= i < a.len() && 0 <= j < b.len() && a[i] == b[j];
        assert(0 <= j < b.len() && 0 <= i < a.len() && b[j] == a[i]);
    }
    if integrity_matches(b, a) {
        let (i, j) = choose|i: int, j: int| 0 <= i < b.len() && 0 <= j < a.len() && b[i] == a[j];
        assert(0 <= j < a.len() && 0 <= i < b.len() && a[j] == b[i]);
    }
}

/// Matching depends on which hashes an integrity holds, not on their order
/// nor on how often one occurs: an integrity that holds every hash of `a`
/// matches whatever `a` matches.
pub proof fn lemma_matches_grows(
    a: Seq<(Seq<char>, Seq<char>)>,
    wider: Seq<(Seq<char>, Seq<char>)>,
    b: Seq<(Seq<char>, Seq<char>)>,
)
    requires
        forall|h: (Seq<char>, Seq<char>)| a.contains(h) ==> wider.contains(h),
        integrity_matches(a, b),
    ensures
        integrity_matches(wider, b),
{
    let (i, j) = choose|i: int, j: int| 0 <= i < a.len() && 0 <= j < b.len() && a[i] == b[j];
    assert(a.contains(a[i]));
    assert(b.contains(b[j]));
    lemma_shared_hash_matches(wider, b, a[i]);
}

impl Clone for IntegrityHash {
    fn clone(&self) -> (r: Self)
        ensures
            r@ == self@,
    {
        IntegrityHash { algorithm: self.algorithm.clone(), digest: self.digest.clone() }
    }
}

impl IntegrityHash {
    /// Whether two hashes are the same algorithm and digest.
    pub fn same_as(&self, other: &Self) -> (r: bool)
        ensures
            r == (self@ == other@),
    {
        self.algorithm == other.algorithm && self.digest == other.digest
    }
}

impl Clone for Integrity {
    fn clone(&self) -> (r: Self)
        ensures
            r@ == self@,
    {
        let mut hashes: Vec<IntegrityHash> = Vec::new();
        let mut i: usize = 0;
        while i < self.hashes.len()
            invariant
                i <= self.hashes.len(),
                hash_views(hashes@) == hash_views(self.hashes@).take(i as int),
            decreases self.hashes.len() - i,
        {
            let ghost before = hashes@;
            let h = self.hashes[i].clone();
            hashes.push(h);
            proof {
                assert(hashes@ == before.push(h));
                assert(hash_views(before.push(h)) =~= hash_views(before).push(h@));
                assert(hash_views(self.hashes@).take(i as int).push(self.hashes@[i as int]@)
                    =~= hash_views(self.hashes@).take(i as int + 1));
            }
            i = i + 1;
        }
        proof {
            assert(hash_views(self.hashes@).take(self.hashes.len() as int) =~= hash_views(
                self.hashes@,
            ));
        }
        Integrity { hashes }
    }
}

impl Integrity {
    /// The integrity with the given hashes.
    pub fn from_hashes(hashes: Vec<IntegrityHash>) -> (r: Self)
        ensures
            r@ == hash_views(hashes@),
    {
        Integrity { hashes }
    }

    /// Reads an integrity such as `sha256-uU0nuZNNPgilLlLX2n2r+sSE7+N6U4DukIj3rOLvzek=`.
    pub fn parse(text: &str) -> (r: Option<Self>)
        ensures
            match r {
                Some(sri) => integrity_hashes(text@) == Some(sri@),
                None => integrity_hashes(text@) is None,
            },
    {
        match parse_integrity(text) {
            Some(hashes) => Some(Integrity { hashes }),
            None => None,
        }
    }

    /// The SHA-256 integrity of a content.
    pub fn of_bytes(data: &[u8]) -> (r: Self)
        ensures
            r@ == integrity_of(data@),
    {
        Integrity { hashes: compute_integrity(data) }
    }

    /// How many hashes the integrity holds.
    pub fn len(&self) -> (n: usize)
        ensures
            n == self@.len(),
    {
        self.hashes.len()
    }

    /// Whether the two integrities have a hash in common.
    pub fn matches(&self, other: &Self) -> (r: bool)
        ensures
            r == integrity_matches(self@, other@),
    {
        let mut i: usize = 0;
        while i < self.hashes.len()
            invariant
                i <= self.hashes.len(),
                forall|x: int, y: int|
                    0 <= x < i && 0 <= y < other@.len() ==> self@[x] != other@[y],
            decreases self.hashes.len() - i,
        {
            let mut j: usize = 0;
            while j < other.hashes.len()
                invariant
                    i < self.hashes.len(),
                    j <= other.hashes.len(),
                    forall|y: int| 0 <= y < j ==> self@[i as int] != other@[y],
                decreases other.hashes.len() - j,
            {
                if self.hashes[i].same_as(&other.hashes[j]) {
                    proof {
                        assert(self@[i as int] == other@[j as int]);
                    }
                    return true;
                }
                j = j + 1;
            }
            i = i + 1;
        }
        false
    }

    /// The text of the integrity: `algorithm-digest` for each hash, with a
    /// space between them.
    pub fn to_string(&self) -> (r: String)
        ensures
            r@ == integrity_text(self@),
    {
        let mut out: Vec<char> = Vec::new();
        let mut i: usize = 0;
        while i < self.hashes.len()
            invariant
                i <= self.hashes.len(),
                out@ == integrity_text(self@.take(i as int)),
            decreases self.hashes.len() - i,
        {
            proof {
                assert(self@.take(i as int + 1).drop_last() =~= self@.take(i as int));
                assert(self@.take(i as int + 1).last() == self@[i as int]);
            }
            if i > 0 {
                out.push(' ');
            }
            let algorithm = chars_of(self.hashes[i].algorithm.as_str());
            append_chars(&mut out, &algorithm);
            out.push('-');
            let digest = chars_of(self.hashes[i].digest.as_str());
            append_chars(&mut out, &digest);
            proof {
                let h = self@[i as int];
                if i == 0 {
                    assert(out@ =~= hash_text(h));
                } else {
                    assert(out@ =~= integrity_text(self@.take(i as int)) + seq![' '] + hash_text(
                        h,
                    ));
                }
            }
            i = i + 1;
        }
        proof {
            assert(self@.take(self.hashes.len() as int) =~= self@);
        }
        string_of(&out)
    }
}

} // verus!
