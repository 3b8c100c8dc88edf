//! The digest engine: SHA-256 and BLAKE2b-512 over a whole buffer, written as
//! lowercase hex.

use vstd::prelude::*;

verus! {

/// A digest algorithm.
#[derive(Clone, Copy, Debug, PartialEq, Eq, Structural)]
pub enum DigestAlgorithm {
    /// SHA-256.
    SHA256,
    /// BLAKE2b with an output of 512 bits.
    BLAKE2B,
}

/// The SHA-256 digest of `data`: what `sha2::Sha256::digest` returns.
pub uninterp spec fn sha256_digest(data: Seq<u8>) -> Seq<u8>;

/// The BLAKE2b-512 digest of `data`: what `blake2::Blake2b512::digest`
/// returns.
pub uninterp spec fn blake2b_digest(data: Seq<u8>) -> Seq<u8>;

/// The lowercase hex digit for `nibble`, which is below sixteen.
pub open spec fn hex_digit(nibble: int) -> char {
    if nibble < 10 {
        (nibble + '0' as int) as char
    } else {
        (nibble - 10 + 'a' as int) as char
    }
}

/// `bytes` in lowercase hex: two digits for each byte, the high half first.
pub open spec fn hex_text(bytes: Seq<u8>) -> Seq<char> {
    Seq::new(
        2 * bytes.len(),
        |i: int|
            if i % 2 == 0 {
                hex_digit(bytes[i / 2] as int / 16)
            } else {
                hex_digit(bytes[i / 2] as int % 16)
            },
    )
}

/// Calls `sha2::Sha256::digest` on the whole of `data` and names the 32 bytes
/// that it returns.
#[verifier::external_body]
fn sha256(data: &[u8]) -> (out: [u8; 32])
    ensures
        out@ == sha256_digest(data@),
{
    <sha2::Sha256 as sha2::Digest>::digest(data).into()
}

/// Calls `blake2::Blake2b512::digest` on the whole of `data` and names the 64
/// bytes that it returns.
#[verifier::external_body]
fn blake2b(data: &[u8]) -> (out: [u8; 64])
    ensures
        out@ == blake2b_digest(data@),
{
    <blake2::Blake2b512 as blake2::Digest>::digest(data).into()
}

/// Calls `hex::encode`, which writes each byte as two lowercase hex digits.
#[verifier::external_body]
fn hex_encode(bytes: &[u8]) -> (text: String)
    ensures
        text@ == hex_text(bytes@),
{
    hex::encode(bytes)
}

/// The two digests of one buffer.
#[derive(Clone, Copy, Debug)]
pub struct Checksums {
    sha256: [u8; 32],
    blake2b: [u8; 64],
}

/// What a [`Checksums`] holds.
pub struct ChecksumsView {
    pub sha256: Seq<u8>,
    pub blake2b: Seq<u8>,
}

impl View for Checksums {
    type V = ChecksumsView;

    closed spec fn view(&self) -> ChecksumsView {
        ChecksumsView { sha256: self.sha256@, blake2b: self.blake2b@ }
    }
}

impl ChecksumsView {
    /// The digests of `data`.
    pub open spec fn of(data: Seq<u8>) -> ChecksumsView {
        ChecksumsView { sha256: sha256_digest(data), blake2b: blake2b_digest(data) }
    }

    /// The checksum map with both digests in hex.
    pub open spec fn checksum_map(self) -> Map<DigestAlgorithm, Seq<char>> {
        map![
            DigestAlgorithm::SHA256 => hex_text(self.sha256),
            DigestAlgorithm::BLAKE2B => hex_text(self.blake2b),
        ]
    }
}

/// The digests of a location, by algorithm, in lowercase hex. Either may be
/// absent.
#[derive(Debug)]
pub struct ChecksumMap {
    sha256: Option<String>,
    blake2b: Option<String>,
}

impl View for ChecksumMap {
    type V = Map<DigestAlgorithm, Seq<char>>;

    closed spec fn view(&self) -> Map<DigestAlgorithm, Seq<char>> {
        let with_sha = match self.sha256 {
            Some(digest) => Map::empty().insert(DigestAlgorithm::SHA256, digest@),
            None => Map::empty(),
        };
        match self.blake2b {
            Some(digest) => with_sha.insert(DigestAlgorithm::BLAKE2B, digest@),
            None => with_sha,
        }
    }
}

/// A checksum map is complete when it has both digests.
pub open spec fn is_complete(checksums: Map<DigestAlgorithm, Seq<char>>) -> bool {
    checksums.contains_key(DigestAlgorithm::SHA256) && checksums.contains_key(
        DigestAlgorithm::BLAKE2B,
    )
}

impl Clone for ChecksumMap {
    fn clone(&self) -> (copy: Self)
        ensures
            copy@ == self@,
    {
        let sha256 = match &self.sha256 {
            Some(digest) => Some(digest.clone()),
            None => None,
        };
        let blake2b = match &self.blake2b {
            Some(digest) => Some(digest.clone()),
            None => None,
        };
        ChecksumMap { sha256, blake2b }
    }
}

impl ChecksumMap {
    /// The map without digests.
    pub fn new() -> (map: ChecksumMap)
        ensures
            map@ == Map::<DigestAlgorithm, Seq<char>>::empty(),
    {
        ChecksumMap { sha256: None, blake2b: None }
    }

    /// Sets the digest of `algorithm`, replacing an earlier one.
    pub fn insert(&mut self, algorithm: DigestAlgorithm, digest: String)
        ensures
            final(self)@ == old(self)@.insert(algorithm, digest@),
    {
        match algorithm {
            DigestAlgorithm::SHA256 => {
                self.sha256 = Some(digest);
            },
            DigestAlgorithm::BLAKE2B => {
                self.blake2b = Some(digest);
            },
        }
    }

    /// The digest of `algorithm`, if the map has one.
    pub fn get(&self, algorithm: DigestAlgorithm) -> (digest: Option<&String>)
        ensures
            digest is Some <==> self@.contains_key(algorithm),
            digest matches Some(d) ==> d@ == self@[algorithm],
    {
        match algorithm {
            DigestAlgorithm::SHA256 => self.sha256.as_ref(),
            DigestAlgorithm::BLAKE2B => self.blake2b.as_ref(),
        }
    }

    /// Whether the map has a digest of `algorithm`.
    pub fn contains_key(&self, algorithm: DigestAlgorithm) -> (found: bool)
        ensures
            found == self@.contains_key(algorithm),
    {
        match algorithm {
            DigestAlgorithm::SHA256 => self.sha256.is_some(),
            DigestAlgorithm::BLAKE2B => self.blake2b.is_some(),
        }
    }

    /// The number of digests in the map.
    pub fn len(&self) -> (n: usize)
        ensures
            n == self@.len(),
            self@.dom().finite(),
    {
        let a: usize = if self.sha256.is_some() { 1 } else { 0 };
        let b: usize = if self.blake2b.is_some() { 1 } else { 0 };
        proof {
            self.lemma_domain();
        }
        a + b
    }

    /// Whether both digests are there.
    pub fn is_complete(&self) -> (complete: bool)
        ensures
            complete == is_complete(self@),
    {
        self.sha256.is_some() && self.blake2b.is_some()
    }

    proof fn lemma_domain(self)
        ensures
            self@.dom().finite(),
            self@.len() == (if self.sha256 is Some { 1nat } else { 0 }) + (if self.blake2b is Some {
                1nat
            } else {
                0
            }),
    {
        match (self.sha256, self.blake2b) {
            (Some(_), Some(_)) => {
                assert(self@.dom() =~= set![DigestAlgorithm::SHA256, DigestAlgorithm::BLAKE2B]);
            },
            (Some(_), None) => {
                assert(self@.dom() =~= set![DigestAlgorithm::SHA256]);
            },
            (None, Some(_)) => {
                assert(self@.dom() =~= set![DigestAlgorithm::BLAKE2B]);
            },
            (None, None) => {
                assert(self@.dom() =~= Set::<DigestAlgorithm>::empty());
            },
        }
    }
}

impl Checksums {
    /// Hashes the whole of `data` with both algorithms.
    pub fn compute(data: &[u8]) -> (checksums: Checksums)
        ensures
            checksums@ == ChecksumsView::of(data@),
    {
        Checksums { sha256: sha256(data), blake2b: blake2b(data) }
    }

    /// The SHA-256 digest.
    pub fn sha256(&self) -> (digest: [u8; 32])
        ensures
            digest@ == self@.sha256,
    {
        self.sha256
    }

    /// The BLAKE2b-512 digest.
    pub fn blake2b(&self) -> (digest: [u8; 64])
        ensures
            digest@ == self@.blake2b,
    {
        self.blake2b
    }

    /// The SHA-256 digest in lowercase hex: 64 digits for its 32 bytes.
    pub fn sha256_hex(&self) -> (text: String)
        ensures
            text@ == hex_text(self@.sha256),
            text@.len() == 64,
    {
        broadcast use vstd::array::group_array_axioms;

        hex_encode(self.sha256.as_slice())
    }

    /// The BLAKE2b-512 digest in lowercase hex: 128 digits for its 64 bytes.
    pub fn blake2b_hex(&self) -> (text: String)
        ensures
            text@ == hex_text(self@.blake2b),
            text@.len() == 128,
    {
        broadcast use vstd::array::group_array_axioms;

        hex_encode(self.blake2b.as_slice())
    }

    /// The complete checksum map: both digests in lowercase hex.
    pub fn to_checksum_map(&self) -> (map: ChecksumMap)
        ensures
            map@ == self@.checksum_map(),
            is_complete(map@),
    {
        let map = ChecksumMap {
            sha256: Some(self.sha256_hex()),
            blake2b: Some(self.blake2b_hex()),
        };
        map
    }
}

/// Hashing the same bytes twice gives the same digests and the same hex
/// texts.
pub proof fn lemma_digest_deterministic(first: Seq<u8>, second: Seq<u8>)
    requires
        first == second,
    ensures
        ChecksumsView::of(first) == ChecksumsView::of(second),
        ChecksumsView::of(first).checksum_map() == ChecksumsView::of(second).checksum_map(),
{
}

} // verus!
