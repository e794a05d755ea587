//! The hashing capability shared by outputs, transactions and blocks: a
//! canonical byte encoding, and the SHA-256 digest of that encoding.

use sha2::Digest;
use vstd::prelude::*;

verus! {

/// The length in bytes of every hash.
pub const HASH_LEN: usize = 32;

/// The SHA-256 digest of `bytes`.
pub uninterp spec fn sha256(bytes: Seq<u8>) -> Seq<u8>;

/// The placeholder hash: thirty-two zero bytes. It fills the hash of a block
/// that has not been mined and the predecessor link of the genesis block.
pub open spec fn zero_hash() -> Seq<u8> {
    Seq::new(HASH_LEN as nat, |i: int| 0u8)
}

/// Calls `sha2::Sha256::digest` on `bytes`.
///
/// Trusted: the result is taken to be the SHA-256 digest of the input, which
/// depends on the input bytes alone, and to be thirty-two bytes long, the
/// output size that `sha2` fixes for `Sha256`.
#[verifier::external_body]
pub(crate) fn sha256_digest(bytes: &Vec<u8>) -> (digest: Vec<u8>)
    ensures
        digest@ == sha256(bytes@),
        digest@.len() == HASH_LEN,
{
    sha2::Sha256::digest(bytes).to_vec()
}

/// An entity with a canonical byte encoding and, through it, a hash.
pub trait Hashable {
    /// The canonical encoding: the entity's fields in declaration order,
    /// each in its fixed encoding, concatenated.
    spec fn canonical_bytes(&self) -> Seq<u8>;

    /// Produces the canonical encoding.
    fn bytes(&self) -> (out: Vec<u8>)
        ensures
            out@ == self.canonical_bytes(),
    ;

    /// The SHA-256 digest of the canonical encoding.
    fn hash(&self) -> (digest: Vec<u8>)
        ensures
            digest@ == sha256(self.canonical_bytes()),
            digest@.len() == HASH_LEN,
    {
        let bytes = self.bytes();
        sha256_digest(&bytes)
    }
}

/// Builds the placeholder hash.
pub fn zero_hash_bytes() -> (hash: Vec<u8>)
    ensures
        hash@ == zero_hash(),
{
    let mut hash: Vec<u8> = Vec::new();
    let mut filled: usize = 0;
    while filled < HASH_LEN
        invariant
            filled <= HASH_LEN,
            hash@.len() == filled,
            forall|i: int| 0 <= i < filled ==> hash@[i] == 0u8,
        decreases HASH_LEN - filled,
    {
        hash.push(0u8);
        filled = filled + 1;
    }
    assert(hash@ =~= zero_hash());
    hash
}

/// Whether two byte strings hold the same bytes.
pub fn same_bytes(left: &Vec<u8>, right: &Vec<u8>) -> (same: bool)
    ensures
        same == (left@ == right@),
{
    if left.len() != right.len() {
        return false;
    }
    let mut at: usize = 0;
    while at < left.len()
        invariant
            at <= left@.len(),
            left@.len() == right@.len(),
            forall|i: int| 0 <= i < at ==> left@[i] == right@[i],
        decreases left@.len() - at,
    {
        if left[at] != right[at] {
            return false;
        }
        at = at + 1;
    }
    assert(left@ =~= right@);
    true
}

} // verus!
