//! Blocks: containers of transactions that are sealed by a proof-of-work
//! search over their nonce.

use crate::encoding::{
    difficulty_bytes_as_u128, hash_value, le_bytes, push_le_bytes, DIFFICULTY_PREFIX_LEN,
};
use crate::hashable::{sha256, zero_hash, zero_hash_bytes, Hashable, HASH_LEN};
use crate::text::{decimal_chars, hex_chars, hex_encode, push_decimal};
use crate::transaction::Transaction;
use vstd::prelude::*;
use vstd::string::StringExecFns;

verus! {

/// A hash: thirty-two bytes where it was computed by this library.
pub type BlockHash = Vec<u8>;

/// A block of the chain. A new block carries the placeholder hash and nonce
/// zero; mining fills in both.
pub struct Block {
    pub index: u32,
    pub timestamp: u128,
    pub hash: BlockHash,
    pub prev_block_hash: BlockHash,
    pub nonce: u64,
    pub transactions: Vec<Transaction>,
    pub difficulty: u128,
}

/// The encodings of `transactions`, one after the other.
pub open spec fn concat_transactions(transactions: Seq<Transaction>) -> Seq<u8> {
    transactions.flat_map(|transaction: Transaction| transaction.canonical_bytes())
}

/// The proof-of-work test: the numeric reading of `hash` lies strictly below
/// `difficulty`. A larger target is easier to meet.
pub open spec fn meets_difficulty(hash: Seq<u8>, difficulty: u128) -> bool {
    hash_value(hash) < difficulty
}

/// Tests `hash` against the target `difficulty`. The hash must hold at least
/// the sixteen bytes that make up its numeric reading.
pub fn check_difficulty(hash: &BlockHash, difficulty: u128) -> (ok: bool)
    requires
        hash@.len() >= DIFFICULTY_PREFIX_LEN,
    ensures
        ok == meets_difficulty(hash@, difficulty),
{
    difficulty > difficulty_bytes_as_u128(hash)
}

impl Hashable for Block {
    /// Index, timestamp, predecessor hash, nonce, then every transaction.
    /// The block's own hash is not part of its encoding.
    open spec fn canonical_bytes(&self) -> Seq<u8> {
        le_bytes(self.index as nat, 4) + le_bytes(self.timestamp as nat, 16)
            + self.prev_block_hash@ + le_bytes(self.nonce as nat, 8) + concat_transactions(
            self.transactions@,
        )
    }

    fn bytes(&self) -> (out: Vec<u8>) {
        let mut out: Vec<u8> = Vec::new();
        push_le_bytes(&mut out, self.index as u128, 4);
        push_le_bytes(&mut out, self.timestamp, 16);
        let ghost head = out@;
        out.extend_from_slice(self.prev_block_hash.as_slice());
        assert(out@ =~= head + self.prev_block_hash@);
        push_le_bytes(&mut out, self.nonce as u128, 8);
        let ghost fixed = out@;
        let mut at: usize = 0;
        assert(self.transactions@.take(0) =~= Seq::<Transaction>::empty());
        assert(out@ =~= fixed + concat_transactions(self.transactions@.take(0)));
        while at < self.transactions.len()
            invariant
                at <= self.transactions@.len(),
                out@ == fixed + concat_transactions(self.transactions@.take(at as int)),
            decreases self.transactions@.len() - at,
        {
            let mut piece = self.transactions[at].bytes();
            out.append(&mut piece);
            proof {
                let encode = |transaction: Transaction| transaction.canonical_bytes();
                self.transactions@.lemma_flat_map_take_append(encode, at as int);
                assert(out@ =~= fixed + concat_transactions(self.transactions@.take(at + 1)));
            }
            at = at + 1;
        }
        assert(self.transactions@.take(at as int) =~= self.transactions@);
        out
    }
}

impl Block {
    /// This block with its nonce replaced by `nonce`.
    pub open spec fn with_nonce(self, nonce: u64) -> Block {
        Block { nonce, ..self }
    }

    /// The digest of the block's canonical encoding.
    pub open spec fn digest(&self) -> Seq<u8> {
        sha256(self.canonical_bytes())
    }

    /// Whether the block's digest meets the block's own target.
    pub open spec fn proves_work(&self) -> bool {
        meets_difficulty(self.digest(), self.difficulty)
    }

    /// Whether the block's digest would meet its target under `nonce`.
    pub open spec fn nonce_wins(self, nonce: u64) -> bool {
        self.with_nonce(nonce).proves_work()
    }

    /// Whether no nonce below `bound` makes the block meet its target.
    pub open spec fn no_win_below(self, bound: u64) -> bool {
        forall|nonce: u64| nonce < bound ==> !#[trigger] self.nonce_wins(nonce)
    }

    /// Whether the block is sealed: its stored hash is the digest of its
    /// encoding, and that digest meets its target.
    pub open spec fn is_mined(&self) -> bool {
        self.hash@ == self.digest() && self.proves_work()
    }

    /// The block's one-line description: index, stored hash in hexadecimal,
    /// timestamp, number of transactions, nonce and predecessor hash in
    /// hexadecimal, closed by a line break.
    pub open spec fn description(&self) -> Seq<char> {
        "Block["@ + decimal_chars(self.index as nat) + "]: Hash"@ + hex_chars(self.hash@)
            + " at "@ + decimal_chars(self.timestamp as nat) + " with "@ + decimal_chars(
            self.transactions@.len(),
        ) + " and nonce "@ + decimal_chars(self.nonce as nat) + " Prev hash was "@ + hex_chars(
            self.prev_block_hash@,
        ) + "\n"@
    }

    /// Renders the block's one-line description.
    pub fn describe(&self) -> (text: String)
        ensures
            text@ == self.description(),
    {
        let mut text = String::new();
        text.append("Block[");
        assert(text@ =~= "Block["@);
        push_decimal(&mut text, self.index as u128);
        text.append("]: Hash");
        text.append(hex_encode(&self.hash).as_str());
        text.append(" at ");
        push_decimal(&mut text, self.timestamp);
        text.append(" with ");
        push_decimal(&mut text, self.transactions.len() as u128);
        text.append(" and nonce ");
        push_decimal(&mut text, self.nonce as u128);
        text.append(" Prev hash was ");
        text.append(hex_encode(&self.prev_block_hash).as_str());
        text.append("\n");
        text
    }

    /// An unmined block: placeholder hash, nonce zero.
    pub fn new(
        index: u32,
        timestamp: u128,
        prev_block_hash: BlockHash,
        transactions: Vec<Transaction>,
        difficulty: u128,
    ) -> (block: Self)
        ensures
            block.index == index,
            block.timestamp == timestamp,
            block.hash@ == zero_hash(),
            block.prev_block_hash == prev_block_hash,
            block.nonce == 0,
            block.transactions == transactions,
            block.difficulty == difficulty,
    {
        Block {
            index,
            timestamp,
            hash: zero_hash_bytes(),
            prev_block_hash,
            nonce: 0,
            transactions,
            difficulty,
        }
    }

    /// Searches the nonces `0, 1, 2, ...` below `bound` in order for the
    /// first under which the block's digest meets its target. On success the
    /// block keeps that nonce and stores the digest as its hash. When no
    /// nonce below `bound` wins, the hash is left as it was, the nonce is the
    /// last one tried (or untouched, if `bound` is zero), and the result is
    /// `false`.
    pub fn mine_below(&mut self, bound: u64) -> (found: bool)
        ensures
            *final(self) == (Block {
                nonce: final(self).nonce,
                hash: final(self).hash,
                ..*old(self)
            }),
            found ==> {
                &&& final(self).nonce < bound
                &&& old(self).no_win_below(final(self).nonce)
                &&& final(self).is_mined()
                &&& final(self).hash@.len() == HASH_LEN
            },
            !found ==> {
                &&& old(self).no_win_below(bound)
                &&& final(self).hash == old(self).hash
                &&& final(self).nonce == if bound == 0 {
                    old(self).nonce
                } else {
                    (bound - 1) as u64
                }
            },
    {
        let mut attempt: u64 = 0;
        while attempt < bound
            invariant
                attempt <= bound,
                *self == (Block { nonce: self.nonce, ..*old(self) }),
                old(self).no_win_below(attempt),
                self.nonce == if attempt == 0 {
                    old(self).nonce
                } else {
                    (attempt - 1) as u64
                },
            decreases bound - attempt,
        {
            self.nonce = attempt;
            let hash = self.hash();
            assert(*self == old(self).with_nonce(attempt));
            if check_difficulty(&hash, self.difficulty) {
                self.hash = hash;
                assert(self.canonical_bytes() == old(self).with_nonce(attempt).canonical_bytes());
                return true;
            }
            attempt = attempt + 1;
        }
        false
    }

    /// Searches the whole range of nonces below `u64::MAX`, from zero
    /// upwards, for the first under which the block's digest meets its
    /// target. On success the block keeps that nonce and stores the digest
    /// as its hash. When the range is exhausted the block is left unsealed:
    /// the hash is as it was, the nonce is the last one tried, and the
    /// result is `false`.
    pub fn mine(&mut self) -> (found: bool)
        ensures
            *final(self) == (Block {
                nonce: final(self).nonce,
                hash: final(self).hash,
                ..*old(self)
            }),
            found ==> {
                &&& final(self).nonce < u64::MAX
                &&& old(self).no_win_below(final(self).nonce)
                &&& final(self).is_mined()
                &&& final(self).hash@.len() == HASH_LEN
            },
            !found ==> {
                &&& old(self).no_win_below(u64::MAX)
                &&& final(self).hash == old(self).hash
                &&& final(self).nonce == u64::MAX - 1
            },
    {
        self.mine_below(u64::MAX)
    }
}

/// Mining is deterministic: two blocks with the same index, timestamp,
/// predecessor hash, encoded transactions and target have the same first
/// winning nonce, whatever their nonces and stored hashes are.
pub proof fn lemma_first_winning_nonce_unique(left: Block, right: Block, won: u64, other: u64)
    requires
        left.index == right.index,
        left.timestamp == right.timestamp,
        left.prev_block_hash@ == right.prev_block_hash@,
        concat_transactions(left.transactions@) == concat_transactions(right.transactions@),
        left.difficulty == right.difficulty,
        left.no_win_below(won),
        left.nonce_wins(won),
        right.no_win_below(other),
        right.nonce_wins(other),
    ensures
        won == other,
{
    assert forall|nonce: u64| left.nonce_wins(nonce) == right.nonce_wins(nonce) by {
        assert(left.with_nonce(nonce).canonical_bytes() == right.with_nonce(
            nonce,
        ).canonical_bytes());
    }
    if won < other {
        assert(!right.nonce_wins(won));
    }
    if other < won {
        assert(!left.nonce_wins(other));
    }
}

} // verus!
