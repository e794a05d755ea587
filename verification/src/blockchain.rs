//! The ledger: an append-only chain of accepted blocks together with the
//! set of outputs that are still unspent.
//!
//! A block is integrated only if it passes every rule, checked in a fixed
//! order; the first rule that fails names the error, and a refused block
//! leaves the ledger as it was.

use crate::block::{check_difficulty, meets_difficulty, Block};
use crate::digest_set::DigestSet;
use crate::encoding::DIFFICULTY_PREFIX_LEN;
use crate::hashable::{same_bytes, zero_hash, zero_hash_bytes, Hashable};
use crate::transaction::{sum_of_values, Transaction};
use vstd::prelude::*;

verus! {

/// Why a block was refused.
#[derive(Debug, Clone, Copy, PartialEq, Eq, Structural)]
pub enum BlockValidationErr {
    /// The block's index is not the current length of the chain.
    MismatchedIndex,
    /// The block's digest does not meet the block's own target.
    InvalidHash,
    /// The block is not strictly younger than its predecessor.
    AchronologicalTimestamp,
    /// The block does not point at the hash of its predecessor.
    MismatchedPreviousHash,
    /// The first block of the chain does not point at the placeholder hash.
    InvalidGenesisBlockFormat,
    /// A transaction consumes an output that is not unspent, or that an
    /// earlier transaction of the same block has consumed.
    InvalidInput,
    /// A transaction creates more value than it consumes.
    InsufficientInputValue,
    /// The first transaction has inputs, or creates less value than the
    /// fees that the block's other transactions leave.
    InvalidCoinbaseTransaction,
}

/// The rule that `block` breaks as the successor of `chain`, looking only at
/// its index, proof of work, timestamp and link, where `digest` is taken as
/// the digest of the block's encoding; `None` if it breaks none.
pub open spec fn header_fault_with(chain: Seq<Block>, block: Block, digest: Seq<u8>) -> Option<
    BlockValidationErr,
> {
    if block.index != chain.len() {
        Some(BlockValidationErr::MismatchedIndex)
    } else if !meets_difficulty(digest, block.difficulty) {
        Some(BlockValidationErr::InvalidHash)
    } else if chain.len() != 0 {
        if block.timestamp <= chain.last().timestamp {
            Some(BlockValidationErr::AchronologicalTimestamp)
        } else if block.prev_block_hash@ != chain.last().hash@ {
            Some(BlockValidationErr::MismatchedPreviousHash)
        } else {
            None
        }
    } else if block.prev_block_hash@ != zero_hash() {
        Some(BlockValidationErr::InvalidGenesisBlockFormat)
    } else {
        None
    }
}

/// The rule that `block` breaks as the successor of `chain`, looking only at
/// its index, proof of work, timestamp and link; `None` if it breaks none.
pub open spec fn header_fault(chain: Seq<Block>, block: Block) -> Option<BlockValidationErr> {
    header_fault_with(chain, block, block.digest())
}

/// The rule that a transaction breaks which consumes the hashes `inputs`
/// worth `input_value` and creates outputs worth `output_value`, when
/// `unspent` are the unspent outputs and `spent` is what earlier
/// transactions of the same block have consumed.
pub open spec fn transfer_fault_with(
    inputs: Set<Seq<u8>>,
    unspent: Set<Seq<u8>>,
    spent: Set<Seq<u8>>,
    input_value: nat,
    output_value: nat,
) -> Option<BlockValidationErr> {
    if !inputs.subset_of(unspent) || !inputs.disjoint(spent) {
        Some(BlockValidationErr::InvalidInput)
    } else if output_value > input_value {
        Some(BlockValidationErr::InsufficientInputValue)
    } else {
        None
    }
}

/// The hashes consumed by the transactions at positions `1` to `upto`.
/// Position `0` is the coinbase transaction, which consumes nothing.
pub open spec fn spent_by(transactions: Seq<Transaction>, upto: nat) -> Set<Seq<u8>>
    decreases upto,
{
    if upto == 0 {
        Set::empty()
    } else {
        spent_by(transactions, (upto - 1) as nat).union(
            transactions[upto as int].spec_input_hashes(),
        )
    }
}

/// The hashes created by the transactions at positions `1` to `upto`.
pub open spec fn created_by(transactions: Seq<Transaction>, upto: nat) -> Set<Seq<u8>>
    decreases upto,
{
    if upto == 0 {
        Set::empty()
    } else {
        created_by(transactions, (upto - 1) as nat).union(
            transactions[upto as int].spec_output_hashes(),
        )
    }
}

/// The fees left by the transactions at positions `1` to `upto`.
pub open spec fn fees_of(transactions: Seq<Transaction>, upto: nat) -> nat
    decreases upto,
{
    if upto == 0 {
        0
    } else {
        fees_of(transactions, (upto - 1) as nat) + transactions[upto as int].spec_fee()
    }
}

/// The rule that the transaction at position `at >= 1` breaks, given the
/// unspent outputs and what the transactions before it have consumed.
pub open spec fn transfer_fault(
    transactions: Seq<Transaction>,
    unspent: Set<Seq<u8>>,
    at: nat,
) -> Option<BlockValidationErr> {
    let transfer = transactions[at as int];
    transfer_fault_with(
        transfer.spec_input_hashes(),
        unspent,
        spent_by(transactions, (at - 1) as nat),
        transfer.spec_total_input(),
        transfer.spec_total_output(),
    )
}

/// The first rule broken among the transactions at positions `1` to `upto`,
/// taken in order.
pub open spec fn first_transfer_fault(
    transactions: Seq<Transaction>,
    unspent: Set<Seq<u8>>,
    upto: nat,
) -> Option<BlockValidationErr>
    decreases upto,
{
    if upto == 0 {
        None
    } else {
        match first_transfer_fault(transactions, unspent, (upto - 1) as nat) {
            Some(fault) => Some(fault),
            None => transfer_fault(transactions, unspent, upto),
        }
    }
}

/// The first rule that a block's transactions break against `unspent`. A
/// block without transactions breaks none.
pub open spec fn transactions_fault(
    transactions: Seq<Transaction>,
    unspent: Set<Seq<u8>>,
) -> Option<BlockValidationErr> {
    if transactions.len() == 0 {
        None
    } else if !transactions[0].spec_is_coinbase() {
        Some(BlockValidationErr::InvalidCoinbaseTransaction)
    } else {
        let last = (transactions.len() - 1) as nat;
        match first_transfer_fault(transactions, unspent, last) {
            Some(fault) => Some(fault),
            None => if transactions[0].spec_total_output() < fees_of(transactions, last) {
                Some(BlockValidationErr::InvalidCoinbaseTransaction)
            } else {
                None
            },
        }
    }
}

/// The first rule that `block` breaks as the successor of `chain` with
/// `unspent` outputs; `None` exactly when the block is acceptable.
pub open spec fn fault(chain: Seq<Block>, unspent: Set<Seq<u8>>, block: Block) -> Option<
    BlockValidationErr,
> {
    match header_fault(chain, block) {
        Some(fault) => Some(fault),
        None => transactions_fault(block.transactions@, unspent),
    }
}

/// Every hash that `block` consumes.
pub open spec fn block_spent(block: Block) -> Set<Seq<u8>> {
    if block.transactions@.len() == 0 {
        Set::empty()
    } else {
        spent_by(block.transactions@, (block.transactions@.len() - 1) as nat)
    }
}

/// Every hash that `block` creates, the coinbase outputs included.
pub open spec fn block_created(block: Block) -> Set<Seq<u8>> {
    if block.transactions@.len() == 0 {
        Set::empty()
    } else {
        created_by(block.transactions@, (block.transactions@.len() - 1) as nat).union(
            block.transactions@[0].spec_output_hashes(),
        )
    }
}

/// The unspent outputs after `block` is integrated: what it consumes leaves
/// first, then what it creates is added.
pub open spec fn apply_block(unspent: Set<Seq<u8>>, block: Block) -> Set<Seq<u8>> {
    unspent.difference(block_spent(block)).union(block_created(block))
}

/// The unspent outputs that result from integrating `chain` block by block,
/// starting with none.
pub open spec fn unspent_after(chain: Seq<Block>) -> Set<Seq<u8>>
    decreases chain.len(),
{
    if chain.len() == 0 {
        Set::empty()
    } else {
        apply_block(unspent_after(chain.drop_last()), chain.last())
    }
}

/// Whether every block of `chain` was acceptable when it was appended.
pub open spec fn accepted_chain(chain: Seq<Block>) -> bool {
    forall|i: int|
        0 <= i < chain.len() ==> fault(chain.take(i), unspent_after(chain.take(i)), #[trigger] chain[i])
            is None
}

/// Checks the index, proof of work, timestamp and link of `block` as the
/// successor of `chain`, given the digest of the block's encoding. The
/// digest must hold at least the sixteen bytes of its numeric reading.
pub fn check_header(chain: &Vec<Block>, block: &Block, digest: &Vec<u8>) -> (found: Option<
    BlockValidationErr,
>)
    requires
        digest@.len() >= DIFFICULTY_PREFIX_LEN,
    ensures
        found == header_fault_with(chain@, *block, digest@),
{
    let length = chain.len();
    if block.index as usize != length {
        Some(BlockValidationErr::MismatchedIndex)
    } else if !check_difficulty(digest, block.difficulty) {
        Some(BlockValidationErr::InvalidHash)
    } else if length != 0 {
        let previous = &chain[length - 1];
        if block.timestamp <= previous.timestamp {
            Some(BlockValidationErr::AchronologicalTimestamp)
        } else if !same_bytes(&block.prev_block_hash, &previous.hash) {
            Some(BlockValidationErr::MismatchedPreviousHash)
        } else {
            None
        }
    } else {
        let placeholder = zero_hash_bytes();
        if !same_bytes(&block.prev_block_hash, &placeholder) {
            Some(BlockValidationErr::InvalidGenesisBlockFormat)
        } else {
            None
        }
    }
}

/// Checks one transaction after the first, given the hashes it consumes,
/// the unspent outputs, what the block has consumed so far, and the total
/// values it consumes and creates.
pub fn check_transfer(
    inputs: &DigestSet,
    unspent: &DigestSet,
    spent: &DigestSet,
    input_value: u128,
    output_value: u128,
) -> (found: Option<BlockValidationErr>)
    ensures
        found == transfer_fault_with(
            inputs@,
            unspent@,
            spent@,
            input_value as nat,
            output_value as nat,
        ),
{
    if !inputs.is_subset(unspent) || !inputs.is_disjoint(spent) {
        Some(BlockValidationErr::InvalidInput)
    } else if output_value > input_value {
        Some(BlockValidationErr::InsufficientInputValue)
    } else {
        None
    }
}

/// The ledger.
pub struct BlockChain {
    pub blocks: Vec<Block>,
    pub unspent_outputs: DigestSet,
}

impl BlockChain {
    /// The ledger's invariant: every block was acceptable when it was
    /// appended, and the unspent outputs are exactly what the chain leaves.
    pub open spec fn well_formed(&self) -> bool {
        &&& accepted_chain(self.blocks@)
        &&& self.unspent_outputs@ == unspent_after(self.blocks@)
    }

    /// The empty ledger.
    pub fn new() -> (chain: Self)
        ensures
            chain.blocks@.len() == 0,
            chain.unspent_outputs@ == Set::<Seq<u8>>::empty(),
            chain.well_formed(),
    {
        BlockChain { blocks: Vec::new(), unspent_outputs: DigestSet::new() }
    }

    /// Validates `block` against the ledger and, if it breaks no rule,
    /// appends it and updates the unspent outputs. Otherwise the first
    /// broken rule is returned and the ledger is unchanged.
    pub fn update_with_block(&mut self, block: Block) -> (result: Result<(), BlockValidationErr>)
        ensures
            match fault(old(self).blocks@, old(self).unspent_outputs@, block) {
                Some(fault) => result == Err::<(), BlockValidationErr>(fault) && *final(self)
                    == *old(self),
                None => {
                    &&& result is Ok
                    &&& final(self).blocks@ == old(self).blocks@.push(block)
                    &&& final(self).unspent_outputs@ == apply_block(
                        old(self).unspent_outputs@,
                        block,
                    )
                },
            },
            old(self).well_formed() ==> final(self).well_formed(),
    {
        let digest = block.hash();
        if let Some(broken) = check_header(&self.blocks, &block, &digest) {
            return Err(broken);
        }

        let count = block.transactions.len();
        if count > 0 {
            let ghost transactions = block.transactions@;
            let ghost unspent = self.unspent_outputs@;
            if !block.transactions[0].is_coinbase() {
                return Err(BlockValidationErr::InvalidCoinbaseTransaction);
            }
            let mut spent = DigestSet::new();
            let mut created = DigestSet::new();
            let mut total_fee: u128 = 0;
            let mut at: usize = 1;
            while at < count
                invariant
                    1 <= at <= count,
                    count == transactions.len(),
                    transactions == block.transactions@,
                    *self == *old(self),
                    unspent == self.unspent_outputs@,
                    header_fault(self.blocks@, block) is None,
                    transactions[0].spec_is_coinbase(),
                    first_transfer_fault(transactions, unspent, (at - 1) as nat) is None,
                    spent@ == spent_by(transactions, (at - 1) as nat),
                    created@ == created_by(transactions, (at - 1) as nat),
                    total_fee as nat == if fees_of(transactions, (at - 1) as nat) <= u128::MAX {
                        fees_of(transactions, (at - 1) as nat)
                    } else {
                        u128::MAX as nat
                    },
                decreases count - at,
            {
                let transfer = &block.transactions[at];
                let inputs = transfer.input_hashes();
                let input_value = sum_of_values(&transfer.inputs);
                let output_value = sum_of_values(&transfer.outputs);
                if let Some(broken) = check_transfer(
                    &inputs,
                    &self.unspent_outputs,
                    &spent,
                    input_value,
                    output_value,
                ) {
                    proof {
                        lemma_fault_persists(transactions, unspent, at as nat, (count - 1) as nat);
                    }
                    return Err(broken);
                }
                total_fee = total_fee.saturating_add(input_value - output_value);
                spent.extend(inputs);
                created.extend(transfer.output_hashes());
                at = at + 1;
            }
            let minted = sum_of_values(&block.transactions[0].outputs);
            if minted < total_fee {
                return Err(BlockValidationErr::InvalidCoinbaseTransaction);
            }
            created.extend(block.transactions[0].output_hashes());
            self.unspent_outputs.subtract(&spent);
            self.unspent_outputs.extend(created);
        }
        proof {
            lemma_append_accepted(old(self).blocks@, block);
            assert(apply_block(old(self).unspent_outputs@, block) =~= self.unspent_outputs@);
        }
        self.blocks.push(block);
        Ok(())
    }
}

/// Once a transaction has broken a rule, looking at further transactions
/// does not change which rule is reported.
pub proof fn lemma_fault_persists(
    transactions: Seq<Transaction>,
    unspent: Set<Seq<u8>>,
    at: nat,
    upto: nat,
)
    requires
        at <= upto,
        first_transfer_fault(transactions, unspent, at) is Some,
    ensures
        first_transfer_fault(transactions, unspent, upto) == first_transfer_fault(
            transactions,
            unspent,
            at,
        ),
    decreases upto,
{
    if at < upto {
        lemma_fault_persists(transactions, unspent, at, (upto - 1) as nat);
    }
}

/// Appending an acceptable block to an accepted chain gives an accepted
/// chain, and the unspent outputs follow by applying the block.
pub proof fn lemma_append_accepted(chain: Seq<Block>, block: Block)
    ensures
        unspent_after(chain.push(block)) == apply_block(unspent_after(chain), block),
        accepted_chain(chain) && fault(chain, unspent_after(chain), block) is None
            ==> accepted_chain(chain.push(block)),
{
    let longer = chain.push(block);
    assert(longer.drop_last() =~= chain);
    if accepted_chain(chain) && fault(chain, unspent_after(chain), block) is None {
        assert forall|i: int| 0 <= i < longer.len() implies fault(
            longer.take(i),
            unspent_after(longer.take(i)),
            #[trigger] longer[i],
        ) is None by {
            if i < chain.len() {
                assert(longer.take(i) =~= chain.take(i));
                assert(longer[i] == chain[i]);
            } else {
                assert(longer.take(i) =~= chain);
            }
        }
    }
}

} // verus!
