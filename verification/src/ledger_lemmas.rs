//! What follows from the ledger's rules: properties of acceptable blocks and
//! of chains built from them, stated over the same functions as the
//! contract of `BlockChain::update_with_block`.

use crate::block::Block;
use crate::blockchain::{
    accepted_chain, fault, fees_of, first_transfer_fault, header_fault, lemma_fault_persists,
    spent_by, transactions_fault, transfer_fault, unspent_after, BlockValidationErr,
};
use crate::hashable::zero_hash;
use crate::transaction::Transaction;
use vstd::prelude::*;

verus! {

/// A block whose index is not the length of the chain is refused for that
/// reason, whatever else it holds.
pub proof fn lemma_wrong_index_refused(chain: Seq<Block>, unspent: Set<Seq<u8>>, block: Block)
    requires
        block.index != chain.len(),
    ensures
        fault(chain, unspent, block) == Some(BlockValidationErr::MismatchedIndex),
{
}

/// The empty ledger accepts a block at index zero that proves its work and
/// points at the placeholder hash, provided its transactions break no rule
/// against an empty set of unspent outputs.
pub proof fn lemma_genesis_accepted(block: Block)
    requires
        block.index == 0,
        block.proves_work(),
        block.prev_block_hash@ == zero_hash(),
        transactions_fault(block.transactions@, Set::<Seq<u8>>::empty()) is None,
    ensures
        fault(Seq::<Block>::empty(), Set::<Seq<u8>>::empty(), block) is None,
{
}

/// The empty ledger refuses a block at index zero that proves its work but
/// points anywhere other than at the placeholder hash.
pub proof fn lemma_genesis_link_required(unspent: Set<Seq<u8>>, block: Block)
    requires
        block.index == 0,
        block.proves_work(),
        block.prev_block_hash@ != zero_hash(),
    ensures
        fault(Seq::<Block>::empty(), unspent, block) == Some(
            BlockValidationErr::InvalidGenesisBlockFormat,
        ),
{
}

/// In an accepted chain every block sits at its index and proves its work;
/// the first block points at the placeholder hash; every later block points
/// at the stored hash of the block before it and is strictly younger.
pub proof fn lemma_chain_linked(chain: Seq<Block>, i: int)
    requires
        accepted_chain(chain),
        0 <= i < chain.len(),
    ensures
        chain[i].index == i,
        chain[i].proves_work(),
        i == 0 ==> chain[i].prev_block_hash@ == zero_hash(),
        i > 0 ==> chain[i].prev_block_hash@ == chain[i - 1].hash@,
        i > 0 ==> chain[i].timestamp > chain[i - 1].timestamp,
{
    assert(fault(chain.take(i), unspent_after(chain.take(i)), chain[i]) is None);
    assert(header_fault(chain.take(i), chain[i]) is None);
    if i > 0 {
        assert(chain.take(i).last() == chain[i - 1]);
    }
}

/// If the transactions at positions `1` to `upto` break no rule, then none
/// of them does on its own.
pub proof fn lemma_no_fault_each(
    transactions: Seq<Transaction>,
    unspent: Set<Seq<u8>>,
    upto: nat,
    at: nat,
)
    requires
        first_transfer_fault(transactions, unspent, upto) is None,
        1 <= at <= upto,
    ensures
        transfer_fault(transactions, unspent, at) is None,
    decreases upto,
{
    if at < upto {
        lemma_no_fault_each(transactions, unspent, (upto - 1) as nat, at);
    }
}

/// Conservation of value in one block: no transaction after the first
/// creates more value than it consumes, and the first creates at least the
/// fees that the others leave.
pub open spec fn conserves_value(block: Block) -> bool {
    let transactions = block.transactions@;
    &&& forall|at: int|
        1 <= at < transactions.len() ==> (#[trigger] transactions[at]).spec_total_output()
            <= transactions[at].spec_total_input()
    &&& transactions.len() > 0 ==> transactions[0].spec_total_output() >= fees_of(
        transactions,
        (transactions.len() - 1) as nat,
    )
}

/// Every acceptable block conserves value.
pub proof fn lemma_accepted_block_conserves_value(
    chain: Seq<Block>,
    unspent: Set<Seq<u8>>,
    block: Block,
)
    requires
        fault(chain, unspent, block) is None,
    ensures
        conserves_value(block),
{
    let transactions = block.transactions@;
    assert forall|at: int| 1 <= at < transactions.len() implies (#[trigger] transactions[at])
        .spec_total_output() <= transactions[at].spec_total_input() by {
        lemma_no_fault_each(transactions, unspent, (transactions.len() - 1) as nat, at as nat);
    }
}

/// Every block of an accepted chain conserves value.
pub proof fn lemma_chain_conserves_value(chain: Seq<Block>, i: int)
    requires
        accepted_chain(chain),
        0 <= i < chain.len(),
    ensures
        conserves_value(chain[i]),
{
    lemma_accepted_block_conserves_value(chain.take(i), unspent_after(chain.take(i)), chain[i]);
}

/// A hash counts as consumed by the transactions at positions `1` to `upto`
/// exactly when one of them lists it among its inputs.
pub proof fn lemma_spent_by_members(transactions: Seq<Transaction>, upto: nat, id: Seq<u8>)
    ensures
        spent_by(transactions, upto).contains(id) <==> exists|at: int|
            1 <= at <= upto && (#[trigger] transactions[at]).spec_input_hashes().contains(id),
    decreases upto,
{
    if upto > 0 {
        lemma_spent_by_members(transactions, (upto - 1) as nat, id);
        if spent_by(transactions, upto).contains(id) {
            if transactions[upto as int].spec_input_hashes().contains(id) {
            } else {
                let at = choose|at: int|
                    1 <= at <= upto - 1 && (#[trigger] transactions[at]).spec_input_hashes().contains(
                        id,
                    );
                assert(1 <= at <= upto && transactions[at].spec_input_hashes().contains(id));
            }
        }
    }
}

/// A block is refused with `InvalidInput` when one of its transactions
/// after the first consumes a hash that is not unspent, provided the block
/// breaks no rule before that point.
pub proof fn lemma_unknown_input_refused(
    chain: Seq<Block>,
    unspent: Set<Seq<u8>>,
    block: Block,
    at: int,
    id: Seq<u8>,
)
    requires
        header_fault(chain, block) is None,
        block.transactions@[0].spec_is_coinbase(),
        1 <= at < block.transactions@.len(),
        first_transfer_fault(block.transactions@, unspent, (at - 1) as nat) is None,
        block.transactions@[at].spec_input_hashes().contains(id),
        !unspent.contains(id),
    ensures
        fault(chain, unspent, block) == Some(BlockValidationErr::InvalidInput),
{
    let transactions = block.transactions@;
    assert(transfer_fault(transactions, unspent, at as nat) == Some(
        BlockValidationErr::InvalidInput,
    ));
    lemma_fault_persists(transactions, unspent, at as nat, (transactions.len() - 1) as nat);
}

/// A block is refused with `InvalidInput` when two of its transactions
/// after the first consume the same hash, provided the block breaks no rule
/// before the second of them.
pub proof fn lemma_double_spend_refused(
    chain: Seq<Block>,
    unspent: Set<Seq<u8>>,
    block: Block,
    earlier: int,
    later: int,
    id: Seq<u8>,
)
    requires
        header_fault(chain, block) is None,
        block.transactions@[0].spec_is_coinbase(),
        1 <= earlier < later < block.transactions@.len(),
        first_transfer_fault(block.transactions@, unspent, (later - 1) as nat) is None,
        block.transactions@[earlier].spec_input_hashes().contains(id),
        block.transactions@[later].spec_input_hashes().contains(id),
    ensures
        fault(chain, unspent, block) == Some(BlockValidationErr::InvalidInput),
{
    let transactions = block.transactions@;
    lemma_spent_by_members(transactions, (later - 1) as nat, id);
    assert(spent_by(transactions, (later - 1) as nat).contains(id));
    assert(transfer_fault(transactions, unspent, later as nat) == Some(
        BlockValidationErr::InvalidInput,
    ));
    lemma_fault_persists(transactions, unspent, later as nat, (transactions.len() - 1) as nat);
}

} // verus!
