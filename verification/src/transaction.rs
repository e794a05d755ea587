//! Outputs and transactions: the value-transfer primitives of the ledger.

use crate::digest_set::DigestSet;
use crate::encoding::{le_bytes, push_le_bytes};
use crate::hashable::{sha256, Hashable};
use vstd::prelude::*;
use vstd::string::StrSliceExecFns;
use vstd::utf8::encode_utf8;

verus! {

/// The recipient of an output: an opaque name with no proof of ownership.
pub type Address = String;

/// An amount of value assigned to a recipient. Its hash identifies it among
/// the spendable outputs, so two outputs with the same recipient and value
/// are one and the same.
#[derive(Clone)]
pub struct Output {
    pub to_addr: Address,
    pub value: u64,
}

impl Hashable for Output {
    /// The recipient's UTF-8 bytes, then the value in eight little-endian
    /// bytes.
    open spec fn canonical_bytes(&self) -> Seq<u8> {
        encode_utf8(self.to_addr@) + le_bytes(self.value as nat, 8)
    }

    fn bytes(&self) -> (out: Vec<u8>) {
        let mut out = self.to_addr.as_str().as_bytes_vec();
        push_le_bytes(&mut out, self.value as u128, 8);
        out
    }
}

/// The hash that identifies `output`.
pub open spec fn output_id(output: Output) -> Seq<u8> {
    sha256(output.canonical_bytes())
}

/// The sum of the values of `outputs`.
pub open spec fn sum_values(outputs: Seq<Output>) -> nat
    decreases outputs.len(),
{
    if outputs.len() == 0 {
        0
    } else {
        sum_values(outputs.drop_last()) + outputs.last().value as nat
    }
}

/// The encodings of `outputs`, one after the other.
pub open spec fn concat_bytes(outputs: Seq<Output>) -> Seq<u8> {
    outputs.flat_map(|output: Output| output.canonical_bytes())
}

/// The identifying hashes of `outputs`, as a set.
pub open spec fn id_set(outputs: Seq<Output>) -> Set<Seq<u8>> {
    Set::new(|id: Seq<u8>| exists|i: int| 0 <= i < outputs.len() && output_id(outputs[i]) == id)
}

/// Adds up the values of `outputs`. The sum of any vector of 64-bit values
/// fits in 128 bits, so this never overflows.
pub fn sum_of_values(outputs: &Vec<Output>) -> (total: u128)
    ensures
        total == sum_values(outputs@),
        total < u128::MAX,
{
    let mut total: u128 = 0;
    let mut at: usize = 0;
    while at < outputs.len()
        invariant
            at <= outputs@.len(),
            total == sum_values(outputs@.take(at as int)),
            total <= at * u64::MAX,
        decreases outputs@.len() - at,
    {
        proof {
            let next = outputs@.take(at + 1);
            assert(next.drop_last() =~= outputs@.take(at as int));
            assert(next.last() == outputs@[at as int]);
        }
        total = total + outputs[at].value as u128;
        at = at + 1;
    }
    assert(outputs@.take(at as int) =~= outputs@);
    assert(total < u128::MAX) by (nonlinear_arith)
        requires
            total <= at * u64::MAX,
            at <= u64::MAX,
    ;
    total
}

/// Collects the identifying hashes of `outputs` into a set.
pub fn hashes_of(outputs: &Vec<Output>) -> (hashes: DigestSet)
    ensures
        hashes@ == id_set(outputs@),
{
    let mut hashes = DigestSet::new();
    let mut at: usize = 0;
    assert(hashes@ =~= id_set(outputs@.take(0)));
    while at < outputs.len()
        invariant
            at <= outputs@.len(),
            hashes@ == id_set(outputs@.take(at as int)),
        decreases outputs@.len() - at,
    {
        let ghost held = hashes@;
        let hash = outputs[at].hash();
        hashes.insert(hash);
        proof {
            let done = outputs@.take(at as int);
            let next = outputs@.take(at + 1);
            assert(next[at as int] == outputs@[at as int]);
            assert forall|id: Seq<u8>| held.insert(hash@).contains(id) implies id_set(
                next,
            ).contains(id) by {
                if id != hash@ {
                    let i = choose|i: int| 0 <= i < done.len() && output_id(done[i]) == id;
                    assert(output_id(next[i]) == id);
                } else {
                    assert(output_id(next[at as int]) == id);
                }
            }
            assert forall|id: Seq<u8>| id_set(next).contains(id) implies held.insert(
                hash@,
            ).contains(id) by {
                let i = choose|i: int| 0 <= i < next.len() && output_id(next[i]) == id;
                if i < at {
                    assert(output_id(done[i]) == id);
                }
            }
            assert(hashes@ =~= id_set(next));
        }
        at = at + 1;
    }
    assert(outputs@.take(at as int) =~= outputs@);
    hashes
}

/// A transfer of value: the outputs it consumes and the outputs it creates.
/// A transaction that consumes nothing is a coinbase transaction.
pub struct Transaction {
    pub inputs: Vec<Output>,
    pub outputs: Vec<Output>,
}

impl Hashable for Transaction {
    /// The encodings of the inputs, then those of the outputs.
    open spec fn canonical_bytes(&self) -> Seq<u8> {
        concat_bytes(self.inputs@) + concat_bytes(self.outputs@)
    }

    fn bytes(&self) -> (out: Vec<u8>) {
        let mut out: Vec<u8> = Vec::new();
        push_outputs(&mut out, &self.inputs);
        push_outputs(&mut out, &self.outputs);
        out
    }
}

/// Appends the encoding of each of `outputs`, in order, to `out`.
fn push_outputs(out: &mut Vec<u8>, outputs: &Vec<Output>)
    ensures
        final(out)@ == old(out)@ + concat_bytes(outputs@),
{
    let mut at: usize = 0;
    assert(outputs@.take(0) =~= Seq::<Output>::empty());
    assert(out@ =~= old(out)@ + concat_bytes(outputs@.take(0)));
    while at < outputs.len()
        invariant
            at <= outputs@.len(),
            out@ == old(out)@ + concat_bytes(outputs@.take(at as int)),
        decreases outputs@.len() - at,
    {
        let mut piece = outputs[at].bytes();
        out.append(&mut piece);
        proof {
            let encode = |output: Output| output.canonical_bytes();
            outputs@.lemma_flat_map_take_append(encode, at as int);
            assert(out@ =~= old(out)@ + concat_bytes(outputs@.take(at + 1)));
        }
        at = at + 1;
    }
    assert(outputs@.take(at as int) =~= outputs@);
}

impl Transaction {
    /// The total value that the transaction consumes.
    pub open spec fn spec_total_input(&self) -> nat {
        sum_values(self.inputs@)
    }

    /// The total value that the transaction creates.
    pub open spec fn spec_total_output(&self) -> nat {
        sum_values(self.outputs@)
    }

    /// Whether the transaction consumes nothing.
    pub open spec fn spec_is_coinbase(&self) -> bool {
        self.inputs@.len() == 0
    }

    /// The hashes of the outputs that the transaction consumes.
    pub open spec fn spec_input_hashes(&self) -> Set<Seq<u8>> {
        id_set(self.inputs@)
    }

    /// The hashes of the outputs that the transaction creates.
    pub open spec fn spec_output_hashes(&self) -> Set<Seq<u8>> {
        id_set(self.outputs@)
    }

    /// The value by which the inputs exceed the outputs; zero where they do
    /// not.
    pub open spec fn spec_fee(&self) -> nat {
        if self.spec_total_output() <= self.spec_total_input() {
            (self.spec_total_input() - self.spec_total_output()) as nat
        } else {
            0
        }
    }

    /// The total input value. The total must fit in 64 bits.
    pub fn total_input(&self) -> (total: u64)
        requires
            self.spec_total_input() <= u64::MAX,
        ensures
            total == self.spec_total_input(),
    {
        sum_of_values(&self.inputs) as u64
    }

    /// The total output value. The total must fit in 64 bits.
    pub fn total_output(&self) -> (total: u64)
        requires
            self.spec_total_output() <= u64::MAX,
        ensures
            total == self.spec_total_output(),
    {
        sum_of_values(&self.outputs) as u64
    }

    /// The hashes that identify the consumed outputs.
    pub fn input_hashes(&self) -> (hashes: DigestSet)
        ensures
            hashes@ == self.spec_input_hashes(),
    {
        hashes_of(&self.inputs)
    }

    /// The hashes that identify the created outputs.
    pub fn output_hashes(&self) -> (hashes: DigestSet)
        ensures
            hashes@ == self.spec_output_hashes(),
    {
        hashes_of(&self.outputs)
    }

    /// Whether this is a coinbase transaction: one without inputs.
    pub fn is_coinbase(&self) -> (coinbase: bool)
        ensures
            coinbase == self.spec_is_coinbase(),
    {
        self.inputs.len() == 0
    }
}

} // verus!
