use blockchainlib::transaction::{hashes_of, sum_of_values};
use blockchainlib::{DigestSet, Hashable, Output, Transaction};

fn output_to(addr: &str, value: u64) -> Output {
    Output { to_addr: addr.to_owned(), value }
}

fn unhex(text: &str) -> Vec<u8> {
    hex::decode(text).unwrap()
}

#[test]
fn output_bytes_are_address_then_value() {
    let output: Output = output_to("Alice", 50);
    let mut expected: Vec<u8> = b"Alice".to_vec();
    expected.extend_from_slice(&[50, 0, 0, 0, 0, 0, 0, 0]);
    assert_eq!(output.bytes(), expected);
    assert_eq!(hex::encode(output.bytes()), "416c6963653200000000000000");
}

#[test]
fn output_bytes_use_the_utf8_encoding_of_the_address() {
    let output: Output = output_to("Zoë", 1);
    assert_eq!(output.bytes(), vec![b'Z', b'o', 0xc3, 0xab, 1, 0, 0, 0, 0, 0, 0, 0]);
    let nameless: Output = output_to("", u64::MAX);
    assert_eq!(nameless.bytes(), vec![0xffu8; 8]);
}

#[test]
fn output_hash_is_the_sha256_of_its_bytes() {
    assert_eq!(
        output_to("Alice", 50).hash(),
        unhex("0c10a99e5b15a601164d9cd2b8fc88ad6d43d2f98fd4c549b991178113516a25")
    );
    assert_eq!(
        output_to("Bob", 30).hash(),
        unhex("c52166a94f35d506502da8360e08de2a57516d86bc93c9f7e828c1ef6a080ca6")
    );
    assert_eq!(output_to("Alice", 50).hash().len(), 32);
}

#[test]
fn hash_of_nothing_is_the_sha256_of_the_empty_string() {
    let empty: Transaction = Transaction { inputs: vec![], outputs: vec![] };
    assert_eq!(empty.bytes(), Vec::<u8>::new());
    assert_eq!(
        empty.hash(),
        unhex("e3b0c44298fc1c149afbf4c8996fb92427ae41e4649b934ca495991b7852b855")
    );
}

#[test]
fn equal_outputs_hash_alike_and_different_outputs_do_not() {
    assert_eq!(output_to("Alice", 50).hash(), output_to("Alice", 50).hash());
    assert_ne!(output_to("Alice", 50).hash(), output_to("Alice", 51).hash());
    assert_ne!(output_to("Alice", 50).hash(), output_to("Alicf", 50).hash());
}

#[test]
fn transaction_bytes_are_inputs_then_outputs() {
    let transaction: Transaction = Transaction {
        inputs: vec![output_to("Alice", 50)],
        outputs: vec![output_to("Bob", 30), output_to("Chris", 15)],
    };
    let mut expected: Vec<u8> = output_to("Alice", 50).bytes();
    expected.extend(output_to("Bob", 30).bytes());
    expected.extend(output_to("Chris", 15).bytes());
    assert_eq!(transaction.bytes(), expected);
    let swapped: Transaction = Transaction {
        inputs: vec![output_to("Bob", 30), output_to("Chris", 15)],
        outputs: vec![output_to("Alice", 50)],
    };
    assert_ne!(transaction.bytes(), swapped.bytes());
}

#[test]
fn totals_add_up_the_values() {
    let transaction: Transaction = Transaction {
        inputs: vec![output_to("Alice", 50), output_to("Bob", 7)],
        outputs: vec![output_to("Bob", 30), output_to("Chris", 15), output_to("Dan", 1)],
    };
    assert_eq!(transaction.total_input(), 57);
    assert_eq!(transaction.total_output(), 46);
    let empty: Transaction = Transaction { inputs: vec![], outputs: vec![] };
    assert_eq!(empty.total_input(), 0);
    assert_eq!(empty.total_output(), 0);
}

#[test]
fn totals_reach_the_largest_value() {
    let transaction: Transaction = Transaction {
        inputs: vec![output_to("a", u64::MAX - 1), output_to("b", 1)],
        outputs: vec![output_to("a", u64::MAX)],
    };
    assert_eq!(transaction.total_input(), u64::MAX);
    assert_eq!(transaction.total_output(), u64::MAX);
}

#[test]
fn wide_sum_does_not_overflow() {
    let outputs: Vec<Output> =
        vec![output_to("a", u64::MAX), output_to("b", u64::MAX), output_to("c", 2)];
    assert_eq!(sum_of_values(&outputs), 2 * (u64::MAX as u128) + 2);
    assert_eq!(sum_of_values(&Vec::new()), 0);
}

#[test]
fn coinbase_means_no_inputs() {
    let coinbase: Transaction = Transaction { inputs: vec![], outputs: vec![output_to("Miner", 5)] };
    let transfer: Transaction = Transaction { inputs: vec![output_to("Alice", 50)], outputs: vec![] };
    assert!(coinbase.is_coinbase());
    assert!(!transfer.is_coinbase());
}

#[test]
fn hash_sets_hold_the_hash_of_each_output() {
    let transaction: Transaction = Transaction {
        inputs: vec![output_to("Alice", 50)],
        outputs: vec![output_to("Bob", 30), output_to("Chris", 15)],
    };
    let inputs: DigestSet = transaction.input_hashes();
    let outputs: DigestSet = transaction.output_hashes();
    assert_eq!(inputs.len(), 1);
    assert!(inputs.contains(&output_to("Alice", 50).hash()));
    assert_eq!(outputs.len(), 2);
    assert!(outputs.contains(&output_to("Bob", 30).hash()));
    assert!(outputs.contains(&output_to("Chris", 15).hash()));
    assert!(!outputs.contains(&output_to("Alice", 50).hash()));
    assert!(!outputs.contains(&output_to("Bob", 30).bytes()));
}

#[test]
fn identical_outputs_collapse_to_one_hash() {
    let transaction: Transaction = Transaction {
        inputs: vec![output_to("Alice", 50), output_to("Alice", 50)],
        outputs: vec![],
    };
    assert_eq!(transaction.input_hashes().len(), 1);
    assert_eq!(transaction.total_input(), 100);
    assert!(transaction.output_hashes().is_empty());
    assert_eq!(hashes_of(&vec![output_to("x", 1), output_to("y", 1), output_to("x", 1)]).len(), 2);
}
