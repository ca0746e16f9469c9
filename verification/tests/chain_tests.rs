use pow_node::Block;
use pow_node::Blockchain;
use pow_node::Transaction;
use pow_node::GENESIS_PROOF;
use sha2::Digest;
use sha2::Sha256;

/// The reference hash: SHA-256 of the given bytes, rendered as lowercase
/// hexadecimal, computed directly with the sha2 crate.
fn reference_sha256_hex(data: &[u8]) -> String {
    let mut hasher = Sha256::new();
    hasher.update(data);
    format!("{:x}", hasher.finalize())
}

/// The reference answer to the puzzle check: hash the decimal concatenation
/// of the two numbers and ask for four leading zeros.
fn reference_valid_proof(last_proof: u64, nonce: u64) -> bool {
    let guess = format!("{}{}", last_proof, nonce);
    reference_sha256_hex(guess.as_bytes()).starts_with("0000")
}

fn mine(chain: &Blockchain) -> u64 {
    let last_proof = chain.get_last_block().proof;
    chain
        .try_proof_of_work(last_proof)
        .expect("a solvable puzzle")
}

#[test]
fn genesis_invariant() {
    let ledger = Blockchain::new();
    assert_eq!(ledger.chain.len(), 1);
    assert_eq!(ledger.chain[0].index, 0);
    assert_eq!(ledger.chain[0].previous_hash, "0");
    assert_eq!(ledger.chain[0].transactions.len(), 0);
    assert_eq!(ledger.chain[0].proof, GENESIS_PROOF);
    assert_eq!(ledger.pending_transactions.len(), 0);
}

#[test]
fn chain_valid_after_growth() {
    let mut ledger = Blockchain::new();
    assert!(ledger.is_chain_valid());

    ledger.add_transaction("Alice".to_string(), "Bob".to_string(), 50);
    let nonce = mine(&ledger);
    ledger.add_block_checked(nonce).expect("a valid nonce");
    assert!(ledger.is_chain_valid());

    let nonce = mine(&ledger);
    ledger.add_block_checked(nonce).expect("a valid nonce");
    assert!(ledger.is_chain_valid());
    assert_eq!(ledger.chain.len(), 3);
}

#[test]
fn valid_proof_matches_reference() {
    let ledger = Blockchain::new();
    for last_proof in [0u64, 1, 100, 12345] {
        for nonce in [0u64, 1, 2, 3, 42, 9999, u64::MAX] {
            assert_eq!(
                ledger.valid_proof(last_proof, nonce),
                reference_valid_proof(last_proof, nonce),
                "disagreement at ({}, {})",
                last_proof,
                nonce
            );
        }
    }
    let mined = mine(&ledger);
    assert!(ledger.valid_proof(GENESIS_PROOF, mined));
    assert!(reference_valid_proof(GENESIS_PROOF, mined));
}

#[test]
fn proof_of_work_minimality() {
    let ledger = Blockchain::new();
    let mined = ledger
        .try_proof_of_work(GENESIS_PROOF)
        .expect("a solvable puzzle");
    assert!(ledger.valid_proof(GENESIS_PROOF, mined));
    for smaller in 0..mined {
        assert!(!ledger.valid_proof(GENESIS_PROOF, smaller));
    }
    assert_eq!(ledger.proof_of_work(GENESIS_PROOF), mined);
}

#[test]
fn transaction_batching() {
    let mut ledger = Blockchain::new();
    ledger.add_transaction("a".to_string(), "b".to_string(), 1);
    ledger.add_transaction("b".to_string(), "c".to_string(), 2);
    ledger.add_transaction("c".to_string(), "a".to_string(), u64::MAX);
    assert_eq!(ledger.pending_transactions.len(), 3);

    let nonce = mine(&ledger);
    let block = ledger.add_block_checked(nonce).expect("a valid nonce");
    let expected = vec![
        Transaction { sender: "a".to_string(), receiver: "b".to_string(), amount: 1 },
        Transaction { sender: "b".to_string(), receiver: "c".to_string(), amount: 2 },
        Transaction { sender: "c".to_string(), receiver: "a".to_string(), amount: u64::MAX },
    ];
    assert_eq!(block.transactions, expected);
    assert_eq!(ledger.pending_transactions.len(), 0);
    assert_eq!(ledger.chain.len(), 2);
    assert_eq!(ledger.chain[1], block);
}

#[test]
fn add_block_checked_rejects_bad_nonce() {
    let mut ledger = Blockchain::new();
    let nonce = mine(&ledger);
    let bad = nonce.wrapping_add(1);
    if !ledger.valid_proof(GENESIS_PROOF, bad) {
        assert!(ledger.add_block_checked(bad).is_none());
        assert_eq!(ledger.chain.len(), 1);
        assert_eq!(ledger.pending_transactions.len(), 0);
    }
    assert!(ledger.add_block_checked(nonce).is_some());
    assert_eq!(ledger.chain.len(), 2);
}

#[test]
fn hash_block_canonical_encoding() {
    let ledger = Blockchain::new();
    let block = Block {
        index: 0,
        timestamp: 123,
        transactions: vec![Transaction {
            sender: "ab".to_string(),
            receiver: "cd".to_string(),
            amount: 7,
        }],
        proof: 100,
        previous_hash: "0".to_string(),
    };
    let expected = reference_sha256_hex(b"0|123|1|2:ab,2:cd,7;|100|1:0");
    assert_eq!(ledger.hash_block(&block), expected);

    // A multi-byte sender name is length-prefixed by its UTF-8 byte count.
    let block = Block {
        index: 2,
        timestamp: 98765432109876543210987,
        transactions: vec![Transaction {
            sender: "\u{c5}lice".to_string(),
            receiver: "".to_string(),
            amount: 0,
        }],
        proof: 4321,
        previous_hash: "00ab".to_string(),
    };
    let expected = reference_sha256_hex(
        "2|98765432109876543210987|1|6:\u{c5}lice,0:,0;|4321|4:00ab".as_bytes(),
    );
    assert_eq!(ledger.hash_block(&block), expected);
}

#[test]
fn is_chain_valid_spots_tampering() {
    let mut ledger = Blockchain::new();
    ledger.add_transaction("Alice".to_string(), "Bob".to_string(), 50);
    let nonce = mine(&ledger);
    ledger.add_block_checked(nonce).expect("a valid nonce");
    assert!(ledger.is_chain_valid());

    let mut linked = Blockchain {
        chain: ledger.chain.clone(),
        pending_transactions: Vec::new(),
    };
    linked.chain[1].previous_hash = "deadbeef".to_string();
    assert!(!linked.is_chain_valid());
}

#[test]
fn concrete_scenario() {
    let mut ledger = Blockchain::new();
    ledger.add_transaction("Alice".to_string(), "Bob".to_string(), 50);
    ledger.add_transaction("Bob".to_string(), "Charlie".to_string(), 25);
    let proof = ledger.proof_of_work(ledger.get_last_block().proof);
    let block = ledger.add_block(proof);
    assert_eq!(block.index, 1);
    assert_eq!(
        block.transactions,
        vec![
            Transaction {
                sender: "Alice".to_string(),
                receiver: "Bob".to_string(),
                amount: 50,
            },
            Transaction {
                sender: "Bob".to_string(),
                receiver: "Charlie".to_string(),
                amount: 25,
            },
        ]
    );
    assert!(ledger.valid_proof(ledger.chain[0].proof, block.proof));
    assert!(ledger.is_chain_valid());
}
