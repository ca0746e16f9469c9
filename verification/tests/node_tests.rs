use pow_node::Blockchain;
use pow_node::Node;

fn mine(chain: &Blockchain) -> u64 {
    let last_proof = chain.get_last_block().proof;
    chain
        .try_proof_of_work(last_proof)
        .expect("a solvable puzzle")
}

/// Grows a node's own chain by one block carrying a single transaction.
fn grow(node: &mut Node, sender: &str, receiver: &str, amount: u64) {
    node.blockchain
        .add_transaction(sender.to_string(), receiver.to_string(), amount);
    let nonce = mine(&node.blockchain);
    node.blockchain
        .add_block_checked(nonce)
        .expect("a valid nonce");
}

#[test]
fn fresh_node_wraps_fresh_ledger() {
    let node = Node::new();
    assert_eq!(node.blockchain.chain.len(), 1);
    assert_eq!(node.blockchain.chain[0].previous_hash, "0");
    assert_eq!(node.neighbor_nodes.len(), 0);
}

#[test]
fn neighbor_is_a_snapshot() {
    let mut node1 = Node::new();
    let mut node2 = Node::new();
    node1.add_neighbor(node2.clone());
    assert_eq!(node1.neighbor_nodes.len(), 1);

    // Later growth of the peer is invisible to the registered snapshot.
    grow(&mut node2, "Alice", "Bob", 50);
    assert_eq!(node1.neighbor_nodes[0].blockchain.chain.len(), 1);
    assert_eq!(node2.blockchain.chain.len(), 2);
}

#[test]
fn longest_chain_adoption() {
    let mut node1 = Node::new();
    let mut node2 = Node::new();
    grow(&mut node2, "Alice", "Bob", 50);

    node1.add_neighbor(node2.clone());
    node1.synchronize_chain();
    assert_eq!(node1.blockchain.chain, node2.blockchain.chain);

    // The other direction: the neighbor's chain is not longer, so nothing
    // changes.
    node2.add_neighbor(node1.clone());
    let before = node2.blockchain.chain.clone();
    node2.synchronize_chain();
    assert_eq!(node2.blockchain.chain, before);
}

#[test]
fn pending_transactions_survive_synchronization() {
    let mut node1 = Node::new();
    let mut node2 = Node::new();
    grow(&mut node2, "Alice", "Bob", 50);
    node1.add_neighbor(node2.clone());
    node1.blockchain
        .add_transaction("Carol".to_string(), "Dan".to_string(), 3);
    node1.synchronize_chain();
    assert_eq!(node1.blockchain.chain, node2.blockchain.chain);
    assert_eq!(node1.blockchain.pending_transactions.len(), 1);
    assert_eq!(node1.blockchain.pending_transactions[0].sender, "Carol");
}

#[test]
fn rejection_of_invalid_longer_chain() {
    let mut node1 = Node::new();
    let mut node2 = Node::new();
    grow(&mut node2, "Alice", "Bob", 50);
    grow(&mut node2, "Bob", "Charlie", 25);

    // Tamper with one link of the longer chain.
    node2.blockchain.chain[1].previous_hash = "deadbeef".to_string();
    assert!(!node2.blockchain.is_chain_valid());

    let before = node1.blockchain.chain.clone();
    node1.add_neighbor(node2);
    node1.synchronize_chain();
    assert_eq!(node1.blockchain.chain, before);
}

#[test]
fn last_qualifying_neighbor_wins() {
    let mut short = Node::new();
    grow(&mut short, "a", "b", 1);
    let mut long = Node::new();
    grow(&mut long, "c", "d", 2);
    grow(&mut long, "d", "e", 3);

    // Shorter qualifying neighbor first, longer one second: the longer one
    // still qualifies against the freshly adopted chain and wins.
    let mut node = Node::new();
    node.add_neighbor(short.clone());
    node.add_neighbor(long.clone());
    node.synchronize_chain();
    assert_eq!(node.blockchain.chain, long.blockchain.chain);

    // In the other order the shorter neighbor no longer qualifies.
    let mut node = Node::new();
    node.add_neighbor(long.clone());
    node.add_neighbor(short.clone());
    node.synchronize_chain();
    assert_eq!(node.blockchain.chain, long.blockchain.chain);
}
