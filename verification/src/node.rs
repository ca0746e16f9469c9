//! A node wraps one chain engine and a list of neighbor snapshots, and
//! adopts a neighbor's chain under a longest-valid-chain rule.
//!
//! A neighbor entry is a value copy taken at registration time, not a live
//! reference: it never reflects the neighbor's later state unless it is
//! registered again.

use vstd::prelude::*;

use crate::chain::Blockchain;
use crate::chain::BlockchainModel;
use crate::chain::BlockModel;
use crate::chain::chain_valid;
use crate::chain::clone_blocks;
use crate::chain::is_genesis;

verus! {

/// A node: its own chain engine and the snapshots of its registered
/// neighbors.
pub struct Node {
    pub blockchain: Blockchain,
    pub neighbor_nodes: Vec<Node>,
}

/// The mathematical value of a [`Node`]: its own ledger and the ledgers of
/// its neighbor snapshots, in registration order. A neighbor's own neighbor
/// list never takes part in synchronization, so it has no place in the
/// model.
#[verifier::ext_equal]
pub struct NodeModel {
    pub blockchain: BlockchainModel,
    pub neighbors: Seq<BlockchainModel>,
}

impl View for Node {
    type V = NodeModel;

    open spec fn view(&self) -> NodeModel {
        NodeModel {
            blockchain: self.blockchain@,
            neighbors: Seq::new(
                self.neighbor_nodes@.len(),
                |i: int| self.neighbor_nodes@[i].blockchain@,
            ),
        }
    }
}

impl Clone for Node {
    fn clone(&self) -> (r: Self)
        ensures
            r@ == self@,
        decreases *self,
    {
        let mut neighbor_nodes: Vec<Node> = Vec::new();
        let mut i: usize = 0;
        while i < self.neighbor_nodes.len()
            invariant
                i <= self.neighbor_nodes@.len(),
                neighbor_nodes@.len() == i,
                forall|j: int| 0 <= j < i ==> #[trigger] neighbor_nodes@[j]@
                    == self.neighbor_nodes@[j]@,
            decreases self.neighbor_nodes@.len() - i,
        {
            proof {
                assert(decreases_to!(*self => self.neighbor_nodes));
                assert(decreases_to!(self.neighbor_nodes => self.neighbor_nodes[i as int]));
            }
            let copied = self.neighbor_nodes[i].clone();
            neighbor_nodes.push(copied);
            i = i + 1;
        }
        let r = Node { blockchain: self.blockchain.clone(), neighbor_nodes };
        proof {
            assert forall|j: int| 0 <= j < r@.neighbors.len() implies r@.neighbors[j]
                == self@.neighbors[j] by {
                assert(r.neighbor_nodes@[j]@ == self.neighbor_nodes@[j]@);
            }
            assert(r@.neighbors =~= self@.neighbors);
            assert(r@ =~= self@);
        }
        r
    }
}

/// One synchronization step: the neighbor's chain is adopted exactly when it
/// is strictly longer than the current one and every one of its links is
/// sound.
pub open spec fn sync_step(chain: Seq<BlockModel>, neighbor: BlockchainModel) -> Seq<BlockModel> {
    if neighbor.chain.len() > chain.len() && chain_valid(neighbor.chain) {
        neighbor.chain
    } else {
        chain
    }
}

/// The chain that synchronization leaves behind: the neighbors are processed
/// in registration order, each compared against the chain as the earlier
/// neighbors left it, so the last qualifying neighbor wins.
pub open spec fn sync_fold(chain: Seq<BlockModel>, neighbors: Seq<BlockchainModel>) -> Seq<
    BlockModel,
>
    decreases neighbors.len(),
{
    if neighbors.len() == 0 {
        chain
    } else {
        sync_fold(sync_step(chain, neighbors[0]), neighbors.drop_first())
    }
}

/// Synchronization never damages a valid chain: whatever the neighbors hold,
/// the chain left behind is valid if the original one was.
pub proof fn lemma_sync_fold_preserves_validity(
    chain: Seq<BlockModel>,
    neighbors: Seq<BlockchainModel>,
)
    requires
        chain_valid(chain),
    ensures
        chain_valid(sync_fold(chain, neighbors)),
    decreases neighbors.len(),
{
    if neighbors.len() > 0 {
        lemma_sync_fold_preserves_validity(sync_step(chain, neighbors[0]), neighbors.drop_first());
    }
}

/// Longest-chain adoption, for a single registered neighbor: the neighbor's
/// chain replaces the node's exactly when it is strictly longer and valid;
/// otherwise the node's chain is left unchanged. In particular a longer but
/// invalid chain — one with a tampered link — is rejected.
pub proof fn lemma_longest_chain_adoption(chain: Seq<BlockModel>, neighbor: BlockchainModel)
    ensures
        neighbor.chain.len() > chain.len() && chain_valid(neighbor.chain) ==> sync_fold(
            chain,
            seq![neighbor],
        ) == neighbor.chain,
        !(neighbor.chain.len() > chain.len() && chain_valid(neighbor.chain)) ==> sync_fold(
            chain,
            seq![neighbor],
        ) == chain,
{
    let ns = seq![neighbor];
    assert(ns.len() == 1);
    assert(ns[0] == neighbor);
    assert(ns.drop_first() =~= Seq::<BlockchainModel>::empty());
    assert(sync_fold(chain, ns) == sync_fold(sync_step(chain, ns[0]), ns.drop_first()));
    assert(sync_fold(sync_step(chain, neighbor), Seq::<BlockchainModel>::empty()) == sync_step(
        chain,
        neighbor,
    ));
}

/// Synchronization either leaves the chain alone or adopts, wholesale, the
/// chain of one registered neighbor that is strictly longer than the
/// original chain and valid. Nothing else can come out of it: in particular
/// no invalid chain is ever adopted.
pub proof fn lemma_sync_adopts_only_valid(chain: Seq<BlockModel>, neighbors: Seq<BlockchainModel>)
    ensures
        sync_fold(chain, neighbors) == chain || exists|i: int|
            0 <= i < neighbors.len() && sync_fold(chain, neighbors) == (
            #[trigger] neighbors[i]).chain && chain_valid(neighbors[i].chain)
                && neighbors[i].chain.len() > chain.len(),
    decreases neighbors.len(),
{
    if neighbors.len() > 0 {
        let stepped = sync_step(chain, neighbors[0]);
        let tail = neighbors.drop_first();
        lemma_sync_adopts_only_valid(stepped, tail);
        if sync_fold(stepped, tail) == stepped {
            if stepped != chain {
                assert(stepped == neighbors[0].chain);
                assert(sync_fold(chain, neighbors) == neighbors[0].chain && chain_valid(
                    neighbors[0].chain,
                ) && neighbors[0].chain.len() > chain.len());
            }
        } else {
            let j = choose|j: int|
                0 <= j < tail.len() && sync_fold(stepped, tail) == (#[trigger] tail[j]).chain
                    && chain_valid(tail[j].chain) && tail[j].chain.len() > stepped.len();
            assert(neighbors[j + 1] == tail[j]);
            assert(stepped.len() >= chain.len());
            assert(sync_fold(chain, neighbors) == (neighbors[j + 1]).chain && chain_valid(
                neighbors[j + 1].chain,
            ) && neighbors[j + 1].chain.len() > chain.len());
        }
    }
}

impl Node {
    /// Constructs a node wrapping a freshly constructed ledger, with no
    /// neighbors.
    pub fn new() -> (r: Node)
        ensures
            r@.blockchain.well_formed(),
            r@.blockchain.chain.len() == 1,
            is_genesis(r@.blockchain.chain[0]),
            r@.blockchain.pending_transactions.len() == 0,
            r@.neighbors.len() == 0,
    {
        let node = Node { blockchain: Blockchain::new(), neighbor_nodes: Vec::new() };
        proof {
            assert(node@.neighbors =~= Seq::<BlockchainModel>::empty());
        }
        node
    }

    /// Registers a value copy of a peer's current state. The snapshot is
    /// taken once: later changes to the peer stay invisible here.
    pub fn add_neighbor(&mut self, neighbor: Node)
        ensures
            final(self)@.blockchain == old(self)@.blockchain,
            final(self)@.neighbors == old(self)@.neighbors.push(neighbor@.blockchain),
    {
        self.neighbor_nodes.push(neighbor);
        proof {
            assert(self@.neighbors =~= old(self)@.neighbors.push(
                self.neighbor_nodes@.last().blockchain@,
            ));
        }
    }

    /// Walks the neighbor snapshots in registration order and adopts, each
    /// time, a strictly longer chain that passes the full validity scan.
    /// The pending buffer and the neighbor list are untouched.
    pub fn synchronize_chain(&mut self)
        ensures
            final(self)@.blockchain.chain == sync_fold(
                old(self)@.blockchain.chain,
                old(self)@.neighbors,
            ),
            final(self)@.blockchain.pending_transactions == old(
                self,
            )@.blockchain.pending_transactions,
            final(self)@.neighbors == old(self)@.neighbors,
            chain_valid(old(self)@.blockchain.chain) ==> chain_valid(
                final(self)@.blockchain.chain,
            ),
    {
        let ghost start_chain = self@.blockchain.chain;
        let ghost neighbors = self@.neighbors;
        let ghost pending = self@.blockchain.pending_transactions;
        proof {
            assert(neighbors.skip(0) =~= neighbors);
        }
        let mut i: usize = 0;
        while i < self.neighbor_nodes.len()
            invariant
                i <= self.neighbor_nodes@.len(),
                self@.neighbors == neighbors,
                neighbors.len() == self.neighbor_nodes@.len(),
                self@.blockchain.pending_transactions == pending,
                sync_fold(start_chain, neighbors) == sync_fold(
                    self@.blockchain.chain,
                    neighbors.skip(i as int),
                ),
            decreases self.neighbor_nodes@.len() - i,
        {
            let ghost before = self@.blockchain.chain;
            let longer = self.neighbor_nodes[i].blockchain.chain.len() > self.blockchain.chain.len();
            if longer && self.neighbor_nodes[i].blockchain.is_chain_valid() {
                let adopted = clone_blocks(&self.neighbor_nodes[i].blockchain.chain);
                self.blockchain.chain = adopted;
            }
            proof {
                assert(self@.neighbors =~= neighbors);
                assert(self@.blockchain.pending_transactions =~= pending);
                assert(self@.blockchain.chain == sync_step(before, neighbors[i as int]));
                assert(neighbors.skip(i as int).drop_first() =~= neighbors.skip(i + 1));
                assert(neighbors.skip(i as int)[0] == neighbors[i as int]);
                assert(sync_fold(before, neighbors.skip(i as int)) == sync_fold(
                    self@.blockchain.chain,
                    neighbors.skip(i + 1),
                ));
            }
            i = i + 1;
        }
        proof {
            assert(neighbors.skip(neighbors.len() as int) =~= Seq::<BlockchainModel>::empty());
            if chain_valid(start_chain) {
                lemma_sync_fold_preserves_validity(start_chain, neighbors);
            }
        }
    }
}

} // verus!
