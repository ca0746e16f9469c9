//! The chain engine: transactions, blocks, and the `Blockchain` that owns an
//! ordered sequence of blocks and a pending-transaction buffer, and exposes
//! puzzle solving, block admission and chain-validity checking.
//!
//! Blocks are hashed over a canonical, deterministic byte encoding of all
//! their fields (see [`enc_block`]); the hash is the lowercase hexadecimal
//! rendering of the SHA-256 digest of that encoding. A proof-of-work nonce is
//! valid when the digest of the decimal concatenation of the previous nonce
//! and the candidate starts with four `'0'` hexadecimal characters.

use vstd::prelude::*;

use crate::clock::now;
use crate::codec::dec_digits;
use crate::codec::enc_str;
use crate::codec::hex_of_bytes;
use crate::codec::push_decimal_u128;
use crate::codec::push_decimal_u64;
use crate::codec::push_str_encoding;
use crate::codec::to_hex_string;
use crate::digest::sha256_digest;
use crate::digest::sha256_of;

verus! {

/// The puzzle solution recorded in the genesis block.
pub const GENESIS_PROOF: u64 = 100;

/// A transfer record. No validation is performed on construction: amounts,
/// senders and receivers are unchecked by design.
#[derive(Debug, PartialEq, Eq)]
pub struct Transaction {
    pub sender: String,
    pub receiver: String,
    pub amount: u64,
}

/// The mathematical value of a [`Transaction`].
#[verifier::ext_equal]
pub struct TransactionModel {
    pub sender: Seq<char>,
    pub receiver: Seq<char>,
    pub amount: u64,
}

impl View for Transaction {
    type V = TransactionModel;

    open spec fn view(&self) -> TransactionModel {
        TransactionModel { sender: self.sender@, receiver: self.receiver@, amount: self.amount }
    }
}

impl Clone for Transaction {
    fn clone(&self) -> (r: Self)
        ensures
            r == *self,
    {
        Transaction {
            sender: self.sender.clone(),
            receiver: self.receiver.clone(),
            amount: self.amount,
        }
    }
}

/// An immutable record of a batch of transactions, a puzzle solution, and a
/// link to the hash of its predecessor.
#[derive(Debug, PartialEq, Eq)]
pub struct Block {
    pub index: u64,
    pub timestamp: u128,
    pub transactions: Vec<Transaction>,
    pub proof: u64,
    pub previous_hash: String,
}

/// The mathematical value of a [`Block`].
#[verifier::ext_equal]
pub struct BlockModel {
    pub index: u64,
    pub timestamp: u128,
    pub transactions: Seq<TransactionModel>,
    pub proof: u64,
    pub previous_hash: Seq<char>,
}

/// The mathematical values of a sequence of transactions.
pub open spec fn tx_models(txs: Seq<Transaction>) -> Seq<TransactionModel> {
    Seq::new(txs.len(), |i: int| txs[i]@)
}

impl View for Block {
    type V = BlockModel;

    open spec fn view(&self) -> BlockModel {
        BlockModel {
            index: self.index,
            timestamp: self.timestamp,
            transactions: tx_models(self.transactions@),
            proof: self.proof,
            previous_hash: self.previous_hash@,
        }
    }
}

impl Clone for Block {
    fn clone(&self) -> (r: Self)
        ensures
            r@ == self@,
    {
        let r = Block {
            index: self.index,
            timestamp: self.timestamp,
            transactions: self.transactions.clone(),
            proof: self.proof,
            previous_hash: self.previous_hash.clone(),
        };
        proof {
            assert(r@.transactions =~= self@.transactions);
            assert(r@ =~= self@);
        }
        r
    }
}

/// The mathematical values of a sequence of blocks.
pub open spec fn chain_model(blocks: Seq<Block>) -> Seq<BlockModel> {
    Seq::new(blocks.len(), |i: int| blocks[i]@)
}

/// The canonical encoding of one transaction: its two length-prefixed names
/// separated by commas, then the decimal amount, closed by a semicolon.
pub open spec fn enc_tx(t: TransactionModel) -> Seq<u8> {
    enc_str(t.sender) + seq![44u8] + enc_str(t.receiver) + seq![44u8] + dec_digits(
        t.amount as nat,
    ) + seq![59u8]
}

/// The canonical encoding of a sequence of transactions, in order.
pub open spec fn enc_tx_seq(txs: Seq<TransactionModel>) -> Seq<u8>
    decreases txs.len(),
{
    if txs.len() == 0 {
        Seq::empty()
    } else {
        enc_tx(txs[0]) + enc_tx_seq(txs.drop_first())
    }
}

/// The canonical encoding of a block: decimal index, timestamp, transaction
/// count, the encoded transactions, decimal proof, and the length-prefixed
/// previous hash, separated by `'|'` bytes. Field order and rendering are
/// fixed so that any two conforming implementations encode identical field
/// values to identical bytes.
pub open spec fn enc_block(b: BlockModel) -> Seq<u8> {
    dec_digits(b.index as nat) + seq![124u8] + dec_digits(b.timestamp as nat) + seq![124u8]
        + dec_digits(b.transactions.len()) + seq![124u8] + enc_tx_seq(b.transactions)
        + seq![124u8] + dec_digits(b.proof as nat) + seq![124u8] + enc_str(b.previous_hash)
}

/// The hash of a block: the lowercase hexadecimal rendering of the SHA-256
/// digest of its canonical encoding.
pub open spec fn spec_hash_block(b: BlockModel) -> Seq<char> {
    hex_of_bytes(sha256_of(enc_block(b)))
}

/// The puzzle input: the decimal rendering of the previous proof immediately
/// followed by the decimal rendering of the candidate.
pub open spec fn guess_bytes(last_proof: u64, nonce: u64) -> Seq<u8> {
    dec_digits(last_proof as nat) + dec_digits(nonce as nat)
}

/// Whether a hash rendering starts with four `'0'` characters — the fixed
/// difficulty of the protocol.
pub open spec fn four_leading_zeros(s: Seq<char>) -> bool {
    s.len() >= 4 && s[0] == '0' && s[1] == '0' && s[2] == '0' && s[3] == '0'
}

/// Whether `nonce` solves the puzzle posed by `last_proof`: the hex-encoded
/// SHA-256 digest of their decimal concatenation starts with four `'0'`s.
pub open spec fn spec_valid_proof(last_proof: u64, nonce: u64) -> bool {
    four_leading_zeros(hex_of_bytes(sha256_of(guess_bytes(last_proof, nonce))))
}

/// Whether the link from block `i - 1` to block `i` of `chain` is sound:
/// the recorded previous hash is the hash of the predecessor, and the proof
/// solves the puzzle posed by the predecessor's proof.
pub open spec fn link_ok(chain: Seq<BlockModel>, i: int) -> bool {
    chain[i].previous_hash == spec_hash_block(chain[i - 1]) && spec_valid_proof(
        chain[i - 1].proof,
        chain[i].proof,
    )
}

/// Whether every link of the chain is sound.
pub open spec fn chain_valid(chain: Seq<BlockModel>) -> bool {
    forall|i: int| 1 <= i < chain.len() ==> #[trigger] link_ok(chain, i)
}

/// The shape of the genesis block: position zero, no transactions, the fixed
/// proof constant, and the literal previous hash `"0"`.
pub open spec fn is_genesis(b: BlockModel) -> bool {
    b.index == 0 && b.transactions.len() == 0 && b.proof == GENESIS_PROOF && b.previous_hash
        == genesis_prev_hash()
}

/// The previous-hash marker of the genesis block.
pub open spec fn genesis_prev_hash() -> Seq<char> {
    seq!['0']
}

/// The chain-management engine: an append-only chain of blocks (never empty
/// after construction) and a buffer of transactions not yet embedded in any
/// block.
pub struct Blockchain {
    pub chain: Vec<Block>,
    pub pending_transactions: Vec<Transaction>,
}

/// The mathematical value of a [`Blockchain`].
#[verifier::ext_equal]
pub struct BlockchainModel {
    pub chain: Seq<BlockModel>,
    pub pending_transactions: Seq<TransactionModel>,
}

impl View for Blockchain {
    type V = BlockchainModel;

    open spec fn view(&self) -> BlockchainModel {
        BlockchainModel {
            chain: chain_model(self.chain@),
            pending_transactions: tx_models(self.pending_transactions@),
        }
    }
}

impl Clone for Blockchain {
    fn clone(&self) -> (r: Self)
        ensures
            r@ == self@,
    {
        let r = Blockchain {
            chain: clone_blocks(&self.chain),
            pending_transactions: self.pending_transactions.clone(),
        };
        proof {
            assert forall|i: int| 0 <= i < r.pending_transactions@.len() implies
                r.pending_transactions@[i]@ == self.pending_transactions@[i]@ by {
                assert(cloned::<Transaction>(
                    self.pending_transactions@[i],
                    r.pending_transactions@[i],
                ));
            }
            assert(r@.pending_transactions =~= self@.pending_transactions);
            assert(r@ =~= self@);
        }
        r
    }
}

impl BlockchainModel {
    /// The invariant every chain built or adopted through the engine's own
    /// operations satisfies: at least the genesis block, and every link
    /// sound.
    pub open spec fn well_formed(self) -> bool {
        self.chain.len() >= 1 && chain_valid(self.chain)
    }
}

/// Appending a block whose previous hash is the hash of the old tip and
/// whose proof solves the old tip's puzzle keeps the chain valid.
pub proof fn lemma_chain_valid_push(chain: Seq<BlockModel>, b: BlockModel)
    requires
        chain.len() >= 1,
        chain_valid(chain),
        b.previous_hash == spec_hash_block(chain.last()),
        spec_valid_proof(chain.last().proof, b.proof),
    ensures
        chain_valid(chain.push(b)),
{
    let grown = chain.push(b);
    assert forall|i: int| 1 <= i < grown.len() implies #[trigger] link_ok(grown, i) by {
        if i < chain.len() {
            assert(link_ok(chain, i));
            assert(grown[i] == chain[i]);
            assert(grown[i - 1] == chain[i - 1]);
        } else {
            assert(grown[i] == b);
            assert(grown[i - 1] == chain.last());
        }
    }
}

/// A well-formed chain passes the full validity scan. Together with the
/// contracts of the operations — each of which preserves well-formedness —
/// this says that after any sequence of `add_transaction`, `proof_of_work`
/// and `add_block` calls, `is_chain_valid` returns true.
pub proof fn lemma_well_formed_chain_is_valid(m: BlockchainModel)
    requires
        m.well_formed(),
    ensures
        chain_valid(m.chain),
{
}

/// Copies a sequence of blocks; the copy has the same mathematical value.
pub fn clone_blocks(blocks: &Vec<Block>) -> (r: Vec<Block>)
    ensures
        chain_model(r@) == chain_model(blocks@),
{
    let r = blocks.clone();
    proof {
        assert forall|i: int| 0 <= i < r@.len() implies r@[i]@ == blocks@[i]@ by {
            assert(cloned::<Block>(blocks@[i], r@[i]));
        }
        assert(chain_model(r@) =~= chain_model(blocks@));
    }
    r
}

/// Encodes one transaction onto `out` in the canonical form.
pub fn push_tx_encoding(out: &mut Vec<u8>, t: &Transaction)
    ensures
        final(out)@ == old(out)@ + enc_tx(t@),
{
    push_str_encoding(out, &t.sender);
    out.push(44);  // ','
    push_str_encoding(out, &t.receiver);
    out.push(44);  // ','
    push_decimal_u64(out, t.amount);
    out.push(59);  // ';'
    assert(final(out)@ =~= old(out)@ + enc_tx(t@));
}

/// The canonical encoding of a longer transaction sequence extends that of
/// its prefix by the encoding of the last transaction.
proof fn lemma_enc_tx_seq_snoc(txs: Seq<TransactionModel>)
    requires
        txs.len() >= 1,
    ensures
        enc_tx_seq(txs) == enc_tx_seq(txs.drop_last()) + enc_tx(txs.last()),
    decreases txs.len(),
{
    if txs.len() == 1 {
        assert(txs.drop_last() =~= Seq::empty());
        assert(enc_tx_seq(txs) =~= enc_tx(txs[0]) + enc_tx_seq(txs.drop_first()));
        assert(txs.drop_first() =~= Seq::empty());
        assert(enc_tx_seq(txs) =~= enc_tx_seq(txs.drop_last()) + enc_tx(txs.last()));
    } else {
        lemma_enc_tx_seq_snoc(txs.drop_first());
        assert(txs.drop_first().drop_last() =~= txs.drop_last().drop_first());
        assert(txs.drop_first().last() == txs.last());
        assert(txs.drop_last()[0] == txs[0]);
        assert(enc_tx_seq(txs.drop_last()) == enc_tx(txs[0]) + enc_tx_seq(
            txs.drop_last().drop_first(),
        ));
        assert(enc_tx_seq(txs) =~= enc_tx_seq(txs.drop_last()) + enc_tx(txs.last()));
    }
}

/// Encodes a block into its canonical byte form.
pub fn encode_block(block: &Block) -> (r: Vec<u8>)
    ensures
        r@ == enc_block(block@),
{
    let mut out: Vec<u8> = Vec::new();
    push_decimal_u64(&mut out, block.index);
    out.push(124);  // '|'
    push_decimal_u128(&mut out, block.timestamp);
    out.push(124);  // '|'
    push_decimal_u64(&mut out, block.transactions.len() as u64);
    out.push(124);  // '|'
    let ghost head = out@;
    let mut i: usize = 0;
    while i < block.transactions.len()
        invariant
            i <= block.transactions@.len(),
            out@ == head + enc_tx_seq(tx_models(block.transactions@).subrange(0, i as int)),
        decreases block.transactions@.len() - i,
    {
        proof {
            let txs = tx_models(block.transactions@);
            lemma_enc_tx_seq_snoc(txs.subrange(0, i + 1));
            assert(txs.subrange(0, i + 1).drop_last() =~= txs.subrange(0, i as int));
            assert(txs.subrange(0, i + 1).last() == block.transactions@[i as int]@);
        }
        push_tx_encoding(&mut out, &block.transactions[i]);
        i = i + 1;
    }
    proof {
        let txs = tx_models(block.transactions@);
        assert(txs.subrange(0, txs.len() as int) =~= txs);
    }
    out.push(124);  // '|'
    push_decimal_u64(&mut out, block.proof);
    out.push(124);  // '|'
    push_str_encoding(&mut out, &block.previous_hash);
    proof {
        assert(tx_models(block.transactions@).len() == block.transactions@.len());
        assert(out@ =~= enc_block(block@));
    }
    out
}

/// A hexadecimal digit renders as `'0'` exactly for the value zero.
proof fn lemma_hex_digit_zero(n: int)
    requires
        0 <= n < 16,
    ensures
        (crate::codec::hex_digit(n) == '0') <==> (n == 0),
{
    if n < 10 {
        assert(((n + 48) as u8) as char == '0' <==> n == 0);
    } else {
        assert(n + 87 >= 97);
        assert(((n + 87) as u8) as char != '0');
    }
}

/// The hex rendering of a digest starts with four `'0'` characters exactly
/// when its first two bytes are zero.
proof fn lemma_four_zeros_iff(d: Seq<u8>)
    requires
        d.len() >= 2,
    ensures
        four_leading_zeros(hex_of_bytes(d)) <==> (d[0] == 0 && d[1] == 0),
{
    let h = hex_of_bytes(d);
    assert(h.len() == d.len() * 2);
    assert(h[0] == crate::codec::hex_digit(d[0] as int / 16));
    assert(h[1] == crate::codec::hex_digit(d[0] as int % 16));
    assert(h[2] == crate::codec::hex_digit(d[1] as int / 16));
    assert(h[3] == crate::codec::hex_digit(d[1] as int % 16));
    lemma_hex_digit_zero(d[0] as int / 16);
    lemma_hex_digit_zero(d[0] as int % 16);
    lemma_hex_digit_zero(d[1] as int / 16);
    lemma_hex_digit_zero(d[1] as int % 16);
}

impl Blockchain {
    /// Constructs a ledger whose chain holds exactly the genesis block.
    pub fn new() -> (r: Blockchain)
        ensures
            r@.well_formed(),
            r@.chain.len() == 1,
            is_genesis(r@.chain[0]),
            r@.pending_transactions.len() == 0,
    {
        let mut blockchain = Blockchain { chain: Vec::new(), pending_transactions: Vec::new() };
        proof {
            assert(blockchain@.chain =~= Seq::<BlockModel>::empty());
            assert(blockchain@.pending_transactions =~= Seq::<TransactionModel>::empty());
        }
        blockchain.create_genesis_block();
        blockchain
    }

    /// Establishes the genesis block of a freshly constructed ledger.
    pub fn create_genesis_block(&mut self)
        requires
            old(self)@.chain.len() == 0,
        ensures
            final(self)@.chain.len() == 1,
            is_genesis(final(self)@.chain[0]),
            final(self)@.pending_transactions == old(self)@.pending_transactions,
            final(self)@.well_formed(),
    {
        let genesis_block = Block {
            index: 0,
            timestamp: now(),
            transactions: Vec::new(),
            proof: GENESIS_PROOF,
            previous_hash: "0".to_owned(),
        };
        proof {
            reveal_strlit("0");
            assert(genesis_block@.transactions =~= Seq::<TransactionModel>::empty());
            assert(genesis_block@.previous_hash =~= genesis_prev_hash());
        }
        self.chain.push(genesis_block);
        proof {
            assert(self@.chain =~= old(self)@.chain.push(genesis_block@));
            assert(self@.pending_transactions =~= old(self)@.pending_transactions);
        }
    }

    /// The most recently appended block.
    pub fn get_last_block(&self) -> (r: &Block)
        requires
            self@.chain.len() >= 1,
        ensures
            r@ == self@.chain.last(),
    {
        let i = self.chain.len() - 1;
        &self.chain[i]
    }

    /// Appends a transfer record to the pending buffer. Always succeeds and
    /// validates nothing — by design.
    pub fn add_transaction(&mut self, sender: String, receiver: String, amount: u64)
        ensures
            final(self)@.chain == old(self)@.chain,
            final(self)@.pending_transactions == old(self)@.pending_transactions.push(
                TransactionModel { sender: sender@, receiver: receiver@, amount },
            ),
    {
        let ghost model = TransactionModel { sender: sender@, receiver: receiver@, amount };
        let transaction = Transaction { sender, receiver, amount };
        self.pending_transactions.push(transaction);
        proof {
            assert(self@.chain =~= old(self)@.chain);
            assert(self@.pending_transactions =~= old(self)@.pending_transactions.push(model));
        }
    }

    /// Whether `nonce` solves the puzzle posed by `last_proof`: the SHA-256
    /// digest of their decimal concatenation, rendered in hexadecimal,
    /// starts with four `'0'` characters.
    pub fn valid_proof(&self, last_proof: u64, nonce: u64) -> (r: bool)
        ensures
            r == spec_valid_proof(last_proof, nonce),
    {
        let mut guess: Vec<u8> = Vec::new();
        push_decimal_u64(&mut guess, last_proof);
        push_decimal_u64(&mut guess, nonce);
        proof {
            assert(guess@ =~= guess_bytes(last_proof, nonce));
        }
        let digest = sha256_digest(guess.as_slice());
        proof {
            lemma_four_zeros_iff(digest@);
        }
        digest[0] == 0 && digest[1] == 0
    }

    /// Returns the smallest nonce that solves the puzzle posed by
    /// `last_proof`, by exhaustive strictly increasing search from zero.
    /// A solution must exist; [`Blockchain::try_proof_of_work`] makes that
    /// check itself.
    pub fn proof_of_work(&self, last_proof: u64) -> (r: u64)
        requires
            exists|q: u64| spec_valid_proof(last_proof, q),
        ensures
            spec_valid_proof(last_proof, r),
            forall|q: u64| q < r ==> !spec_valid_proof(last_proof, q),
    {
        let ghost w = choose|q: u64| spec_valid_proof(last_proof, q);
        let mut nonce: u64 = 0;
        loop
            invariant_except_break
                nonce <= w,
                spec_valid_proof(last_proof, w),
                forall|q: u64| q < nonce ==> !spec_valid_proof(last_proof, q),
            ensures
                spec_valid_proof(last_proof, nonce),
                forall|q: u64| q < nonce ==> !spec_valid_proof(last_proof, q),
            decreases w - nonce,
        {
            if self.valid_proof(last_proof, nonce) {
                break ;
            }
            proof {
                assert(nonce < w);
            }
            nonce = nonce + 1;
        }
        nonce
    }

    /// Searches the whole nonce space for the smallest solution to the
    /// puzzle posed by `last_proof`; `None` means no 64-bit nonce solves it.
    pub fn try_proof_of_work(&self, last_proof: u64) -> (r: Option<u64>)
        ensures
            match r {
                Some(p) => spec_valid_proof(last_proof, p) && forall|q: u64|
                    q < p ==> !spec_valid_proof(last_proof, q),
                None => forall|q: u64| !spec_valid_proof(last_proof, q),
            },
    {
        let mut nonce: u64 = 0;
        loop
            invariant
                forall|q: u64| q < nonce ==> !spec_valid_proof(last_proof, q),
            decreases u64::MAX - nonce,
        {
            if self.valid_proof(last_proof, nonce) {
                return Some(self.proof_of_work(last_proof));
            }
            if nonce == u64::MAX {
                proof {
                    assert forall|q: u64| !spec_valid_proof(last_proof, q) by {
                        if q < u64::MAX {
                            assert(!spec_valid_proof(last_proof, q));
                        }
                    }
                }
                return None;
            }
            nonce = nonce + 1;
        }
    }

    /// The hash of a block: the lowercase hexadecimal rendering of the
    /// SHA-256 digest of its canonical encoding.
    pub fn hash_block(&self, block: &Block) -> (r: String)
        ensures
            r@ == spec_hash_block(block@),
    {
        let encoded = encode_block(block);
        let digest = sha256_digest(encoded.as_slice());
        to_hex_string(digest.as_slice())
    }

    /// Assembles the pending transactions into a new block whose proof is
    /// `nonce`, appends it and clears the buffer. The caller must supply a
    /// nonce that solves the tip's puzzle; [`Blockchain::add_block_checked`]
    /// verifies that itself.
    pub fn add_block(&mut self, nonce: u64) -> (b: Block)
        requires
            old(self)@.chain.len() >= 1,
            spec_valid_proof(old(self)@.chain.last().proof, nonce),
        ensures
            final(self)@.chain == old(self)@.chain.push(b@),
            final(self)@.pending_transactions.len() == 0,
            b@.index as int == old(self)@.chain.len() as int,
            b@.transactions == old(self)@.pending_transactions,
            b@.proof == nonce,
            b@.previous_hash == spec_hash_block(old(self)@.chain.last()),
            old(self)@.well_formed() ==> final(self)@.well_formed(),
    {
        let previous_hash = {
            let i = self.chain.len() - 1;
            self.hash_block(&self.chain[i])
        };
        let index = self.chain.len() as u64;
        let timestamp = now();
        let transactions = self.pending_transactions.clone();
        proof {
            assert forall|i: int| 0 <= i < transactions@.len() implies transactions@[i]@
                == self.pending_transactions@[i]@ by {
                assert(cloned::<Transaction>(self.pending_transactions@[i], transactions@[i]));
            }
            assert(tx_models(transactions@) =~= old(self)@.pending_transactions);
        }
        let block = Block { index, timestamp, transactions, proof: nonce, previous_hash };
        let returned = block.clone();
        self.pending_transactions.clear();
        self.chain.push(block);
        proof {
            assert(self@.chain =~= old(self)@.chain.push(returned@));
            assert(self@.pending_transactions =~= Seq::<TransactionModel>::empty());
            if old(self)@.well_formed() {
                lemma_chain_valid_push(old(self)@.chain, returned@);
            }
        }
        returned
    }

    /// Re-verifies the supplied nonce against the tip's puzzle before
    /// appending: the block is admitted exactly when the nonce is valid,
    /// and otherwise the ledger is left unchanged.
    pub fn add_block_checked(&mut self, nonce: u64) -> (r: Option<Block>)
        requires
            old(self)@.chain.len() >= 1,
        ensures
            r is Some <==> spec_valid_proof(old(self)@.chain.last().proof, nonce),
            match r {
                Some(b) => final(self)@.chain == old(self)@.chain.push(b@)
                    && final(self)@.pending_transactions.len() == 0 && b@.index as int == old(
                    self,
                )@.chain.len() as int && b@.transactions == old(self)@.pending_transactions
                    && b@.proof == nonce && b@.previous_hash == spec_hash_block(
                    old(self)@.chain.last(),
                ) && (old(self)@.well_formed() ==> final(self)@.well_formed()),
                None => final(self)@ == old(self)@,
            },
    {
        let last_proof = {
            let i = self.chain.len() - 1;
            self.chain[i].proof
        };
        if self.valid_proof(last_proof, nonce) {
            Some(self.add_block(nonce))
        } else {
            None
        }
    }

    /// Scans the chain from the second block on, checking hash linkage and
    /// proof validity of every link; false on the first violation.
    pub fn is_chain_valid(&self) -> (r: bool)
        ensures
            r == chain_valid(self@.chain),
    {
        let mut i: usize = 1;
        while i < self.chain.len()
            invariant
                1 <= i,
                i <= self.chain@.len() || i == 1,
                forall|j: int| 1 <= j < i ==> #[trigger] link_ok(self@.chain, j),
            decreases self.chain@.len() - i,
        {
            let computed = {
                let p = i - 1;
                self.hash_block(&self.chain[p])
            };
            if !(self.chain[i].previous_hash == computed) {
                proof {
                    assert(!link_ok(self@.chain, i as int));
                }
                return false;
            }
            let previous_proof = {
                let p = i - 1;
                self.chain[p].proof
            };
            if !self.valid_proof(previous_proof, self.chain[i].proof) {
                proof {
                    assert(!link_ok(self@.chain, i as int));
                }
                return false;
            }
            i = i + 1;
        }
        true
    }
}

} // verus!
