//! Typed messages of the protocol and their canonical hashing: transactions,
//! blocks, peer records, and the tagged message union.
use crate::b256::{lemma_b256_view_eq, B256};
use crate::crypto::{
    address_of_key, recovered_address, secp256k1_sign_of, secp256k1_valid_key, sha2_256,
    SecretKey, Signature,
};
use vstd::prelude::*;

verus! {

/// A network endpoint, carried opaquely: an IP address held as a 128-bit
/// integer (IPv4 addresses sit in the low 32 bits with `v6` false) and a
/// port. The protocol logic never inspects it; it only routes replies to it.
#[derive(Clone, Copy, Debug, PartialEq, Eq, Structural)]
pub struct SocketAddress {
    pub ip: u128,
    pub v6: bool,
    pub port: u16,
}

/// A peer directory entry: a human-readable name, the peer's address
/// identity, and the endpoint it listens on.
#[derive(Clone, Debug)]
pub struct NodeInfo {
    pub name: String,
    pub address: B256,
    pub socket: SocketAddress,
}

/// The eight bytes of `n` in big-endian order.
pub open spec fn u64_be_bytes(n: u64) -> Seq<u8> {
    seq![
        ((n >> 56) & 0xff) as u8,
        ((n >> 48) & 0xff) as u8,
        ((n >> 40) & 0xff) as u8,
        ((n >> 32) & 0xff) as u8,
        ((n >> 24) & 0xff) as u8,
        ((n >> 16) & 0xff) as u8,
        ((n >> 8) & 0xff) as u8,
        (n & 0xff) as u8,
    ]
}

/// Append the big-endian encoding of `n` to `bytes`.
fn push_u64_be(bytes: &mut Vec<u8>, n: u64)
    ensures
        final(bytes)@ == old(bytes)@ + u64_be_bytes(n),
{
    proof {
        assert(((n >> 56) & 0xff) < 256 && ((n >> 48) & 0xff) < 256 && ((n >> 40) & 0xff) < 256
            && ((n >> 32) & 0xff) < 256 && ((n >> 24) & 0xff) < 256 && ((n >> 16) & 0xff) < 256
            && ((n >> 8) & 0xff) < 256 && (n & 0xff) < 256) by (bit_vector);
    }
    bytes.push(((n >> 56) & 0xff) as u8);
    bytes.push(((n >> 48) & 0xff) as u8);
    bytes.push(((n >> 40) & 0xff) as u8);
    bytes.push(((n >> 32) & 0xff) as u8);
    bytes.push(((n >> 24) & 0xff) as u8);
    bytes.push(((n >> 16) & 0xff) as u8);
    bytes.push(((n >> 8) & 0xff) as u8);
    bytes.push((n & 0xff) as u8);
    proof {
        assert(bytes@ =~= old(bytes)@ + u64_be_bytes(n));
    }
}

/// Append the 32 bytes of `b` to `bytes`.
fn push_b256(bytes: &mut Vec<u8>, b: &B256)
    ensures
        final(bytes)@ == old(bytes)@ + b@,
{
    let mut i: usize = 0;
    while i < 32
        invariant
            0 <= i <= 32,
            bytes@ == old(bytes)@ + b@.take(i as int),
        decreases 32 - i,
    {
        bytes.push(b.0[i]);
        proof {
            assert(old(bytes)@ + b@.take(i as int) + seq![b@[i as int]] =~= old(bytes)@ + b@.take(
                i as int + 1,
            ));
        }
        i = i + 1;
    }
    proof {
        assert(b@.take(32) =~= b@);
    }
}

/// The payload of a value transfer: recipient address and amount.
#[derive(Clone, Copy, Debug)]
pub struct TransactionData {
    pub to: B256,
    pub amount: u64,
}

/// The canonical byte string a transaction is hashed over:
/// `to || amount`, with the amount encoded big-endian in 8 bytes.
pub open spec fn transaction_data_bytes(d: TransactionData) -> Seq<u8> {
    d.to@ + u64_be_bytes(d.amount)
}

impl TransactionData {
    /// The canonical hash: SHA-256 over `to || amount`.
    pub fn hash(&self) -> (r: B256)
        ensures
            r@ == sha2_256(transaction_data_bytes(*self)),
    {
        let mut bytes: Vec<u8> = Vec::new();
        push_b256(&mut bytes, &self.to);
        push_u64_be(&mut bytes, self.amount);
        proof {
            assert(bytes@ =~= transaction_data_bytes(*self));
        }
        B256::hash_of(bytes.as_slice())
    }
}

/// A signed value transfer.
#[derive(Clone, Copy, Debug)]
pub struct Transaction {
    pub hash: B256,
    pub from: B256,
    pub data: TransactionData,
    pub signature: Signature,
}

/// A transaction is valid when its stored hash is the canonical hash of its
/// data and its signature recovers, over that hash, exactly `from`.
pub open spec fn transaction_valid(tx: Transaction) -> bool {
    &&& tx.hash@ == sha2_256(transaction_data_bytes(tx.data))
    &&& recovered_address(tx.signature, tx.hash) == Some(tx.from@)
}

impl Transaction {
    /// Build and sign a transaction; succeeds exactly when the key is
    /// valid and deterministic signing succeeds over the canonical hash,
    /// and stores exactly the deterministic signature.
    pub fn new(data: TransactionData, key: &SecretKey) -> (out: Option<Transaction>)
        ensures
            out is Some <==> (secp256k1_valid_key(key@) && secp256k1_sign_of(
                key@,
                sha2_256(transaction_data_bytes(data)),
            ) is Some),
            out matches Some(tx) ==> {
                &&& tx.data == data
                &&& transaction_valid(tx)
                &&& tx.from@ == address_of_key(key@)
                &&& secp256k1_sign_of(key@, tx.hash@) == Some(
                    (tx.signature.r@, tx.signature.s@, tx.signature.recovery_id),
                )
            },
    {
        let hash = data.hash();
        let signature = match Signature::sign(key, hash) {
            Some(s) => s,
            None => {
                return None;
            },
        };
        let from = match key.address() {
            Some(a) => a,
            None => {
                return None;
            },
        };
        Some(Transaction { hash, from, data, signature })
    }

    /// Check correctness of the transaction: succeeds exactly when the
    /// transaction is valid.
    pub fn verify(&self) -> (out: Option<()>)
        ensures
            out is Some <==> transaction_valid(*self),
    {
        let expected_hash = self.data.hash();
        if !(self.hash == expected_hash) {
            proof {
                if self.hash@ == expected_hash@ {
                    lemma_b256_view_eq(self.hash, expected_hash);
                }
            }
            return None;
        }
        self.signature.verify(expected_hash, self.from)
    }
}

/// The payload of a block: predecessor hash, height, and the ordered
/// transactions it carries.
#[derive(Clone, Debug)]
pub struct BlockData {
    pub prev_hash: B256,
    pub number: u64,
    pub transactions: Vec<Transaction>,
}

/// The concatenation of the stored hashes of a sequence of transactions.
pub open spec fn tx_hashes_bytes(txs: Seq<Transaction>) -> Seq<u8>
    decreases txs.len(),
{
    if txs.len() == 0 {
        Seq::empty()
    } else {
        tx_hashes_bytes(txs.drop_last()) + txs.last().hash@
    }
}

/// The canonical byte string a block is hashed over:
/// `prev_hash || tx[0].hash || tx[1].hash || ...` (the height is not part
/// of the hash).
pub open spec fn block_data_bytes(d: BlockData) -> Seq<u8> {
    d.prev_hash@ + tx_hashes_bytes(d.transactions@)
}

impl BlockData {
    /// The canonical hash: SHA-256 over the predecessor hash followed by
    /// every transaction hash in order.
    pub fn hash(&self) -> (r: B256)
        ensures
            r@ == sha2_256(block_data_bytes(*self)),
    {
        let mut bytes: Vec<u8> = Vec::new();
        push_b256(&mut bytes, &self.prev_hash);
        let mut i: usize = 0;
        while i < self.transactions.len()
            invariant
                0 <= i <= self.transactions.len(),
                bytes@ == self.prev_hash@ + tx_hashes_bytes(self.transactions@.take(i as int)),
            decreases self.transactions.len() - i,
        {
            push_b256(&mut bytes, &self.transactions[i].hash);
            proof {
                let txs = self.transactions@;
                assert(txs.take(i as int + 1).drop_last() =~= txs.take(i as int));
                assert(txs.take(i as int + 1).last() == txs[i as int]);
                assert(bytes@ =~= self.prev_hash@ + tx_hashes_bytes(txs.take(i as int + 1)));
            }
            i = i + 1;
        }
        proof {
            assert(self.transactions@.take(self.transactions@.len() as int)
                =~= self.transactions@);
        }
        B256::hash_of(bytes.as_slice())
    }
}

/// A signed block.
#[derive(Clone, Debug)]
pub struct Block {
    pub hash: B256,
    pub data: BlockData,
    pub proposer: B256,
    pub signature: Signature,
}

/// A block is valid when its stored hash is the canonical hash of its data
/// and its signature recovers, over that hash, exactly `proposer`.
pub open spec fn block_valid(b: Block) -> bool {
    &&& b.hash@ == sha2_256(block_data_bytes(b.data))
    &&& recovered_address(b.signature, b.hash) == Some(b.proposer@)
}

impl Block {
    /// Build and sign a block; succeeds exactly when the key is valid and
    /// deterministic signing succeeds over the canonical hash, and stores
    /// exactly the deterministic signature.
    pub fn new(data: BlockData, key: &SecretKey) -> (out: Option<Block>)
        ensures
            out is Some <==> (secp256k1_valid_key(key@) && secp256k1_sign_of(
                key@,
                sha2_256(block_data_bytes(data)),
            ) is Some),
            out matches Some(b) ==> {
                &&& b.data == data
                &&& block_valid(b)
                &&& b.proposer@ == address_of_key(key@)
                &&& secp256k1_sign_of(key@, b.hash@) == Some(
                    (b.signature.r@, b.signature.s@, b.signature.recovery_id),
                )
            },
    {
        let hash = data.hash();
        let signature = match Signature::sign(key, hash) {
            Some(s) => s,
            None => {
                return None;
            },
        };
        let proposer = match key.address() {
            Some(a) => a,
            None => {
                return None;
            },
        };
        Some(Block { hash, data, proposer, signature })
    }

    /// Check correctness of the block: succeeds exactly when the block is
    /// valid.
    pub fn verify(&self) -> (out: Option<()>)
        ensures
            out is Some <==> block_valid(*self),
    {
        let expected_hash = self.data.hash();
        if !(self.hash == expected_hash) {
            proof {
                if self.hash@ == expected_hash@ {
                    lemma_b256_view_eq(self.hash, expected_hash);
                }
            }
            return None;
        }
        self.signature.verify(expected_hash, self.proposer)
    }
}

/// The tagged message union carried over the transport.
#[derive(Clone, Debug)]
pub enum Message {
    /// A peer announcing itself (or being forwarded).
    Hello(NodeInfo),
    /// A signed transaction submitted or gossiped.
    Transaction(Transaction),
    /// A signed block gossiped between nodes.
    Block(Block),
    /// A request to stream blocks from the given height to the requester.
    SyncBlock(B256, u64),
    /// A balance query: reply endpoint and the queried address.
    BalanceOf(SocketAddress, B256),
}

} // verus!
