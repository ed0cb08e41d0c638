//! The node state machine: peer directory, pending-transaction pool,
//! dispatcher, proposer and broadcast logic.
//!
//! A node is driven by messages alone: every handler consumes one inbound
//! message, updates the node state, and returns the datagrams to transmit.
//! The surrounding process performs the actual sends and receives.
use crate::b256::{lemma_b256_view_eq, B256};
use crate::chain::{
    append_outcome, append_step, balance_in_chain, chain_wf, BlockAppendResult, Blocks,
};
use crate::crypto::{address_of_key, secp256k1_sign_of, secp256k1_valid_key, sha2_256, SecretKey};
use crate::types::{
    block_data_bytes, block_valid, transaction_valid, tx_hashes_bytes, Block, BlockData, Message,
    NodeInfo, SocketAddress, Transaction,
};
use vstd::pervasive::VecAdditionalExecFns;
use vstd::prelude::*;

verus! {

/// What one outbound datagram carries: a tagged protocol message, a bare
/// block (the reply form of a sync stream), or a bare balance (the reply
/// form of a balance query).
#[derive(Clone, Debug)]
pub enum WirePayload {
    Message(Message),
    Block(Block),
    Balance(u64),
}

/// One datagram to transmit: a destination endpoint and a payload.
#[derive(Clone, Debug)]
pub struct Outbound {
    pub dest: SocketAddress,
    pub payload: WirePayload,
}

/// Two blocks with the same content. Blocks hold their transactions in a
/// vector, whose abstract content (not its allocation) is what matters.
pub open spec fn same_block(a: Block, b: Block) -> bool {
    &&& a.hash == b.hash
    &&& a.proposer == b.proposer
    &&& a.signature == b.signature
    &&& a.data.prev_hash == b.data.prev_hash
    &&& a.data.number == b.data.number
    &&& a.data.transactions@ == b.data.transactions@
}

/// Two messages with the same content, blocks compared by `same_block`.
pub open spec fn same_message(a: Message, b: Message) -> bool {
    match (a, b) {
        (Message::Hello(x), Message::Hello(y)) => x == y,
        (Message::Transaction(x), Message::Transaction(y)) => x == y,
        (Message::Block(x), Message::Block(y)) => same_block(x, y),
        (Message::SyncBlock(x, n), Message::SyncBlock(y, m)) => x == y && n == m,
        (Message::BalanceOf(s, x), Message::BalanceOf(t, y)) => s == t && x == y,
        _ => false,
    }
}

/// `out` carries `msg` to every peer of the directory, in directory order.
pub open spec fn is_broadcast_of(out: Seq<Outbound>, peers: Seq<NodeInfo>, msg: Message) -> bool {
    &&& out.len() == peers.len()
    &&& forall|i: int| 0 <= i < out.len() ==> (#[trigger] out[i]).dest == peers[i].socket
    &&& forall|i: int|
        0 <= i < out.len() ==> match (#[trigger] out[i]).payload {
            WirePayload::Message(m) => same_message(m, msg),
            _ => false,
        }
}

/// `out` streams the blocks of `chain` from height `start` to the tip, one
/// bare block per datagram, all to `dest`.
pub open spec fn is_sync_stream(
    out: Seq<Outbound>,
    dest: SocketAddress,
    chain: Seq<Block>,
    start: u64,
) -> bool {
    &&& out.len() == if (start as int) < chain.len() {
        chain.len() - start
    } else {
        0
    }
    &&& forall|k: int| 0 <= k < out.len() ==> (#[trigger] out[k]).dest == dest
    &&& forall|k: int|
        0 <= k < out.len() ==> match (#[trigger] out[k]).payload {
            WirePayload::Block(b) => same_block(b, chain[start + k]),
            _ => false,
        }
}

/// Some directory entry is keyed by this address.
pub open spec fn known_peer(peers: Seq<NodeInfo>, address: B256) -> bool {
    exists|i: int| 0 <= i < peers.len() && peers[i].address == address
}

/// Some pool entry is keyed by this transaction hash.
pub open spec fn known_pending(pending: Seq<Transaction>, hash: B256) -> bool {
    exists|i: int| 0 <= i < pending.len() && pending[i].hash == hash
}

/// Directory entries are keyed uniquely by peer address.
pub open spec fn peers_unique(peers: Seq<NodeInfo>) -> bool {
    forall|i: int, j: int|
        0 <= i < j < peers.len() ==> (#[trigger] peers[i]).address != (#[trigger] peers[j]).address
}

/// Pool entries are keyed uniquely by transaction hash.
pub open spec fn pending_unique(pending: Seq<Transaction>) -> bool {
    forall|i: int, j: int|
        0 <= i < j < pending.len() ==> (#[trigger] pending[i]).hash != (#[trigger] pending[j]).hash
}

/// All zero bytes: the `prev_hash` of the genesis block, and its seat as
/// proposer identity.
pub open spec fn zero_bytes() -> Seq<u8> {
    Seq::new(32, |i: int| 0u8)
}

/// The canonical genesis block every node seats at height 0: all-zero
/// predecessor, no transactions, the canonical hash of that data, and the
/// all-zero proposer identity.
pub open spec fn is_genesis_block(b: Block) -> bool {
    &&& b.data.number == 0
    &&& b.data.prev_hash@ == zero_bytes()
    &&& b.data.transactions@ == Seq::<Transaction>::empty()
    &&& b.hash@ == sha2_256(zero_bytes())
    &&& b.proposer@ == zero_bytes()
}

/// A node: its own identity, transportless state (peer directory, chain
/// store, pending pool), and its signing key.
pub struct Node {
    /// This node's name, address identity and bound endpoint.
    pub info: NodeInfo,
    /// Known peers, in order of first contact, keyed uniquely by address.
    pub peers: Vec<NodeInfo>,
    /// The chain store.
    pub blocks: Blocks,
    /// Valid, not yet included transactions, in arrival order, keyed
    /// uniquely by hash.
    pub pending: Vec<Transaction>,
    /// The node's signing key; its address is the node's identity.
    pub key: SecretKey,
}

impl Node {
    /// The node's signing key is a valid secp256k1 key and its address is
    /// the address of that key.
    pub open spec fn key_matches(&self) -> bool {
        &&& secp256k1_valid_key(self.key@)
        &&& self.info.address@ == address_of_key(self.key@)
    }

    /// Well-formedness: the chain is linked and rooted in a seated genesis,
    /// directory and pool are uniquely keyed, and the node's identity
    /// belongs to its (valid) key.
    pub open spec fn wf(&self) -> bool {
        &&& chain_wf(self.blocks@)
        &&& self.blocks@.len() >= 1
        &&& peers_unique(self.peers@)
        &&& pending_unique(self.pending@)
        &&& self.key_matches()
    }

    /// Create a node: derive its address from the key and seat the
    /// canonical genesis block. Succeeds exactly when the key is valid.
    pub fn new(key: SecretKey, name: String, socket: SocketAddress) -> (out: Option<Node>)
        ensures
            out is Some <==> secp256k1_valid_key(key@),
            out matches Some(n) ==> {
                &&& n.wf()
                &&& n.peers@.len() == 0
                &&& n.pending@.len() == 0
                &&& n.blocks@.len() == 1
                &&& is_genesis_block(n.blocks@[0])
                &&& n.info.name == name
                &&& n.info.socket == socket
                &&& n.info.address@ == address_of_key(key@)
            },
    {
        let address = match key.address() {
            Some(a) => a,
            None => {
                return None;
            },
        };
        let zero = B256([0; 32]);
        proof {
            assert(zero@ =~= zero_bytes());
        }
        let data = BlockData { prev_hash: zero, number: 0, transactions: Vec::new() };
        let hash = data.hash();
        proof {
            assert(data.transactions@.take(0) =~= data.transactions@);
            assert(block_data_bytes(data) =~= zero_bytes());
        }
        let genesis = Block {
            hash,
            data,
            proposer: zero,
            signature: crate::crypto::Signature { r: zero, s: zero, recovery_id: 0 },
        };
        let mut blocks = Blocks::default();
        blocks.append_unchecked(genesis);
        let info = NodeInfo { name, address, socket };
        Some(Node { info, peers: Vec::new(), blocks, pending: Vec::new(), key })
    }

    /// The directory entry keyed by `address`, if one exists.
    fn find_peer(&self, address: &B256) -> (out: Option<usize>)
        ensures
            match out {
                Some(i) => i < self.peers@.len() && self.peers@[i as int].address == *address,
                None => !known_peer(self.peers@, *address),
            },
    {
        let mut i: usize = 0;
        while i < self.peers.len()
            invariant
                0 <= i <= self.peers@.len(),
                forall|j: int| 0 <= j < i ==> self.peers@[j].address != *address,
            decreases self.peers@.len() - i,
        {
            if self.peers[i].address == *address {
                return Some(i);
            }
            i = i + 1;
        }
        None
    }

    /// The pool entry keyed by `hash`, if one exists.
    fn find_pending(&self, hash: &B256) -> (out: Option<usize>)
        ensures
            match out {
                Some(i) => i < self.pending@.len() && self.pending@[i as int].hash == *hash,
                None => !known_pending(self.pending@, *hash),
            },
    {
        let mut i: usize = 0;
        while i < self.pending.len()
            invariant
                0 <= i <= self.pending@.len(),
                forall|j: int| 0 <= j < i ==> self.pending@[j].hash != *hash,
            decreases self.pending@.len() - i,
        {
            if self.pending[i].hash == *hash {
                return Some(i);
            }
            i = i + 1;
        }
        None
    }
}

/// Effect of a `Hello(info)`: the entry keyed `info.address` is inserted
/// or refreshed; a novel peer other than the node itself is forwarded to
/// every *other* peer — the directory as it stood before the insert, so
/// the newcomer is not greeted back with its own record.
pub open spec fn hello_effect(pre: Node, info: NodeInfo, post: Node, out: Seq<Outbound>) -> bool {
    &&& post.info == pre.info
    &&& post.blocks@ == pre.blocks@
    &&& post.pending@ == pre.pending@
    &&& post.key == pre.key
    &&& if known_peer(pre.peers@, info.address) {
        &&& (exists|i: int|
            0 <= i < pre.peers@.len() && pre.peers@[i].address == info.address && post.peers@
                == pre.peers@.update(i, info))
        &&& out.len() == 0
    } else {
        &&& post.peers@ == pre.peers@.push(info)
        &&& if info.address != pre.info.address {
            is_broadcast_of(out, pre.peers@, Message::Hello(info))
        } else {
            out.len() == 0
        }
    }
}

/// The canonical hash of the block a node at the given chain and pool
/// would propose: its data is the tip hash followed by the pool's
/// transaction hashes.
pub open spec fn proposed_block_hash(pre_chain: Seq<Block>, pre_pending: Seq<Transaction>) -> Seq<
    u8,
> {
    sha2_256(pre_chain.last().hash@ + tx_hashes_bytes(pre_pending))
}

/// Effect of proposing a block: either the pool is drained into a fresh,
/// valid block extending the tip, which is broadcast; or — only when
/// deterministic signing fails over the proposed block's hash — nothing
/// changed.
pub open spec fn proposal_effect(
    pre_chain: Seq<Block>,
    pre_pending: Seq<Transaction>,
    peers: Seq<NodeInfo>,
    proposer: B256,
    key: Seq<u8>,
    post_chain: Seq<Block>,
    post_pending: Seq<Transaction>,
    out: Seq<Outbound>,
) -> bool {
    ||| {
        &&& post_chain.len() == pre_chain.len() + 1
        &&& post_chain == pre_chain.push(post_chain.last())
        &&& post_chain.last().data.number == pre_chain.len()
        &&& post_chain.last().data.prev_hash == pre_chain.last().hash
        &&& post_chain.last().data.transactions@ == pre_pending
        &&& post_chain.last().proposer == proposer
        &&& block_valid(post_chain.last())
        &&& post_pending.len() == 0
        &&& is_broadcast_of(out, peers, Message::Block(post_chain.last()))
    }
    ||| {
        &&& secp256k1_sign_of(key, proposed_block_hash(pre_chain, pre_pending)) is None
        &&& post_chain == pre_chain
        &&& post_pending == pre_pending
        &&& out.len() == 0
    }
}

/// Effect of a `Transaction(tx)`: an invalid signature or an amount beyond
/// the sender's balance drops it; a transaction already pending refreshes
/// its pool entry; a novel one is pooled, rebroadcast, and immediately
/// followed by a block proposal.
pub open spec fn transaction_effect(
    pre: Node,
    tx: Transaction,
    post: Node,
    out: Seq<Outbound>,
) -> bool {
    &&& post.info == pre.info
    &&& post.peers@ == pre.peers@
    &&& post.key == pre.key
    &&& if !transaction_valid(tx) || balance_in_chain(pre.blocks@, tx.from) < tx.data.amount {
        &&& post.blocks@ == pre.blocks@
        &&& post.pending@ == pre.pending@
        &&& out.len() == 0
    } else if known_pending(pre.pending@, tx.hash) {
        &&& post.blocks@ == pre.blocks@
        &&& (exists|i: int|
            0 <= i < pre.pending@.len() && pre.pending@[i].hash == tx.hash && post.pending@
                == pre.pending@.update(i, tx))
        &&& out.len() == 0
    } else {
        &&& out.len() >= pre.peers@.len()
        &&& is_broadcast_of(
            out.take(pre.peers@.len() as int),
            pre.peers@,
            Message::Transaction(tx),
        )
        &&& proposal_effect(
            pre.blocks@,
            pre.pending@.push(tx),
            pre.peers@,
            pre.info.address,
            pre.key@,
            post.blocks@,
            post.pending@,
            out.skip(pre.peers@.len() as int),
        )
    }
}

/// Effect of a `Block(block)`: an invalid signature or an echo of this
/// node's own proposal drops it; otherwise the fork-choice kernel runs, a
/// seated block is rebroadcast, and a gap triggers a sync request.
pub open spec fn block_effect(pre: Node, block: Block, post: Node, out: Seq<Outbound>) -> bool {
    &&& post.info == pre.info
    &&& post.peers@ == pre.peers@
    &&& post.pending@ == pre.pending@
    &&& post.key == pre.key
    &&& if !block_valid(block) || block.proposer == pre.info.address {
        &&& post.blocks@ == pre.blocks@
        &&& out.len() == 0
    } else {
        &&& post.blocks@ == append_step(pre.blocks@, block)
        &&& match append_outcome(pre.blocks@, block) {
            BlockAppendResult::Added => is_broadcast_of(out, pre.peers@, Message::Block(block)),
            BlockAppendResult::NeedSync(start) => is_broadcast_of(
                out,
                pre.peers@,
                Message::SyncBlock(pre.info.address, start),
            ),
            BlockAppendResult::Dropped => out.len() == 0,
        }
    }
}

/// Effect of a `SyncBlock(sender, start)`: a known requester receives the
/// blocks from `start` to the tip as bare block datagrams; an unknown one
/// is ignored. The node state does not change.
pub open spec fn sync_effect(pre: Node, sender: B256, start: u64, out: Seq<Outbound>) -> bool {
    if known_peer(pre.peers@, sender) {
        exists|i: int|
            0 <= i < pre.peers@.len() && pre.peers@[i].address == sender && is_sync_stream(
                out,
                pre.peers@[i].socket,
                pre.blocks@,
                start,
            )
    } else {
        out.len() == 0
    }
}

/// Effect of a `BalanceOf(sender, address)`: one bare-balance datagram back
/// to the sender, carrying the linear-scan balance. The node state does
/// not change.
pub open spec fn balance_effect(
    pre: Node,
    sender: SocketAddress,
    address: B256,
    out: Seq<Outbound>,
) -> bool {
    &&& out.len() == 1
    &&& out[0].dest == sender
    &&& out[0].payload == WirePayload::Balance(balance_in_chain(pre.blocks@, address))
}

/// An identical copy of a block (same content, fresh transaction vector).
fn duplicate_block(b: &Block) -> (r: Block)
    ensures
        same_block(r, *b),
{
    let mut transactions: Vec<Transaction> = Vec::new();
    let mut i: usize = 0;
    while i < b.data.transactions.len()
        invariant
            0 <= i <= b.data.transactions@.len(),
            transactions@ == b.data.transactions@.take(i as int),
        decreases b.data.transactions@.len() - i,
    {
        transactions.push(b.data.transactions[i]);
        proof {
            assert(b.data.transactions@.take(i as int).push(b.data.transactions@[i as int])
                =~= b.data.transactions@.take(i as int + 1));
        }
        i = i + 1;
    }
    proof {
        assert(b.data.transactions@.take(b.data.transactions@.len() as int)
            =~= b.data.transactions@);
    }
    Block {
        hash: b.hash,
        data: BlockData {
            prev_hash: b.data.prev_hash,
            number: b.data.number,
            transactions,
        },
        proposer: b.proposer,
        signature: b.signature,
    }
}

/// An identical copy of a message.
fn duplicate_message(m: &Message) -> (r: Message)
    ensures
        same_message(r, *m),
{
    match m {
        Message::Hello(info) => Message::Hello(
            NodeInfo { name: info.name.clone(), address: info.address, socket: info.socket },
        ),
        Message::Transaction(tx) => Message::Transaction(*tx),
        Message::Block(b) => Message::Block(duplicate_block(b)),
        Message::SyncBlock(a, n) => Message::SyncBlock(*a, *n),
        Message::BalanceOf(s, a) => Message::BalanceOf(*s, *a),
    }
}

/// One copy of `msg` addressed to every peer, in directory order.
fn broadcast(peers: &Vec<NodeInfo>, msg: &Message) -> (out: Vec<Outbound>)
    ensures
        is_broadcast_of(out@, peers@, *msg),
{
    let mut out: Vec<Outbound> = Vec::new();
    let mut i: usize = 0;
    while i < peers.len()
        invariant
            0 <= i <= peers@.len(),
            out@.len() == i,
            forall|j: int| 0 <= j < i ==> (#[trigger] out@[j]).dest == peers@[j].socket,
            forall|j: int|
                0 <= j < i ==> match (#[trigger] out@[j]).payload {
                    WirePayload::Message(m) => same_message(m, *msg),
                    _ => false,
                },
        decreases peers@.len() - i,
    {
        let copy = duplicate_message(msg);
        out.push(Outbound { dest: peers[i].socket, payload: WirePayload::Message(copy) });
        i = i + 1;
    }
    out
}

impl Node {
    /// Insert or refresh a peer directory entry; forward a novel peer
    /// (other than this node itself) to every other known peer.
    pub fn process_hello(&mut self, info: NodeInfo) -> (out: Vec<Outbound>)
        requires
            old(self).wf(),
        ensures
            final(self).wf(),
            hello_effect(*old(self), info, *final(self), out@),
    {
        match self.find_peer(&info.address) {
            Some(i) => {
                let ghost pre = self.peers@;
                self.peers.set(i, info);
                proof {
                    assert forall|x: int, y: int| 0 <= x < y < self.peers@.len() implies (
                    #[trigger] self.peers@[x]).address != (#[trigger] self.peers@[y]).address by {
                        assert(pre[x].address != pre[y].address);
                    }
                    assert(0 <= i < pre.len() && pre[i as int].address == info.address
                        && self.peers@ == pre.update(i as int, info));
                }
                Vec::new()
            },
            None => {
                let ghost pre = self.peers@;
                let novel_not_self = !(info.address == self.info.address);
                let out = if novel_not_self {
                    let duplicate = NodeInfo {
                        name: info.name.clone(),
                        address: info.address,
                        socket: info.socket,
                    };
                    broadcast(&self.peers, &Message::Hello(duplicate))
                } else {
                    Vec::new()
                };
                self.peers.push(info);
                proof {
                    assert forall|x: int, y: int| 0 <= x < y < self.peers@.len() implies (
                    #[trigger] self.peers@[x]).address != (#[trigger] self.peers@[y]).address by {
                        if y == pre.len() {
                            if pre[x].address == info.address {
                                assert(known_peer(pre, info.address));
                            }
                        } else {
                            assert(pre[x].address != pre[y].address);
                        }
                    }
                    assert(self.peers@ == pre.push(info));
                }
                out
            },
        }
    }

    /// Drain the pool into a block extending the tip, seat it locally
    /// without fork choice, and broadcast it. When the key cannot sign,
    /// nothing changes.
    pub fn propose_block(&mut self) -> (out: Vec<Outbound>)
        requires
            old(self).wf(),
        ensures
            final(self).wf(),
            final(self).info == old(self).info,
            final(self).peers@ == old(self).peers@,
            final(self).key == old(self).key,
            proposal_effect(
                old(self).blocks@,
                old(self).pending@,
                old(self).peers@,
                old(self).info.address,
                old(self).key@,
                final(self).blocks@,
                final(self).pending@,
                out@,
            ),
    {
        let height = self.blocks.height();
        let tip_hash = match self.blocks.data_by_number((height - 1) as u64) {
            Some(b) => b.hash,
            None => {
                proof {
                    assert(false);
                }
                return Vec::new();
            },
        };
        let mut transactions: Vec<Transaction> = Vec::new();
        let mut i: usize = 0;
        while i < self.pending.len()
            invariant
                0 <= i <= self.pending@.len(),
                transactions@ == self.pending@.take(i as int),
            decreases self.pending@.len() - i,
        {
            transactions.push(self.pending[i]);
            proof {
                assert(self.pending@.take(i as int).push(self.pending@[i as int])
                    =~= self.pending@.take(i as int + 1));
            }
            i = i + 1;
        }
        proof {
            assert(self.pending@.take(self.pending@.len() as int) =~= self.pending@);
        }
        let data = BlockData { prev_hash: tip_hash, number: height as u64, transactions };
        let ghost proposal_data = data;
        let block = match Block::new(data, &self.key) {
            Some(b) => b,
            None => {
                proof {
                    assert(block_data_bytes(proposal_data) == old(self).blocks@.last().hash@
                        + tx_hashes_bytes(old(self).pending@));
                    assert(secp256k1_sign_of(
                        self.key@,
                        proposed_block_hash(old(self).blocks@, old(self).pending@),
                    ) is None);
                }
                return Vec::new();
            },
        };
        proof {
            lemma_b256_view_eq(block.proposer, self.info.address);
        }
        self.pending.clear();
        let seated = duplicate_block(&block);
        let out = broadcast(&self.peers, &Message::Block(block));
        proof {
            assert(block_data_bytes(seated.data) == block_data_bytes(block.data));
        }
        self.blocks.append_unchecked(seated);
        proof {
            assert(self.blocks@.last() == seated);
            assert(self.blocks@ == old(self).blocks@.push(seated));
        }
        out
    }

    /// Validate a transaction against its signature and the sender's
    /// current balance; pool it, and when novel, rebroadcast it and
    /// propose a block at once.
    pub fn process_transaction(&mut self, tx: Transaction) -> (out: Vec<Outbound>)
        requires
            old(self).wf(),
        ensures
            final(self).wf(),
            transaction_effect(*old(self), tx, *final(self), out@),
    {
        if tx.verify().is_none() {
            return Vec::new();
        }
        if self.blocks.balance_of(tx.from) < tx.data.amount {
            return Vec::new();
        }
        match self.find_pending(&tx.hash) {
            Some(i) => {
                let ghost pre = self.pending@;
                self.pending.set(i, tx);
                proof {
                    assert forall|x: int, y: int| 0 <= x < y < self.pending@.len() implies (
                    #[trigger] self.pending@[x]).hash != (#[trigger] self.pending@[y]).hash by {
                        assert(pre[x].hash != pre[y].hash);
                    }
                    assert(0 <= i < pre.len() && pre[i as int].hash == tx.hash && self.pending@
                        == pre.update(i as int, tx));
                }
                Vec::new()
            },
            None => {
                let ghost pre = self.pending@;
                self.pending.push(tx);
                proof {
                    assert forall|x: int, y: int| 0 <= x < y < self.pending@.len() implies (
                    #[trigger] self.pending@[x]).hash != (#[trigger] self.pending@[y]).hash by {
                        if y == pre.len() {
                            if pre[x].hash == tx.hash {
                                assert(known_pending(pre, tx.hash));
                            }
                        } else {
                            assert(pre[x].hash != pre[y].hash);
                        }
                    }
                }
                let mut out = broadcast(&self.peers, &Message::Transaction(tx));
                let ghost gossip = out@;
                let mut proposal = self.propose_block();
                let ghost proposal_out = proposal@;
                out.append(&mut proposal);
                proof {
                    assert(out@.take(old(self).peers@.len() as int) =~= gossip);
                    assert(out@.skip(old(self).peers@.len() as int) =~= proposal_out);
                }
                out
            },
        }
    }

    /// Validate a gossiped block, discard echoes of this node's own
    /// proposals, run fork choice, and either rebroadcast the seated block
    /// or ask the peers for the blocks this node is missing.
    pub fn process_block(&mut self, block: Block) -> (out: Vec<Outbound>)
        requires
            old(self).wf(),
        ensures
            final(self).wf(),
            block_effect(*old(self), block, *final(self), out@),
    {
        if block.verify().is_none() {
            return Vec::new();
        }
        if block.proposer == self.info.address {
            return Vec::new();
        }
        let gossip_copy = duplicate_block(&block);
        let result = self.blocks.append(block);
        match result {
            BlockAppendResult::Added => broadcast(&self.peers, &Message::Block(gossip_copy)),
            BlockAppendResult::NeedSync(start) => broadcast(
                &self.peers,
                &Message::SyncBlock(self.info.address, start),
            ),
            BlockAppendResult::Dropped => Vec::new(),
        }
    }

    /// Stream the blocks from `start` to the tip back to a known
    /// requester, one bare block per datagram; ignore unknown requesters.
    pub fn process_sync_block(&self, sender: B256, start: u64) -> (out: Vec<Outbound>)
        requires
            self.wf(),
        ensures
            sync_effect(*self, sender, start, out@),
    {
        let idx = match self.find_peer(&sender) {
            Some(i) => i,
            None => {
                return Vec::new();
            },
        };
        let dest = self.peers[idx].socket;
        let height = self.blocks.height();
        let mut out: Vec<Outbound> = Vec::new();
        let mut j: u64 = start;
        while j < height as u64
            invariant
                self.wf(),
                height == self.blocks@.len(),
                start <= j,
                j as int <= self.blocks@.len() || j == start,
                out@.len() == j - start,
                forall|k: int| 0 <= k < out@.len() ==> (#[trigger] out@[k]).dest == dest,
                forall|k: int|
                    0 <= k < out@.len() ==> match (#[trigger] out@[k]).payload {
                        WirePayload::Block(b) => same_block(b, self.blocks@[start + k]),
                        _ => false,
                    },
            decreases self.blocks@.len() - j,
        {
            let b = match self.blocks.data_by_number(j) {
                Some(b) => b,
                None => {
                    proof {
                        assert(false);
                    }
                    return out;
                },
            };
            out.push(Outbound { dest, payload: WirePayload::Block(duplicate_block(b)) });
            j = j + 1;
        }
        proof {
            assert(0 <= idx < self.peers@.len() && self.peers@[idx as int].address == sender
                && is_sync_stream(out@, self.peers@[idx as int].socket, self.blocks@, start));
        }
        out
    }

    /// Answer a balance query with one bare-balance datagram to the
    /// querying endpoint.
    pub fn process_balance_of(&self, sender: SocketAddress, address: B256) -> (out: Vec<Outbound>)
        ensures
            balance_effect(*self, sender, address, out@),
    {
        let balance = self.blocks.balance_of(address);
        let mut out: Vec<Outbound> = Vec::new();
        out.push(Outbound { dest: sender, payload: WirePayload::Balance(balance) });
        out
    }

    /// Dispatch one inbound message and return the datagrams to transmit.
    pub fn process_message(&mut self, msg: Message) -> (out: Vec<Outbound>)
        requires
            old(self).wf(),
        ensures
            final(self).wf(),
            match msg {
                Message::Hello(info) => hello_effect(*old(self), info, *final(self), out@),
                Message::Transaction(tx) => transaction_effect(*old(self), tx, *final(self), out@),
                Message::Block(b) => block_effect(*old(self), b, *final(self), out@),
                Message::SyncBlock(sender, start) => *final(self) == *old(self) && sync_effect(
                    *old(self),
                    sender,
                    start,
                    out@,
                ),
                Message::BalanceOf(sender, address) => *final(self) == *old(self)
                    && balance_effect(*old(self), sender, address, out@),
            },
    {
        match msg {
            Message::Hello(info) => self.process_hello(info),
            Message::Transaction(tx) => self.process_transaction(tx),
            Message::Block(block) => self.process_block(block),
            Message::SyncBlock(sender, start) => self.process_sync_block(sender, start),
            Message::BalanceOf(sender, address) => self.process_balance_of(sender, address),
        }
    }
}

/// Law: a transaction that would drive its sender's balance below zero is
/// rejected outright: the node neither pools, gossips, nor proposes.
/// (Balances themselves cannot underflow: debits saturate at zero.)
pub proof fn lemma_overdraft_rejected(pre: Node, tx: Transaction, post: Node, out: Seq<Outbound>)
    requires
        transaction_effect(pre, tx, post, out),
        balance_in_chain(pre.blocks@, tx.from) < tx.data.amount,
    ensures
        post.blocks@ == pre.blocks@,
        post.pending@ == pre.pending@,
        out.len() == 0,
{
}

/// Law: a novel, valid, in-balance transaction is gossiped to every peer
/// and a block is proposed at once: the pool is drained, the chain grows by
/// one, the new tip carries exactly the pooled transactions (the new one
/// last), and the tip is broadcast. Stated for the inputs on which
/// deterministic signing succeeds over the proposed block's hash; on the
/// others the transaction is still pooled and gossiped, but nothing is
/// proposed.
pub proof fn lemma_novel_transaction_proposes(
    pre: Node,
    tx: Transaction,
    post: Node,
    out: Seq<Outbound>,
)
    requires
        pre.wf(),
        transaction_effect(pre, tx, post, out),
        transaction_valid(tx),
        balance_in_chain(pre.blocks@, tx.from) >= tx.data.amount,
        !known_pending(pre.pending@, tx.hash),
        secp256k1_sign_of(
            pre.key@,
            proposed_block_hash(pre.blocks@, pre.pending@.push(tx)),
        ) is Some,
    ensures
        is_broadcast_of(out.take(pre.peers@.len() as int), pre.peers@, Message::Transaction(tx)),
        post.blocks@.len() == pre.blocks@.len() + 1,
        post.blocks@ == pre.blocks@.push(post.blocks@.last()),
        post.blocks@.last().data.transactions@ == pre.pending@.push(tx),
        post.blocks@.last().data.transactions@.last() == tx,
        post.blocks@.last().proposer == pre.info.address,
        post.pending@.len() == 0,
        is_broadcast_of(
            out.skip(pre.peers@.len() as int),
            pre.peers@,
            Message::Block(post.blocks@.last()),
        ),
{
}

/// Law: redelivering a transaction whose exact value already sits in the
/// pool changes nothing: no state change and no datagrams.
pub proof fn lemma_transaction_redelivery_unchanged(
    pre: Node,
    tx: Transaction,
    post: Node,
    out: Seq<Outbound>,
)
    requires
        pre.wf(),
        transaction_effect(pre, tx, post, out),
        exists|i: int| 0 <= i < pre.pending@.len() && pre.pending@[i] == tx,
    ensures
        post.blocks@ == pre.blocks@,
        post.pending@ == pre.pending@,
        out.len() == 0,
{
    let j = choose|j: int| 0 <= j < pre.pending@.len() && pre.pending@[j] == tx;
    assert(known_pending(pre.pending@, tx.hash));
    if transaction_valid(tx) && balance_in_chain(pre.blocks@, tx.from) >= tx.data.amount {
        let i = choose|i: int|
            0 <= i < pre.pending@.len() && pre.pending@[i].hash == tx.hash && post.pending@
                == pre.pending@.update(i, tx);
        assert(i == j);
        assert(pre.pending@.update(i, tx) =~= pre.pending@);
    }
}

} // verus!
