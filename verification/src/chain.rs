//! The chain store: an append-only sequence of blocks indexed by height,
//! with the deterministic fork-choice rule and balance derivation.
use crate::b256::{distance_val, B256};
use crate::types::{Block, Transaction};
use vstd::prelude::*;

verus! {

/// Result of offering a block to the chain store.
#[derive(Clone, Copy, Debug, PartialEq, Eq, Structural)]
pub enum BlockAppendResult {
    /// The store is missing blocks; peers should be asked to stream blocks
    /// from the carried height onward.
    NeedSync(u64),
    /// The block was seated: as genesis or as the new tip. (A fork-choice
    /// replacement reports `NeedSync`, not `Added`.)
    Added,
    /// The block was dropped: duplicate genesis, orphan, or fork-choice
    /// loser.
    Dropped,
}

/// The fork-choice measure: how far a proposer identity lies from the
/// predecessor hash, both read as big-endian 256-bit integers.
pub open spec fn proposer_distance(proposer: B256, prev_hash: B256) -> nat {
    distance_val(proposer@, prev_hash@)
}

/// Well-formedness of a chain: block `i` carries height `i`, and every
/// block past the genesis links to the hash of its predecessor.
pub open spec fn chain_wf(c: Seq<Block>) -> bool {
    &&& forall|i: int| 0 <= i < c.len() ==> (#[trigger] c[i]).data.number == i
    &&& forall|i: int| 1 <= i < c.len() ==> (#[trigger] c[i]).data.prev_hash == c[i - 1].hash
}

/// The chain after offering `b` to a store holding `c`: the fork-choice
/// kernel as a function.
pub open spec fn append_step(c: Seq<Block>, b: Block) -> Seq<Block> {
    let n = b.data.number as int;
    if c.len() == 0 && n == 0 {
        seq![b]
    } else if n == 0 {
        c
    } else if n > c.len() {
        c
    } else if b.data.prev_hash != c[n - 1].hash {
        c
    } else if n == c.len() {
        c.push(b)
    } else if proposer_distance(b.proposer, c[n - 1].hash) < proposer_distance(
        c[n].proposer,
        c[n - 1].hash,
    ) {
        c.take(n).push(b)
    } else {
        c
    }
}

/// The outcome reported for offering `b` to a store holding `c`.
pub open spec fn append_outcome(c: Seq<Block>, b: Block) -> BlockAppendResult {
    let n = b.data.number as int;
    if c.len() == 0 && n == 0 {
        BlockAppendResult::Added
    } else if n == 0 {
        BlockAppendResult::Dropped
    } else if n > c.len() {
        BlockAppendResult::NeedSync(c.len() as u64)
    } else if b.data.prev_hash != c[n - 1].hash {
        BlockAppendResult::Dropped
    } else if n == c.len() {
        BlockAppendResult::Added
    } else if proposer_distance(b.proposer, c[n - 1].hash) < proposer_distance(
        c[n].proposer,
        c[n - 1].hash,
    ) {
        BlockAppendResult::NeedSync((n + 1) as u64)
    } else {
        BlockAppendResult::Dropped
    }
}

/// Offering a block to a well-formed chain leaves it well-formed.
pub proof fn lemma_append_step_wf(c: Seq<Block>, b: Block)
    requires
        chain_wf(c),
    ensures
        chain_wf(append_step(c, b)),
{
    let n = b.data.number as int;
    if c.len() == 0 && n == 0 {
        assert(chain_wf(seq![b]));
    } else if 1 <= n < c.len() && b.data.prev_hash == c[n - 1].hash && proposer_distance(
        b.proposer,
        c[n - 1].hash,
    ) < proposer_distance(c[n].proposer, c[n - 1].hash) {
        let r = c.take(n).push(b);
        assert forall|i: int| 0 <= i < r.len() implies (#[trigger] r[i]).data.number == i by {
            if i < n {
                assert(r[i] == c[i]);
            }
        }
        assert forall|i: int| 1 <= i < r.len() implies (#[trigger] r[i]).data.prev_hash == r[i
            - 1].hash by {
            if i < n {
                assert(r[i] == c[i] && r[i - 1] == c[i - 1]);
            } else {
                assert(r[i] == b && r[i - 1] == c[n - 1]);
            }
        }
    }
}

/// Law: chain linkage. In a well-formed chain — and every chain a store
/// reaches through any sequence of appends is well-formed — each block past
/// the genesis names the hash of its predecessor as `prev_hash`.
pub proof fn lemma_chain_linkage(c: Seq<Block>)
    requires
        chain_wf(c),
    ensures
        forall|i: int| 1 <= i < c.len() ==> (#[trigger] c[i]).data.prev_hash == c[i - 1].hash,
{
}

/// Law: offering the same block twice leaves the chain exactly as after
/// the first time; the redelivery is absorbed.
pub proof fn lemma_append_idempotent(c: Seq<Block>, b: Block)
    requires
        chain_wf(c),
    ensures
        append_step(append_step(c, b), b) == append_step(c, b),
{
    let n = b.data.number as int;
    let c1 = append_step(c, b);
    if c.len() == 0 && n == 0 {
        assert(c1 == seq![b]);
        assert(append_step(c1, b) == c1);
    } else if n == 0 || n > c.len() || b.data.prev_hash != c[n - 1].hash {
        assert(c1 == c);
    } else if n == c.len() {
        assert(c1 == c.push(b));
        assert(c1[n - 1] == c[n - 1]);
        assert(c1[n] == b);
        assert(append_step(c1, b) == c1);
    } else if proposer_distance(b.proposer, c[n - 1].hash) < proposer_distance(
        c[n].proposer,
        c[n - 1].hash,
    ) {
        assert(c1 == c.take(n).push(b));
        assert(c1[n - 1] == c[n - 1]);
        assert(c1[n] == b);
        assert(append_step(c1, b) == c1);
    } else {
        assert(c1 == c);
    }
}

/// Law: a redelivered block is never seated a second time; the second
/// offer is reported as dropped or, over a gap, as the same sync request.
pub proof fn lemma_append_redelivery_not_added(c: Seq<Block>, b: Block)
    requires
        chain_wf(c),
    ensures
        append_outcome(append_step(c, b), b) != BlockAppendResult::Added,
{
    let n = b.data.number as int;
    let c1 = append_step(c, b);
    if c.len() == 0 && n == 0 {
        assert(c1 == seq![b]);
    } else if n == 0 || n > c.len() || b.data.prev_hash != c[n - 1].hash {
        assert(c1 == c);
    } else if n == c.len() {
        assert(c1 == c.push(b));
        assert(c1[n - 1] == c[n - 1]);
        assert(c1[n] == b);
    } else if proposer_distance(b.proposer, c[n - 1].hash) < proposer_distance(
        c[n].proposer,
        c[n - 1].hash,
    ) {
        assert(c1 == c.take(n).push(b));
        assert(c1[n - 1] == c[n - 1]);
        assert(c1[n] == b);
    } else {
        assert(c1 == c);
    }
}

/// The two competing blocks in either order, the one with the strictly
/// smaller proposer distance first.
proof fn lemma_fork_choice_commutes_winner(c: Seq<Block>, bw: Block, bl: Block)
    requires
        chain_wf(c),
        bw.data.number == bl.data.number,
        1 <= bw.data.number <= c.len(),
        bw.data.prev_hash == c[bw.data.number - 1].hash,
        bl.data.prev_hash == c[bw.data.number - 1].hash,
        proposer_distance(bw.proposer, c[bw.data.number - 1].hash) < proposer_distance(
            bl.proposer,
            c[bw.data.number - 1].hash,
        ),
    ensures
        append_step(append_step(c, bw), bl) == append_step(append_step(c, bl), bw),
{
    let n = bw.data.number as int;
    let prev = c[n - 1].hash;
    if n == c.len() {
        let cw = c.push(bw);
        assert(append_step(c, bw) == cw);
        assert(cw[n - 1] == c[n - 1]);
        assert(cw[n] == bw);
        assert(append_step(cw, bl) == cw);
        let cl = c.push(bl);
        assert(append_step(c, bl) == cl);
        assert(cl[n - 1] == c[n - 1]);
        assert(cl[n] == bl);
        assert(append_step(cl, bw) == cl.take(n).push(bw));
        assert(cl.take(n).push(bw) =~= cw);
    } else {
        let di = proposer_distance(c[n].proposer, prev);
        let dw = proposer_distance(bw.proposer, prev);
        let dl = proposer_distance(bl.proposer, prev);
        if dw < di {
            let cw = c.take(n).push(bw);
            assert(append_step(c, bw) == cw);
            assert(cw[n - 1] == c[n - 1]);
            assert(cw[n] == bw);
            assert(append_step(cw, bl) == cw);
            if dl < di {
                let cl = c.take(n).push(bl);
                assert(append_step(c, bl) == cl);
                assert(cl[n - 1] == c[n - 1]);
                assert(cl[n] == bl);
                assert(append_step(cl, bw) == cl.take(n).push(bw));
                assert(cl.take(n).push(bw) =~= cw);
            } else {
                assert(append_step(c, bl) == c);
                assert(append_step(c, bw) == cw);
            }
        } else {
            assert(dl > dw >= di);
            assert(append_step(c, bw) == c);
            assert(append_step(c, bl) == c);
        }
    }
}

/// Law: fork choice is order independent. Two competing blocks at the same
/// height over the same predecessor, with distinct proposer distances,
/// leave the chain the same whichever arrives first; the one nearer the
/// predecessor hash wins. (With equal distances the incumbent is kept, so
/// the first arrival would win instead; such ties are excluded here.)
pub proof fn lemma_fork_choice_order_independent(c: Seq<Block>, b1: Block, b2: Block)
    requires
        chain_wf(c),
        b1.data.number == b2.data.number,
        1 <= b1.data.number <= c.len(),
        b1.data.prev_hash == c[b1.data.number - 1].hash,
        b2.data.prev_hash == c[b1.data.number - 1].hash,
        proposer_distance(b1.proposer, c[b1.data.number - 1].hash) != proposer_distance(
            b2.proposer,
            c[b1.data.number - 1].hash,
        ),
    ensures
        append_step(append_step(c, b1), b2) == append_step(append_step(c, b2), b1),
{
    let prev = c[b1.data.number - 1].hash;
    if proposer_distance(b1.proposer, prev) < proposer_distance(b2.proposer, prev) {
        lemma_fork_choice_commutes_winner(c, b1, b2);
    } else {
        lemma_fork_choice_commutes_winner(c, b2, b1);
    }
}

/// The sequence of all transactions in chain order.
pub open spec fn chain_transactions(c: Seq<Block>) -> Seq<Transaction>
    decreases c.len(),
{
    if c.len() == 0 {
        Seq::empty()
    } else {
        chain_transactions(c.drop_last()) + c.last().data.transactions@
    }
}

/// One transaction applied to a balance: credit the amount when the address
/// is the recipient (saturating at the top of `u64`), then debit it when the
/// address is the sender (saturating at zero).
pub open spec fn apply_transaction(bal: u64, tx: Transaction, address: B256) -> u64 {
    let credited: u64 = if tx.data.to == address {
        if bal + tx.data.amount > u64::MAX {
            u64::MAX
        } else {
            (bal + tx.data.amount) as u64
        }
    } else {
        bal
    };
    if tx.from == address {
        if credited >= tx.data.amount {
            (credited - tx.data.amount) as u64
        } else {
            0
        }
    } else {
        credited
    }
}

/// The balance of an address after a sequence of transactions, starting
/// from zero.
pub open spec fn balance_fold(txs: Seq<Transaction>, address: B256) -> u64
    decreases txs.len(),
{
    if txs.len() == 0 {
        0
    } else {
        apply_transaction(balance_fold(txs.drop_last(), address), txs.last(), address)
    }
}

/// The balance of an address derived from a chain: the linear scan over all
/// its transactions in chain order.
pub open spec fn balance_in_chain(c: Seq<Block>, address: B256) -> u64 {
    balance_fold(chain_transactions(c), address)
}

/// The sum of the amounts a sequence of transactions sends to an address.
pub open spec fn sum_credits(txs: Seq<Transaction>, address: B256) -> int
    decreases txs.len(),
{
    if txs.len() == 0 {
        0
    } else {
        sum_credits(txs.drop_last(), address) + if txs.last().data.to == address {
            txs.last().data.amount as int
        } else {
            0
        }
    }
}

pub proof fn lemma_sum_credits_nonneg(txs: Seq<Transaction>, address: B256)
    ensures
        sum_credits(txs, address) >= 0,
    decreases txs.len(),
{
    if txs.len() > 0 {
        lemma_sum_credits_nonneg(txs.drop_last(), address);
    }
}

/// Law: for an address that never appears as sender, the balance after a
/// sequence of transactions is exactly the sum of the amounts sent to it
/// (stated for sums that fit in `u64`; a larger sum saturates).
pub proof fn lemma_balance_credits_only(txs: Seq<Transaction>, address: B256)
    requires
        forall|i: int| 0 <= i < txs.len() ==> (#[trigger] txs[i]).from != address,
        sum_credits(txs, address) <= u64::MAX,
    ensures
        balance_fold(txs, address) == sum_credits(txs, address),
    decreases txs.len(),
{
    if txs.len() > 0 {
        let dl = txs.drop_last();
        assert(txs[txs.len() - 1].from != address);
        assert forall|i: int| 0 <= i < dl.len() implies (#[trigger] dl[i]).from != address by {
            assert(dl[i] == txs[i]);
        }
        lemma_sum_credits_nonneg(dl, address);
        lemma_balance_credits_only(dl, address);
    }
}

/// Append-only store of the chain: blocks held directly, indexed by their
/// height. Blocks reference one another by hash, so the store is a line of
/// immutable values; truncating it discards every block past the cut.
#[derive(Debug)]
pub struct Blocks {
    chain: Vec<Block>,
}

impl View for Blocks {
    type V = Seq<Block>;

    closed spec fn view(&self) -> Seq<Block> {
        self.chain@
    }
}

impl Default for Blocks {
    /// An empty store: no genesis seated yet.
    fn default() -> (r: Blocks)
        ensures
            r@ == Seq::<Block>::empty(),
    {
        Blocks { chain: Vec::new() }
    }
}

impl Blocks {
    /// Push a block on the tip without fork choice, preserving
    /// well-formedness; the caller guarantees height and linkage.
    pub fn append_unchecked(&mut self, block: Block)
        requires
            chain_wf(old(self)@),
            block.data.number == old(self)@.len(),
            old(self)@.len() > 0 ==> block.data.prev_hash == old(self)@.last().hash,
        ensures
            final(self)@ == old(self)@.push(block),
            chain_wf(final(self)@),
    {
        self.chain.push(block);
        proof {
            let c = old(self)@;
            let r = self@;
            assert forall|i: int| 1 <= i < r.len() implies (#[trigger] r[i]).data.prev_hash == r[i
                - 1].hash by {
                if i < c.len() {
                    assert(r[i] == c[i] && r[i - 1] == c[i - 1]);
                } else {
                    assert(r[i] == block && i - 1 == c.len() - 1);
                }
            }
        }
    }

    /// The fork-choice kernel: seat a genesis on an empty chain, extend the
    /// tip, ask for a sync on a gap, replace a fork-choice loser, or drop
    /// the block. The new chain is `append_step` of the old, the outcome
    /// `append_outcome`.
    ///
    /// When a replacement truncates the chain, transactions seated only in
    /// the discarded blocks vanish from the balance view and are not
    /// re-queued anywhere; callers that want them back must collect them
    /// from the old chain themselves.
    pub fn append(&mut self, block: Block) -> (r: BlockAppendResult)
        requires
            chain_wf(old(self)@),
        ensures
            final(self)@ == append_step(old(self)@, block),
            r == append_outcome(old(self)@, block),
            chain_wf(final(self)@),
    {
        proof {
            lemma_append_step_wf(old(self)@, block);
        }
        let new_block_number = block.data.number;
        let height = self.chain.len();
        if height == 0 && new_block_number == 0 {
            self.append_unchecked(block);
            return BlockAppendResult::Added;
        }
        if new_block_number == 0 {
            return BlockAppendResult::Dropped;
        }
        if new_block_number > height as u64 {
            return BlockAppendResult::NeedSync(height as u64);
        }
        let idx = (new_block_number - 1) as usize;
        let prev_block_hash = self.chain[idx].hash;
        if !(block.data.prev_hash == prev_block_hash) {
            return BlockAppendResult::Dropped;
        }
        if new_block_number == height as u64 {
            self.append_unchecked(block);
            return BlockAppendResult::Added;
        }
        let current = &self.chain[new_block_number as usize];
        let current_distance = current.proposer.distance(&prev_block_hash);
        let new_distance = block.proposer.distance(&prev_block_hash);
        if new_distance.less_than(&current_distance) {
            self.chain.truncate(new_block_number as usize);
            proof {
                assert(self@ =~= old(self)@.take(new_block_number as int));
            }
            self.append_unchecked(block);
            return BlockAppendResult::NeedSync(new_block_number + 1);
        }
        BlockAppendResult::Dropped
    }

    /// The block at the given height, if the chain is that tall.
    pub fn data_by_number(&self, number: u64) -> (out: Option<&Block>)
        ensures
            match out {
                Some(b) => number < self@.len() && *b == self@[number as int],
                None => number >= self@.len(),
            },
    {
        if number < self.chain.len() as u64 {
            Some(&self.chain[number as usize])
        } else {
            None
        }
    }

    /// The number of blocks seated, which is one more than the tip height.
    pub fn height(&self) -> (r: usize)
        ensures
            r == self@.len(),
    {
        self.chain.len()
    }

    /// The balance of an address: scan all chain transactions in order,
    /// crediting receipts and debiting (saturating at zero) spends.
    pub fn balance_of(&self, address: B256) -> (r: u64)
        ensures
            r == balance_in_chain(self@, address),
    {
        let mut balance: u64 = 0;
        let mut i: usize = 0;
        while i < self.chain.len()
            invariant
                0 <= i <= self@.len(),
                balance == balance_fold(chain_transactions(self@.take(i as int)), address),
            decreases self@.len() - i,
        {
            let transactions = &self.chain[i].data.transactions;
            let mut j: usize = 0;
            while j < transactions.len()
                invariant
                    0 <= i < self@.len(),
                    0 <= j <= transactions@.len(),
                    transactions@ == self@[i as int].data.transactions@,
                    balance == balance_fold(
                        chain_transactions(self@.take(i as int)) + transactions@.take(j as int),
                        address,
                    ),
                decreases transactions@.len() - j,
            {
                let ghost pre = chain_transactions(self@.take(i as int)) + transactions@.take(
                    j as int,
                );
                let tx = &transactions[j];
                if tx.data.to == address {
                    balance = balance.saturating_add(tx.data.amount);
                }
                if tx.from == address {
                    balance = balance.saturating_sub(tx.data.amount);
                }
                proof {
                    let post = chain_transactions(self@.take(i as int)) + transactions@.take(
                        j as int + 1,
                    );
                    assert(post.drop_last() =~= pre);
                    assert(post.last() == transactions@[j as int]);
                    assert(balance == apply_transaction(balance_fold(pre, address), *tx, address));
                }
                j = j + 1;
            }
            proof {
                let c = self@;
                assert(c.take(i as int + 1).drop_last() =~= c.take(i as int));
                assert(c.take(i as int + 1).last() == c[i as int]);
                assert(transactions@.take(transactions@.len() as int) =~= transactions@);
            }
            i = i + 1;
        }
        proof {
            assert(self@.take(self@.len() as int) =~= self@);
        }
        balance
    }
}

} // verus!
