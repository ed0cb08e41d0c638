use simple_ledger::{
    Block, BlockAppendResult, BlockData, Blocks, Signature, Transaction, TransactionData, B256,
};

fn zero_signature() -> Signature {
    Signature { r: B256([0; 32]), s: B256([0; 32]), recovery_id: 0 }
}

fn bare_block(hash: u8, prev_hash: B256, number: u64, proposer: B256) -> Block {
    Block {
        hash: B256([hash; 32]),
        data: BlockData { prev_hash, number, transactions: Vec::new() },
        proposer,
        signature: zero_signature(),
    }
}

fn bare_transaction(hash: u8, from: B256, to: B256, amount: u64) -> Transaction {
    Transaction {
        hash: B256([hash; 32]),
        from,
        data: TransactionData { to, amount },
        signature: zero_signature(),
    }
}

fn genesis() -> Block {
    bare_block(1, B256([0; 32]), 0, B256([0; 32]))
}

#[test]
fn distance_is_absolute_difference() {
    let mut five = [0u8; 32];
    five[31] = 5;
    let mut three = [0u8; 32];
    three[31] = 3;
    let mut two = [0u8; 32];
    two[31] = 2;
    assert_eq!(B256(five).distance(&B256(three)).0, two);
    assert_eq!(B256(three).distance(&B256(five)).0, two);
}

#[test]
fn distance_borrows_across_bytes() {
    let mut a = [0u8; 32];
    a[30] = 1; // 256
    let mut b = [0u8; 32];
    b[31] = 1; // 1
    let mut expected = [0u8; 32];
    expected[31] = 255; // 255
    assert_eq!(B256(a).distance(&B256(b)).0, expected);
}

#[test]
fn less_than_orders_big_endian() {
    let mut small = [0u8; 32];
    small[31] = 3;
    let mut large = [0u8; 32];
    large[0] = 1;
    assert!(B256(small).less_than(&B256(large)));
    assert!(!B256(large).less_than(&B256(small)));
    assert!(!B256(small).less_than(&B256(small)));
}

#[test]
fn append_seats_genesis_then_rejects_duplicate() {
    let mut blocks = Blocks::default();
    assert!(matches!(blocks.append(genesis()), BlockAppendResult::Added));
    assert!(matches!(
        blocks.append(bare_block(2, B256([0; 32]), 0, B256([0; 32]))),
        BlockAppendResult::Dropped
    ));
    assert_eq!(blocks.height(), 1);
}

#[test]
fn append_gap_requests_sync_from_current_height() {
    let mut blocks = Blocks::default();
    blocks.append(genesis());
    let far = bare_block(9, B256([1; 32]), 3, B256([0; 32]));
    match blocks.append(far) {
        BlockAppendResult::NeedSync(start) => assert_eq!(start, 1),
        _ => panic!("a block past the tip should request a sync"),
    }
    assert_eq!(blocks.height(), 1);
}

#[test]
fn append_extends_tip_and_rejects_orphan() {
    let mut blocks = Blocks::default();
    let g = genesis();
    let g_hash = g.hash;
    blocks.append(g);
    let child = bare_block(2, g_hash, 1, B256([5; 32]));
    assert!(matches!(blocks.append(child), BlockAppendResult::Added));
    let orphan = bare_block(3, B256([0xaa; 32]), 2, B256([5; 32]));
    assert!(matches!(blocks.append(orphan), BlockAppendResult::Dropped));
    assert_eq!(blocks.height(), 2);
}

#[test]
fn append_same_block_twice_changes_nothing() {
    let mut blocks = Blocks::default();
    let g = genesis();
    let g_hash = g.hash;
    blocks.append(g);
    let child = bare_block(2, g_hash, 1, B256([5; 32]));
    assert!(matches!(blocks.append(child.clone()), BlockAppendResult::Added));
    assert!(matches!(blocks.append(child), BlockAppendResult::Dropped));
    assert_eq!(blocks.height(), 2);
    assert_eq!(blocks.data_by_number(1).unwrap().hash, B256([2; 32]));
}

#[test]
fn fork_choice_picks_nearer_proposer_in_either_order() {
    // Both competitors extend the genesis; the proposer nearer the
    // predecessor hash must win whichever arrives first.
    let g = genesis();
    let g_hash = g.hash;
    let near = bare_block(2, g_hash, 1, g_hash); // distance 0
    let far = bare_block(3, g_hash, 1, B256([0; 32]));

    let mut first = Blocks::default();
    first.append(g.clone());
    assert!(matches!(first.append(near.clone()), BlockAppendResult::Added));
    assert!(matches!(first.append(far.clone()), BlockAppendResult::Dropped));

    let mut second = Blocks::default();
    second.append(g);
    assert!(matches!(second.append(far), BlockAppendResult::Added));
    match second.append(near) {
        BlockAppendResult::NeedSync(start) => assert_eq!(start, 2),
        _ => panic!("the nearer proposer should replace the incumbent"),
    }

    assert_eq!(first.data_by_number(1).unwrap().hash, B256([2; 32]));
    assert_eq!(second.data_by_number(1).unwrap().hash, B256([2; 32]));
    assert_eq!(first.height(), 2);
    assert_eq!(second.height(), 2);
}

#[test]
fn fork_choice_replacement_truncates_longer_chain() {
    let g = genesis();
    let g_hash = g.hash;
    let far = bare_block(3, g_hash, 1, B256([0; 32]));
    let far_child = bare_block(4, B256([3; 32]), 2, B256([0; 32]));
    let near = bare_block(2, g_hash, 1, g_hash);

    let mut blocks = Blocks::default();
    blocks.append(g);
    blocks.append(far);
    blocks.append(far_child);
    assert_eq!(blocks.height(), 3);
    match blocks.append(near) {
        BlockAppendResult::NeedSync(start) => assert_eq!(start, 2),
        _ => panic!("the nearer proposer should replace the incumbent"),
    }
    assert_eq!(blocks.height(), 2);
    assert_eq!(blocks.data_by_number(1).unwrap().hash, B256([2; 32]));
    assert!(blocks.data_by_number(2).is_none());
}

#[test]
fn balance_sums_credits_for_pure_recipient() {
    let alice = B256([0xa1; 32]);
    let bob = B256([0xb0; 32]);
    let mut g = genesis();
    g.data.transactions.push(bare_transaction(10, bob, alice, 3));
    g.data.transactions.push(bare_transaction(11, bob, alice, 4));
    let mut blocks = Blocks::default();
    blocks.append(g);
    assert_eq!(blocks.balance_of(alice), 7);
}

#[test]
fn balance_debit_saturates_at_zero() {
    let alice = B256([0xa1; 32]);
    let bob = B256([0xb0; 32]);
    let carol = B256([0xc0; 32]);
    let mut g = genesis();
    g.data.transactions.push(bare_transaction(10, bob, alice, 5));
    g.data.transactions.push(bare_transaction(11, alice, carol, 10));
    g.data.transactions.push(bare_transaction(12, bob, alice, 2));
    let mut blocks = Blocks::default();
    blocks.append(g);
    // 0 + 5, then a debit of 10 saturating at 0, then + 2.
    assert_eq!(blocks.balance_of(alice), 2);
    assert_eq!(blocks.balance_of(carol), 10);
}

#[test]
fn balance_scans_blocks_in_chain_order() {
    let alice = B256([0xa1; 32]);
    let bob = B256([0xb0; 32]);
    let g = genesis();
    let g_hash = g.hash;
    let mut child = bare_block(2, g_hash, 1, B256([5; 32]));
    child.data.transactions.push(bare_transaction(10, bob, alice, 8));
    let mut grandchild = bare_block(3, B256([2; 32]), 2, B256([5; 32]));
    grandchild.data.transactions.push(bare_transaction(11, alice, bob, 3));
    let mut blocks = Blocks::default();
    blocks.append(g);
    blocks.append(child);
    blocks.append(grandchild);
    assert_eq!(blocks.balance_of(alice), 5);
    assert_eq!(blocks.balance_of(bob), 3);
}

#[test]
fn data_by_number_returns_seated_blocks() {
    let mut blocks = Blocks::default();
    let g = genesis();
    let g_hash = g.hash;
    blocks.append(g);
    blocks.append(bare_block(2, g_hash, 1, B256([5; 32])));
    assert_eq!(blocks.data_by_number(0).unwrap().hash, B256([1; 32]));
    assert_eq!(blocks.data_by_number(1).unwrap().hash, B256([2; 32]));
    assert!(blocks.data_by_number(2).is_none());
}
