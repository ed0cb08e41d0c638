use simple_ledger::{
    Block, BlockData, Message, Node, Outbound, SecretKey, Transaction, TransactionData,
    SocketAddress, WirePayload, B256,
};

fn socket(port: u16) -> SocketAddress {
    SocketAddress { ip: 0x7f000001, v6: false, port }
}

fn node(key_byte: u8, name: &str, port: u16) -> Node {
    Node::new(SecretKey([key_byte; 32]), name.to_string(), socket(port)).expect("valid key")
}

fn sent_messages(out: &[Outbound]) -> Vec<(SocketAddress, &Message)> {
    let mut found = Vec::new();
    for o in out {
        if let WirePayload::Message(m) = &o.payload {
            found.push((o.dest, m));
        }
    }
    found
}

fn first_block_message(out: &[Outbound]) -> Block {
    for o in out {
        if let WirePayload::Message(Message::Block(b)) = &o.payload {
            return b.clone();
        }
    }
    panic!("no block message in the outbound datagrams");
}

#[test]
fn two_node_bootstrap_directories_hold_each_other() {
    let mut a = node(7, "a", 9000);
    let mut b = node(8, "b", 9001);

    // B greets A on startup; the test likewise hands A's record to B, as
    // when each node is started with the other as its bootstrap peer.
    let out_a = a.process_message(Message::Hello(b.info.clone()));
    let out_b = b.process_message(Message::Hello(a.info.clone()));

    assert_eq!(a.peers.len(), 1);
    assert_eq!(a.peers[0].address, b.info.address);
    assert_eq!(b.peers.len(), 1);
    assert_eq!(b.peers[0].address, a.info.address);

    // A novel peer is forwarded to every *other* peer; neither node knew
    // any other peer beforehand, so nothing is sent, and in particular the
    // newcomer is not greeted back with its own record.
    assert!(sent_messages(&out_a).is_empty());
    assert!(sent_messages(&out_b).is_empty());
}

#[test]
fn novel_hello_is_forwarded_to_every_other_peer() {
    let mut a = node(7, "a", 9000);
    let b = node(8, "b", 9001);
    let c = node(9, "c", 9002);
    a.process_message(Message::Hello(b.info.clone()));

    // C is novel, so A forwards C's hello to B — and only to B.
    let out = a.process_message(Message::Hello(c.info.clone()));
    let msgs = sent_messages(&out);
    assert_eq!(msgs.len(), 1);
    assert_eq!(msgs[0].0, b.info.socket);
    assert!(matches!(msgs[0].1, Message::Hello(info) if info.address == c.info.address));
    assert_eq!(a.peers.len(), 2);
}

#[test]
fn hello_of_known_peer_is_absorbed_silently() {
    let mut a = node(7, "a", 9000);
    let b = node(8, "b", 9001);
    a.process_message(Message::Hello(b.info.clone()));
    let out = a.process_message(Message::Hello(b.info.clone()));
    assert!(out.is_empty());
    assert_eq!(a.peers.len(), 1);
}

#[test]
fn transaction_propagates_and_chains_converge() {
    let mut a = node(7, "a", 9000);
    let mut b = node(8, "b", 9001);
    a.process_message(Message::Hello(b.info.clone()));
    b.process_message(Message::Hello(a.info.clone()));

    // A zero-amount transfer is within the zero starting balance.
    let client = SecretKey([0x2a; 32]);
    let b_user = B256([0xbb; 32]);
    let tx = Transaction::new(TransactionData { to: b_user, amount: 0 }, &client).unwrap();

    let out = a.process_message(Message::Transaction(tx));
    // The transaction is rebroadcast to B, then the proposed block follows.
    let msgs = sent_messages(&out);
    assert_eq!(msgs.len(), 2);
    assert!(matches!(msgs[0].1, Message::Transaction(_)));
    let block = first_block_message(&out);
    assert_eq!(block.data.number, 1);
    assert_eq!(block.data.transactions.len(), 1);

    let out_b = b.process_message(Message::Block(block));
    // B seats the block and gossips it onward.
    assert_eq!(sent_messages(&out_b).len(), 1);
    assert_eq!(a.blocks.height(), 2);
    assert_eq!(b.blocks.height(), 2);
    assert_eq!(
        a.blocks.data_by_number(1).unwrap().hash,
        b.blocks.data_by_number(1).unwrap().hash
    );
}

#[test]
fn pending_transaction_redelivery_changes_nothing() {
    let mut a = node(7, "a", 9000);
    let b = node(8, "b", 9001);
    a.process_message(Message::Hello(b.info.clone()));

    let client = SecretKey([0x2a; 32]);
    let tx = Transaction::new(TransactionData { to: B256([0xbb; 32]), amount: 0 }, &client)
        .unwrap();
    a.pending.push(tx);
    let height = a.blocks.height();

    // The redelivered transaction refreshes its pool entry and nothing
    // else: no gossip, no proposal.
    let out = a.process_message(Message::Transaction(tx));
    assert!(out.is_empty());
    assert_eq!(a.pending.len(), 1);
    assert_eq!(a.blocks.height(), height);
}

#[test]
fn forged_transaction_is_dropped_and_not_rebroadcast() {
    let mut a = node(7, "a", 9000);
    let b = node(8, "b", 9001);
    a.process_message(Message::Hello(b.info.clone()));

    let client = SecretKey([0x2a; 32]);
    let mut tx = Transaction::new(TransactionData { to: B256([0xbb; 32]), amount: 0 }, &client)
        .unwrap();
    tx.from = B256([0xee; 32]);

    let out = a.process_message(Message::Transaction(tx));
    assert!(out.is_empty());
    assert_eq!(a.blocks.height(), 1);
    assert_eq!(a.pending.len(), 0);
}

#[test]
fn overdrawn_transaction_is_dropped() {
    let mut a = node(7, "a", 9000);
    let client = SecretKey([0x2a; 32]);
    let tx = Transaction::new(TransactionData { to: B256([0xbb; 32]), amount: 1 }, &client)
        .unwrap();
    // The sender's balance is zero, so a transfer of 1 is rejected.
    let out = a.process_message(Message::Transaction(tx));
    assert!(out.is_empty());
    assert_eq!(a.pending.len(), 0);
    assert_eq!(a.blocks.height(), 1);
}

#[test]
fn balance_query_answers_with_bare_balance() {
    let mut a = node(7, "a", 9000);
    let alice = B256([0xa1; 32]);
    let client_socket = socket(9100);

    // Seat a block crediting alice with 5.
    let tip = a.blocks.data_by_number(0).unwrap().hash;
    let credit = Transaction {
        hash: B256([10; 32]),
        from: B256([0xb0; 32]),
        data: TransactionData { to: alice, amount: 5 },
        signature: simple_ledger::Signature {
            r: B256([0; 32]),
            s: B256([0; 32]),
            recovery_id: 0,
        },
    };
    a.blocks.append_unchecked(Block {
        hash: B256([2; 32]),
        data: BlockData { prev_hash: tip, number: 1, transactions: vec![credit] },
        proposer: B256([5; 32]),
        signature: simple_ledger::Signature {
            r: B256([0; 32]),
            s: B256([0; 32]),
            recovery_id: 0,
        },
    });

    let out = a.process_message(Message::BalanceOf(client_socket, alice));
    assert_eq!(out.len(), 1);
    assert_eq!(out[0].dest, client_socket);
    assert!(matches!(out[0].payload, WirePayload::Balance(5)));
}

#[test]
fn sync_fills_gap_and_tips_match() {
    let proposer = SecretKey([7; 32]);
    let mut a = node(7, "a", 9000);
    let mut b = node(8, "b", 9001);
    a.process_message(Message::Hello(b.info.clone()));
    b.process_message(Message::Hello(a.info.clone()));

    // Build five signed blocks extending the shared genesis.
    let mut chain = Vec::new();
    let mut prev = a.blocks.data_by_number(0).unwrap().hash;
    for number in 1..=5u64 {
        let block = Block::new(
            BlockData { prev_hash: prev, number, transactions: Vec::new() },
            &proposer,
        )
        .unwrap();
        prev = block.hash;
        chain.push(block);
    }
    for block in &chain {
        a.blocks.append_unchecked(block.clone());
    }
    for block in chain.iter().take(2) {
        b.blocks.append_unchecked(block.clone());
    }
    assert_eq!(a.blocks.height(), 6);
    assert_eq!(b.blocks.height(), 3);

    // B learns of A's tip block (height 5) by gossip and asks for a sync.
    let out = b.process_message(Message::Block(chain[4].clone()));
    let msgs = sent_messages(&out);
    assert_eq!(msgs.len(), 1);
    let (dest, msg) = (msgs[0].0, msgs[0].1);
    assert_eq!(dest, a.info.socket);
    let (requester, start) = match msg {
        Message::SyncBlock(requester, start) => (*requester, *start),
        _ => panic!("a gap should trigger a sync request"),
    };
    assert_eq!(requester, b.info.address);
    assert_eq!(start, 3);

    // A streams the missing blocks back as bare block datagrams.
    let replies = a.process_message(Message::SyncBlock(requester, start));
    assert_eq!(replies.len(), 3);
    for reply in &replies {
        assert_eq!(reply.dest, b.info.socket);
        let block = match &reply.payload {
            WirePayload::Block(block) => block.clone(),
            _ => panic!("sync replies are bare blocks"),
        };
        b.process_message(Message::Block(block));
    }
    assert_eq!(b.blocks.height(), 6);
    assert_eq!(
        a.blocks.data_by_number(5).unwrap().hash,
        b.blocks.data_by_number(5).unwrap().hash
    );
}

#[test]
fn sync_request_from_unknown_peer_is_ignored() {
    let mut a = node(7, "a", 9000);
    let out = a.process_message(Message::SyncBlock(B256([0xee; 32]), 0));
    assert!(out.is_empty());
}

#[test]
fn own_block_echo_is_discarded() {
    let mut a = node(7, "a", 9000);
    let client = SecretKey([0x2a; 32]);
    let tx = Transaction::new(TransactionData { to: B256([0xbb; 32]), amount: 0 }, &client)
        .unwrap();
    let out = a.process_message(Message::Transaction(tx));
    assert!(out.is_empty()); // no peers yet, so nothing to send
    assert_eq!(a.blocks.height(), 2);

    // The node's own proposal coming back must not be re-appended; offering
    // a copy with the node's own proposer identity is dropped outright.
    let own = a.blocks.data_by_number(1).unwrap().clone();
    let out = a.process_message(Message::Block(own));
    assert!(out.is_empty());
    assert_eq!(a.blocks.height(), 2);
}

#[test]
fn nodes_share_a_deterministic_genesis() {
    let a = node(7, "a", 9000);
    let b = node(8, "b", 9001);
    let ga = a.blocks.data_by_number(0).unwrap();
    let gb = b.blocks.data_by_number(0).unwrap();
    assert_eq!(ga.hash, gb.hash);
    assert_eq!(ga.data.number, 0);
    assert_eq!(ga.data.prev_hash, B256([0; 32]));
    assert_eq!(ga.hash, B256::hash_of(&[0u8; 32]));
}
