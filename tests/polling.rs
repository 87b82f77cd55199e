use cape_eqs::ledger::{
    EthereumAddr, LedgerEvent, QueryResultState, ReceiverMemo, Transition, TransitionKind, TxnHash,
};
use cape_eqs::merkle::{FieldElem, RecordsTree};
use cape_eqs::polling::{BlockWithMemos, ChainEvent, EthPolling, EventError, MemoBundle, StartupError};

fn fe(x: u64) -> FieldElem {
    FieldElem::from_u64(x)
}

fn h3(a: FieldElem, b: FieldElem, c: FieldElem) -> FieldElem {
    let mix = |x: u64, y: u64, z: u64, k: u64| {
        x.wrapping_mul(0x9E37_79B9_7F4A_7C15)
            .rotate_left(17)
            .wrapping_add(y.wrapping_mul(0xC2B2_AE3D_27D4_EB4F))
            .rotate_left(31)
            .wrapping_add(z.wrapping_mul(0x1656_67B1_9E37_79F9))
            .wrapping_add(k)
    };
    FieldElem {
        l0: mix(a.l0, b.l0, c.l0, 1),
        l1: mix(a.l1, b.l1, c.l1, 2) ^ a.l0,
        l2: mix(a.l2, b.l2, c.l2, 3) ^ b.l0,
        l3: mix(a.l3, b.l3, c.l3, 4) ^ c.l0,
    }
}

fn hash_id(x: u64) -> TxnHash {
    TxnHash { h0: x, h1: 0, h2: 0, h3: 0 }
}

fn addr(x: u64) -> EthereumAddr {
    EthereumAddr { hi: x, mid: 0, lo: 0 }
}

fn txn(id: u64, nullifiers: Vec<u64>, outputs: Vec<u64>) -> Transition {
    Transition::Transaction {
        kind: TransitionKind::Send,
        nullifiers: nullifiers.into_iter().map(fe).collect(),
        outputs: outputs.into_iter().map(fe).collect(),
        hash: hash_id(id),
    }
}

fn memo(x: u8) -> ReceiverMemo {
    ReceiverMemo { data: vec![x, x, x] }
}

fn bundle(n: usize, sig_valid: bool) -> MemoBundle {
    MemoBundle { memos: (0..n).map(|i| memo(i as u8)).collect(), sig_valid }
}

fn poller() -> EthPolling {
    EthPolling::new(QueryResultState::new(3), None, true).unwrap()
}

fn leaves(p: &EthPolling) -> u64 {
    p.query_result_state.ledger_state.record_merkle_commitment.num_leaves
}

#[test]
fn mismatched_txn_and_memo_counts_is_fatal() {
    let mut p = poller();
    let block = BlockWithMemos { txns: vec![txn(1, vec![11], vec![21]), txn(2, vec![12], vec![22])], memos: vec![bundle(1, true)] };
    let r = p.process_block_committed(5, block, &h3);
    assert_eq!(r, Err(EventError::MemoCountMismatch { num_txns: 2, num_memos: 1 }));
    assert_eq!(p.last_updated_block_height(), 0);
    assert!(p.query_result_state.events.is_empty());
    assert_eq!(leaves(&p), 0);
}

#[test]
fn invalid_memo_signature_still_commits() {
    let mut p = poller();
    let block = BlockWithMemos { txns: vec![txn(1, vec![11, 12], vec![21, 22])], memos: vec![bundle(2, false)] };
    assert_eq!(p.process_block_committed(7, block, &h3), Ok(true));
    let s = &p.query_result_state;
    assert!(s.nullifiers.contains(&fe(11)));
    assert!(s.nullifiers.contains(&fe(12)));
    assert_eq!(leaves(&p), 2);
    assert_eq!(s.events.len(), 1);
    assert!(matches!(s.events[0], LedgerEvent::Commit { block_id: 7, state_comm: 8, .. }));
    assert_eq!(s.transaction_by_id.len(), 1);
    assert_eq!(s.transaction_by_id[0].output_start, 0);
    assert_eq!(s.transaction_by_id[0].output_size, 2);
}

#[test]
fn valid_memos_become_memo_events_after_commit() {
    let mut p = poller();
    let block = BlockWithMemos {
        txns: vec![txn(1, vec![11], vec![21, 22]), txn(2, vec![12], vec![23]), txn(3, vec![], vec![24])],
        memos: vec![bundle(2, true), bundle(1, false), bundle(1, true)],
    };
    assert_eq!(p.process_block_committed(4, block, &h3), Ok(true));
    let s = &p.query_result_state;
    assert_eq!(s.events.len(), 3);
    assert!(matches!(s.events[0], LedgerEvent::Commit { block_id: 4, .. }));
    match &s.events[1] {
        LedgerEvent::Memos { outputs, transaction } => {
            assert_eq!(*transaction, Some((4, 0, TransitionKind::Send)));
            assert_eq!(outputs.len(), 2);
            assert_eq!(outputs[0].commitment, fe(21));
            assert_eq!(outputs[0].uid, 0);
            assert_eq!(outputs[1].commitment, fe(22));
            assert_eq!(outputs[1].uid, 1);
            assert_eq!(outputs[1].memo.data, vec![1, 1, 1]);
            assert_eq!(outputs[0].path.nodes.len(), 3);
        }
        _ => panic!("expected memos"),
    }
    match &s.events[2] {
        LedgerEvent::Memos { outputs, transaction } => {
            assert_eq!(*transaction, Some((4, 2, TransitionKind::Send)));
            assert_eq!(outputs.len(), 1);
            assert_eq!(outputs[0].commitment, fe(24));
            assert_eq!(outputs[0].uid, 3);
        }
        _ => panic!("expected memos"),
    }
    assert_eq!(s.ledger_state.state_number, 1);
    assert_eq!(s.transaction_by_id[2].output_start, 3);
    assert_eq!(s.transaction_id_by_hash[1], (hash_id(2), (4, 1)));
}

#[test]
fn wrap_deferred_to_next_block() {
    let mut p = poller();
    let wrap = Transition::Wrap { output: fe(90), erc20_code: addr(1), src_addr: addr(2), hash: hash_id(9) };
    assert_eq!(p.handle_event(ChainEvent::Erc20TokensDeposited { wrap }, &h3), Ok(false));
    // No block yet: the tree is as it was.
    assert_eq!(leaves(&p), 0);
    assert_eq!(p.pending_commit_event.len(), 1);
    assert!(p.query_result_state.events.is_empty());

    let block = BlockWithMemos { txns: vec![txn(1, vec![11], vec![21, 22])], memos: vec![bundle(2, true)] };
    let ev = ChainEvent::BlockCommitted { block_height: 3, block };
    assert_eq!(p.handle_event(ev, &h3), Ok(true));
    assert_eq!(leaves(&p), 3);
    assert!(p.pending_commit_event.is_empty());
    let s = &p.query_result_state;
    // The wrap comes after the block's own transaction, and so does its output.
    assert_eq!(s.transaction_by_id.len(), 2);
    assert_eq!(s.transaction_by_id[1].txn_id, 1);
    assert_eq!(s.transaction_by_id[1].output_start, 2);
    assert_eq!(s.transaction_by_id[1].output_size, 1);
    match &s.events[0] {
        LedgerEvent::Commit { block, .. } => {
            assert_eq!(block.len(), 2);
            assert_eq!(block[1].kind(), TransitionKind::Wrap);
        }
        _ => panic!("expected commit"),
    }

    // The tree is the one built by inserting 21, 22, then 90.
    let mut reference = RecordsTree::new(3);
    for x in [21, 22, 90] {
        reference.push(fe(x), &h3).unwrap();
    }
    assert_eq!(s.ledger_state.record_merkle_commitment, reference.commitment());
}

#[test]
fn old_height_changes_nothing() {
    let mut p = poller();
    let b1 = BlockWithMemos { txns: vec![txn(1, vec![11], vec![21])], memos: vec![bundle(1, true)] };
    assert_eq!(p.process_block_committed(10, b1, &h3), Ok(true));
    assert_eq!(p.last_updated_block_height(), 10);
    let events = p.query_result_state.events.len();
    for h in [3, 10] {
        let b = BlockWithMemos { txns: vec![txn(2, vec![12], vec![22])], memos: vec![bundle(1, true)] };
        assert_eq!(p.process_block_committed(h, b, &h3), Ok(false));
    }
    assert_eq!(p.last_updated_block_height(), 10);
    assert_eq!(p.query_result_state.events.len(), events);
    assert!(!p.query_result_state.nullifiers.contains(&fe(12)));
    let b = BlockWithMemos { txns: vec![], memos: vec![] };
    assert_eq!(p.process_block_committed(11, b, &h3), Ok(true));
    assert_eq!(p.last_updated_block_height(), 11);
}

#[test]
fn heights_never_go_back_and_nullifiers_stay() {
    let mut p = poller();
    let mut last = 0;
    for (h, n) in [(2u64, 1u64), (1, 2), (5, 3), (5, 4), (9, 5)] {
        let b = BlockWithMemos { txns: vec![txn(n, vec![100 + n], vec![200 + n])], memos: vec![bundle(1, true)] };
        let r = p.process_block_committed(h, b, &h3).unwrap();
        let now = p.last_updated_block_height();
        assert!(now >= last);
        assert_eq!(r, now > last);
        last = now;
    }
    for n in [1u64, 3, 5] {
        assert!(p.query_result_state.nullifiers.contains(&fe(100 + n)));
    }
    assert!(!p.query_result_state.nullifiers.contains(&fe(102)));
}

#[test]
fn commit_event_precedes_its_memos() {
    let mut p = poller();
    for h in 1..4u64 {
        let b = BlockWithMemos { txns: vec![txn(h, vec![h], vec![10 + h])], memos: vec![bundle(1, true)] };
        p.process_block_committed(h, b, &h3).unwrap();
    }
    let events = &p.query_result_state.events;
    for (j, e) in events.iter().enumerate() {
        if let LedgerEvent::Memos { transaction: Some((h, _, _)), .. } = e {
            assert!(events[..j].iter().any(|c| matches!(c, LedgerEvent::Commit { block_id, .. } if block_id == h)));
        }
    }
}

#[test]
fn faucet_record_goes_straight_into_the_tree() {
    let mut p = poller();
    let ev = ChainEvent::FaucetInitialized { commitment: fe(42), memo: memo(7) };
    assert_eq!(p.handle_event(ev, &h3), Ok(false));
    assert_eq!(leaves(&p), 1);
    assert_eq!(p.last_updated_block_height(), 0);
    match &p.query_result_state.events[0] {
        LedgerEvent::Memos { outputs, transaction } => {
            assert!(transaction.is_none());
            assert_eq!(outputs.len(), 1);
            assert_eq!(outputs[0].commitment, fe(42));
            assert_eq!(outputs[0].uid, 0);
        }
        _ => panic!("expected memos"),
    }
}

#[test]
fn block_overflowing_the_tree_is_refused() {
    let mut p = EthPolling::new(QueryResultState::new(1), None, true).unwrap();
    let b = BlockWithMemos { txns: vec![txn(1, vec![1], vec![1, 2, 3, 4])], memos: vec![bundle(4, true)] };
    assert_eq!(p.process_block_committed(1, b, &h3), Err(EventError::TreeFull));
    assert_eq!(leaves(&p), 0);
    assert_eq!(p.last_updated_block_height(), 0);
    let b = BlockWithMemos { txns: vec![txn(1, vec![1], vec![1, 2, 3])], memos: vec![bundle(3, true)] };
    assert_eq!(p.process_block_committed(1, b, &h3), Ok(true));
    assert_eq!(p.handle_event(ChainEvent::FaucetInitialized { commitment: fe(5), memo: memo(1) }, &h3), Err(EventError::TreeFull));
}

#[test]
fn corrupt_frontier_is_reported() {
    let mut s = QueryResultState::new(3);
    s.ledger_state.record_merkle_commitment.num_leaves = 2;
    let mut p = EthPolling::new(s, None, true).unwrap();
    let b = BlockWithMemos { txns: vec![], memos: vec![] };
    assert_eq!(p.process_block_committed(1, b, &h3), Err(EventError::InconsistentFrontier));
    assert_eq!(p.last_updated_block_height(), 0);
}

#[test]
fn startup_checks_the_contract() {
    assert!(matches!(EthPolling::new(QueryResultState::new(3), None, false), Err(StartupError::AddressRequired)));

    let p = EthPolling::new(QueryResultState::new(3), Some(addr(1)), false).unwrap();
    assert_eq!(p.query_result_state.contract_address, Some(addr(1)));

    let mut s = QueryResultState::new(3);
    s.last_updated_block_height = 4;
    assert!(matches!(EthPolling::new(s, Some(addr(1)), false), Err(StartupError::MalformedState)));

    let mut s = QueryResultState::new(3);
    s.contract_address = Some(addr(2));
    assert!(matches!(EthPolling::new(s, Some(addr(1)), false), Err(StartupError::ContractMismatch)));

    let mut s = QueryResultState::new(3);
    s.contract_address = Some(addr(1));
    s.last_updated_block_height = 4;
    let p = EthPolling::new(s, Some(addr(1)), false).unwrap();
    assert_eq!(p.last_updated_block_height(), 4);
}

#[test]
fn check_folds_a_batch_in_order() {
    let mut p = poller();
    let wrap = Transition::Wrap { output: fe(90), erc20_code: addr(1), src_addr: addr(2), hash: hash_id(9) };
    let events = vec![
        ChainEvent::FaucetInitialized { commitment: fe(1), memo: memo(1) },
        ChainEvent::Erc20TokensDeposited { wrap },
        ChainEvent::BlockCommitted { block_height: 2, block: BlockWithMemos { txns: vec![txn(1, vec![11], vec![21])], memos: vec![bundle(1, true)] } },
        ChainEvent::BlockCommitted { block_height: 2, block: BlockWithMemos { txns: vec![txn(2, vec![12], vec![22])], memos: vec![bundle(1, true)] } },
        ChainEvent::BlockCommitted { block_height: 3, block: BlockWithMemos { txns: vec![], memos: vec![] } },
    ];
    assert_eq!(p.check(events, &h3), Ok(2));
    assert_eq!(p.last_updated_block_height(), 3);
    // faucet, block 2's output, then the wrap
    assert_eq!(leaves(&p), 3);
    assert!(!p.query_result_state.nullifiers.contains(&fe(12)));
    assert_eq!(p.check(vec![], &h3), Ok(0));
}

#[test]
fn check_stops_at_a_fatal_event() {
    let mut p = poller();
    let events = vec![
        ChainEvent::BlockCommitted { block_height: 1, block: BlockWithMemos { txns: vec![txn(1, vec![11], vec![21])], memos: vec![bundle(1, true)] } },
        ChainEvent::BlockCommitted { block_height: 2, block: BlockWithMemos { txns: vec![txn(2, vec![12], vec![22])], memos: vec![] } },
        ChainEvent::BlockCommitted { block_height: 3, block: BlockWithMemos { txns: vec![], memos: vec![] } },
    ];
    assert_eq!(p.check(events, &h3), Err(EventError::MemoCountMismatch { num_txns: 1, num_memos: 0 }));
    assert_eq!(p.last_updated_block_height(), 1);
    assert!(p.query_result_state.nullifiers.contains(&fe(11)));
}

#[test]
fn state_counter_overflow_is_refused() {
    let mut s = QueryResultState::new(3);
    s.ledger_state.state_number = u64::MAX;
    let mut p = EthPolling::new(s, None, true).unwrap();
    let b = BlockWithMemos { txns: vec![txn(1, vec![11], vec![21])], memos: vec![bundle(1, true)] };
    assert_eq!(p.process_block_committed(1, b, &h3), Err(EventError::StateNumberOverflow));
    assert_eq!(p.last_updated_block_height(), 0);
    assert_eq!(leaves(&p), 0);
}

#[test]
fn block_height_at_the_limit_is_refused() {
    let mut p = poller();
    let b = BlockWithMemos { txns: vec![txn(1, vec![11], vec![21])], memos: vec![bundle(1, true)] };
    assert_eq!(p.process_block_committed(u64::MAX, b, &h3), Err(EventError::BlockHeightOverflow));
    assert_eq!(p.last_updated_block_height(), 0);
    assert_eq!(leaves(&p), 0);
}

#[test]
fn repeated_hash_keeps_one_index_entry() {
    let mut p = poller();
    let b1 = BlockWithMemos { txns: vec![txn(7, vec![11], vec![21])], memos: vec![bundle(1, true)] };
    p.process_block_committed(1, b1, &h3).unwrap();
    let b2 = BlockWithMemos { txns: vec![txn(8, vec![], vec![22]), txn(7, vec![12], vec![23])], memos: vec![bundle(1, true), bundle(1, true)] };
    p.process_block_committed(2, b2, &h3).unwrap();
    let idx = &p.query_result_state.transaction_id_by_hash;
    assert_eq!(idx.len(), 2);
    assert_eq!(idx[0], (hash_id(7), (2, 1)));
    assert_eq!(idx[1], (hash_id(8), (2, 0)));
    assert_eq!(p.query_result_state.transaction_by_id.len(), 3);
}
