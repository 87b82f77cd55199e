use cape_eqs::ledger::{QueryResultState, ReceiverMemo, Transition, TransitionKind, TxnHash};
use cape_eqs::merkle::FieldElem;
use cape_eqs::polling::{BlockWithMemos, EthPolling, MemoBundle};
use cape_eqs::wallet::create_wallet_state;
use cape_eqs::query::{check_nullifier, get_all_nullifiers, get_cap_state, get_events_since, get_transaction};

fn fe(x: u64) -> FieldElem {
    FieldElem::from_u64(x)
}

fn h3(a: FieldElem, b: FieldElem, c: FieldElem) -> FieldElem {
    FieldElem {
        l0: a.l0.wrapping_mul(31).wrapping_add(b.l0.wrapping_mul(17)).wrapping_add(c.l0.wrapping_mul(7)).wrapping_add(1),
        l1: a.l1 ^ b.l1.rotate_left(3) ^ c.l1.rotate_left(7),
        l2: a.l2.wrapping_add(b.l2).wrapping_add(c.l2),
        l3: 0,
    }
}

fn state_with_blocks(n: u64) -> QueryResultState {
    let mut p = EthPolling::new(QueryResultState::new(4), None, true).unwrap();
    for h in 1..=n {
        let t = Transition::Transaction {
            kind: TransitionKind::Mint,
            nullifiers: vec![fe(100 + h)],
            outputs: vec![fe(200 + h)],
            hash: TxnHash { h0: h, h1: 0, h2: 0, h3: 0 },
        };
        let b = BlockWithMemos { txns: vec![t], memos: vec![MemoBundle { memos: vec![ReceiverMemo { data: vec![h as u8] }], sig_valid: true }] };
        p.process_block_committed(h, b, &h3).unwrap();
    }
    p.query_result_state
}

#[test]
fn cap_state_counts_events() {
    let s = state_with_blocks(3);
    let c = get_cap_state(&s);
    assert_eq!(c.num_events, 6);
    assert_eq!(c.ledger.state_number, 3);
    assert_eq!(c.ledger.record_merkle_commitment.num_leaves, 3);
}

#[test]
fn nullifier_queries() {
    let s = state_with_blocks(2);
    assert!(check_nullifier(&s, &fe(101)));
    assert!(check_nullifier(&s, &fe(102)));
    assert!(!check_nullifier(&s, &fe(103)));
    let mut all = get_all_nullifiers(&s);
    all.sort_by_key(|f| f.l0);
    assert_eq!(all, vec![fe(101), fe(102)]);
}

#[test]
fn events_since_is_clamped() {
    let s = state_with_blocks(3);
    assert_eq!(get_events_since(&s, None, None).len(), 6);
    assert_eq!(get_events_since(&s, Some(2), None).len(), 4);
    assert_eq!(get_events_since(&s, Some(2), Some(3)).len(), 3);
    assert_eq!(get_events_since(&s, Some(4), Some(10)).len(), 2);
    assert_eq!(get_events_since(&s, Some(5), Some(u64::MAX)).len(), 1);
    assert!(get_events_since(&s, Some(6), None).is_empty());
    assert!(get_events_since(&s, Some(u64::MAX), Some(1)).is_empty());
    assert!(get_events_since(&s, Some(0), Some(0)).is_empty());
}

#[test]
fn transaction_lookup() {
    let s = state_with_blocks(2);
    let t = get_transaction(&s, 2, 0).unwrap();
    assert_eq!(t.block_id, 2);
    assert_eq!(t.txn_id, 0);
    assert_eq!(t.output_start, 1);
    assert_eq!(t.output_size, 1);
    assert!(get_transaction(&s, 2, 1).is_none());
    assert!(get_transaction(&s, 3, 0).is_none());
}

#[test]
fn wallet_starts_from_published_state() {
    let s = state_with_blocks(3);
    let c = get_cap_state(&s);
    let w = create_wallet_state(&c, &h3).unwrap();
    assert_eq!(w.num_leaves, 3);
    assert_eq!(w.merkle_leaf_to_forget, Some(2));
    assert_eq!(w.state_number, 3);
    assert_eq!(w.now, 6);
    assert_eq!(w.record_mt.commitment(), c.ledger.record_merkle_commitment);

    let empty = get_cap_state(&QueryResultState::new(4));
    let w = create_wallet_state(&empty, &h3).unwrap();
    assert_eq!(w.merkle_leaf_to_forget, None);

    let mut bad = get_cap_state(&s);
    bad.ledger.record_merkle_commitment.root_value = fe(1);
    assert!(create_wallet_state(&bad, &h3).is_err());
}
