use cape_eqs::poll_cycle::{PollPhase, PollSignal};
use cape_eqs::ledger::{EthereumAddr, Transition, TransitionKind, TxnHash};
use cape_eqs::merkle::FieldElem;
use cape_eqs::relay::{relay_result, Error};
use cape_eqs::wallet::{
    check_submittable, check_wallet_existence, merkle_leaf_to_forget, CapeNullifierSet,
    OpenWalletError, StreamState, MAX_BACKOFF_MS, MIN_BACKOFF_MS,
};

#[test]
fn backoff_doubles_to_the_cap_and_resets() {
    let mut s = StreamState::new(0, None);
    let mut sleeps = Vec::new();
    for _ in 0..10 {
        sleeps.push(s.on_response(None));
    }
    assert_eq!(sleeps, vec![500, 1000, 2000, 4000, 8000, 16000, 32000, 60000, 60000, 60000]);
    assert_eq!(s.on_response(Some(0)), MAX_BACKOFF_MS);
    assert_eq!(s.on_response(Some(3)), MIN_BACKOFF_MS);
    assert_eq!(s.backoff_ms, MIN_BACKOFF_MS);
    assert_eq!(s.from, 3);
    assert_eq!(s.on_response(Some(0)), 500);
    assert_eq!(s.backoff_ms, 1000);
}

#[test]
fn requests_follow_the_stream_position() {
    let s = StreamState::new(4, None);
    assert_eq!(s.next_request(), Some((4, None)));
    let mut s = StreamState::new(4, Some(10));
    assert_eq!(s.next_request(), Some((4, Some(6))));
    s.on_response(Some(6));
    assert_eq!(s.next_request(), None);
    assert_eq!(StreamState::new(7, Some(5)).next_request(), None);
}

#[test]
fn only_transactions_are_relayed() {
    let t = Transition::Transaction { kind: TransitionKind::Send, nullifiers: vec![], outputs: vec![], hash: TxnHash { h0: 1, h1: 0, h2: 0, h3: 0 } };
    assert!(check_submittable(&t).is_ok());
    let a = EthereumAddr { hi: 1, mid: 2, lo: 3 };
    let w = Transition::Wrap { output: FieldElem::zero(), erc20_code: a, src_addr: a, hash: TxnHash { h0: 2, h1: 0, h2: 0, h3: 0 } };
    assert!(check_submittable(&w).is_err());
}

#[test]
fn leaf_to_forget_is_the_last() {
    assert_eq!(merkle_leaf_to_forget(0), None);
    assert_eq!(merkle_leaf_to_forget(1), Some(0));
    assert_eq!(merkle_leaf_to_forget(27), Some(26));
}

#[test]
fn wallet_existence() {
    assert_eq!(check_wallet_existence(true, true), Ok(()));
    assert_eq!(check_wallet_existence(false, false), Ok(()));
    assert_eq!(check_wallet_existence(false, true), Err(OpenWalletError::NotFound));
    assert_eq!(check_wallet_existence(true, false), Err(OpenWalletError::AlreadyExists));
}

#[test]
fn nullifier_cache_is_asked_once() {
    let mut c = CapeNullifierSet::new();
    let n = FieldElem::from_u64(5);
    assert_eq!(c.get(n), None);
    assert!(c.remember(n, true));
    assert_eq!(c.get(n), Some(true));
    // A later answer does not replace what is known.
    assert!(c.remember(n, false));
    assert_eq!(c.get(n), Some(true));
    assert!(!c.remember(FieldElem::from_u64(6), false));
    assert_eq!(c.get(FieldElem::from_u64(6)), Some(false));
    assert_eq!(c.entries.len(), 2);
}

#[test]
fn relay_outcomes() {
    assert_eq!(relay_result::<u32>(Ok(Some(7))).unwrap(), 7);
    assert!(matches!(relay_result::<u32>(Ok(None)), Err(Error::Rejected)));
    match relay_result::<u32>(Err("connection refused".to_string())) {
        Err(Error::Submission { msg }) => assert_eq!(msg, "connection refused"),
        other => panic!("expected submission error, got {:?}", other),
    }
}

#[test]
fn relay_error_status() {
    assert_eq!(Error::Deserialize { msg: String::new() }.status(), 400);
    assert_eq!(Error::BadBlock { msg: String::new() }.status(), 400);
    assert_eq!(Error::Submission { msg: String::new() }.status(), 500);
    assert_eq!(Error::Rejected.status(), 500);
    assert_eq!(Error::catch_all("boom".to_string()).status(), 500);
    assert!(matches!(Error::catch_all("boom".to_string()), Error::Internal { msg } if msg == "boom"));
    assert!(matches!(cape_eqs::relay::bad_block("x".to_string()), Error::BadBlock { .. }));
}

#[test]
fn poll_phases_follow_the_cycle() {
    assert_eq!(PollPhase::Idle.next(PollSignal::Tick), Some(PollPhase::Polling));
    assert_eq!(PollPhase::Polling.next(PollSignal::EventsReceived), Some(PollPhase::Processing));
    assert_eq!(PollPhase::Processing.next(PollSignal::Processed), Some(PollPhase::Idle));
    assert_eq!(PollPhase::Polling.next(PollSignal::QueryFailed), Some(PollPhase::BackingOff));
    assert_eq!(PollPhase::BackingOff.next(PollSignal::DelayElapsed), Some(PollPhase::Polling));
    assert_eq!(PollPhase::Idle.next(PollSignal::QueryFailed), None);
    assert_eq!(PollPhase::Processing.next(PollSignal::Tick), None);
}
