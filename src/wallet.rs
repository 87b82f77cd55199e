//! The wallet client's decisions: polling the query service with backoff,
//! which transitions go to the relay, which leaf to forget, and the local
//! cache of nullifier lookups.
use crate::ledger::Transition;
use crate::merkle::{hash_deterministic, hash_total, restorable, FieldElem, RecordsTree};
use crate::query::CapState;
use vstd::prelude::*;

verus! {

/// The shortest wait between two requests, in milliseconds.
pub const MIN_BACKOFF_MS: u64 = 500;

/// The longest wait between two requests, in milliseconds.
pub const MAX_BACKOFF_MS: u64 = 60000;

/// Where an event subscription stands: the next event to ask for, where to
/// stop if anywhere, and the current wait.
#[derive(Clone, Copy, Debug, PartialEq, Eq, Structural)]
pub struct StreamState {
    pub from: u64,
    pub to: Option<u64>,
    pub backoff_ms: u64,
}

impl StreamState {
    pub open spec fn wf(&self) -> bool {
        MIN_BACKOFF_MS <= self.backoff_ms <= MAX_BACKOFF_MS
    }

    pub fn new(from: u64, to: Option<u64>) -> (r: StreamState)
        ensures
            r.wf(),
            r == (StreamState { from, to, backoff_ms: MIN_BACKOFF_MS }),
    {
        StreamState { from, to, backoff_ms: MIN_BACKOFF_MS }
    }

    /// The next request: the first event and at most how many, or `None`
    /// when the subscription has reached its end.
    pub fn next_request(&self) -> (r: Option<(u64, Option<u64>)>)
        ensures
            match self.to {
                Some(t) => if self.from >= t {
                    r is None
                } else {
                    r == Some((self.from, Some((t - self.from) as u64)))
                },
                None => r == Some((self.from, None::<u64>)),
            },
    {
        match self.to {
            Some(t) => if self.from >= t {
                None
            } else {
                Some((self.from, Some(t - self.from)))
            },
            None => Some((self.from, None)),
        }
    }

    /// Takes in the answer to a request (`None` when the service could not
    /// be reached, else the number of events received) and gives the wait
    /// before the next one. An empty or failed answer waits the current
    /// backoff and doubles it, up to the maximum; a non-empty one resets it
    /// to the minimum and still waits that long.
    pub fn on_response(&mut self, received: Option<u64>) -> (sleep_ms: u64)
        requires
            old(self).wf(),
            received matches Some(n) ==> old(self).from + n <= u64::MAX,
        ensures
            final(self).wf(),
            final(self).to == old(self).to,
            sleep_ms >= MIN_BACKOFF_MS,
            match received {
                Some(n) if n > 0 => {
                    &&& sleep_ms == MIN_BACKOFF_MS
                    &&& final(self).backoff_ms == MIN_BACKOFF_MS
                    &&& final(self).from == old(self).from + n
                },
                _ => {
                    &&& sleep_ms == old(self).backoff_ms
                    &&& final(self).backoff_ms == if 2 * old(self).backoff_ms < MAX_BACKOFF_MS {
                        2 * old(self).backoff_ms
                    } else {
                        MAX_BACKOFF_MS as int
                    }
                    &&& final(self).from == old(self).from
                },
            },
    {
        match received {
            Some(n) if n > 0 => {
                self.backoff_ms = MIN_BACKOFF_MS;
                self.from = self.from + n;
                MIN_BACKOFF_MS
            },
            _ => {
                let sleep = self.backoff_ms;
                self.backoff_ms = if 2 * self.backoff_ms < MAX_BACKOFF_MS {
                    2 * self.backoff_ms
                } else {
                    MAX_BACKOFF_MS
                };
                sleep
            },
        }
    }
}

/// A failure of a wallet backend operation.
#[derive(Clone, Debug)]
pub enum WalletError {
    Failed { msg: String },
}

/// Only transactions go through the relay: wraps go to the contract.
pub fn check_submittable(txn: &Transition) -> (r: Result<(), WalletError>)
    ensures
        r is Ok <==> txn is Transaction,
{
    match txn {
        Transition::Transaction { .. } => Ok(()),
        Transition::Wrap { .. } => Err(
            WalletError::Failed {
                msg: String::from_str(
                    "invalid transaction type: wraps must be submitted using `wrap()`, not `submit()`",
                ),
            },
        ),
    }
}

/// A new wallet cares for none of the leaves of the tree it starts from:
/// the last one, the only one a pruned tree keeps, is to be forgotten.
pub fn merkle_leaf_to_forget(num_leaves: u64) -> (r: Option<u64>)
    ensures
        num_leaves == 0 ==> r is None,
        num_leaves > 0 ==> r == Some((num_leaves - 1) as u64),
{
    if num_leaves > 0 {
        Some(num_leaves - 1)
    } else {
        None
    }
}

/// What a new wallet starts from: the records tree restored from the
/// published frontier, the leaf to forget once more are appended, the
/// validator's state number and leaf count, and the event index to read
/// from.
pub struct WalletStart {
    pub record_mt: RecordsTree,
    pub merkle_leaf_to_forget: Option<u64>,
    pub state_number: u64,
    pub num_leaves: u64,
    pub now: u64,
}

/// A new wallet's state from the query service's published state.
pub fn create_wallet_state<H: Fn(FieldElem, FieldElem, FieldElem) -> FieldElem>(
    state: &CapState,
    hash: &H,
) -> (r: Result<WalletStart, WalletError>)
    requires
        hash_total(*hash),
    ensures
        hash_deterministic(*hash) ==> (r is Ok <==> restorable(
            state.ledger.record_merkle_commitment,
            state.ledger.record_merkle_frontier,
            *hash,
        )),
        r matches Ok(w) ==> {
            let n = state.ledger.record_merkle_commitment.num_leaves;
            &&& w.record_mt.wf_under(*hash)
            &&& w.record_mt.spec_commitment() == state.ledger.record_merkle_commitment
            &&& w.num_leaves == n
            &&& w.merkle_leaf_to_forget == if n > 0 {
                Some((n - 1) as u64)
            } else {
                None
            }
            &&& w.state_number == state.ledger.state_number
            &&& w.now == state.num_events
        },
{
    match RecordsTree::restore_from_frontier(
        &state.ledger.record_merkle_commitment,
        &state.ledger.record_merkle_frontier,
        hash,
    ) {
        Some(record_mt) => {
            let n = record_mt.num_leaves();
            Ok(
                WalletStart {
                    record_mt,
                    merkle_leaf_to_forget: merkle_leaf_to_forget(n),
                    state_number: state.ledger.state_number,
                    num_leaves: n,
                    now: state.num_events,
                },
            )
        },
        None => Err(
            WalletError::Failed {
                msg: String::from_str("cannot reconstruct Merkle tree from frontier"),
            },
        ),
    }
}

/// Why a wallet could not be opened.
#[derive(Clone, Copy, Debug, PartialEq, Eq, Structural)]
pub enum OpenWalletError {
    /// Asked to open a wallet that does not exist.
    NotFound,
    /// Asked to create a wallet that already exists.
    AlreadyExists,
}

/// Opening needs an existing wallet, creating needs none.
pub fn check_wallet_existence(exists: bool, existing: bool) -> (r: Result<(), OpenWalletError>)
    ensures
        exists == existing <==> r is Ok,
        exists != existing ==> r == Err::<(), OpenWalletError>(
            if existing {
                OpenWalletError::NotFound
            } else {
                OpenWalletError::AlreadyExists
            },
        ),
{
    if exists != existing {
        if existing {
            Err(OpenWalletError::NotFound)
        } else {
            Err(OpenWalletError::AlreadyExists)
        }
    } else {
        Ok(())
    }
}

/// What the wallet knows of nullifiers: spent or not, as last learned. An
/// entry, once there, is never dropped or asked for again.
#[derive(Clone, Debug)]
pub struct CapeNullifierSet {
    pub entries: Vec<(FieldElem, bool)>,
}

impl CapeNullifierSet {
    /// Each nullifier has at most one entry.
    pub open spec fn wf(&self) -> bool {
        forall|i: int, j: int|
            0 <= i < j < self.entries@.len() ==> (#[trigger] self.entries@[i]).0 != (#[trigger] self.entries@[j]).0
    }

    /// The entries as a map.
    pub open spec fn spec_map(&self) -> Map<FieldElem, bool> {
        Map::new(
            |n: FieldElem| exists|i: int| 0 <= i < self.entries@.len() && (#[trigger] self.entries@[i]).0 == n,
            |n: FieldElem| self.entries@[choose|i: int| 0 <= i < self.entries@.len() && (#[trigger] self.entries@[i]).0 == n].1,
        )
    }

    pub fn new() -> (r: CapeNullifierSet)
        ensures
            r.wf(),
            r.entries@.len() == 0,
    {
        CapeNullifierSet { entries: Vec::new() }
    }

    /// What is known of `n`, if anything.
    pub fn get(&self, n: FieldElem) -> (r: Option<bool>)
        requires
            self.wf(),
        ensures
            r is Some <==> self.spec_map().contains_key(n),
            r matches Some(b) ==> b == self.spec_map()[n],
    {
        let mut i: usize = 0;
        while i < self.entries.len()
            invariant
                self.wf(),
                i <= self.entries@.len(),
                forall|j: int| 0 <= j < i ==> (#[trigger] self.entries@[j]).0 != n,
            decreases self.entries@.len() - i,
        {
            if self.entries[i].0 == n {
                proof {
                    let k = choose|k: int| 0 <= k < self.entries@.len() && (#[trigger] self.entries@[k]).0 == n;
                    assert(k == i) by {
                        if k != i {
                            if k < i {
                                assert(self.entries@[k].0 != n);
                            } else {
                                let a = self.entries@[i as int];
                                let b = self.entries@[k];
                                assert(a.0 != b.0);
                            }
                        }
                    }
                }
                return Some(self.entries[i].1);
            }
            i = i + 1;
        }
        None
    }

    /// Records what the chain said of `n`, unless something is known of it
    /// already, and gives back what is now known.
    pub fn remember(&mut self, n: FieldElem, spent: bool) -> (r: bool)
        requires
            old(self).wf(),
        ensures
            final(self).wf(),
            old(self).spec_map().contains_key(n) ==> final(self).spec_map() == old(self).spec_map()
                && r == old(self).spec_map()[n],
            !old(self).spec_map().contains_key(n) ==> final(self).spec_map() == old(self).spec_map().insert(n, spent)
                && r == spent,
    {
        match self.get(n) {
            Some(b) => b,
            None => {
                let ghost before = self.entries@;
                self.entries.push((n, spent));
                proof {
                    let m = self.spec_map();
                    let m0 = old(self).spec_map().insert(n, spent);
                    assert forall|x: FieldElem| #[trigger] m.contains_key(x) <==> m0.contains_key(x) by {
                        if m0.contains_key(x) && x != n {
                            let k = choose|k: int| 0 <= k < before.len() && (#[trigger] before[k]).0 == x;
                            assert(self.entries@[k] == before[k]);
                        }
                        if x == n {
                            assert(self.entries@[before.len() as int].0 == n);
                        }
                        if m.contains_key(x) && x != n {
                            let k = choose|k: int| 0 <= k < self.entries@.len() && (#[trigger] self.entries@[k]).0 == x;
                            assert(k < before.len());
                            assert(before[k].0 == x);
                        }
                    }
                    assert forall|x: FieldElem| #[trigger] m.contains_key(x) implies m[x] == m0[x] by {
                        let k = choose|k: int| 0 <= k < self.entries@.len() && (#[trigger] self.entries@[k]).0 == x;
                        if x == n {
                            assert(k == before.len()) by {
                                if k < before.len() {
                                    assert(before[k].0 == n);
                                }
                            }
                        } else {
                            let k0 = choose|k: int| 0 <= k < before.len() && (#[trigger] before[k]).0 == x;
                            assert(self.entries@[k0] == before[k0]);
                            assert(k == k0) by {
                                if k != k0 {
                                    if k < before.len() {
                                        assert(before[k].0 == x);
                                    }
                                }
                            }
                        }
                    }
                    assert(m =~= m0);
                }
                spent
            },
        }
    }
}

} // verus!
