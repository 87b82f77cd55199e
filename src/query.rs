//! Read-only projections of the query service's state.
use crate::ledger::{
    copy_frontier, events_view, CommittedTransition, LedgerEvent, LedgerState, QueryResultState,
};
use crate::merkle::{FieldElem, Frontier};
use vstd::prelude::*;

verus! {

/// The ledger snapshot and the number of events published so far.
pub struct CapState {
    pub ledger: LedgerState,
    pub num_events: u64,
}

pub fn get_cap_state(query_result_state: &QueryResultState) -> (r: CapState)
    requires
        query_result_state.events@.len() <= u64::MAX,
    ensures
        r.num_events == query_result_state.events@.len(),
        r.ledger.state_number == query_result_state.ledger_state.state_number,
        r.ledger.record_merkle_commitment == query_result_state.ledger_state.record_merkle_commitment,
        match (r.ledger.record_merkle_frontier, query_result_state.ledger_state.record_merkle_frontier) {
            (Frontier::Empty, Frontier::Empty) => true,
            (Frontier::Proof { leaf: l1, path: p1 }, Frontier::Proof { leaf: l2, path: p2 }) => l1
                == l2 && p1.nodes@ == p2.nodes@,
            _ => false,
        },
{
    let s = &query_result_state.ledger_state;
    CapState {
        ledger: LedgerState {
            state_number: s.state_number,
            record_merkle_commitment: s.record_merkle_commitment,
            record_merkle_frontier: copy_frontier(&s.record_merkle_frontier),
        },
        num_events: query_result_state.events.len() as u64,
    }
}

/// Every spent nullifier.
pub fn get_all_nullifiers(query_result_state: &QueryResultState) -> (r: Vec<FieldElem>)
    ensures
        r@.to_set() == query_result_state.nullifiers@,
{
    query_result_state.nullifiers.to_vec()
}

/// Whether `nullifier` has been spent.
pub fn check_nullifier(query_result_state: &QueryResultState, nullifier: &FieldElem) -> (r: bool)
    ensures
        r == query_result_state.nullifiers@.contains(*nullifier),
{
    query_result_state.nullifiers.contains(nullifier)
}

/// The end of the range of events that a query from `first` for at most
/// `max_count` events returns, out of `len`.
pub open spec fn events_end(len: nat, first: nat, max_count: Option<u64>) -> nat {
    match max_count {
        Some(m) => if first + m < len {
            (first + m) as nat
        } else {
            len
        },
        None => len,
    }
}

/// The events from index `first` (0 when absent) on, at most `max_count` of
/// them when given; nothing when `first` is past the end.
pub fn get_events_since(
    query_result_state: &QueryResultState,
    first: Option<u64>,
    max_count: Option<u64>,
) -> (r: Vec<LedgerEvent>)
    ensures
        ({
            let len = query_result_state.events@.len();
            let f: nat = match first {
                Some(x) => x as nat,
                None => 0,
            };
            &&& f >= len ==> r@.len() == 0
            &&& f < len ==> events_view(r@) == events_view(query_result_state.events@).subrange(
                f as int,
                events_end(len, f, max_count) as int,
            )
        }),
{
    let events = &query_result_state.events;
    let len = events.len();
    let f: u64 = match first {
        Some(x) => x,
        None => 0,
    };
    if f as usize >= len || f >= len as u64 {
        return Vec::new();
    }
    let start = f as usize;
    let end: usize = match max_count {
        Some(m) => if m < (len - start) as u64 {
            start + m as usize
        } else {
            len
        },
        None => len,
    };
    let ghost ev = events_view(events@);
    let mut r: Vec<LedgerEvent> = Vec::new();
    let mut i: usize = start;
    while i < end
        invariant
            events@ == query_result_state.events@,
            ev == events_view(events@),
            start <= i <= end,
            end <= events@.len(),
            r@.len() == i - start,
            forall|j: int| 0 <= j < r@.len() ==> (#[trigger] r@[j])@ == events@[start + j]@,
        decreases end - i,
    {
        r.push(events[i].copy());
        i = i + 1;
    }
    assert(events_view(r@) =~= ev.subrange(start as int, end as int));
    r
}

/// The transition committed as transaction `txn_id` of block `block_id`.
pub fn get_transaction(query_result_state: &QueryResultState, block_id: u64, txn_id: u64) -> (r:
    Option<CommittedTransition>)
    ensures
        r is None <==> forall|q: int|
            0 <= q < query_result_state.transaction_by_id@.len() ==> !(
            #[trigger] query_result_state.transaction_by_id@[q].block_id == block_id
                && query_result_state.transaction_by_id@[q].txn_id == txn_id),
        r matches Some(c) ==> exists|q: int|
            0 <= q < query_result_state.transaction_by_id@.len() && {
                let e = #[trigger] query_result_state.transaction_by_id@[q];
                &&& e.block_id == block_id && e.txn_id == txn_id
                &&& c.block_id == e.block_id && c.txn_id == e.txn_id
                &&& c.output_start == e.output_start && c.output_size == e.output_size
                &&& c.transition@ == e.transition@
            },
{
    let v = &query_result_state.transaction_by_id;
    let mut i: usize = 0;
    while i < v.len()
        invariant
            v@ == query_result_state.transaction_by_id@,
            i <= v@.len(),
            forall|q: int| 0 <= q < i ==> !(#[trigger] v@[q].block_id == block_id && v@[q].txn_id == txn_id),
        decreases v@.len() - i,
    {
        if v[i].block_id == block_id && v[i].txn_id == txn_id {
            let c = v[i].copy();
            proof {
                let q = i as int;
                let e = query_result_state.transaction_by_id@[q];
                assert(e.block_id == block_id && e.txn_id == txn_id);
                assert(!(forall|q: int|
                    0 <= q < query_result_state.transaction_by_id@.len() ==> !(
                    #[trigger] query_result_state.transaction_by_id@[q].block_id == block_id
                        && query_result_state.transaction_by_id@[q].txn_id == txn_id)));
            }
            return Some(c);
        }
        i = i + 1;
    }
    None
}

} // verus!
