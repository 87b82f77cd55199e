//! Folding chain events into the query service's state: one committed block
//! becomes one atomic advance of the ledger.
use crate::ledger::{
    hash_index, hash_keys_unique, index_keys_unique, insert_hash_entry, copy_path, transitions_view, CommittedTransition, EthereumAddr, LedgerEvent, MemoOutput,
    QueryResultState, ReceiverMemo, Transition, TransitionView, TxnHash,
};
use crate::merkle::{
    hash_deterministic, hash_total, lemma_capacity, lemma_frontier_round_trip, lemma_wf_within_capacity,
    pow3, push_run, push_step, restorable,
    FieldElem, MerklePath, RecordsTree, TreeCommitment,
};
use vstd::prelude::*;

verus! {

/// The receiver memos of one transaction, and whether their signature
/// checked out against the transaction's signing key.
pub struct MemoBundle {
    pub memos: Vec<ReceiverMemo>,
    pub sig_valid: bool,
}

/// A committed block as fetched from the chain, with the memos posted
/// beside it.
pub struct BlockWithMemos {
    pub txns: Vec<Transition>,
    pub memos: Vec<MemoBundle>,
}

/// An event of the chain that the service folds into its state.
pub enum ChainEvent {
    BlockCommitted { block_height: u64, block: BlockWithMemos },
    Erc20TokensDeposited { wrap: Transition },
    FaucetInitialized { commitment: FieldElem, memo: ReceiverMemo },
}

/// Why an event could not be folded into the state. Every one of them
/// leaves the state as it was.
#[derive(Clone, Copy, Debug, PartialEq, Eq, Structural)]
pub enum EventError {
    /// The block and the memo store disagree on the number of transactions:
    /// the local view has diverged from the chain.
    MemoCountMismatch { num_txns: usize, num_memos: usize },
    /// The stored commitment and frontier do not describe a tree.
    InconsistentFrontier,
    /// The records tree has no room for the block's outputs.
    TreeFull,
    /// The state counter cannot advance further.
    StateNumberOverflow,
    /// The block's height leaves no room for the next state commitment.
    BlockHeightOverflow,
}

/// Why the service cannot start on a persisted state.
#[derive(Clone, Copy, Debug, PartialEq, Eq, Structural)]
pub enum StartupError {
    /// No contract address was given outside of a test run.
    AddressRequired,
    /// The state records progress but no contract.
    MalformedState,
    /// The state was built for another contract.
    ContractMismatch,
}

/// Room in a tree with commitment `c` for `k` more leaves.
pub open spec fn has_room(c: TreeCommitment, k: nat) -> bool {
    c.num_leaves + k <= u64::MAX && c.num_leaves + k <= pow3(c.height as nat)
}

/// The number of outputs of the first `i` transitions.
pub open spec fn outputs_before(ts: Seq<TransitionView>, i: int) -> nat
    decreases i,
{
    if i <= 0 {
        0
    } else {
        outputs_before(ts, i - 1) + ts[i - 1].outputs().len()
    }
}

/// The outputs of the first `i` transitions, in order.
pub open spec fn outputs_of(ts: Seq<TransitionView>, i: int) -> Seq<FieldElem>
    decreases i,
{
    if i <= 0 {
        Seq::empty()
    } else {
        outputs_of(ts, i - 1) + ts[i - 1].outputs()
    }
}

/// The hash index `m` after recording the first `i` transitions of block
/// `height`, in order: each hash maps to its transition's place, a later
/// one replacing an earlier one.
pub open spec fn hash_index_after(
    m: Map<TxnHash, (u64, u64)>,
    ts: Seq<TransitionView>,
    height: u64,
    i: int,
) -> Map<TxnHash, (u64, u64)>
    decreases i,
{
    if i <= 0 {
        m
    } else {
        hash_index_after(m, ts, height, i - 1).insert(ts[i - 1].hash(), (height, (i - 1) as u64))
    }
}

/// Every nullifier spent by the first `i` transitions.
pub open spec fn nullifiers_before(ts: Seq<TransitionView>, i: int) -> Set<FieldElem>
    decreases i,
{
    if i <= 0 {
        Set::empty()
    } else {
        nullifiers_before(ts, i - 1).union(ts[i - 1].nullifiers().to_set())
    }
}

/// The indices, in order, of the first `n` bundles whose signature is valid.
pub open spec fn valid_ids(bundles: Seq<MemoBundle>, n: int) -> Seq<int>
    decreases n,
{
    if n <= 0 {
        Seq::empty()
    } else if bundles[n - 1].sig_valid {
        valid_ids(bundles, n - 1).push(n - 1)
    } else {
        valid_ids(bundles, n - 1)
    }
}

/// `e` publishes the memos of transaction `i` of block `height`, whose
/// outputs start at leaf `start`: memo `j` goes with output `j`.
pub open spec fn memo_event_ok(
    e: LedgerEvent,
    height: u64,
    i: int,
    t: TransitionView,
    b: MemoBundle,
    start: nat,
) -> bool {
    match e {
        LedgerEvent::Memos { outputs, transaction } => {
            &&& transaction == Some((height, i as u64, t.kind()))
            &&& outputs@.len() == if b.memos@.len() < t.outputs().len() {
                b.memos@.len()
            } else {
                t.outputs().len()
            }
            &&& forall|j: int|
                0 <= j < outputs@.len() ==> {
                    &&& (#[trigger] outputs@[j]).commitment == t.outputs()[j]
                    &&& outputs@[j].uid == start + j
                    &&& outputs@[j].memo.data@ == b.memos@[j].data@
                }
        },
        _ => false,
    }
}

/// The paths in memo event `e` are `paths[first..]`, in order.
pub open spec fn memo_paths_from(e: LedgerEvent, paths: Seq<MerklePath>, first: int) -> bool {
    match e {
        LedgerEvent::Memos { outputs, .. } => forall|j: int|
            0 <= j < outputs@.len() ==> (#[trigger] outputs@[j]).path.nodes@ == paths[first + j].nodes@,
        _ => false,
    }
}

/// The path of output `j` of memo event `e` is the path of its leaf in the
/// tree right after that leaf was pushed: the tree `run[first + j + 1]`.
pub open spec fn memo_paths_ok(e: LedgerEvent, run: Seq<RecordsTree>, first: int) -> bool {
    match e {
        LedgerEvent::Memos { outputs, .. } => forall|j: int|
            0 <= j < outputs@.len() ==> (#[trigger] outputs@[j]).path.nodes@ == run[first + j + 1].nodes@,
        _ => false,
    }
}

/// `c` records transition `i` of block `height`, with its outputs from leaf
/// `start` on.
pub open spec fn committed_ok(
    c: CommittedTransition,
    height: u64,
    i: int,
    t: TransitionView,
    start: nat,
) -> bool {
    &&& c.block_id == height
    &&& c.txn_id == i
    &&& c.output_start == start
    &&& c.output_size == t.outputs().len()
    &&& c.transition@ == t
}

proof fn lemma_nullifiers_before_covers(ts: Seq<TransitionView>, i: int, n: int)
    requires
        0 <= i < n <= ts.len(),
    ensures
        ts[i].nullifiers().to_set().subset_of(nullifiers_before(ts, n)),
    decreases n - i,
{
    if i < n - 1 {
        lemma_nullifiers_before_covers(ts, i, n - 1);
    }
}

proof fn lemma_outputs_before_mono(ts: Seq<TransitionView>, i: int, j: int)
    requires
        0 <= i <= j <= ts.len(),
    ensures
        outputs_before(ts, i) <= outputs_before(ts, j),
    decreases j - i,
{
    if i < j {
        lemma_outputs_before_mono(ts, i, j - 1);
    }
}

/// Pushes the outputs of `ts` in order. Gives, for each transition, the
/// uid of its first output, and for each new leaf its path right after it
/// was inserted.
fn insert_outputs<H: Fn(FieldElem, FieldElem, FieldElem) -> FieldElem>(
    tree: &mut RecordsTree,
    ts: &Vec<Transition>,
    hash: &H,
) -> (r: Result<(Vec<u64>, Vec<MerklePath>), ()>)
    requires
        old(tree).wf_under(*hash),
        hash_total(*hash),
    ensures
        final(tree).wf_under(*hash),
        final(tree).height == old(tree).height,
        r is Ok <==> has_room(
            old(tree).spec_commitment(),
            outputs_before(transitions_view(ts@), ts@.len() as int),
        ),
        r matches Ok((starts, paths)) ==> {
            &&& final(tree).num_leaves == old(tree).num_leaves + outputs_before(
                transitions_view(ts@),
                ts@.len() as int,
            )
            &&& starts@.len() == ts@.len()
            &&& forall|i: int|
                0 <= i < ts@.len() ==> #[trigger] starts@[i] == old(tree).num_leaves
                    + outputs_before(transitions_view(ts@), i)
            &&& paths@.len() == outputs_before(transitions_view(ts@), ts@.len() as int)
            &&& exists|run: Seq<RecordsTree>|
                push_run(*hash, run, outputs_of(transitions_view(ts@), ts@.len() as int))
                    && run[0] == *old(tree) && run.last() == *final(tree)
                    && forall|k: int| 0 <= k < paths@.len() ==> (#[trigger] paths@[k]).nodes@ == run[k + 1].nodes@
        },
{
    let ghost tv = transitions_view(ts@);
    let ghost mut run: Seq<RecordsTree> = seq![*tree];
    let ghost n0 = tree.num_leaves;
    let ghost h = tree.height;
    proof {
        lemma_wf_within_capacity(*tree, *hash);
    }
    let mut starts: Vec<u64> = Vec::new();
    let mut paths: Vec<MerklePath> = Vec::new();
    let mut i: usize = 0;
    while i < ts.len()
        invariant
            tv == transitions_view(ts@),
            n0 == old(tree).num_leaves,
            h == old(tree).height,
            hash_total(*hash),
            tree.wf_under(*hash),
            tree.height == h,
            i <= ts@.len(),
            tree.num_leaves == n0 + outputs_before(tv, i as int),
            tree.num_leaves <= pow3(h as nat),
            starts@.len() == i,
            forall|k: int| 0 <= k < i ==> #[trigger] starts@[k] == n0 + outputs_before(tv, k),
            paths@.len() == outputs_before(tv, i as int),
            push_run(*hash, run, outputs_of(tv, i as int)),
            run[0] == *old(tree),
            run.last() == *tree,
            forall|k: int| 0 <= k < paths@.len() ==> (#[trigger] paths@[k]).nodes@ == run[k + 1].nodes@,
            run.len() == paths@.len() + 1,
        decreases ts@.len() - i,
    {
        let t = &ts[i];
        assert(tv[i as int] == t@);
        assert(outputs_of(tv, i as int) + tv[i as int].outputs().subrange(0, 0) =~= outputs_of(tv, i as int));
        starts.push(tree.num_leaves);
        let len = t.output_len();
        let mut j: usize = 0;
        while j < len
            invariant
                tv == transitions_view(ts@),
                n0 == old(tree).num_leaves,
                h == old(tree).height,
                hash_total(*hash),
                tree.wf_under(*hash),
                tree.height == h,
                i < ts@.len(),
                t == ts@[i as int],
                len == tv[i as int].outputs().len(),
                j <= len,
                tree.num_leaves == n0 + outputs_before(tv, i as int) + j,
                tree.num_leaves <= pow3(h as nat),
                paths@.len() == outputs_before(tv, i as int) + j,
                push_run(*hash, run, outputs_of(tv, i as int) + tv[i as int].outputs().subrange(0, j as int)),
                run[0] == *old(tree),
                run.last() == *tree,
                forall|k: int| 0 <= k < paths@.len() ==> (#[trigger] paths@[k]).nodes@ == run[k + 1].nodes@,
                run.len() == paths@.len() + 1,
            decreases len - j,
        {
            let elem = t.output(j);
            let ghost before = *tree;
            match tree.push(elem, hash) {
                Ok(uid) => {
                    proof {
                        lemma_capacity(before);
                        let e0 = outputs_of(tv, i as int) + tv[i as int].outputs().subrange(0, j as int);
                        let e1 = outputs_of(tv, i as int) + tv[i as int].outputs().subrange(0, j + 1);
                        assert(e1 =~= e0.push(elem));
                        let r1 = run.push(*tree);
                        assert(r1[run.len() - 1] == before);
                        assert forall|k: int| 0 <= k < e1.len() implies crate::merkle::push_step(*hash, #[trigger] r1[k], e1[k], r1[k + 1]) by {
                            if k < e0.len() {
                                assert(r1[k] == run[k] && r1[k + 1] == run[k + 1] && e1[k] == e0[k]);
                            }
                        }
                        run = r1;
                    }
                    match tree.get_leaf(uid) {
                        Some(p) => {
                            paths.push(p);
                        },
                        None => {},
                    }
                    proof {
                        assert forall|k: int| 0 <= k < paths@.len() implies (#[trigger] paths@[k]).nodes@
                            == run[k + 1].nodes@ by {
                            if k == paths@.len() - 1 {
                                assert(run[k + 1] == *tree);
                            }
                        }
                    }
                },
                Err(()) => {
                    proof {
                        lemma_capacity(*tree);
                        assert(outputs_before(tv, i + 1) == outputs_before(tv, i as int) + len);
                        lemma_outputs_before_mono(tv, i + 1, ts@.len() as int);
                    }
                    return Err(());
                },
            }
            j = j + 1;
        }
        assert(outputs_before(tv, i + 1) == outputs_before(tv, i as int) + len);
        assert(tv[i as int].outputs().subrange(0, len as int) =~= tv[i as int].outputs());
        assert(outputs_of(tv, i + 1) == outputs_of(tv, i as int) + tv[i as int].outputs());
        i = i + 1;
    }
    Ok((starts, paths))
}

/// The memo events of a block: one per transaction whose memo signature is
/// valid, in transaction order.
fn build_memo_events(
    block_height: u64,
    ts: &Vec<Transition>,
    bundles: &Vec<MemoBundle>,
    starts: &Vec<u64>,
    paths: &Vec<MerklePath>,
    base: u64,
) -> (r: Vec<LedgerEvent>)
    requires
        bundles@.len() <= ts@.len(),
        starts@.len() == ts@.len(),
        forall|i: int|
            0 <= i < ts@.len() ==> #[trigger] starts@[i] == base + outputs_before(
                transitions_view(ts@),
                i,
            ),
        paths@.len() == outputs_before(transitions_view(ts@), ts@.len() as int),
        base + outputs_before(transitions_view(ts@), ts@.len() as int) <= u64::MAX,
    ensures
        r@.len() == valid_ids(bundles@, bundles@.len() as int).len(),
        forall|k: int|
            0 <= k < valid_ids(bundles@, bundles@.len() as int).len() ==> 0
                <= #[trigger] valid_ids(bundles@, bundles@.len() as int)[k] < bundles@.len(),
        forall|k: int|
            0 <= k < r@.len() ==> {
                let i = valid_ids(bundles@, bundles@.len() as int)[k];
                &&& memo_event_ok(#[trigger] r@[k], block_height, i, ts@[i]@, bundles@[i], starts@[i] as nat)
                &&& memo_paths_from(r@[k], paths@, outputs_before(transitions_view(ts@), i) as int)
            },
{
    let ghost tv = transitions_view(ts@);
    let mut events: Vec<LedgerEvent> = Vec::new();
    let mut i: usize = 0;
    while i < bundles.len()
        invariant
            tv == transitions_view(ts@),
            bundles@.len() <= ts@.len(),
            starts@.len() == ts@.len(),
            forall|i: int| 0 <= i < ts@.len() ==> #[trigger] starts@[i] == base + outputs_before(tv, i),
            paths@.len() == outputs_before(tv, ts@.len() as int),
            base + outputs_before(tv, ts@.len() as int) <= u64::MAX,
            i <= bundles@.len(),
            events@.len() == valid_ids(bundles@, i as int).len(),
            forall|k: int|
                0 <= k < events@.len() ==> {
                    let id = valid_ids(bundles@, i as int)[k];
                    &&& memo_event_ok(#[trigger] events@[k], block_height, id, ts@[id]@, bundles@[id], starts@[id] as nat)
                    &&& memo_paths_from(events@[k], paths@, outputs_before(tv, id) as int)
                },
            forall|k: int| 0 <= k < valid_ids(bundles@, i as int).len() ==> 0 <= #[trigger] valid_ids(bundles@, i as int)[k] < i,
        decreases bundles@.len() - i,
    {
        let ghost prev = valid_ids(bundles@, i as int);
        assert(valid_ids(bundles@, i + 1) == if bundles@[i as int].sig_valid { prev.push(i as int) } else { prev });
        if bundles[i].sig_valid {
            let t = &ts[i];
            let b = &bundles[i];
            assert(tv[i as int] == t@);
            let tlen = t.output_len();
            let n_out = if b.memos.len() < tlen { b.memos.len() } else { tlen };
            let start = starts[i];
            proof {
                assert(outputs_before(tv, i + 1) == outputs_before(tv, i as int) + tlen);
                lemma_outputs_before_mono(tv, i + 1, ts@.len() as int);
            }
            let mut outputs: Vec<MemoOutput> = Vec::new();
            let mut j: usize = 0;
            while j < n_out
                invariant
                    tv == transitions_view(ts@),
                    i < bundles@.len(),
                    bundles@.len() <= ts@.len(),
                    t == ts@[i as int],
                    b == bundles@[i as int],
                    tlen == t@.outputs().len(),
                    n_out <= tlen,
                    n_out <= b.memos@.len(),
                    starts@.len() == ts@.len(),
                    start == starts@[i as int],
                    start == base + outputs_before(tv, i as int),
                    start + tlen <= base + outputs_before(tv, ts@.len() as int),
                    base + outputs_before(tv, ts@.len() as int) <= u64::MAX,
                    paths@.len() == outputs_before(tv, ts@.len() as int),
                    j <= n_out,
                    outputs@.len() == j,
                    forall|jj: int|
                        0 <= jj < j ==> {
                            &&& (#[trigger] outputs@[jj]).commitment == t@.outputs()[jj]
                            &&& outputs@[jj].uid == start + jj
                            &&& outputs@[jj].memo.data@ == b.memos@[jj].data@
                            &&& outputs@[jj].path.nodes@ == paths@[outputs_before(tv, i as int) + jj].nodes@
                        },
                decreases n_out - j,
            {
                let off: u64 = start - base;
                let plen = paths.len();
                assert(off + j < plen);
                let idx: usize = off as usize + j;
                let out = MemoOutput {
                    memo: b.memos[j].copy(),
                    commitment: t.output(j),
                    uid: start + j as u64,
                    path: copy_path(&paths[idx]),
                };
                outputs.push(out);
                j = j + 1;
            }
            let ev = LedgerEvent::Memos {
                outputs,
                transaction: Some((block_height, i as u64, t.kind())),
            };
            events.push(ev);
        }
        i = i + 1;
    }
    events
}

/// Records the transitions of block `height` in the transaction index and
/// their nullifiers in the nullifier set.
fn index_transitions(
    state: &mut QueryResultState,
    block_height: u64,
    ts: &Vec<Transition>,
    starts: &Vec<u64>,
)
    requires
        starts@.len() == ts@.len(),
    ensures
        final(state).ledger_state == old(state).ledger_state,
        final(state).events == old(state).events,
        final(state).contract_address == old(state).contract_address,
        final(state).last_updated_block_height == old(state).last_updated_block_height,
        final(state).transaction_by_id@.len() == old(state).transaction_by_id@.len() + ts@.len(),
        forall|k: int|
            0 <= k < old(state).transaction_by_id@.len() ==> #[trigger] final(state).transaction_by_id@[k]
                == old(state).transaction_by_id@[k],
        forall|i: int|
            0 <= i < ts@.len() ==> committed_ok(
                #[trigger] final(state).transaction_by_id@[old(state).transaction_by_id@.len() + i],
                block_height,
                i,
                ts@[i]@,
                starts@[i] as nat,
            ),
        hash_keys_unique(old(state).transaction_id_by_hash@) ==> hash_keys_unique(
            final(state).transaction_id_by_hash@,
        ) && hash_index(final(state).transaction_id_by_hash@) == hash_index_after(
            hash_index(old(state).transaction_id_by_hash@),
            transitions_view(ts@),
            block_height,
            ts@.len() as int,
        ),
        final(state).nullifiers@ == old(state).nullifiers@.union(
            nullifiers_before(transitions_view(ts@), ts@.len() as int),
        ),
{
    let ghost tv = transitions_view(ts@);
    let ghost n_by_id = state.transaction_by_id@.len();
    let mut i: usize = 0;
    while i < ts.len()
        invariant
            tv == transitions_view(ts@),
            starts@.len() == ts@.len(),
            n_by_id == old(state).transaction_by_id@.len(),
            i <= ts@.len(),
            state.ledger_state == old(state).ledger_state,
            state.events == old(state).events,
            state.contract_address == old(state).contract_address,
            state.last_updated_block_height == old(state).last_updated_block_height,
            state.transaction_by_id@.len() == n_by_id + i,
            forall|k: int| 0 <= k < n_by_id ==> #[trigger] state.transaction_by_id@[k] == old(state).transaction_by_id@[k],
            forall|j: int|
                0 <= j < i ==> committed_ok(
                    #[trigger] state.transaction_by_id@[n_by_id + j],
                    block_height,
                    j,
                    ts@[j]@,
                    starts@[j] as nat,
                ),
            hash_keys_unique(old(state).transaction_id_by_hash@) ==> hash_keys_unique(
                state.transaction_id_by_hash@,
            ) && hash_index(state.transaction_id_by_hash@) == hash_index_after(
                hash_index(old(state).transaction_id_by_hash@),
                tv,
                block_height,
                i as int,
            ),
            state.nullifiers@ == old(state).nullifiers@.union(nullifiers_before(tv, i as int)),
        decreases ts@.len() - i,
    {
        let t = &ts[i];
        assert(tv[i as int] == t@);
        let entry = CommittedTransition {
            block_id: block_height,
            txn_id: i as u64,
            output_start: starts[i],
            output_size: t.output_len() as u64,
            transition: t.copy(),
        };
        state.transaction_by_id.push(entry);
        insert_hash_entry(&mut state.transaction_id_by_hash, t.commit(), (block_height, i as u64));
        let ns = t.proven_nullifiers();
        state.nullifiers.insert_all(&ns);
        proof {
            assert(nullifiers_before(tv, i + 1) == nullifiers_before(tv, i as int).union(t@.nullifiers().to_set()));
            assert(state.nullifiers@ =~= old(state).nullifiers@.union(nullifiers_before(tv, i + 1)));
        }
        i = i + 1;
    }
}

/// Appends copies of the transitions of `src` to `dst`.
fn copy_transitions(dst: &mut Vec<Transition>, src: &Vec<Transition>)
    ensures
        transitions_view(final(dst)@) == transitions_view(old(dst)@) + transitions_view(src@),
{
    let mut i: usize = 0;
    while i < src.len()
        invariant
            i <= src@.len(),
            transitions_view(dst@) == transitions_view(old(dst)@) + transitions_view(src@.subrange(0, i as int)),
        decreases src@.len() - i,
    {
        let ghost prev = dst@;
        let t = src[i].copy();
        dst.push(t);
        proof {
            let lhs = transitions_view(dst@);
            let rhs = transitions_view(old(dst)@) + transitions_view(src@.subrange(0, i + 1));
            assert(transitions_view(prev).len() == prev.len());
            assert(transitions_view(src@.subrange(0, i as int)).len() == i);
            assert(transitions_view(src@.subrange(0, i + 1)).len() == i + 1);
            assert(lhs.len() == rhs.len());
            assert forall|j: int| 0 <= j < lhs.len() implies lhs[j] == rhs[j] by {
                if j < prev.len() {
                    assert(dst@[j] == prev[j]);
                    assert(transitions_view(prev)[j] == prev[j]@);
                    assert(rhs[j] == (transitions_view(old(dst)@) + transitions_view(src@.subrange(0, i as int)))[j]);
                } else {
                    assert(dst@[j] == t);
                    assert(rhs[j] == transitions_view(src@.subrange(0, i + 1))[i as int]);
                }
            }
            assert(lhs =~= rhs);
        }
        i = i + 1;
    }
    assert(src@.subrange(0, i as int) =~= src@);
}

/// The transitions a block commits: its own transactions, then the wraps
/// that were waiting for it.
pub open spec fn block_transitions(block: BlockWithMemos, pending: Seq<Transition>) -> Seq<TransitionView> {
    transitions_view(block.txns@) + transitions_view(pending)
}

/// `new` is `old` with the block at `height` folded in, under `hash`.
pub open spec fn block_committed<H: Fn(FieldElem, FieldElem, FieldElem) -> FieldElem>(
    old: EthPolling,
    new: EthPolling,
    block_height: u64,
    block: BlockWithMemos,
    hash: H,
) -> bool {
    let s = old.query_result_state;
    let t = new.query_result_state;
    let all = block_transitions(block, old.pending_commit_event@);
    let n = s.ledger_state.record_merkle_commitment.num_leaves;
    let ids = valid_ids(block.memos@, block.memos@.len() as int);
    let e0 = s.events@.len();
    let x0 = s.transaction_by_id@.len();
    &&& t.last_updated_block_height == block_height
    &&& t.ledger_state.state_number == s.ledger_state.state_number + 1
    &&& t.ledger_state.record_merkle_commitment.num_leaves == n + outputs_before(all, all.len() as int)
    &&& t.ledger_state.record_merkle_commitment.height == s.ledger_state.record_merkle_commitment.height
    &&& restorable(t.ledger_state.record_merkle_commitment, t.ledger_state.record_merkle_frontier, hash)
    &&& exists|run: Seq<RecordsTree>|
        push_run(hash, run, outputs_of(all, all.len() as int))
            && run[0].wf_under(hash)
            && run[0].spec_commitment() == s.ledger_state.record_merkle_commitment
            && run[0].frontier_is(s.ledger_state.record_merkle_frontier)
            && run.last().spec_commitment() == t.ledger_state.record_merkle_commitment
            && run.last().frontier_is(t.ledger_state.record_merkle_frontier)
            && forall|k: int|
                0 <= k < ids.len() ==> memo_paths_ok(
                    #[trigger] t.events@[e0 + 1 + k],
                    run,
                    outputs_before(all, ids[k]) as int,
                )
    &&& t.events@.len() == e0 + 1 + ids.len()
    &&& forall|k: int| 0 <= k < e0 ==> #[trigger] t.events@[k] == s.events@[k]
    &&& t.events@[e0 as int] matches LedgerEvent::Commit { block: b, block_id, state_comm }
        && transitions_view(b@) == all && block_id == block_height && state_comm == block_height + 1
    &&& forall|k: int|
        0 <= k < ids.len() ==> memo_event_ok(
            #[trigger] t.events@[e0 + 1 + k],
            block_height,
            ids[k],
            all[ids[k]],
            block.memos@[ids[k]],
            (n + outputs_before(all, ids[k])) as nat,
        )
    &&& t.transaction_by_id@.len() == x0 + all.len()
    &&& forall|k: int| 0 <= k < x0 ==> #[trigger] t.transaction_by_id@[k] == s.transaction_by_id@[k]
    &&& forall|i: int|
        0 <= i < all.len() ==> committed_ok(
            #[trigger] t.transaction_by_id@[x0 + i],
            block_height,
            i,
            all[i],
            (n + outputs_before(all, i)) as nat,
        )
    &&& hash_keys_unique(s.transaction_id_by_hash@) ==> hash_keys_unique(t.transaction_id_by_hash@)
        && hash_index(t.transaction_id_by_hash@) == hash_index_after(
        hash_index(s.transaction_id_by_hash@),
        all,
        block_height,
        all.len() as int,
    )
    &&& t.nullifiers@ == s.nullifiers@.union(nullifiers_before(all, all.len() as int))
    &&& t.contract_address == s.contract_address
    &&& new.pending_commit_event@.len() == 0
}

proof fn lemma_memo_paths(
    e: LedgerEvent,
    paths: Seq<MerklePath>,
    run: Seq<RecordsTree>,
    all: Seq<TransitionView>,
    i: int,
    block_height: u64,
    b: MemoBundle,
    start: nat,
)
    requires
        0 <= i < all.len(),
        memo_event_ok(e, block_height, i, all[i], b, start),
        memo_paths_from(e, paths, outputs_before(all, i) as int),
        paths.len() == outputs_before(all, all.len() as int),
        forall|q: int| 0 <= q < paths.len() ==> (#[trigger] paths[q]).nodes@ == run[q + 1].nodes@,
    ensures
        memo_paths_ok(e, run, outputs_before(all, i) as int),
{
    let first = outputs_before(all, i) as int;
    assert(outputs_before(all, i + 1) == first + all[i].outputs().len());
    lemma_outputs_before_mono(all, i + 1, all.len() as int);
    match e {
        LedgerEvent::Memos { outputs, .. } => {
            assert forall|j: int| 0 <= j < outputs@.len() implies (#[trigger] outputs@[j]).path.nodes@
                == run[first + j + 1].nodes@ by {
                assert(outputs@[j].path.nodes@ == paths[first + j].nodes@);
                assert(first + j < paths.len());
                assert(paths[first + j].nodes@ == run[first + j + 1].nodes@);
            }
        },
        _ => {},
    }
}

proof fn lemma_block_keeps_wf<H: Fn(FieldElem, FieldElem, FieldElem) -> FieldElem>(
    old: EthPolling,
    new: EthPolling,
    block_height: u64,
    block: BlockWithMemos,
    hash: H,
)
    requires
        block_committed(old, new, block_height, block, hash),
        old.query_result_state.wf(),
        old.query_result_state.last_updated_block_height < block_height,
    ensures
        new.query_result_state.wf(),
{
    let s = old.query_result_state;
    let st = new.query_result_state;
    let all = block_transitions(block, old.pending_commit_event@);
    let x0 = s.transaction_by_id@.len();
    let n = s.ledger_state.record_merkle_commitment.num_leaves;
    assert forall|q: int| 0 <= q < st.transaction_by_id@.len() implies {
        let c = #[trigger] st.transaction_by_id@[q];
        &&& c.block_id <= st.last_updated_block_height
        &&& forall|k: int|
            0 <= k < c.transition@.nullifiers().len() ==> st.nullifiers@.contains(
                c.transition@.nullifiers()[k],
            )
    } by {
        let c = st.transaction_by_id@[q];
        if q < x0 {
            assert(c == s.transaction_by_id@[q]);
        } else {
            let i = q - x0;
            assert(c == st.transaction_by_id@[x0 + i]);
            assert(committed_ok(c, block_height, i, all[i], (n + outputs_before(all, i)) as nat));
            lemma_nullifiers_before_covers(all, i, all.len() as int);
            assert forall|k: int| 0 <= k < c.transition@.nullifiers().len() implies st.nullifiers@.contains(
                c.transition@.nullifiers()[k]) by {
                assert(all[i].nullifiers().to_set().contains(all[i].nullifiers()[k]));
            }
        }
    }
    assert forall|a: int, b: int|
        0 <= a < b < st.transaction_by_id@.len() implies !((#[trigger] st.transaction_by_id@[a]).block_id
        == (#[trigger] st.transaction_by_id@[b]).block_id && st.transaction_by_id@[a].txn_id
        == st.transaction_by_id@[b].txn_id) by {
        let ca = st.transaction_by_id@[a];
        let cb = st.transaction_by_id@[b];
        if b < x0 {
            assert(ca == s.transaction_by_id@[a] && cb == s.transaction_by_id@[b]);
        } else if a < x0 {
            assert(ca == s.transaction_by_id@[a]);
            assert(ca.block_id <= s.last_updated_block_height);
            assert(committed_ok(st.transaction_by_id@[x0 + (b - x0)], block_height, b - x0, all[b - x0], (n + outputs_before(all, b - x0)) as nat));
        } else {
            assert(committed_ok(st.transaction_by_id@[x0 + (a - x0)], block_height, a - x0, all[a - x0], (n + outputs_before(all, a - x0)) as nat));
            assert(committed_ok(st.transaction_by_id@[x0 + (b - x0)], block_height, b - x0, all[b - x0], (n + outputs_before(all, b - x0)) as nat));
        }
    }
}

/// The state of the event translator: the published state, and the wraps
/// that wait for the next committed block.
pub struct EthPolling {
    pub query_result_state: QueryResultState,
    pub pending_commit_event: Vec<Transition>,
}

impl EthPolling {
    /// The translator over a persisted state, for the contract at
    /// `contract_address`. A state that records progress must name its
    /// contract, and that contract must be the one given; a state with no
    /// contract yet is bound to the one given. A test run needs no address
    /// and takes the state as it is.
    pub fn new(
        query_result_state: QueryResultState,
        contract_address: Option<EthereumAddr>,
        temp_test_run: bool,
    ) -> (r: Result<EthPolling, StartupError>)
        ensures
            r is Ok <==> (temp_test_run || (contract_address is Some && !(
            query_result_state.contract_address is None && query_result_state.last_updated_block_height
                > 0) && (query_result_state.contract_address is None
                || query_result_state.contract_address == contract_address))),
            r matches Err(e) ==> !temp_test_run && match e {
                StartupError::AddressRequired => contract_address is None,
                StartupError::MalformedState => contract_address is Some
                    && query_result_state.contract_address is None
                    && query_result_state.last_updated_block_height > 0,
                StartupError::ContractMismatch => contract_address is Some
                    && query_result_state.contract_address is Some
                    && query_result_state.contract_address != contract_address,
            },
            !temp_test_run && contract_address is Some && !(query_result_state.contract_address
                is None && query_result_state.last_updated_block_height > 0) && (
            query_result_state.contract_address is None || query_result_state.contract_address
                == contract_address) ==> r is Ok,
            r matches Ok(p) ==> {
                &&& p.pending_commit_event@.len() == 0
                &&& p.query_result_state.last_updated_block_height
                    == query_result_state.last_updated_block_height
                &&& p.query_result_state.events@ == query_result_state.events@
                &&& p.query_result_state.nullifiers@ == query_result_state.nullifiers@
                &&& p.query_result_state.transaction_by_id@ == query_result_state.transaction_by_id@
                &&& p.query_result_state.transaction_id_by_hash@ == query_result_state.transaction_id_by_hash@
                &&& p.query_result_state.ledger_state == query_result_state.ledger_state
                &&& p.query_result_state.contract_address == if temp_test_run {
                    query_result_state.contract_address
                } else {
                    contract_address
                }
            },
    {
        if temp_test_run {
            return Ok(EthPolling { query_result_state, pending_commit_event: Vec::new() });
        }
        let mut state = query_result_state;
        match contract_address {
            None => Err(StartupError::AddressRequired),
            Some(addr) => {
                if state.contract_address.is_none() && state.last_updated_block_height > 0 {
                    return Err(StartupError::MalformedState);
                }
                match state.contract_address {
                    Some(persisted) => {
                        if persisted != addr {
                            return Err(StartupError::ContractMismatch);
                        }
                    },
                    None => {
                        state.contract_address = Some(addr);
                    },
                }
                Ok(EthPolling { query_result_state: state, pending_commit_event: Vec::new() })
            },
        }
    }

    pub fn last_updated_block_height(&self) -> (r: u64)
        ensures
            r == self.query_result_state.last_updated_block_height,
    {
        self.query_result_state.last_updated_block_height
    }

    /// Buffers the wrap of an ERC20 deposit: it takes effect with the next
    /// committed block.
    pub fn process_deposit(&mut self, wrap: Transition)
        ensures
            final(self).query_result_state == old(self).query_result_state,
            final(self).pending_commit_event@ == old(self).pending_commit_event@.push(wrap),
    {
        self.pending_commit_event.push(wrap);
    }

    /// Folds the block committed at `block_height` into the state, in one
    /// step: the block's transactions then the pending wraps become one
    /// ordered list; their outputs go into the records tree in that order;
    /// each transaction whose memo signature is valid gets a memo event; one
    /// commit event summarises the block and comes before them; the index,
    /// the nullifiers, the tree and the height advance together. A height
    /// already processed changes nothing. On any error nothing changes.
    pub fn process_block_committed<H: Fn(FieldElem, FieldElem, FieldElem) -> FieldElem>(
        &mut self,
        block_height: u64,
        block: BlockWithMemos,
        hash: &H,
    ) -> (r: Result<bool, EventError>)
        requires
            hash_total(*hash),
            hash_deterministic(*hash),
        ensures
            block_outcome(*old(self), *final(self), block_height, block, *hash, r),
            old(self).query_result_state.wf() ==> final(self).query_result_state.wf(),
            events_ordered(old(self).query_result_state.events@) ==> events_ordered(
                final(self).query_result_state.events@,
            ),
    {
        let ntx = block.txns.len();
        let nm = block.memos.len();
        if ntx != nm {
            return Err(EventError::MemoCountMismatch { num_txns: ntx, num_memos: nm });
        }
        if block_height <= self.query_result_state.last_updated_block_height {
            return Ok(false);
        }
        if block_height == u64::MAX {
            return Err(EventError::BlockHeightOverflow);
        }
        if self.query_result_state.ledger_state.state_number == u64::MAX {
            return Err(EventError::StateNumberOverflow);
        }
        let restored = RecordsTree::restore_from_frontier(
            &self.query_result_state.ledger_state.record_merkle_commitment,
            &self.query_result_state.ledger_state.record_merkle_frontier,
            hash,
        );
        let mut tree = match restored {
            Some(t) => t,
            None => {
                return Err(EventError::InconsistentFrontier);
            },
        };
        let ghost all = block_transitions(block, self.pending_commit_event@);
        let mut transitions: Vec<Transition> = Vec::new();
        copy_transitions(&mut transitions, &block.txns);
        copy_transitions(&mut transitions, &self.pending_commit_event);
        assert(transitions_view(transitions@) =~= all);
        let ghost tsv = transitions@;
        let base = tree.num_leaves;
        let ghost tree0 = tree;
        let (starts, paths) = match insert_outputs(&mut tree, &transitions, hash) {
            Ok(x) => x,
            Err(()) => {
                return Err(EventError::TreeFull);
            },
        };
        let mut memo_events = build_memo_events(
            block_height,
            &transitions,
            &block.memos,
            &starts,
            &paths,
            base,
        );
        index_transitions(&mut self.query_result_state, block_height, &transitions, &starts);
        let commit = LedgerEvent::Commit {
            block: transitions,
            block_id: block_height,
            state_comm: block_height + 1,
        };
        let ghost me = memo_events@;
        self.query_result_state.events.push(commit);
        self.query_result_state.events.append(&mut memo_events);
        self.query_result_state.ledger_state.state_number = self.query_result_state.ledger_state.state_number + 1;
        self.query_result_state.ledger_state.record_merkle_commitment = tree.commitment();
        self.query_result_state.ledger_state.record_merkle_frontier = tree.frontier();
        self.query_result_state.last_updated_block_height = block_height;
        self.pending_commit_event = Vec::new();
        proof {
            lemma_frontier_round_trip(tree, self.query_result_state.ledger_state.record_merkle_frontier, *hash);
            let st = self.query_result_state;
            let x0 = old(self).query_result_state.transaction_by_id@.len();
            let e0 = old(self).query_result_state.events@.len();
            let run = choose|run: Seq<RecordsTree>|
                push_run(*hash, run, outputs_of(transitions_view(tsv), tsv.len() as int))
                    && run[0] == tree0 && run.last() == tree
                    && forall|k: int| 0 <= k < paths@.len() ==> (#[trigger] paths@[k]).nodes@ == run[k + 1].nodes@;
            assert(transitions_view(tsv) == all);
            assert(tsv.len() == all.len());
            assert(run.last().frontier_is(st.ledger_state.record_merkle_frontier));
            let ids0 = valid_ids(block.memos@, block.memos@.len() as int);
            assert forall|k: int| 0 <= k < ids0.len() implies memo_paths_ok(
                #[trigger] st.events@[e0 + 1 + k],
                run,
                outputs_before(all, ids0[k]) as int,
            ) by {
                assert(st.events@[e0 + 1 + k] == me[k]);
                let i = ids0[k];
                assert(memo_event_ok(me[k], block_height, i, tsv[i]@, block.memos@[i], starts@[i] as nat));
                assert(tsv[i]@ == all[i]);
                lemma_memo_paths(me[k], paths@, run, all, i, block_height, block.memos@[i], starts@[i] as nat);
            }
            if events_ordered(old(self).query_result_state.events@) {
                let ev = st.events@;
                assert(ev[e0 as int].is_commit_of(block_height));
                assert forall|j: int, h: u64|
                    0 <= j < ev.len() && #[trigger] ev[j].memos_of_block(h) implies exists|i: int|
                        0 <= i < j && #[trigger] ev[i].is_commit_of(h) by {
                    if j < e0 {
                        assert(ev[j] == old(self).query_result_state.events@[j]);
                        let i = choose|i: int| 0 <= i < j && #[trigger] old(self).query_result_state.events@[i].is_commit_of(h);
                        assert(ev[i] == old(self).query_result_state.events@[i]);
                    } else {
                        assert(j > e0);
                        let k = j - e0 - 1;
                        assert(ev[e0 + 1 + k] == ev[j]);
                        assert(h == block_height);
                        assert(ev[e0 as int].is_commit_of(h));
                    }
                }
            }
            let ids = valid_ids(block.memos@, block.memos@.len() as int);
            assert forall|k: int| 0 <= k < ids.len() implies memo_event_ok(
                #[trigger] self.query_result_state.events@[e0 + 1 + k],
                block_height,
                ids[k],
                all[ids[k]],
                block.memos@[ids[k]],
                (base + outputs_before(all, ids[k])) as nat,
            ) by {
                assert(self.query_result_state.events@[e0 + 1 + k] == me[k]);
                let i = ids[k];
                assert(0 <= i < block.txns@.len());
                assert(transitions_view(tsv)[i] == tsv[i]@);
            }
            assert(block_committed(*old(self), *self, block_height, block, *hash));
            if old(self).query_result_state.wf() {
                lemma_block_keeps_wf(*old(self), *self, block_height, block, *hash);
            }
        }
        Ok(true)
    }

    /// Appends the faucet's record directly to the tree (it needs no block)
    /// and publishes its memo, with no transaction. The height, the index
    /// and the nullifiers do not change. On an error nothing changes.
    pub fn process_faucet_initialized<H: Fn(FieldElem, FieldElem, FieldElem) -> FieldElem>(
        &mut self,
        commitment: FieldElem,
        memo: ReceiverMemo,
        hash: &H,
    ) -> (r: Result<(), EventError>)
        requires
            hash_total(*hash),
            hash_deterministic(*hash),
        ensures
            faucet_outcome(*old(self), *final(self), commitment, memo, *hash, r),
            old(self).query_result_state.wf() ==> final(self).query_result_state.wf(),
            events_ordered(old(self).query_result_state.events@) ==> events_ordered(
                final(self).query_result_state.events@,
            ),
    {
        let restored = RecordsTree::restore_from_frontier(
            &self.query_result_state.ledger_state.record_merkle_commitment,
            &self.query_result_state.ledger_state.record_merkle_frontier,
            hash,
        );
        let mut tree = match restored {
            Some(t) => t,
            None => {
                return Err(EventError::InconsistentFrontier);
            },
        };
        proof {
            lemma_wf_within_capacity(tree, *hash);
            lemma_capacity(tree);
        }
        let ghost t0 = tree;
        let uid = match tree.push(commitment, hash) {
            Ok(uid) => uid,
            Err(()) => {
                return Err(EventError::TreeFull);
            },
        };
        let path = match tree.get_leaf(uid) {
            Some(p) => p,
            None => MerklePath { nodes: Vec::new() },
        };
        let mut outputs: Vec<MemoOutput> = Vec::new();
        outputs.push(MemoOutput { memo, commitment, uid, path });
        let ev = LedgerEvent::Memos { outputs, transaction: None };
        self.query_result_state.events.push(ev);
        self.query_result_state.ledger_state.record_merkle_commitment = tree.commitment();
        self.query_result_state.ledger_state.record_merkle_frontier = tree.frontier();
        proof {
            lemma_frontier_round_trip(tree, self.query_result_state.ledger_state.record_merkle_frontier, *hash);
            assert(push_step(*hash, t0, commitment, tree));
            let ev = self.query_result_state.events@;
            let e0 = old(self).query_result_state.events@.len();
            if events_ordered(old(self).query_result_state.events@) {
                assert forall|j: int, h: u64|
                    0 <= j < ev.len() && #[trigger] ev[j].memos_of_block(h) implies exists|i: int|
                        0 <= i < j && #[trigger] ev[i].is_commit_of(h) by {
                    assert(j < e0);
                    assert(ev[j] == old(self).query_result_state.events@[j]);
                    let i = choose|i: int| 0 <= i < j && #[trigger] old(self).query_result_state.events@[i].is_commit_of(h);
                    assert(ev[i] == old(self).query_result_state.events@[i]);
                }
            }
        }
        Ok(())
    }

    /// Folds the events of one poll, in order, and says how many new
    /// heights they processed. Each event is applied whole or not at all;
    /// the first error stops the batch, with the events before it applied.
    /// The states passed through form a run of valid steps.
    pub fn check<H: Fn(FieldElem, FieldElem, FieldElem) -> FieldElem>(
        &mut self,
        events: Vec<ChainEvent>,
        hash: &H,
    ) -> (r: Result<usize, EventError>)
        requires
            hash_total(*hash),
            hash_deterministic(*hash),
        ensures
            exists|run: Seq<EthPolling>, rs: Seq<Result<bool, EventError>>|
                check_run(*old(self), *final(self), events@, *hash, run, rs, r),
            old(self).query_result_state.wf() ==> final(self).query_result_state.wf(),
            events_ordered(old(self).query_result_state.events@) ==> events_ordered(
                final(self).query_result_state.events@,
            ),
            r matches Ok(n) ==> (n > 0 <==> final(self).query_result_state.last_updated_block_height
                > old(self).query_result_state.last_updated_block_height),
    {
        let ghost evs = events@;
        let ghost mut run: Seq<EthPolling> = seq![*self];
        let ghost mut rs: Seq<Result<bool, EventError>> = Seq::empty();
        let mut queue = events;
        let n_events = queue.len();
        let mut advanced: usize = 0;
        while queue.len() > 0
            invariant
                hash_total(*hash),
                hash_deterministic(*hash),
                n_events == evs.len(),
                rs.len() <= evs.len(),
                evs == events@,
                queue@ == evs.subrange(rs.len() as int, evs.len() as int),
                advanced == count_advanced(rs),
                advanced <= rs.len(),
                run.len() == rs.len() + 1,
                run[0] == *old(self),
                run.last() == *self,
                forall|k: int|
                    0 <= k < rs.len() ==> event_outcome(#[trigger] run[k], run[k + 1], evs[k], *hash, rs[k])
                        && valid_step(run[k], run[k + 1]),
                forall|k: int| 0 <= k < rs.len() ==> (#[trigger] rs[k]) is Ok,
                old(self).query_result_state.wf() ==> self.query_result_state.wf(),
                events_ordered(old(self).query_result_state.events@) ==> events_ordered(
                    self.query_result_state.events@,
                ),
                advanced > 0 <==> self.query_result_state.last_updated_block_height
                    > old(self).query_result_state.last_updated_block_height,
            decreases queue@.len(),
        {
                        let event = queue.remove(0);
            assert(event == evs[rs.len() as int]);
            let ghost before = *self;
            let r = self.handle_event(event, hash);
            proof {
                lemma_height_monotone(run, 0, run.len() - 1);
                let run2 = run.push(*self);
                let rs2 = rs.push(r);
                assert(run2[run.len() - 1] == before);
                assert forall|k: int|
                    0 <= k < rs2.len() implies event_outcome(#[trigger] run2[k], run2[k + 1], evs[k], *hash, rs2[k])
                        && valid_step(run2[k], run2[k + 1]) by {
                    if k < rs.len() {
                        assert(run2[k] == run[k] && run2[k + 1] == run[k + 1] && rs2[k] == rs[k]);
                    }
                }
                assert(rs2.drop_last() == rs);
                assert(queue@ =~= evs.subrange(rs2.len() as int, evs.len() as int));
                run = run2;
                rs = rs2;
            }
            match r {
                Ok(true) => {
                    advanced = advanced + 1;
                },
                Ok(false) => {},
                Err(e) => {
                    proof {
                        assert(rs.drop_last() =~= rs.subrange(0, rs.len() - 1));
                        assert forall|k: int| 0 <= k < rs.len() - 1 implies (#[trigger] rs[k]) is Ok by {
                            assert(rs[k] == rs.drop_last()[k]);
                        }
                        assert(check_run(*old(self), *self, evs, *hash, run, rs, Err::<usize, EventError>(e)));
                    }
                    return Err(e);
                },
            }
        }
        proof {
            assert(check_run(*old(self), *self, evs, *hash, run, rs, Ok::<usize, EventError>(advanced)));
        }
        Ok(advanced)
    }

    /// Folds one chain event into the state. `Ok(true)` says a new height
    /// was processed.
    pub fn handle_event<H: Fn(FieldElem, FieldElem, FieldElem) -> FieldElem>(
        &mut self,
        event: ChainEvent,
        hash: &H,
    ) -> (r: Result<bool, EventError>)
        requires
            hash_total(*hash),
            hash_deterministic(*hash),
        ensures
            event_outcome(*old(self), *final(self), event, *hash, r),
            valid_step(*old(self), *final(self)),
            old(self).query_result_state.wf() ==> final(self).query_result_state.wf(),
            events_ordered(old(self).query_result_state.events@) ==> events_ordered(
                final(self).query_result_state.events@,
            ),
            final(self).query_result_state.last_updated_block_height
                > old(self).query_result_state.last_updated_block_height <==> r == Ok::<bool, EventError>(true),
    {
        reveal(event_outcome);
        match event {
            ChainEvent::BlockCommitted { block_height, block } => {
                let ghost b = block;
                let r = self.process_block_committed(block_height, block, hash);
                proof {
                    if r == Ok::<bool, EventError>(true) {
                        let e0 = old(self).query_result_state.events@.len();
                        assert(b.txns@.len() == b.memos@.len());
                        assert(block_height > old(self).query_result_state.last_updated_block_height);
                        assert(self.query_result_state.events@[e0 as int].is_commit_of(block_height));
                        assert(old(self).query_result_state.nullifiers@.subset_of(self.query_result_state.nullifiers@));
                        assert(valid_step(*old(self), *self));
                    } else if r is Err {
                        assert(*self == *old(self));
                    } else {
                        let v = r->Ok_0;
                        assert(r == Ok::<bool, EventError>(v));
                        assert(v != true);
                        assert(r == Ok::<bool, EventError>(false));
                        assert(*self == *old(self));
                    }
                }
                r
            },
            ChainEvent::Erc20TokensDeposited { wrap } => {
                self.process_deposit(wrap);
                assert(valid_step(*old(self), *self));
                Ok(false)
            },
            ChainEvent::FaucetInitialized { commitment, memo } => {
                match self.process_faucet_initialized(commitment, memo, hash) {
                    Ok(()) => {
                        assert(valid_step(*old(self), *self));
                        Ok(false)
                    },
                    Err(e) => Err(e),
                }
            },
        }
    }
}

/// What folding the block committed at `block_height` does, case by case
/// in the order the cases are tried: a block whose transaction and memo
/// counts differ is fatal; a height already processed changes nothing;
/// then the height limit, the state counter, the stored tree and the room
/// for the outputs are checked; every error leaves the state as it was;
/// otherwise the block is folded in.
pub open spec fn block_outcome<H: Fn(FieldElem, FieldElem, FieldElem) -> FieldElem>(
    old: EthPolling,
    new: EthPolling,
    block_height: u64,
    block: BlockWithMemos,
    hash: H,
    r: Result<bool, EventError>,
) -> bool {
    let s = old.query_result_state;
    let all = block_transitions(block, old.pending_commit_event@);
    if block.txns@.len() != block.memos@.len() {
        r == Err::<bool, EventError>(EventError::MemoCountMismatch {
            num_txns: block.txns@.len() as usize,
            num_memos: block.memos@.len() as usize,
        }) && new == old
    } else if block_height <= s.last_updated_block_height {
        r == Ok::<bool, EventError>(false) && new == old
    } else if block_height == u64::MAX {
        r == Err::<bool, EventError>(EventError::BlockHeightOverflow) && new == old
    } else if s.ledger_state.state_number == u64::MAX {
        r == Err::<bool, EventError>(EventError::StateNumberOverflow) && new == old
    } else if !restorable(s.ledger_state.record_merkle_commitment, s.ledger_state.record_merkle_frontier, hash) {
        r == Err::<bool, EventError>(EventError::InconsistentFrontier) && new == old
    } else if !has_room(s.ledger_state.record_merkle_commitment, outputs_before(all, all.len() as int)) {
        r == Err::<bool, EventError>(EventError::TreeFull) && new == old
    } else {
        r == Ok::<bool, EventError>(true) && block_committed(old, new, block_height, block, hash)
    }
}

/// What the faucet event does: it fails, changing nothing, when the stored
/// tree is not restorable or is full; otherwise the record is appended.
pub open spec fn faucet_outcome<H: Fn(FieldElem, FieldElem, FieldElem) -> FieldElem>(
    old: EthPolling,
    new: EthPolling,
    commitment: FieldElem,
    memo: ReceiverMemo,
    hash: H,
    r: Result<(), EventError>,
) -> bool {
    let c = old.query_result_state.ledger_state.record_merkle_commitment;
    let f = old.query_result_state.ledger_state.record_merkle_frontier;
    if !restorable(c, f, hash) {
        r == Err::<(), EventError>(EventError::InconsistentFrontier) && new == old
    } else if !has_room(c, 1) {
        r == Err::<(), EventError>(EventError::TreeFull) && new == old
    } else {
        r == Ok::<(), EventError>(()) && faucet_applied(old, new, commitment, memo, hash)
    }
}

/// What one chain event does to the translator, with the result it gives.
/// It is opaque so that long runs of events stay cheap to reason about; a
/// proof that needs the cases uses `reveal(event_outcome)`.
#[verifier::opaque]
pub open spec fn event_outcome<H: Fn(FieldElem, FieldElem, FieldElem) -> FieldElem>(
    old: EthPolling,
    new: EthPolling,
    event: ChainEvent,
    hash: H,
    r: Result<bool, EventError>,
) -> bool {
    match event {
        ChainEvent::BlockCommitted { block_height, block } => block_outcome(old, new, block_height, block, hash, r),
        ChainEvent::Erc20TokensDeposited { wrap } => {
            &&& r == Ok::<bool, EventError>(false)
            &&& new.query_result_state == old.query_result_state
            &&& new.pending_commit_event@ == old.pending_commit_event@.push(wrap)
        },
        ChainEvent::FaucetInitialized { commitment, memo } => {
            &&& r != Ok::<bool, EventError>(true)
            &&& faucet_outcome(old, new, commitment, memo, hash, match r {
                Ok(_) => Ok::<(), EventError>(()),
                Err(e) => Err::<(), EventError>(e),
            })
        },
    }
}

/// How many of the results say that a new height was processed.
pub open spec fn count_advanced(rs: Seq<Result<bool, EventError>>) -> nat
    decreases rs.len(),
{
    if rs.len() == 0 {
        0
    } else {
        count_advanced(rs.drop_last()) + if rs.last() == Ok::<bool, EventError>(true) {
            1nat
        } else {
            0nat
        }
    }
}

/// `run` are the states that folding `events` passed through, with the
/// result of each event in `rs`: each event did what `event_outcome` says,
/// in order. On success every event was folded and the result counts the
/// new heights; on an error the events before the failing one were folded
/// and the failing one changed nothing.
pub open spec fn check_run<H: Fn(FieldElem, FieldElem, FieldElem) -> FieldElem>(
    old: EthPolling,
    new: EthPolling,
    events: Seq<ChainEvent>,
    hash: H,
    run: Seq<EthPolling>,
    rs: Seq<Result<bool, EventError>>,
    r: Result<usize, EventError>,
) -> bool {
    &&& run.len() == rs.len() + 1
    &&& rs.len() <= events.len()
    &&& run[0] == old
    &&& run.last() == new
    &&& forall|k: int|
        0 <= k < rs.len() ==> event_outcome(#[trigger] run[k], run[k + 1], events[k], hash, rs[k])
            && valid_step(run[k], run[k + 1])
    &&& match r {
        Ok(n) => rs.len() == events.len() && (forall|k: int| 0 <= k < rs.len() ==> (#[trigger] rs[k]) is Ok)
            && n == count_advanced(rs),
        Err(e) => rs.len() > 0 && rs.last() == Err::<bool, EventError>(e) && (forall|k: int|
            0 <= k < rs.len() - 1 ==> (#[trigger] rs[k]) is Ok),
    }
}

/// `new` is `old` with the faucet record `commitment` appended and its memo
/// published.
pub open spec fn faucet_applied<H: Fn(FieldElem, FieldElem, FieldElem) -> FieldElem>(
    old: EthPolling,
    new: EthPolling,
    commitment: FieldElem,
    memo: ReceiverMemo,
    hash: H,
) -> bool {
    let s = old.query_result_state;
    let t = new.query_result_state;
    let e0 = s.events@.len();
    &&& t.ledger_state.record_merkle_commitment.num_leaves == s.ledger_state.record_merkle_commitment.num_leaves + 1
    &&& t.ledger_state.record_merkle_commitment.height == s.ledger_state.record_merkle_commitment.height
    &&& restorable(t.ledger_state.record_merkle_commitment, t.ledger_state.record_merkle_frontier, hash)
    &&& exists|t0: RecordsTree, t1: RecordsTree|
        t0.wf_under(hash)
            && t0.spec_commitment() == s.ledger_state.record_merkle_commitment
            && t0.frontier_is(s.ledger_state.record_merkle_frontier)
            && push_step(hash, t0, commitment, t1)
            && t1.spec_commitment() == t.ledger_state.record_merkle_commitment
            && t1.frontier_is(t.ledger_state.record_merkle_frontier)
    &&& t.ledger_state.state_number == s.ledger_state.state_number
    &&& t.events@.len() == e0 + 1
    &&& forall|k: int| 0 <= k < e0 ==> #[trigger] t.events@[k] == s.events@[k]
    &&& t.events@[e0 as int] matches LedgerEvent::Memos { outputs, transaction }
        && transaction is None && outputs@.len() == 1
        && outputs@[0].commitment == commitment
        && outputs@[0].uid == s.ledger_state.record_merkle_commitment.num_leaves
        && outputs@[0].memo == memo
    &&& t.nullifiers == s.nullifiers
    &&& t.transaction_by_id == s.transaction_by_id
    &&& t.transaction_id_by_hash == s.transaction_id_by_hash
    &&& t.contract_address == s.contract_address
    &&& t.last_updated_block_height == s.last_updated_block_height
    &&& new.pending_commit_event == old.pending_commit_event
}

/// Every memo event of a block comes after that block's commit event.
pub open spec fn events_ordered(events: Seq<LedgerEvent>) -> bool {
    forall|j: int, h: u64|
        0 <= j < events.len() && #[trigger] events[j].memos_of_block(h) ==> exists|i: int|
            0 <= i < j && #[trigger] events[i].is_commit_of(h)
}

/// One step of the translator as any event makes it: the height never goes
/// back, and goes forward only with the commit event of the new height; the
/// nullifier set only grows; the event log and the index only grow at
/// their ends.
pub open spec fn valid_step(a: EthPolling, b: EthPolling) -> bool {
    let s = a.query_result_state;
    let t = b.query_result_state;
    &&& s.last_updated_block_height <= t.last_updated_block_height
    &&& s.nullifiers@.subset_of(t.nullifiers@)
    &&& s.events@.len() <= t.events@.len()
    &&& forall|k: int| 0 <= k < s.events@.len() ==> #[trigger] t.events@[k] == s.events@[k]
    &&& s.transaction_by_id@.len() <= t.transaction_by_id@.len()
    &&& forall|k: int| 0 <= k < s.transaction_by_id@.len() ==> #[trigger] t.transaction_by_id@[k] == s.transaction_by_id@[k]
    &&& t.last_updated_block_height > s.last_updated_block_height ==> s.events@.len() < t.events@.len()
        && t.events@[s.events@.len() as int].is_commit_of(t.last_updated_block_height)
}


proof fn lemma_run_events_grow(run: Seq<EthPolling>, i: int, j: int)
    requires
        forall|k: int| 0 <= k < run.len() - 1 ==> valid_step(#[trigger] run[k], run[k + 1]),
        0 <= i <= j < run.len(),
    ensures
        run[i].query_result_state.events@.len() <= run[j].query_result_state.events@.len(),
        forall|k: int|
            0 <= k < run[i].query_result_state.events@.len() ==> #[trigger] run[j].query_result_state.events@[k]
                == run[i].query_result_state.events@[k],
    decreases j - i,
{
    if i < j {
        lemma_run_events_grow(run, i, j - 1);
        assert(valid_step(run[j - 1], run[j]));
    }
}

/// Over any run of the translator, the processed height never goes back.
pub proof fn lemma_height_monotone(run: Seq<EthPolling>, i: int, j: int)
    requires
        forall|k: int| 0 <= k < run.len() - 1 ==> valid_step(#[trigger] run[k], run[k + 1]),
        0 <= i <= j < run.len(),
    ensures
        run[i].query_result_state.last_updated_block_height <= run[j].query_result_state.last_updated_block_height,
    decreases j - i,
{
    if i < j {
        lemma_height_monotone(run, i, j - 1);
        assert(valid_step(run[j - 1], run[j]));
    }
}

/// Over any run of the translator, the height moves forward only when a
/// new height was processed: the log gained that height's commit event.
pub proof fn lemma_height_advance_has_commit(run: Seq<EthPolling>, i: int, j: int)
    requires
        forall|k: int| 0 <= k < run.len() - 1 ==> valid_step(#[trigger] run[k], run[k + 1]),
        0 <= i <= j < run.len(),
        run[j].query_result_state.last_updated_block_height > run[i].query_result_state.last_updated_block_height,
    ensures
        exists|k: int|
            run[i].query_result_state.events@.len() <= k < run[j].query_result_state.events@.len()
                && #[trigger] run[j].query_result_state.events@[k].is_commit_of(
                run[j].query_result_state.last_updated_block_height,
            ),
    decreases j - i,
{
    assert(i < j);
    assert(valid_step(run[j - 1], run[j]));
    lemma_run_events_grow(run, i, j - 1);
    let hj = run[j].query_result_state.last_updated_block_height;
    if hj > run[j - 1].query_result_state.last_updated_block_height {
        let k = run[j - 1].query_result_state.events@.len() as int;
        assert(run[j].query_result_state.events@[k].is_commit_of(hj));
    } else {
        lemma_height_advance_has_commit(run, i, j - 1);
        let k = choose|k: int|
            run[i].query_result_state.events@.len() <= k < run[j - 1].query_result_state.events@.len()
                && #[trigger] run[j - 1].query_result_state.events@[k].is_commit_of(
                run[j - 1].query_result_state.last_updated_block_height,
            );
        assert(run[j].query_result_state.events@[k] == run[j - 1].query_result_state.events@[k]);
    }
}

/// Over any run of the translator, a nullifier once in the set stays there.
pub proof fn lemma_nullifier_monotone(run: Seq<EthPolling>, i: int, j: int, n: FieldElem)
    requires
        forall|k: int| 0 <= k < run.len() - 1 ==> valid_step(#[trigger] run[k], run[k + 1]),
        0 <= i <= j < run.len(),
        run[i].query_result_state.nullifiers@.contains(n),
    ensures
        run[j].query_result_state.nullifiers@.contains(n),
    decreases j - i,
{
    if i < j {
        lemma_nullifier_monotone(run, i, j - 1, n);
        assert(valid_step(run[j - 1], run[j]));
    }
}

/// When a block's height is published, all of its effects are there with
/// it: every transition of the block is indexed under that height, and
/// every nullifier it spends is in the set.
pub proof fn lemma_height_advance_complete<H: Fn(FieldElem, FieldElem, FieldElem) -> FieldElem>(
    old: EthPolling,
    new: EthPolling,
    block_height: u64,
    block: BlockWithMemos,
    hash: H,
    i: int,
    n: FieldElem,
)
    requires
        block_committed(old, new, block_height, block, hash),
        0 <= i < block_transitions(block, old.pending_commit_event@).len(),
    ensures
        new.query_result_state.last_updated_block_height == block_height,
        ({
            let c = new.query_result_state.transaction_by_id@[old.query_result_state.transaction_by_id@.len() + i];
            &&& c.block_id == block_height
            &&& c.txn_id == i
            &&& c.transition@ == block_transitions(block, old.pending_commit_event@)[i]
            &&& c.transition@.nullifiers().contains(n) ==> new.query_result_state.nullifiers@.contains(n)
        }),
{
    let all = block_transitions(block, old.pending_commit_event@);
    let x0 = old.query_result_state.transaction_by_id@.len();
    assert(committed_ok(new.query_result_state.transaction_by_id@[x0 + i], block_height, i, all[i], (old.query_result_state.ledger_state.record_merkle_commitment.num_leaves + outputs_before(all, i)) as nat));
    lemma_nullifiers_before_covers(all, i, all.len() as int);
    if all[i].nullifiers().contains(n) {
        let k = choose|k: int| 0 <= k < all[i].nullifiers().len() && all[i].nullifiers()[k] == n;
        assert(all[i].nullifiers().to_set().contains(n));
    }
}

proof fn lemma_outputs_of_concat(a: Seq<TransitionView>, b: Seq<TransitionView>, j: int)
    requires
        0 <= j <= b.len(),
    ensures
        outputs_of(a + b, a.len() + j) == outputs_of(a, a.len() as int) + outputs_of(b, j),
    decreases j,
{
    if j == 0 {
        lemma_outputs_of_prefix(a, b, a.len() as int);
        assert(outputs_of(a, a.len() as int) + outputs_of(b, 0) =~= outputs_of(a, a.len() as int));
    } else {
        lemma_outputs_of_concat(a, b, j - 1);
        assert((a + b)[a.len() + j - 1] == b[j - 1]);
        assert(outputs_of(a + b, a.len() + j) =~= outputs_of(a, a.len() as int) + outputs_of(b, j));
    }
}

proof fn lemma_outputs_of_prefix(a: Seq<TransitionView>, b: Seq<TransitionView>, i: int)
    requires
        0 <= i <= a.len(),
    ensures
        outputs_of(a + b, i) == outputs_of(a, i),
    decreases i,
{
    if i > 0 {
        lemma_outputs_of_prefix(a, b, i - 1);
        assert((a + b)[i - 1] == a[i - 1]);
    }
}

/// A committed block inserts its own transactions' outputs first, then the
/// outputs of the wraps that were waiting for it, each group in order.
pub proof fn lemma_wraps_follow_block<H: Fn(FieldElem, FieldElem, FieldElem) -> FieldElem>(
    old: EthPolling,
    new: EthPolling,
    block_height: u64,
    block: BlockWithMemos,
    hash: H,
)
    requires
        block_committed(old, new, block_height, block, hash),
    ensures
        exists|run: Seq<RecordsTree>|
            push_run(
                hash,
                run,
                outputs_of(transitions_view(block.txns@), block.txns@.len() as int) + outputs_of(
                    transitions_view(old.pending_commit_event@),
                    old.pending_commit_event@.len() as int,
                ),
            ) && run[0].spec_commitment() == old.query_result_state.ledger_state.record_merkle_commitment
                && run.last().spec_commitment() == new.query_result_state.ledger_state.record_merkle_commitment,
{
    let a = transitions_view(block.txns@);
    let b = transitions_view(old.pending_commit_event@);
    lemma_outputs_of_concat(a, b, b.len() as int);
    assert(a + b == block_transitions(block, old.pending_commit_event@));
}

/// Step `k` of a run of `check` did what its event calls for: a committed
/// block as `block_outcome` says, a deposit buffered with the state
/// untouched, the faucet record as `faucet_outcome` says.
pub proof fn lemma_check_step<H: Fn(FieldElem, FieldElem, FieldElem) -> FieldElem>(
    old: EthPolling,
    new: EthPolling,
    events: Seq<ChainEvent>,
    hash: H,
    run: Seq<EthPolling>,
    rs: Seq<Result<bool, EventError>>,
    r: Result<usize, EventError>,
    k: int,
)
    requires
        check_run(old, new, events, hash, run, rs, r),
        0 <= k < rs.len(),
    ensures
        valid_step(run[k], run[k + 1]),
        match events[k] {
            ChainEvent::BlockCommitted { block_height, block } => block_outcome(
                run[k],
                run[k + 1],
                block_height,
                block,
                hash,
                rs[k],
            ),
            ChainEvent::Erc20TokensDeposited { wrap } => rs[k] == Ok::<bool, EventError>(false)
                && run[k + 1].query_result_state == run[k].query_result_state
                && run[k + 1].pending_commit_event@ == run[k].pending_commit_event@.push(wrap),
            ChainEvent::FaucetInitialized { commitment, memo } => rs[k] != Ok::<bool, EventError>(true)
                && faucet_outcome(run[k], run[k + 1], commitment, memo, hash, match rs[k] {
                Ok(_) => Ok::<(), EventError>(()),
                Err(e) => Err::<(), EventError>(e),
            }),
        },
{
    reveal(event_outcome);
    assert(event_outcome(run[k], run[k + 1], events[k], hash, rs[k]));
}

} // verus!
