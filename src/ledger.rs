//! Ledger transitions, ledger events, the nullifier set and the service's
//! state, with their mathematical views.
use crate::merkle::{FieldElem, Frontier, MerklePath, PathNode, TreeCommitment};
use vstd::prelude::*;

verus! {

/// An Ethereum address.
#[derive(Clone, Copy, Debug, PartialEq, Eq, Structural)]
pub struct EthereumAddr {
    pub hi: u64,
    pub mid: u64,
    pub lo: u32,
}

/// The content-addressed commitment hash of a transition.
#[derive(Clone, Copy, Debug, PartialEq, Eq, Structural)]
pub struct TxnHash {
    pub h0: u64,
    pub h1: u64,
    pub h2: u64,
    pub h3: u64,
}

/// What a transition does, for event annotation.
#[derive(Clone, Copy, Debug, PartialEq, Eq, Structural)]
pub enum TransitionKind {
    Send,
    Mint,
    Freeze,
    Unfreeze,
    Burn,
    Wrap,
}

/// An encrypted receiver memo, as bytes.
#[derive(Clone, Debug)]
pub struct ReceiverMemo {
    pub data: Vec<u8>,
}

pub fn copy_bytes(v: &Vec<u8>) -> (r: Vec<u8>)
    ensures
        r@ == v@,
{
    let mut r: Vec<u8> = Vec::new();
    let mut i: usize = 0;
    while i < v.len()
        invariant
            i <= v@.len(),
            r@ == v@.subrange(0, i as int),
        decreases v@.len() - i,
    {
        r.push(v[i]);
        i = i + 1;
        assert(r@ =~= v@.subrange(0, i as int));
    }
    assert(r@ =~= v@);
    r
}

pub fn copy_elems(v: &Vec<FieldElem>) -> (r: Vec<FieldElem>)
    ensures
        r@ == v@,
{
    let mut r: Vec<FieldElem> = Vec::new();
    let mut i: usize = 0;
    while i < v.len()
        invariant
            i <= v@.len(),
            r@ == v@.subrange(0, i as int),
        decreases v@.len() - i,
    {
        r.push(v[i]);
        i = i + 1;
        assert(r@ =~= v@.subrange(0, i as int));
    }
    assert(r@ =~= v@);
    r
}

pub fn copy_path(p: &MerklePath) -> (r: MerklePath)
    ensures
        r.nodes@ == p.nodes@,
{
    let mut r: Vec<PathNode> = Vec::new();
    let mut i: usize = 0;
    while i < p.nodes.len()
        invariant
            i <= p.nodes@.len(),
            r@ == p.nodes@.subrange(0, i as int),
        decreases p.nodes@.len() - i,
    {
        r.push(p.nodes[i]);
        i = i + 1;
        assert(r@ =~= p.nodes@.subrange(0, i as int));
    }
    assert(r@ =~= p.nodes@);
    MerklePath { nodes: r }
}

impl ReceiverMemo {
    pub fn copy(&self) -> (r: ReceiverMemo)
        ensures
            r.data@ == self.data@,
    {
        ReceiverMemo { data: copy_bytes(&self.data) }
    }
}

/// A ledger transition: a verified transaction note, or the deposit of an
/// ERC20 token as one new record.
#[derive(Clone, Debug)]
pub enum Transition {
    Transaction {
        kind: TransitionKind,
        nullifiers: Vec<FieldElem>,
        outputs: Vec<FieldElem>,
        hash: TxnHash,
    },
    Wrap { output: FieldElem, erc20_code: EthereumAddr, src_addr: EthereumAddr, hash: TxnHash },
}

/// The mathematical value of a transition.
pub enum TransitionView {
    Transaction {
        kind: TransitionKind,
        nullifiers: Seq<FieldElem>,
        outputs: Seq<FieldElem>,
        hash: TxnHash,
    },
    Wrap { output: FieldElem, erc20_code: EthereumAddr, src_addr: EthereumAddr, hash: TxnHash },
}

impl TransitionView {
    /// The record commitments the transition produces, in order.
    pub open spec fn outputs(self) -> Seq<FieldElem> {
        match self {
            TransitionView::Transaction { outputs, .. } => outputs,
            TransitionView::Wrap { output, .. } => seq![output],
        }
    }

    /// The nullifiers the transition spends.
    pub open spec fn nullifiers(self) -> Seq<FieldElem> {
        match self {
            TransitionView::Transaction { nullifiers, .. } => nullifiers,
            TransitionView::Wrap { .. } => Seq::empty(),
        }
    }

    pub open spec fn kind(self) -> TransitionKind {
        match self {
            TransitionView::Transaction { kind, .. } => kind,
            TransitionView::Wrap { .. } => TransitionKind::Wrap,
        }
    }

    pub open spec fn hash(self) -> TxnHash {
        match self {
            TransitionView::Transaction { hash, .. } => hash,
            TransitionView::Wrap { hash, .. } => hash,
        }
    }
}

impl View for Transition {
    type V = TransitionView;

    open spec fn view(&self) -> TransitionView {
        match self {
            Transition::Transaction { kind, nullifiers, outputs, hash } => TransitionView::Transaction {
                kind: *kind,
                nullifiers: nullifiers@,
                outputs: outputs@,
                hash: *hash,
            },
            Transition::Wrap { output, erc20_code, src_addr, hash } => TransitionView::Wrap {
                output: *output,
                erc20_code: *erc20_code,
                src_addr: *src_addr,
                hash: *hash,
            },
        }
    }
}

/// The views of a sequence of transitions.
pub open spec fn transitions_view(ts: Seq<Transition>) -> Seq<TransitionView> {
    ts.map_values(|t: Transition| t@)
}

impl Transition {
    pub fn copy(&self) -> (r: Transition)
        ensures
            r@ == self@,
    {
        match self {
            Transition::Transaction { kind, nullifiers, outputs, hash } => Transition::Transaction {
                kind: *kind,
                nullifiers: copy_elems(nullifiers),
                outputs: copy_elems(outputs),
                hash: *hash,
            },
            Transition::Wrap { output, erc20_code, src_addr, hash } => Transition::Wrap {
                output: *output,
                erc20_code: *erc20_code,
                src_addr: *src_addr,
                hash: *hash,
            },
        }
    }

    /// The number of records the transition produces.
    pub fn output_len(&self) -> (r: usize)
        ensures
            r == self@.outputs().len(),
    {
        match self {
            Transition::Transaction { outputs, .. } => outputs.len(),
            Transition::Wrap { .. } => 1,
        }
    }

    /// The `i`-th record commitment the transition produces.
    pub fn output(&self, i: usize) -> (r: FieldElem)
        requires
            i < self@.outputs().len(),
        ensures
            r == self@.outputs()[i as int],
    {
        match self {
            Transition::Transaction { outputs, .. } => outputs[i],
            Transition::Wrap { output, .. } => *output,
        }
    }

    /// The nullifiers the transition spends.
    pub fn proven_nullifiers(&self) -> (r: Vec<FieldElem>)
        ensures
            r@ == self@.nullifiers(),
    {
        match self {
            Transition::Transaction { nullifiers, .. } => copy_elems(nullifiers),
            Transition::Wrap { .. } => Vec::new(),
        }
    }

    pub fn kind(&self) -> (r: TransitionKind)
        ensures
            r == self@.kind(),
    {
        match self {
            Transition::Transaction { kind, .. } => *kind,
            Transition::Wrap { .. } => TransitionKind::Wrap,
        }
    }

    /// The transition's commitment hash.
    pub fn commit(&self) -> (r: TxnHash)
        ensures
            r == self@.hash(),
    {
        match self {
            Transition::Transaction { hash, .. } => *hash,
            Transition::Wrap { hash, .. } => *hash,
        }
    }
}

/// The set of spent nullifiers. It only grows.
#[derive(Clone, Debug)]
pub struct NullifierSet {
    pub items: Vec<FieldElem>,
}

impl View for NullifierSet {
    type V = Set<FieldElem>;

    open spec fn view(&self) -> Set<FieldElem> {
        self.items@.to_set()
    }
}

impl NullifierSet {
    pub fn new() -> (r: NullifierSet)
        ensures
            r@ == Set::<FieldElem>::empty(),
    {
        let r = NullifierSet { items: Vec::new() };
        assert(r@ =~= Set::<FieldElem>::empty());
        r
    }

    pub fn contains(&self, n: &FieldElem) -> (r: bool)
        ensures
            r == self@.contains(*n),
    {
        let mut i: usize = 0;
        while i < self.items.len()
            invariant
                i <= self.items@.len(),
                forall|j: int| 0 <= j < i ==> self.items@[j] != *n,
            decreases self.items@.len() - i,
        {
            if self.items[i] == *n {
                assert(self.items@.contains(*n));
                return true;
            }
            i = i + 1;
        }
        assert(!self.items@.contains(*n));
        false
    }

    pub fn insert(&mut self, n: FieldElem)
        ensures
            final(self)@ == old(self)@.insert(n),
    {
        if !self.contains(&n) {
            self.items.push(n);
            proof {
                old(self).items@.lemma_push_to_set_commute(n);
            }
        } else {
            assert(old(self)@.insert(n) =~= old(self)@);
        }
    }

    /// Adds every element of `ns`.
    pub fn insert_all(&mut self, ns: &Vec<FieldElem>)
        ensures
            final(self)@ == old(self)@.union(ns@.to_set()),
    {
        let mut i: usize = 0;
        while i < ns.len()
            invariant
                i <= ns@.len(),
                self@ == old(self)@.union(ns@.subrange(0, i as int).to_set()),
            decreases ns@.len() - i,
        {
            self.insert(ns[i]);
            proof {
                assert(ns@.subrange(0, i + 1) =~= ns@.subrange(0, i as int).push(ns@[i as int]));
                ns@.subrange(0, i as int).lemma_push_to_set_commute(ns@[i as int]);
                assert(self@ =~= old(self)@.union(ns@.subrange(0, i + 1).to_set()));
            }
            i = i + 1;
        }
        assert(ns@.subrange(0, i as int) =~= ns@);
    }

    /// The elements, in insertion order.
    pub fn to_vec(&self) -> (r: Vec<FieldElem>)
        ensures
            r@.to_set() == self@,
    {
        copy_elems(&self.items)
    }
}

/// One output disclosed by a memo event: the memo, the record commitment,
/// its leaf index and its membership path when it was inserted.
#[derive(Clone, Debug)]
pub struct MemoOutput {
    pub memo: ReceiverMemo,
    pub commitment: FieldElem,
    pub uid: u64,
    pub path: MerklePath,
}

/// An event of the ledger's event log.
#[derive(Clone, Debug)]
pub enum LedgerEvent {
    /// A block was committed.
    Commit { block: Vec<Transition>, block_id: u64, state_comm: u64 },
    /// Receiver memos of one transaction (or of the faucet record) were
    /// published.
    Memos { outputs: Vec<MemoOutput>, transaction: Option<(u64, u64, TransitionKind)> },
}

impl LedgerEvent {
    pub open spec fn is_commit_of(&self, height: u64) -> bool {
        match self {
            LedgerEvent::Commit { block_id, .. } => *block_id == height,
            _ => false,
        }
    }

    pub open spec fn memos_of_block(&self, height: u64) -> bool {
        match self {
            LedgerEvent::Memos { transaction: Some(t), .. } => t.0 == height,
            _ => false,
        }
    }
}

/// The mathematical value of a memo output.
pub struct MemoOutputView {
    pub memo: Seq<u8>,
    pub commitment: FieldElem,
    pub uid: u64,
    pub path: Seq<PathNode>,
}

impl View for MemoOutput {
    type V = MemoOutputView;

    open spec fn view(&self) -> MemoOutputView {
        MemoOutputView {
            memo: self.memo.data@,
            commitment: self.commitment,
            uid: self.uid,
            path: self.path.nodes@,
        }
    }
}

/// The mathematical value of a ledger event.
pub enum LedgerEventView {
    Commit { block: Seq<TransitionView>, block_id: u64, state_comm: u64 },
    Memos { outputs: Seq<MemoOutputView>, transaction: Option<(u64, u64, TransitionKind)> },
}

impl View for LedgerEvent {
    type V = LedgerEventView;

    open spec fn view(&self) -> LedgerEventView {
        match self {
            LedgerEvent::Commit { block, block_id, state_comm } => LedgerEventView::Commit {
                block: transitions_view(block@),
                block_id: *block_id,
                state_comm: *state_comm,
            },
            LedgerEvent::Memos { outputs, transaction } => LedgerEventView::Memos {
                outputs: outputs@.map_values(|o: MemoOutput| o@),
                transaction: *transaction,
            },
        }
    }
}

/// The views of a sequence of events.
pub open spec fn events_view(es: Seq<LedgerEvent>) -> Seq<LedgerEventView> {
    es.map_values(|e: LedgerEvent| e@)
}

impl MemoOutput {
    pub fn copy(&self) -> (r: MemoOutput)
        ensures
            r@ == self@,
    {
        MemoOutput {
            memo: self.memo.copy(),
            commitment: self.commitment,
            uid: self.uid,
            path: copy_path(&self.path),
        }
    }
}

impl LedgerEvent {
    pub fn copy(&self) -> (r: LedgerEvent)
        ensures
            r@ == self@,
    {
        match self {
            LedgerEvent::Commit { block, block_id, state_comm } => {
                let mut b: Vec<Transition> = Vec::new();
                let mut i: usize = 0;
                while i < block.len()
                    invariant
                        i <= block@.len(),
                        b@.len() == i,
                        forall|j: int| 0 <= j < i ==> (#[trigger] b@[j])@ == block@[j]@,
                    decreases block@.len() - i,
                {
                    b.push(block[i].copy());
                    i = i + 1;
                }
                assert(transitions_view(b@) =~= transitions_view(block@));
                LedgerEvent::Commit { block: b, block_id: *block_id, state_comm: *state_comm }
            },
            LedgerEvent::Memos { outputs, transaction } => {
                let mut o: Vec<MemoOutput> = Vec::new();
                let mut i: usize = 0;
                while i < outputs.len()
                    invariant
                        i <= outputs@.len(),
                        o@.len() == i,
                        forall|j: int| 0 <= j < i ==> (#[trigger] o@[j])@ == outputs@[j]@,
                    decreases outputs@.len() - i,
                {
                    o.push(outputs[i].copy());
                    i = i + 1;
                }
                assert(o@.map_values(|x: MemoOutput| x@) =~= outputs@.map_values(|x: MemoOutput| x@));
                LedgerEvent::Memos { outputs: o, transaction: *transaction }
            },
        }
    }
}

pub fn copy_frontier(f: &Frontier) -> (r: Frontier)
    ensures
        match (*f, r) {
            (Frontier::Empty, Frontier::Empty) => true,
            (Frontier::Proof { leaf: l1, path: p1 }, Frontier::Proof { leaf: l2, path: p2 }) => l1
                == l2 && p1.nodes@ == p2.nodes@,
            _ => false,
        },
{
    match f {
        Frontier::Empty => Frontier::Empty,
        Frontier::Proof { leaf, path } => Frontier::Proof { leaf: *leaf, path: copy_path(path) },
    }
}

/// A transition as committed: where it stands in the chain and which leaves
/// of the records tree it produced.
#[derive(Clone, Debug)]
pub struct CommittedTransition {
    pub block_id: u64,
    pub txn_id: u64,
    pub output_start: u64,
    pub output_size: u64,
    pub transition: Transition,
}

impl CommittedTransition {
    pub fn copy(&self) -> (r: CommittedTransition)
        ensures
            r.block_id == self.block_id,
            r.txn_id == self.txn_id,
            r.output_start == self.output_start,
            r.output_size == self.output_size,
            r.transition@ == self.transition@,
    {
        CommittedTransition {
            block_id: self.block_id,
            txn_id: self.txn_id,
            output_start: self.output_start,
            output_size: self.output_size,
            transition: self.transition.copy(),
        }
    }
}

/// The ledger's authoritative snapshot.
#[derive(Clone, Debug)]
pub struct LedgerState {
    pub state_number: u64,
    pub record_merkle_commitment: TreeCommitment,
    pub record_merkle_frontier: Frontier,
}

/// The state the query service publishes.
pub struct QueryResultState {
    pub ledger_state: LedgerState,
    pub events: Vec<LedgerEvent>,
    pub nullifiers: NullifierSet,
    pub transaction_by_id: Vec<CommittedTransition>,
    pub transaction_id_by_hash: Vec<(TxnHash, (u64, u64))>,
    pub contract_address: Option<EthereumAddr>,
    pub last_updated_block_height: u64,
}

impl QueryResultState {
    /// A fresh state: an empty records tree of the given height and nothing
    /// processed.
    pub fn new(merkle_height: u8) -> (r: QueryResultState)
        ensures
            r.wf(),
            r.ledger_state.state_number == 0,
            r.ledger_state.record_merkle_commitment.num_leaves == 0,
            r.ledger_state.record_merkle_commitment.height == merkle_height,
            r.ledger_state.record_merkle_commitment.root_value == crate::merkle::empty_node_value(),
            r.ledger_state.record_merkle_frontier is Empty,
            r.events@.len() == 0,
            r.nullifiers@ == Set::<FieldElem>::empty(),
            r.transaction_by_id@.len() == 0,
            r.contract_address is None,
            r.last_updated_block_height == 0,
    {
        QueryResultState {
            ledger_state: LedgerState {
                state_number: 0,
                record_merkle_commitment: TreeCommitment {
                    root_value: FieldElem::zero(),
                    height: merkle_height,
                    num_leaves: 0,
                },
                record_merkle_frontier: Frontier::Empty,
            },
            events: Vec::new(),
            nullifiers: NullifierSet::new(),
            transaction_by_id: Vec::new(),
            transaction_id_by_hash: Vec::new(),
            contract_address: None,
            last_updated_block_height: 0,
        }
    }

    /// Every indexed transition belongs to a processed height, and its
    /// nullifiers are in the set.
    pub open spec fn wf(&self) -> bool {
        &&& index_keys_unique(self.transaction_by_id@)
        &&& hash_keys_unique(self.transaction_id_by_hash@)
        &&& forall|i: int|
            0 <= i < self.transaction_by_id@.len() ==> {
                let c = #[trigger] self.transaction_by_id@[i];
                &&& c.block_id <= self.last_updated_block_height
                &&& forall|k: int|
                    0 <= k < c.transition@.nullifiers().len() ==> self.nullifiers@.contains(
                        c.transition@.nullifiers()[k],
                    )
            }
    }
}

/// No two entries of the transaction index have the same
/// `(block_id, txn_id)`.
pub open spec fn index_keys_unique(v: Seq<CommittedTransition>) -> bool {
    forall|i: int, j: int|
        0 <= i < j < v.len() ==> !((#[trigger] v[i]).block_id == (#[trigger] v[j]).block_id && v[i].txn_id
            == v[j].txn_id)
}

/// No two entries of the hash index have the same hash.
pub open spec fn hash_keys_unique(v: Seq<(TxnHash, (u64, u64))>) -> bool {
    forall|i: int, j: int| 0 <= i < j < v.len() ==> (#[trigger] v[i]).0 != (#[trigger] v[j]).0
}

/// The hash index as a map from hash to `(block_id, txn_id)`.
pub open spec fn hash_index(v: Seq<(TxnHash, (u64, u64))>) -> Map<TxnHash, (u64, u64)> {
    Map::new(
        |h: TxnHash| exists|k: int| 0 <= k < v.len() && (#[trigger] v[k]).0 == h,
        |h: TxnHash| v[choose|k: int| 0 <= k < v.len() && (#[trigger] v[k]).0 == h].1,
    )
}

/// Records that the transition with hash `h` is `id`, replacing what was
/// recorded for `h` before.
pub fn insert_hash_entry(v: &mut Vec<(TxnHash, (u64, u64))>, h: TxnHash, id: (u64, u64))
    ensures
        hash_keys_unique(old(v)@) ==> hash_keys_unique(final(v)@) && hash_index(final(v)@) == hash_index(
            old(v)@,
        ).insert(h, id),
{
    let ghost before = v@;
    let mut i: usize = 0;
    while i < v.len()
        invariant
            v@ == before,
            before == old(v)@,
            i <= v@.len(),
            forall|j: int| 0 <= j < i ==> (#[trigger] v@[j]).0 != h,
        decreases v@.len() - i,
    {
        if v[i].0 == h {
            v.set(i, (h, id));
            proof {
              if hash_keys_unique(before) {
                let m = hash_index(v@);
                let m0 = hash_index(before).insert(h, id);
                assert forall|j: int, k: int| 0 <= j < k < v@.len() implies (#[trigger] v@[j]).0 != (#[trigger] v@[k]).0 by {
                    assert(before[j].0 == v@[j].0 && before[k].0 == v@[k].0);
                }
                assert forall|x: TxnHash| #[trigger] m.contains_key(x) <==> m0.contains_key(x) by {
                    if m0.contains_key(x) && x != h {
                        let k = choose|k: int| 0 <= k < before.len() && (#[trigger] before[k]).0 == x;
                        assert(v@[k].0 == x);
                    }
                    if x == h {
                        assert(v@[i as int].0 == h);
                    }
                    if m.contains_key(x) {
                        let k = choose|k: int| 0 <= k < v@.len() && (#[trigger] v@[k]).0 == x;
                        assert(before[k].0 == x);
                    }
                }
                assert forall|x: TxnHash| #[trigger] m.contains_key(x) implies m[x] == m0[x] by {
                    let k = choose|k: int| 0 <= k < v@.len() && (#[trigger] v@[k]).0 == x;
                    if x == h {
                        assert(k == i) by {
                            if k != i {
                                assert(before[k].0 == h && before[i as int].0 == h);
                            }
                        }
                    } else {
                        assert(k != i);
                        let k0 = choose|k: int| 0 <= k < before.len() && (#[trigger] before[k]).0 == x;
                        assert(k == k0) by {
                            if k != k0 {
                                assert(before[k].0 == x && before[k0].0 == x);
                            }
                        }
                    }
                }
                assert(m =~= m0);
              }
            }
            return;
        }
        i = i + 1;
    }
    v.push((h, id));
    proof {
      if hash_keys_unique(before) {
        let m = hash_index(v@);
        let m0 = hash_index(before).insert(h, id);
        assert forall|j: int, k: int| 0 <= j < k < v@.len() implies (#[trigger] v@[j]).0 != (#[trigger] v@[k]).0 by {
            if k < before.len() {
                assert(before[j] == v@[j] && before[k] == v@[k]);
            } else {
                assert(before[j] == v@[j]);
            }
        }
        assert forall|x: TxnHash| #[trigger] m.contains_key(x) <==> m0.contains_key(x) by {
            if m0.contains_key(x) && x != h {
                let k = choose|k: int| 0 <= k < before.len() && (#[trigger] before[k]).0 == x;
                assert(v@[k] == before[k]);
            }
            if x == h {
                assert(v@[before.len() as int].0 == h);
            }
            if m.contains_key(x) && x != h {
                let k = choose|k: int| 0 <= k < v@.len() && (#[trigger] v@[k]).0 == x;
                assert(k < before.len());
                assert(before[k].0 == x);
            }
        }
        assert forall|x: TxnHash| #[trigger] m.contains_key(x) implies m[x] == m0[x] by {
            let k = choose|k: int| 0 <= k < v@.len() && (#[trigger] v@[k]).0 == x;
            if x == h {
                assert(k == before.len()) by {
                    if k < before.len() {
                        assert(before[k].0 == h);
                    }
                }
            } else {
                let k0 = choose|k: int| 0 <= k < before.len() && (#[trigger] before[k]).0 == x;
                assert(v@[k0] == before[k0]);
                assert(k == k0) by {
                    if k != k0 {
                        if k < before.len() {
                            assert(before[k].0 == x);
                        }
                    }
                }
            }
        }
        assert(m =~= m0);
      }
    }
}

} // verus!
