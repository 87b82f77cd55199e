//! The records commitment tree: a ternary Merkle tree of fixed height that
//! keeps only the path of its most recent leaf (its frontier).
//!
//! The node hash belongs to the proof system (a Rescue sponge over three
//! field elements) and is handed in by the caller as a closure. Contracts
//! speak of it through what the closure ensures: a leaf node is the hash of
//! the empty value, the leaf's uid and its element; an inner node is the
//! hash of its three children, left to right; an empty subtree has the
//! empty value. Statements that compare two computations of one root also
//! ask the closure to be a function of its inputs.
use vstd::arithmetic::div_mod::lemma_div_denominator;
use vstd::prelude::*;

verus! {

/// A field element, as four little-endian 64-bit limbs.
#[derive(Clone, Copy, Debug, PartialEq, Eq, Structural)]
pub struct FieldElem {
    pub l0: u64,
    pub l1: u64,
    pub l2: u64,
    pub l3: u64,
}

/// The value of an empty node.
pub open spec fn empty_node_value() -> FieldElem {
    FieldElem { l0: 0, l1: 0, l2: 0, l3: 0 }
}

/// The field element of a small integer.
pub open spec fn elem_of_u64(x: u64) -> FieldElem {
    FieldElem { l0: x, l1: 0, l2: 0, l3: 0 }
}

impl FieldElem {
    pub fn zero() -> (r: FieldElem)
        ensures
            r == empty_node_value(),
    {
        FieldElem { l0: 0, l1: 0, l2: 0, l3: 0 }
    }

    pub fn from_u64(x: u64) -> (r: FieldElem)
        ensures
            r == elem_of_u64(x),
    {
        FieldElem { l0: x, l1: 0, l2: 0, l3: 0 }
    }
}

/// Where a node stands among its two siblings.
#[derive(Clone, Copy, Debug, PartialEq, Eq, Structural)]
pub enum NodePos {
    Left,
    Middle,
    Right,
}

pub open spec fn pos_of_digit(d: nat) -> NodePos {
    if d == 0 {
        NodePos::Left
    } else if d == 1 {
        NodePos::Middle
    } else {
        NodePos::Right
    }
}

/// One step of a membership path: the node's position and the values of its
/// two siblings, left to right.
#[derive(Clone, Copy, Debug, PartialEq, Eq, Structural)]
pub struct PathNode {
    pub pos: NodePos,
    pub sibling1: FieldElem,
    pub sibling2: FieldElem,
}

/// A membership path, from the leaf level up to the children of the root.
#[derive(Clone, Debug)]
pub struct MerklePath {
    pub nodes: Vec<PathNode>,
}

/// The durable description of the rightmost branch of a tree.
#[derive(Clone, Debug)]
pub enum Frontier {
    Empty,
    Proof { leaf: FieldElem, path: MerklePath },
}

/// Root value, height and number of leaves of a tree.
#[derive(Clone, Copy, Debug, PartialEq, Eq, Structural)]
pub struct TreeCommitment {
    pub root_value: FieldElem,
    pub height: u8,
    pub num_leaves: u64,
}

/// The index, at level `l`, of the node above leaf `uid` (level 0 is the
/// leaf level).
pub open spec fn level_index(uid: nat, l: nat) -> nat
    decreases l,
{
    if l == 0 {
        uid
    } else {
        level_index(uid, (l - 1) as nat) / 3
    }
}

/// The position of the level-`l` node above leaf `uid` among its siblings.
pub open spec fn pos_at(uid: nat, l: nat) -> NodePos {
    pos_of_digit(level_index(uid, l) % 3)
}

pub open spec fn pow3(h: nat) -> nat
    decreases h,
{
    if h == 0 {
        1
    } else {
        3 * pow3((h - 1) as nat)
    }
}

/// The three children of a node, given one child, its position and its two
/// siblings.
pub open spec fn arrange(pos: NodePos, child: FieldElem, s1: FieldElem, s2: FieldElem) -> (
    FieldElem,
    FieldElem,
    FieldElem,
) {
    match pos {
        NodePos::Left => (child, s1, s2),
        NodePos::Middle => (s1, child, s2),
        NodePos::Right => (s1, s2, child),
    }
}

/// The node hash may be applied to any three elements.
pub open spec fn hash_total<H: Fn(FieldElem, FieldElem, FieldElem) -> FieldElem>(hash: H) -> bool {
    forall|a: FieldElem, b: FieldElem, c: FieldElem| #[trigger] hash.requires((a, b, c))
}

/// The node hash is a function of its three inputs.
pub open spec fn hash_deterministic<H: Fn(FieldElem, FieldElem, FieldElem) -> FieldElem>(
    hash: H,
) -> bool {
    forall|a: FieldElem, b: FieldElem, c: FieldElem, r1: FieldElem, r2: FieldElem|
        #[trigger] hash.ensures((a, b, c), r1) && #[trigger] hash.ensures((a, b, c), r2) ==> r1
            == r2
}

/// `values` are the node values along the path of leaf `uid` holding `leaf`:
/// `values[0]` is the leaf node, `values[l + 1]` the parent of `values[l]`,
/// and the positions of the path are those of `uid`.
pub open spec fn path_values_ok<H: Fn(FieldElem, FieldElem, FieldElem) -> FieldElem>(
    hash: H,
    uid: nat,
    leaf: FieldElem,
    nodes: Seq<PathNode>,
    values: Seq<FieldElem>,
) -> bool {
    &&& uid <= u64::MAX
    &&& values.len() == nodes.len() + 1
    &&& hash.ensures((empty_node_value(), elem_of_u64(uid as u64), leaf), values[0])
    &&& forall|l: int|
        0 <= l < nodes.len() ==> #[trigger] nodes[l].pos == pos_at(uid, l as nat) && hash.ensures(
            arrange(nodes[l].pos, values[l], nodes[l].sibling1, nodes[l].sibling2),
            values[l + 1],
        )
}

/// A commitment tree that keeps the path of its last leaf and the node
/// values along it.
#[derive(Clone, Debug)]
pub struct RecordsTree {
    pub height: u8,
    pub num_leaves: u64,
    pub leaf: FieldElem,
    pub nodes: Vec<PathNode>,
    pub values: Vec<FieldElem>,
}

impl RecordsTree {
    /// The stored path is the path of the last leaf under `hash`, and the
    /// tree holds no more than `3^height` leaves.
    pub open spec fn wf_under<H: Fn(FieldElem, FieldElem, FieldElem) -> FieldElem>(
        &self,
        hash: H,
    ) -> bool {
        if self.num_leaves == 0 {
            self.nodes@.len() == 0 && self.values@.len() == 0
        } else {
            &&& self.nodes@.len() == self.height
            &&& path_values_ok(
                hash,
                (self.num_leaves - 1) as nat,
                self.leaf,
                self.nodes@,
                self.values@,
            )
            &&& level_index((self.num_leaves - 1) as nat, self.height as nat) == 0
        }
    }

    pub open spec fn spec_root(&self) -> FieldElem {
        if self.num_leaves == 0 {
            empty_node_value()
        } else {
            self.values@[self.height as int]
        }
    }

    pub open spec fn spec_commitment(&self) -> TreeCommitment {
        TreeCommitment {
            root_value: self.spec_root(),
            height: self.height,
            num_leaves: self.num_leaves,
        }
    }

    /// `f` describes this tree's frontier.
    pub open spec fn frontier_is(&self, f: Frontier) -> bool {
        match f {
            Frontier::Empty => self.num_leaves == 0,
            Frontier::Proof { leaf, path } => self.num_leaves > 0 && leaf == self.leaf
                && path.nodes@ == self.nodes@,
        }
    }

    /// No leaf can be added: the tree holds `3^height` leaves, or as many
    /// as a `u64` counts.
    pub open spec fn is_full(&self) -> bool {
        self.num_leaves == u64::MAX || level_index(self.num_leaves as nat, self.height as nat) != 0
    }

    /// The node at level `l` of the path of the leaf that a push adds.
    pub open spec fn pushed_node(&self, l: int) -> PathNode {
        let n = self.num_leaves as nat;
        let m = (n - 1) as nat;
        let pos = pos_at(n, l as nat);
        let e = empty_node_value();
        if n == 0 || level_index(n, (l + 1) as nat) != level_index(m, (l + 1) as nat) {
            PathNode { pos, sibling1: e, sibling2: e }
        } else if level_index(n, l as nat) != level_index(m, l as nat) {
            match pos {
                NodePos::Middle => PathNode { pos, sibling1: self.values@[l], sibling2: e },
                NodePos::Right => PathNode {
                    pos,
                    sibling1: self.nodes@[l].sibling1,
                    sibling2: self.values@[l],
                },
                NodePos::Left => PathNode { pos, sibling1: e, sibling2: e },
            }
        } else {
            PathNode { pos, sibling1: self.nodes@[l].sibling1, sibling2: self.nodes@[l].sibling2 }
        }
    }

    /// An empty tree of the given height.
    pub fn new(height: u8) -> (r: RecordsTree)
        ensures
            r.height == height,
            r.num_leaves == 0,
            r.nodes@.len() == 0,
            r.values@.len() == 0,
            r.spec_root() == empty_node_value(),
    {
        RecordsTree {
            height,
            num_leaves: 0,
            leaf: FieldElem::zero(),
            nodes: Vec::new(),
            values: Vec::new(),
        }
    }

    pub fn height(&self) -> (r: u8)
        ensures
            r == self.height,
    {
        self.height
    }

    pub fn num_leaves(&self) -> (r: u64)
        ensures
            r == self.num_leaves,
    {
        self.num_leaves
    }

    pub fn root(&self) -> (r: FieldElem)
        requires
            self.num_leaves > 0 ==> self.values@.len() == self.height + 1,
        ensures
            r == self.spec_root(),
    {
        if self.num_leaves == 0 {
            FieldElem::zero()
        } else {
            self.values[self.height as usize]
        }
    }

    pub fn commitment(&self) -> (r: TreeCommitment)
        requires
            self.num_leaves > 0 ==> self.values@.len() == self.height + 1,
        ensures
            r == self.spec_commitment(),
    {
        TreeCommitment { root_value: self.root(), height: self.height, num_leaves: self.num_leaves }
    }

    pub fn frontier(&self) -> (r: Frontier)
        ensures
            self.frontier_is(r),
    {
        if self.num_leaves == 0 {
            Frontier::Empty
        } else {
            Frontier::Proof { leaf: self.leaf, path: MerklePath { nodes: self.nodes.clone() } }
        }
    }

    /// The membership path of leaf `uid`, which only the last leaf keeps.
    pub fn get_leaf(&self, uid: u64) -> (r: Option<MerklePath>)
        ensures
            r is Some <==> (self.num_leaves > 0 && uid == self.num_leaves - 1),
            r matches Some(p) ==> p.nodes@ == self.nodes@,
    {
        if self.num_leaves > 0 && uid == self.num_leaves - 1 {
            Some(MerklePath { nodes: self.nodes.clone() })
        } else {
            None
        }
    }
}


/// The position of a node from its index among all nodes of its level.
fn pos_from_index(idx: u64) -> (r: NodePos)
    ensures
        r == pos_of_digit((idx % 3) as nat),
{
    let d = idx % 3;
    if d == 0 {
        NodePos::Left
    } else if d == 1 {
        NodePos::Middle
    } else {
        NodePos::Right
    }
}

/// Hash of the leaf node at `uid`: the node hash of the empty value, the
/// uid and the leaf's element.
pub fn compute_hash_leaf<H: Fn(FieldElem, FieldElem, FieldElem) -> FieldElem>(
    leaf_value: FieldElem,
    uid: u64,
    hash: &H,
) -> (r: FieldElem)
    requires
        hash_total(*hash),
    ensures
        hash.ensures((empty_node_value(), elem_of_u64(uid), leaf_value), r),
{
    hash(FieldElem::zero(), FieldElem::from_u64(uid), leaf_value)
}

/// The node values along the path `nodes` of leaf `uid`, from the leaf node
/// up to the root.
fn path_values<H: Fn(FieldElem, FieldElem, FieldElem) -> FieldElem>(
    uid: u64,
    leaf: FieldElem,
    nodes: &Vec<PathNode>,
    hash: &H,
) -> (r: Vec<FieldElem>)
    requires
        hash_total(*hash),
        forall|l: int| 0 <= l < nodes@.len() ==> #[trigger] nodes@[l].pos == pos_at(uid as nat, l as nat),
    ensures
        path_values_ok(*hash, uid as nat, leaf, nodes@, r@),
{
    let mut values: Vec<FieldElem> = Vec::new();
    let v0 = compute_hash_leaf(leaf, uid, hash);
    values.push(v0);
    let mut i: usize = 0;
    while i < nodes.len()
        invariant
            hash_total(*hash),
            i <= nodes@.len(),
            values@.len() == i + 1,
            forall|l: int| 0 <= l < nodes@.len() ==> #[trigger] nodes@[l].pos == pos_at(uid as nat, l as nat),
            hash.ensures((empty_node_value(), elem_of_u64(uid), leaf), values@[0]),
            forall|l: int|
                0 <= l < i ==> hash.ensures(
                    arrange(#[trigger] nodes@[l].pos, values@[l], nodes@[l].sibling1, nodes@[l].sibling2),
                    values@[l + 1],
                ),
        decreases nodes@.len() - i,
    {
        let node = nodes[i];
        let child = values[i];
        let parent = match node.pos {
            NodePos::Left => hash(child, node.sibling1, node.sibling2),
            NodePos::Middle => hash(node.sibling1, child, node.sibling2),
            NodePos::Right => hash(node.sibling1, node.sibling2, child),
        };
        values.push(parent);
        i = i + 1;
    }
    values
}

proof fn lemma_path_values_prefix<H: Fn(FieldElem, FieldElem, FieldElem) -> FieldElem>(
    hash: H,
    uid: nat,
    leaf: FieldElem,
    nodes: Seq<PathNode>,
    v1: Seq<FieldElem>,
    v2: Seq<FieldElem>,
    k: int,
)
    requires
        hash_deterministic(hash),
        path_values_ok(hash, uid, leaf, nodes, v1),
        path_values_ok(hash, uid, leaf, nodes, v2),
        0 <= k < v1.len(),
    ensures
        v1[k] == v2[k],
    decreases k,
{
    if k > 0 {
        lemma_path_values_prefix(hash, uid, leaf, nodes, v1, v2, k - 1);
        let j = k - 1;
        assert(nodes[j].pos == pos_at(uid, j as nat));
        let a = arrange(nodes[j].pos, v1[j], nodes[j].sibling1, nodes[j].sibling2);
        assert(hash.ensures((a.0, a.1, a.2), v1[k]));
        assert(hash.ensures((a.0, a.1, a.2), v2[k]));
    }
}

/// Under a deterministic hash, the node values along a path are determined
/// by the uid, the leaf and the path.
proof fn lemma_path_values_unique<H: Fn(FieldElem, FieldElem, FieldElem) -> FieldElem>(
    hash: H,
    uid: nat,
    leaf: FieldElem,
    nodes: Seq<PathNode>,
    v1: Seq<FieldElem>,
    v2: Seq<FieldElem>,
)
    requires
        hash_deterministic(hash),
        path_values_ok(hash, uid, leaf, nodes, v1),
        path_values_ok(hash, uid, leaf, nodes, v2),
    ensures
        v1 == v2,
{
    assert forall|j: int| 0 <= j < v1.len() implies v1[j] == v2[j] by {
        lemma_path_values_prefix(hash, uid, leaf, nodes, v1, v2, j);
    }
    assert(v1 =~= v2);
}

impl RecordsTree {
    /// Appends a leaf and returns its uid, or fails, leaving the tree as it
    /// was, when the tree is full.
    pub fn push<H: Fn(FieldElem, FieldElem, FieldElem) -> FieldElem>(
        &mut self,
        elem: FieldElem,
        hash: &H,
    ) -> (r: Result<u64, ()>)
        requires
            old(self).wf_under(*hash),
            hash_total(*hash),
        ensures
            r is Err <==> old(self).is_full(),
            r is Err ==> *final(self) == *old(self),
            r is Ok ==> push_step(*hash, *old(self), elem, *final(self)),
            r matches Ok(uid) ==> {
                &&& uid == old(self).num_leaves
                &&& final(self).num_leaves == old(self).num_leaves + 1
                &&& final(self).height == old(self).height
                &&& final(self).leaf == elem
                &&& final(self).nodes@.len() == old(self).height
                &&& forall|l: int|
                    0 <= l < old(self).height ==> #[trigger] final(self).nodes@[l]
                        == old(self).pushed_node(l)
            },
            final(self).wf_under(*hash),
    {
        let n = self.num_leaves;
        if n == u64::MAX {
            return Err(());
        }
        let m: u64 = if n == 0 { 0 } else { n - 1 };
        let ghost gm: nat = (n - 1) as nat;
        let mut cur_n: u64 = n;
        let mut cur_m: u64 = m;
        let mut new_nodes: Vec<PathNode> = Vec::new();
        let e = FieldElem::zero();
        let mut l: usize = 0;
        let h = self.height as usize;
        while l < h
            invariant
                h == self.height,
                e == empty_node_value(),
                self.wf_under(*hash),
                n == self.num_leaves,
                n < u64::MAX,
                l <= h,
                n > 0 ==> m == gm,
                gm == (n - 1) as nat,
                cur_n == level_index(n as nat, l as nat),
                n > 0 ==> cur_m == level_index(gm, l as nat),
                new_nodes@.len() == l,
                forall|j: int| 0 <= j < l ==> #[trigger] new_nodes@[j] == self.pushed_node(j),
            decreases h - l,
        {
            let pos = pos_from_index(cur_n);
            let node = if n == 0 || cur_n / 3 != cur_m / 3 {
                PathNode { pos, sibling1: e, sibling2: e }
            } else if cur_n != cur_m {
                match pos {
                    NodePos::Middle => PathNode { pos, sibling1: self.values[l], sibling2: e },
                    NodePos::Right => PathNode {
                        pos,
                        sibling1: self.nodes[l].sibling1,
                        sibling2: self.values[l],
                    },
                    NodePos::Left => PathNode { pos, sibling1: e, sibling2: e },
                }
            } else {
                PathNode { pos, sibling1: self.nodes[l].sibling1, sibling2: self.nodes[l].sibling2 }
            };
            proof {
                assert(level_index(n as nat, (l + 1) as nat) == level_index(n as nat, l as nat) / 3);
                assert(level_index(gm, (l + 1) as nat) == level_index(gm, l as nat) / 3);
                assert(node == self.pushed_node(l as int));
            }
            new_nodes.push(node);
            cur_n = cur_n / 3;
            cur_m = cur_m / 3;
            l = l + 1;
        }
        if cur_n != 0 {
            return Err(());
        }
        assert forall|j: int| 0 <= j < new_nodes@.len() implies #[trigger] new_nodes@[j].pos
            == pos_at(n as nat, j as nat) by {
            assert(new_nodes@[j] == self.pushed_node(j));
        }
        let values = path_values(n, elem, &new_nodes, hash);
        self.num_leaves = n + 1;
        self.leaf = elem;
        self.nodes = new_nodes;
        self.values = values;
        Ok(n)
    }

    /// The tree whose commitment and frontier are given, if they agree:
    /// the frontier's path has the commitment's height, its positions are
    /// those of the last leaf, and hashing it up gives the root.
    pub fn restore_from_frontier<H: Fn(FieldElem, FieldElem, FieldElem) -> FieldElem>(
        commitment: &TreeCommitment,
        frontier: &Frontier,
        hash: &H,
    ) -> (r: Option<RecordsTree>)
        requires
            hash_total(*hash),
        ensures
            r matches Some(t) ==> t.wf_under(*hash) && t.spec_commitment() == *commitment
                && t.frontier_is(*frontier),
            hash_deterministic(*hash) ==> (r is Some <==> restorable(*commitment, *frontier, *hash)),
    {
        let n = commitment.num_leaves;
        let height = commitment.height;
        if n == 0 {
            let ok = match frontier {
                Frontier::Empty => commitment.root_value == FieldElem::zero(),
                Frontier::Proof { .. } => false,
            };
            if ok {
                let t = RecordsTree::new(height);
                assert(t.wf_under(*hash) && t.spec_commitment() == *commitment && t.frontier_is(*frontier));
                return Some(t);
            } else {
                proof {
                    if hash_deterministic(*hash) && restorable(*commitment, *frontier, *hash) {
                        let t = choose|t: RecordsTree| #[trigger] t.wf_under(*hash)
                            && t.spec_commitment() == *commitment && t.frontier_is(*frontier);
                    }
                }
                return None;
            }
        }
        match frontier {
            Frontier::Empty => {
                proof {
                    if restorable(*commitment, *frontier, *hash) {
                        let t = choose|t: RecordsTree| #[trigger] t.wf_under(*hash)
                            && t.spec_commitment() == *commitment && t.frontier_is(*frontier);
                    }
                }
                None
            },
            Frontier::Proof { leaf, path } => {
                let uid = n - 1;
                if path.nodes.len() != height as usize {
                    return None;
                }
                let mut cur: u64 = uid;
                let mut l: usize = 0;
                let mut positions_ok = true;
                while l < path.nodes.len()
                    invariant
                        l <= path.nodes@.len(),
                        cur == level_index(uid as nat, l as nat),
                        positions_ok ==> forall|j: int|
                            0 <= j < l ==> #[trigger] path.nodes@[j].pos == pos_at(uid as nat, j as nat),
                        !positions_ok ==> exists|j: int|
                            0 <= j < l && #[trigger] path.nodes@[j].pos != pos_at(uid as nat, j as nat),
                    decreases path.nodes@.len() - l,
                {
                    if positions_ok && path.nodes[l].pos != pos_from_index(cur) {
                        positions_ok = false;
                    }
                    cur = cur / 3;
                    l = l + 1;
                }
                if !positions_ok || cur != 0 {
                    proof {
                        if hash_deterministic(*hash) && restorable(*commitment, *frontier, *hash) {
                            let t = choose|t: RecordsTree| #[trigger] t.wf_under(*hash)
                                && t.spec_commitment() == *commitment && t.frontier_is(*frontier);
                            assert(t.nodes@ == path.nodes@);
                        }
                    }
                    return None;
                }
                let values = path_values(uid, *leaf, &path.nodes, hash);
                if values[height as usize] == commitment.root_value {
                    let t = RecordsTree {
                        height,
                        num_leaves: n,
                        leaf: *leaf,
                        nodes: path.nodes.clone(),
                        values,
                    };
                    assert(t.wf_under(*hash) && t.spec_commitment() == *commitment
                        && t.frontier_is(*frontier));
                    Some(t)
                } else {
                    proof {
                        if hash_deterministic(*hash) && restorable(*commitment, *frontier, *hash) {
                            let t = choose|t: RecordsTree| #[trigger] t.wf_under(*hash)
                                && t.spec_commitment() == *commitment && t.frontier_is(*frontier);
                            lemma_path_values_unique(
                                *hash,
                                uid as nat,
                                *leaf,
                                path.nodes@,
                                t.values@,
                                values@,
                            );
                        }
                    }
                    None
                }
            },
        }
    }
}

/// `t2` is `t` with leaf `x` pushed, under `hash`.
pub open spec fn push_step<H: Fn(FieldElem, FieldElem, FieldElem) -> FieldElem>(
    hash: H,
    t: RecordsTree,
    x: FieldElem,
    t2: RecordsTree,
) -> bool {
    &&& t2.num_leaves == t.num_leaves + 1
    &&& t2.height == t.height
    &&& t2.leaf == x
    &&& t2.nodes@.len() == t.height
    &&& forall|l: int| 0 <= l < t.height ==> #[trigger] t2.nodes@[l] == t.pushed_node(l)
    &&& t2.wf_under(hash)
}

/// `trees` are the trees passed through while pushing `elems` in order.
pub open spec fn push_run<H: Fn(FieldElem, FieldElem, FieldElem) -> FieldElem>(
    hash: H,
    trees: Seq<RecordsTree>,
    elems: Seq<FieldElem>,
) -> bool {
    &&& trees.len() == elems.len() + 1
    &&& forall|k: int| 0 <= k < elems.len() ==> push_step(hash, #[trigger] trees[k], elems[k], trees[k + 1])
}

/// Some well-formed tree under `hash` has this commitment and frontier.
pub open spec fn restorable<H: Fn(FieldElem, FieldElem, FieldElem) -> FieldElem>(
    commitment: TreeCommitment,
    frontier: Frontier,
    hash: H,
) -> bool {
    exists|t: RecordsTree|
        #[trigger] t.wf_under(hash) && t.spec_commitment() == commitment && t.frontier_is(frontier)
}

/// Restoring a tree from its own commitment and frontier gives back a tree
/// with the same root: the pair of a well-formed tree is always restorable.
pub proof fn lemma_frontier_round_trip<H: Fn(FieldElem, FieldElem, FieldElem) -> FieldElem>(
    t: RecordsTree,
    f: Frontier,
    hash: H,
)
    requires
        t.wf_under(hash),
        t.frontier_is(f),
    ensures
        restorable(t.spec_commitment(), f, hash),
{
    assert(t.wf_under(hash) && t.spec_commitment() == t.spec_commitment() && t.frontier_is(f));
}


proof fn lemma_level_index_div(uid: nat, l: nat)
    ensures
        pow3(l) > 0,
        level_index(uid, l) == uid / pow3(l),
    decreases l,
{
    if l > 0 {
        lemma_level_index_div(uid, (l - 1) as nat);
        lemma_div_denominator(uid as int, pow3((l - 1) as nat) as int, 3);
        assert(pow3((l - 1) as nat) * 3 == pow3(l));
        assert(level_index(uid, l) == level_index(uid, (l - 1) as nat) / 3);
    } else {
        assert(uid / 1 == uid);
    }
}

/// A tree of height `h` has room for exactly `3^h` leaves (and no more than
/// a `u64` counts): a push fails exactly when that many are there.
pub proof fn lemma_capacity(t: RecordsTree)
    ensures
        t.is_full() <==> (t.num_leaves == u64::MAX || t.num_leaves >= pow3(t.height as nat)),
{
    lemma_level_index_div(t.num_leaves as nat, t.height as nat);
    let p = pow3(t.height as nat);
    if t.num_leaves < p {
        assert((t.num_leaves as nat) / p == 0) by (nonlinear_arith)
            requires
                t.num_leaves < p,
                p > 0,
        ;
    } else {
        assert((t.num_leaves as nat) / p >= 1) by (nonlinear_arith)
            requires
                t.num_leaves >= p,
                p > 0,
        ;
    }
}

/// The flat form of a frontier: the leaf node's hash, then the two
/// siblings of each level, bottom up.
pub open spec fn flat_of(first: FieldElem, nodes: Seq<PathNode>) -> Seq<FieldElem> {
    Seq::new(
        (1 + 2 * nodes.len()) as nat,
        |i: int|
            if i == 0 {
                first
            } else if (i - 1) % 2 == 0 {
                nodes[(i - 1) / 2].sibling1
            } else {
                nodes[(i - 1) / 2].sibling2
            },
    )
}

/// The path read back from a flat frontier, with the positions of leaf `uid`.
pub open spec fn nodes_of_flat(flat: Seq<FieldElem>, uid: nat) -> Seq<PathNode> {
    Seq::new(
        ((flat.len() - 1) / 2) as nat,
        |l: int|
            PathNode {
                pos: pos_at(uid, l as nat),
                sibling1: flat[2 * l + 1],
                sibling2: flat[2 * l + 2],
            },
    )
}

/// Flattens a frontier: the hash of the leaf node at `uid`, then the two
/// siblings of each level. An empty frontier flattens to nothing.
pub fn flatten_frontier<H: Fn(FieldElem, FieldElem, FieldElem) -> FieldElem>(
    frontier: &Frontier,
    uid: u64,
    hash: &H,
) -> (r: Vec<FieldElem>)
    requires
        hash_total(*hash),
        frontier matches Frontier::Proof { path, .. } ==> 2 * path.nodes@.len() + 1 <= usize::MAX,
    ensures
        match *frontier {
            Frontier::Empty => r@.len() == 0,
            Frontier::Proof { leaf, path } => {
                &&& hash.ensures((empty_node_value(), elem_of_u64(uid), leaf), r@[0])
                &&& r@ == flat_of(r@[0], path.nodes@)
            },
        },
{
    match frontier {
        Frontier::Proof { leaf, path } => {
            let mut res: Vec<FieldElem> = Vec::new();
            let first = compute_hash_leaf(*leaf, uid, hash);
            res.push(first);
            let mut l: usize = 0;
            while l < path.nodes.len()
                invariant
                    l <= path.nodes@.len(),
                    2 * path.nodes@.len() + 1 <= usize::MAX,
                    res@.len() == 1 + 2 * l,
                    res@[0] == first,
                    forall|i: int| 0 <= i < res@.len() ==> #[trigger] res@[i] == flat_of(first, path.nodes@)[i],
                decreases path.nodes@.len() - l,
            {
                res.push(path.nodes[l].sibling1);
                res.push(path.nodes[l].sibling2);
                l = l + 1;
            }
            assert(res@ =~= flat_of(first, path.nodes@));
            res
        },
        Frontier::Empty => Vec::new(),
    }
}

/// Reads a flat frontier back, taking the positions from `uid`. The first
/// element stands for the leaf.
pub fn parse_flattened_frontier(flattened_frontier: &Vec<FieldElem>, uid: u64) -> (r: Frontier)
    requires
        flattened_frontier@.len() % 2 == 1 || flattened_frontier@.len() == 0,
    ensures
        flattened_frontier@.len() == 0 ==> r is Empty,
        flattened_frontier@.len() > 0 ==> (r matches Frontier::Proof { leaf, path } && leaf
            == flattened_frontier@[0] && path.nodes@ == nodes_of_flat(flattened_frontier@, uid as nat)),
{
    if flattened_frontier.len() == 0 {
        return Frontier::Empty;
    }
    let ghost flat = flattened_frontier@;
    let mut nodes: Vec<PathNode> = Vec::new();
    let mut absolute_position: u64 = uid;
    let mut i: usize = 1;
    while i < flattened_frontier.len()
        invariant
            flat == flattened_frontier@,
            flat.len() % 2 == 1,
            i % 2 == 1,
            1 <= i <= flat.len(),
            nodes@.len() == (i - 1) / 2,
            absolute_position == level_index(uid as nat, nodes@.len()),
            forall|l: int| 0 <= l < nodes@.len() ==> #[trigger] nodes@[l] == nodes_of_flat(flat, uid as nat)[l],
        decreases flat.len() - i,
    {
        let node = PathNode {
            pos: pos_from_index(absolute_position),
            sibling1: flattened_frontier[i],
            sibling2: flattened_frontier[i + 1],
        };
        proof {
            assert(level_index(uid as nat, (nodes@.len() + 1) as nat) == level_index(uid as nat, nodes@.len()) / 3);
        }
        absolute_position = absolute_position / 3;
        nodes.push(node);
        i = i + 2;
    }
    assert(nodes@ =~= nodes_of_flat(flat, uid as nat));
    Frontier::Proof { leaf: flattened_frontier[0], path: MerklePath { nodes } }
}

/// Flattening a frontier whose positions are those of leaf `uid` and reading
/// it back with the same uid gives back its path.
pub proof fn lemma_flatten_parse_path(first: FieldElem, nodes: Seq<PathNode>, uid: nat)
    requires
        forall|l: int| 0 <= l < nodes.len() ==> #[trigger] nodes[l].pos == pos_at(uid, l as nat),
    ensures
        nodes_of_flat(flat_of(first, nodes), uid) == nodes,
{
    let flat = flat_of(first, nodes);
    assert(flat.len() == 1 + 2 * nodes.len());
    assert((flat.len() - 1) / 2 == nodes.len());
    assert forall|l: int| 0 <= l < nodes.len() implies #[trigger] nodes_of_flat(flat, uid)[l] == nodes[l] by {
        assert(2 * l + 2 < flat.len());
        assert(flat[2 * l + 1] == nodes[l].sibling1);
        assert(flat[2 * l + 2] == nodes[l].sibling2);
        assert(nodes[l].pos == pos_at(uid, l as nat));
        assert(nodes_of_flat(flat, uid)[l] == PathNode {
            pos: pos_at(uid, l as nat),
            sibling1: flat[2 * l + 1],
            sibling2: flat[2 * l + 2],
        });
        assert((2 * l + 1 - 1) % 2 == 0);
        assert((2 * l + 1 - 1) / 2 == l);
        assert((2 * l + 2 - 1) % 2 == 1);
        assert((2 * l + 2 - 1) / 2 == l);
    }
    assert(nodes_of_flat(flat, uid) =~= nodes);
}

/// A well-formed tree holds no more than `3^height` leaves.
pub proof fn lemma_wf_within_capacity<H: Fn(FieldElem, FieldElem, FieldElem) -> FieldElem>(
    t: RecordsTree,
    hash: H,
)
    requires
        t.wf_under(hash),
    ensures
        t.num_leaves <= pow3(t.height as nat),
{
    lemma_level_index_div((t.num_leaves - 1) as nat, t.height as nat);
    if t.num_leaves > 0 {
        let p = pow3(t.height as nat);
        let m = (t.num_leaves - 1) as nat;
        assert(m < p) by (nonlinear_arith)
            requires
                m / p == 0,
                p > 0,
        ;
    }
}

} // verus!
