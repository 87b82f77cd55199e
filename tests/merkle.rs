use cape_eqs::merkle::{
    compute_hash_leaf, flatten_frontier, parse_flattened_frontier, FieldElem, Frontier, NodePos,
    RecordsTree,
};

fn fe(x: u64) -> FieldElem {
    FieldElem::from_u64(x)
}

// A deterministic stand-in for the node hash, sensitive to the order of its inputs.
fn h3(a: FieldElem, b: FieldElem, c: FieldElem) -> FieldElem {
    let mix = |x: u64, y: u64, z: u64, k: u64| {
        x.wrapping_mul(0x9E37_79B9_7F4A_7C15)
            .rotate_left(17)
            .wrapping_add(y.wrapping_mul(0xC2B2_AE3D_27D4_EB4F))
            .rotate_left(31)
            .wrapping_add(z.wrapping_mul(0x1656_67B1_9E37_79F9))
            .wrapping_add(k)
    };
    FieldElem {
        l0: mix(a.l0, b.l0, c.l0, 1),
        l1: mix(a.l1, b.l1, c.l1, 2) ^ a.l0,
        l2: mix(a.l2, b.l2, c.l2, 3) ^ b.l0,
        l3: mix(a.l3, b.l3, c.l3, 4) ^ c.l0,
    }
}

// The root of a tree of the given height holding `leaves`, computed level by level.
fn reference_root(height: u8, leaves: &[FieldElem]) -> FieldElem {
    if leaves.is_empty() {
        return FieldElem::zero();
    }
    let mut level: Vec<FieldElem> = leaves
        .iter()
        .enumerate()
        .map(|(uid, l)| h3(FieldElem::zero(), fe(uid as u64), *l))
        .collect();
    for _ in 0..height {
        let mut next = Vec::new();
        for chunk in level.chunks(3) {
            let a = chunk[0];
            let b = if chunk.len() > 1 { chunk[1] } else { FieldElem::zero() };
            let c = if chunk.len() > 2 { chunk[2] } else { FieldElem::zero() };
            next.push(h3(a, b, c));
        }
        level = next;
    }
    assert_eq!(level.len(), 1);
    level[0]
}

fn leaf(i: u64) -> FieldElem {
    FieldElem { l0: 1000 + i, l1: i * 7, l2: 3, l3: i ^ 0x55 }
}

#[test]
fn test_jellyfish_records_merkle_tree() {
    const HEIGHT: u8 = 5;
    let mt = RecordsTree::new(HEIGHT);
    assert_eq!(mt.height(), HEIGHT);
    assert_eq!(mt.commitment().root_value, FieldElem::zero());
    assert_eq!(mt.num_leaves(), 0);
}

#[test]
fn test_flatten_frontier() {
    let height: u8 = 3;
    let mut mt = RecordsTree::new(height);

    let frontier = mt.frontier();
    let flattened_frontier = flatten_frontier(&frontier, 0, &h3);

    // When the frontier is empty the flattened frontier is empty as well
    assert_eq!(flattened_frontier, vec![]);

    let elem1 = fe(5);
    let elem2 = fe(6);
    let elem3 = fe(7);
    mt.push(elem1, &h3).unwrap();
    mt.push(elem2, &h3).unwrap();
    mt.push(elem3, &h3).unwrap();
    let frontier = mt.frontier();
    let uid = 2;
    let flattened_frontier = flatten_frontier(&frontier, uid, &h3);

    let (merkle_path_nodes, leaf) = match frontier.clone() {
        Frontier::Proof { leaf, path } => (path.nodes, leaf),
        _ => (vec![], fe(0)),
    };

    let expected_flattened_frontier: Vec<FieldElem> = vec![
        compute_hash_leaf(leaf, uid, &h3),
        merkle_path_nodes[0].sibling1,
        merkle_path_nodes[0].sibling2,
        merkle_path_nodes[1].sibling1,
        merkle_path_nodes[1].sibling2,
        merkle_path_nodes[2].sibling1,
        merkle_path_nodes[2].sibling2,
    ];
    // Size of the vector containing the Merkle path and the leaf value
    let expected_len = usize::from(height * 2 + 1);
    assert_eq!(flattened_frontier.len(), expected_len);
    assert_eq!(expected_flattened_frontier, flattened_frontier);

    // Test the reverse operation of flattening
    let height: u8 = 3;
    let mut mt = RecordsTree::new(height);

    let frontier = mt.frontier();
    let flattened_frontier = flatten_frontier(&frontier, 0, &h3);

    // When the frontier is empty the flattened frontier is empty as well
    assert_eq!(flattened_frontier, vec![]);

    let elem1 = fe(5);
    let elem2 = fe(6);
    mt.push(elem1, &h3).unwrap();
    mt.push(elem2, &h3).unwrap();
    let frontier = mt.frontier();
    let uid = 1;

    // Only the paths are compared: the flat form holds the hash of the leaf node.
    let flattened_frontier = flatten_frontier(&frontier, uid, &h3);
    let frontier_from_flattened_frontier = parse_flattened_frontier(&flattened_frontier, uid);

    let merkle_path_from_flattened = match frontier_from_flattened_frontier {
        Frontier::Proof { path, .. } => path.nodes,
        _ => vec![],
    };

    let merkle_path_from_frontier = match frontier {
        Frontier::Proof { path, .. } => path.nodes,
        _ => vec![],
    };

    assert_eq!(merkle_path_from_flattened, merkle_path_from_frontier);
}

#[test]
fn roots_match_reference_for_small_trees() {
    for height in 1u8..=4 {
        let cap = 3usize.pow(height as u32);
        let mut mt = RecordsTree::new(height);
        let mut leaves = Vec::new();
        for i in 0..cap {
            let l = leaf(i as u64);
            assert_eq!(mt.push(l, &h3), Ok(i as u64));
            leaves.push(l);
            assert_eq!(mt.root(), reference_root(height, &leaves), "height {} leaves {}", height, i + 1);
        }
        assert_eq!(mt.push(leaf(99), &h3), Err(()));
        assert_eq!(mt.num_leaves(), cap as u64);
    }
}

#[test]
fn frontier_round_trip_restores_same_root() {
    for n in 0..=30u64 {
        let mut mt = RecordsTree::new(4);
        for i in 0..n {
            mt.push(leaf(i), &h3).unwrap();
        }
        let c = mt.commitment();
        let f = mt.frontier();
        let restored = RecordsTree::restore_from_frontier(&c, &f, &h3).expect("restorable");
        assert_eq!(restored.commitment(), c);
        assert_eq!(restored.root(), mt.root());
    }
}

#[test]
fn restore_empty_commitment_gives_empty_tree() {
    let c = RecordsTree::new(3).commitment();
    let t = RecordsTree::restore_from_frontier(&c, &Frontier::Empty, &h3).unwrap();
    assert_eq!(t.num_leaves(), 0);
    assert_eq!(t.root(), FieldElem::zero());
}

#[test]
fn restore_rejects_wrong_frontier() {
    let mut mt = RecordsTree::new(3);
    for i in 0..5 {
        mt.push(leaf(i), &h3).unwrap();
    }
    let c = mt.commitment();
    // A frontier whose leaf was changed does not hash to the root.
    let f = match mt.frontier() {
        Frontier::Proof { path, .. } => Frontier::Proof { leaf: fe(1777), path },
        Frontier::Empty => panic!("non-empty tree"),
    };
    assert!(RecordsTree::restore_from_frontier(&c, &f, &h3).is_none());
    // An empty frontier cannot stand for a non-empty tree.
    assert!(RecordsTree::restore_from_frontier(&c, &Frontier::Empty, &h3).is_none());
    // Positions that are not those of the last leaf are refused.
    let f = match mt.frontier() {
        Frontier::Proof { leaf, mut path } => {
            path.nodes[0].pos = NodePos::Left;
            Frontier::Proof { leaf, path }
        }
        Frontier::Empty => panic!("non-empty tree"),
    };
    assert!(RecordsTree::restore_from_frontier(&c, &f, &h3).is_none());
}

#[test]
fn empty_tree_update_keeps_empty_root() {
    let mt = RecordsTree::new(3);
    let c = mt.commitment();
    let mut restored = RecordsTree::restore_from_frontier(&c, &Frontier::Empty, &h3).unwrap();
    let leaves: Vec<FieldElem> = vec![];
    for l in leaves {
        restored.push(l, &h3).unwrap();
    }
    assert_eq!(restored.root(), mt.root());
    assert_eq!(restored.root(), FieldElem::zero());
}

#[test]
fn fill_then_overflow_guard() {
    // One leaf first, then the frontier is handed over and 26 more go in.
    let mut mt = RecordsTree::new(3);
    let mut leaves = vec![leaf(0)];
    mt.push(leaf(0), &h3).unwrap();
    let mut restored =
        RecordsTree::restore_from_frontier(&mt.commitment(), &mt.frontier(), &h3).unwrap();
    for i in 1..27 {
        restored.push(leaf(i), &h3).unwrap();
        leaves.push(leaf(i));
    }
    assert_eq!(restored.num_leaves(), 27);
    assert_eq!(restored.root(), reference_root(3, &leaves));
    // The 28th leaf does not fit and changes nothing.
    let before = restored.commitment();
    assert_eq!(restored.push(leaf(27), &h3), Err(()));
    assert_eq!(restored.commitment(), before);
}

#[test]
fn insert_after_frontier_handover_matches_reference() {
    for (height, before, after) in [(3u8, 0u64, 4u64), (3, 9, 1), (3, 10, 17), (3, 25, 2), (4, 6, 30), (6, 5, 8)] {
        let mut mt = RecordsTree::new(height);
        let mut leaves = Vec::new();
        for i in 0..before {
            mt.push(leaf(i), &h3).unwrap();
            leaves.push(leaf(i));
        }
        let mut restored =
            RecordsTree::restore_from_frontier(&mt.commitment(), &mt.frontier(), &h3).unwrap();
        assert_eq!(restored.root(), mt.root());
        for i in before..before + after {
            restored.push(leaf(i), &h3).unwrap();
            leaves.push(leaf(i));
        }
        assert_eq!(restored.root(), reference_root(height, &leaves));
        if before + after > 0 {
            assert_ne!(restored.root(), mt.root());
        }
    }
}

#[test]
fn get_leaf_only_for_last_leaf() {
    let mut mt = RecordsTree::new(3);
    assert!(mt.get_leaf(0).is_none());
    mt.push(leaf(0), &h3).unwrap();
    mt.push(leaf(1), &h3).unwrap();
    assert!(mt.get_leaf(0).is_none());
    let p = mt.get_leaf(1).unwrap();
    assert_eq!(p.nodes.len(), 3);
    assert_eq!(p.nodes[0].pos, NodePos::Middle);
    assert_eq!(p.nodes[1].pos, NodePos::Left);
    assert!(mt.get_leaf(2).is_none());
}

#[test]
fn leaf_hash_uses_empty_uid_and_leaf() {
    assert_eq!(compute_hash_leaf(fe(9), 4, &h3), h3(FieldElem::zero(), fe(4), fe(9)));
}

#[test]
fn parse_flattened_frontier_positions_follow_uid() {
    let flat = vec![fe(1), fe(2), fe(3), fe(4), fe(5), fe(6), fe(7)];
    // uid 5 = 12 in base 3: positions Right, Middle, Left from the leaf up.
    match parse_flattened_frontier(&flat, 5) {
        Frontier::Proof { leaf, path } => {
            assert_eq!(leaf, fe(1));
            let pos: Vec<NodePos> = path.nodes.iter().map(|n| n.pos).collect();
            assert_eq!(pos, vec![NodePos::Right, NodePos::Middle, NodePos::Left]);
            assert_eq!(path.nodes[1].sibling1, fe(4));
            assert_eq!(path.nodes[1].sibling2, fe(5));
        }
        Frontier::Empty => panic!("expected a proof"),
    }
    assert!(matches!(parse_flattened_frontier(&vec![], 0), Frontier::Empty));
}
