use sealed_store::hash;
use sealed_store::merkle_tree::{Error, MerkleTree, Node};

fn root_hex(digest: &hash::Hash) -> String {
    let mut text = String::new();
    for byte in digest.as_bytes() {
        text.push_str(&format!("{:02x}", byte));
    }
    text
}

fn empty_leaf() -> hash::Hash {
    hash::hash(b"Hello, world!")
}

#[test]
fn update_tree() {
    let mut tree = MerkleTree::new(1);
    println!("tree: {:x?}", tree);
    println!("root: {:x?}", tree.root());

    let hash = hash::hash(&[1, 2, 3]);
    tree.insert(0, hash.clone()).unwrap();

    println!("tree: {:x?}", tree);
    println!("root: {:x?}", tree.root());

    assert_eq!(hash.join(Node::Empty.hash()), tree.root());
}

#[test]
fn dependencies() {
    let tree = MerkleTree::new(5);
    println!("tree: {:#x?}", tree);
    println!("dependencies: {:#?}", tree.dependencies(18).unwrap().len());
}

#[test]
fn empty_tree_root_is_the_repeated_self_join() {
    let expected = [
        "315f5bdb76d078c43b8ac0064e4a0164612b1fce77c869345bfc94c75894edd3",
        "1f61feefbfa265fbfabebb043bfc140ab13edfc1f88a2bacc488f97863ea34af",
        "a2fff6a390ee06a02fb40b79f1b4c8673336f1f68d79d1d1034fb6c5ef3b6eac",
        "445980bc451692583a0199705ee3c70f4b0dd280ca36d371b771c1a3201357a9",
        "48b7972df42f8961e2529d9396ea3203af204364bec75759cdca0899b26720a0",
        "6288574941d955fd23a99fb0acbee0d827cbead05618b3fd53b13c0ad2c95187",
    ];
    let mut level = empty_leaf();
    for depth in 0..6u8 {
        let tree = MerkleTree::new(depth);
        assert_eq!(tree.root(), level);
        assert_eq!(root_hex(&tree.root()), expected[depth as usize]);
        level = level.clone().join(level);
    }
}

#[test]
fn empty_tree_of_depth_16_has_the_known_root() {
    assert_eq!(
        root_hex(&MerkleTree::new(16).root()),
        "1e6f801a792190b3f661c1edeec042165f64d69c0fce2413af680901704f21d3"
    );
}

#[test]
fn unwritten_leaf_holds_the_empty_hash() {
    let tree = MerkleTree::new(4);
    for index in 0..16 {
        assert_eq!(tree.get(index).unwrap(), empty_leaf());
    }
}

#[test]
fn get_returns_what_insert_wrote() {
    let mut tree = MerkleTree::new(4);
    let written = hash::hash(b"written");
    assert_eq!(tree.insert(11, written.clone()).unwrap(), None);
    assert_eq!(tree.get(11).unwrap(), written);
    assert_eq!(tree.get(10).unwrap(), empty_leaf());
    assert_eq!(tree.get(3).unwrap(), empty_leaf());
}

#[test]
fn insert_returns_the_previous_hash() {
    let mut tree = MerkleTree::new(3);
    let first = hash::hash(b"first");
    let second = hash::hash(b"second");
    assert_eq!(tree.insert(6, first.clone()).unwrap(), None);
    assert_eq!(tree.insert(6, second.clone()).unwrap(), Some(first));
    assert_eq!(tree.insert(6, second.clone()).unwrap(), Some(second.clone()));
    assert_eq!(tree.get(6).unwrap(), second);
}

#[test]
fn insert_of_the_same_hash_twice_keeps_the_root() {
    let mut tree = MerkleTree::new(3);
    tree.insert(2, hash::hash(b"two")).unwrap();
    let root = tree.root();
    tree.insert(2, hash::hash(b"two")).unwrap();
    assert_eq!(tree.root(), root);
}

#[test]
fn out_of_range_index_is_not_present() {
    let mut tree = MerkleTree::new(3);
    let root = tree.root();
    assert_eq!(tree.get(8), Err(Error::NodeNotPresent));
    assert_eq!(tree.insert(8, hash::hash(b"x")), Err(Error::NodeNotPresent));
    assert_eq!(tree.dependencies(8), Err(Error::NodeNotPresent));
    assert_eq!(tree.get(usize::MAX), Err(Error::NodeNotPresent));
    assert_eq!(tree.root(), root);
    assert!(tree.get(7).is_ok());
}

#[test]
fn out_of_range_index_in_the_deepest_trees() {
    let mut tree = MerkleTree::new(16);
    assert_eq!(tree.get(1 << 16), Err(Error::NodeNotPresent));
    assert_eq!(tree.insert(1 << 16, hash::hash(b"x")), Err(Error::NodeNotPresent));
    assert_eq!(tree.dependencies(1 << 16), Err(Error::NodeNotPresent));
    assert!(tree.get((1 << 16) - 1).is_ok());
}

#[test]
fn tree_of_depth_zero_is_a_single_leaf() {
    let mut tree = MerkleTree::new(0);
    assert_eq!(tree.root(), empty_leaf());
    assert_eq!(tree.dependencies(0).unwrap().len(), 0);
    assert_eq!(tree.get(1), Err(Error::NodeNotPresent));
    let written = hash::hash(b"only");
    assert_eq!(tree.insert(0, written.clone()).unwrap(), None);
    assert_eq!(tree.root(), written);
    assert_eq!(
        MerkleTree::reconstruct_root_hash(tree.dependencies(0).unwrap(), 0, written.clone()),
        tree.root()
    );
}

#[test]
fn path_is_as_long_as_the_tree_is_deep() {
    for depth in 0..8u8 {
        let tree = MerkleTree::new(depth);
        for index in 0..(1usize << depth) {
            assert_eq!(tree.dependencies(index).unwrap().len(), depth as usize);
        }
    }
}

#[test]
fn dependencies_come_from_the_bottom_up() {
    let mut tree = MerkleTree::new(3);
    tree.insert(5, hash::hash(b"five")).unwrap();
    tree.insert(2, hash::hash(b"two")).unwrap();
    assert_eq!(
        root_hex(&tree.root()),
        "db62d268937307e84ece68d7222e0658b500213ab6a6f17aa23cb8d4352c3977"
    );
    let path = tree.dependencies(5).unwrap();
    let path: Vec<String> = path.iter().map(root_hex).collect();
    assert_eq!(
        path,
        vec![
            "315f5bdb76d078c43b8ac0064e4a0164612b1fce77c869345bfc94c75894edd3",
            "1f61feefbfa265fbfabebb043bfc140ab13edfc1f88a2bacc488f97863ea34af",
            "04db2897235f7ec23c6a1a17485b96bc93e9927b60738ab05eded9a8be3e3ebe",
        ]
    );
}

#[test]
fn reconstruction_at_index_18_of_depth_5() {
    let mut tree = MerkleTree::new(5);
    let written = hash::hash(&[1, 2, 3]);
    tree.insert(18, written.clone()).unwrap();
    let path = tree.dependencies(18).unwrap();
    assert_eq!(path.len(), 5);
    let root = MerkleTree::reconstruct_root_hash(path, 18, written);
    assert_eq!(root, tree.root());
    assert_eq!(
        root_hex(&root),
        "90aa4abdbba79e467d46e63e9c2f39a3b9fb06ff5b776d15139ea5b863efa597"
    );
}

#[test]
fn every_leaf_reconstructs_the_root() {
    let mut tree = MerkleTree::new(4);
    tree.insert(0, hash::hash(b"zero")).unwrap();
    tree.insert(7, hash::hash(b"seven")).unwrap();
    tree.insert(8, hash::hash(b"eight")).unwrap();
    tree.insert(15, hash::hash(b"fifteen")).unwrap();
    for index in 0..16 {
        let leaf = tree.get(index).unwrap();
        let path = tree.dependencies(index).unwrap();
        assert_eq!(MerkleTree::reconstruct_root_hash(path, index, leaf), tree.root());
    }
}

#[test]
fn insert_then_reconstruct_for_every_index() {
    for index in 0..32 {
        let mut tree = MerkleTree::new(5);
        let written = hash::hash(&[index as u8]);
        tree.insert(index, written.clone()).unwrap();
        assert_eq!(tree.get(index).unwrap(), written);
        let path = tree.dependencies(index).unwrap();
        assert_eq!(MerkleTree::reconstruct_root_hash(path, index, written), tree.root());
    }
}

#[test]
fn path_from_before_a_write_gives_the_root_after_it() {
    let mut tree = MerkleTree::new(6);
    tree.insert(40, hash::hash(b"other")).unwrap();
    let path = tree.dependencies(21).unwrap();
    let written = hash::hash(b"new");
    let expected = MerkleTree::reconstruct_root_hash(path, 21, written.clone());
    tree.insert(21, written).unwrap();
    assert_eq!(tree.root(), expected);
}

#[test]
fn reconstruction_with_two_siblings() {
    let expected = [
        "b7732c74c670b5e594f063efcb16a31be5400147c74c4bfda14e1f09dfd77bb2",
        "ee4e04301b97e6632114d1e22de9576b9310a2325692d5c00b61214998bbd7d4",
        "035f20145ba2525e5f3df51a6c847320bba34db4441cb8bf232e721438767b87",
        "87aeb232a1e39816224c4a56339ac6ee4042c9f4da42ea0407d917d7024fb100",
    ];
    for index in 0..4 {
        let siblings = vec![hash::hash(b"a"), hash::hash(b"b")];
        let root = MerkleTree::reconstruct_root_hash(siblings, index, hash::hash(b"leaf"));
        assert_eq!(root_hex(&root), expected[index]);
    }
}

#[test]
fn reconstruction_looks_at_the_highest_bit_first() {
    let leaf = hash::hash(b"leaf");
    let a = hash::hash(b"a");
    let b = hash::hash(b"b");
    let root = MerkleTree::reconstruct_root_hash(vec![a.clone(), b.clone()], 2, leaf.clone());
    assert_eq!(root, a.join(leaf).join(b));
}

#[test]
fn reconstruction_without_siblings_is_the_leaf() {
    let leaf = hash::hash(b"leaf");
    assert_eq!(MerkleTree::reconstruct_root_hash(Vec::new(), 5, leaf.clone()), leaf);
}

#[test]
fn reconstruction_ignores_bits_above_the_path() {
    let siblings = vec![hash::hash(b"a"), hash::hash(b"b")];
    let low = MerkleTree::reconstruct_root_hash(siblings.clone(), 1, hash::hash(b"leaf"));
    let high = MerkleTree::reconstruct_root_hash(siblings, 5, hash::hash(b"leaf"));
    assert_eq!(low, high);
}

#[test]
fn reconstruction_with_more_siblings_than_index_bits() {
    let mut siblings = Vec::new();
    for _ in 0..70 {
        siblings.push(hash::hash(b"s"));
    }
    let mut expected = hash::hash(b"leaf");
    for _ in 0..69 {
        expected = expected.join(hash::hash(b"s"));
    }
    expected = hash::hash(b"s").join(expected);
    let root = MerkleTree::reconstruct_root_hash(siblings, 1, hash::hash(b"leaf"));
    assert_eq!(root, expected);
}

#[test]
fn node_of_depth_zero_is_empty() {
    let node = Node::empty_with_depth(0);
    assert!(matches!(node, Node::Empty));
    assert_eq!(node.hash(), empty_leaf());
}

#[test]
fn node_get_and_insert_follow_the_low_bits_first() {
    let mut node = Node::empty_with_depth(2);
    let written = hash::hash(b"one");
    assert_eq!(node.insert(1, written.clone()).unwrap(), None);
    assert_eq!(node.get(1).unwrap(), written);
    assert_eq!(node.get(4), Err(Error::NodeNotPresent));
    assert_eq!(node.insert(4, hash::hash(b"x")), Err(Error::NodeNotPresent));
    assert_eq!(node.dependencies(4), Err(Error::NodeNotPresent));
    match &node {
        Node::Branch { left, right, hash: root } => {
            assert_eq!(left.hash(), empty_leaf().join(empty_leaf()));
            assert_eq!(right.hash(), written.clone().join(empty_leaf()));
            assert_eq!(*root, left.hash().join(right.hash()));
        }
        _ => panic!("a tree of depth 2 starts with a branch"),
    }
    assert_eq!(
        node.dependencies(1).unwrap(),
        vec![empty_leaf(), empty_leaf().join(empty_leaf())]
    );
}

#[test]
fn node_hash_of_a_leaf_is_its_hash() {
    let leaf = Node::Leaf { hash: hash::hash(b"leaf") };
    assert_eq!(leaf.hash(), hash::hash(b"leaf"));
    assert_eq!(leaf.get(0).unwrap(), hash::hash(b"leaf"));
    assert_eq!(leaf.get(1), Err(Error::NodeNotPresent));
    assert_eq!(leaf.dependencies(0).unwrap(), Vec::new());
}
