use ark_crypto_primitives::crh::injective_map::{PedersenCRHCompressor, TECompressor};
use ark_crypto_primitives::crh::{pedersen, TwoToOneCRH, CRH};
use ark_crypto_primitives::merkle_tree::{Config, MerkleTree};
use ark_crypto_primitives::signature::schnorr::Schnorr;
use ark_crypto_primitives::signature::SignatureScheme;
use ark_ed_on_bls12_381::{EdwardsProjective, Fq};
use ark_ff::ToBytes;
use authenticated_ledger::{
    AccountId, AccountPublicKey, Amount, LeafUpdate, LeafWindow, MerkleConfig, State,
    TwoToOneWindow,
};
use blake2::Blake2s;

#[derive(Clone)]
struct NodeWindow;

impl pedersen::Window for NodeWindow {
    const WINDOW_SIZE: usize = TwoToOneWindow::WINDOW_SIZE;
    const NUM_WINDOWS: usize = TwoToOneWindow::NUM_WINDOWS;
}

#[derive(Clone)]
struct RecordWindow;

impl pedersen::Window for RecordWindow {
    const WINDOW_SIZE: usize = LeafWindow::WINDOW_SIZE;
    const NUM_WINDOWS: usize = LeafWindow::NUM_WINDOWS;
}

type LeafHash = PedersenCRHCompressor<EdwardsProjective, TECompressor, RecordWindow>;
type NodeHash = PedersenCRHCompressor<EdwardsProjective, TECompressor, NodeWindow>;
type HashParameters = pedersen::Parameters<EdwardsProjective>;

struct TreeConfig;

impl Config for TreeConfig {
    type LeafHash = LeafHash;
    type TwoToOneHash = NodeHash;
}

type Tree = MerkleTree<TreeConfig>;

struct Setup {
    leaf: HashParameters,
    node: HashParameters,
    keys: Vec<AccountPublicKey>,
}

fn setup() -> Setup {
    let mut rng = ark_std::test_rng();
    let leaf = <LeafHash as CRH>::setup(&mut rng).unwrap();
    let node = <NodeHash as TwoToOneCRH>::setup(&mut rng).unwrap();
    let signing = Schnorr::<EdwardsProjective, Blake2s>::setup(&mut rng).unwrap();
    let mut keys = Vec::new();
    for _ in 0..4 {
        let (public_key, _) =
            Schnorr::<EdwardsProjective, Blake2s>::keygen(&signing, &mut rng).unwrap();
        let mut bytes = Vec::new();
        public_key.write(&mut bytes).unwrap();
        keys.push(AccountPublicKey::from_slice(&bytes).unwrap());
    }
    Setup { leaf, node, keys }
}

/// A ledger state together with a tree that takes every write of it.
struct Ledger {
    state: State,
    tree: Tree,
}

impl Ledger {
    fn new(num_accounts: usize, setup: &Setup) -> Ledger {
        let state = State::new(num_accounts);
        let levels = MerkleConfig::levels(state.height());
        let tree = Tree::blank(&setup.leaf, &setup.node, levels).unwrap();
        Ledger { state, tree }
    }

    fn write(&mut self, update: &LeafUpdate) {
        self.tree.update(update.index, &update.leaf).unwrap();
    }

    fn new_account(&mut self, id: u8, key: AccountPublicKey) {
        assert!(self.state.in_range(AccountId(id)));
        let update = self.state.new_account(AccountId(id), key);
        self.write(&update);
    }

    fn update_balance(&mut self, id: u8, amount: u64) -> bool {
        match self.state.update_balance(AccountId(id), Amount(amount)) {
            Some(update) => {
                self.write(&update);
                true
            }
            None => false,
        }
    }

    fn root(&self) -> Fq {
        self.tree.root()
    }

    /// Whether the tree holds `leaf` at `index`.
    fn holds(&self, setup: &Setup, index: usize, leaf: &Vec<u8>) -> bool {
        let path = self.tree.generate_proof(index).unwrap();
        path.verify(&setup.leaf, &setup.node, &self.root(), leaf).unwrap()
    }
}

#[test]
fn fresh_ledger_commits_to_blank_leaves() {
    let setup = setup();
    for (num_accounts, leaves) in [(2usize, 2usize), (3, 4), (4, 4), (5, 8)] {
        let ledger = Ledger::new(num_accounts, &setup);
        assert_eq!(1usize << ledger.state.height(), leaves);
        assert_eq!(ledger.tree.height(), ledger.state.height() as usize + 1);

        let blank = vec![MerkleConfig::blank_leaf(); leaves];
        let reference = Tree::new(&setup.leaf, &setup.node, &blank).unwrap();
        assert_eq!(ledger.root(), reference.root());
        for index in 0..leaves {
            assert!(ledger.holds(&setup, index, &MerkleConfig::blank_leaf()));
        }
    }
}

#[test]
fn concrete_scenario() {
    let setup = setup();
    let (k0, k1) = (setup.keys[0], setup.keys[1]);
    let mut ledger = Ledger::new(4, &setup);
    assert_eq!(ledger.state.height(), 2);
    let blank_root = ledger.root();

    ledger.new_account(0, k0);
    let r0 = ledger.root();
    assert_ne!(r0, blank_root);

    ledger.new_account(1, k1);
    let r1 = ledger.root();
    assert_ne!(r1, r0);

    assert!(ledger.update_balance(0, 100));
    let r2 = ledger.root();
    assert_ne!(r2, r1);

    assert!(!ledger.update_balance(2, 50));
    assert_eq!(ledger.root(), r2);

    // Account 1 holds zero since it was created: the call finds it and
    // writes the leaf that is there already.
    assert!(ledger.update_balance(1, 0));
    let r3 = ledger.root();
    assert_eq!(r3, r2);

    // A balance of zero is not a blank leaf: without account 1 the root differs.
    let mut without = Ledger::new(4, &setup);
    without.new_account(0, k0);
    assert!(without.update_balance(0, 100));
    assert_ne!(without.root(), r3);
}

#[test]
fn tree_holds_the_record_of_each_account() {
    let setup = setup();
    let mut ledger = Ledger::new(4, &setup);
    ledger.new_account(0, setup.keys[0]);
    ledger.new_account(3, setup.keys[3]);
    ledger.update_balance(3, 12_345);
    ledger.update_balance(0, 1);
    ledger.update_balance(3, 7);

    for id in [0u8, 3] {
        let record = ledger.state.lookup_info(AccountId(id)).unwrap();
        assert!(ledger.holds(&setup, id as usize, &record.to_bytes()));
        assert!(!ledger.holds(&setup, id as usize, &MerkleConfig::blank_leaf()));
    }
    for index in [1usize, 2] {
        assert!(ledger.holds(&setup, index, &MerkleConfig::blank_leaf()));
    }
}

#[test]
fn same_calls_give_the_same_root() {
    let setup = setup();
    let mut first = Ledger::new(8, &setup);
    let mut second = Ledger::new(8, &setup);
    assert_eq!(first.root(), second.root());
    for ledger in [&mut first, &mut second] {
        ledger.new_account(5, setup.keys[0]);
        ledger.new_account(2, setup.keys[1]);
        ledger.update_balance(5, 40);
        ledger.update_balance(6, 1);
        ledger.update_balance(2, 41);
        ledger.update_balance(5, 39);
    }
    assert_eq!(first.root(), second.root());

    // The root is that of the leaves: it does not remember the way there.
    let mut direct = Ledger::new(8, &setup);
    direct.new_account(2, setup.keys[1]);
    direct.new_account(5, setup.keys[0]);
    direct.update_balance(2, 41);
    direct.update_balance(5, 39);
    assert_eq!(direct.root(), first.root());
}

#[test]
fn update_changes_one_leaf_of_the_tree() {
    let setup = setup();
    let mut ledger = Ledger::new(4, &setup);
    ledger.new_account(0, setup.keys[0]);
    ledger.new_account(1, setup.keys[1]);
    ledger.new_account(2, setup.keys[2]);
    let before: Vec<Vec<u8>> = (0u8..3)
        .map(|id| ledger.state.lookup_info(AccountId(id)).unwrap().to_bytes())
        .collect();
    let root = ledger.root();

    assert!(ledger.update_balance(1, 77));
    assert_ne!(ledger.root(), root);
    assert!(ledger.holds(&setup, 0, &before[0]));
    assert!(!ledger.holds(&setup, 1, &before[1]));
    assert!(ledger.holds(&setup, 2, &before[2]));
    assert!(ledger.holds(&setup, 3, &MerkleConfig::blank_leaf()));
    for id in [0u8, 2] {
        let record = ledger.state.lookup_info(AccountId(id)).unwrap();
        assert_eq!(record.to_bytes(), before[id as usize]);
    }

    assert!(ledger.update_balance(1, 0));
    assert_eq!(ledger.root(), root);
}

#[test]
fn miss_leaves_the_root_as_it_is() {
    let setup = setup();
    let mut ledger = Ledger::new(4, &setup);
    let blank_root = ledger.root();
    assert!(!ledger.update_balance(0, 5));
    assert_eq!(ledger.root(), blank_root);

    ledger.new_account(0, setup.keys[0]);
    let root = ledger.root();
    for id in [1u8, 2, 3, 4, 255] {
        assert!(!ledger.update_balance(id, 5));
        assert_eq!(ledger.root(), root);
    }
}

#[test]
fn root_is_that_of_the_records_and_blank_leaves() {
    let setup = setup();
    let mut ledger = Ledger::new(8, &setup);
    ledger.new_account(1, setup.keys[0]);
    ledger.new_account(6, setup.keys[1]);
    ledger.new_account(7, setup.keys[2]);
    ledger.update_balance(6, 600);
    ledger.update_balance(1, 100);
    ledger.update_balance(6, 601);
    ledger.update_balance(3, 300);

    let leaves: Vec<Vec<u8>> = (0u8..8)
        .map(|id| match ledger.state.lookup_info(AccountId(id)) {
            Some(record) => record.to_bytes(),
            None => MerkleConfig::blank_leaf(),
        })
        .collect();
    let reference = Tree::new(&setup.leaf, &setup.node, &leaves).unwrap();
    assert_eq!(ledger.root(), reference.root());
}
