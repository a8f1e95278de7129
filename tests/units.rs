use overeality::genesis::{create2_params, trim_ascii, GenesisError};
use sha3::Digest;
use overeality::block::{handle_bloom, merkle_path_root, merkle_tree, BlockHeader, Log, Receipt, TxMerkle};
use overeality::common::{
    block_hash_to_evm_format, block_number_to_height, hash_sha3_256, tm_proposer_to_evm_format, BlockNumber,
};
use overeality::ledger::{account_key, main_branch_name, read_account, InitalContract, InitalState, Ledger, StateBranch};
use overeality::net::NetApiImpl;
use overeality::rewind::{
    call_gas_limit, estimate_from_used, push_decimal, rollback_to_height, snapshot_at_height, CallContractResp,
    CallError, CallRequest, RewindError,
};
use overeality::store::{Entry, OvrAccount, StoreError, VersionedStore, VsVersion};
use overeality::tx::{ExecRet, TransactionAction, Tx, TxKind};
use overeality::u256::U256;

fn u(v: u64) -> U256 {
    U256::from_u64(v)
}

fn hex(s: &str) -> Vec<u8> {
    (0..s.len()).step_by(2).map(|i| u8::from_str_radix(&s[i..i + 2], 16).unwrap()).collect()
}

fn acct(balance: u64) -> Entry {
    Entry::Account(OvrAccount { nonce: u(0), balance: u(balance), code: vec![] })
}

fn balance_entry(e: Option<Entry>) -> Option<U256> {
    match e {
        Some(Entry::Account(a)) => Some(a.balance),
        _ => None,
    }
}

#[test]
fn u256_arithmetic() {
    let max = U256 { l0: u64::MAX, l1: u64::MAX, l2: u64::MAX, l3: u64::MAX };
    assert_eq!(u(7).checked_add(&u(5)), Some(u(12)));
    assert_eq!(max.checked_add(&u(1)), None);
    assert_eq!(u(6).checked_mul(&u(7)), Some(u(42)));
    assert_eq!(max.checked_mul(&u(2)), None);
    assert_eq!(u(5).saturating_sub(&u(7)), u(0));
    assert_eq!(u(7).saturating_sub(&u(5)), u(2));
    assert_eq!(max.saturating_add(&u(9)), max);
    assert_eq!(u(9).checked_div(&u(2)), Some(u(4)));
    assert_eq!(u(9).checked_div(&u(0)), None);
    assert!(u(3).le(&u(3)) && u(3).le(&u(4)) && !u(4).le(&u(3)));
    assert!(U256::zero().is_zero() && !u(1).is_zero());
    let big = U256::from_u128(u128::MAX);
    assert_eq!(big, U256 { l0: u64::MAX, l1: u64::MAX, l2: 0, l3: 0 });
    assert_eq!(u(1 << 40).checked_mul(&u(1 << 40)), Some(U256 { l0: 0, l1: 1 << 16, l2: 0, l3: 0 }));
}

#[test]
fn sha3_of_nothing() {
    let h = hash_sha3_256(&vec![vec![]]);
    assert_eq!(h, hex("a7ffc6f8bf1ed76651c14756a061d662f580ff4de43b49fa82d80a4b80f8434a"));
    let split = hash_sha3_256(&vec![b"ab".to_vec(), b"c".to_vec()]);
    let whole = hash_sha3_256(&vec![b"abc".to_vec()]);
    assert_eq!(split, whole);
    assert_eq!(whole, hex("3a985da74fe225b2045c172d6bd390bd855f086e3e9d525b46bfe24511431532"));
}

#[test]
fn address_formats() {
    let long: Vec<u8> = (0..25).collect();
    assert_eq!(tm_proposer_to_evm_format(&long), (0..20).collect::<Vec<u8>>());
    let short = vec![9u8, 8, 7];
    let mut expect = vec![0u8; 17];
    expect.extend_from_slice(&short);
    assert_eq!(tm_proposer_to_evm_format(&short), expect);
    assert_eq!(block_hash_to_evm_format(&vec![1u8; 32]), vec![1u8; 32]);
    assert_eq!(block_hash_to_evm_format(&vec![]), vec![0u8; 32]);
}

#[test]
fn block_number_resolution() {
    let hashes = vec![vec![1u8; 32], vec![2u8; 32], vec![3u8; 32]];
    assert_eq!(block_number_to_height(None, &hashes), 3);
    assert_eq!(block_number_to_height(Some(BlockNumber::Latest), &hashes), 3);
    assert_eq!(block_number_to_height(Some(BlockNumber::Num(2)), &hashes), 2);
    assert_eq!(block_number_to_height(Some(BlockNumber::Earliest), &hashes), 1);
    assert_eq!(block_number_to_height(Some(BlockNumber::Pending), &hashes), 0);
    assert_eq!(block_number_to_height(Some(BlockNumber::Hash(vec![2u8; 32])), &hashes), 2);
    assert_eq!(block_number_to_height(Some(BlockNumber::Hash(vec![9u8; 32])), &hashes), 0);
    assert_eq!(block_number_to_height(Some(BlockNumber::Latest), &vec![]), 0);
}

#[test]
fn store_branches_and_versions() {
    let mut s = VersionedStore::new();
    let main = b"Main".to_vec();
    let child = b"child".to_vec();
    let k = b"k".to_vec();
    assert_eq!(s.branch_create(&main), Ok(()));
    assert_eq!(s.branch_create(&main), Err(StoreError::BranchExists));
    assert_eq!(s.put_on(&main, &k, acct(1)), Err(StoreError::NoVersion));
    s.version_create_on(&main, VsVersion::new(1, 0)).unwrap();
    assert_eq!(s.version_create_on(&main, VsVersion::new(1, 0)), Err(StoreError::VersionExists));
    s.put_on(&main, &k, acct(1)).unwrap();
    s.version_create_on(&main, VsVersion::new(2, 0)).unwrap();
    s.put_on(&main, &k, acct(2)).unwrap();
    assert_eq!(balance_entry(s.get_on(&main, &k).unwrap()), Some(u(2)));
    assert!(s.version_exists_on(&main, VsVersion::new(1, 0)));
    assert!(!s.version_exists_on(&main, VsVersion::new(3, 0)));
    // a child forked at the end of height 1 sees the first write only
    s.branch_create_from(&child, &main, Some(VsVersion::new(1, u64::MAX))).unwrap();
    assert_eq!(balance_entry(s.get_on(&child, &k).unwrap()), Some(u(1)));
    s.version_create_on(&main, VsVersion::new(3, 0)).unwrap();
    s.put_on(&main, &k, acct(3)).unwrap();
    assert_eq!(balance_entry(s.get_on(&child, &k).unwrap()), Some(u(1)));
    // popping discards exactly the latest version
    s.version_pop_on(&main).unwrap();
    assert_eq!(balance_entry(s.get_on(&main, &k).unwrap()), Some(u(2)));
    assert_eq!(s.get_on(&b"nope".to_vec(), &k).is_err(), true);
    assert_eq!(balance_entry(s.get_on(&main, &b"other".to_vec()).unwrap()), None);
    s.branch_remove(&child).unwrap();
    assert!(!s.has_branch(&child));
    assert_eq!(s.branch_remove(&child), Err(StoreError::NoSuchBranch));
    assert!(s.branch_has_versions(&main));
}

#[test]
fn store_merge_to_parent() {
    let mut s = VersionedStore::new();
    let main = b"Main".to_vec();
    let child = b"child".to_vec();
    let k = b"k".to_vec();
    s.branch_create(&main).unwrap();
    s.version_create_on(&main, VsVersion::new(1, 0)).unwrap();
    s.put_on(&main, &k, acct(1)).unwrap();
    assert_eq!(s.branch_merge_to_parent(&main), Err(StoreError::NoParent));
    s.branch_create_from(&child, &main, None).unwrap();
    s.version_create_on(&child, VsVersion::new(2, 0)).unwrap();
    s.put_on(&child, &k, acct(5)).unwrap();
    assert_eq!(balance_entry(s.get_on(&main, &k).unwrap()), Some(u(1)));
    s.branch_merge_to_parent(&child).unwrap();
    assert!(!s.has_branch(&child));
    assert_eq!(balance_entry(s.get_on(&main, &k).unwrap()), Some(u(5)));
    // a child whose version id the parent took after the fork collides
    s.branch_create_from(&child, &main, None).unwrap();
    s.version_create_on(&child, VsVersion::new(3, 0)).unwrap();
    s.version_create_on(&main, VsVersion::new(3, 0)).unwrap();
    assert_eq!(s.branch_merge_to_parent(&child), Err(StoreError::VersionCollision));
    assert!(s.has_branch(&child));
}

#[test]
fn merkle_inclusion_path() {
    let t1 = vec![1u8; 32];
    let t2 = vec![2u8; 32];
    let t3 = vec![3u8; 32];
    let sentinel = hash_sha3_256(&vec![vec![]]);
    let leaves = vec![t1.clone(), t2.clone(), t3.clone(), sentinel.clone()];
    let m: TxMerkle = merkle_tree(&leaves);
    let h12 = hash_sha3_256(&vec![t1.clone(), t2.clone()]);
    let h34 = hash_sha3_256(&vec![t3.clone(), sentinel.clone()]);
    let root = hash_sha3_256(&vec![h12.clone(), h34.clone()]);
    assert_eq!(m.root_hash, root);
    assert_eq!(m.tree.len(), 3);
    assert_eq!(m.tree[0], leaves);
    assert_eq!(m.tree[1], vec![h12.clone(), h34.clone()]);
    // the path of t2: its sibling t1 on the left, then h34 on the right
    let up = hash_sha3_256(&vec![m.tree[0][0].clone(), t2.clone()]);
    let top = hash_sha3_256(&vec![up, m.tree[1][1].clone()]);
    assert_eq!(top, m.root_hash);
    for i in 0..4 {
        assert_eq!(merkle_path_root(&m.tree, i), Some(m.root_hash.clone()));
    }
    assert_eq!(merkle_path_root(&m.tree, 4), None);
    let odd = merkle_tree(&vec![t1.clone(), t2.clone(), t3.clone()]);
    assert_eq!(odd.root_hash, hash_sha3_256(&vec![h12, t3.clone()]));
    assert_eq!(merkle_tree(&vec![t3.clone()]).root_hash, t3);
}

#[test]
fn bloom_accrues_addresses_and_topics() {
    let mut b = vec![0u8; 256];
    let log = Log {
        address: vec![0x11; 20],
        topics: vec![vec![0x22; 32]],
        data: vec![],
        tx_hash: vec![],
        tx_index: 0,
        log_index_in_block: 0,
        log_index_in_tx: 0,
        removed: false,
    };
    handle_bloom(&mut b, &vec![log]);
    assert_eq!(b.len(), 256);
    let set: u32 = b.iter().map(|x| x.count_ones()).sum();
    assert!(set >= 1 && set <= 6);
    let before = b.clone();
    handle_bloom(&mut b, &vec![]);
    assert_eq!(b, before);
}

fn header(receipt_gas: u64) -> BlockHeader {
    BlockHeader {
        height: 4,
        proposer: vec![1; 20],
        timestamp: 99,
        tx_merkle: TxMerkle { root_hash: vec![5; 32], tree: vec![] },
        prev_hash: vec![6; 32],
        receipts: vec![Receipt {
            tx_hash: vec![7; 32],
            tx_index: 0,
            from: Some(vec![1; 20]),
            to: None,
            block_gas_used: u(receipt_gas),
            tx_gas_used: u(receipt_gas),
            contract_addr: Some(vec![2; 20]),
            state_root: None,
            status_code: true,
            logs: vec![],
        }],
    }
}

#[test]
fn header_hash_is_deterministic() {
    let a = header(21000);
    let mut b = header(21000);
    b.tx_merkle.tree = vec![vec![vec![9; 32]]];
    assert_eq!(a.hash(), b.hash());
    assert_eq!(a.hash().len(), 32);
    assert_ne!(a.hash(), header(21001).hash());
    let mut c = header(21000);
    c.timestamp = 100;
    assert_ne!(a.hash(), c.hash());
}

#[test]
fn decimal_names() {
    let mut v = b"x_".to_vec();
    push_decimal(&mut v, 0);
    assert_eq!(v, b"x_0".to_vec());
    let mut v = Vec::new();
    push_decimal(&mut v, 1234567890);
    assert_eq!(v, b"1234567890".to_vec());
    let mut v = Vec::new();
    push_decimal(&mut v, u64::MAX);
    assert_eq!(v, u64::MAX.to_string().into_bytes());
}

#[test]
fn rewind_branches() {
    let mut l = Ledger::new(1, vec![], vec![], None, None, None).unwrap();
    let prefix = b"balance".to_vec();
    assert_eq!(rollback_to_height(&mut l.state.store, 0, &prefix), Err(RewindError::ZeroHeight));
    let name = rollback_to_height(&mut l.state.store, 4, &prefix).unwrap();
    assert_eq!(name, b"balance_5".to_vec());
    assert!(l.state.store.has_branch(&name));
    assert!(l.state.store.version_exists_on(&name, VsVersion::new(5, 0)));
    let mut counter = 7u64;
    let n1 = snapshot_at_height(&mut l.state.store, 3, &b"call".to_vec(), &mut counter).unwrap();
    let n2 = snapshot_at_height(&mut l.state.store, 3, &b"call".to_vec(), &mut counter).unwrap();
    assert_eq!(n1, b"call_3_7".to_vec());
    assert_eq!(n2, b"call_3_8".to_vec());
    assert_eq!(counter, 9);
    assert_eq!(snapshot_at_height(&mut l.state.store, 0, &b"call".to_vec(), &mut counter), Err(RewindError::ZeroHeight));
    assert_eq!(counter, 9);
}

#[test]
fn gas_limits_of_calls() {
    assert_eq!(call_gas_limit(None, None), Some(u64::MAX));
    assert_eq!(call_gas_limit(Some(u(1000)), Some(u(10))), Some(100));
    assert_eq!(call_gas_limit(Some(u(1000)), Some(u(0))), None);
    let huge = U256 { l0: 0, l1: 1, l2: 0, l3: 0 };
    assert_eq!(call_gas_limit(Some(huge), None), Some(u64::MAX));
    assert_eq!(call_gas_limit(Some(u(1000)), Some(huge)), Some(0));
    assert_eq!(estimate_from_used(5), u(21005));
    assert_eq!(estimate_from_used(u64::MAX), U256 { l0: 20999, l1: 1, l2: 0, l3: 0 });
}

fn genesis_ledger() -> Ledger {
    let mut l = Ledger::new(9, b"c".to_vec(), b"v".to_vec(), Some(20), Some(1000), Some(3)).unwrap();
    let init = InitalState {
        addr_to_amount: vec![(vec![0xaa; 20], u(500)), (vec![0xbb; 20], u(7))],
        inital_contracts: vec![InitalContract::new(vec![0xaa; 20], b"salt".to_vec())],
    };
    l.load_genesis(&init).unwrap();
    l
}

#[test]
fn new_ledger_and_genesis() {
    let l = genesis_ledger();
    assert_eq!(l.state.evm.gas_price, u(20));
    assert_eq!(l.state.evm.block_gas_limit, u(1000));
    assert_eq!(l.state.evm.block_base_fee_per_gas, u(3));
    let d = Ledger::new(9, vec![], vec![], None, None, None).unwrap();
    assert_eq!(d.state.evm.gas_price, u(10));
    assert_eq!(d.state.evm.block_gas_limit, U256::from_u128(u128::MAX));
    assert_eq!(d.state.evm.block_base_fee_per_gas, u(0));
    let main = main_branch_name();
    assert_eq!(read_account(&l.state.store, &main, &vec![0xaa; 20]).unwrap().balance, u(500));
    assert_eq!(read_account(&l.state.store, &main, &vec![0xbb; 20]).unwrap().balance, u(7));
    assert_eq!(read_account(&l.state.store, &main, &vec![0xcc; 20]).unwrap().balance, u(0));
    assert_eq!(account_key(&vec![1, 2]), vec![b'a', 1, 2]);
}

#[test]
fn transient_call_leaves_no_branch() {
    let mut l = genesis_ledger();
    l.consensus_refresh(vec![1; 20], 10).unwrap();
    l.commit().unwrap();
    let req = CallRequest { from: None, to: Some(vec![0xbb; 20]), gas: Some(u(50_000)), gas_price: None, value: None, data: None };
    let seen = std::cell::RefCell::new(Vec::new());
    let r = l.estimate_gas(&req, Some(BlockNumber::Latest), |store: &VersionedStore, plan: &overeality::rewind::CallPlan| {
        let a = read_account(store, &plan.branch, &vec![0xaa; 20]).unwrap();
        seen.borrow_mut().push((plan.branch.clone(), plan.gas_limit, a.balance));
        CallContractResp { success: true, data: vec![1, 2], gas_used: 30_000 }
    });
    assert_eq!(r, Ok(u(51_000)));
    let seen = seen.into_inner();
    assert_eq!(seen.len(), 1);
    assert_eq!(seen[0].0, b"call_contract_1_0".to_vec());
    assert_eq!(seen[0].1, 50_000);
    assert_eq!(seen[0].2, u(500));
    assert!(!l.state.store.has_branch(&seen[0].0));
    let bad = CallRequest { from: None, to: None, gas: None, gas_price: Some(u(0)), value: None, data: None };
    let r = l.call(&bad, None, |_: &VersionedStore, _: &overeality::rewind::CallPlan| CallContractResp { success: true, data: vec![], gas_used: 0 });
    assert_eq!(r, Err(CallError::ZeroGasPrice));
    let r = l.call(&req, Some(BlockNumber::Pending), |_: &VersionedStore, _: &overeality::rewind::CallPlan| CallContractResp { success: true, data: vec![], gas_used: 0 });
    assert_eq!(r, Err(CallError::Rewind(RewindError::ZeroHeight)));
    let r = l.call(&req, None, |_: &VersionedStore, _: &overeality::rewind::CallPlan| CallContractResp { success: true, data: vec![4], gas_used: 0 });
    assert_eq!(r, Ok(vec![4]));
    let full = CallRequest {
        from: Some(vec![0xaa; 20]),
        to: None,
        gas: Some(u(900)),
        gas_price: Some(u(30)),
        value: Some(u(8)),
        data: Some(vec![1, 2, 3]),
    };
    let r = l.call(&full, Some(BlockNumber::Num(1)), |_: &VersionedStore, p: &overeality::rewind::CallPlan| {
        assert_eq!(p.caller, vec![0xaa; 20]);
        assert_eq!(p.target, None);
        assert_eq!(p.value, u(8));
        assert_eq!(p.gas_limit, 30);
        CallContractResp { success: true, data: p.data.clone(), gas_used: 0 }
    });
    assert_eq!(r, Ok(vec![1, 2, 3]));
}

#[test]
fn common_properties_of_1559() {
    let tx = Tx {
        kind: TxKind::Eip1559,
        nonce: u(3),
        gas_price: u(0),
        max_priority_fee_per_gas: u(4),
        max_fee_per_gas: u(11),
        gas_limit: u(21000),
        action: TransactionAction::Create,
        value: u(1),
        input: vec![1, 2],
        access_list: vec![],
        r: vec![1],
        s: vec![2],
        v: 1,
    };
    let p = tx.get_tx_common_properties();
    assert_eq!(p.gas_price, u(7));
    assert_eq!(p.nonce, u(3));
    assert_eq!(p.input, vec![1, 2]);
    assert_eq!(tx.check_gas_price(u(11)).ok(), Some(u(11)));
    assert!(tx.check_gas_price(u(12)).is_err());
    let (from, to) = tx.get_from_to(&Some(vec![9; 20]));
    assert_eq!(from, Some(vec![9; 20]));
    assert_eq!(to, None);
    let ret = ExecRet {
        success: false,
        gas_used: u(5),
        fee_used: u(50),
        extra_data: vec![],
        caller: vec![9; 20],
        contract_addr: vec![8; 20],
        logs: vec![],
    };
    let r = ret.gen_receipt(&from, &to);
    assert_eq!(r.contract_addr, Some(vec![8; 20]));
    assert!(!r.status_code);
    assert_eq!(r.tx_gas_used, u(5));
    assert_eq!(tx.check_balance(u(11), u(231_001)).ok(), Some(u(231_001)));
    assert_eq!(tx.check_balance(u(11), u(231_000)).err(), Some(Some(u(231_001))));
}

#[test]
fn net_answers() {
    let n = NetApiImpl::new();
    assert_eq!(n.peer_count(), 0);
    assert!(n.is_listening());
}

#[test]
fn snapshot_reload() {
    let mut l = genesis_ledger();
    l.consensus_refresh(vec![1; 20], 10).unwrap();
    l.commit().unwrap();
    l.consensus_refresh(vec![1; 20], 11).unwrap();
    let Ledger { state, main, .. } = l;
    let main_branch: StateBranch = main;
    let mut l2 = Ledger::load_from_snapshot(state, main_branch).unwrap();
    let m = main_branch_name();
    // the dangling version of block 2 is gone from Main
    assert!(!l2.state.store.version_exists_on(&m, VsVersion::new(2, 0)));
    assert!(l2.state.store.version_exists_on(&m, VsVersion::new(1, 0)));
    l2.consensus_refresh(vec![1; 20], 12).unwrap();
    assert_eq!(l2.commit().unwrap().len(), 32);
    assert_eq!(l2.block_number(), 2);
}

#[test]
fn default_branch_reads_and_writes() {
    let mut s = VersionedStore::new();
    let a = b"A".to_vec();
    let b = b"B".to_vec();
    let k = b"k".to_vec();
    assert_eq!(s.branch_set_default(&a), Err(StoreError::NoSuchBranch));
    s.branch_create(&a).unwrap();
    s.branch_create(&b).unwrap();
    s.version_create_on(&a, VsVersion::default()).unwrap();
    s.version_create_on(&b, VsVersion::new(0, 1)).unwrap();
    s.branch_set_default(&a).unwrap();
    s.put(&k, acct(11)).unwrap();
    assert_eq!(balance_entry(s.get(&k).unwrap()), Some(u(11)));
    assert_eq!(balance_entry(s.get_on(&b, &k).unwrap()), None);
    s.branch_set_default(&b).unwrap();
    assert_eq!(balance_entry(s.get(&k).unwrap()), None);
    s.put(&k, acct(12)).unwrap();
    assert_eq!(balance_entry(s.get_on(&a, &k).unwrap()), Some(u(11)));
    assert_eq!(balance_entry(s.get_on(&b, &k).unwrap()), Some(u(12)));
    assert!(VsVersion::default().le(&VsVersion::new(0, 1)));
    assert!(!VsVersion::new(2, 0).le(&VsVersion::new(1, u64::MAX)));
}

#[test]
fn genesis_contract_params() {
    let mut c = InitalContract::new(vec![0xaa; 20], vec![]);
    c.bytecode = b"0x6001 \n".to_vec();
    let p = create2_params(&c).unwrap();
    assert_eq!(p.bytecode, vec![0x60, 0x01]);
    assert_eq!(p.caller, vec![0xaa; 20]);
    assert_eq!(p.salt, hex("c5d2460186f7233c927e7db2dcc703c0e500b653ca82273b7bfad8045d85a470"));
    assert_eq!(p.code_hash, sha3::Keccak256::digest([0x60u8, 0x01]).to_vec());
    c.bytecode = b"0xABcd".to_vec();
    assert_eq!(create2_params(&c).unwrap().bytecode, vec![0xab, 0xcd]);
    c.bytecode = b"0x".to_vec();
    assert_eq!(create2_params(&c).unwrap().bytecode, Vec::<u8>::new());
    c.bytecode = b"0".to_vec();
    assert_eq!(create2_params(&c).err(), Some(GenesisError::ShortBytecode));
    c.bytecode = b"0x123".to_vec();
    assert_eq!(create2_params(&c).err(), Some(GenesisError::InvalidHex));
    c.bytecode = b"0xzz".to_vec();
    assert_eq!(create2_params(&c).err(), Some(GenesisError::InvalidHex));
    assert_eq!(trim_ascii(&b"  a b \t".to_vec()), b"a b".to_vec());
    assert_eq!(trim_ascii(&b" \n ".to_vec()), Vec::<u8>::new());
}

#[test]
fn sender_from_public_key() {
    let pk = vec![7u8; 64];
    let a = overeality::tx::address_from_pubkey(&pk);
    let h = sha3::Keccak256::digest(&pk).to_vec();
    assert_eq!(a, h[12..].to_vec());
    assert_eq!(a.len(), 20);
}
