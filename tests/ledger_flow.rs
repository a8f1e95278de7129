use overeality::block::EvmLog;
use overeality::common::BlockNumber;
use overeality::ledger::{
    account_key, check_tx_branch_name, deliver_tx_branch_name, main_branch_name, read_account, Ledger,
};
use overeality::rewind::RewindError;
use overeality::store::{Entry, OvrAccount, Write};
use overeality::tx::{ExecOutcome, TransactionAction, Tx, TxError, TxKind};
use overeality::u256::U256;

fn addr(b: u8) -> Vec<u8> {
    vec![b; 20]
}

fn u(v: u64) -> U256 {
    U256::from_u64(v)
}

fn legacy(nonce: u64, to: Option<Vec<u8>>, value: u64, gas_limit: u64, gas_price: u64) -> Tx {
    Tx {
        kind: TxKind::Legacy,
        nonce: u(nonce),
        gas_price: u(gas_price),
        max_priority_fee_per_gas: u(0),
        max_fee_per_gas: u(0),
        gas_limit: u(gas_limit),
        action: match to {
            Some(a) => TransactionAction::Call(a),
            None => TransactionAction::Create,
        },
        value: u(value),
        input: vec![],
        access_list: vec![],
        r: vec![1; 32],
        s: vec![2; 32],
        v: 27,
    }
}

fn account(nonce: u64, balance: u64) -> OvrAccount {
    OvrAccount { nonce: u(nonce), balance: u(balance), code: vec![] }
}

fn account_write(a: &Vec<u8>, acct: OvrAccount) -> Write {
    Write { key: account_key(a), value: Entry::Account(acct) }
}

/// A ledger whose Main holds the given balances.
fn genesis(balances: &[(Vec<u8>, u64)]) -> Ledger {
    let mut l = Ledger::new(1, b"chain".to_vec(), b"1".to_vec(), None, None, None).unwrap();
    let main = main_branch_name();
    for (a, b) in balances {
        l.state.store.put_on(&main, &account_key(a), Entry::Account(account(0, *b))).unwrap();
    }
    l
}

fn balance_on(l: &Ledger, branch: &Vec<u8>, a: &Vec<u8>) -> U256 {
    read_account(&l.state.store, branch, a).unwrap().balance
}

fn nonce_on(l: &Ledger, branch: &Vec<u8>, a: &Vec<u8>) -> U256 {
    read_account(&l.state.store, branch, a).unwrap().nonce
}

/// What the EVM reports for a plain transfer of `value` from `from` to `to`.
fn transfer_outcome(l: &Ledger, branch: &Vec<u8>, from: &Vec<u8>, to: &Vec<u8>, value: u64, gas: u64) -> ExecOutcome {
    let fb = balance_on(l, branch, from).saturating_sub(&u(value));
    let tb = balance_on(l, branch, to).checked_add(&u(value)).unwrap();
    let fnonce = nonce_on(l, branch, from);
    ExecOutcome {
        success: true,
        gas_used: gas,
        writes: vec![
            account_write(from, OvrAccount { nonce: fnonce, balance: fb, code: vec![] }),
            account_write(to, account(0, tb.l0)),
        ],
        logs: vec![],
        contract_addr: to.clone(),
        extra_data: vec![],
    }
}

#[test]
fn transfer_success() {
    let (a, b) = (addr(0xaa), addr(0xbb));
    let mut l = genesis(&[(a.clone(), 1_000_000), (b.clone(), 0)]);
    l.consensus_refresh(vec![7; 20], 100).unwrap();
    let d = deliver_tx_branch_name();
    let out = transfer_outcome(&l, &d, &a, &b, 100, 21000);
    let tx = legacy(0, Some(b.clone()), 100, 21000, 10);
    l.deliver_tx.apply_tx(&mut l.state, tx, vec![0x11; 32], Some(a.clone()), out).unwrap();
    let hash = l.commit().unwrap();
    let main = main_branch_name();
    assert_eq!(balance_on(&l, &main, &a), u(1_000_000 - 100 - 210_000));
    assert_eq!(balance_on(&l, &main, &b), u(100));
    assert_eq!(nonce_on(&l, &main, &a), u(1));
    let blk = &l.state.blocks[0];
    assert_eq!(blk.header.height, 1);
    assert_eq!(blk.header_hash, hash);
    assert_eq!(blk.header.receipts.len(), 1);
    assert!(blk.header.receipts[0].status_code);
    assert_eq!(blk.header.receipts[0].block_gas_used, u(21000));
    assert_eq!(blk.header.receipts[0].tx_gas_used, u(21000));
    assert_eq!(blk.header.receipts[0].tx_index, 0);
    assert_eq!(blk.header.receipts[0].tx_hash, vec![0x11; 32]);
    assert_eq!(blk.header.hash(), hash);
}

#[test]
fn nonce_mismatch() {
    let (a, b) = (addr(0xaa), addr(0xbb));
    let mut l = genesis(&[(a.clone(), 1_000_000)]);
    l.consensus_refresh(vec![7; 20], 100).unwrap();
    let c = check_tx_branch_name();
    let out = transfer_outcome(&l, &c, &a, &b, 100, 21000);
    let tx = legacy(5, Some(b.clone()), 100, 21000, 10);
    let r = l.check_tx.apply_tx(&mut l.state, tx, vec![0x12; 32], Some(a.clone()), out);
    match r {
        Err(TxError::InvalidNonce { tx_nonce, expected }) => {
            assert_eq!(tx_nonce, u(5));
            assert_eq!(expected, u(0));
        }
        _ => panic!("expected a nonce error"),
    }
    assert_eq!(balance_on(&l, &c, &a), u(1_000_000));
    assert_eq!(nonce_on(&l, &c, &a), u(0));
    assert!(l.check_tx.tx_hashes_in_process.is_empty());
}

#[test]
fn revert_charges_fee() {
    let a = addr(0xaa);
    let mut l = genesis(&[(a.clone(), 10_000_000)]);
    l.consensus_refresh(vec![7; 20], 100).unwrap();
    let d = deliver_tx_branch_name();
    let out = ExecOutcome {
        success: false,
        gas_used: 200_000,
        writes: vec![account_write(&a, account(1, 0))],
        logs: vec![EvmLog { address: addr(0xcc), topics: vec![vec![1; 32]], data: vec![] }],
        contract_addr: addr(0xcc),
        extra_data: vec![],
    };
    let tx = legacy(0, None, 0, 200_000, 10);
    let r = l.deliver_tx.apply_tx(&mut l.state, tx, vec![0x13; 32], Some(a.clone()), out);
    match r {
        Err(TxError::Reverted { gas_used, fee_used }) => {
            assert_eq!(gas_used, u(200_000));
            assert_eq!(fee_used, u(2_000_000));
        }
        _ => panic!("expected a revert"),
    }
    assert_eq!(balance_on(&l, &d, &a), u(8_000_000));
    assert_eq!(nonce_on(&l, &d, &a), u(0));
    assert!(l.deliver_tx.tx_hashes_in_process.is_empty());
    let h1 = l.commit().unwrap();
    let main = main_branch_name();
    assert_eq!(balance_on(&l, &main, &a), u(8_000_000));
    let blk = &l.state.blocks[0];
    assert_eq!(blk.header.receipts.len(), 0);
    assert_eq!(blk.header.hash(), h1);
    assert_eq!(h1.len(), 32);
}

#[test]
fn historical_balance() {
    let (a, b) = (addr(0xaa), addr(0xbb));
    let mut l = genesis(&[(a.clone(), 1_000_000)]);
    for i in 0..3u64 {
        l.consensus_refresh(vec![7; 20], 100 + i).unwrap();
        let d = deliver_tx_branch_name();
        let out = transfer_outcome(&l, &d, &a, &b, 10, 21000);
        let tx = legacy(i, Some(b.clone()), 10, 21000, 10);
        l.deliver_tx.apply_tx(&mut l.state, tx, vec![0x20 + i as u8; 32], Some(a.clone()), out).unwrap();
        l.commit().unwrap();
    }
    assert_eq!(l.balance(&b, Some(BlockNumber::Num(2))).unwrap(), u(20));
    assert_eq!(l.balance(&b, Some(BlockNumber::Latest)).unwrap(), u(30));
    assert_eq!(l.balance(&b, Some(BlockNumber::Num(1))).unwrap(), u(10));
    assert_eq!(l.transaction_count(&a, Some(BlockNumber::Num(2))).unwrap(), u(2));
    assert_eq!(l.balance(&b, Some(BlockNumber::Pending)), Err(RewindError::ZeroHeight));
    // no ephemeral branch is left behind
    let mut probe = b"balance_".to_vec();
    probe.extend_from_slice(b"3");
    assert!(!l.state.store.has_branch(&probe));
    let mut probe = b"balance_".to_vec();
    probe.extend_from_slice(b"4");
    assert!(!l.state.store.has_branch(&probe));
}

#[test]
fn fork_isolation() {
    let (a, b) = (addr(0xaa), addr(0xbb));
    let mut l = genesis(&[(a.clone(), 1_000_000)]);
    l.consensus_refresh(vec![7; 20], 100).unwrap();
    let d = deliver_tx_branch_name();
    let c = check_tx_branch_name();
    let main = main_branch_name();
    let out = transfer_outcome(&l, &d, &a, &b, 100, 21000);
    l.deliver_tx
        .apply_tx(&mut l.state, legacy(0, Some(b.clone()), 100, 21000, 10), vec![0x31; 32], Some(a.clone()), out)
        .unwrap();
    assert_eq!(balance_on(&l, &d, &a), u(1_000_000 - 100 - 210_000));
    assert_eq!(balance_on(&l, &c, &a), u(1_000_000));
    assert_eq!(balance_on(&l, &main, &a), u(1_000_000));
    l.commit().unwrap();
    l.consensus_refresh(vec![7; 20], 101).unwrap();
    assert_eq!(balance_on(&l, &c, &a), u(1_000_000 - 100 - 210_000));
}

#[test]
fn low_gas_price_rejected() {
    let (a, b) = (addr(0xaa), addr(0xbb));
    let mut l = genesis(&[(a.clone(), 1_000_000)]);
    l.consensus_refresh(vec![7; 20], 100).unwrap();
    let c = check_tx_branch_name();
    let out = transfer_outcome(&l, &c, &a, &b, 1, 21000);
    let r = l.check_tx.apply_tx(&mut l.state, legacy(0, Some(b.clone()), 1, 21000, 9), vec![1; 32], Some(a.clone()), out);
    assert!(matches!(r, Err(TxError::GasPriceTooLow)));
}

#[test]
fn missing_signature_rejected() {
    let (a, b) = (addr(0xaa), addr(0xbb));
    let mut l = genesis(&[(a.clone(), 1_000_000)]);
    l.consensus_refresh(vec![7; 20], 100).unwrap();
    let c = check_tx_branch_name();
    let out = transfer_outcome(&l, &c, &a, &b, 1, 21000);
    let r = l.check_tx.apply_tx(&mut l.state, legacy(0, Some(b.clone()), 1, 21000, 10), vec![1; 32], None, out);
    assert!(matches!(r, Err(TxError::InvalidSignature)));
}

#[test]
fn insufficient_balance_rejected() {
    let (a, b) = (addr(0xaa), addr(0xbb));
    let mut l = genesis(&[(a.clone(), 1000)]);
    l.consensus_refresh(vec![7; 20], 100).unwrap();
    let c = check_tx_branch_name();
    let out = transfer_outcome(&l, &c, &a, &b, 1, 21000);
    let r = l.check_tx.apply_tx(&mut l.state, legacy(0, Some(b.clone()), 1, 21000, 10), vec![1; 32], Some(a.clone()), out);
    match r {
        Err(TxError::InsufficientBalance { needed, balance }) => {
            assert_eq!(needed, u(210_001));
            assert_eq!(balance, u(1000));
        }
        _ => panic!("expected insufficient balance"),
    }
    assert_eq!(balance_on(&l, &c, &a), u(1000));
}

#[test]
fn zero_gas_limit_rejected() {
    let (a, b) = (addr(0xaa), addr(0xbb));
    let mut l = genesis(&[(a.clone(), 1_000_000)]);
    l.consensus_refresh(vec![7; 20], 100).unwrap();
    let c = check_tx_branch_name();
    let out = transfer_outcome(&l, &c, &a, &b, 1, 0);
    let r = l.check_tx.apply_tx(&mut l.state, legacy(0, Some(b.clone()), 1, 0, 10), vec![1; 32], Some(a.clone()), out);
    assert!(matches!(r, Err(TxError::InvalidAmount)));
}

#[test]
fn empty_block_has_merkle_root() {
    let mut l = genesis(&[]);
    l.consensus_refresh(vec![7; 20], 100).unwrap();
    let h = l.commit().unwrap();
    let blk = &l.state.blocks[0];
    assert_eq!(blk.header.tx_merkle.root_hash.len(), 32);
    assert_eq!(blk.header.tx_merkle.root_hash, overeality::common::hash_sha3_256(&vec![vec![]]));
    assert_eq!(h.len(), 32);
    assert_eq!(l.state.evm.block_hashes.len(), 1);
    assert_eq!(l.state.evm.block_hashes[0], h);
}

#[test]
fn second_block_links_previous_hash() {
    let mut l = genesis(&[]);
    l.consensus_refresh(vec![7; 20], 100).unwrap();
    let h1 = l.commit().unwrap();
    l.consensus_refresh(vec![8; 20], 200).unwrap();
    let h2 = l.commit().unwrap();
    assert_eq!(l.state.blocks[1].header.prev_hash, h1);
    assert_eq!(l.state.blocks[1].header.height, 2);
    assert_ne!(h1, h2);
    assert_eq!(l.state.evm.vicinity.block_timestamp, u(200));
    assert_eq!(l.state.evm.vicinity.block_coinbase, vec![8; 20]);
}

#[test]
fn receipts_in_hash_order() {
    let (a, b) = (addr(0xaa), addr(0xbb));
    let mut l = genesis(&[(a.clone(), 1_000_000)]);
    l.consensus_refresh(vec![7; 20], 100).unwrap();
    let d = deliver_tx_branch_name();
    let out = transfer_outcome(&l, &d, &a, &b, 1, 21000);
    l.deliver_tx.apply_tx(&mut l.state, legacy(0, Some(b.clone()), 1, 21000, 10), vec![0x90; 32], Some(a.clone()), out).unwrap();
    let out = transfer_outcome(&l, &d, &a, &b, 1, 21000);
    l.deliver_tx.apply_tx(&mut l.state, legacy(1, Some(b.clone()), 1, 21000, 10), vec![0x10; 32], Some(a.clone()), out).unwrap();
    assert_eq!(l.deliver_tx.tx_hashes_in_process, vec![vec![0x90; 32], vec![0x10; 32]]);
    l.commit().unwrap();
    let rs = &l.state.blocks[0].header.receipts;
    assert_eq!(rs.len(), 2);
    assert_eq!(rs[0].tx_hash, vec![0x10; 32]);
    assert_eq!(rs[0].tx_index, 1);
    assert_eq!(rs[1].tx_hash, vec![0x90; 32]);
    assert_eq!(rs[1].tx_index, 0);
    assert_eq!(rs[0].block_gas_used, u(42000));
    assert_eq!(l.state.blocks[0].txs.len(), 2);
    let main = main_branch_name();
    assert_eq!(balance_on(&l, &main, &b), u(2));
    assert_eq!(nonce_on(&l, &main, &a), u(2));
}

#[test]
fn committed_block_inclusion() {
    let (a, b) = (addr(0xaa), addr(0xbb));
    let mut l = genesis(&[(a.clone(), 10_000_000)]);
    l.consensus_refresh(vec![7; 20], 100).unwrap();
    let d = deliver_tx_branch_name();
    for i in 0..3u64 {
        let out = transfer_outcome(&l, &d, &a, &b, 1, 21000);
        l.deliver_tx
            .apply_tx(&mut l.state, legacy(i, Some(b.clone()), 1, 21000, 10), vec![0x40 + i as u8; 32], Some(a.clone()), out)
            .unwrap();
    }
    l.commit().unwrap();
    let m = &l.state.blocks[0].header.tx_merkle;
    assert_eq!(m.tree[0].len(), 4);
    assert_eq!(m.tree[0][1], vec![0x41; 32]);
    assert_eq!(overeality::block::merkle_path_root(&m.tree, 1), Some(m.root_hash.clone()));
}

#[test]
fn nonce_checked_before_amount() {
    let (a, b) = (addr(0xaa), addr(0xbb));
    let mut l = genesis(&[(a.clone(), 1_000_000)]);
    l.consensus_refresh(vec![7; 20], 100).unwrap();
    let c = check_tx_branch_name();
    let out = transfer_outcome(&l, &c, &a, &b, 1, 0);
    // zero gas limit and a wrong nonce: the nonce is checked first
    let r = l.check_tx.apply_tx(&mut l.state, legacy(3, Some(b.clone()), 1, 0, 10), vec![1; 32], Some(a.clone()), out);
    assert!(matches!(r, Err(TxError::InvalidNonce { .. })));
}

#[test]
fn commit_without_deliver_branch_changes_nothing() {
    let a = addr(0xaa);
    let mut l = genesis(&[(a.clone(), 5)]);
    l.consensus_refresh(vec![7; 20], 100).unwrap();
    l.commit().unwrap();
    // DeliverTx is gone until the next BeginBlock
    let r = l.commit();
    assert!(r.is_err());
    assert_eq!(l.state.blocks.len(), 1);
    assert_eq!(l.state.evm.block_hashes.len(), 1);
    let main = main_branch_name();
    assert_eq!(balance_on(&l, &main, &a), u(5));
}

#[test]
fn refresh_starts_blocks_on_all_branches() {
    let a = addr(0xaa);
    let mut l = genesis(&[(a.clone(), 5)]);
    l.consensus_refresh(vec![7; 20], 100).unwrap();
    let h1 = l.commit().unwrap();
    l.consensus_refresh(vec![9; 3], 200).unwrap();
    for sb in [&l.main, &l.deliver_tx, &l.check_tx] {
        assert_eq!(sb.block_in_process.header.height, 2);
        assert_eq!(sb.block_in_process.header.prev_hash, h1);
        assert_eq!(sb.block_in_process.header.timestamp, 200);
        assert_eq!(sb.block_in_process.header.proposer, vec![9; 3]);
        assert!(sb.tx_hashes_in_process.is_empty());
    }
    let mut coinbase = vec![0u8; 17];
    coinbase.extend_from_slice(&[9, 9, 9]);
    assert_eq!(l.state.evm.vicinity.block_coinbase, coinbase);
    assert_eq!(l.state.evm.vicinity.block_number, u(1));
    assert_eq!(balance_on(&l, &deliver_tx_branch_name(), &a), u(5));
    assert_eq!(balance_on(&l, &check_tx_branch_name(), &a), u(5));
    assert!(l.state.store.version_exists_on(&deliver_tx_branch_name(), overeality::store::VsVersion::new(2, 0)));
    // a second BeginBlock for the same height is refused and leaves Main as it was
    assert!(l.consensus_refresh(vec![9; 3], 201).is_err());
}

#[test]
fn receipt_logs_are_stamped() {
    let (a, c) = (addr(0xaa), addr(0xcc));
    let mut l = genesis(&[(a.clone(), 1_000_000)]);
    l.consensus_refresh(vec![7; 20], 100).unwrap();
    let d = deliver_tx_branch_name();
    let mut out = transfer_outcome(&l, &d, &a, &c, 0, 21000);
    out.logs = vec![
        EvmLog { address: c.clone(), topics: vec![vec![1; 32]], data: vec![5] },
        EvmLog { address: c.clone(), topics: vec![], data: vec![6] },
    ];
    out.contract_addr = addr(0xee);
    l.deliver_tx.apply_tx(&mut l.state, legacy(0, Some(c.clone()), 0, 21000, 10), vec![0x77; 32], Some(a.clone()), out).unwrap();
    let r = &l.deliver_tx.block_in_process.header.receipts[0];
    assert_eq!(r.logs.len(), 2);
    assert_eq!(r.logs[1].log_index_in_tx, 1);
    assert_eq!(r.logs[1].data, vec![6]);
    assert_eq!(r.logs[0].tx_hash, vec![0x77; 32]);
    assert_eq!(r.contract_addr, None);
    assert_eq!(r.to, Some(c.clone()));
}
