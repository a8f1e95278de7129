use overeality::block::EvmLog;
use overeality::common::BlockNumber;
use overeality::ledger::{account_key, deliver_tx_branch_name, main_branch_name, read_account, Ledger};
use overeality::query::{block_summary, BlockTransactions, Filter};
use overeality::rewind::RewindError;
use overeality::store::{Entry, OvrAccount, Write};
use overeality::tx::{ExecOutcome, TransactionAction, Tx, TxKind};
use overeality::u256::U256;

fn u(v: u64) -> U256 {
    U256::from_u64(v)
}

fn call_tx(nonce: u64, to: Vec<u8>) -> Tx {
    Tx {
        kind: TxKind::Eip2930,
        nonce: u(nonce),
        gas_price: u(10),
        max_priority_fee_per_gas: u(0),
        max_fee_per_gas: u(0),
        gas_limit: u(50_000),
        action: TransactionAction::Call(to),
        value: u(0),
        input: vec![],
        access_list: vec![],
        r: vec![],
        s: vec![],
        v: 0,
    }
}

/// Three blocks; block `i` holds one call from A whose EVM run emits one log
/// from contract `0xc0 + i` with topic `[i; 32]`.
fn chain() -> Ledger {
    let a = vec![0xaa; 20];
    let mut l = Ledger::new(1, vec![], vec![], None, None, None).unwrap();
    let main = main_branch_name();
    l.state
        .store
        .put_on(&main, &account_key(&a), Entry::Account(OvrAccount { nonce: u(0), balance: u(10_000_000), code: vec![] }))
        .unwrap();
    for i in 1..=3u8 {
        l.consensus_refresh(vec![1; 20], i as u64).unwrap();
        let d = deliver_tx_branch_name();
        let before = read_account(&l.state.store, &d, &a).unwrap();
        let out = ExecOutcome {
            success: true,
            gas_used: 30_000,
            writes: vec![Write { key: account_key(&a), value: Entry::Account(before) }],
            logs: vec![EvmLog { address: vec![0xc0 + i; 20], topics: vec![vec![i; 32]], data: vec![i] }],
            contract_addr: vec![0xc0 + i; 20],
            extra_data: vec![],
        };
        l.deliver_tx
            .apply_tx(&mut l.state, call_tx((i - 1) as u64, vec![0xc0 + i; 20]), vec![0x50 + i; 32], Some(a.clone()), out)
            .unwrap();
        l.commit().unwrap();
    }
    l
}

fn filter(from: Option<BlockNumber>, to: Option<BlockNumber>, address: Vec<Vec<u8>>, topics: Vec<Option<Vec<Vec<u8>>>>) -> Filter {
    Filter { from_block: from, to_block: to, block_hash: None, address, topics }
}

#[test]
fn logs_by_range() {
    let l = chain();
    let all = l.logs(&filter(Some(BlockNumber::Num(1)), Some(BlockNumber::Latest), vec![], vec![]));
    assert_eq!(all.len(), 3);
    assert_eq!(all[0].address, vec![0xc1; 20]);
    assert_eq!(all[2].data, vec![3]);
    assert_eq!(all[1].tx_hash, vec![0x52; 32]);
    let mid = l.logs(&filter(Some(BlockNumber::Num(2)), Some(BlockNumber::Num(2)), vec![], vec![]));
    assert_eq!(mid.len(), 1);
    assert_eq!(mid[0].topics, vec![vec![2u8; 32]]);
    let clipped = l.logs(&filter(Some(BlockNumber::Num(3)), Some(BlockNumber::Num(99)), vec![], vec![]));
    assert_eq!(clipped.len(), 1);
    let none = l.logs(&filter(Some(BlockNumber::Num(3)), Some(BlockNumber::Num(2)), vec![], vec![]));
    assert!(none.is_empty());
}

#[test]
fn logs_by_address_and_topic() {
    let l = chain();
    let by_addr = l.logs(&filter(Some(BlockNumber::Earliest), None, vec![vec![0xc2; 20], vec![0xc3; 20]], vec![]));
    assert_eq!(by_addr.len(), 2);
    assert_eq!(by_addr[0].address, vec![0xc2; 20]);
    let by_topic = l.logs(&filter(Some(BlockNumber::Earliest), None, vec![], vec![Some(vec![vec![3; 32]])]));
    assert_eq!(by_topic.len(), 1);
    assert_eq!(by_topic[0].address, vec![0xc3; 20]);
    let either = l.logs(&filter(Some(BlockNumber::Earliest), None, vec![], vec![Some(vec![vec![1; 32], vec![3; 32]])]));
    assert_eq!(either.len(), 2);
    assert_eq!(either[1].address, vec![0xc3; 20]);
    let wildcard = l.logs(&filter(Some(BlockNumber::Earliest), None, vec![], vec![None]));
    assert_eq!(wildcard.len(), 3);
    let too_many = l.logs(&filter(Some(BlockNumber::Earliest), None, vec![], vec![None, Some(vec![vec![1; 32]])]));
    assert!(too_many.is_empty());
}

#[test]
fn logs_by_block_hash() {
    let l = chain();
    let h2 = l.state.blocks[1].header_hash.clone();
    let f = Filter { from_block: None, to_block: None, block_hash: Some(h2), address: vec![], topics: vec![] };
    let got = l.logs(&f);
    assert_eq!(got.len(), 1);
    assert_eq!(got[0].data, vec![2]);
    assert_eq!(got[0].log_index_in_tx, 0);
}

#[test]
fn blocks_and_receipts() {
    let l = chain();
    assert_eq!(l.block_number(), 3);
    assert_eq!(l.block_by_number(Some(BlockNumber::Num(2))).unwrap().unwrap().header.height, 2);
    assert!(l.block_by_number(Some(BlockNumber::Num(4))).unwrap().is_none());
    assert!(matches!(l.block_by_number(Some(BlockNumber::Pending)), Err(RewindError::ZeroHeight)));
    let h3 = l.state.blocks[2].header_hash.clone();
    assert_eq!(l.block_by_hash(&h3).unwrap().header.height, 3);
    assert!(l.block_by_hash(&vec![0; 32]).is_none());
    assert_eq!(l.block_by_number(Some(BlockNumber::Hash(h3))).unwrap().unwrap().header.height, 3);
    assert_eq!(l.block_transaction_count_by_number(Some(BlockNumber::Num(1))), Ok(Some(1)));
    assert_eq!(l.block_transaction_count_by_number(Some(BlockNumber::Num(9))), Ok(None));
    assert_eq!(l.block_transaction_count_by_number(Some(BlockNumber::Num(0))), Err(RewindError::ZeroHeight));
    assert!(l.transaction_by_block_number_and_index(Some(BlockNumber::Num(1)), 0).unwrap().is_some());
    assert!(l.transaction_by_block_number_and_index(Some(BlockNumber::Num(1)), 1).unwrap().is_none());
    assert!(l.transaction_by_block_number_and_index(Some(BlockNumber::Pending), 0).is_err());
    let r = l.transaction_receipt(&vec![0x52; 32]).unwrap();
    assert_eq!(r.tx_index, 0);
    assert_eq!(r.to, Some(vec![0xc2; 20]));
    assert_eq!(r.block_gas_used, u(30_000));
    assert_eq!(r.logs.len(), 1);
    assert!(l.transaction_receipt(&vec![0x99; 32]).is_none());
    let main = main_branch_name();
    let a = read_account(&l.state.store, &main, &vec![0xaa; 20]).unwrap();
    assert_eq!(a.nonce, u(3));
    assert_eq!(a.balance, u(10_000_000 - 3 * 300_000));
    assert!(l.state.blocks[0].bloom.iter().any(|b| *b != 0));
    assert_eq!(l.state.blocks[1].header.prev_hash, l.state.blocks[0].header_hash);
}

#[test]
fn transactions_by_hash() {
    let l = chain();
    let h2 = l.state.blocks[1].header_hash.clone();
    assert_eq!(l.block_transaction_count_by_hash(&h2), Some(1));
    assert_eq!(l.block_transaction_count_by_hash(&vec![1; 32]), None);
    let t = l.transaction_by_block_hash_and_index(&h2, 0).unwrap();
    assert_eq!(t.nonce, u(1));
    assert!(l.transaction_by_block_hash_and_index(&h2, 1).is_none());
    let t3 = l.transaction_by_hash(&vec![0x53; 32]).unwrap();
    assert_eq!(t3.nonce, u(2));
    assert!(l.transaction_by_hash(&vec![0x54; 32]).is_none());
}

#[test]
fn block_summaries() {
    let l = chain();
    let s = l.block_summary_by_number(Some(BlockNumber::Num(2)), false).unwrap().unwrap();
    assert_eq!(s.number, 2);
    assert_eq!(s.hash, l.state.blocks[1].header_hash);
    assert_eq!(s.parent_hash, l.state.blocks[0].header_hash);
    assert_eq!(s.author, vec![1; 20]);
    assert_eq!(s.gas_used, u(30_000));
    match s.transactions {
        BlockTransactions::Hashes(hs) => assert_eq!(hs, vec![vec![0x52; 32]]),
        BlockTransactions::Full(_) => panic!("expected hashes"),
    }
    let first = block_summary(&l.state.blocks[0], true);
    assert_eq!(first.parent_hash, vec![0; 32]);
    match first.transactions {
        BlockTransactions::Full(ts) => {
            assert_eq!(ts.len(), 1);
            assert_eq!(ts[0].nonce, u(0));
        }
        BlockTransactions::Hashes(_) => panic!("expected full transactions"),
    }
    assert!(l.block_summary_by_number(Some(BlockNumber::Pending), true).is_err());
    assert!(l.block_summary_by_number(Some(BlockNumber::Num(7)), true).unwrap().is_none());
}
