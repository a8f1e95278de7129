//! Read-only queries over the committed chain: heights, blocks, receipts and
//! log filtering.
use vstd::prelude::*;
use crate::block::{Block, Log, LogView, Receipt, logs_view, receipts_view, ReceiptView};
use crate::bytes::{bytes_eq, copy_bytes};
use crate::common::{block_number_to_height, block_hash_to_evm_format, fit_bytes, height_of, tm_proposer_to_evm_format, views_of, BlockNumber};
use crate::ledger::Ledger;
use crate::tx::{same_tx, Tx};
use crate::rewind::RewindError;

verus! {

/// A log filter: a block range (or one block by hash), the addresses to
/// accept (any where empty) and, per topic position, the topics to accept
/// there (any where `None`).
pub struct Filter {
    pub from_block: Option<BlockNumber>,
    pub to_block: Option<BlockNumber>,
    pub block_hash: Option<Vec<u8>>,
    pub address: Vec<Vec<u8>>,
    pub topics: Vec<Option<Vec<Vec<u8>>>>,
}

pub open spec fn topics_view(t: Seq<Option<Vec<Vec<u8>>>>) -> Seq<Option<Seq<Seq<u8>>>> {
    t.map_values(|o: Option<Vec<Vec<u8>>>| match o {
        Some(v) => Some(views_of(v@)),
        None => None,
    })
}

/// Whether a log passes the address and topic parts of a filter.
pub open spec fn log_matches(l: LogView, addrs: Seq<Seq<u8>>, topics: Seq<Option<Seq<Seq<u8>>>>) -> bool {
    &&& (addrs.len() == 0 || addrs.contains(l.address))
    &&& forall|i: int| 0 <= i < topics.len() && (#[trigger] topics[i]) is Some
        ==> i < l.topics.len() && topics[i]->0.contains(l.topics[i])
}

/// The logs of `ls` that pass, in order.
pub open spec fn filter_logs(ls: Seq<LogView>, addrs: Seq<Seq<u8>>, topics: Seq<Option<Seq<Seq<u8>>>>) -> Seq<LogView>
    decreases ls.len(),
{
    if ls.len() == 0 {
        Seq::empty()
    } else {
        filter_logs(ls.drop_last(), addrs, topics) + if log_matches(ls.last(), addrs, topics) {
            seq![ls.last()]
        } else {
            Seq::empty()
        }
    }
}

/// The logs of all receipts, in order.
pub open spec fn receipts_logs(rs: Seq<ReceiptView>) -> Seq<LogView>
    decreases rs.len(),
{
    if rs.len() == 0 {
        Seq::empty()
    } else {
        receipts_logs(rs.drop_last()) + rs.last().logs
    }
}

/// The logs of the blocks at heights `from..=to` (`blocks[i]` has height `i + 1`).
pub open spec fn range_logs(blocks: Seq<Block>, from: int, to: int) -> Seq<LogView>
    decreases to - from + 1,
{
    if to < from || to < 1 {
        Seq::empty()
    } else {
        range_logs(blocks, from, to - 1) + if to <= blocks.len() {
            receipts_logs(receipts_view(blocks[to - 1].header.receipts@))
        } else {
            Seq::empty()
        }
    }
}

fn contains_bytes(list: &Vec<Vec<u8>>, x: &Vec<u8>) -> (r: bool)
    ensures
        r == views_of(list@).contains(x@),
{
    let ghost lv = views_of(list@);
    let mut i: usize = 0;
    while i < list.len()
        invariant
            lv == views_of(list@),
            i <= list@.len(),
            forall|j: int| 0 <= j < i ==> lv[j] != x@,
        decreases list.len() - i,
    {
        if bytes_eq(&list[i], x) {
            assert(lv[i as int] == x@);
            return true;
        }
        i += 1;
    }
    false
}

fn topic_ok(l: &Log, topics: &Vec<Option<Vec<Vec<u8>>>>) -> (r: bool)
    ensures
        r == (forall|i: int| 0 <= i < topics_view(topics@).len() && (#[trigger] topics_view(topics@)[i]) is Some
            ==> i < l@.topics.len() && topics_view(topics@)[i]->0.contains(l@.topics[i])),
{
    let ghost tv = topics_view(topics@);
    let mut i: usize = 0;
    while i < topics.len()
        invariant
            tv == topics_view(topics@),
            i <= topics@.len(),
            forall|j: int| 0 <= j < i && (#[trigger] tv[j]) is Some ==> j < l@.topics.len() && tv[j]->0.contains(l@.topics[j]),
        decreases topics.len() - i,
    {
        match &topics[i] {
            Some(alts) => {
                if i >= l.topics.len() || !contains_bytes(alts, &l.topics[i]) {
                    assert(tv[i as int] is Some);
                    return false;
                }
            },
            None => {},
        }
        i += 1;
    }
    true
}

fn address_ok(l: &Log, addrs: &Vec<Vec<u8>>) -> (r: bool)
    ensures
        r == (views_of(addrs@).len() == 0 || views_of(addrs@).contains(l@.address)),
{
    if addrs.len() == 0 {
        return true;
    }
    let ghost av = views_of(addrs@);
    let mut i: usize = 0;
    while i < addrs.len()
        invariant
            av == views_of(addrs@),
            i <= addrs@.len(),
            forall|j: int| 0 <= j < i ==> av[j] != l@.address,
        decreases addrs.len() - i,
    {
        if bytes_eq(&addrs[i], &l.address) {
            assert(av[i as int] == l@.address);
            return true;
        }
        i += 1;
    }
    false
}

/// Appends to `out` copies of the logs of `rs` that pass the filter.
fn collect_logs(rs: &Vec<Receipt>, f: &Filter, out: &mut Vec<Log>)
    ensures
        logs_view(final(out)@) == logs_view(old(out)@) + filter_logs(
            receipts_logs(receipts_view(rs@)), views_of(f.address@), topics_view(f.topics@)),
{
    let ghost av = views_of(f.address@);
    let ghost tv = topics_view(f.topics@);
    let ghost rv = receipts_view(rs@);
    let ghost start = logs_view(out@);
    let mut i: usize = 0;
    while i < rs.len()
        invariant
            av == views_of(f.address@),
            tv == topics_view(f.topics@),
            rv == receipts_view(rs@),
            i <= rs@.len(),
            logs_view(out@) == start + filter_logs(receipts_logs(rv.take(i as int)), av, tv),
        decreases rs.len() - i,
    {
        let logs = &rs[i].logs;
        let ghost lv = logs_view(logs@);
        let ghost pre = receipts_logs(rv.take(i as int));
        let mut j: usize = 0;
        while j < logs.len()
            invariant
                av == views_of(f.address@),
                tv == topics_view(f.topics@),
                lv == logs_view(logs@),
                j <= logs@.len(),
                logs_view(out@) == start + filter_logs(pre + lv.take(j as int), av, tv),
            decreases logs.len() - j,
        {
            assert((pre + lv.take(j + 1)).drop_last() =~= pre + lv.take(j as int));
            assert((pre + lv.take(j + 1)).last() == lv[j as int]);
            let ok = address_ok(&logs[j], &f.address) && topic_ok(&logs[j], &f.topics);
            if ok {
                let c = logs[j].copy();
                let ghost prev = out@;
                out.push(c);
                assert(logs_view(out@) =~= logs_view(prev).push(lv[j as int]));
                assert(logs_view(out@) =~= start + filter_logs(pre + lv.take(j + 1), av, tv));
            } else {
                assert(filter_logs(pre + lv.take(j + 1), av, tv) =~= filter_logs(pre + lv.take(j as int), av, tv));
            }
            j += 1;
        }
        assert(lv.take(logs@.len() as int) =~= lv);
        assert(rv.take(i + 1).drop_last() =~= rv.take(i as int));
        assert(rv[i as int].logs == lv);
        i += 1;
    }
    assert(rv.take(rs@.len() as int) =~= rv);
}

/// A block's transactions as a Web3 block reports them.
pub enum BlockTransactions {
    Hashes(Vec<Vec<u8>>),
    Full(Vec<Tx>),
}

/// What the Web3 interface reports of a block.
pub struct BlockSummary {
    pub number: u64,
    pub hash: Vec<u8>,
    pub parent_hash: Vec<u8>,
    pub author: Vec<u8>,
    pub timestamp: u64,
    pub gas_used: crate::u256::U256,
    pub logs_bloom: Vec<u8>,
    pub transactions: BlockTransactions,
}

/// The hashes of a block's transactions in order: the Merkle leaves without
/// the sentinel that pads them.
pub open spec fn tx_hashes_of(b: Block) -> Seq<Seq<u8>> {
    if b.header.tx_merkle.tree@.len() > 0 && b.header.tx_merkle.tree@[0]@.len() > 0 {
        views_of(b.header.tx_merkle.tree@[0]@).drop_last()
    } else {
        Seq::empty()
    }
}

/// The Web3 view of block `b`: its hash and previous hash in the EVM's 32-byte
/// form (zeros for no previous block), the proposer as a 20-byte author, the
/// block's gas, and its transactions in full or as hashes only.
pub fn block_summary(b: &Block, full: bool) -> (r: BlockSummary)
    ensures
        r.number == b.header.height,
        r.hash@ == fit_bytes(b.header_hash@, 32),
        r.parent_hash@ == if b.header.prev_hash@.len() == 0 {
            Seq::new(32, |i: int| 0u8)
        } else {
            fit_bytes(b.header.prev_hash@, 32)
        },
        r.author@ == fit_bytes(b.header.proposer@, 20),
        r.timestamp == b.header.timestamp,
        b.header.receipts@.len() > 0 ==> r.gas_used == b.header.receipts@.last().block_gas_used,
        b.header.receipts@.len() == 0 ==> r.gas_used.value() == 0,
        r.logs_bloom@ == b.bloom@,
        full <==> r.transactions is Full,
        r.transactions matches BlockTransactions::Full(ts) ==> ts@.len() == b.txs@.len()
            && forall|i: int| 0 <= i < ts@.len() ==> same_tx(#[trigger] ts@[i], b.txs@[i]),
        r.transactions matches BlockTransactions::Hashes(hs) ==> views_of(hs@) == tx_hashes_of(*b),
{
    let parent_hash = block_hash_to_evm_format(&b.header.prev_hash);
    assert(b.header.prev_hash@.len() == 0 ==> fit_bytes(b.header.prev_hash@, 32) =~= Seq::new(32, |i: int| 0u8));
    let n = b.header.receipts.len();
    let gas_used = if n > 0 { b.header.receipts[n - 1].block_gas_used } else { crate::u256::U256::zero() };
    let transactions = if full {
        let mut ts: Vec<Tx> = Vec::new();
        let mut i: usize = 0;
        while i < b.txs.len()
            invariant
                i <= b.txs@.len(),
                ts@.len() == i,
                forall|k: int| 0 <= k < i ==> same_tx(#[trigger] ts@[k], b.txs@[k]),
            decreases b.txs.len() - i,
        {
            ts.push(b.txs[i].copy());
            i += 1;
        }
        BlockTransactions::Full(ts)
    } else {
        let mut hs: Vec<Vec<u8>> = Vec::new();
        let tree = &b.header.tx_merkle.tree;
        if tree.len() > 0 && tree[0].len() > 0 {
            let leaves = &tree[0];
            let ghost lv = views_of(leaves@);
            let mut i: usize = 0;
            while i + 1 < leaves.len()
                invariant
                    lv == views_of(leaves@),
                    i + 1 <= leaves@.len(),
                    views_of(hs@) == lv.take(i as int),
                decreases leaves.len() - i,
            {
                let c = copy_bytes(&leaves[i]);
                let ghost prev = hs@;
                hs.push(c);
                assert(views_of(hs@) =~= views_of(prev).push(lv[i as int]));
                i += 1;
                assert(views_of(hs@) =~= lv.take(i as int));
            }
            assert(lv.take(i as int) =~= lv.drop_last());
        } else {
            assert(views_of(hs@) =~= Seq::<Seq<u8>>::empty());
        }
        BlockTransactions::Hashes(hs)
    };
    BlockSummary {
        number: b.header.height,
        hash: block_hash_to_evm_format(&b.header_hash),
        parent_hash,
        author: tm_proposer_to_evm_format(&b.header.proposer),
        timestamp: b.header.timestamp,
        gas_used,
        logs_bloom: copy_bytes(&b.bloom),
        transactions,
    }
}

impl Ledger {
    /// The height of the last committed block.
    pub fn block_number(&self) -> (r: u64)
        requires
            self.wf(),
        ensures
            r == self.state.blocks@.len(),
    {
        self.state.blocks.len() as u64
    }

    /// The committed block at height `h`, if any.
    pub fn block_at(&self, h: u64) -> (r: Option<&Block>)
        ensures
            1 <= h <= self.state.blocks@.len() <==> r is Some,
            r matches Some(b) ==> *b == self.state.blocks@[h - 1],
    {
        if h >= 1 && h <= self.state.blocks.len() as u64 {
            Some(&self.state.blocks[(h - 1) as usize])
        } else {
            None
        }
    }

    /// The committed block that `bn` names, if any.
    /// Height 0 names no block: the query fails.
    pub fn block_by_number(&self, bn: Option<BlockNumber>) -> (r: Result<Option<&Block>, RewindError>)
        requires
            self.wf(),
        ensures
            ({
                let h = height_of(bn, views_of(self.state.evm.block_hashes@));
                &&& h == 0 <==> r == Err::<Option<&Block>, RewindError>(RewindError::ZeroHeight)
                &&& r is Err ==> h == 0
                &&& 1 <= h <= self.state.blocks@.len() <==> (r matches Ok(Some(_)))
                &&& r matches Ok(Some(b)) ==> *b == self.state.blocks@[h - 1]
            }),
    {
        let h = block_number_to_height(bn, &self.state.evm.block_hashes);
        if h == 0 {
            return Err(RewindError::ZeroHeight);
        }
        Ok(self.block_at(h))
    }

    /// The committed block whose header hash is `hash`, the first if several.
    pub fn block_by_hash(&self, hash: &Vec<u8>) -> (r: Option<&Block>)
        ensures
            r is None <==> forall|i: int| 0 <= i < self.state.blocks@.len() ==> (#[trigger] self.state.blocks@[i]).header_hash@ != hash@,
            r matches Some(b) ==> exists|i: int| 0 <= i < self.state.blocks@.len() && *b == self.state.blocks@[i]
                && b.header_hash@ == hash@
                && forall|j: int| 0 <= j < i ==> (#[trigger] self.state.blocks@[j]).header_hash@ != hash@,
    {
        let mut i: usize = 0;
        while i < self.state.blocks.len()
            invariant
                i <= self.state.blocks@.len(),
                forall|j: int| 0 <= j < i ==> (#[trigger] self.state.blocks@[j]).header_hash@ != hash@,
            decreases self.state.blocks.len() - i,
        {
            if bytes_eq(&self.state.blocks[i].header_hash, hash) {
                return Some(&self.state.blocks[i]);
            }
            i += 1;
        }
        None
    }

    /// `eth_getBlockByNumber`: the Web3 view of the block `bn` names, with
    /// full transactions or their hashes. Height 0 names no block: it fails.
    pub fn block_summary_by_number(&self, bn: Option<BlockNumber>, full: bool) -> (r: Result<Option<BlockSummary>, RewindError>)
        requires
            self.wf(),
        ensures
            ({
                let h = height_of(bn, views_of(self.state.evm.block_hashes@));
                &&& h == 0 <==> r == Err::<Option<BlockSummary>, RewindError>(RewindError::ZeroHeight)
                &&& r is Err ==> h == 0
                &&& 1 <= h <= self.state.blocks@.len() <==> (r matches Ok(Some(_)))
                &&& r matches Ok(Some(s)) ==> s.number == h
                    && s.hash@ == fit_bytes(self.state.blocks@[h - 1].header_hash@, 32)
                    && (full <==> s.transactions is Full)
            }),
    {
        match self.block_by_number(bn) {
            Ok(Some(b)) => Ok(Some(block_summary(b, full))),
            Ok(None) => Ok(None),
            Err(e) => Err(e),
        }
    }

    /// The number of transactions of the block that `bn` names.
    pub fn block_transaction_count_by_number(&self, bn: Option<BlockNumber>) -> (r: Result<Option<usize>, RewindError>)
        requires
            self.wf(),
        ensures
            ({
                let h = height_of(bn, views_of(self.state.evm.block_hashes@));
                &&& h == 0 <==> r == Err::<Option<usize>, RewindError>(RewindError::ZeroHeight)
                &&& r is Err ==> h == 0
                &&& 1 <= h <= self.state.blocks@.len() <==> (r matches Ok(Some(_)))
                &&& r matches Ok(Some(n)) ==> n == self.state.blocks@[h - 1].txs@.len()
            }),
    {
        match self.block_by_number(bn) {
            Ok(Some(b)) => Ok(Some(b.txs.len())),
            Ok(None) => Ok(None),
            Err(e) => Err(e),
        }
    }

    /// The transaction at `index` of the block that `bn` names.
    pub fn transaction_by_block_number_and_index(&self, bn: Option<BlockNumber>, index: usize) -> (r: Result<Option<&Tx>, RewindError>)
        requires
            self.wf(),
        ensures
            ({
                let h = height_of(bn, views_of(self.state.evm.block_hashes@));
                &&& h == 0 <==> r == Err::<Option<&Tx>, RewindError>(RewindError::ZeroHeight)
                &&& r is Err ==> h == 0
                &&& (1 <= h <= self.state.blocks@.len() && index < self.state.blocks@[h - 1].txs@.len()) <==> (r matches Ok(Some(_)))
                &&& r matches Ok(Some(t)) ==> *t == self.state.blocks@[h - 1].txs@[index as int]
            }),
    {
        match self.block_by_number(bn) {
            Ok(Some(b)) => if index < b.txs.len() { Ok(Some(&b.txs[index])) } else { Ok(None) },
            Ok(None) => Ok(None),
            Err(e) => Err(e),
        }
    }

    /// The receipt of transaction `tx_hash`, searching blocks from the first.
    pub fn transaction_receipt(&self, tx_hash: &Vec<u8>) -> (r: Option<&Receipt>)
        ensures
            r is None ==> forall|i: int, j: int| 0 <= i < self.state.blocks@.len()
                && 0 <= j < self.state.blocks@[i].header.receipts@.len()
                ==> (#[trigger] self.state.blocks@[i].header.receipts@[j])@.tx_hash != tx_hash@,
            r matches Some(rc) ==> rc@.tx_hash == tx_hash@,
    {
        let mut i: usize = 0;
        while i < self.state.blocks.len()
            invariant
                i <= self.state.blocks@.len(),
                forall|a: int, b: int| 0 <= a < i && 0 <= b < self.state.blocks@[a].header.receipts@.len()
                    ==> (#[trigger] self.state.blocks@[a].header.receipts@[b])@.tx_hash != tx_hash@,
            decreases self.state.blocks.len() - i,
        {
            let rs = &self.state.blocks[i].header.receipts;
            let mut j: usize = 0;
            while j < rs.len()
                invariant
                    i < self.state.blocks@.len(),
                    *rs == self.state.blocks@[i as int].header.receipts,
                    j <= rs@.len(),
                    forall|a: int, b: int| 0 <= a < i && 0 <= b < self.state.blocks@[a].header.receipts@.len()
                        ==> (#[trigger] self.state.blocks@[a].header.receipts@[b])@.tx_hash != tx_hash@,
                    forall|b: int| 0 <= b < j ==> (#[trigger] rs@[b])@.tx_hash != tx_hash@,
                decreases rs.len() - j,
            {
                if bytes_eq(&rs[j].tx_hash, tx_hash) {
                    return Some(&rs[j]);
                }
                j += 1;
            }
            i += 1;
        }
        None
    }

    /// The number of transactions of the block with header hash `hash`.
    pub fn block_transaction_count_by_hash(&self, hash: &Vec<u8>) -> (r: Option<usize>)
        ensures
            r is None <==> forall|i: int| 0 <= i < self.state.blocks@.len() ==> (#[trigger] self.state.blocks@[i]).header_hash@ != hash@,
            r matches Some(n) ==> exists|i: int| 0 <= i < self.state.blocks@.len()
                && self.state.blocks@[i].header_hash@ == hash@ && n == self.state.blocks@[i].txs@.len(),
    {
        match self.block_by_hash(hash) {
            Some(b) => Some(b.txs.len()),
            None => None,
        }
    }

    /// The transaction at `index` of the block with header hash `hash`.
    pub fn transaction_by_block_hash_and_index(&self, hash: &Vec<u8>, index: usize) -> (r: Option<&Tx>)
        ensures
            r matches Some(t) ==> exists|i: int| 0 <= i < self.state.blocks@.len()
                && self.state.blocks@[i].header_hash@ == hash@ && index < self.state.blocks@[i].txs@.len()
                && *t == self.state.blocks@[i].txs@[index as int],
            (forall|i: int| 0 <= i < self.state.blocks@.len() ==> (#[trigger] self.state.blocks@[i]).header_hash@ != hash@)
                ==> r is None,
    {
        match self.block_by_hash(hash) {
            Some(b) => if index < b.txs.len() { Some(&b.txs[index]) } else { None },
            None => None,
        }
    }

    /// The transaction with hash `tx_hash`: found through its receipt, at the
    /// receipt's index in its block.
    pub fn transaction_by_hash(&self, tx_hash: &Vec<u8>) -> (r: Option<&Tx>)
        ensures
            r matches Some(t) ==> exists|i: int, j: int| 0 <= i < self.state.blocks@.len()
                && 0 <= j < self.state.blocks@[i].header.receipts@.len()
                && self.state.blocks@[i].header.receipts@[j]@.tx_hash == tx_hash@
                && self.state.blocks@[i].header.receipts@[j].tx_index < self.state.blocks@[i].txs@.len()
                && *t == self.state.blocks@[i].txs@[self.state.blocks@[i].header.receipts@[j].tx_index as int],
    {
        let mut i: usize = 0;
        while i < self.state.blocks.len()
            invariant
                i <= self.state.blocks@.len(),
            decreases self.state.blocks.len() - i,
        {
            let b = &self.state.blocks[i];
            let mut j: usize = 0;
            while j < b.header.receipts.len()
                invariant
                    i < self.state.blocks@.len(),
                    *b == self.state.blocks@[i as int],
                    j <= b.header.receipts@.len(),
                decreases b.header.receipts.len() - j,
            {
                let rc = &b.header.receipts[j];
                if bytes_eq(&rc.tx_hash, tx_hash) {
                    let k = rc.tx_index;
                    if k < b.txs.len() as u64 {
                        return Some(&b.txs[k as usize]);
                    }
                }
                j += 1;
            }
            i += 1;
        }
        None
    }

    /// `eth_getLogs`: the logs that pass `f`, from the block with hash
    /// `f.block_hash` where given, else from the blocks `from..=to`, both
    /// bounded by the current height.
    pub fn logs(&self, f: &Filter) -> (r: Vec<Log>)
        requires
            self.wf(),
        ensures
            ({
                let av = views_of(f.address@);
                let tv = topics_view(f.topics@);
                let n = self.state.blocks@.len() as int;
                let hv = views_of(self.state.evm.block_hashes@);
                let lo = height_of(f.from_block, hv);
                let hi = height_of(f.to_block, hv);
                &&& f.block_hash is None ==> logs_view(r@) == filter_logs(
                    range_logs(self.state.blocks@, if lo > n { n } else { lo }, if hi > n { n } else { hi }), av, tv)
                &&& f.block_hash matches Some(h) ==> ((forall|i: int| 0 <= i < n ==> (#[trigger] self.state.blocks@[i]).header_hash@ != h@)
                    ==> r@.len() == 0)
                &&& f.block_hash matches Some(h) ==> ((exists|i: int| 0 <= i < n && self.state.blocks@[i].header_hash@ == h@)
                    ==> exists|i: int| 0 <= i < n && self.state.blocks@[i].header_hash@ == h@
                        && (forall|j: int| 0 <= j < i ==> (#[trigger] self.state.blocks@[j]).header_hash@ != h@)
                        && logs_view(r@) == filter_logs(
                            receipts_logs(receipts_view(self.state.blocks@[i].header.receipts@)), av, tv))
            }),
    {
        let mut out: Vec<Log> = Vec::new();
        match &f.block_hash {
            Some(h) => {
                if let Some(b) = self.block_by_hash(h) {
                    collect_logs(&b.header.receipts, f, &mut out);
                }
                out
            },
            None => {
                let n = self.state.blocks.len() as u64;
                let mut to = block_number_to_height(match &f.to_block {
                    Some(b) => Some(b.copy()),
                    None => None,
                }, &self.state.evm.block_hashes);
                if to > n {
                    to = n;
                }
                let mut from = block_number_to_height(match &f.from_block {
                    Some(b) => Some(b.copy()),
                    None => None,
                }, &self.state.evm.block_hashes);
                if from > n {
                    from = n;
                }
                let ghost av = views_of(f.address@);
                let ghost tv = topics_view(f.topics@);
                if from > to || to == 0 {
                    assert(range_logs(self.state.blocks@, from as int, to as int) =~= Seq::<LogView>::empty());
                    return out;
                }
                let start = if from == 0 { 1 } else { from };
                assert(range_logs(self.state.blocks@, from as int, start - 1) =~= Seq::<LogView>::empty());
                let mut h = start;
                while h <= to
                    invariant
                        av == views_of(f.address@),
                        tv == topics_view(f.topics@),
                        self.wf(),
                        1 <= start <= h,
                        h <= to + 1,
                        to <= n,
                        n == self.state.blocks@.len(),
                        from <= start,
                        logs_view(out@) == filter_logs(range_logs(self.state.blocks@, from as int, h - 1), av, tv),
                    decreases to + 1 - h,
                {
                    assert(h - 1 < self.state.blocks@.len());
                    let len = self.state.blocks.len();
                    assert(self.state.blocks@.len() <= usize::MAX);
                    let idx = (h - 1) as usize;
                    assert(idx as int == h - 1);
                    let b = &self.state.blocks[idx];
                    let ghost pre = range_logs(self.state.blocks@, from as int, h - 1);
                    let ghost add = receipts_logs(receipts_view(b.header.receipts@));
                    collect_logs(&b.header.receipts, f, &mut out);
                    proof {
                        lemma_filter_append(pre, add, av, tv);
                        assert(h as int >= from as int && h >= 1);
                        assert(h as int <= self.state.blocks@.len());
                        assert(*b == self.state.blocks@[h - 1]);
                        assert(range_logs(self.state.blocks@, from as int, h as int) == range_logs(self.state.blocks@, from as int, h - 1)
                            + receipts_logs(receipts_view(self.state.blocks@[h - 1].header.receipts@)));
                        assert(range_logs(self.state.blocks@, from as int, h as int) == pre + add);
                    }
                    h += 1;
                }
                out
            },
        }
    }
}

/// Filtering a concatenation filters each part.
pub proof fn lemma_filter_append(a: Seq<LogView>, b: Seq<LogView>, av: Seq<Seq<u8>>, tv: Seq<Option<Seq<Seq<u8>>>>)
    ensures
        filter_logs(a + b, av, tv) == filter_logs(a, av, tv) + filter_logs(b, av, tv),
    decreases b.len(),
{
    if b.len() == 0 {
        assert(a + b =~= a);
        assert(filter_logs(a, av, tv) + filter_logs(b, av, tv) =~= filter_logs(a, av, tv));
    } else {
        lemma_filter_append(a, b.drop_last(), av, tv);
        assert((a + b).drop_last() =~= a + b.drop_last());
        assert((a + b).last() == b.last());
        assert(filter_logs(a + b, av, tv) =~= filter_logs(a, av, tv) + filter_logs(b, av, tv));
    }
}

} // verus!
