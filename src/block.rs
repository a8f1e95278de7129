//! Logs, receipts, block headers and blocks; header hashing, the transaction
//! Merkle tree and the bloom filter of a block.
use vstd::prelude::*;
use crate::bytes::copy_bytes;
use crate::common::{hash_sha3_256, sha3_256, sha3_256_of, concat_all, views_of};
use crate::bytes::concat_bytes;
use crate::encode::{enc_bool, enc_bytes, enc_list, enc_opt, enc_u64, put_bool, put_bytes, put_list, put_opt, put_u64};
use crate::u256::{U256, modulus};
use crate::tx::Tx;
use crate::order::{bytes_less, bytes_lt, lemma_lt_total, lemma_lt_transitive};
use crate::bytes::bytes_eq;

verus! {

/// A log as the EVM emits it.
pub struct EvmLog {
    pub address: Vec<u8>,
    pub topics: Vec<Vec<u8>>,
    pub data: Vec<u8>,
}

/// A log as a receipt records it.
pub struct Log {
    pub address: Vec<u8>,
    pub topics: Vec<Vec<u8>>,
    pub data: Vec<u8>,
    pub tx_hash: Vec<u8>,
    pub tx_index: u64,
    pub log_index_in_block: u64,
    pub log_index_in_tx: u64,
    pub removed: bool,
}

pub struct LogView {
    pub address: Seq<u8>,
    pub topics: Seq<Seq<u8>>,
    pub data: Seq<u8>,
    pub tx_hash: Seq<u8>,
    pub tx_index: u64,
    pub log_index_in_block: u64,
    pub log_index_in_tx: u64,
    pub removed: bool,
}

impl View for Log {
    type V = LogView;

    open spec fn view(&self) -> LogView {
        LogView {
            address: self.address@,
            topics: views_of(self.topics@),
            data: self.data@,
            tx_hash: self.tx_hash@,
            tx_index: self.tx_index,
            log_index_in_block: self.log_index_in_block,
            log_index_in_tx: self.log_index_in_tx,
            removed: self.removed,
        }
    }
}

pub fn copy_list(l: &Vec<Vec<u8>>) -> (r: Vec<Vec<u8>>)
    ensures
        views_of(r@) == views_of(l@),
        r@.len() == l@.len(),
{
    let mut r: Vec<Vec<u8>> = Vec::new();
    let mut i: usize = 0;
    while i < l.len()
        invariant
            i <= l@.len(),
            views_of(r@) == views_of(l@).take(i as int),
        decreases l.len() - i,
    {
        let c = copy_bytes(&l[i]);
        let ghost prev = r@;
        r.push(c);
        assert(views_of(r@) =~= views_of(prev).push(l@[i as int]@));
        i += 1;
        assert(views_of(r@) =~= views_of(l@).take(i as int));
    }
    assert(views_of(l@).take(l@.len() as int) =~= views_of(l@));
    r
}

impl Log {
    /// A receipt log for an EVM log of transaction `tx_hash`; indices start at zero.
    pub fn new_from_eth_log_and_tx_hash(log: &EvmLog, tx_hash: &Vec<u8>) -> (r: Log)
        ensures
            r@ == (LogView {
                address: log.address@,
                topics: views_of(log.topics@),
                data: log.data@,
                tx_hash: tx_hash@,
                tx_index: 0,
                log_index_in_block: 0,
                log_index_in_tx: 0,
                removed: false,
            }),
    {
        Log {
            address: copy_bytes(&log.address),
            topics: copy_list(&log.topics),
            data: copy_bytes(&log.data),
            tx_hash: copy_bytes(tx_hash),
            tx_index: 0,
            log_index_in_block: 0,
            log_index_in_tx: 0,
            removed: false,
        }
    }

    pub fn copy(&self) -> (r: Log)
        ensures
            r@ == self@,
    {
        Log {
            address: copy_bytes(&self.address),
            topics: copy_list(&self.topics),
            data: copy_bytes(&self.data),
            tx_hash: copy_bytes(&self.tx_hash),
            tx_index: self.tx_index,
            log_index_in_block: self.log_index_in_block,
            log_index_in_tx: self.log_index_in_tx,
            removed: self.removed,
        }
    }
}

pub open spec fn logs_view(ls: Seq<Log>) -> Seq<LogView> {
    ls.map_values(|l: Log| l@)
}

pub open spec fn opt_bytes(o: Option<Vec<u8>>) -> Option<Seq<u8>> {
    match o {
        Some(b) => Some(b@),
        None => None,
    }
}

pub fn copy_opt(o: &Option<Vec<u8>>) -> (r: Option<Vec<u8>>)
    ensures
        opt_bytes(r) == opt_bytes(*o),
{
    match o {
        Some(b) => Some(copy_bytes(b)),
        None => None,
    }
}

/// The outcome record of a transaction inside a block.
pub struct Receipt {
    pub tx_hash: Vec<u8>,
    pub tx_index: u64,
    pub from: Option<Vec<u8>>,
    pub to: Option<Vec<u8>>,
    /// The gas of the whole block; filled in at commit.
    pub block_gas_used: U256,
    pub tx_gas_used: U256,
    /// The created contract, where the transaction has no recipient.
    pub contract_addr: Option<Vec<u8>>,
    pub state_root: Option<Vec<u8>>,
    pub status_code: bool,
    pub logs: Vec<Log>,
}

pub struct ReceiptView {
    pub tx_hash: Seq<u8>,
    pub tx_index: u64,
    pub from: Option<Seq<u8>>,
    pub to: Option<Seq<u8>>,
    pub block_gas_used: U256,
    pub tx_gas_used: U256,
    pub contract_addr: Option<Seq<u8>>,
    pub state_root: Option<Seq<u8>>,
    pub status_code: bool,
    pub logs: Seq<LogView>,
}

impl View for Receipt {
    type V = ReceiptView;

    open spec fn view(&self) -> ReceiptView {
        ReceiptView {
            tx_hash: self.tx_hash@,
            tx_index: self.tx_index,
            from: opt_bytes(self.from),
            to: opt_bytes(self.to),
            block_gas_used: self.block_gas_used,
            tx_gas_used: self.tx_gas_used,
            contract_addr: opt_bytes(self.contract_addr),
            state_root: opt_bytes(self.state_root),
            status_code: self.status_code,
            logs: logs_view(self.logs@),
        }
    }
}

impl Receipt {
    /// Takes `logs` as this receipt's logs, stamped with its transaction index
    /// and their positions in the transaction.
    pub fn add_logs(&mut self, logs: &mut Vec<Log>)
        ensures
            final(self)@ == (ReceiptView { logs: logs_view(final(logs)@), ..old(self)@ }),
            final(logs)@.len() == old(logs)@.len(),
            forall|i: int| 0 <= i < old(logs)@.len() ==> (#[trigger] final(logs)@[i])@ == (LogView {
                tx_index: old(self).tx_index,
                log_index_in_tx: i as u64,
                ..old(logs)@[i]@
            }),
    {
        let n = logs.len();
        let mut i: usize = 0;
        while i < n
            invariant
                n == logs@.len(),
                n == old(logs)@.len(),
                i <= n,
                forall|j: int| 0 <= j < i ==> (#[trigger] logs@[j])@ == (LogView {
                    tx_index: self.tx_index,
                    log_index_in_tx: j as u64,
                    ..old(logs)@[j]@
                }),
                forall|j: int| i <= j < n ==> (#[trigger] logs@[j]) == old(logs)@[j],
            decreases n - i,
        {
            let l = &mut logs[i];
            l.tx_index = self.tx_index;
            l.log_index_in_tx = i as u64;
            i += 1;
        }
        let mut copied: Vec<Log> = Vec::new();
        let mut k: usize = 0;
        while k < n
            invariant
                n == logs@.len(),
                k <= n,
                logs_view(copied@) == logs_view(logs@).take(k as int),
            decreases n - k,
        {
            let c = logs[k].copy();
            let ghost prev = copied@;
            copied.push(c);
            assert(logs_view(copied@) =~= logs_view(prev).push(logs@[k as int]@));
            k += 1;
            assert(logs_view(copied@) =~= logs_view(logs@).take(k as int));
        }
        assert(logs_view(logs@).take(n as int) =~= logs_view(logs@));
        self.logs = copied;
    }
}

pub open spec fn enc_u256(x: U256) -> Seq<u8> {
    enc_u64(x.l0) + enc_u64(x.l1) + enc_u64(x.l2) + enc_u64(x.l3)
}

pub open spec fn enc_log(l: LogView) -> Seq<u8> {
    enc_bytes(l.address) + enc_list(l.topics) + enc_bytes(l.data) + enc_bytes(l.tx_hash)
        + enc_u64(l.tx_index) + enc_u64(l.log_index_in_block) + enc_u64(l.log_index_in_tx)
        + enc_bool(l.removed)
}

pub open spec fn enc_log_items(ls: Seq<LogView>) -> Seq<u8>
    decreases ls.len(),
{
    if ls.len() == 0 {
        Seq::empty()
    } else {
        enc_log_items(ls.drop_last()) + enc_log(ls.last())
    }
}

pub open spec fn enc_receipt(r: ReceiptView) -> Seq<u8> {
    enc_bytes(r.tx_hash) + enc_u64(r.tx_index) + enc_opt(r.from) + enc_opt(r.to)
        + enc_u256(r.block_gas_used) + enc_u256(r.tx_gas_used) + enc_opt(r.contract_addr)
        + enc_opt(r.state_root) + enc_bool(r.status_code) + enc_u64(r.logs.len() as u64)
        + enc_log_items(r.logs)
}

pub open spec fn enc_receipt_items(rs: Seq<ReceiptView>) -> Seq<u8>
    decreases rs.len(),
{
    if rs.len() == 0 {
        Seq::empty()
    } else {
        enc_receipt_items(rs.drop_last()) + enc_receipt(rs.last())
    }
}

/// The canonical encoding of the hashed header fields.
pub open spec fn enc_header(
    height: u64,
    proposer: Seq<u8>,
    timestamp: u64,
    merkle_root: Seq<u8>,
    prev_hash: Seq<u8>,
    receipts: Seq<ReceiptView>,
) -> Seq<u8> {
    enc_u64(height) + enc_bytes(proposer) + enc_u64(timestamp) + enc_bytes(merkle_root)
        + enc_bytes(prev_hash) + enc_u64(receipts.len() as u64) + enc_receipt_items(receipts)
}

fn put_u256(out: &mut Vec<u8>, x: U256)
    ensures
        final(out)@ == old(out)@ + enc_u256(x),
{
    put_u64(out, x.l0);
    put_u64(out, x.l1);
    put_u64(out, x.l2);
    put_u64(out, x.l3);
    assert(final(out)@ =~= old(out)@ + enc_u256(x));
}

proof fn lemma_assoc(o: Seq<u8>, a: Seq<u8>, b: Seq<u8>)
    ensures
        (o + a) + b == o + (a + b),
{
    assert((o + a) + b =~= o + (a + b));
}

fn put_log(out: &mut Vec<u8>, l: &Log)
    ensures
        final(out)@ == old(out)@ + enc_log(l@),
{
    let ghost o = out@;
    put_bytes(out, &l.address);
    let ghost acc = enc_bytes(l.address@);
    put_list(out, &l.topics);
    proof { lemma_assoc(o, acc, enc_list(l@.topics)); }
    let ghost acc = acc + enc_list(l@.topics);
    put_bytes(out, &l.data);
    proof { lemma_assoc(o, acc, enc_bytes(l.data@)); }
    let ghost acc = acc + enc_bytes(l.data@);
    put_bytes(out, &l.tx_hash);
    proof { lemma_assoc(o, acc, enc_bytes(l.tx_hash@)); }
    let ghost acc = acc + enc_bytes(l.tx_hash@);
    put_u64(out, l.tx_index);
    proof { lemma_assoc(o, acc, enc_u64(l.tx_index)); }
    let ghost acc = acc + enc_u64(l.tx_index);
    put_u64(out, l.log_index_in_block);
    proof { lemma_assoc(o, acc, enc_u64(l.log_index_in_block)); }
    let ghost acc = acc + enc_u64(l.log_index_in_block);
    put_u64(out, l.log_index_in_tx);
    proof { lemma_assoc(o, acc, enc_u64(l.log_index_in_tx)); }
    let ghost acc = acc + enc_u64(l.log_index_in_tx);
    put_bool(out, l.removed);
    proof { lemma_assoc(o, acc, enc_bool(l.removed)); }
}

fn put_logs(out: &mut Vec<u8>, logs: &Vec<Log>)
    ensures
        final(out)@ == old(out)@ + (enc_u64(logs@.len() as u64) + enc_log_items(logs_view(logs@))),
{
    let ghost o = out@;
    put_u64(out, logs.len() as u64);
    let ghost mid = out@;
    let ghost lv = logs_view(logs@);
    let mut i: usize = 0;
    while i < logs.len()
        invariant
            lv == logs_view(logs@),
            i <= logs@.len(),
            out@ == mid + enc_log_items(lv.take(i as int)),
        decreases logs.len() - i,
    {
        assert(lv.take(i + 1).drop_last() =~= lv.take(i as int));
        let ghost before = out@;
        put_log(out, &logs[i]);
        proof { lemma_assoc(mid, enc_log_items(lv.take(i as int)), enc_log(lv[i as int])); }
        i += 1;
    }
    assert(lv.take(logs@.len() as int) =~= lv);
    proof { lemma_assoc(o, enc_u64(logs@.len() as u64), enc_log_items(lv)); }
}

fn put_receipt(out: &mut Vec<u8>, r: &Receipt)
    ensures
        final(out)@ == old(out)@ + enc_receipt(r@),
{
    let ghost o = out@;
    put_bytes(out, &r.tx_hash);
    let ghost acc = enc_bytes(r.tx_hash@);
    put_u64(out, r.tx_index);
    proof { lemma_assoc(o, acc, enc_u64(r.tx_index)); }
    let ghost acc = acc + enc_u64(r.tx_index);
    put_opt(out, &r.from);
    proof { lemma_assoc(o, acc, enc_opt(r@.from)); }
    let ghost acc = acc + enc_opt(r@.from);
    put_opt(out, &r.to);
    proof { lemma_assoc(o, acc, enc_opt(r@.to)); }
    let ghost acc = acc + enc_opt(r@.to);
    put_u256(out, r.block_gas_used);
    proof { lemma_assoc(o, acc, enc_u256(r.block_gas_used)); }
    let ghost acc = acc + enc_u256(r.block_gas_used);
    put_u256(out, r.tx_gas_used);
    proof { lemma_assoc(o, acc, enc_u256(r.tx_gas_used)); }
    let ghost acc = acc + enc_u256(r.tx_gas_used);
    put_opt(out, &r.contract_addr);
    proof { lemma_assoc(o, acc, enc_opt(r@.contract_addr)); }
    let ghost acc = acc + enc_opt(r@.contract_addr);
    put_opt(out, &r.state_root);
    proof { lemma_assoc(o, acc, enc_opt(r@.state_root)); }
    let ghost acc = acc + enc_opt(r@.state_root);
    put_bool(out, r.status_code);
    proof { lemma_assoc(o, acc, enc_bool(r.status_code)); }
    let ghost acc = acc + enc_bool(r.status_code);
    let ghost tail = enc_u64(r.logs@.len() as u64) + enc_log_items(logs_view(r.logs@));
    put_logs(out, &r.logs);
    proof {
        lemma_assoc(o, acc, tail);
        assert(acc + tail =~= enc_receipt(r@));
    }
}

pub open spec fn receipts_view(rs: Seq<Receipt>) -> Seq<ReceiptView> {
    rs.map_values(|r: Receipt| r@)
}

/// The transaction Merkle tree of a block: its root and its levels, leaves first.
pub struct TxMerkle {
    pub root_hash: Vec<u8>,
    pub tree: Vec<Vec<Vec<u8>>>,
}

pub struct BlockHeader {
    pub height: u64,
    pub proposer: Vec<u8>,
    pub timestamp: u64,
    pub tx_merkle: TxMerkle,
    pub prev_hash: Vec<u8>,
    /// The receipts of the block keyed by transaction hash, in hash order.
    pub receipts: Vec<Receipt>,
}

impl BlockHeader {
    /// The hash of the header: SHA3-256 over the canonical encoding of
    /// height, proposer, timestamp, Merkle root, previous hash and receipts.
    /// The ledger keeps every header's receipts in strictly increasing hash
    /// order (see `receipts_sorted`), so they are encoded in key order.
    pub open spec fn spec_hash(&self) -> Seq<u8> {
        sha3_256_of(enc_header(
            self.height,
            self.proposer@,
            self.timestamp,
            self.tx_merkle.root_hash@,
            self.prev_hash@,
            receipts_view(self.receipts@),
        ))
    }

    pub fn hash(&self) -> (r: Vec<u8>)
        ensures
            r@ == self.spec_hash(),
            r@.len() == 32,
    {
        let mut out: Vec<u8> = Vec::new();
        put_u64(&mut out, self.height);
        put_bytes(&mut out, &self.proposer);
        put_u64(&mut out, self.timestamp);
        put_bytes(&mut out, &self.tx_merkle.root_hash);
        put_bytes(&mut out, &self.prev_hash);
        put_u64(&mut out, self.receipts.len() as u64);
        let ghost head = enc_u64(self.height) + enc_bytes(self.proposer@) + enc_u64(self.timestamp)
            + enc_bytes(self.tx_merkle.root_hash@) + enc_bytes(self.prev_hash@)
            + enc_u64(self.receipts.len() as u64);
        assert(out@ =~= head);
        let ghost mid = out@;
        let ghost rv = receipts_view(self.receipts@);
        let mut i: usize = 0;
        while i < self.receipts.len()
            invariant
                rv == receipts_view(self.receipts@),
                i <= self.receipts@.len(),
                out@ == mid + enc_receipt_items(rv.take(i as int)),
            decreases self.receipts.len() - i,
        {
            assert(rv.take(i + 1).drop_last() =~= rv.take(i as int));
            put_receipt(&mut out, &self.receipts[i]);
            proof { lemma_assoc(mid, enc_receipt_items(rv.take(i as int)), enc_receipt(rv[i as int])); }
            i += 1;
        }
        assert(rv.take(self.receipts@.len() as int) =~= rv);
        let ghost enc = out@;
        assert(enc == enc_header(
            self.height,
            self.proposer@,
            self.timestamp,
            self.tx_merkle.root_hash@,
            self.prev_hash@,
            rv,
        ));
        let parts = vec![out];
        assert(parts@.len() == 1 && parts@[0]@ == enc);
        assert(views_of(parts@).last() == enc);
        assert(views_of(parts@).drop_last() =~= Seq::<Seq<u8>>::empty());
        assert(concat_all(Seq::<Seq<u8>>::empty()) == Seq::<u8>::empty());
        assert(concat_all(views_of(parts@)) =~= enc);
        hash_sha3_256(&parts)
    }
}

/// One level up in the Merkle tree: each pair hashed together, an odd last
/// node carried up as it is.
pub open spec fn next_level(l: Seq<Seq<u8>>) -> Seq<Seq<u8>> {
    Seq::new(
        ((l.len() + 1) / 2) as nat,
        |i: int|
            if 2 * i + 1 < l.len() {
                sha3_256_of(l[2 * i] + l[2 * i + 1])
            } else {
                l[2 * i]
            },
    )
}

/// The Merkle root over `l` (empty for no leaves).
pub open spec fn merkle_root(l: Seq<Seq<u8>>) -> Seq<u8>
    decreases l.len(),
{
    if l.len() == 0 {
        Seq::empty()
    } else if l.len() == 1 {
        l[0]
    } else {
        merkle_root(next_level(l))
    }
}

fn next_merkle_level(l: &Vec<Vec<u8>>) -> (r: Vec<Vec<u8>>)
    requires
        l@.len() >= 2,
    ensures
        views_of(r@) == next_level(views_of(l@)),
        r@.len() == (l@.len() + 1) / 2,
        r@[0]@.len() == 32,
{
    let n = l.len();
    let half = n / 2 + n % 2;
    let ghost lv = views_of(l@);
    let mut r: Vec<Vec<u8>> = Vec::new();
    let mut i: usize = 0;
    while i < half
        invariant
            n == l@.len(),
            n >= 2,
            half == (n + 1) / 2,
            lv == views_of(l@),
            i <= half,
            r@.len() == i,
            forall|k: int| 0 <= k < i ==> (#[trigger] r@[k])@ == next_level(lv)[k],
            i > 0 ==> r@[0]@.len() == 32,
        decreases half - i,
    {
        if 2 * i + 1 < n {
            let both = concat_bytes(&l[2 * i], &l[2 * i + 1]);
            let h = sha3_256(&both);
            r.push(h);
        } else {
            r.push(copy_bytes(&l[2 * i]));
        }
        i += 1;
    }
    assert(views_of(r@) =~= next_level(lv));
    r
}

/// The levels of a Merkle tree: the first holds the leaves, each next one is
/// built from the one before, and the last holds only the root.
#[verifier::opaque]
pub open spec fn levels_chained(tree: Seq<Seq<Seq<u8>>>) -> bool {
    &&& tree.len() >= 1
    &&& tree.last().len() == 1
    &&& forall|l: int| 0 <= l < tree.len() - 1 ==> (#[trigger] tree[l]).len() >= 2 && tree[l + 1] == next_level(tree[l])
}

pub open spec fn tree_view(t: Seq<Vec<Vec<u8>>>) -> Seq<Seq<Seq<u8>>> {
    t.map_values(|l: Vec<Vec<u8>>| views_of(l@))
}

/// The Merkle tree over `leaves`: the root, and every level from the leaves up.
pub fn merkle_tree(leaves: &Vec<Vec<u8>>) -> (r: TxMerkle)
    requires
        leaves@.len() >= 1,
    ensures
        r.root_hash@ == merkle_root(views_of(leaves@)),
        leaves@.len() >= 2 ==> r.root_hash@.len() == 32,
        leaves@.len() == 1 ==> r.root_hash@ == leaves@[0]@,
        r.tree@.len() >= 1,
        views_of(r.tree@[0]@) == views_of(leaves@),
        levels_chained(tree_view(r.tree@)),
        r.root_hash@ == tree_view(r.tree@).last()[0],
{
    let mut cur = copy_list(leaves);
    let mut tree: Vec<Vec<Vec<u8>>> = Vec::new();
    while cur.len() > 1
        invariant
            cur@.len() >= 1,
            merkle_root(views_of(cur@)) == merkle_root(views_of(leaves@)),
            leaves@.len() >= 2 ==> (cur@.len() >= 2 || cur@[0]@.len() == 32),
            tree@.len() == 0 ==> views_of(cur@) == views_of(leaves@),
            tree@.len() > 0 ==> views_of(tree@[0]@) == views_of(leaves@),
            tree@.len() > 0 ==> views_of(cur@) == next_level(tree_view(tree@).last()),
            forall|l: int| 0 <= l < tree@.len() ==> (#[trigger] tree_view(tree@)[l]).len() >= 2,
            forall|l: int| 0 <= l < tree@.len() - 1 ==> tree_view(tree@)[l + 1] == next_level(#[trigger] tree_view(tree@)[l]),
        decreases cur@.len(),
    {
        let nxt = next_merkle_level(&cur);
        let ghost t0 = tree@;
        let ghost cv = views_of(cur@);
        tree.push(cur);
        assert(tree_view(tree@) =~= tree_view(t0).push(cv));
        cur = nxt;
    }
    let root = copy_bytes(&cur[0]);
    let ghost t0 = tree@;
    let ghost cv = views_of(cur@);
    tree.push(cur);
    assert(tree_view(tree@) =~= tree_view(t0).push(cv));
    proof {
        reveal(levels_chained);
    }
    TxMerkle { root_hash: root, tree }
}

/// The root reached from `node` at position `index` of level `l`, hashing in
/// the sibling of each level on the way up (an odd last node goes up alone).
pub open spec fn path_root(node: Seq<u8>, index: int, tree: Seq<Seq<Seq<u8>>>, l: int) -> Seq<u8>
    decreases tree.len() - l,
{
    if l < 0 || l >= tree.len() - 1 {
        node
    } else if index % 2 == 1 {
        path_root(sha3_256_of(tree[l][index - 1] + node), index / 2, tree, l + 1)
    } else if index + 1 < tree[l].len() {
        path_root(sha3_256_of(node + tree[l][index + 1]), index / 2, tree, l + 1)
    } else {
        path_root(node, index / 2, tree, l + 1)
    }
}

/// Every leaf of a chained tree reaches its root along its path.
pub proof fn merkle_inclusion(tree: Seq<Seq<Seq<u8>>>, index: int)
    requires
        levels_chained(tree),
        0 <= index < tree[0].len(),
    ensures
        path_root(tree[0][index], index, tree, 0) == tree.last()[0],
{
    reveal(levels_chained);
    lemma_path_from(tree, index, 0);
}

proof fn lemma_path_from(tree: Seq<Seq<Seq<u8>>>, index: int, l: int)
    requires
        levels_chained(tree),
        0 <= l < tree.len(),
        0 <= index < tree[l].len(),
    ensures
        path_root(tree[l][index], index, tree, l) == tree.last()[0],
    decreases tree.len() - l,
{
    reveal(levels_chained);
    if l < tree.len() - 1 {
        let lv = tree[l];
        assert(lv.len() >= 2 && tree[l + 1] == next_level(lv));
        let up = index / 2;
        assert(up < (lv.len() + 1) / 2);
        if index % 2 == 1 {
            assert(2 * up + 1 == index && 2 * up == index - 1);
        } else {
            assert(2 * up == index);
        }
        lemma_path_from(tree, up, l + 1);
    } else {
        assert(tree.last().len() == 1);
    }
}

/// One step up a Merkle path from `node` at position `index` of `level`.
pub open spec fn step_node(node: Seq<u8>, index: int, level: Seq<Seq<u8>>) -> Seq<u8> {
    if index % 2 == 1 {
        sha3_256_of(level[index - 1] + node)
    } else if index + 1 < level.len() {
        sha3_256_of(node + level[index + 1])
    } else {
        node
    }
}

proof fn lemma_path_step(tv: Seq<Seq<Seq<u8>>>, node: Seq<u8>, i: int, l: int)
    requires
        levels_chained(tv),
        0 <= l < tv.len() - 1,
        0 <= i < tv[l].len(),
    ensures
        path_root(node, i, tv, l) == path_root(step_node(node, i, tv[l]), i / 2, tv, l + 1),
        i / 2 < tv[l + 1].len(),
{
    reveal(levels_chained);
    assert(tv[l + 1] == next_level(tv[l]));
}

fn step_up(node: &Vec<u8>, i: usize, level: &Vec<Vec<u8>>) -> (r: Vec<u8>)
    requires
        i < level@.len(),
    ensures
        r@ == step_node(node@, i as int, views_of(level@)),
{
    if i % 2 == 1 {
        let both = concat_bytes(&level[i - 1], node);
        sha3_256(&both)
    } else if i + 1 < level.len() {
        let both = concat_bytes(node, &level[i + 1]);
        sha3_256(&both)
    } else {
        copy_bytes(node)
    }
}

/// Walks the path of the leaf at `index` up `tree` and returns the root it
/// reaches; `None` where the path leaves the tree. On a tree that
/// `merkle_tree` built, every leaf reaches the root.
pub fn merkle_path_root(tree: &Vec<Vec<Vec<u8>>>, index: usize) -> (r: Option<Vec<u8>>)
    ensures
        levels_chained(tree_view(tree@)) && index < tree_view(tree@)[0].len()
            ==> (r matches Some(root) && root@ == tree_view(tree@).last()[0]),
{
    let ghost tv = tree_view(tree@);
    let ghost chained = levels_chained(tv) && index < tv[0].len();
    if tree.len() == 0 || index >= tree[0].len() {
        proof {
            reveal(levels_chained);
        }
        return None;
    }
    assert(tv[0] == views_of(tree@[0]@));
    let mut node = copy_bytes(&tree[0][index]);
    let mut i = index;
    let mut l: usize = 0;
    proof {
        if chained {
            merkle_inclusion(tv, index as int);
        }
    }
    while l < tree.len() - 1
        invariant
            tv == tree_view(tree@),
            tree@.len() >= 1,
            l < tree@.len(),
            chained == (levels_chained(tv) && index < tv[0].len()),
            chained ==> i < tv[l as int].len() && path_root(node@, i as int, tv, l as int) == tv.last()[0],
        decreases tree@.len() - l,
    {
        if i >= tree[l].len() {
            assert(tv[l as int] == views_of(tree@[l as int]@));
            return None;
        }
        proof {
            if chained {
                lemma_path_step(tv, node@, i as int, l as int);
            }
        }
        assert(tv[l as int] == views_of(tree@[l as int]@));
        node = step_up(&node, i, &tree[l]);
        i = i / 2;
        l = l + 1;
    }
    Some(node)
}

/// What `ethereum_types::Bloom::accrue` leaves in a 256-byte bloom for a raw input.
pub uninterp spec fn bloom_accrue_of(bloom: Seq<u8>, input: Seq<u8>) -> Seq<u8>;

/// Relies on `ethereum_types::Bloom::accrue` with `BloomInput::Raw`: the bloom stays
/// 256 bytes; `Bloom::from_slice` panics on any other length, hence the requirement.
#[verifier::external_body]
fn bloom_accrue(bloom: &mut Vec<u8>, input: &Vec<u8>)
    requires
        old(bloom)@.len() == 256,
    ensures
        final(bloom)@ == bloom_accrue_of(old(bloom)@, input@),
        final(bloom)@.len() == 256,
{
    let mut b = ethereum_types::Bloom::from_slice(bloom.as_slice());
    b.accrue(ethereum_types::BloomInput::Raw(input.as_slice()));
    *bloom = b.as_bytes().to_vec();
}

/// The bloom after accruing each input in turn.
pub open spec fn accrue_all(bloom: Seq<u8>, inputs: Seq<Seq<u8>>) -> Seq<u8>
    decreases inputs.len(),
{
    if inputs.len() == 0 {
        bloom
    } else {
        bloom_accrue_of(accrue_all(bloom, inputs.drop_last()), inputs.last())
    }
}

/// What a block's bloom takes from its logs: each address, then each topic.
pub open spec fn logs_inputs(ls: Seq<LogView>) -> Seq<Seq<u8>>
    decreases ls.len(),
{
    if ls.len() == 0 {
        Seq::empty()
    } else {
        logs_inputs(ls.drop_last()) + seq![ls.last().address] + ls.last().topics
    }
}

/// Accrues into `b` the address and every topic of each log.
pub fn handle_bloom(b: &mut Vec<u8>, logs: &Vec<Log>)
    requires
        old(b)@.len() == 256,
    ensures
        final(b)@ == accrue_all(old(b)@, logs_inputs(logs_view(logs@))),
        final(b)@.len() == 256,
{
    let ghost b0 = b@;
    let ghost lv = logs_view(logs@);
    let mut i: usize = 0;
    while i < logs.len()
        invariant
            lv == logs_view(logs@),
            i <= logs@.len(),
            b@.len() == 256,
            b@ == accrue_all(b0, logs_inputs(lv.take(i as int))),
        decreases logs.len() - i,
    {
        let log = &logs[i];
        let ghost head_in = logs_inputs(lv.take(i as int));
        bloom_accrue(b, &log.address);
        assert((head_in + seq![log.address@]).drop_last() =~= head_in);
        let ghost with_addr = head_in + seq![log.address@];
        let ghost tv = views_of(log.topics@);
        let mut j: usize = 0;
        while j < log.topics.len()
            invariant
                tv == views_of(log.topics@),
                j <= log.topics@.len(),
                b@.len() == 256,
                b@ == accrue_all(b0, with_addr + tv.take(j as int)),
            decreases log.topics.len() - j,
        {
            assert((with_addr + tv.take(j + 1)).drop_last() =~= with_addr + tv.take(j as int));
            bloom_accrue(b, &log.topics[j]);
            j += 1;
        }
        assert(lv.take(i + 1).drop_last() =~= lv.take(i as int));
        assert(tv.take(tv.len() as int) =~= tv);
        assert(with_addr + tv =~= logs_inputs(lv.take(i + 1)));
        i += 1;
    }
    assert(lv.take(logs@.len() as int) =~= lv);
}

/// A block: its header, the header's hash, its transactions and its bloom.
pub struct Block {
    pub header: BlockHeader,
    pub header_hash: Vec<u8>,
    pub txs: Vec<Tx>,
    pub bloom: Vec<u8>,
}

/// A zero-filled bloom.
pub fn empty_bloom() -> (r: Vec<u8>)
    ensures
        r@ == Seq::new(256, |i: int| 0u8),
{
    let mut r: Vec<u8> = Vec::new();
    let mut i: usize = 0;
    while i < 256
        invariant
            i <= 256,
            r@ == Seq::new(i as nat, |k: int| 0u8),
        decreases 256 - i,
    {
        r.push(0u8);
        i += 1;
        assert(r@ =~= Seq::new(i as nat, |k: int| 0u8));
    }
    r
}

impl Block {
    /// An empty block to be assembled at `height`.
    pub fn new(height: u64, proposer: Vec<u8>, timestamp: u64, prev_hash: Vec<u8>) -> (r: Block)
        ensures
            r.header.height == height,
            r.header.proposer@ == proposer@,
            r.header.timestamp == timestamp,
            r.header.prev_hash@ == prev_hash@,
            r.header.receipts@.len() == 0,
            r.header.tx_merkle.root_hash@.len() == 0,
            r.header.tx_merkle.tree@.len() == 0,
            r.header_hash@.len() == 0,
            r.txs@.len() == 0,
            r.bloom@ == Seq::new(256, |i: int| 0u8),
    {
        Block {
            header: BlockHeader {
                height,
                proposer,
                timestamp,
                tx_merkle: TxMerkle { root_hash: Vec::new(), tree: Vec::new() },
                prev_hash,
                receipts: Vec::new(),
            },
            header_hash: Vec::new(),
            txs: Vec::new(),
            bloom: empty_bloom(),
        }
    }

    /// The empty block at height zero.
    pub fn default() -> (r: Block)
        ensures
            r.header.height == 0,
            r.header_hash@.len() == 0,
            r.header.receipts@.len() == 0,
            r.txs@.len() == 0,
    {
        Block::new(0, Vec::new(), 0, Vec::new())
    }
}

/// Accruing two lists of inputs in turn is accruing their concatenation.
pub proof fn lemma_accrue_append(b: Seq<u8>, x: Seq<Seq<u8>>, y: Seq<Seq<u8>>)
    ensures
        accrue_all(accrue_all(b, x), y) == accrue_all(b, x + y),
    decreases y.len(),
{
    if y.len() > 0 {
        lemma_accrue_append(b, x, y.drop_last());
        assert((x + y).drop_last() =~= x + y.drop_last());
    } else {
        assert(x + y =~= x);
    }
}

/// The total gas of a list of receipts.
pub open spec fn gas_sum(rs: Seq<ReceiptView>) -> nat
    decreases rs.len(),
{
    if rs.len() == 0 {
        0
    } else {
        gas_sum(rs.drop_last()) + rs.last().tx_gas_used.value()
    }
}

proof fn lemma_gas_sum_prefix(rs: Seq<ReceiptView>, i: int)
    requires
        0 <= i <= rs.len(),
    ensures
        gas_sum(rs.take(i)) <= gas_sum(rs),
    decreases rs.len() - i,
{
    if i < rs.len() {
        lemma_gas_sum_prefix(rs, i + 1);
        assert(rs.take(i + 1).drop_last() =~= rs.take(i));
    } else {
        assert(rs.take(i) =~= rs);
    }
}

/// The sum of the receipts' `tx_gas_used`; `None` where it does not fit.
pub fn total_gas(receipts: &Vec<Receipt>) -> (r: Option<U256>)
    ensures
        r is None <==> gas_sum(receipts_view(receipts@)) >= modulus(),
        r matches Some(t) ==> t.value() == gas_sum(receipts_view(receipts@)),
{
    let ghost rv = receipts_view(receipts@);
    let mut total = U256::zero();
    let mut i: usize = 0;
    while i < receipts.len()
        invariant
            rv == receipts_view(receipts@),
            i <= receipts@.len(),
            total.value() == gas_sum(rv.take(i as int)),
        decreases receipts.len() - i,
    {
        assert(rv.take(i + 1).drop_last() =~= rv.take(i as int));
        match total.checked_add(&receipts[i].tx_gas_used) {
            Some(t) => {
                total = t;
            },
            None => {
                proof {
                    lemma_gas_sum_prefix(rv, i + 1);
                }
                return None;
            },
        }
        i += 1;
    }
    assert(rv.take(receipts@.len() as int) =~= rv);
    Some(total)
}

/// The bloom inputs of all logs of all receipts, in order.
pub open spec fn receipts_inputs(rs: Seq<ReceiptView>) -> Seq<Seq<u8>>
    decreases rs.len(),
{
    if rs.len() == 0 {
        Seq::empty()
    } else {
        receipts_inputs(rs.drop_last()) + logs_inputs(rs.last().logs)
    }
}

/// Sets every receipt's block gas to `total` and accrues all their logs into `bloom`.
pub fn finalize_receipts(receipts: &mut Vec<Receipt>, total: U256, bloom: &mut Vec<u8>)
    requires
        old(bloom)@.len() == 256,
    ensures
        final(receipts)@.len() == old(receipts)@.len(),
        forall|i: int| 0 <= i < old(receipts)@.len() ==> (#[trigger] final(receipts)@[i])@
            == (ReceiptView { block_gas_used: total, ..old(receipts)@[i]@ }),
        final(bloom)@ == accrue_all(old(bloom)@, receipts_inputs(receipts_view(old(receipts)@))),
        final(bloom)@.len() == 256,
{
    let ghost rv = receipts_view(receipts@);
    let ghost b0 = bloom@;
    let n = receipts.len();
    let mut i: usize = 0;
    while i < n
        invariant
            n == receipts@.len(),
            n == old(receipts)@.len(),
            rv == receipts_view(old(receipts)@),
            i <= n,
            bloom@.len() == 256,
            bloom@ == accrue_all(b0, receipts_inputs(rv.take(i as int))),
            forall|j: int| 0 <= j < i ==> (#[trigger] receipts@[j])@ == (ReceiptView { block_gas_used: total, ..rv[j] }),
            forall|j: int| i <= j < n ==> (#[trigger] receipts@[j]) == old(receipts)@[j],
        decreases n - i,
    {
        let ghost before = bloom@;
        handle_bloom(bloom, &receipts[i].logs);
        proof {
            lemma_accrue_append(b0, receipts_inputs(rv.take(i as int)), logs_inputs(rv[i as int].logs));
            assert(rv.take(i + 1).drop_last() =~= rv.take(i as int));
        }
        let r = &mut receipts[i];
        r.block_gas_used = total;
        i += 1;
    }
    assert(rv.take(n as int) =~= rv);
}

/// The receipts are in strictly increasing order of transaction hash, so each
/// hash has one receipt: a map from hash to receipt, kept in key order.
pub open spec fn receipts_sorted(rs: Seq<Receipt>) -> bool {
    forall|i: int, j: int| 0 <= i < j < rs.len() ==> bytes_lt(rs[i].tx_hash@, rs[j].tx_hash@)
}

/// Whether the receipts are in strictly increasing hash order.
pub fn receipts_in_order(rs: &Vec<Receipt>) -> (r: bool)
    ensures
        r == receipts_sorted(rs@),
{
    let mut i: usize = 0;
    while i < rs.len()
        invariant
            i <= rs@.len(),
            forall|a: int, b: int| 0 <= a < b < rs@.len() && a < i ==> bytes_lt(rs@[a].tx_hash@, rs@[b].tx_hash@),
        decreases rs.len() - i,
    {
        let mut j: usize = i + 1;
        while j < rs.len()
            invariant
                i < rs@.len(),
                i + 1 <= j <= rs@.len(),
                forall|a: int, b: int| 0 <= a < b < rs@.len() && a < i ==> bytes_lt(rs@[a].tx_hash@, rs@[b].tx_hash@),
                forall|b: int| i < b < j ==> bytes_lt(rs@[i as int].tx_hash@, rs@[b].tx_hash@),
            decreases rs.len() - j,
        {
            if !bytes_less(&rs[i].tx_hash, &rs[j].tx_hash) {
                return false;
            }
            j += 1;
        }
        i += 1;
    }
    true
}

fn receipt_position(receipts: &Vec<Receipt>, key: &Vec<u8>) -> (p: usize)
    ensures
        p <= receipts@.len(),
        forall|i: int| 0 <= i < p ==> bytes_lt(#[trigger] receipts@[i].tx_hash@, key@),
        p < receipts@.len() ==> !bytes_lt(receipts@[p as int].tx_hash@, key@),
{
    let mut p: usize = 0;
    while p < receipts.len()
        invariant
            p <= receipts@.len(),
            forall|i: int| 0 <= i < p ==> bytes_lt(#[trigger] receipts@[i].tx_hash@, key@),
        decreases receipts.len() - p,
    {
        if !bytes_less(&receipts[p].tx_hash, key) {
            return p;
        }
        p += 1;
    }
    p
}

/// Puts `r` under its transaction hash: in place of the receipt with the same
/// hash, else at its place in hash order. Returns where it went.
pub fn insert_receipt(receipts: &mut Vec<Receipt>, r: Receipt) -> (p: usize)
    ensures
        p <= old(receipts)@.len(),
        p < old(receipts)@.len() && old(receipts)@[p as int].tx_hash@ == r.tx_hash@
            ==> final(receipts)@ == old(receipts)@.update(p as int, r),
        !(p < old(receipts)@.len() && old(receipts)@[p as int].tx_hash@ == r.tx_hash@)
            ==> final(receipts)@ == old(receipts)@.insert(p as int, r),
        receipts_sorted(old(receipts)@) ==> receipts_sorted(final(receipts)@),
        final(receipts)@[p as int] == r,
{
    let p = receipt_position(receipts, &r.tx_hash);
    let ghost old_rs = receipts@;
    let ghost x = r.tx_hash@;
    if p < receipts.len() && bytes_eq(&receipts[p].tx_hash, &r.tx_hash) {
        let ghost rr = r;
        receipts.set(p, r);
        proof {
            assert forall|i: int, j: int| 0 <= i < j < receipts@.len() && receipts_sorted(old_rs) implies
                bytes_lt(receipts@[i].tx_hash@, receipts@[j].tx_hash@) by {
                assert(receipts@[i].tx_hash@ == old_rs[i].tx_hash@);
                assert(receipts@[j].tx_hash@ == old_rs[j].tx_hash@);
            }
        }
    } else {
        receipts.insert(p, r);
        proof {
            if receipts_sorted(old_rs) {
                if p < old_rs.len() {
                    lemma_lt_total(old_rs[p as int].tx_hash@, x);
                }
                assert forall|i: int, j: int| 0 <= i < j < receipts@.len() implies
                    bytes_lt(receipts@[i].tx_hash@, receipts@[j].tx_hash@) by {
                    if j < p {
                        assert(receipts@[i] == old_rs[i] && receipts@[j] == old_rs[j]);
                    } else if j == p {
                        assert(receipts@[i] == old_rs[i]);
                    } else if i < p {
                        assert(receipts@[i] == old_rs[i] && receipts@[j] == old_rs[j - 1]);
                        assert(bytes_lt(old_rs[i].tx_hash@, x));
                        assert(bytes_lt(x, old_rs[p as int].tx_hash@));
                        if j - 1 > p {
                            lemma_lt_transitive(x, old_rs[p as int].tx_hash@, old_rs[j - 1].tx_hash@);
                        }
                        lemma_lt_transitive(old_rs[i].tx_hash@, x, old_rs[j - 1].tx_hash@);
                    } else if i == p {
                        assert(receipts@[j] == old_rs[j - 1]);
                        if j - 1 > p {
                            lemma_lt_transitive(x, old_rs[p as int].tx_hash@, old_rs[j - 1].tx_hash@);
                        }
                    } else {
                        assert(receipts@[i] == old_rs[i - 1] && receipts@[j] == old_rs[j - 1]);
                    }
                }
            }
        }
    }
    p
}

} // verus!
