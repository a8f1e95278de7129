//! The world state, the per-role state branches (Main, DeliverTx, CheckTx) and
//! the ledger that drives them through the consensus lifecycle.
use vstd::prelude::*;
use crate::block::{
    Block, Receipt, ReceiptView, merkle_root, receipts_view, gas_sum, accrue_all, receipts_inputs,
};
use crate::tx::{ExecOutcome, ExecRet, TransactionAction, Tx, TxError, GAS_PRICE_MIN};
use crate::u256::modulus;
use crate::bytes::copy_bytes;
use crate::common::{views_of, sha3_256_of, concat_all, fit_bytes};
use crate::store::{
    lookup, VsVersion, VersionLogView, BranchView, writes_view, Entry, EntryView, OvrAccount, OvrAccountView, StoreError, VersionedStore, Write,
};
use crate::u256::U256;

verus! {

pub open spec fn main_name() -> Seq<u8> {
    seq![77u8, 97u8, 105u8, 110u8]
}

pub open spec fn deliver_tx_name() -> Seq<u8> {
    seq![68u8, 101u8, 108u8, 105u8, 118u8, 101u8, 114u8, 84u8, 120u8]
}

pub open spec fn check_tx_name() -> Seq<u8> {
    seq![67u8, 104u8, 101u8, 99u8, 107u8, 84u8, 120u8]
}

/// "Main": the branch of the committed chain.
pub fn main_branch_name() -> (r: Vec<u8>)
    ensures
        r@ == main_name(),
{
    let r = vec![77u8, 97u8, 105u8, 110u8];
    assert(r@ =~= main_name());
    r
}

/// "DeliverTx": the branch a block is applied on.
pub fn deliver_tx_branch_name() -> (r: Vec<u8>)
    ensures
        r@ == deliver_tx_name(),
{
    let r = vec![68u8, 101u8, 108u8, 105u8, 118u8, 101u8, 114u8, 84u8, 120u8];
    assert(r@ =~= deliver_tx_name());
    r
}

/// "CheckTx": the branch mempool checks run on.
pub fn check_tx_branch_name() -> (r: Vec<u8>)
    ensures
        r@ == check_tx_name(),
{
    let r = vec![67u8, 104u8, 101u8, 99u8, 107u8, 84u8, 120u8];
    assert(r@ =~= check_tx_name());
    r
}

/// The store key of an account.
pub open spec fn account_key_of(addr: Seq<u8>) -> Seq<u8> {
    seq![97u8] + addr
}

/// The store key of a storage cell.
pub open spec fn storage_key_of(addr: Seq<u8>, slot: Seq<u8>) -> Seq<u8> {
    seq![115u8] + addr + slot
}

pub fn account_key(addr: &Vec<u8>) -> (r: Vec<u8>)
    ensures
        r@ == account_key_of(addr@),
{
    let tag = vec![97u8];
    let r = crate::bytes::concat_bytes(&tag, addr);
    assert(tag@ =~= seq![97u8]);
    r
}

pub fn storage_key(addr: &Vec<u8>, slot: &Vec<u8>) -> (r: Vec<u8>)
    ensures
        r@ == storage_key_of(addr@, slot@),
{
    let tag = vec![115u8];
    let a = crate::bytes::concat_bytes(&tag, addr);
    assert(tag@ =~= seq![115u8]);
    crate::bytes::concat_bytes(&a, slot)
}

pub open spec fn zero_u256() -> U256 {
    U256 { l0: 0, l1: 0, l2: 0, l3: 0 }
}

/// An absent account: zero nonce, zero balance, no code.
pub open spec fn empty_account() -> OvrAccountView {
    OvrAccountView { nonce: zero_u256(), balance: zero_u256(), code: Seq::empty() }
}

/// The account that a read returns; anything but an account reads as absent.
pub open spec fn account_in(e: Option<EntryView>) -> OvrAccountView {
    match e {
        Some(EntryView::Account(a)) => a,
        _ => empty_account(),
    }
}

/// The account `addr` at the tip of `branch`.
pub open spec fn account_at(store: VersionedStore, branch: Seq<u8>, addr: Seq<u8>) -> OvrAccountView {
    account_in(store.read(branch, account_key_of(addr)))
}

/// The account `addr` after the writes of `log`.
pub open spec fn account_in_log(log: Seq<(Seq<u8>, EntryView)>, addr: Seq<u8>) -> OvrAccountView {
    account_in(lookup(log, account_key_of(addr)))
}

/// Reads account `addr` at the tip of `branch`.
pub fn read_account(store: &VersionedStore, branch: &Vec<u8>, addr: &Vec<u8>) -> (r: Result<OvrAccount, StoreError>)
    requires
        store.wf(),
    ensures
        r is Err <==> !store.has(branch@),
        r is Err ==> r == Err::<OvrAccount, StoreError>(StoreError::NoSuchBranch),
        r matches Ok(a) ==> a@ == account_at(*store, branch@, addr@),
{
    let key = account_key(addr);
    match store.get_on(branch, &key) {
        Err(e) => Err(e),
        Ok(Some(Entry::Account(a))) => Ok(a),
        Ok(_) => {
            let a = OvrAccount { nonce: U256::zero(), balance: U256::zero(), code: Vec::new() };
            assert(a@.code =~= Seq::<u8>::empty());
            Ok(a)
        },
    }
}

/// Branch `b` has as many versions in `s1` as in `s0`, the latest with the same id.
pub open spec fn ids_kept(s1: VersionedStore, s0: VersionedStore, b: Seq<u8>) -> bool {
    &&& s1.branch(b).versions.len() == s0.branch(b).versions.len()
    &&& s0.branch(b).versions.len() > 0 ==> s1.branch(b).versions.last().id == s0.branch(b).versions.last().id
}

/// Writes each of `writes` in turn on the latest version of `branch`.
pub fn apply_writes(store: &mut VersionedStore, branch: &Vec<u8>, writes: Vec<Write>) -> (r: Result<(), StoreError>)
    requires
        old(store).wf(),
        old(store).has(branch@),
        old(store).branch(branch@).versions.len() > 0,
    ensures
        r is Ok,
        final(store).wf(),
        final(store).same_except(old(store), branch@),
        final(store).has(branch@),
        ids_kept(*final(store), *old(store), branch@),
        final(store).branch(branch@).history() == old(store).branch(branch@).history() + writes_view(writes@),
{
    let ghost h0 = store.branch(branch@).history();
    let ghost s0 = *store;
    let ghost wv = writes_view(writes@);
    let mut writes = writes;
    let mut rest: Vec<Write> = Vec::new();
    // take the writes out in order
    let n = writes.len();
    let mut i: usize = 0;
    while i < n
        invariant
            n == writes@.len(),
            i <= n,
            wv == writes_view(writes@),
            store.wf(),
            store.same_except(&s0, branch@),
            store.has(branch@),
            ids_kept(*store, s0, branch@),
            s0.branch(branch@).versions.len() > 0,
            store.branch(branch@).history() == h0 + wv.take(i as int),
        decreases n - i,
    {
        let w = writes[i].copy();
        let ghost before = *store;
        let res = store.put_on(branch, &w.key, w.value);
        assert(res is Ok);
        proof {
            crate::store::lemma_put_history(before.branch(branch@), w.key@, w.value@);
            assert(wv.take(i + 1) =~= wv.take(i as int).push(w@));
            assert(h0 + wv.take(i + 1) =~= (h0 + wv.take(i as int)).push(w@));
            assert forall|nm: Seq<u8>| nm != branch@ implies (store.has(nm) == s0.has(nm) && (s0.has(nm) ==> store.branch(nm) == s0.branch(nm))) by {
                assert(store.has(nm) == before.has(nm));
            }
        }
        i += 1;
    }
    assert(wv.take(n as int) =~= wv);
    Ok(())
}

/// Writes account `a` under `addr` on the latest version of `branch`.
pub fn put_account(store: &mut VersionedStore, branch: &Vec<u8>, addr: &Vec<u8>, a: OvrAccount) -> (r: Result<(), StoreError>)
    requires
        old(store).wf(),
    ensures
        final(store).wf(),
        r is Ok <==> old(store).has(branch@) && old(store).branch(branch@).versions.len() > 0,
        r is Err ==> *final(store) == *old(store),
        r is Ok ==> final(store).same_except(old(store), branch@) && final(store).has(branch@)
            && ids_kept(*final(store), *old(store), branch@)
            && final(store).branch(branch@).history() == old(store).branch(branch@).history().push(
                (account_key_of(addr@), EntryView::Account(a@)))
            && forall|k: Seq<u8>| #[trigger] final(store).read(branch@, k) == if k == account_key_of(addr@) {
                Some(EntryView::Account(a@))
            } else {
                old(store).read(branch@, k)
            },
{
    let key = account_key(addr);
    let ghost av = a@;
    let r = store.put_on(branch, &key, Entry::Account(a));
    proof {
        if r is Ok {
            crate::store::lemma_put_history(old(store).branch(branch@), key@, EntryView::Account(av));
            assert forall|k: Seq<u8>| #[trigger] store.read(branch@, k) == if k == account_key_of(addr@) {
                Some(EntryView::Account(av))
            } else {
                old(store).read(branch@, k)
            } by {
                crate::store::lemma_lookup_push(old(store).branch(branch@).history(), (key@, EntryView::Account(av)), k);
            }
        }
    }
    r
}

/// The balance left after paying `fee` out of `balance`, never below zero.
pub open spec fn sat_sub(balance: nat, fee: nat) -> nat {
    if balance >= fee { (balance - fee) as nat } else { 0 }
}

/// The world state: the versioned store, the chain's settings, the EVM's part
/// and the committed blocks (owned by Main; `blocks[i]` is block `i + 1`).
pub struct State {
    pub store: VersionedStore,
    pub chain_id: u64,
    pub chain_name: Vec<u8>,
    pub chain_version: Vec<u8>,
    pub evm: crate::evm::State,
    pub blocks: Vec<Block>,
}

impl State {
    pub open spec fn wf(&self) -> bool {
        &&& self.store.wf()
        &&& self.blocks@.len() < u64::MAX
        &&& self.evm.block_hashes@.len() == self.blocks@.len()
        &&& forall|i: int| 0 <= i < self.blocks@.len() ==> (#[trigger] self.blocks@[i]).header.height == i + 1
            && crate::block::receipts_sorted(self.blocks@[i].header.receipts@)
    }

    /// Whether this state is well formed, as a loaded one must be checked.
    pub fn check_wf(&self) -> (r: bool)
        ensures
            r == self.wf(),
    {
        if !self.store.check_wf() || self.blocks.len() as u64 == u64::MAX
            || self.evm.block_hashes.len() != self.blocks.len() {
            return false;
        }
        let mut i: usize = 0;
        while i < self.blocks.len()
            invariant
                i <= self.blocks@.len(),
                forall|k: int| 0 <= k < i ==> (#[trigger] self.blocks@[k]).header.height == k + 1
                    && crate::block::receipts_sorted(self.blocks@[k].header.receipts@),
            decreases self.blocks.len() - i,
        {
            if self.blocks[i].header.height != i as u64 + 1
                || !crate::block::receipts_in_order(&self.blocks[i].header.receipts) {
                return false;
            }
            i += 1;
        }
        true
    }

    /// Everything but the store is as in `o`.
    pub open spec fn same_but_store(&self, o: &State) -> bool {
        &&& self.chain_id == o.chain_id
        &&& self.chain_name == o.chain_name
        &&& self.chain_version == o.chain_version
        &&& self.evm == o.evm
        &&& self.blocks == o.blocks
    }
}

/// Charges `amount` to `caller` on `branch`: the balance drops by it, down to
/// zero at most; nothing is written for a zero amount.
fn charge_fee(state: &mut State, branch: &Vec<u8>, caller: &Vec<u8>, amount: U256) -> (r: Result<(), StoreError>)
    requires
        old(state).wf(),
        old(state).store.has(branch@),
        old(state).store.branch(branch@).versions.len() > 0,
    ensures
        r is Ok,
        final(state).wf(),
        final(state).same_but_store(old(state)),
        amount.value() == 0 ==> final(state).store == old(state).store,
        final(state).store.same_except(&old(state).store, branch@),
        final(state).store.has(branch@),
        ids_kept(final(state).store, old(state).store, branch@),
        amount.value() > 0 ==> forall|k: Seq<u8>| k != account_key_of(caller@)
            ==> #[trigger] final(state).store.read(branch@, k) == old(state).store.read(branch@, k),
        ({
            let a0 = account_at(old(state).store, branch@, caller@);
            let a1 = account_at(final(state).store, branch@, caller@);
            &&& a1.nonce == a0.nonce
            &&& a1.code == a0.code
            &&& a1.balance.value() == sat_sub(a0.balance.value(), amount.value())
        }),
{
    if amount.is_zero() {
        return Ok(());
    }
    let mut account = match read_account(&state.store, branch, caller) {
        Ok(a) => a,
        Err(e) => {
            return Err(e);
        },
    };
    account.balance = account.balance.saturating_sub(&amount);
    put_account(&mut state.store, branch, caller, account)
}

impl Tx {
    /// Preflight is passed: the gas price reaches `min`, a sender was recovered,
    /// the nonce is the sender's and the balance covers value plus gas.
    pub open spec fn preflight_ok(&self, min: U256, sender: Option<Vec<u8>>, store: VersionedStore, branch: Seq<u8>) -> bool {
        &&& min.value() <= self.effective_gas_price().value()
        &&& sender is Some
        &&& store.has(branch)
        &&& self.nonce.value() == account_at(store, branch, sender->0@).nonce.value()
        &&& self.gas_limit.value() > 0
        &&& self.needed(self.effective_gas_price()) < modulus()
        &&& self.needed(self.effective_gas_price()) <= account_at(store, branch, sender->0@).balance.value()
    }

    /// The gas price reaches `min` and a sender was recovered.
    pub open spec fn signer_ok(&self, min: U256, sender: Option<Vec<u8>>) -> bool {
        min.value() <= self.effective_gas_price().value() && sender is Some
    }

    /// Besides, the branch exists, so the sender's account can be read.
    pub open spec fn account_ok(&self, min: U256, sender: Option<Vec<u8>>, store: VersionedStore, branch: Seq<u8>) -> bool {
        self.signer_ok(min, sender) && store.has(branch)
    }

    /// Besides, the nonce is the sender's.
    pub open spec fn nonce_ok(&self, min: U256, sender: Option<Vec<u8>>, store: VersionedStore, branch: Seq<u8>) -> bool {
        self.account_ok(min, sender, store, branch)
            && self.nonce.value() == account_at(store, branch, sender->0@).nonce.value()
    }

    /// The checks before execution, in order: gas price, signature, nonce,
    /// balance. Returns the sender, its account and the gas price.
    pub fn pre_exec(&self, state: &State, branch: &Vec<u8>, sender: &Option<Vec<u8>>) -> (r: Result<(Vec<u8>, OvrAccount, U256), TxError>)
        requires
            state.wf(),
        ensures
            r is Ok <==> self.preflight_ok(state.evm.gas_price, *sender, state.store, branch@),
            r matches Ok((a, acct, p)) ==> a@ == sender->0@ && acct@ == account_at(state.store, branch@, a@)
                && p == self.effective_gas_price(),
            r matches Err(TxError::GasPriceTooLow) <==> state.evm.gas_price.value() > self.effective_gas_price().value(),
            r matches Err(TxError::InvalidSignature) <==> state.evm.gas_price.value() <= self.effective_gas_price().value()
                && sender is None,
            (r matches Err(TxError::Store(e)) && e == StoreError::NoSuchBranch) <==> self.signer_ok(state.evm.gas_price, *sender)
                && !state.store.has(branch@),
            (r matches Err(TxError::InvalidNonce { .. })) <==> self.account_ok(state.evm.gas_price, *sender, state.store, branch@)
                && self.nonce.value() != account_at(state.store, branch@, sender->0@).nonce.value(),
            r matches Err(TxError::InvalidNonce { tx_nonce, expected }) ==> tx_nonce == self.nonce
                && expected == account_at(state.store, branch@, sender->0@).nonce,
            (r matches Err(TxError::InvalidAmount)) <==> self.nonce_ok(state.evm.gas_price, *sender, state.store, branch@)
                && (self.gas_limit.value() == 0 || self.needed(self.effective_gas_price()) >= modulus()),
            (r matches Err(TxError::InsufficientBalance { .. })) <==> self.nonce_ok(state.evm.gas_price, *sender, state.store, branch@)
                && self.gas_limit.value() > 0 && self.needed(self.effective_gas_price()) < modulus()
                && self.needed(self.effective_gas_price()) > account_at(state.store, branch@, sender->0@).balance.value(),
            r matches Err(TxError::InsufficientBalance { needed, balance }) ==>
                needed.value() == self.needed(self.effective_gas_price())
                && balance == account_at(state.store, branch@, sender->0@).balance,
            !(r matches Err(TxError::FeeOverflow)) && !(r matches Err(TxError::Reverted { .. })),
    {
        let gas_price = match self.check_gas_price(state.evm.gas_price) {
            Ok(p) => p,
            Err(e) => {
                return Err(e);
            },
        };
        let addr = match sender {
            Some(a) => copy_bytes(a),
            None => {
                return Err(TxError::InvalidSignature);
            },
        };
        let account = match read_account(&state.store, branch, &addr) {
            Ok(a) => a,
            Err(e) => {
                return Err(TxError::Store(e));
            },
        };
        if let Err((tx_nonce, expected)) = self.check_nonce(account.nonce) {
            return Err(TxError::InvalidNonce { tx_nonce, expected });
        }
        match self.check_balance(gas_price, account.balance) {
            Ok(_) => Ok((addr, account, gas_price)),
            Err(Some(needed)) => Err(TxError::InsufficientBalance { needed, balance: account.balance }),
            Err(None) => Err(TxError::InvalidAmount),
        }
    }
}

/// `n + 1`, or the largest value where that does not fit.
pub open spec fn sat_inc(n: nat) -> nat {
    if n + 1 < modulus() { n + 1 } else { (modulus() - 1) as nat }
}

impl Tx {
    /// Runs the preflight, then takes in the EVM's `outcome`: on success its
    /// writes are applied on `branch` and the sender's nonce is raised by one;
    /// on failure nothing is written. No fee is charged here. `Err((e, None))`:
    /// rejected before execution; `Err((e, Some(ret)))`: executed and reverted.
    pub fn apply(&self, state: &mut State, branch: &Vec<u8>, sender: &Option<Vec<u8>>, outcome: ExecOutcome)
        -> (r: Result<(ExecRet, Receipt), (TxError, Option<ExecRet>)>)
        requires
            old(state).wf(),
            old(state).store.has(branch@),
            old(state).store.branch(branch@).versions.len() > 0,
        ensures
            r matches Ok((ret, _)) ==> ret.logs == outcome.logs && ret.contract_addr@ == match self.action.target() {
                Some(t) => t,
                None => outcome.contract_addr@,
            },
            r matches Err((_, Some(ret))) ==> ret.logs == outcome.logs && ret.contract_addr@ == match self.action.target() {
                Some(t) => t,
                None => outcome.contract_addr@,
            },
            final(state).wf(),
            final(state).same_but_store(old(state)),
            final(state).store.same_except(&old(state).store, branch@),
            final(state).store.has(branch@),
            ids_kept(final(state).store, old(state).store, branch@),
            ({
                let price = self.effective_gas_price();
                let fee = outcome.gas_used * price.value();
                let ok = self.preflight_ok(old(state).evm.gas_price, *sender, old(state).store, branch@);
                let a0 = account_at(old(state).store, branch@, sender->0@);
                let log = old(state).store.branch(branch@).history() + writes_view(outcome.writes@);
                &&& !ok ==> (r matches Err((_, None)) && final(state).store == old(state).store)
                &&& ok && fee >= modulus() ==> (r matches Err((TxError::FeeOverflow, None))
                    && final(state).store == old(state).store)
                &&& ok && fee < modulus() && !outcome.success ==> final(state).store == old(state).store
                &&& ok && fee < modulus() && !outcome.success ==> (r matches Err((TxError::Reverted { gas_used, fee_used }, Some(ret)))
                    && gas_used.value() == outcome.gas_used && fee_used.value() == fee
                    && ret.caller@ == sender->0@ && ret.fee_used == fee_used && !ret.success
                    && ret.gas_used.value() == outcome.gas_used)
                &&& ok && fee < modulus() && outcome.success ==> (r matches Ok((ret, receipt))
                    && ret.success && ret.caller@ == sender->0@ && ret.fee_used.value() == fee
                    && ret.gas_used.value() == outcome.gas_used
                    && receipt@.status_code && receipt@.tx_gas_used.value() == outcome.gas_used
                    && receipt@.to == self.action.target() && receipt@.from == Some(sender->0@)
                    && (forall|k: Seq<u8>| k != account_key_of(sender->0@)
                        ==> #[trigger] final(state).store.read(branch@, k) == lookup(log, k))
                    && account_at(final(state).store, branch@, sender->0@).nonce.value() == sat_inc(a0.nonce.value())
                    && account_at(final(state).store, branch@, sender->0@).balance == account_in_log(log, sender->0@).balance
                    && account_at(final(state).store, branch@, sender->0@).code == account_in_log(log, sender->0@).code)
            }),
    {
        let (addr, account, gas_price) = match self.pre_exec(state, branch, sender) {
            Ok(t) => t,
            Err(e) => {
                return Err((e, None));
            },
        };
        let (from, to) = self.get_from_to(sender);
        let gas_used = U256::from_u64(outcome.gas_used);
        let fee_used = match gas_used.checked_mul(&gas_price) {
            Some(f) => f,
            None => {
                return Err((TxError::FeeOverflow, None));
            },
        };
        let ExecOutcome { success, gas_used: _, writes, logs, contract_addr, extra_data } = outcome;
        if success {
            let ghost s0 = state.store;
            let _ = apply_writes(&mut state.store, branch, writes);
            let ghost s1 = state.store;
            let mut acct = match read_account(&state.store, branch, &addr) {
                Ok(a) => a,
                Err(e) => {
                    return Err((TxError::Store(e), None));
                },
            };
            acct.nonce = account.nonce.saturating_add(&U256::from_u64(1));
            let _ = put_account(&mut state.store, branch, &addr, acct);
            proof {
                assert forall|k: Seq<u8>| k != account_key_of(sender->0@) implies
                    #[trigger] state.store.read(branch@, k) == lookup(s0.branch(branch@).history() + writes_view(writes@), k) by {
                    assert(state.store.read(branch@, k) == s1.read(branch@, k));
                }
                assert forall|nm: Seq<u8>| nm != branch@ implies (state.store.has(nm) == s0.has(nm) && (s0.has(nm) ==> state.store.branch(nm) == s0.branch(nm))) by {
                    assert(state.store.has(nm) == s1.has(nm));
                }
            }
        }
        let contract_addr = match &self.action {
            TransactionAction::Call(t) => copy_bytes(t),
            TransactionAction::Create => contract_addr,
        };
        let ret = ExecRet { success, gas_used, fee_used, extra_data, caller: addr, contract_addr, logs };
        let receipt = ret.gen_receipt(&from, &to);
        if ret.success {
            Ok((ret, receipt))
        } else {
            Err((TxError::Reverted { gas_used, fee_used }, Some(ret)))
        }
    }
}

/// A role's view of the ledger: its branch name, the hashes of the transactions
/// applied to the block in progress, and that block.
pub struct StateBranch {
    pub branch: Vec<u8>,
    pub tx_hashes_in_process: Vec<Vec<u8>>,
    pub block_in_process: Block,
}

/// `logs` are the EVM's `evm` logs as a receipt of transaction `tx_hash` at
/// index `tx_index` records them: in order, each numbered within the transaction.
pub open spec fn stamped_logs(logs: Seq<crate::block::LogView>, evm: Seq<crate::block::EvmLog>, tx_hash: Seq<u8>, tx_index: u64) -> bool {
    &&& logs.len() == evm.len()
    &&& forall|j: int| 0 <= j < logs.len() ==> #[trigger] logs[j] == (crate::block::LogView {
        address: evm[j].address@,
        topics: views_of(evm[j].topics@),
        data: evm[j].data@,
        tx_hash,
        tx_index,
        log_index_in_block: 0,
        log_index_in_tx: j as u64,
        removed: false,
    })
}

/// The fee of an execution: gas used times the effective gas price.
pub open spec fn tx_fee(tx: &Tx, outcome: &ExecOutcome) -> nat {
    (outcome.gas_used * tx.effective_gas_price().value()) as nat
}

impl StateBranch {
    /// The block in progress keeps its receipts keyed by transaction hash: in
    /// strictly increasing hash order.
    pub open spec fn wf(&self) -> bool {
        crate::block::receipts_sorted(self.block_in_process.header.receipts@)
    }

    /// The transaction gets executed: its version is new on the branch, the
    /// preflight passes and the fee fits in 256 bits.
    pub open spec fn tx_ok(&self, state: &State, tx: &Tx, sender: Option<Vec<u8>>, outcome: &ExecOutcome) -> bool {
        &&& !state.store.branch(self.branch@).has_version(self.next_version())
        &&& tx.preflight_ok(state.evm.gas_price, sender, state.store, self.branch@)
        &&& tx_fee(tx, outcome) < modulus()
    }

    /// The branch's history followed by the writes of a successful execution.
    pub open spec fn exec_log(&self, state: &State, outcome: &ExecOutcome) -> Seq<(Seq<u8>, EntryView)> {
        state.store.branch(self.branch@).history() + writes_view(outcome.writes@)
    }

    /// The version the next transaction's writes go to.
    pub open spec fn next_version(&self) -> VsVersion {
        VsVersion {
            block_height: self.block_in_process.header.height,
            tx_position: (1 + self.tx_hashes_in_process@.len()) as u64,
        }
    }

    /// Applies `tx` (hash `tx_hash`, signer `sender` as recovered from its
    /// signature) given what the EVM reported for it. On success the fee is
    /// charged and the transaction and its receipt join the block in progress.
    /// A transaction rejected before execution leaves everything as it was; one
    /// that the EVM reverted has its writes discarded and still pays the fee.
    pub fn apply_tx(&mut self, state: &mut State, tx: Tx, tx_hash: Vec<u8>, sender: Option<Vec<u8>>, outcome: ExecOutcome)
        -> (r: Result<(), TxError>)
        requires
            old(state).wf(),
            old(self).wf(),
            old(self).tx_hashes_in_process@.len() + 1 < u64::MAX,
        ensures
            final(state).wf(),
            final(self).wf(),
            final(state).same_but_store(old(state)),
            final(state).store.same_except(&old(state).store, old(self).branch@),
            old(state).store.has(old(self).branch@) ==> final(state).store.has(old(self).branch@),
            !old(state).store.has(old(self).branch@) ==> r == Err::<(), TxError>(TxError::Store(StoreError::NoSuchBranch)),
            final(self).branch == old(self).branch,
            !old(self).tx_ok(old(state), &tx, sender, &outcome) ==> r is Err,
            !old(self).tx_ok(old(state), &tx, sender, &outcome) ==> final(state).store.same(&old(state).store),
            !old(self).tx_ok(old(state), &tx, sender, &outcome) ==> *final(self) == *old(self),
            old(self).tx_ok(old(state), &tx, sender, &outcome) && !outcome.success ==> r is Err && *final(self) == *old(self),
            old(self).tx_ok(old(state), &tx, sender, &outcome) && !outcome.success ==> forall|k: Seq<u8>|
                k != account_key_of(sender->0@) ==> #[trigger] final(state).store.read(old(self).branch@, k)
                    == old(state).store.read(old(self).branch@, k),
            old(self).tx_ok(old(state), &tx, sender, &outcome) && !outcome.success ==> ({
                let a0 = account_at(old(state).store, old(self).branch@, sender->0@);
                let a1 = account_at(final(state).store, old(self).branch@, sender->0@);
                &&& a1.nonce == a0.nonce
                &&& a1.code == a0.code
                &&& a1.balance.value() == sat_sub(a0.balance.value(), tx_fee(&tx, &outcome))
            }),
            old(self).tx_ok(old(state), &tx, sender, &outcome) && outcome.success ==> r is Ok,
            old(self).tx_ok(old(state), &tx, sender, &outcome) && outcome.success ==> forall|k: Seq<u8>|
                k != account_key_of(sender->0@) ==> #[trigger] final(state).store.read(old(self).branch@, k)
                    == lookup(old(self).exec_log(old(state), &outcome), k),
            old(self).tx_ok(old(state), &tx, sender, &outcome) && outcome.success ==> ({
                let a0 = account_at(old(state).store, old(self).branch@, sender->0@);
                let aw = account_in_log(old(self).exec_log(old(state), &outcome), sender->0@);
                let a1 = account_at(final(state).store, old(self).branch@, sender->0@);
                &&& a1.nonce.value() == sat_inc(a0.nonce.value())
                &&& a1.code == aw.code
                &&& a1.balance.value() == sat_sub(aw.balance.value(), tx_fee(&tx, &outcome))
            }),
            old(self).tx_ok(old(state), &tx, sender, &outcome) && outcome.success ==> ({
                let v0 = old(state).store.branch(old(self).branch@).versions;
                let v1 = final(state).store.branch(old(self).branch@).versions;
                v1.len() == v0.len() + 1 && v1.last().id == old(self).next_version()
            }),
            old(self).tx_ok(old(state), &tx, sender, &outcome) && outcome.success ==> ({
                let rs = final(self).block_in_process.header.receipts@;
                &&& views_of(final(self).tx_hashes_in_process@) == views_of(old(self).tx_hashes_in_process@).push(tx_hash@)
                &&& final(self).block_in_process.header.height == old(self).block_in_process.header.height
                &&& final(self).block_in_process.txs@ == old(self).block_in_process.txs@.push(tx)
                &&& exists|i: int| 0 <= i < rs.len() && (#[trigger] rs[i])@.tx_hash == tx_hash@
                    && rs[i].tx_index == old(self).tx_hashes_in_process@.len()
                    && rs[i].status_code
                    && rs[i].tx_gas_used.value() == outcome.gas_used
                    && stamped_logs(rs[i]@.logs, outcome.logs@, tx_hash@, old(self).tx_hashes_in_process@.len() as u64)
            }),
    {
        let ghost s0 = state.store;
        let ghost b = self.branch@;
        let ver = VsVersion::new(
            self.block_in_process.header.height,
            1 + self.tx_hashes_in_process.len() as u64,
        );
        if let Err(e) = state.store.version_create_on(&self.branch, ver) {
            return Err(TxError::Store(e));
        }
        let ghost s1 = state.store;
        proof {
            crate::store::lemma_new_version_history(s0.branch(b), ver);
            assert(s1.branch(b).history() == s0.branch(b).history());
            assert forall|k: Seq<u8>| #[trigger] s1.read(b, k) == s0.read(b, k) by {}
        }
        let branch = copy_bytes(&self.branch);
        proof {
            assert(tx.preflight_ok(state.evm.gas_price, sender, s1, b) == tx.preflight_ok(state.evm.gas_price, sender, s0, b));
        }
        match tx.apply(state, &branch, &sender, outcome) {
            Ok((ret, receipt)) => {
                let ghost s2 = state.store;
                let _ = charge_fee(state, &branch, &ret.caller, ret.fee_used);
                proof {
                    assert forall|k: Seq<u8>| k != account_key_of(sender->0@) implies
                        #[trigger] state.store.read(b, k) == s2.read(b, k) by {
                        if ret.fee_used.value() == 0 {
                            assert(state.store == s2);
                        }
                    }
                    assert forall|nm: Seq<u8>| nm != b implies (state.store.has(nm) == s0.has(nm) && (s0.has(nm) ==> state.store.branch(nm) == s0.branch(nm))) by {
                        assert(state.store.has(nm) == s2.has(nm));
                        assert(s2.has(nm) == s1.has(nm));
                    }
                }
                self.record_tx(tx, tx_hash, &ret, receipt);
                Ok(())
            },
            Err((e, None)) => {
                let _ = state.store.version_pop_on(&self.branch);
                proof {
                    assert(state.store.branch(b).versions =~= s0.branch(b).versions);
                    assert(state.store.branch(b) == s0.branch(b));
                    assert forall|nm: Seq<u8>| (state.store.has(nm) == s0.has(nm) && (s0.has(nm) ==> state.store.branch(nm) == s0.branch(nm))) by {
                        if nm != b {
                            assert(state.store.has(nm) == s1.has(nm));
                        }
                    }
                }
                Err(e)
            },
            Err((e, Some(ret))) => {
                let _ = state.store.version_pop_on(&self.branch);
                proof {
                    assert(state.store.branch(b).versions =~= s0.branch(b).versions);
                    assert(state.store.branch(b) == s0.branch(b));
                    assert forall|nm: Seq<u8>| (state.store.has(nm) == s0.has(nm) && (s0.has(nm) ==> state.store.branch(nm) == s0.branch(nm))) by {
                        if nm != b {
                            assert(state.store.has(nm) == s1.has(nm));
                        }
                    }
                }
                settle_reverted(state, &branch, &ret.caller, ret.fee_used, self.block_in_process.header.height);
                Err(e)
            },
        }
    }

    /// Appends a successful transaction and its receipt to the block in progress.
    fn record_tx(&mut self, tx: Tx, tx_hash: Vec<u8>, ret: &ExecRet, receipt: Receipt)
        requires
            old(self).tx_hashes_in_process@.len() + 1 < u64::MAX,
        ensures
            final(self).branch == old(self).branch,
            views_of(final(self).tx_hashes_in_process@) == views_of(old(self).tx_hashes_in_process@).push(tx_hash@),
            final(self).block_in_process.header.height == old(self).block_in_process.header.height,
            final(self).block_in_process.txs@ == old(self).block_in_process.txs@.push(tx),
            crate::block::receipts_sorted(old(self).block_in_process.header.receipts@)
                ==> crate::block::receipts_sorted(final(self).block_in_process.header.receipts@),
            exists|i: int| 0 <= i < final(self).block_in_process.header.receipts@.len()
                && (#[trigger] final(self).block_in_process.header.receipts@[i])@.tx_hash == tx_hash@
                && final(self).block_in_process.header.receipts@[i].tx_index == old(self).tx_hashes_in_process@.len()
                && final(self).block_in_process.header.receipts@[i].status_code == receipt.status_code
                && final(self).block_in_process.header.receipts@[i].tx_gas_used == receipt.tx_gas_used
                && stamped_logs(final(self).block_in_process.header.receipts@[i]@.logs, ret.logs@, tx_hash@,
                    old(self).tx_hashes_in_process@.len() as u64),
    {
        let mut receipt = receipt;
        let index = self.tx_hashes_in_process.len() as u64;
        let ghost th = tx_hash;
        let ghost hs = self.tx_hashes_in_process@;
        self.tx_hashes_in_process.push(copy_bytes(&tx_hash));
        assert(views_of(self.tx_hashes_in_process@) =~= views_of(hs).push(th@));
        let mut logs = ret.gen_logs(&tx_hash);
        receipt.tx_index = index;
        receipt.add_logs(&mut logs);
        receipt.tx_hash = tx_hash;
        let ghost rl = receipt@.logs;
        let p = crate::block::insert_receipt(&mut self.block_in_process.header.receipts, receipt);
        assert(self.block_in_process.header.receipts@[p as int]@.tx_hash == th@);
        assert(self.block_in_process.header.receipts@[p as int]@.logs == rl);
        self.block_in_process.txs.push(tx);
    }
}

/// After a reverted execution whose version was popped: makes sure `branch`
/// has a version (one at `(height, 0)` where it has none) and charges the fee.
fn settle_reverted(state: &mut State, branch: &Vec<u8>, caller: &Vec<u8>, fee: U256, height: u64)
    requires
        old(state).wf(),
        old(state).store.has(branch@),
    ensures
        final(state).wf(),
        final(state).same_but_store(old(state)),
        final(state).store.same_except(&old(state).store, branch@),
        final(state).store.has(branch@),
        forall|k: Seq<u8>| k != account_key_of(caller@)
            ==> #[trigger] final(state).store.read(branch@, k) == old(state).store.read(branch@, k),
        account_at(final(state).store, branch@, caller@).nonce == account_at(old(state).store, branch@, caller@).nonce,
        account_at(final(state).store, branch@, caller@).code == account_at(old(state).store, branch@, caller@).code,
        account_at(final(state).store, branch@, caller@).balance.value()
            == sat_sub(account_at(old(state).store, branch@, caller@).balance.value(), fee.value()),
{
    let ghost s0 = state.store;
    let ghost b = branch@;
    if !state.store.branch_has_versions(branch) {
        let first = VsVersion::new(height, 0);
        let _ = state.store.version_create_on(branch, first);
        proof {
            crate::store::lemma_new_version_history(s0.branch(b), first);
        }
    }
    let ghost s4 = state.store;
    proof {
        assert(s4.branch(b).history() == s0.branch(b).history());
        assert forall|k: Seq<u8>| #[trigger] s4.read(b, k) == s0.read(b, k) by {}
    }
    let _ = charge_fee(state, branch, caller, fee);
    proof {
        assert forall|k: Seq<u8>| k != account_key_of(caller@) implies
            #[trigger] state.store.read(b, k) == s0.read(b, k) by {
            if fee.value() == 0 {
                assert(state.store == s4);
            }
            assert(s4.read(b, k) == s0.read(b, k));
        }
        assert forall|nm: Seq<u8>| nm != b implies (state.store.has(nm) == s0.has(nm) && (s0.has(nm) ==> state.store.branch(nm) == s0.branch(nm))) by {
            assert(state.store.has(nm) == s4.has(nm));
        }
    }
}

/// `sb` has just started block `h + 1` on top of `blocks` (of height `h`):
/// no transactions yet, the given proposer and timestamp, and the last
/// block's hash (empty for none) as the previous hash.
pub open spec fn block_started(sb: StateBranch, blocks: Seq<Block>, proposer: Seq<u8>, timestamp: u64) -> bool {
    &&& sb.tx_hashes_in_process@.len() == 0
    &&& sb.block_in_process.header.height == blocks.len() + 1
    &&& sb.block_in_process.header.proposer@ == proposer
    &&& sb.block_in_process.header.timestamp == timestamp
    &&& sb.block_in_process.header.receipts@.len() == 0
    &&& sb.block_in_process.txs@.len() == 0
    &&& sb.block_in_process.bloom@ == Seq::new(256, |i: int| 0u8)
    &&& sb.block_in_process.header_hash@.len() == 0
    &&& sb.block_in_process.header.tx_merkle.root_hash@.len() == 0
    &&& sb.block_in_process.header.tx_merkle.tree@.len() == 0
    &&& blocks.len() == 0 ==> sb.block_in_process.header.prev_hash@.len() == 0
    &&& blocks.len() > 0 ==> sb.block_in_process.header.prev_hash@ == blocks.last().header_hash@
}

/// In `store`, `name` is a child of Main's tip with one empty version `v` of its own.
pub open spec fn fresh_child(store: VersionedStore, name: Seq<u8>, v: VsVersion) -> bool {
    let m = store.branch(main_name());
    &&& store.has(name)
    &&& store.branch(name) == (BranchView {
        name,
        parent: Some(main_name()),
        fork_len: m.versions.len(),
        base: m.history(),
        versions: seq![VersionLogView { id: v, writes: Seq::empty() }],
    })
    &&& forall|k: Seq<u8>| #[trigger] store.read(name, k) == store.read(main_name(), k)
}

/// In `store`, `name` is a child of Main's tip with no version of its own yet.
pub open spec fn empty_child(store: VersionedStore, name: Seq<u8>) -> bool {
    let m = store.branch(main_name());
    &&& store.has(name)
    &&& store.branch(name) == (BranchView {
        name,
        parent: Some(main_name()),
        fork_len: m.versions.len(),
        base: m.history(),
        versions: Seq::empty(),
    })
    &&& forall|k: Seq<u8>| #[trigger] store.read(name, k) == store.read(main_name(), k)
}

/// After loading: Main without a dangling version of the next block, and
/// DeliverTx and CheckTx recreated empty on top of it.
pub open spec fn loaded(old_store: VersionedStore, blocks: Seq<Block>, store: VersionedStore) -> bool {
    let v = block_version(blocks);
    let m0 = old_store.branch(main_name());
    let m = store.branch(main_name());
    &&& store.has(main_name())
    &&& m0.has_version(v) ==> m == (BranchView { versions: m0.versions.drop_last(), ..m0 })
    &&& !m0.has_version(v) ==> m == m0
    &&& empty_child(store, deliver_tx_name())
    &&& empty_child(store, check_tx_name())
}

/// The version a block at height `h + 1` opens.
pub open spec fn block_version(blocks: Seq<Block>) -> VsVersion {
    VsVersion { block_height: (blocks.len() + 1) as u64, tx_position: 0 }
}

/// Why a block-level operation failed.
#[derive(Clone, Copy, Debug, PartialEq, Eq, Structural)]
pub enum LedgerError {
    Store(StoreError),
    /// The block in progress is not the one after the last committed block.
    NotNextHeight,
    /// The gas of the block's receipts does not fit in 256 bits.
    GasOverflow,
}

/// The hash that pads every block's transaction list, SHA3-256 of nothing.
pub open spec fn sentinel_hash() -> Seq<u8> {
    sha3_256_of(concat_all(seq![Seq::<u8>::empty()]))
}

impl StateBranch {
    pub fn new(branch: &Vec<u8>) -> (r: StateBranch)
        ensures
            r.branch@ == branch@,
            r.tx_hashes_in_process@.len() == 0,
            r.block_in_process.header.height == 0,
            r.block_in_process.txs@.len() == 0,
            r.block_in_process.header.receipts@.len() == 0,
    {
        StateBranch { branch: copy_bytes(branch), tx_hashes_in_process: Vec::new(), block_in_process: Block::default() }
    }

    /// The height of the last committed block, 0 if none.
    pub fn last_block_height(&self, state: &State) -> (r: u64)
        requires
            state.wf(),
        ensures
            r == state.blocks@.len(),
    {
        state.blocks.len() as u64
    }

    /// The hash of the last committed block, empty if none.
    /// The EVM's part of the world state, to change in place.
    pub fn get_evm_state_mut<'a>(&self, state: &'a mut State) -> (r: &'a mut crate::evm::State)
        ensures
            *r == old(state).evm,
            *final(state) == (State { evm: *final(r), ..*old(state) }),
    {
        &mut state.evm
    }

    /// The last committed block, if any.
    pub fn last_block<'a>(&self, state: &'a State) -> (r: Option<&'a Block>)
        ensures
            state.blocks@.len() == 0 <==> r is None,
            r matches Some(b) ==> *b == state.blocks@.last(),
    {
        let n = state.blocks.len();
        if n == 0 {
            None
        } else {
            Some(&state.blocks[n - 1])
        }
    }

    pub fn last_block_hash(&self, state: &State) -> (r: Vec<u8>)
        ensures
            state.blocks@.len() == 0 ==> r@.len() == 0,
            state.blocks@.len() > 0 ==> r@ == state.blocks@.last().header_hash@,
    {
        let n = state.blocks.len();
        if n == 0 {
            Vec::new()
        } else {
            copy_bytes(&state.blocks[n - 1].header_hash)
        }
    }

    /// Starts the next block: clears the transactions in progress, opens an
    /// empty block one above the last committed one and creates its version
    /// `(height, 0)` on this branch. On Main the EVM's vicinity is refreshed too.
    pub fn prepare_next_block(&mut self, state: &mut State, proposer: Vec<u8>, timestamp: u64) -> (r: Result<(), StoreError>)
        requires
            old(state).wf(),
        ensures
            final(state).wf(),
            final(state).chain_id == old(state).chain_id,
            final(state).blocks == old(state).blocks,
            final(state).evm.gas_price == old(state).evm.gas_price,
            final(state).evm.block_hashes@ == old(state).evm.block_hashes@,
            final(self).branch == old(self).branch,
            old(self).wf() ==> final(self).wf(),
            r is Ok <==> old(state).store.has(old(self).branch@) && !old(state).store.branch(old(self).branch@).has_version(
                VsVersion { block_height: (old(state).blocks@.len() + 1) as u64, tx_position: 0 }),
            r is Err ==> final(state).store == old(state).store && *final(self) == *old(self),
            r is Ok ==> ({
                let b = old(self).branch@;
                let h = (old(state).blocks@.len() + 1) as u64;
                &&& final(state).store.same_except(&old(state).store, b)
                &&& final(state).store.has(b)
                &&& final(state).store.branch(b) == (BranchView {
                    versions: old(state).store.branch(b).versions.push(VersionLogView { id: VsVersion { block_height: h, tx_position: 0 }, writes: Seq::empty() }),
                    ..old(state).store.branch(b)
                })
                &&& forall|k: Seq<u8>| #[trigger] final(state).store.read(b, k) == old(state).store.read(b, k)
                &&& final(self).tx_hashes_in_process@.len() == 0
                &&& final(self).block_in_process.header.height == h
                &&& final(self).block_in_process.header.proposer@ == proposer@
                &&& final(self).block_in_process.header.timestamp == timestamp
                &&& final(self).block_in_process.header.receipts@.len() == 0
                &&& final(self).block_in_process.txs@.len() == 0
                &&& final(self).block_in_process.bloom@ == Seq::new(256, |i: int| 0u8)
                &&& final(self).block_in_process.header_hash@.len() == 0
                &&& final(self).block_in_process.header.tx_merkle.root_hash@.len() == 0
                &&& final(self).block_in_process.header.tx_merkle.tree@.len() == 0
                &&& old(state).blocks@.len() == 0 ==> final(self).block_in_process.header.prev_hash@.len() == 0
                &&& old(state).blocks@.len() > 0 ==> final(self).block_in_process.header.prev_hash@ == old(state).blocks@.last().header_hash@
                &&& b == main_name() ==> final(state).evm.vicinity.block_coinbase@ == fit_bytes(proposer@, 20)
                    && final(state).evm.vicinity.block_timestamp.value() == timestamp
                    && final(state).evm.vicinity.chain_id.value() == old(state).chain_id
                    && final(state).evm.vicinity.origin@ == Seq::new(20, |i: int| 0u8)
                    && final(state).evm.vicinity.block_difficulty.value() == 0
                    && final(state).evm.vicinity.block_number.value() == old(state).blocks@.len()
                &&& b != main_name() ==> final(state).evm == old(state).evm
            }),
    {
        let h = self.last_block_height(state);
        let prev_hash = self.last_block_hash(state);
        let ver = VsVersion::new(h + 1, 0);
        if let Err(e) = state.store.version_create_on(&self.branch, ver) {
            return Err(e);
        }
        proof {
            crate::store::lemma_new_version_history(old(state).store.branch(self.branch@), ver);
            assert forall|k: Seq<u8>| #[trigger] state.store.read(self.branch@, k) == old(state).store.read(self.branch@, k) by {}
        }
        self.tx_hashes_in_process = Vec::new();
        let coinbase = crate::common::tm_proposer_to_evm_format(&proposer);
        self.block_in_process = Block::new(h + 1, proposer, timestamp, prev_hash);
        let main = main_branch_name();
        if crate::bytes::bytes_eq(&self.branch, &main) {
            state.evm.update_vicinity(U256::from_u64(state.chain_id), coinbase, U256::from_u64(timestamp));
        }
        Ok(())
    }

    /// On startup: drops a version `(last height + 1, 0)` left on this branch
    /// by a block that never committed.
    pub fn clean_up(&self, state: &mut State) -> (r: Result<(), StoreError>)
        requires
            old(state).wf(),
        ensures
            r is Ok,
            final(state).wf(),
            final(state).same_but_store(old(state)),
            ({
                let b = self.branch@;
                let v = VsVersion { block_height: (old(state).blocks@.len() + 1) as u64, tx_position: 0 };
                &&& !(old(state).store.has(b) && old(state).store.branch(b).has_version(v)) ==> final(state).store == old(state).store
                &&& old(state).store.has(b) && old(state).store.branch(b).has_version(v) ==>
                    final(state).store.same_except(&old(state).store, b)
                    && final(state).store.has(b)
                    && final(state).store.branch(b) == (BranchView {
                        versions: old(state).store.branch(b).versions.drop_last(),
                        ..old(state).store.branch(b)
                    })
            }),
    {
        let ver = VsVersion::new(self.last_block_height(state) + 1, 0);
        if state.store.version_exists_on(&self.branch, ver) {
            let _ = state.store.version_pop_on(&self.branch);
        }
        Ok(())
    }

    /// Closes the block in progress on Main: pads the transaction hashes with
    /// the sentinel hash, stores the Merkle tree, fills in the block gas of
    /// every receipt, builds the bloom, hashes the header, and appends the
    /// block and its hash to the chain. Leaves an empty block in progress.
    pub fn commit(&mut self, state: &mut State) -> (r: Result<(), LedgerError>)
        requires
            old(state).wf(),
            old(self).wf(),
        ensures
            final(state).wf(),
            final(state).store == old(state).store,
            final(self).branch == old(self).branch,
            final(self).wf(),
            r is Ok <==> old(self).block_in_process.header.height == old(state).blocks@.len() + 1
                && old(state).blocks@.len() + 1 < u64::MAX
                && gas_sum(receipts_view(old(self).block_in_process.header.receipts@)) < modulus(),
            r is Err ==> *final(state) == *old(state),
            r is Ok ==> ({
                let blk = final(state).blocks@.last();
                let leaves = views_of(old(self).tx_hashes_in_process@).push(sentinel_hash());
                let rs = receipts_view(old(self).block_in_process.header.receipts@);
                &&& final(state).blocks@.len() == old(state).blocks@.len() + 1
                &&& final(state).blocks@.drop_last() == old(state).blocks@
                &&& final(state).evm.block_hashes@.len() == old(state).evm.block_hashes@.len() + 1
                &&& final(state).evm.block_hashes@.drop_last() == old(state).evm.block_hashes@
                &&& final(state).evm.gas_price == old(state).evm.gas_price
                &&& final(state).evm.block_gas_limit == old(state).evm.block_gas_limit
                &&& final(state).evm.block_base_fee_per_gas == old(state).evm.block_base_fee_per_gas
                &&& final(state).evm.vicinity == old(state).evm.vicinity
                &&& final(state).chain_id == old(state).chain_id
                &&& final(state).chain_name == old(state).chain_name
                &&& final(state).chain_version == old(state).chain_version
                &&& final(state).evm.block_hashes@.last()@ == fit_bytes(blk.header_hash@, 32)
                &&& blk.header.height == old(self).block_in_process.header.height
                &&& blk.header.proposer@ == old(self).block_in_process.header.proposer@
                &&& blk.header.timestamp == old(self).block_in_process.header.timestamp
                &&& blk.header.prev_hash@ == old(self).block_in_process.header.prev_hash@
                &&& blk.txs == old(self).block_in_process.txs
                &&& blk.header.tx_merkle.root_hash@ == merkle_root(leaves)
                &&& blk.header.tx_merkle.root_hash@.len() == 32
                &&& crate::block::levels_chained(crate::block::tree_view(blk.header.tx_merkle.tree@))
                &&& views_of(blk.header.tx_merkle.tree@[0]@) == leaves
                &&& blk.header_hash@ == blk.header.spec_hash()
                &&& blk.header.receipts@.len() == rs.len()
                &&& forall|i: int| 0 <= i < rs.len() ==> (#[trigger] blk.header.receipts@[i])@
                    == (ReceiptView { block_gas_used: blk.header.receipts@[i].block_gas_used, ..rs[i] })
                    && blk.header.receipts@[i].block_gas_used.value() == gas_sum(rs)
                &&& blk.bloom@ == accrue_all(Seq::new(256, |i: int| 0u8), receipts_inputs(rs))
                &&& final(self).tx_hashes_in_process@.len() == 0
            }),
    {
        if self.block_in_process.header.height != self.last_block_height(state) + 1 || state.blocks.len() as u64 >= u64::MAX - 1 {
            return Err(LedgerError::NotNextHeight);
        }
        let total = match crate::block::total_gas(&self.block_in_process.header.receipts) {
            Some(t) => t,
            None => {
                return Err(LedgerError::GasOverflow);
            },
        };
        let ghost hashes0 = views_of(self.tx_hashes_in_process@);
        let ghost rs0 = receipts_view(self.block_in_process.header.receipts@);
        let empty: Vec<Vec<u8>> = vec![Vec::new()];
        let sentinel = crate::common::hash_sha3_256(&empty);
        proof {
            assert(views_of(empty@) =~= seq![Seq::<u8>::empty()]);
        }
        self.tx_hashes_in_process.push(sentinel);
        assert(views_of(self.tx_hashes_in_process@) =~= hashes0.push(sentinel_hash()));
        let mt = crate::block::merkle_tree(&self.tx_hashes_in_process);
        let mut block = Block::default();
        std::mem::swap(&mut block, &mut self.block_in_process);
        block.header.tx_merkle = mt;
        let mut bloom = crate::block::empty_bloom();
        crate::block::finalize_receipts(&mut block.header.receipts, total, &mut bloom);
        block.bloom = bloom;
        block.header_hash = block.header.hash();
        let evm_hash = crate::common::block_hash_to_evm_format(&block.header_hash);
        let ghost blocks0 = state.blocks@;
        let ghost hashes0 = state.evm.block_hashes@;
        state.evm.block_hashes.push(evm_hash);
        assert(state.evm.block_hashes@.drop_last() =~= hashes0);
        state.blocks.push(block);
        assert(state.blocks@.drop_last() =~= blocks0);
        self.tx_hashes_in_process = Vec::new();
        Ok(())
    }
}

impl State {
    /// Drops CheckTx and DeliverTx where present and recreates both as
    /// children of Main's tip.
    pub fn refresh_branches(&mut self) -> (r: Result<(), StoreError>)
        requires
            old(self).wf(),
        ensures
            final(self).wf(),
            final(self).same_but_store(old(self)),
            r is Ok <==> old(self).store.has(main_name()),
            r is Ok ==> ({
                let m = old(self).store.branch(main_name());
                &&& final(self).store.has(main_name())
                &&& final(self).store.branch(main_name()) == m
                &&& final(self).store.has(deliver_tx_name())
                &&& final(self).store.branch(deliver_tx_name()) == (BranchView {
                    name: deliver_tx_name(),
                    parent: Some(main_name()),
                    fork_len: m.versions.len(),
                    base: m.history(),
                    versions: Seq::empty(),
                })
                &&& final(self).store.has(check_tx_name())
                &&& final(self).store.branch(check_tx_name()) == (BranchView {
                    name: check_tx_name(),
                    parent: Some(main_name()),
                    fork_len: m.versions.len(),
                    base: m.history(),
                    versions: Seq::empty(),
                })
            }),
    {
        let main = main_branch_name();
        let deliver = deliver_tx_branch_name();
        let check = check_tx_branch_name();
        if !self.store.has_branch(&main) {
            return Err(StoreError::NoSuchBranch);
        }
        let ghost m = self.store.branch(main_name());
        assert(main_name() != check_tx_name());
        assert(main_name() != deliver_tx_name());
        assert(deliver_tx_name() != check_tx_name());
        let _ = self.store.branch_remove(&check);
        let _ = self.store.branch_remove(&deliver);
        assert(self.store.branch(main_name()) == m);
        let _ = self.store.branch_create_from(&deliver, &main, None);
        let ghost mid = self.store;
        let _ = self.store.branch_create_from(&check, &main, None);
        assert(self.store.branch(deliver_tx_name()) == mid.branch(deliver_tx_name()));
        Ok(())
    }
}

/// The three role branches over one world state.
pub struct Ledger {
    pub state: State,
    pub main: StateBranch,
    pub deliver_tx: StateBranch,
    pub check_tx: StateBranch,
    /// Numbers the ephemeral branches of transient calls.
    pub tmp_id: u64,
}

impl Ledger {
    pub open spec fn wf(&self) -> bool {
        &&& self.state.wf()
        &&& self.main.branch@ == main_name()
        &&& self.deliver_tx.branch@ == deliver_tx_name()
        &&& self.check_tx.branch@ == check_tx_name()
        &&& self.main.wf()
        &&& self.deliver_tx.wf()
        &&& self.check_tx.wf()
    }

    /// A fresh ledger: Main with an initial version `(0, 0)`, empty DeliverTx
    /// and CheckTx, and the chain's settings (gas price 10, block gas limit
    /// `u128::MAX` and base fee 0 where none is given).
    pub fn new(
        chain_id: u64,
        chain_name: Vec<u8>,
        chain_version: Vec<u8>,
        gas_price: Option<u128>,
        block_gas_limit: Option<u128>,
        block_base_fee_per_gas: Option<u128>,
    ) -> (r: Result<Ledger, StoreError>)
        ensures
            r is Ok,
            r matches Ok(l) ==> l.wf()
                && l.state.chain_id == chain_id
                && l.state.chain_name == chain_name
                && l.state.chain_version == chain_version
                && l.main.tx_hashes_in_process@.len() == 0
                && l.state.blocks@.len() == 0
                && l.state.store.has(main_name())
                && l.state.store.has(deliver_tx_name())
                && l.state.store.has(check_tx_name())
                && l.state.store.branch(main_name()).versions.len() == 1
                && l.state.store.branch(main_name()).history().len() == 0
                && l.state.evm.gas_price.value() == match gas_price {
                    Some(p) => p as nat,
                    None => GAS_PRICE_MIN as nat,
                }
                && l.state.evm.block_gas_limit.value() == match block_gas_limit {
                    Some(p) => p as nat,
                    None => u128::MAX as nat,
                }
                && l.state.evm.block_base_fee_per_gas.value() == match block_base_fee_per_gas {
                    Some(p) => p as nat,
                    None => 0,
                },
    {
        let main = main_branch_name();
        let deliver = deliver_tx_branch_name();
        let check = check_tx_branch_name();
        assert(main@ != deliver@ && main@ != check@ && deliver@ != check@);
        let mut store = VersionedStore::new();
        let _ = store.branch_create(&main);
        let _ = store.version_create_on(&main, VsVersion::new(0, 0));
        let ghost mb = store.branch(main_name());
        assert(mb.base.len() == 0 && mb.versions.len() == 1 && mb.versions[0].writes.len() == 0);
        let _ = store.branch_create(&deliver);
        let _ = store.branch_create(&check);
        assert(store.branch(main_name()) == mb);
        assert(store.branch(main_name()).versions.len() == 1);
        assert(mb.versions.drop_last() =~= Seq::<VersionLogView>::empty());
        assert(crate::store::flatten(mb.versions.drop_last()) =~= Seq::<(Seq<u8>, EntryView)>::empty());
        assert(mb.versions.last().writes =~= Seq::<(Seq<u8>, EntryView)>::empty());
        assert(crate::store::flatten(mb.versions) =~= Seq::<(Seq<u8>, EntryView)>::empty());
        assert(mb.history() =~= Seq::empty());
        let evm = crate::evm::State {
            gas_price: match gas_price {
                Some(p) => U256::from_u128(p),
                None => U256::from_u64(GAS_PRICE_MIN),
            },
            block_gas_limit: match block_gas_limit {
                Some(p) => U256::from_u128(p),
                None => U256::from_u128(u128::MAX),
            },
            block_base_fee_per_gas: match block_base_fee_per_gas {
                Some(p) => U256::from_u128(p),
                None => U256::zero(),
            },
            block_hashes: Vec::new(),
            vicinity: crate::evm::OvrVicinity::new(),
        };
        let state = State { store, chain_id, chain_name, chain_version, evm, blocks: Vec::new() };
        Ok(Ledger {
            state,
            main: StateBranch::new(&main),
            deliver_tx: StateBranch::new(&deliver),
            check_tx: StateBranch::new(&check),
            tmp_id: 0,
        })
    }

    /// BeginBlock: starts the next block on Main, recreates DeliverTx and
    /// CheckTx as children of Main's tip, and starts the block on both.
    pub fn consensus_refresh(&mut self, proposer: Vec<u8>, timestamp: u64) -> (r: Result<(), LedgerError>)
        requires
            old(self).wf(),
        ensures
            final(self).wf(),
            ({
                let v = block_version(old(self).state.blocks@);
                let m0 = old(self).state.store.branch(main_name());
                &&& r is Ok <==> old(self).state.store.has(main_name()) && !m0.has_version(v)
                &&& r is Ok ==> final(self).state.blocks == old(self).state.blocks
                    && final(self).state.store.has(main_name())
                    && final(self).state.store.branch(main_name()) == (BranchView {
                        versions: m0.versions.push(VersionLogView { id: v, writes: Seq::empty() }), ..m0 })
                    && (forall|k: Seq<u8>| #[trigger] final(self).state.store.read(main_name(), k)
                        == old(self).state.store.read(main_name(), k))
                    && fresh_child(final(self).state.store, deliver_tx_name(), v)
                    && fresh_child(final(self).state.store, check_tx_name(), v)
                    && block_started(final(self).main, old(self).state.blocks@, proposer@, timestamp)
                    && block_started(final(self).deliver_tx, old(self).state.blocks@, proposer@, timestamp)
                    && block_started(final(self).check_tx, old(self).state.blocks@, proposer@, timestamp)
                    && final(self).state.evm.vicinity.block_coinbase@ == fit_bytes(proposer@, 20)
                    && final(self).state.evm.vicinity.block_timestamp.value() == timestamp
                    && final(self).state.evm.vicinity.chain_id.value() == old(self).state.chain_id
                    && final(self).state.evm.vicinity.origin@ == Seq::new(20, |i: int| 0u8)
                    && final(self).state.evm.vicinity.block_difficulty.value() == 0
                    && final(self).state.evm.vicinity.block_number.value() == old(self).state.blocks@.len()
            }),
    {
        self.refresh_inner(proposer, timestamp, false)
    }

    /// On loading: drops a dangling next-block version on Main and recreates
    /// DeliverTx and CheckTx as children of Main's tip.
    pub fn loading_refresh(&mut self) -> (r: Result<(), LedgerError>)
        requires
            old(self).wf(),
        ensures
            final(self).wf(),
            final(self).state.same_but_store(&old(self).state),
            r is Ok <==> old(self).state.store.has(main_name()),
            r is Ok ==> loaded(old(self).state.store, old(self).state.blocks@, final(self).state.store),
            final(self).main == old(self).main && final(self).deliver_tx == old(self).deliver_tx
                && final(self).check_tx == old(self).check_tx,
    {
        self.refresh_inner(Vec::new(), 0, true)
    }

    fn refresh_inner(&mut self, proposer: Vec<u8>, timestamp: u64, is_loading: bool) -> (r: Result<(), LedgerError>)
        requires
            old(self).wf(),
        ensures
            final(self).wf(),
            is_loading ==> (r is Ok <==> old(self).state.store.has(main_name())),
            is_loading ==> final(self).state.same_but_store(&old(self).state),
            is_loading ==> final(self).main == old(self).main && final(self).deliver_tx == old(self).deliver_tx
                && final(self).check_tx == old(self).check_tx,
            r is Ok ==> ({
                let m = final(self).state.store.branch(main_name());
                &&& final(self).state.store.has(main_name())
                &&& final(self).state.store.has(deliver_tx_name())
                &&& final(self).state.store.has(check_tx_name())
                &&& final(self).state.store.branch(deliver_tx_name()).parent == Some(main_name())
                &&& final(self).state.store.branch(deliver_tx_name()).base == m.history()
                &&& final(self).state.store.branch(check_tx_name()).base == m.history()
            }),
            r is Ok && is_loading ==> loaded(old(self).state.store, old(self).state.blocks@, final(self).state.store),
            !is_loading ==> ({
                let v = block_version(old(self).state.blocks@);
                let m0 = old(self).state.store.branch(main_name());
                &&& r is Ok <==> old(self).state.store.has(main_name()) && !m0.has_version(v)
                &&& r is Ok ==> final(self).state.blocks == old(self).state.blocks
                    && final(self).state.store.has(main_name())
                    && final(self).state.store.branch(main_name()) == (BranchView {
                        versions: m0.versions.push(VersionLogView { id: v, writes: Seq::empty() }), ..m0 })
                    && (forall|k: Seq<u8>| #[trigger] final(self).state.store.read(main_name(), k)
                        == old(self).state.store.read(main_name(), k))
                    && fresh_child(final(self).state.store, deliver_tx_name(), v)
                    && fresh_child(final(self).state.store, check_tx_name(), v)
                    && block_started(final(self).main, old(self).state.blocks@, proposer@, timestamp)
                    && block_started(final(self).deliver_tx, old(self).state.blocks@, proposer@, timestamp)
                    && block_started(final(self).check_tx, old(self).state.blocks@, proposer@, timestamp)
                    && final(self).state.evm.vicinity.block_coinbase@ == fit_bytes(proposer@, 20)
                    && final(self).state.evm.vicinity.block_timestamp.value() == timestamp
                    && final(self).state.evm.vicinity.chain_id.value() == old(self).state.chain_id
                    && final(self).state.evm.vicinity.origin@ == Seq::new(20, |i: int| 0u8)
                    && final(self).state.evm.vicinity.block_difficulty.value() == 0
                    && final(self).state.evm.vicinity.block_number.value() == old(self).state.blocks@.len()
            }),
    {
        assert(main_name() != deliver_tx_name() && main_name() != check_tx_name() && deliver_tx_name() != check_tx_name());
        if is_loading {
            let _ = self.main.clean_up(&mut self.state);
        } else {
            // Main opens its block version before DeliverTx is forked, so that
            // the version DeliverTx opens for the same block lies after the fork
            // point and merging it back at commit does not collide.
            if let Err(e) = self.main.prepare_next_block(&mut self.state, copy_bytes(&proposer), timestamp) {
                return Err(LedgerError::Store(e));
            }
        }
        let ghost s1 = self.state.store;
        if let Err(e) = self.state.refresh_branches() {
            return Err(LedgerError::Store(e));
        }
        let ghost s2 = self.state.store;
        proof {
            assert forall|k: Seq<u8>| #[trigger] s2.read(main_name(), k) == s1.read(main_name(), k) by {}
        }
        if !is_loading {
            if let Err(e) = self.deliver_tx.prepare_next_block(&mut self.state, copy_bytes(&proposer), timestamp) {
                return Err(LedgerError::Store(e));
            }
            let ghost s3 = self.state.store;
            if let Err(e) = self.check_tx.prepare_next_block(&mut self.state, proposer, timestamp) {
                return Err(LedgerError::Store(e));
            }
            proof {
                let m = self.state.store.branch(main_name());
                let v = block_version(old(self).state.blocks@);
                assert(self.state.store.branch(main_name()) == s3.branch(main_name()));
                assert(s3.branch(main_name()) == s2.branch(main_name()));
                assert(s2.branch(main_name()) == s1.branch(main_name()));
                assert(self.state.store.branch(deliver_tx_name()) == s3.branch(deliver_tx_name()));
                crate::store::lemma_new_version_history(s2.branch(deliver_tx_name()), v);
                crate::store::lemma_new_version_history(s3.branch(check_tx_name()), v);
                assert(s3.branch(check_tx_name()) == s2.branch(check_tx_name()));
                assert(self.state.store.branch(deliver_tx_name()).versions =~= seq![VersionLogView { id: v, writes: Seq::empty() }]);
                assert(self.state.store.branch(check_tx_name()).versions =~= seq![VersionLogView { id: v, writes: Seq::empty() }]);
                assert forall|k: Seq<u8>| #[trigger] self.state.store.read(deliver_tx_name(), k)
                    == self.state.store.read(main_name(), k) by {}
                assert forall|k: Seq<u8>| #[trigger] self.state.store.read(check_tx_name(), k)
                    == self.state.store.read(main_name(), k) by {}
                assert(s3.branch(main_name()) == s2.branch(main_name()));
                assert(self.state.store.has(deliver_tx_name()) == s3.has(deliver_tx_name()));
                assert(self.state.store.branch(deliver_tx_name()) == s3.branch(deliver_tx_name()));
                assert forall|k: Seq<u8>| #[trigger] self.state.store.read(main_name(), k)
                    == old(self).state.store.read(main_name(), k) by {
                    assert(s2.read(main_name(), k) == s1.read(main_name(), k));
                }
            }
        }
        Ok(())
    }

    /// Commit: moves DeliverTx's block in progress into Main, merges DeliverTx
    /// into Main (which removes it) and commits the block on Main. Returns the
    /// new block's hash.
    pub fn commit(&mut self) -> (r: Result<Vec<u8>, LedgerError>)
        requires
            old(self).wf(),
        ensures
            final(self).wf(),
            r is Ok <==> ({
                let st = old(self).state.store;
                let d = st.branch(deliver_tx_name());
                let blk = old(self).deliver_tx.block_in_process;
                &&& blk.header.height == old(self).state.blocks@.len() + 1
                &&& old(self).state.blocks@.len() + 1 < u64::MAX
                &&& gas_sum(receipts_view(blk.header.receipts@)) < modulus()
                &&& st.has(deliver_tx_name()) && st.parent_ok(deliver_tx_name())
                &&& !st.branch(d.parent->0).collides(d, d.fork_len)
            }),
            r is Err ==> *final(self) == *old(self),
            r matches Ok(h) ==> ({
                let nb = final(self).state.blocks@.last();
                let pb = old(self).deliver_tx.block_in_process;
                &&& final(self).state.blocks@.len() == old(self).state.blocks@.len() + 1
                &&& final(self).state.blocks@.drop_last() == old(self).state.blocks@
                &&& h@ == nb.header_hash@
                &&& h@ == nb.header.spec_hash()
                &&& nb.header.tx_merkle.root_hash@.len() > 0
                &&& nb.header.height == pb.header.height
                &&& nb.header.proposer@ == pb.header.proposer@
                &&& nb.header.timestamp == pb.header.timestamp
                &&& nb.header.prev_hash@ == pb.header.prev_hash@
                &&& nb.txs == pb.txs
                &&& !final(self).state.store.has(deliver_tx_name())
            }),
            r is Ok && old(self).state.store.branch(deliver_tx_name()).parent == Some(main_name())
                && old(self).state.store.branch(deliver_tx_name()).base
                == old(self).state.store.branch(main_name()).history() ==> forall|k: Seq<u8>|
                #[trigger] final(self).state.store.read(main_name(), k)
                    == old(self).state.store.read(deliver_tx_name(), k),
    {
        if self.deliver_tx.block_in_process.header.height != self.state.blocks.len() as u64 + 1
            || self.state.blocks.len() as u64 >= u64::MAX - 1 {
            return Err(LedgerError::NotNextHeight);
        }
        if crate::block::total_gas(&self.deliver_tx.block_in_process.header.receipts).is_none() {
            return Err(LedgerError::GasOverflow);
        }
        if let Err(e) = merge_deliver_tx(&mut self.state) {
            return Err(LedgerError::Store(e));
        }
        std::mem::swap(&mut self.main.block_in_process, &mut self.deliver_tx.block_in_process);
        std::mem::swap(&mut self.main.tx_hashes_in_process, &mut self.deliver_tx.tx_hashes_in_process);
        let ghost s1 = self.state.store;
        let r = self.main.commit(&mut self.state);
        assert(r is Ok);
        assert(self.state.store == s1);
        Ok(self.main.last_block_hash(&self.state))
    }
}

/// A contract to deploy at genesis under a fixed salt.
pub struct InitalContract {
    pub from: Vec<u8>,
    pub salt: Vec<u8>,
    pub bytecode: Vec<u8>,
}

impl InitalContract {
    pub fn new(from: Vec<u8>, salt: Vec<u8>) -> (r: InitalContract)
        ensures
            r.from@ == from@,
            r.salt@ == salt@,
            r.bytecode@.len() == 0,
    {
        InitalContract { from, salt, bytecode: Vec::new() }
    }
}

/// The genesis allocation: balances, and contracts to deploy.
pub struct InitalState {
    pub addr_to_amount: Vec<(Vec<u8>, U256)>,
    pub inital_contracts: Vec<InitalContract>,
}

/// The writes that credit each genesis balance to a fresh account.
pub open spec fn genesis_writes(amounts: Seq<(Vec<u8>, U256)>) -> Seq<(Seq<u8>, EntryView)> {
    amounts.map_values(|p: (Vec<u8>, U256)| (account_key_of(p.0@), EntryView::Account(
        OvrAccountView { nonce: zero_u256(), balance: p.1, code: Seq::empty() })))
}

/// What a receipt and its logs come to for one applied transaction.
pub struct ApplyResp {
    pub receipt: Option<Receipt>,
    pub logs: Option<Vec<crate::block::Log>>,
}

impl Ledger {
    /// Writes the genesis balances on Main, in order.
    pub fn load_genesis(&mut self, init: &InitalState) -> (r: Result<(), StoreError>)
        requires
            old(self).wf(),
        ensures
            final(self).wf(),
            r is Ok <==> old(self).state.store.has(main_name())
                && old(self).state.store.branch(main_name()).versions.len() > 0,
            r is Err ==> final(self).state.store == old(self).state.store,
            r is Ok ==> final(self).state.store.same_except(&old(self).state.store, main_name())
                && final(self).state.store.branch(main_name()).history()
                    == old(self).state.store.branch(main_name()).history() + genesis_writes(init.addr_to_amount@),
    {
        let main = main_branch_name();
        if !self.state.store.branch_has_versions(&main) {
            return Err(StoreError::NoVersion);
        }
        let ghost s0 = self.state.store;
        let ghost gw = genesis_writes(init.addr_to_amount@);
        let mut i: usize = 0;
        while i < init.addr_to_amount.len()
            invariant
                main@ == main_name(),
                gw == genesis_writes(init.addr_to_amount@),
                i <= init.addr_to_amount@.len(),
                self.wf(),
                self.state.store.has(main_name()),
                self.state.store.branch(main_name()).versions.len() == s0.branch(main_name()).versions.len(),
                s0.branch(main_name()).versions.len() > 0,
                self.state.store.same_except(&s0, main_name()),
                self.state.store.branch(main_name()).history() == s0.branch(main_name()).history() + gw.take(i as int),
            decreases init.addr_to_amount.len() - i,
        {
            let entry = &init.addr_to_amount[i];
            let acct = OvrAccount::from_balance(entry.1);
            assert(acct@.code =~= Seq::<u8>::empty());
            assert(acct@.nonce == zero_u256());
            let ghost before = self.state.store;
            let _ = put_account(&mut self.state.store, &main, &entry.0, acct);
            proof {
                assert(gw.take(i + 1) =~= gw.take(i as int).push(gw[i as int]));
                assert(s0.branch(main_name()).history() + gw.take(i + 1)
                    =~= (s0.branch(main_name()).history() + gw.take(i as int)).push(gw[i as int]));
                assert forall|nm: Seq<u8>| nm != main_name() implies (self.state.store.has(nm) == s0.has(nm)
                    && (s0.has(nm) ==> self.state.store.branch(nm) == s0.branch(nm))) by {
                    assert(self.state.store.has(nm) == before.has(nm));
                }
            }
            i += 1;
        }
        assert(gw.take(init.addr_to_amount@.len() as int) =~= gw);
        Ok(())
    }

    /// Rebuilds a ledger from a loaded world state and Main's branch record:
    /// DeliverTx and CheckTx start empty, a dangling next-block version on Main
    /// is dropped and both are recreated as children of Main's tip.
    pub fn load_from_snapshot(state: State, main: StateBranch) -> (r: Result<Ledger, LedgerError>)
        requires
            state.wf(),
            main.wf(),
            main.branch@ == main_name(),
        ensures
            r is Ok <==> state.store.has(main_name()),
            r matches Ok(l) ==> l.wf() && l.state.same_but_store(&state)
                && loaded(state.store, state.blocks@, l.state.store)
                && l.main == main
                && l.deliver_tx.tx_hashes_in_process@.len() == 0
                && l.check_tx.tx_hashes_in_process@.len() == 0,
    {
        let deliver = deliver_tx_branch_name();
        let check = check_tx_branch_name();
        let mut l = Ledger {
            state,
            main,
            deliver_tx: StateBranch::new(&deliver),
            check_tx: StateBranch::new(&check),
            tmp_id: 0,
        };
        match l.loading_refresh() {
            Ok(()) => Ok(l),
            Err(e) => Err(e),
        }
    }
}

/// Merges DeliverTx into its parent. Where it was forked from Main's current
/// tip, Main then reads exactly what DeliverTx read.
fn merge_deliver_tx(state: &mut State) -> (r: Result<(), StoreError>)
    requires
        old(state).wf(),
    ensures
        final(state).wf(),
        final(state).same_but_store(old(state)),
        r is Ok <==> old(state).store.has(deliver_tx_name()) && old(state).store.parent_ok(deliver_tx_name())
            && !old(state).store.branch(old(state).store.branch(deliver_tx_name()).parent->0).collides(
                old(state).store.branch(deliver_tx_name()), old(state).store.branch(deliver_tx_name()).fork_len),
        r is Ok ==> old(state).store.has(deliver_tx_name()) && !final(state).store.has(deliver_tx_name()),
        r is Err ==> *final(state) == *old(state),
        r is Ok && old(state).store.branch(deliver_tx_name()).parent == Some(main_name())
            && old(state).store.branch(deliver_tx_name()).base == old(state).store.branch(main_name()).history()
            ==> final(state).store.has(main_name()) && forall|k: Seq<u8>|
            #[trigger] final(state).store.read(main_name(), k) == old(state).store.read(deliver_tx_name(), k),
{
    let deliver = deliver_tx_branch_name();
    let ghost s0 = state.store;
    let r = state.store.branch_merge_to_parent(&deliver);
    proof {
        if r is Ok {
            let c = s0.branch(deliver_tx_name());
            let p = c.parent->0;
            if p == main_name() && c.base == s0.branch(main_name()).history() {
                crate::store::lemma_flatten_append(s0.branch(main_name()).versions, c.versions);
                assert(state.store.branch(main_name()).history() =~= c.history());
            }
        }
    }
    r
}


} // verus!
