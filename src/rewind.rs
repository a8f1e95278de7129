//! Historical queries: ephemeral branches forked from Main at the end of a
//! past block, read, and removed again on every path.
use vstd::prelude::*;
use crate::bytes::copy_bytes;
use crate::common::{block_number_to_height, height_of, views_of, BlockNumber};
use crate::ledger::{
    account_in, account_key_of, main_branch_name, main_name, read_account, storage_key, storage_key_of,
    Ledger,
};
use crate::store::{lookup, EntryView, Entry, StoreError, VsVersion, VersionedStore};
use crate::u256::U256;

verus! {

/// The decimal digits of `n`, most significant first.
pub open spec fn decimal(n: nat) -> Seq<u8>
    decreases n,
{
    if n < 10 {
        seq![(48 + n) as u8]
    } else {
        decimal(n / 10) + seq![(48 + n % 10) as u8]
    }
}

/// Appends the decimal digits of `n` to `out`.
pub fn push_decimal(out: &mut Vec<u8>, n: u64)
    ensures
        final(out)@ == old(out)@ + decimal(n as nat),
    decreases n,
{
    if n >= 10 {
        push_decimal(out, n / 10);
    }
    let ghost mid = out@;
    out.push((48 + n % 10) as u8);
    assert(out@ =~= old(out)@ + decimal(n as nat));
}

/// `prefix`, an underscore, then `n` in decimal.
pub open spec fn suffixed(prefix: Seq<u8>, n: nat) -> Seq<u8> {
    prefix + seq![95u8] + decimal(n)
}

fn suffixed_name(prefix: &Vec<u8>, n: u64) -> (r: Vec<u8>)
    ensures
        r@ == suffixed(prefix@, n as nat),
{
    let mut r = copy_bytes(prefix);
    r.push(95u8);
    push_decimal(&mut r, n);
    r
}

/// The version "after every transaction of block `h`".
pub open spec fn end_of_block(h: u64) -> VsVersion {
    VsVersion { block_height: h, tx_position: u64::MAX }
}

/// What a read of `key` returns on Main as of the end of block `h`.
pub open spec fn read_at_height(store: VersionedStore, h: u64, key: Seq<u8>) -> Option<EntryView> {
    lookup(store.branch(main_name()).visible(Some(end_of_block(h))), key)
}

/// Why a historical query failed.
#[derive(Clone, Copy, Debug, PartialEq, Eq, Structural)]
pub enum RewindError {
    /// Height 0 names no block.
    ZeroHeight,
    /// The height after this one does not fit in 64 bits.
    HeightTooLarge,
    Store(StoreError),
}

/// Creates the ephemeral branch `"{prefix}_{h+1}"`, a child of Main that sees
/// Main as of the end of block `h`, with a version `(h + 1, 0)` of its own.
/// The caller removes it when done.
pub fn rollback_to_height(store: &mut VersionedStore, h: u64, prefix: &Vec<u8>) -> (r: Result<Vec<u8>, RewindError>)
    requires
        old(store).wf(),
    ensures
        final(store).wf(),
        h == 0 <==> r == Err::<Vec<u8>, RewindError>(RewindError::ZeroHeight),
        r is Err ==> *final(store) == *old(store),
        r is Ok <==> 0 < h < u64::MAX && old(store).has(main_name())
            && !old(store).has(suffixed(prefix@, h as nat + 1)),
        r matches Ok(name) ==> name@ == suffixed(prefix@, h as nat + 1)
            && final(store).same_except(old(store), name@)
            && final(store).has(name@)
            && forall|k: Seq<u8>| #[trigger] final(store).read(name@, k) == read_at_height(*old(store), h, k),
{
    if h == 0 {
        return Err(RewindError::ZeroHeight);
    }
    if h == u64::MAX {
        return Err(RewindError::HeightTooLarge);
    }
    let name = suffixed_name(prefix, h + 1);
    let main = main_branch_name();
    if let Err(e) = store.branch_create_from(&name, &main, Some(VsVersion::new(h, u64::MAX))) {
        return Err(RewindError::Store(e));
    }
    let ghost s1 = *store;
    let _ = store.version_create_on(&name, VsVersion::new(h + 1, 0));
    proof {
        crate::store::lemma_new_version_history(s1.branch(name@), VsVersion { block_height: (h + 1) as u64, tx_position: 0 });
        assert(s1.branch(name@).history() =~= s1.branch(name@).base);
        assert forall|k: Seq<u8>| #[trigger] store.read(name@, k) == read_at_height(*old(store), h, k) by {}
        assert forall|nm: Seq<u8>| nm != name@ implies (store.has(nm) == old(store).has(nm)
            && (old(store).has(nm) ==> store.branch(nm) == old(store).branch(nm))) by {
            assert(store.has(nm) == s1.has(nm));
        }
    }
    Ok(name)
}

/// Forks Main as of the end of block `h` under the unique name
/// `"{prefix}_{h}_{id}"`, `id` taken from `counter`, which is then advanced.
pub fn snapshot_at_height(store: &mut VersionedStore, h: u64, prefix: &Vec<u8>, counter: &mut u64) -> (r: Result<Vec<u8>, RewindError>)
    requires
        old(store).wf(),
    ensures
        final(store).wf(),
        h == 0 <==> r == Err::<Vec<u8>, RewindError>(RewindError::ZeroHeight),
        h == 0 ==> *final(counter) == *old(counter),
        h > 0 ==> *final(counter) == if *old(counter) == u64::MAX { 0 } else { (*old(counter) + 1) as u64 },
        r is Err ==> *final(store) == *old(store),
        r is Ok <==> 0 < h && old(store).has(main_name())
            && !old(store).has(suffixed(suffixed(prefix@, h as nat), *old(counter) as nat)),
        0 < h && !old(store).has(main_name())
            ==> r == Err::<Vec<u8>, RewindError>(RewindError::Store(StoreError::NoSuchBranch)),
        0 < h && old(store).has(main_name()) && old(store).has(suffixed(suffixed(prefix@, h as nat), *old(counter) as nat))
            ==> r == Err::<Vec<u8>, RewindError>(RewindError::Store(StoreError::BranchExists)),
        r matches Ok(name) ==> name@ == suffixed(suffixed(prefix@, h as nat), *old(counter) as nat)
            && final(store).same_except(old(store), name@)
            && final(store).has(name@)
            && forall|k: Seq<u8>| #[trigger] final(store).read(name@, k) == read_at_height(*old(store), h, k),
{
    if h == 0 {
        return Err(RewindError::ZeroHeight);
    }
    let id = *counter;
    *counter = if id == u64::MAX { 0 } else { id + 1 };
    let base = suffixed_name(prefix, h);
    let name = suffixed_name(&base, id);
    let main = main_branch_name();
    if let Err(e) = store.branch_create_from(&name, &main, Some(VsVersion::new(h, u64::MAX))) {
        return Err(RewindError::Store(e));
    }
    let ghost s1 = *store;
    let _ = store.version_create_on(&name, VsVersion::new(h, u64::MAX));
    proof {
        crate::store::lemma_new_version_history(s1.branch(name@), end_of_block(h));
        assert(s1.branch(name@).history() =~= s1.branch(name@).base);
        assert forall|k: Seq<u8>| #[trigger] store.read(name@, k) == read_at_height(*old(store), h, k) by {}
        assert forall|nm: Seq<u8>| nm != name@ implies (store.has(nm) == old(store).has(nm)
            && (old(store).has(nm) ==> store.branch(nm) == old(store).branch(nm))) by {
            assert(store.has(nm) == s1.has(nm));
        }
    }
    Ok(name)
}

/// Removes an ephemeral branch that `rollback_to_height` created.
fn drop_ephemeral(store: &mut VersionedStore, name: &Vec<u8>, Ghost(s0): Ghost<VersionedStore>)
    requires
        old(store).wf(),
        s0.wf(),
        !s0.has(name@),
        old(store).has(name@),
        old(store).same_except(&s0, name@),
    ensures
        final(store).wf(),
        final(store).same(&s0),
{
    let _ = store.branch_remove(name);
    proof {
        assert forall|n: Seq<u8>| (store.has(n) == s0.has(n) && (s0.has(n) ==> store.branch(n) == s0.branch(n))) by {
            if n != name@ {
                assert(store.has(n) == old(store).has(n));
            }
        }
    }
}

/// The word a storage read returns: the stored word, or 32 zero bytes.
pub open spec fn word_in(e: Option<EntryView>) -> Seq<u8> {
    match e {
        Some(EntryView::Word(w)) => w,
        _ => Seq::new(32, |i: int| 0u8),
    }
}

fn zero_word() -> (r: Vec<u8>)
    ensures
        r@ == Seq::new(32, |i: int| 0u8),
{
    let mut r: Vec<u8> = Vec::new();
    let mut i: usize = 0;
    while i < 32
        invariant
            i <= 32,
            r@ == Seq::new(i as nat, |k: int| 0u8),
        decreases 32 - i,
    {
        r.push(0u8);
        i += 1;
        assert(r@ =~= Seq::new(i as nat, |k: int| 0u8));
    }
    r
}

impl Ledger {
    /// The height a selector names on this chain.
    pub open spec fn height_for(&self, bn: Option<BlockNumber>) -> int {
        height_of(bn, views_of(self.state.evm.block_hashes@))
    }

    /// The account `addr` as of the end of the block that `bn` names, read on an
    /// ephemeral branch named after `prefix` that is gone again afterwards.
    fn account_at_height(&mut self, addr: &Vec<u8>, bn: Option<BlockNumber>, prefix: &Vec<u8>) -> (r: Result<crate::store::OvrAccount, RewindError>)
        requires
            old(self).wf(),
        ensures
            final(self).wf(),
            final(self).state.store.same(&old(self).state.store),
            final(self).state.same_but_store(&old(self).state),
            final(self).main == old(self).main,
            final(self).deliver_tx == old(self).deliver_tx,
            final(self).check_tx == old(self).check_tx,
            ({
                let h = old(self).height_for(bn);
                &&& h == 0 ==> r == Err::<crate::store::OvrAccount, RewindError>(RewindError::ZeroHeight)
                &&& (0 < h < u64::MAX && old(self).state.store.has(main_name())
                    && !old(self).state.store.has(suffixed(prefix@, h as nat + 1))) <==> r is Ok
                &&& r matches Ok(a) ==> a@ == account_in(read_at_height(old(self).state.store, h as u64, account_key_of(addr@)))
            }),
    {
        let h = block_number_to_height(bn, &self.state.evm.block_hashes);
        let ghost s0 = self.state.store;
        let name = match rollback_to_height(&mut self.state.store, h, prefix) {
            Ok(n) => n,
            Err(e) => {
                return Err(e);
            },
        };
        let a = read_account(&self.state.store, &name, addr);
        drop_ephemeral(&mut self.state.store, &name, Ghost(s0));
        match a {
            Ok(a) => Ok(a),
            Err(e) => Err(RewindError::Store(e)),
        }
    }

    /// The balance of `addr` at the end of the block `bn` names.
    pub fn balance(&mut self, addr: &Vec<u8>, bn: Option<BlockNumber>) -> (r: Result<U256, RewindError>)
        requires
            old(self).wf(),
        ensures
            final(self).wf(),
            final(self).state.store.same(&old(self).state.store),
            ({
                let h = old(self).height_for(bn);
                &&& h == 0 ==> r == Err::<U256, RewindError>(RewindError::ZeroHeight)
                &&& (0 < h < u64::MAX && old(self).state.store.has(main_name())
                    && !old(self).state.store.has(suffixed(balance_prefix(), h as nat + 1))) <==> r is Ok
                &&& r matches Ok(v) ==> v == account_in(read_at_height(old(self).state.store, h as u64, account_key_of(addr@))).balance
            }),
    {
        let prefix = balance_prefix_bytes();
        match self.account_at_height(addr, bn, &prefix) {
            Ok(a) => Ok(a.balance),
            Err(e) => Err(e),
        }
    }

    /// The nonce of `addr` at the end of the block `bn` names.
    pub fn transaction_count(&mut self, addr: &Vec<u8>, bn: Option<BlockNumber>) -> (r: Result<U256, RewindError>)
        requires
            old(self).wf(),
        ensures
            final(self).wf(),
            final(self).state.store.same(&old(self).state.store),
            ({
                let h = old(self).height_for(bn);
                &&& h == 0 ==> r == Err::<U256, RewindError>(RewindError::ZeroHeight)
                &&& (0 < h < u64::MAX && old(self).state.store.has(main_name())
                    && !old(self).state.store.has(suffixed(nonce_prefix(), h as nat + 1))) <==> r is Ok
                &&& r matches Ok(v) ==> v == account_in(read_at_height(old(self).state.store, h as u64, account_key_of(addr@))).nonce
            }),
    {
        let prefix = nonce_prefix_bytes();
        match self.account_at_height(addr, bn, &prefix) {
            Ok(a) => Ok(a.nonce),
            Err(e) => Err(e),
        }
    }

    /// The code of `addr` at the end of the block `bn` names.
    pub fn code_at(&mut self, addr: &Vec<u8>, bn: Option<BlockNumber>) -> (r: Result<Vec<u8>, RewindError>)
        requires
            old(self).wf(),
        ensures
            final(self).wf(),
            final(self).state.store.same(&old(self).state.store),
            ({
                let h = old(self).height_for(bn);
                &&& h == 0 ==> r is Err
                &&& (0 < h < u64::MAX && old(self).state.store.has(main_name())
                    && !old(self).state.store.has(suffixed(code_prefix(), h as nat + 1))) <==> r is Ok
                &&& r matches Ok(c) ==> c@ == account_in(read_at_height(old(self).state.store, h as u64, account_key_of(addr@))).code
            }),
    {
        let prefix = code_prefix_bytes();
        match self.account_at_height(addr, bn, &prefix) {
            Ok(a) => Ok(a.code),
            Err(e) => Err(e),
        }
    }

    /// The storage word at `slot` of `addr` at the end of the block `bn`
    /// names; 32 zero bytes where nothing was stored.
    pub fn storage_at(&mut self, addr: &Vec<u8>, slot: &Vec<u8>, bn: Option<BlockNumber>) -> (r: Result<Vec<u8>, RewindError>)
        requires
            old(self).wf(),
        ensures
            final(self).wf(),
            final(self).state.store.same(&old(self).state.store),
            ({
                let h = old(self).height_for(bn);
                &&& h == 0 ==> r == Err::<Vec<u8>, RewindError>(RewindError::ZeroHeight)
                &&& (0 < h < u64::MAX && old(self).state.store.has(main_name())
                    && !old(self).state.store.has(suffixed(storage_prefix(), h as nat + 1))) <==> r is Ok
                &&& r matches Ok(w) ==> w@ == word_in(read_at_height(old(self).state.store, h as u64, storage_key_of(addr@, slot@)))
            }),
    {
        let h = block_number_to_height(bn, &self.state.evm.block_hashes);
        let prefix = storage_prefix_bytes();
        let ghost s0 = self.state.store;
        let name = match rollback_to_height(&mut self.state.store, h, &prefix) {
            Ok(n) => n,
            Err(e) => {
                return Err(e);
            },
        };
        let key = storage_key(addr, slot);
        let got = self.state.store.get_on(&name, &key);
        drop_ephemeral(&mut self.state.store, &name, Ghost(s0));
        match got {
            Ok(Some(Entry::Word(w))) => Ok(w),
            Ok(_) => Ok(zero_word()),
            Err(e) => Err(RewindError::Store(e)),
        }
    }
}

/// A transient call as the Web3 interface requests it.
pub struct CallRequest {
    pub from: Option<Vec<u8>>,
    pub to: Option<Vec<u8>>,
    pub gas: Option<U256>,
    pub gas_price: Option<U256>,
    pub value: Option<U256>,
    pub data: Option<Vec<u8>>,
}

/// What the EVM is asked to run for a transient call, on branch `branch`.
pub struct CallPlan {
    pub branch: Vec<u8>,
    pub caller: Vec<u8>,
    /// `None`: a contract creation.
    pub target: Option<Vec<u8>>,
    pub value: U256,
    pub data: Vec<u8>,
    pub gas_limit: u64,
}

/// What the EVM reported for a transient call.
pub struct CallContractResp {
    pub success: bool,
    pub data: Vec<u8>,
    pub gas_used: u64,
}

/// Why a transient call failed.
#[derive(Clone, Copy, Debug, PartialEq, Eq, Structural)]
pub enum CallError {
    /// A gas price of zero leaves no gas limit.
    ZeroGasPrice,
    Rewind(RewindError),
}

fn opt_or_empty(o: &Option<Vec<u8>>) -> (r: Vec<u8>)
    ensures
        r@ == match o {
            Some(v) => v@,
            None => Seq::<u8>::empty(),
        },
{
    match o {
        Some(v) => copy_bytes(v),
        None => Vec::new(),
    }
}

/// The prefix of transient-call branches, "call_contract".
pub open spec fn call_prefix() -> Seq<u8> {
    seq![99u8, 97u8, 108u8, 108u8, 95u8, 99u8, 111u8, 110u8, 116u8, 114u8, 97u8, 99u8, 116u8]
}

fn call_prefix_bytes() -> (r: Vec<u8>)
    ensures
        r@ == call_prefix(),
{
    let r = vec![99u8, 97u8, 108u8, 108u8, 95u8, 99u8, 111u8, 110u8, 116u8, 114u8, 97u8, 99u8, 116u8];
    assert(r@ =~= call_prefix());
    r
}

/// The name of the branch a transient call at height `h` with number `id` runs on.
pub open spec fn call_branch(h: nat, id: nat) -> Seq<u8> {
    suffixed(suffixed(call_prefix(), h), id)
}

/// `plan` is what `req` asks for, on branch `branch`.
pub open spec fn plan_for(plan: CallPlan, req: CallRequest, branch: Seq<u8>) -> bool {
    &&& plan.branch@ == branch
    &&& plan.caller@ == match req.from {
        Some(f) => f@,
        None => Seq::<u8>::empty(),
    }
    &&& crate::block::opt_bytes(plan.target) == crate::block::opt_bytes(req.to)
    &&& plan.value.value() == match req.value {
        Some(v) => v.value(),
        None => 0,
    }
    &&& plan.data@ == match req.data {
        Some(d) => d@,
        None => Seq::<u8>::empty(),
    }
    &&& call_price(req.gas_price) != 0 ==> plan.gas_limit == call_gas(req.gas) / call_price(req.gas_price)
}

impl Ledger {
    /// A transient call can run: a nonzero gas price, a height above zero,
    /// Main present and the call's branch name free.
    pub open spec fn call_ok(&self, req: CallRequest, bn: Option<BlockNumber>) -> bool {
        let h = self.height_for(bn);
        &&& call_price(req.gas_price) != 0
        &&& 0 < h
        &&& self.state.store.has(main_name())
        &&& !self.state.store.has(call_branch(h as nat, self.tmp_id as nat))
    }

    /// `run` answered `resp` for the call `req` asked for, on a branch that
    /// reads as Main at the end of block `h`.
    pub open spec fn ran<F: Fn(&VersionedStore, &CallPlan) -> CallContractResp>(
        &self, run: F, req: CallRequest, h: int, resp: CallContractResp) -> bool {
        exists|s: VersionedStore, plan: CallPlan|
            plan_for(plan, req, call_branch(h as nat, self.tmp_id as nat))
            && run.ensures((&s, &plan), resp) && s.has(plan.branch@)
            && (forall|k: Seq<u8>| #[trigger] s.read(plan.branch@, k) == read_at_height(self.state.store, h as u64, k))
    }

    /// Runs a transient call: forks Main as of the end of the block `bn` names
    /// under a fresh name, hands the store, that branch and the call to `run`
    /// (the EVM), and removes the branch again whatever happened.
    pub fn contract_handle<F: Fn(&VersionedStore, &CallPlan) -> CallContractResp>(
        &mut self,
        req: &CallRequest,
        bn: Option<BlockNumber>,
        run: F,
    ) -> (r: Result<CallContractResp, CallError>)
        requires
            old(self).wf(),
            forall|s: &VersionedStore, p: &CallPlan| run.requires((s, p)),
        ensures
            final(self).wf(),
            final(self).state.store.same(&old(self).state.store),
            r is Ok <==> old(self).call_ok(*req, bn),
            call_price(req.gas_price) == 0 <==> r == Err::<CallContractResp, CallError>(CallError::ZeroGasPrice),
            call_price(req.gas_price) != 0 && old(self).height_for(bn) == 0
                ==> r == Err::<CallContractResp, CallError>(CallError::Rewind(RewindError::ZeroHeight)),
            call_price(req.gas_price) != 0 && old(self).height_for(bn) > 0 && !old(self).state.store.has(main_name())
                ==> r == Err::<CallContractResp, CallError>(CallError::Rewind(RewindError::Store(StoreError::NoSuchBranch))),
            call_price(req.gas_price) != 0 && old(self).height_for(bn) > 0 && old(self).state.store.has(main_name())
                && old(self).state.store.has(call_branch(old(self).height_for(bn) as nat, old(self).tmp_id as nat))
                ==> r == Err::<CallContractResp, CallError>(CallError::Rewind(RewindError::Store(StoreError::BranchExists))),
            r matches Ok(resp) ==> old(self).ran(run, *req, old(self).height_for(bn), resp),
    {
        let gas_limit = match call_gas_limit(req.gas, req.gas_price) {
            Some(g) => g,
            None => {
                return Err(CallError::ZeroGasPrice);
            },
        };
        let h = block_number_to_height(bn, &self.state.evm.block_hashes);
        let ghost s0 = self.state.store;
        let prefix = call_prefix_bytes();
        let name = match snapshot_at_height(&mut self.state.store, h, &prefix, &mut self.tmp_id) {
            Ok(n) => n,
            Err(e) => {
                return Err(CallError::Rewind(e));
            },
        };
        let plan = CallPlan {
            branch: copy_bytes(&name),
            caller: opt_or_empty(&req.from),
            target: match &req.to {
                Some(t) => Some(copy_bytes(t)),
                None => None,
            },
            value: match req.value {
                Some(v) => v,
                None => U256::zero(),
            },
            data: opt_or_empty(&req.data),
            gas_limit,
        };
        let resp = run(&self.state.store, &plan);
        let ghost s1 = self.state.store;
        drop_ephemeral(&mut self.state.store, &name, Ghost(s0));
        proof {
            assert(plan.branch@ == name@);
            assert(s1.has(plan.branch@));
            assert forall|k: Seq<u8>| #[trigger] s1.read(plan.branch@, k) == read_at_height(s0, h, k) by {}
            assert(plan_for(plan, *req, call_branch(h as nat, old(self).tmp_id as nat)));
            assert(run.ensures((&s1, &plan), resp) && s1.has(plan.branch@)
                && (forall|k: Seq<u8>| #[trigger] s1.read(plan.branch@, k) == read_at_height(s0, h, k)));
            assert(old(self).ran(run, *req, h as int, resp));
        }
        Ok(resp)
    }

    /// `eth_call`: the data a transient call returns.
    pub fn call<F: Fn(&VersionedStore, &CallPlan) -> CallContractResp>(
        &mut self,
        req: &CallRequest,
        bn: Option<BlockNumber>,
        run: F,
    ) -> (r: Result<Vec<u8>, CallError>)
        requires
            old(self).wf(),
            forall|s: &VersionedStore, p: &CallPlan| run.requires((s, p)),
        ensures
            final(self).wf(),
            final(self).state.store.same(&old(self).state.store),
            r is Ok <==> old(self).call_ok(*req, bn),
            r matches Ok(d) ==> exists|resp: CallContractResp|
                old(self).ran(run, *req, old(self).height_for(bn), resp) && d == resp.data,
            call_price(req.gas_price) == 0 <==> r == Err::<Vec<u8>, CallError>(CallError::ZeroGasPrice),
    {
        match self.contract_handle(req, bn, run) {
            Ok(resp) => Ok(resp.data),
            Err(e) => Err(e),
        }
    }

    /// `eth_estimateGas`: the gas a transient call used plus the 21000 base.
    pub fn estimate_gas<F: Fn(&VersionedStore, &CallPlan) -> CallContractResp>(
        &mut self,
        req: &CallRequest,
        bn: Option<BlockNumber>,
        run: F,
    ) -> (r: Result<U256, CallError>)
        requires
            old(self).wf(),
            forall|s: &VersionedStore, p: &CallPlan| run.requires((s, p)),
        ensures
            final(self).wf(),
            final(self).state.store.same(&old(self).state.store),
            r is Ok <==> old(self).call_ok(*req, bn),
            r matches Ok(g) ==> exists|resp: CallContractResp|
                old(self).ran(run, *req, old(self).height_for(bn), resp) && g.value() == resp.gas_used + 21000,
            call_price(req.gas_price) == 0 <==> r == Err::<U256, CallError>(CallError::ZeroGasPrice),
    {
        match self.contract_handle(req, bn, run) {
            Ok(resp) => Ok(estimate_from_used(resp.gas_used)),
            Err(e) => Err(e),
        }
    }
}

pub open spec fn balance_prefix() -> Seq<u8> {
    seq![98u8, 97u8, 108u8, 97u8, 110u8, 99u8, 101u8]
}

pub open spec fn nonce_prefix() -> Seq<u8> {
    seq![110u8, 111u8, 110u8, 99u8, 101u8]
}

pub open spec fn code_prefix() -> Seq<u8> {
    seq![99u8, 111u8, 100u8, 101u8]
}

pub open spec fn storage_prefix() -> Seq<u8> {
    seq![115u8, 116u8, 111u8, 114u8, 97u8, 103u8, 101u8]
}

/// "balance"
fn balance_prefix_bytes() -> (r: Vec<u8>)
    ensures
        r@ == balance_prefix(),
{
    let r = vec![98u8, 97u8, 108u8, 97u8, 110u8, 99u8, 101u8];
    assert(r@ =~= balance_prefix());
    r
}

/// "nonce"
fn nonce_prefix_bytes() -> (r: Vec<u8>)
    ensures
        r@ == nonce_prefix(),
{
    let r = vec![110u8, 111u8, 110u8, 99u8, 101u8];
    assert(r@ =~= nonce_prefix());
    r
}

/// "code"
fn code_prefix_bytes() -> (r: Vec<u8>)
    ensures
        r@ == code_prefix(),
{
    let r = vec![99u8, 111u8, 100u8, 101u8];
    assert(r@ =~= code_prefix());
    r
}

/// "storage"
fn storage_prefix_bytes() -> (r: Vec<u8>)
    ensures
        r@ == storage_prefix(),
{
    let r = vec![115u8, 116u8, 111u8, 114u8, 97u8, 103u8, 101u8];
    assert(r@ =~= storage_prefix());
    r
}

/// The gas an `eth_estimateGas` call reports: what the EVM used plus the
/// 21000 base cost, as a 256-bit number.
pub fn estimate_from_used(used: u64) -> (r: U256)
    ensures
        r.value() == used + 21000,
{
    let base = U256::from_u64(21000);
    let u = U256::from_u64(used);
    assert(crate::u256::modulus() > 0x1_0000_0000_0000_0000 + 21000) by (nonlinear_arith)
        requires crate::u256::word() == 0x1_0000_0000_0000_0000,
            crate::u256::modulus() == crate::u256::word() * crate::u256::word() * crate::u256::word() * crate::u256::word();
    match u.checked_add(&base) {
        Some(g) => g,
        None => U256::zero(),
    }
}

/// The gas a transient call asks for: `u64::MAX` where absent or larger.
pub open spec fn call_gas(gas: Option<U256>) -> nat {
    match gas {
        Some(x) => if x.value() > u64::MAX { u64::MAX as nat } else { x.value() },
        None => u64::MAX as nat,
    }
}

/// The gas price of a transient call: 1 where absent, `u64::MAX` where larger.
pub open spec fn call_price(gas_price: Option<U256>) -> nat {
    match gas_price {
        Some(x) => if x.value() > u64::MAX { u64::MAX as nat } else { x.value() },
        None => 1,
    }
}

/// The gas limit of a transient call: the requested gas (`u64::MAX` where
/// absent or larger) divided by the gas price (1 where absent, `u64::MAX`
/// where larger). `None` for a zero gas price.
pub fn call_gas_limit(gas: Option<U256>, gas_price: Option<U256>) -> (r: Option<u64>)
    ensures
        call_price(gas_price) == 0 <==> r is None,
        r matches Some(l) ==> l == call_gas(gas) / call_price(gas_price),
{
    let max = U256::from_u64(u64::MAX);
    let g: u64 = match gas {
        Some(x) => if max.le(&x) { u64::MAX } else { low_word(x) },
        None => u64::MAX,
    };
    let p: u64 = match gas_price {
        Some(x) => if max.le(&x) { u64::MAX } else { low_word(x) },
        None => 1,
    };
    if p == 0 {
        None
    } else {
        Some(g / p)
    }
}

/// The value of a number under 2^64, as a `u64`.
fn low_word(x: U256) -> (r: u64)
    requires
        x.value() < u64::MAX,
    ensures
        r == x.value(),
{
    let ghost w = crate::u256::word();
    assert(x.l1 == 0 && x.l2 == 0 && x.l3 == 0) by (nonlinear_arith)
        requires
            x.value() < u64::MAX,
            w == 0x1_0000_0000_0000_0000,
            x.value() == x.l0 + w * (x.l1 + w * (x.l2 + w * x.l3)),
            x.l0 >= 0, x.l1 >= 0, x.l2 >= 0, x.l3 >= 0;
    x.l0
}

} // verus!
