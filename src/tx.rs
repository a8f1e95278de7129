//! Ethereum transactions (legacy, EIP-2930, EIP-1559) and the checks that run
//! before one is executed.
use vstd::prelude::*;
use crate::block::{EvmLog, Log, LogView, Receipt, ReceiptView, opt_bytes, copy_opt};
use crate::bytes::copy_bytes;
use crate::common::views_of;
use crate::u256::{U256, modulus};

verus! {

#[derive(Clone, Copy, Debug, PartialEq, Eq, Structural)]
pub enum TxKind {
    Legacy,
    Eip2930,
    Eip1559,
}

/// What a transaction does: call an address, or create a contract.
pub enum TransactionAction {
    Call(Vec<u8>),
    Create,
}

impl TransactionAction {
    pub open spec fn target(&self) -> Option<Seq<u8>> {
        match self {
            TransactionAction::Call(a) => Some(a@),
            TransactionAction::Create => None,
        }
    }

    pub fn copy(&self) -> (r: TransactionAction)
        ensures
            r.target() == self.target(),
    {
        match self {
            TransactionAction::Call(a) => TransactionAction::Call(copy_bytes(a)),
            TransactionAction::Create => TransactionAction::Create,
        }
    }
}

/// An address with the storage slots a transaction declares it will touch.
pub struct AccessListItem {
    pub address: Vec<u8>,
    pub slots: Vec<Vec<u8>>,
}

impl AccessListItem {
    pub fn copy(&self) -> (r: AccessListItem)
        ensures
            r.address@ == self.address@,
            views_of(r.slots@) == views_of(self.slots@),
    {
        AccessListItem { address: copy_bytes(&self.address), slots: crate::block::copy_list(&self.slots) }
    }
}

/// `a` and `b` are the same transaction, field by field.
pub open spec fn same_tx(a: Tx, b: Tx) -> bool {
    &&& a.kind == b.kind
    &&& a.nonce == b.nonce
    &&& a.gas_price == b.gas_price
    &&& a.max_priority_fee_per_gas == b.max_priority_fee_per_gas
    &&& a.max_fee_per_gas == b.max_fee_per_gas
    &&& a.gas_limit == b.gas_limit
    &&& a.action.target() == b.action.target()
    &&& a.value == b.value
    &&& a.input@ == b.input@
    &&& a.access_list@.len() == b.access_list@.len()
    &&& forall|i: int| 0 <= i < a.access_list@.len() ==> (#[trigger] a.access_list@[i]).address@ == b.access_list@[i].address@
        && views_of(a.access_list@[i].slots@) == views_of(b.access_list@[i].slots@)
    &&& a.r@ == b.r@
    &&& a.s@ == b.s@
    &&& a.v == b.v
}

/// A signed Ethereum transaction. `gas_price` is the price of legacy and
/// EIP-2930 transactions; the two fee caps are those of EIP-1559 ones.
pub struct Tx {
    pub kind: TxKind,
    pub nonce: U256,
    pub gas_price: U256,
    pub max_priority_fee_per_gas: U256,
    pub max_fee_per_gas: U256,
    pub gas_limit: U256,
    pub action: TransactionAction,
    pub value: U256,
    pub input: Vec<u8>,
    pub access_list: Vec<AccessListItem>,
    pub r: Vec<u8>,
    pub s: Vec<u8>,
    pub v: u8,
}

/// Why a transaction was not applied.
#[derive(Debug)]
pub enum TxError {
    /// The gas price is under the minimum.
    GasPriceTooLow,
    /// No sender could be recovered from the signature.
    InvalidSignature,
    /// The nonce is not the account's.
    InvalidNonce { tx_nonce: U256, expected: U256 },
    /// The gas limit is zero, or value plus gas cost does not fit in 256 bits.
    InvalidAmount,
    /// The balance does not cover value plus gas cost.
    InsufficientBalance { needed: U256, balance: U256 },
    /// Gas used times gas price does not fit in 256 bits.
    FeeOverflow,
    /// The EVM did not succeed; the fee was charged all the same.
    Reverted { gas_used: U256, fee_used: U256 },
    /// The store refused an operation.
    Store(crate::store::StoreError),
}

/// The fields that all three kinds of transaction share.
pub struct TxCommonProperties {
    pub nonce: U256,
    pub gas_limit: U256,
    pub gas_price: U256,
    pub action: TransactionAction,
    pub value: U256,
    pub input: Vec<u8>,
    pub r: Vec<u8>,
    pub s: Vec<u8>,
    pub v: u8,
}

/// The minimum gas price where none is configured.
pub const GAS_PRICE_MIN: u64 = 10;

impl Tx {
    pub fn copy(&self) -> (r: Tx)
        ensures
            same_tx(r, *self),
    {
        let mut al: Vec<AccessListItem> = Vec::new();
        let mut i: usize = 0;
        while i < self.access_list.len()
            invariant
                i <= self.access_list@.len(),
                al@.len() == i,
                forall|k: int| 0 <= k < i ==> (#[trigger] al@[k]).address@ == self.access_list@[k].address@
                    && views_of(al@[k].slots@) == views_of(self.access_list@[k].slots@),
            decreases self.access_list.len() - i,
        {
            al.push(self.access_list[i].copy());
            i += 1;
        }
        Tx {
            kind: self.kind,
            nonce: self.nonce,
            gas_price: self.gas_price,
            max_priority_fee_per_gas: self.max_priority_fee_per_gas,
            max_fee_per_gas: self.max_fee_per_gas,
            gas_limit: self.gas_limit,
            action: self.action.copy(),
            value: self.value,
            input: copy_bytes(&self.input),
            access_list: al,
            r: copy_bytes(&self.r),
            s: copy_bytes(&self.s),
            v: self.v,
        }
    }

    /// The price checked against the minimum and charged per unit of gas.
    pub open spec fn effective_gas_price(&self) -> U256 {
        match self.kind {
            TxKind::Eip1559 => self.max_fee_per_gas,
            _ => self.gas_price,
        }
    }

    /// The price reported for an EIP-1559 transaction: the mean of its two fee
    /// caps, their sum saturating.
    pub open spec fn reported_price(&self) -> nat {
        match self.kind {
            TxKind::Eip1559 => {
                let sum = self.max_priority_fee_per_gas.value() + self.max_fee_per_gas.value();
                (if sum < modulus() { sum } else { (modulus() - 1) as nat }) / 2
            },
            _ => self.gas_price.value(),
        }
    }

    /// Value plus the most gas the transaction may pay for.
    pub open spec fn needed(&self, gas_price: U256) -> nat {
        self.value.value() + gas_price.value() * self.gas_limit.value()
    }

    /// Accepts the effective gas price where it is at least `min`.
    pub fn check_gas_price(&self, min: U256) -> (r: Result<U256, TxError>)
        ensures
            match r {
                Ok(p) => p == self.effective_gas_price() && min.value() <= p.value(),
                Err(e) => e is GasPriceTooLow && min.value() > self.effective_gas_price().value(),
            },
    {
        let price = match self.kind {
            TxKind::Eip1559 => self.max_fee_per_gas,
            _ => self.gas_price,
        };
        if min.le(&price) {
            Ok(price)
        } else {
            Err(TxError::GasPriceTooLow)
        }
    }

    /// Accepts exactly the account's nonce.
    pub fn check_nonce(&self, account_nonce: U256) -> (r: Result<(), (U256, U256)>)
        ensures
            r is Ok <==> self.nonce.value() == account_nonce.value(),
            r matches Err(p) ==> p == (self.nonce, account_nonce),
    {
        if self.nonce.same_value(&account_nonce) {
            Ok(())
        } else {
            Err((self.nonce, account_nonce))
        }
    }

    /// Value plus gas price times gas limit, where the limit is not zero, the
    /// arithmetic fits and the balance covers it. `Err(None)`: zero limit or
    /// overflow; `Err(Some(needed))`: too little balance.
    pub fn check_balance(&self, gas_price: U256, balance: U256) -> (r: Result<U256, Option<U256>>)
        ensures
            self.gas_limit.value() == 0 || self.needed(gas_price) >= modulus() <==> r == Err::<U256, Option<U256>>(None),
            r matches Ok(n) ==> n.value() == self.needed(gas_price) && n.value() <= balance.value(),
            r matches Err(Some(n)) ==> n.value() == self.needed(gas_price) && n.value() > balance.value(),
    {
        if self.gas_limit.is_zero() {
            return Err(None);
        }
        let fee_limit = match gas_price.checked_mul(&self.gas_limit) {
            Some(f) => f,
            None => {
                assert(self.needed(gas_price) >= modulus()) by (nonlinear_arith)
                    requires gas_price.value() * self.gas_limit.value() >= modulus(), self.value.value() >= 0,
                        self.needed(gas_price) == self.value.value() + gas_price.value() * self.gas_limit.value();
                return Err(None);
            },
        };
        let needed = match self.value.checked_add(&fee_limit) {
            Some(n) => n,
            None => {
                return Err(None);
            },
        };
        if needed.le(&balance) {
            Ok(needed)
        } else {
            Err(Some(needed))
        }
    }

    /// The sender handed in (recovered from the signature) and the recipient.
    pub fn get_from_to(&self, sender: &Option<Vec<u8>>) -> (r: (Option<Vec<u8>>, Option<Vec<u8>>))
        ensures
            opt_bytes(r.0) == opt_bytes(*sender),
            opt_bytes(r.1) == self.action.target(),
    {
        let to = match &self.action {
            TransactionAction::Call(a) => Some(copy_bytes(a)),
            TransactionAction::Create => None,
        };
        (copy_opt(sender), to)
    }

    pub fn get_tx_common_properties(&self) -> (r: TxCommonProperties)
        ensures
            r.nonce == self.nonce,
            r.gas_limit == self.gas_limit,
            r.gas_price.value() == self.reported_price(),
            r.action.target() == self.action.target(),
            r.value == self.value,
            r.input@ == self.input@,
            r.r@ == self.r@,
            r.s@ == self.s@,
            r.v == self.v,
    {
        let price = match self.kind {
            TxKind::Eip1559 => {
                let sum = self.max_priority_fee_per_gas.saturating_add(&self.max_fee_per_gas);
                match sum.checked_div(&U256::from_u64(2)) {
                    Some(p) => p,
                    None => U256::zero(),
                }
            },
            _ => self.gas_price,
        };
        TxCommonProperties {
            nonce: self.nonce,
            gas_limit: self.gas_limit,
            gas_price: price,
            action: self.action.copy(),
            value: self.value,
            input: copy_bytes(&self.input),
            r: copy_bytes(&self.r),
            s: copy_bytes(&self.s),
            v: self.v,
        }
    }
}

/// The address of the holder of a public key: the last 20 bytes of its
/// Keccak-256 hash.
pub open spec fn address_of(pubkey: Seq<u8>) -> Seq<u8> {
    crate::genesis::keccak256_of(pubkey).subrange(12, 32)
}

/// The sender of a transaction from the 64-byte public key recovered from its
/// signature.
pub fn address_from_pubkey(pubkey: &Vec<u8>) -> (r: Vec<u8>)
    ensures
        r@ == address_of(pubkey@),
        r@.len() == 20,
{
    let h = crate::genesis::keccak256(pubkey);
    let mut r: Vec<u8> = Vec::new();
    let mut i: usize = 12;
    while i < 32
        invariant
            h@.len() == 32,
            12 <= i <= 32,
            r@ == h@.subrange(12, i as int),
        decreases 32 - i,
    {
        r.push(h[i]);
        i += 1;
        assert(r@ =~= h@.subrange(12, i as int));
    }
    r
}

/// What the EVM reports for one execution.
pub struct ExecOutcome {
    pub success: bool,
    pub gas_used: u64,
    /// The account and storage writes of the execution.
    pub writes: Vec<crate::store::Write>,
    pub logs: Vec<EvmLog>,
    /// The address of the contract a creation made.
    pub contract_addr: Vec<u8>,
    pub extra_data: Vec<u8>,
}

/// The result of an executed transaction.
pub struct ExecRet {
    pub success: bool,
    pub gas_used: U256,
    pub fee_used: U256,
    pub extra_data: Vec<u8>,
    pub caller: Vec<u8>,
    pub contract_addr: Vec<u8>,
    pub logs: Vec<EvmLog>,
}

impl ExecRet {
    /// The receipt before the block fills in hash, index and block gas.
    pub fn gen_receipt(&self, from: &Option<Vec<u8>>, to: &Option<Vec<u8>>) -> (r: Receipt)
        ensures
            r@ == (ReceiptView {
                tx_hash: Seq::empty(),
                tx_index: 0,
                from: opt_bytes(*from),
                to: opt_bytes(*to),
                block_gas_used: r.block_gas_used,
                tx_gas_used: self.gas_used,
                contract_addr: if to.is_none() { Some(self.contract_addr@) } else { None },
                state_root: None,
                status_code: self.success,
                logs: Seq::empty(),
            }),
            r.block_gas_used.value() == 0,
    {
        let contract_addr = if to.is_none() { Some(copy_bytes(&self.contract_addr)) } else { None };
        let r = Receipt {
            tx_hash: Vec::new(),
            tx_index: 0,
            from: copy_opt(from),
            to: copy_opt(to),
            block_gas_used: U256::zero(),
            tx_gas_used: self.gas_used,
            contract_addr,
            state_root: None,
            status_code: self.success,
            logs: Vec::new(),
        };
        assert(r@.tx_hash =~= Seq::empty());
        assert(r@.logs =~= Seq::empty());
        r
    }

    /// The receipt logs of this execution for transaction `tx_hash`.
    pub fn gen_logs(&self, tx_hash: &Vec<u8>) -> (r: Vec<Log>)
        ensures
            r@.len() == self.logs@.len(),
            forall|i: int| 0 <= i < r@.len() ==> (#[trigger] r@[i])@ == (LogView {
                address: self.logs@[i].address@,
                topics: views_of(self.logs@[i].topics@),
                data: self.logs@[i].data@,
                tx_hash: tx_hash@,
                tx_index: 0,
                log_index_in_block: 0,
                log_index_in_tx: 0,
                removed: false,
            }),
    {
        let mut v: Vec<Log> = Vec::new();
        let mut i: usize = 0;
        while i < self.logs.len()
            invariant
                i <= self.logs@.len(),
                v@.len() == i,
                forall|k: int| 0 <= k < i ==> (#[trigger] v@[k])@ == (LogView {
                    address: self.logs@[k].address@,
                    topics: views_of(self.logs@[k].topics@),
                    data: self.logs@[k].data@,
                    tx_hash: tx_hash@,
                    tx_index: 0,
                    log_index_in_block: 0,
                    log_index_in_tx: 0,
                    removed: false,
                }),
            decreases self.logs.len() - i,
        {
            v.push(Log::new_from_eth_log_and_tx_hash(&self.logs[i], tx_hash));
            i += 1;
        }
        v
    }
}

} // verus!
