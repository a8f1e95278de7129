//! The EVM-facing part of the world state: gas settings, the block-hash index
//! and the per-block environment handed to the interpreter.
use vstd::prelude::*;
use crate::u256::U256;

verus! {

/// The per-block environment the EVM reads.
pub struct OvrVicinity {
    pub gas_price: U256,
    pub origin: Vec<u8>,
    pub chain_id: U256,
    pub block_number: U256,
    pub block_coinbase: Vec<u8>,
    pub block_timestamp: U256,
    pub block_difficulty: U256,
    pub block_gas_limit: U256,
    pub block_base_fee_per_gas: U256,
}

impl OvrVicinity {
    pub fn new() -> (r: OvrVicinity)
        ensures
            r.origin@.len() == 20,
            r.block_difficulty.value() == 0,
    {
        OvrVicinity {
            gas_price: U256::zero(),
            origin: zero_address(),
            chain_id: U256::zero(),
            block_number: U256::zero(),
            block_coinbase: zero_address(),
            block_timestamp: U256::zero(),
            block_difficulty: U256::zero(),
            block_gas_limit: U256::zero(),
            block_base_fee_per_gas: U256::zero(),
        }
    }
}

/// The 20-byte zero address.
pub fn zero_address() -> (r: Vec<u8>)
    ensures
        r@ == Seq::new(20, |i: int| 0u8),
{
    let mut r: Vec<u8> = Vec::new();
    let mut i: usize = 0;
    while i < 20
        invariant
            i <= 20,
            r@ == Seq::new(i as nat, |k: int| 0u8),
        decreases 20 - i,
    {
        r.push(0u8);
        i += 1;
        assert(r@ =~= Seq::new(i as nat, |k: int| 0u8));
    }
    r
}

/// Gas settings, the hashes of committed blocks (`block_hashes[i]` is that of
/// block `i + 1`, in the 32-byte EVM form) and the current vicinity.
pub struct State {
    pub gas_price: U256,
    pub block_gas_limit: U256,
    pub block_base_fee_per_gas: U256,
    pub block_hashes: Vec<Vec<u8>>,
    pub vicinity: OvrVicinity,
}

impl State {
    /// Refreshes the vicinity for a new block.
    pub fn update_vicinity(&mut self, chain_id: U256, block_coinbase: Vec<u8>, block_timestamp: U256)
        requires
            old(self).block_hashes@.len() <= u64::MAX,
        ensures
            final(self).vicinity.gas_price == old(self).gas_price,
            final(self).vicinity.origin@ == Seq::new(20, |i: int| 0u8),
            final(self).vicinity.chain_id == chain_id,
            final(self).vicinity.block_number.value() == old(self).block_hashes@.len(),
            final(self).vicinity.block_coinbase@ == block_coinbase@,
            final(self).vicinity.block_timestamp == block_timestamp,
            final(self).vicinity.block_difficulty.value() == 0,
            final(self).vicinity.block_gas_limit == old(self).block_gas_limit,
            final(self).vicinity.block_base_fee_per_gas == old(self).block_base_fee_per_gas,
            final(self).gas_price == old(self).gas_price,
            final(self).block_gas_limit == old(self).block_gas_limit,
            final(self).block_base_fee_per_gas == old(self).block_base_fee_per_gas,
            final(self).block_hashes@ == old(self).block_hashes@,
    {
        self.vicinity = OvrVicinity {
            gas_price: self.gas_price,
            origin: zero_address(),
            chain_id,
            block_number: U256::from_u64(self.block_hashes.len() as u64),
            block_coinbase,
            block_timestamp,
            block_difficulty: U256::zero(),
            block_gas_limit: self.block_gas_limit,
            block_base_fee_per_gas: self.block_base_fee_per_gas,
        };
    }
}

} // verus!
