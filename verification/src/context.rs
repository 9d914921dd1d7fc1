//! The environment of one execution.

use vstd::prelude::*;
use crate::database::Address;
use crate::word::U256;

verus! {

#[derive(Debug, Clone)]
pub struct ExecutionContext {
    pub address: Address,
    pub caller: Address,
    pub origin: Address,
    pub value: U256,
    pub calldata: Vec<u8>,
    pub gas_limit: u64,
    pub gas_price: U256,
    pub code: Vec<u8>,
    pub block_number: u64,
    pub block_timestamp: u64,
    pub block_coinbase: Address,
    pub block_gas_limit: u64,
    pub chain_id: u64,
    pub base_fee: U256,
    pub difficulty: U256,
}

impl Default for ExecutionContext {
    /// Zero addresses and values, no calldata and no code, a zero gas limit and
    /// chain id 1.
    fn default() -> (r: Self)
        ensures
            r.address@ == Seq::new(20, |i: int| 0u8),
            r.caller@ == Seq::new(20, |i: int| 0u8),
            r.origin@ == Seq::new(20, |i: int| 0u8),
            r.value@ == 0,
            r.calldata@ == Seq::<u8>::empty(),
            r.gas_limit == 0,
            r.gas_price@ == 0,
            r.code@ == Seq::<u8>::empty(),
            r.block_number == 0,
            r.block_timestamp == 0,
            r.block_coinbase@ == Seq::new(20, |i: int| 0u8),
            r.block_gas_limit == 0,
            r.chain_id == 1,
            r.base_fee@ == 0,
            r.difficulty@ == 0,
    {
        let r = Self {
            address: [0u8; 20],
            caller: [0u8; 20],
            origin: [0u8; 20],
            value: U256::zero(),
            calldata: Vec::new(),
            gas_limit: 0,
            gas_price: U256::zero(),
            code: Vec::new(),
            block_number: 0,
            block_timestamp: 0,
            block_coinbase: [0u8; 20],
            block_gas_limit: 0,
            chain_id: 1,
            base_fee: U256::zero(),
            difficulty: U256::zero(),
        };
        assert(r.address@ =~= Seq::new(20, |i: int| 0u8));
        assert(r.caller@ =~= Seq::new(20, |i: int| 0u8));
        assert(r.origin@ =~= Seq::new(20, |i: int| 0u8));
        assert(r.block_coinbase@ =~= Seq::new(20, |i: int| 0u8));
        r
    }
}

} // verus!
