//! The world state that execution may consult.

use vstd::prelude::*;
use crate::word::U256;

verus! {

pub type Address = [u8; 20];

/// Access to accounts, storage and block hashes, for users to implement.
pub trait Database {
    fn balance(&self, address: &Address) -> U256;

    fn code(&self, address: &Address) -> Vec<u8>;

    fn code_hash(&self, address: &Address) -> U256;

    fn storage(&self, address: &Address, slot: &U256) -> U256;

    fn set_storage(&mut self, address: &Address, slot: U256, value: U256);

    fn block_hash(&self, number: u64) -> U256;
}

/// A database in which every account is empty and every value is zero.
pub struct StubDatabase;

impl Database for StubDatabase {
    fn balance(&self, _address: &Address) -> (r: U256)
        ensures
            r@ == 0,
    {
        U256::zero()
    }

    fn code(&self, _address: &Address) -> (r: Vec<u8>)
        ensures
            r@ == Seq::<u8>::empty(),
    {
        Vec::new()
    }

    fn code_hash(&self, _address: &Address) -> (r: U256)
        ensures
            r@ == 0,
    {
        U256::zero()
    }

    fn storage(&self, _address: &Address, _slot: &U256) -> (r: U256)
        ensures
            r@ == 0,
    {
        U256::zero()
    }

    fn set_storage(&mut self, _address: &Address, _slot: U256, _value: U256) {
    }

    fn block_hash(&self, _number: u64) -> (r: U256)
        ensures
            r@ == 0,
    {
        U256::zero()
    }
}

} // verus!
