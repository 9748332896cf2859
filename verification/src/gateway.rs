//! The randomness registry of the destination chain: the pulses that one
//! authorized relayer has written, by block number.

use std::collections::HashMap;
use vstd::prelude::*;
use vstd::slice::slice_to_vec;

verus! {

broadcast use vstd::std_specs::hash::group_hash_axioms;

/// The account of a caller: 32 bytes.
#[derive(Clone, Copy, Debug)]
pub struct AccountId(pub [u8; 32]);

impl View for AccountId {
    type V = Seq<u8>;

    open spec fn view(&self) -> Seq<u8> {
        self.0@
    }
}

impl AccountId {
    /// Whether `other` is the same account.
    pub fn same_as(&self, other: &AccountId) -> (same: bool)
        ensures
            same == (self@ == other@),
    {
        let mut i: usize = 0;
        while i < 32
            invariant
                i <= 32,
                forall|j: int| 0 <= j < i ==> self@[j] == other@[j],
            decreases 32 - i,
        {
            if self.0[i] != other.0[i] {
                return false;
            }
            i = i + 1;
        }
        assert(self@ =~= other@);
        true
    }
}

/// Why the registry refused a call.
#[derive(Clone, Copy, Debug, PartialEq, Eq, Structural)]
pub enum Error {
    /// The caller is not the authorized relayer.
    InvalidOrigin,
}

/// The registry: who may write, what was written, and the last block written.
#[derive(Debug)]
pub struct Gateway {
    authorized_caller: AccountId,
    blocks: HashMap<u32, Vec<u8>>,
    latest_block_number: u32,
}

/// A registry as plain values.
pub struct GatewayView {
    pub authorized_caller: Seq<u8>,
    pub blocks: Map<u32, Seq<u8>>,
    pub latest_block_number: u32,
}

impl View for Gateway {
    type V = GatewayView;

    closed spec fn view(&self) -> GatewayView {
        GatewayView {
            authorized_caller: self.authorized_caller@,
            blocks: Map::new(
                |n: u32| self.blocks@.contains_key(n),
                |n: u32| self.blocks@[n]@,
            ),
            latest_block_number: self.latest_block_number,
        }
    }
}

impl Gateway {
    /// A registry that `authorized_caller` may write to, with nothing written
    /// yet.
    pub fn new(authorized_caller: AccountId) -> (gateway: Gateway)
        ensures
            gateway@ == (GatewayView {
                authorized_caller: authorized_caller@,
                blocks: Map::<u32, Seq<u8>>::empty(),
                latest_block_number: 0,
            }),
    {
        let gateway = Gateway { authorized_caller, blocks: HashMap::new(), latest_block_number: 0 };
        assert(gateway@.blocks =~= Map::<u32, Seq<u8>>::empty());
        gateway
    }

    /// The block number of the last pulse written, 0 before the first.
    pub fn get_latest_block_number(&self) -> (n: u32)
        ensures
            n == self@.latest_block_number,
    {
        self.latest_block_number
    }

    /// Stores `serialized_sig` under `best_etf_block_number` and makes that
    /// the latest block, whatever it was before, if `caller` is the
    /// authorized relayer. Any other caller gets `InvalidOrigin`, and the
    /// registry stays as it was.
    pub fn write_block(
        &mut self,
        caller: &AccountId,
        best_etf_block_number: u32,
        serialized_sig: Vec<u8>,
    ) -> (r: Result<(), Error>)
        ensures
            caller@ != old(self)@.authorized_caller ==> r == Err::<(), Error>(Error::InvalidOrigin)
                && final(self)@ == old(self)@,
            caller@ == old(self)@.authorized_caller ==> r is Ok && final(self)@ == (GatewayView {
                authorized_caller: old(self)@.authorized_caller,
                blocks: old(self)@.blocks.insert(best_etf_block_number, serialized_sig@),
                latest_block_number: best_etf_block_number,
            }),
    {
        if !caller.same_as(&self.authorized_caller) {
            return Err(Error::InvalidOrigin);
        }
        let ghost before = self@.blocks;
        self.blocks.insert(best_etf_block_number, serialized_sig);
        self.latest_block_number = best_etf_block_number;
        assert(self@.blocks =~= before.insert(best_etf_block_number, serialized_sig@));
        Ok(())
    }

    /// The pulse written for `block_number`, if one was.
    pub fn read_block(&self, block_number: u32) -> (r: Option<Vec<u8>>)
        ensures
            r is Some <==> self@.blocks.contains_key(block_number),
            r is Some ==> r->Some_0@ == self@.blocks[block_number],
    {
        match self.blocks.get(&block_number) {
            Some(found) => Some(slice_to_vec(found.as_slice())),
            None => None,
        }
    }
}

} // verus!
