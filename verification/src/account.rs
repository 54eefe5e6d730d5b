//! What the engine sees of an account on the ledger.

use crate::address::{seeds_view, Address};
use vstd::prelude::*;

verus! {

/// An account as it is handed to an operation: where it is, who controls it,
/// what it holds.
pub struct Account {
    /// Address of the account.
    pub key: Address,
    /// Whether the holder of `key` signed the request.
    pub is_signer: bool,
    /// The engine that alone may change `data`.
    pub owner: Address,
    /// Balance of the account.
    pub lamports: u64,
    /// The bytes stored in the account.
    pub data: Vec<u8>,
}

impl Account {
    /// Whether `other` is this account with nothing but its stored bytes
    /// changed.
    pub open spec fn same_but_data(self, other: Account) -> bool {
        &&& self.key == other.key
        &&& self.is_signer == other.is_signer
        &&& self.owner == other.owner
        &&& self.lamports == other.lamports
    }
}

/// Whether the account exists on the ledger: it has a balance and it has
/// storage.
pub fn is_account_initialized(account: &Account) -> (exists: bool)
    ensures
        exists == (account.lamports != 0 && account.data@.len() != 0),
{
    if account.lamports == 0 {
        return false;
    }
    if account.data.len() == 0 {
        return false;
    }
    true
}

/// The seeds with which the engine signs for a derived address: the seeds
/// of the derivation, then the bump it settled on.
pub open spec fn signer_seeds(seeds: Seq<Seq<u8>>, bump: u8) -> Seq<Seq<u8>> {
    seeds.push(seq![bump])
}

/// Storage that the ledger is asked to set aside before a record is written.
/// The engine only says what it needs; granting it is the ledger's part.
pub struct Allocation {
    /// Where the storage is to be.
    pub address: Address,
    /// How many bytes it is to hold.
    pub space: usize,
    /// Who pays the deposit for it.
    pub payer: Address,
    /// The engine that is to control it.
    pub owner: Address,
    /// The seeds with which the engine signs for `address`.
    pub seeds: Vec<Vec<u8>>,
}

impl Allocation {
    /// Whether this is the request for `space` bytes at `address`, paid by
    /// `payer`, controlled by `owner` and signed for with `seeds`.
    pub open spec fn asks(
        self,
        address: Seq<u8>,
        space: nat,
        payer: Seq<u8>,
        owner: Seq<u8>,
        seeds: Seq<Seq<u8>>,
    ) -> bool {
        &&& self.address@ == address
        &&& self.space == space
        &&& self.payer@ == payer
        &&& self.owner@ == owner
        &&& seeds_view(self.seeds@) == seeds
    }
}

/// Appends the bump to the seeds of a derivation.
pub fn with_bump(seeds: Vec<Vec<u8>>, bump: u8) -> (signed: Vec<Vec<u8>>)
    ensures
        seeds_view(signed@) == signer_seeds(seeds_view(seeds@), bump),
{
    let ghost before = seeds@;
    let mut signed = seeds;
    let mut last: Vec<u8> = Vec::new();
    last.push(bump);
    signed.push(last);
    assert(seeds_view(signed@) =~= signer_seeds(seeds_view(before), bump));
    signed
}

} // verus!
