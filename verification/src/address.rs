//! Addresses and their derivation. A record is never stored at an address
//! that a caller picked: the address is computed from the identities the
//! record belongs to, under the engine's own identifier.

use crate::wire::{put_bytes, u64_be, u64_to_be, lemma_u64_be_round_trip};
use solana_program::pubkey::Pubkey;
use vstd::prelude::*;
use vstd::slice::slice_to_vec;
use vstd::std_specs::cmp::PartialEqSpecImpl;
use vstd::utf8::encode_utf8;

verus! {

/// A storage address, or the identity of a signer or of an engine: thirty-two
/// bytes.
#[derive(Clone, Copy, Debug, Eq)]
pub struct Address {
    pub bytes: [u8; 32],
}

impl View for Address {
    type V = Seq<u8>;

    open spec fn view(&self) -> Seq<u8> {
        self.bytes@
    }
}

impl PartialEq for Address {
    fn eq(&self, other: &Address) -> (same: bool) {
        let mut i: usize = 0;
        while i < 32
            invariant
                i <= 32,
                forall|j: int| 0 <= j < i ==> self.bytes[j] == other.bytes[j],
            decreases 32 - i,
        {
            if self.bytes[i] != other.bytes[i] {
                return false;
            }
            i += 1;
        }
        assert(self.bytes =~= other.bytes);
        true
    }
}

impl PartialEqSpecImpl for Address {
    open spec fn obeys_eq_spec() -> bool {
        true
    }

    open spec fn eq_spec(&self, other: &Address) -> bool {
        *self == *other
    }
}

impl Address {
    /// The address made of `bytes`.
    pub fn new(bytes: [u8; 32]) -> (address: Address)
        ensures
            address.bytes == bytes,
            address@ == bytes@,
    {
        Address { bytes }
    }

    /// The thirty-two bytes, as a vector.
    pub fn to_vec(&self) -> (bytes: Vec<u8>)
        ensures
            bytes@ == self@,
    {
        let mut bytes: Vec<u8> = Vec::new();
        put_bytes(&mut bytes, self.bytes.as_slice());
        bytes
    }

    /// Two addresses with the same bytes are one address.
    pub proof fn lemma_view_is_identity(self, other: Address)
        ensures
            (self@ == other@) <==> (self == other),
    {
        if self@ == other@ {
            assert(self.bytes =~= other.bytes);
        }
    }
}

/// The salt that sets the address of a reply counter apart from that of the
/// introduction it counts for.
pub open spec fn reply_salt() -> Seq<u8> {
    encode_utf8("reply"@)
}

/// Seed of the address of the introduction made by `introducer`.
pub open spec fn intro_seeds(introducer: Seq<u8>) -> Seq<Seq<u8>> {
    seq![introducer]
}

/// Seed of the address of the reply counter of the introduction made by
/// `introducer`.
pub open spec fn counter_seeds(introducer: Seq<u8>) -> Seq<Seq<u8>> {
    seq![introducer, reply_salt()]
}

/// Seed of the address of the reply to the introduction at `parent` that is
/// made while the counter stands at `counter`.
pub open spec fn reply_seeds(parent: Seq<u8>, counter: u64) -> Seq<Seq<u8>> {
    seq![parent, u64_be(counter)]
}

/// The byte strings that a vector of seeds holds.
pub open spec fn seeds_view(seeds: Seq<Vec<u8>>) -> Seq<Seq<u8>> {
    Seq::new(seeds.len(), |i: int| seeds[i]@)
}

/// What a derivation gives, with the address by its bytes.
pub open spec fn derived_view(found: Option<(Address, u8)>) -> Option<(Seq<u8>, u8)> {
    match found {
        Some((address, bump)) => Some((address@, bump)),
        None => None,
    }
}

/// The address that the ledger's derivation gives for `seeds` under the
/// engine `program_id`, with the bump that the derivation settled on: the
/// result of `Pubkey::try_find_program_address`. It is a hash of the seeds, of
/// the bump and of the engine's identifier, chosen so that no signing key
/// exists for it; no seed may be longer than thirty-two bytes and there may be
/// at most fifteen of them, else there is no address.
pub uninterp spec fn program_address(seeds: Seq<Seq<u8>>, program_id: Seq<u8>) -> Option<
    (Seq<u8>, u8),
>;

/// Calls `Pubkey::try_find_program_address` of the ledger's library on the
/// seeds and the engine's identifier. Taken on trust: that the call returns,
/// and that what it returns depends on nothing but its two arguments, which is
/// what gives `program_address` its meaning.
#[verifier::external_body]
fn try_find_program_address(seeds: &Vec<Vec<u8>>, program_id: &Address) -> (found: Option<
    (Address, u8),
>)
    ensures
        derived_view(found) == program_address(seeds_view(seeds@), program_id@),
{
    let parts: Vec<&[u8]> = seeds.iter().map(|seed| seed.as_slice()).collect();
    match Pubkey::try_find_program_address(&parts, &Pubkey::new_from_array(program_id.bytes)) {
        Some((key, bump)) => Some((Address { bytes: key.to_bytes() }, bump)),
        None => None,
    }
}

/// Derives the address for `seeds` under the engine `program_id`, together
/// with its bump. The same seeds and engine always give the same answer.
pub fn derive_address(seeds: &Vec<Vec<u8>>, program_id: &Address) -> (found: Option<(Address, u8)>)
    ensures
        derived_view(found) == program_address(seeds_view(seeds@), program_id@),
{
    try_find_program_address(seeds, program_id)
}

/// The seeds of the introduction made by `introducer`, as `derive_address`
/// takes them.
pub fn intro_seed_bytes(introducer: &Address) -> (seeds: Vec<Vec<u8>>)
    ensures
        seeds_view(seeds@) == intro_seeds(introducer@),
{
    let mut seeds: Vec<Vec<u8>> = Vec::new();
    seeds.push(introducer.to_vec());
    assert(seeds_view(seeds@) =~= intro_seeds(introducer@));
    seeds
}

/// The seeds of the reply counter of the introduction made by `introducer`.
pub fn counter_seed_bytes(introducer: &Address) -> (seeds: Vec<Vec<u8>>)
    ensures
        seeds_view(seeds@) == counter_seeds(introducer@),
{
    let mut seeds: Vec<Vec<u8>> = Vec::new();
    seeds.push(introducer.to_vec());
    seeds.push(slice_to_vec("reply".as_bytes()));
    assert(seeds_view(seeds@) =~= counter_seeds(introducer@));
    seeds
}

/// The seeds of the reply made to the introduction at `parent` while the
/// counter stands at `counter`.
pub fn reply_seed_bytes(parent: &Address, counter: u64) -> (seeds: Vec<Vec<u8>>)
    ensures
        seeds_view(seeds@) == reply_seeds(parent@, counter),
{
    let mut seeds: Vec<Vec<u8>> = Vec::new();
    seeds.push(parent.to_vec());
    seeds.push(u64_to_be(counter));
    assert(seeds_view(seeds@) =~= reply_seeds(parent@, counter));
    seeds
}

/// The address of the reply that is made to the introduction at
/// `parent_address` while its counter stands at `counter_value`.
pub fn next_address(parent_address: &Address, counter_value: u64, program_id: &Address) -> (found:
    Option<(Address, u8)>)
    ensures
        derived_view(found) == program_address(
            reply_seeds(parent_address@, counter_value),
            program_id@,
        ),
{
    let seeds = reply_seed_bytes(parent_address, counter_value);
    derive_address(&seeds, program_id)
}

/// Replies to one introduction that are made at different counter values are
/// derived from different seeds.
pub proof fn lemma_reply_seeds_differ(parent: Seq<u8>, first: u64, second: u64)
    requires
        first != second,
    ensures
        reply_seeds(parent, first) != reply_seeds(parent, second),
{
    lemma_u64_be_round_trip(first);
    lemma_u64_be_round_trip(second);
    assert(reply_seeds(parent, first)[1] == u64_be(first));
    assert(reply_seeds(parent, second)[1] == u64_be(second));
}

/// Derivation is a function: two derivations from the same seeds under the
/// same engine give the same address and the same bump.
pub proof fn lemma_derivation_repeats(
    first: Option<(Address, u8)>,
    second: Option<(Address, u8)>,
    seeds: Seq<Seq<u8>>,
    program_id: Seq<u8>,
)
    requires
        derived_view(first) == program_address(seeds, program_id),
        derived_view(second) == program_address(seeds, program_id),
    ensures
        first == second,
{
    if let Some((a, _)) = first {
        if let Some((b, _)) = second {
            a.lemma_view_is_identity(b);
        }
    }
}

} // verus!
