//! The reward that follows a new introduction or a new reply: tokens issued
//! to the holding that the acting identity has with the token ledger. The
//! engine issues nothing itself. It makes sure that the accounts named in the
//! request are the one mint and the one mint authority that belong to this
//! engine and the holding that belongs to the identity, and says what is to
//! be asked of the token ledger.

use crate::account::{is_account_initialized, signer_seeds, with_bump, Account};
use crate::address::{derive_address, derived_view, program_address, seeds_view, Address};
use crate::error::IntroError;
use vstd::prelude::*;
use vstd::slice::slice_to_vec;
use vstd::utf8::encode_utf8;

verus! {

/// What a new introduction earns, in the smallest unit of the token.
pub const INTRO_REWARD: u64 = 10_000_000_000;

/// What a new reply earns, in the smallest unit of the token.
pub const REPLY_REWARD: u64 = 5_000_000_000;

/// Seeds of the address of the engine's mint.
pub open spec fn mint_seeds() -> Seq<Seq<u8>> {
    seq![encode_utf8("token_mint"@)]
}

/// Seeds of the address of the authority over the engine's mint.
pub open spec fn authority_seeds() -> Seq<Seq<u8>> {
    seq![encode_utf8("token_auth"@)]
}

/// Seeds of the address of the holding that `wallet` has of the tokens of
/// `mint` with the token ledger `token_program`; the address is derived
/// under the ledger of holdings.
pub open spec fn holding_seeds(wallet: Seq<u8>, token_program: Seq<u8>, mint: Seq<u8>) -> Seq<
    Seq<u8>,
> {
    seq![wallet, token_program, mint]
}

/// What is to be asked of the token ledger.
pub struct Reward {
    /// The mint that issues the tokens.
    pub mint: Address,
    /// The holding that receives them.
    pub holding: Address,
    /// The authority over the mint, an address of this engine's.
    pub authority: Address,
    /// The seeds with which the engine signs for `authority`.
    pub seeds: Vec<Vec<u8>>,
    /// How much is issued.
    pub amount: u64,
    /// Whether the holding has to be opened first.
    pub create_holding: bool,
}

/// Why the accounts of a reward are turned down, given the identifier of
/// the token ledger and what derivation gave for the mint, for its authority
/// and for the holding; none if they are not. The checks, in this order: the
/// mint, its authority and the holding are at their derived addresses; the
/// token ledger is the one expected.
pub open spec fn reward_refusal(
    token_mint: Account,
    mint_auth: Account,
    user_ata: Account,
    token_program: Account,
    token_program_id: Seq<u8>,
    derived_mint: Option<(Seq<u8>, u8)>,
    derived_authority: Option<(Seq<u8>, u8)>,
    derived_holding: Option<(Seq<u8>, u8)>,
) -> Option<IntroError> {
    if !(derived_mint matches Some((address, _)) && address == token_mint.key@) {
        Some(IntroError::AddressMismatch)
    } else if !(derived_authority matches Some((address, _)) && address == mint_auth.key@) {
        Some(IntroError::AddressMismatch)
    } else if !(derived_holding matches Some((address, _)) && address == user_ata.key@) {
        Some(IntroError::AddressMismatch)
    } else if token_program.key@ != token_program_id {
        Some(IntroError::AddressMismatch)
    } else {
        None
    }
}

/// Whether `reward` asks for `amount` from the mint to the holding, signed
/// for by the authority with the seeds of its derivation, the holding to be
/// opened first if it does not exist yet.
pub open spec fn asks_reward(
    reward: Reward,
    token_mint: Account,
    mint_auth: Account,
    user_ata: Account,
    amount: u64,
    derived_authority: Option<(Seq<u8>, u8)>,
) -> bool {
    &&& derived_authority matches Some((_, bump))
    &&& reward.mint == token_mint.key
    &&& reward.holding == user_ata.key
    &&& reward.authority == mint_auth.key
    &&& seeds_view(reward.seeds@) == signer_seeds(authority_seeds(), bump)
    &&& reward.amount == amount
    &&& reward.create_holding == !(user_ata.lamports != 0 && user_ata.data@.len() != 0)
}

/// Identifier of the token ledger: the thirty-two bytes that the text
/// `TokenkegQfeZyiNwAJbNbGKPFXCWuBvf9Ss623VQ5DA` stands for in base 58.
pub const TOKEN_LEDGER_ID: [u8; 32] = [
    6, 221, 246, 225, 215, 101, 161, 147, 217, 203, 225, 70, 206, 235, 121, 172, 28, 180, 133,
    237, 95, 91, 55, 145, 58, 140, 245, 133, 126, 255, 0, 169,
];

/// Identifier of the ledger of holdings: the thirty-two bytes that the text
/// `ATokenGPvbdGVxr1b2hvZbsiqW5xWH25efTNsLJA8knL` stands for in base 58.
pub const HOLDINGS_LEDGER_ID: [u8; 32] = [
    140, 151, 37, 143, 78, 36, 137, 241, 187, 61, 16, 41, 20, 142, 13, 131, 11, 90, 19, 153, 218,
    255, 16, 132, 4, 142, 123, 216, 219, 233, 248, 89,
];

/// Identifier of the token ledger, as a sequence of bytes.
pub open spec fn token_ledger_id() -> Seq<u8> {
    TOKEN_LEDGER_ID@
}

/// Identifier of the ledger of holdings, as a sequence of bytes.
pub open spec fn holdings_ledger_id() -> Seq<u8> {
    HOLDINGS_LEDGER_ID@
}

/// Identifier of the token ledger: `spl_token::id()`. Taken on trust: that
/// the constant which that library declares, by its text in base 58, is the
/// thirty-two bytes of `TOKEN_LEDGER_ID`.
#[verifier::external_body]
fn token_program_id() -> (id: Address)
    ensures
        id@ == token_ledger_id(),
{
    Address { bytes: spl_token::id().to_bytes() }
}

/// Identifier of the ledger of holdings:
/// `spl_associated_token_account::id()`. Taken on trust: that the constant
/// which that library declares, by its text in base 58, is the thirty-two
/// bytes of `HOLDINGS_LEDGER_ID`.
#[verifier::external_body]
fn holding_program_id() -> (id: Address)
    ensures
        id@ == holdings_ledger_id(),
{
    Address { bytes: spl_associated_token_account::id().to_bytes() }
}

/// The seeds of the engine's mint, as `derive_address` takes them.
pub fn mint_seed_bytes() -> (seeds: Vec<Vec<u8>>)
    ensures
        seeds_view(seeds@) == mint_seeds(),
{
    let mut seeds: Vec<Vec<u8>> = Vec::new();
    seeds.push(slice_to_vec("token_mint".as_bytes()));
    assert(seeds_view(seeds@) =~= mint_seeds());
    seeds
}

/// The seeds of the authority over the engine's mint.
pub fn authority_seed_bytes() -> (seeds: Vec<Vec<u8>>)
    ensures
        seeds_view(seeds@) == authority_seeds(),
{
    let mut seeds: Vec<Vec<u8>> = Vec::new();
    seeds.push(slice_to_vec("token_auth".as_bytes()));
    assert(seeds_view(seeds@) =~= authority_seeds());
    seeds
}

/// The seeds of the holding that `wallet` has of the tokens of `mint`.
pub fn holding_seed_bytes(wallet: &Address, token_program: &Address, mint: &Address) -> (seeds:
    Vec<Vec<u8>>)
    ensures
        seeds_view(seeds@) == holding_seeds(wallet@, token_program@, mint@),
{
    let mut seeds: Vec<Vec<u8>> = Vec::new();
    seeds.push(wallet.to_vec());
    seeds.push(token_program.to_vec());
    seeds.push(mint.to_vec());
    assert(seeds_view(seeds@) =~= holding_seeds(wallet@, token_program@, mint@));
    seeds
}

/// Checks the accounts of a reward once the identifier of the token ledger
/// is known and the three addresses have been derived.
pub fn reward_with_derived(
    token_program_id: &Address,
    derived_mint: Option<(Address, u8)>,
    derived_authority: Option<(Address, u8)>,
    derived_holding: Option<(Address, u8)>,
    token_mint: &Account,
    mint_auth: &Account,
    user_ata: &Account,
    token_program: &Account,
    amount: u64,
) -> (r: Result<Reward, IntroError>)
    ensures
        match reward_refusal(
            *token_mint,
            *mint_auth,
            *user_ata,
            *token_program,
            token_program_id@,
            derived_view(derived_mint),
            derived_view(derived_authority),
            derived_view(derived_holding),
        ) {
            Some(e) => r matches Err(refusal) && refusal == e,
            None => r matches Ok(reward) && asks_reward(
                reward,
                *token_mint,
                *mint_auth,
                *user_ata,
                amount,
                derived_view(derived_authority),
            ),
        },
{
    match derived_mint {
        Some((address, _)) => {
            proof {
                address.lemma_view_is_identity(token_mint.key);
            }
            if address != token_mint.key {
                return Err(IntroError::AddressMismatch);
            }
        },
        None => {
            return Err(IntroError::AddressMismatch);
        },
    }
    let bump = match derived_authority {
        Some((address, bump)) => {
            proof {
                address.lemma_view_is_identity(mint_auth.key);
            }
            if address != mint_auth.key {
                return Err(IntroError::AddressMismatch);
            }
            bump
        },
        None => {
            return Err(IntroError::AddressMismatch);
        },
    };
    match derived_holding {
        Some((address, _)) => {
            proof {
                address.lemma_view_is_identity(user_ata.key);
            }
            if address != user_ata.key {
                return Err(IntroError::AddressMismatch);
            }
        },
        None => {
            return Err(IntroError::AddressMismatch);
        },
    }
    proof {
        token_program.key.lemma_view_is_identity(*token_program_id);
    }
    if token_program.key != *token_program_id {
        return Err(IntroError::AddressMismatch);
    }
    Ok(
        Reward {
            mint: token_mint.key,
            holding: user_ata.key,
            authority: mint_auth.key,
            seeds: with_bump(authority_seed_bytes(), bump),
            amount,
            create_holding: !is_account_initialized(user_ata),
        },
    )
}

/// Checks the accounts of the reward of `amount` that `recipient` has earned
/// and says what is to be asked of the token ledger. The mint and its
/// authority must be at the two addresses that this engine derives for them,
/// the holding at the address derived for `recipient`, the token ledger and
/// the mint under the ledger of holdings, and `token_program` must be the
/// token ledger. Every failure is an `AddressMismatch`.
pub fn reward(
    program_id: &Address,
    recipient: &Account,
    token_mint: &Account,
    mint_auth: &Account,
    user_ata: &Account,
    token_program: &Account,
    amount: u64,
) -> (r: Result<Reward, IntroError>)
    ensures
        match reward_refusal(
            *token_mint,
            *mint_auth,
            *user_ata,
            *token_program,
            token_ledger_id(),
            program_address(mint_seeds(), program_id@),
            program_address(authority_seeds(), program_id@),
            program_address(
                holding_seeds(recipient.key@, token_ledger_id(), token_mint.key@),
                holdings_ledger_id(),
            ),
        ) {
            Some(e) => r matches Err(refusal) && refusal == e,
            None => r matches Ok(reward) && asks_reward(
                reward,
                *token_mint,
                *mint_auth,
                *user_ata,
                amount,
                program_address(authority_seeds(), program_id@),
            ),
        },
{
    let token_id = token_program_id();
    let holding_id = holding_program_id();
    let derived_mint = derive_address(&mint_seed_bytes(), program_id);
    let derived_authority = derive_address(&authority_seed_bytes(), program_id);
    let derived_holding = derive_address(
        &holding_seed_bytes(&recipient.key, &token_id, &token_mint.key),
        &holding_id,
    );
    reward_with_derived(
        &token_id,
        derived_mint,
        derived_authority,
        derived_holding,
        token_mint,
        mint_auth,
        user_ata,
        token_program,
        amount,
    )
}

} // verus!
