//! Changing the name and the message of an introduction.

use crate::account::Account;
use crate::address::{derive_address, derived_view, intro_seed_bytes, intro_seeds, program_address, Address};
use crate::error::IntroError;
use crate::state::{intro_size, intro_too_large, IntroAccountState, IntroRecord, RECORD_CAPACITY};
use vstd::prelude::*;

verus! {

/// The introduction that an update leaves behind, or the reason it is turned
/// down, given the address that derivation gave for the introducer. The
/// checks, in this order: the record is under this engine; the introducer
/// signed; the record is at the introducer's address; the new texts fit the
/// capacity; the stored bytes are a record; that record is initialized; the
/// changed record fits the storage it is in.
pub open spec fn update_outcome(
    program_id: Seq<u8>,
    initializer: Account,
    pda_intro: Account,
    name: Seq<char>,
    message: Seq<char>,
    derived: Option<(Seq<u8>, u8)>,
) -> Result<IntroRecord, IntroError> {
    if pda_intro.owner@ != program_id {
        Err(IntroError::OwnershipViolation)
    } else if !initializer.is_signer {
        Err(IntroError::MissingSignature)
    } else if !(derived matches Some((address, _)) && address == pda_intro.key@) {
        Err(IntroError::AddressMismatch)
    } else if intro_size(name, message) > RECORD_CAPACITY {
        Err(IntroError::RecordTooLarge)
    } else {
        match IntroRecord::decoding(pda_intro.data@) {
            None => Err(IntroError::DataCorruption),
            Some(stored) => if !stored.is_initialized {
                Err(IntroError::NotInitialized)
            } else {
                let changed = IntroRecord { name, message, ..stored };
                if changed.encodable() && changed.size() <= pda_intro.data@.len() {
                    Ok(changed)
                } else {
                    Err(IntroError::RecordTooLarge)
                }
            },
        }
    }
}

/// Carries out an update once the introducer's address has been derived:
/// `derived` is what derivation gave. On success the storage holds the
/// record with its new name and message and with everything else as it was;
/// on failure nothing is changed.
pub fn update_intro_with_derived(
    derived: Option<(Address, u8)>,
    program_id: &Address,
    initializer: &Account,
    pda_intro: &mut Account,
    name: String,
    message: String,
) -> (r: Result<(), IntroError>)
    ensures
        match update_outcome(
            program_id@,
            *initializer,
            *old(pda_intro),
            name@,
            message@,
            derived_view(derived),
        ) {
            Ok(changed) => {
                &&& r is Ok
                &&& old(pda_intro).same_but_data(*final(pda_intro))
                &&& final(pda_intro).data@ == changed.encoding() + old(pda_intro).data@.skip(
                    changed.size() as int,
                )
                &&& IntroRecord::decoding(final(pda_intro).data@) == Some(changed)
            },
            Err(e) => r == Err::<(), IntroError>(e) && *final(pda_intro) == *old(pda_intro),
        },
{
    proof {
        pda_intro.owner.lemma_view_is_identity(*program_id);
    }
    if pda_intro.owner != *program_id {
        return Err(IntroError::OwnershipViolation);
    }
    if !initializer.is_signer {
        return Err(IntroError::MissingSignature);
    }
    match derived {
        Some((address, _)) => {
            proof {
                address.lemma_view_is_identity(pda_intro.key);
            }
            if address != pda_intro.key {
                return Err(IntroError::AddressMismatch);
            }
        },
        None => {
            return Err(IntroError::AddressMismatch);
        },
    }
    if intro_too_large(&name, &message) {
        return Err(IntroError::RecordTooLarge);
    }
    let mut account_data = match IntroAccountState::decode(pda_intro.data.as_slice()) {
        Ok(stored) => stored,
        Err(e) => {
            return Err(e);
        },
    };
    if !account_data.is_initialized() {
        return Err(IntroError::NotInitialized);
    }
    account_data.name = name;
    account_data.message = message;
    account_data.store(&mut pda_intro.data)
}

/// Replaces the name and the message of the introduction that `initializer`
/// made. The record must be under this engine, `initializer` must have
/// signed, `pda_intro` must be at the address derived from `initializer`, the
/// new texts must fit, and the record must have been created before.
pub fn update_intro(
    program_id: &Address,
    initializer: &Account,
    pda_intro: &mut Account,
    name: String,
    message: String,
) -> (r: Result<(), IntroError>)
    ensures
        match update_outcome(
            program_id@,
            *initializer,
            *old(pda_intro),
            name@,
            message@,
            program_address(intro_seeds(initializer.key@), program_id@),
        ) {
            Ok(changed) => {
                &&& r is Ok
                &&& old(pda_intro).same_but_data(*final(pda_intro))
                &&& final(pda_intro).data@ == changed.encoding() + old(pda_intro).data@.skip(
                    changed.size() as int,
                )
                &&& IntroRecord::decoding(final(pda_intro).data@) == Some(changed)
            },
            Err(e) => r == Err::<(), IntroError>(e) && *final(pda_intro) == *old(pda_intro),
        },
{
    let seeds = intro_seed_bytes(&initializer.key);
    let derived = derive_address(&seeds, program_id);
    update_intro_with_derived(derived, program_id, initializer, pda_intro, name, message)
}

/// An update changes the two texts and nothing else. Storage that does not
/// hold an initialized record is turned down with `NotInitialized` once the
/// earlier checks have passed; and where an update succeeds, reading the
/// storage back gives the record that was stored before with its
/// discriminator, its flag and its introducer as they were, and with the new
/// name and message.
pub proof fn lemma_update_keeps_identity(
    program_id: Seq<u8>,
    initializer: Account,
    pda_intro: Account,
    name: Seq<char>,
    message: Seq<char>,
    derived: Option<(Seq<u8>, u8)>,
    tail: Seq<u8>,
)
    requires
        pda_intro.owner@ == program_id,
        initializer.is_signer,
        derived matches Some((address, _)) && address == pda_intro.key@,
        intro_size(name, message) <= RECORD_CAPACITY,
        IntroRecord::decoding(pda_intro.data@) is Some,
    ensures
        !IntroRecord::decoding(pda_intro.data@).unwrap().is_initialized ==> update_outcome(
            program_id,
            initializer,
            pda_intro,
            name,
            message,
            derived,
        ) == Err::<IntroRecord, IntroError>(IntroError::NotInitialized),
        update_outcome(program_id, initializer, pda_intro, name, message, derived) matches Ok(
            changed,
        ) ==> {
            let stored = IntroRecord::decoding(pda_intro.data@).unwrap();
            &&& changed.discriminator == stored.discriminator
            &&& changed.introducer == stored.introducer
            &&& changed.is_initialized
            &&& changed.name == name
            &&& changed.message == message
            &&& IntroRecord::decoding(changed.encoding() + tail) == Some(changed)
        },
{
    if let Ok(changed) = update_outcome(program_id, initializer, pda_intro, name, message, derived) {
        changed.lemma_decode_encoding(tail);
    }
}

} // verus!
