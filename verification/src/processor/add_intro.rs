//! Creating an introduction together with its reply counter.
//!
//! The work falls in two parts with the ledger in between. `add_intro` makes
//! every check that needs no storage and says which storage to ask for. Once
//! the ledger has granted both pieces, `IntroCreation::commit` makes sure
//! that neither holds a record yet and writes both records.

use crate::account::{signer_seeds, with_bump, Account, Allocation};
use crate::address::{
    counter_seed_bytes, counter_seeds, derive_address, derived_view, intro_seed_bytes,
    intro_seeds, program_address, Address,
};
use crate::error::IntroError;
use crate::state::{
    intro_size, intro_tag, intro_too_large, lemma_tag_sizes, overwrite_front, zeros,
    IntroAccountState, IntroRecord, IntroReplyCounter, ReplyCounterRecord, RECORD_CAPACITY,
};
use vstd::prelude::*;

verus! {

/// What remains to be done for an introduction whose request passed every
/// check: the storage to ask for and the records to write into it.
pub struct IntroCreation {
    /// Storage of the introduction.
    pub intro: Allocation,
    /// Storage of its reply counter.
    pub counter: Allocation,
    /// The introduction to write.
    pub record: IntroAccountState,
    /// The reply counter to write.
    pub tally: IntroReplyCounter,
}

/// Why a request for a new introduction is turned down before any storage is
/// asked for, given what derivation gave for the two addresses; none if it is
/// not. The checks, in this order: the introducer signed; the introduction
/// and then the counter are at their derived addresses; the texts fit the
/// capacity.
pub open spec fn add_intro_refusal(
    initializer: Account,
    pda_intro: Account,
    pda_counter: Account,
    name: Seq<char>,
    message: Seq<char>,
    derived_intro: Option<(Seq<u8>, u8)>,
    derived_counter: Option<(Seq<u8>, u8)>,
) -> Option<IntroError> {
    if !initializer.is_signer {
        Some(IntroError::MissingSignature)
    } else if !(derived_intro matches Some((address, _)) && address == pda_intro.key@) {
        Some(IntroError::AddressMismatch)
    } else if !(derived_counter matches Some((address, _)) && address == pda_counter.key@) {
        Some(IntroError::AddressMismatch)
    } else if intro_size(name, message) > RECORD_CAPACITY {
        Some(IntroError::RecordTooLarge)
    } else {
        None
    }
}

/// Whether `plan` is what a request for a new introduction that passed every
/// check leaves to be done: storage of the fixed capacity at the derived
/// address of the introduction, storage of the size of a counter at the
/// derived address of the counter, both paid by the introducer and signed
/// for with the seeds of their derivation; then the introduction as asked
/// for, initialized, and a counter that stands at zero.
pub open spec fn plans_intro(
    plan: IntroCreation,
    program_id: Seq<u8>,
    introducer: Seq<u8>,
    name: Seq<char>,
    message: Seq<char>,
    derived_intro: Option<(Seq<u8>, u8)>,
    derived_counter: Option<(Seq<u8>, u8)>,
) -> bool {
    &&& derived_intro matches Some((intro_address, intro_bump))
    &&& derived_counter matches Some((counter_address, counter_bump))
    &&& plan.intro.asks(
        intro_address,
        RECORD_CAPACITY as nat,
        introducer,
        program_id,
        signer_seeds(intro_seeds(introducer), intro_bump),
    )
    &&& plan.counter.asks(
        counter_address,
        IntroReplyCounter::SIZE as nat,
        introducer,
        program_id,
        signer_seeds(counter_seeds(introducer), counter_bump),
    )
    &&& plan.record@ == IntroRecord {
        discriminator: intro_tag(),
        is_initialized: true,
        introducer,
        name,
        message,
    }
    &&& plan.tally@ == ReplyCounterRecord::counting(0)
}

/// Checks a request for a new introduction once both addresses have been
/// derived: `derived_intro` and `derived_counter` are what derivation gave.
pub fn add_intro_with_derived(
    derived_intro: Option<(Address, u8)>,
    derived_counter: Option<(Address, u8)>,
    program_id: &Address,
    initializer: &Account,
    pda_intro: &Account,
    pda_counter: &Account,
    name: String,
    message: String,
) -> (r: Result<IntroCreation, IntroError>)
    ensures
        match add_intro_refusal(
            *initializer,
            *pda_intro,
            *pda_counter,
            name@,
            message@,
            derived_view(derived_intro),
            derived_view(derived_counter),
        ) {
            Some(e) => r matches Err(refusal) && refusal == e,
            None => r matches Ok(plan) && plans_intro(
                plan,
                program_id@,
                initializer.key@,
                name@,
                message@,
                derived_view(derived_intro),
                derived_view(derived_counter),
            ),
        },
{
    if !initializer.is_signer {
        return Err(IntroError::MissingSignature);
    }
    let (intro_address, intro_bump) = match derived_intro {
        Some(found) => found,
        None => {
            return Err(IntroError::AddressMismatch);
        },
    };
    proof {
        intro_address.lemma_view_is_identity(pda_intro.key);
    }
    if intro_address != pda_intro.key {
        return Err(IntroError::AddressMismatch);
    }
    let (counter_address, counter_bump) = match derived_counter {
        Some(found) => found,
        None => {
            return Err(IntroError::AddressMismatch);
        },
    };
    proof {
        counter_address.lemma_view_is_identity(pda_counter.key);
    }
    if counter_address != pda_counter.key {
        return Err(IntroError::AddressMismatch);
    }
    if intro_too_large(&name, &message) {
        return Err(IntroError::RecordTooLarge);
    }
    proof {
        lemma_tag_sizes();
    }
    let intro = Allocation {
        address: intro_address,
        space: RECORD_CAPACITY,
        payer: initializer.key,
        owner: *program_id,
        seeds: with_bump(intro_seed_bytes(&initializer.key), intro_bump),
    };
    let counter = Allocation {
        address: counter_address,
        space: IntroReplyCounter::SIZE,
        payer: initializer.key,
        owner: *program_id,
        seeds: with_bump(counter_seed_bytes(&initializer.key), counter_bump),
    };
    let record = IntroAccountState {
        discriminator: IntroAccountState::DISCRIMINATOR.to_owned(),
        is_initialized: true,
        introducer: initializer.key,
        name,
        message,
    };
    let tally = IntroReplyCounter {
        discriminator: IntroReplyCounter::DISCRIMINATOR.to_owned(),
        is_initialized: true,
        counter: 0,
    };
    Ok(IntroCreation { intro, counter, record, tally })
}

/// Checks a request of `initializer` for a new introduction under the name
/// and with the message given. `initializer` must have signed, `pda_intro`
/// and `pda_counter` must be at the addresses derived from `initializer`,
/// and the texts must fit the capacity. On success the result says which
/// storage to ask the ledger for and which records `commit` will write.
pub fn add_intro(
    program_id: &Address,
    initializer: &Account,
    pda_intro: &Account,
    pda_counter: &Account,
    name: String,
    message: String,
) -> (r: Result<IntroCreation, IntroError>)
    ensures
        match add_intro_refusal(
            *initializer,
            *pda_intro,
            *pda_counter,
            name@,
            message@,
            program_address(intro_seeds(initializer.key@), program_id@),
            program_address(counter_seeds(initializer.key@), program_id@),
        ) {
            Some(e) => r matches Err(refusal) && refusal == e,
            None => r matches Ok(plan) && plans_intro(
                plan,
                program_id@,
                initializer.key@,
                name@,
                message@,
                program_address(intro_seeds(initializer.key@), program_id@),
                program_address(counter_seeds(initializer.key@), program_id@),
            ),
        },
{
    let derived_intro = derive_address(&intro_seed_bytes(&initializer.key), program_id);
    let derived_counter = derive_address(&counter_seed_bytes(&initializer.key), program_id);
    add_intro_with_derived(
        derived_intro,
        derived_counter,
        program_id,
        initializer,
        pda_intro,
        pda_counter,
        name,
        message,
    )
}

/// Why the records of `plan` are not written into the two accounts; none if
/// they are. The checks, in this order: the ledger granted both pieces of
/// storage; each account is at the address that storage was asked for; the
/// introduction's storage spells a record, and one that is not initialized;
/// the same of the counter's storage; the introduction and then the counter
/// fit the storage they are to go in.
pub open spec fn intro_commit_refusal(
    plan: IntroCreation,
    granted: bool,
    pda_intro: Account,
    pda_counter: Account,
) -> Option<IntroError> {
    if !granted {
        Some(IntroError::StorageAllocationFailed)
    } else if pda_intro.key != plan.intro.address || pda_counter.key != plan.counter.address {
        Some(IntroError::AddressMismatch)
    } else {
        match IntroRecord::decoding(pda_intro.data@) {
            None => Some(IntroError::DataCorruption),
            Some(stored) => if stored.is_initialized {
                Some(IntroError::AlreadyInitialized)
            } else {
                match ReplyCounterRecord::decoding(pda_counter.data@) {
                    None => Some(IntroError::DataCorruption),
                    Some(counted) => if counted.is_initialized {
                        Some(IntroError::AlreadyInitialized)
                    } else if !(plan.record@.encodable() && plan.record@.size()
                        <= pda_intro.data@.len()) {
                        Some(IntroError::RecordTooLarge)
                    } else if !(plan.tally@.encodable() && plan.tally@.size()
                        <= pda_counter.data@.len()) {
                        Some(IntroError::RecordTooLarge)
                    } else {
                        None
                    },
                }
            },
        }
    }
}

impl IntroCreation {
    /// Writes both records, once the ledger has been asked for the storage:
    /// `granted` tells whether it set both pieces aside, and the accounts are
    /// handed in as they are after that. Both records are written or neither
    /// is. On success each account holds its record at the front of its
    /// storage; on failure nothing is changed.
    pub fn commit(&self, granted: bool, pda_intro: &mut Account, pda_counter: &mut Account) -> (r:
        Result<(), IntroError>)
        ensures
            match intro_commit_refusal(*self, granted, *old(pda_intro), *old(pda_counter)) {
                Some(e) => {
                    &&& r == Err::<(), IntroError>(e)
                    &&& *final(pda_intro) == *old(pda_intro)
                    &&& *final(pda_counter) == *old(pda_counter)
                },
                None => {
                    &&& r is Ok
                    &&& old(pda_intro).same_but_data(*final(pda_intro))
                    &&& old(pda_counter).same_but_data(*final(pda_counter))
                    &&& final(pda_intro).data@ == self.record@.encoding() + old(
                        pda_intro,
                    ).data@.skip(self.record@.size() as int)
                    &&& final(pda_counter).data@ == self.tally@.encoding() + old(
                        pda_counter,
                    ).data@.skip(self.tally@.size() as int)
                    &&& IntroRecord::decoding(final(pda_intro).data@) == Some(self.record@)
                    &&& ReplyCounterRecord::decoding(final(pda_counter).data@) == Some(
                        self.tally@,
                    )
                },
            },
    {
        if !granted {
            return Err(IntroError::StorageAllocationFailed);
        }
        if pda_intro.key != self.intro.address || pda_counter.key != self.counter.address {
            return Err(IntroError::AddressMismatch);
        }
        let stored = match IntroAccountState::decode(pda_intro.data.as_slice()) {
            Ok(stored) => stored,
            Err(e) => {
                return Err(e);
            },
        };
        if stored.is_initialized() {
            return Err(IntroError::AlreadyInitialized);
        }
        let counted = match IntroReplyCounter::decode(pda_counter.data.as_slice()) {
            Ok(counted) => counted,
            Err(e) => {
                return Err(e);
            },
        };
        if counted.is_initialized() {
            return Err(IntroError::AlreadyInitialized);
        }
        let intro_bytes = match self.record.encode() {
            Ok(bytes) => bytes,
            Err(e) => {
                return Err(e);
            },
        };
        proof {
            self.record@.lemma_encoding_len();
        }
        if intro_bytes.len() > pda_intro.data.len() {
            return Err(IntroError::RecordTooLarge);
        }
        let counter_bytes = match self.tally.encode() {
            Ok(bytes) => bytes,
            Err(e) => {
                return Err(e);
            },
        };
        proof {
            self.tally@.lemma_decode_encoding(pda_counter.data@.skip(counter_bytes.len() as int));
            self.record@.lemma_decode_encoding(pda_intro.data@.skip(intro_bytes.len() as int));
        }
        if counter_bytes.len() > pda_counter.data.len() {
            return Err(IntroError::RecordTooLarge);
        }
        overwrite_front(&mut pda_intro.data, &intro_bytes);
        overwrite_front(&mut pda_counter.data, &counter_bytes);
        Ok(())
    }
}

/// A new introduction can be read back. For every request that passes
/// `add_intro`: on storage as the ledger hands it out, zero bytes of the
/// sizes asked for at the addresses asked for and granted, `commit` does not
/// turn the plan down; and whenever it does not, the front of the introduction's
/// storage decodes to an initialized record with the name and the message of
/// the request, and the counter's to a counter that stands at zero.
pub proof fn lemma_created_intro_reads_back(
    plan: IntroCreation,
    program_id: Seq<u8>,
    introducer: Seq<u8>,
    name: Seq<char>,
    message: Seq<char>,
    derived_intro: Option<(Seq<u8>, u8)>,
    derived_counter: Option<(Seq<u8>, u8)>,
    pda_intro: Account,
    pda_counter: Account,
    tail: Seq<u8>,
)
    requires
        introducer.len() == 32,
        intro_size(name, message) <= RECORD_CAPACITY,
        plans_intro(plan, program_id, introducer, name, message, derived_intro, derived_counter),
        pda_intro.key@ == plan.intro.address@,
        pda_counter.key@ == plan.counter.address@,
    ensures
        pda_intro.data@ == zeros(plan.intro.space as nat) && pda_counter.data@ == zeros(
            plan.counter.space as nat,
        ) ==> intro_commit_refusal(plan, true, pda_intro, pda_counter) is None,
        IntroRecord::decoding(plan.record@.encoding() + tail) matches Some(stored)
            && stored.is_initialized && stored.name == name && stored.message == message
            && stored.introducer == introducer && stored.discriminator == intro_tag(),
        ReplyCounterRecord::decoding(plan.tally@.encoding() + tail)
            == Some(ReplyCounterRecord::counting(0)),
{
    lemma_tag_sizes();
    ReplyCounterRecord::lemma_counting_size(0);
    IntroRecord::lemma_fresh_storage(RECORD_CAPACITY as nat);
    ReplyCounterRecord::lemma_fresh_storage(IntroReplyCounter::SIZE as nat);
    plan.intro.address.lemma_view_is_identity(pda_intro.key);
    plan.counter.address.lemma_view_is_identity(pda_counter.key);
    plan.record@.lemma_decode_encoding(tail);
    plan.tally@.lemma_decode_encoding(tail);
}

/// An introduction is created once. Where the introduction's storage already
/// holds an initialized record, as it does after a first creation, and the
/// ledger does not object to being asked for it again, `commit` turns every
/// plan for that address down with `AlreadyInitialized`; by its contract it
/// then leaves both accounts, and so the name and the message stored, as they
/// were.
pub proof fn lemma_second_creation_is_refused(
    plan: IntroCreation,
    pda_intro: Account,
    pda_counter: Account,
)
    requires
        pda_intro.key == plan.intro.address,
        pda_counter.key == plan.counter.address,
        IntroRecord::decoding(pda_intro.data@) matches Some(stored) && stored.is_initialized,
    ensures
        intro_commit_refusal(plan, true, pda_intro, pda_counter) == Some(
            IntroError::AlreadyInitialized,
        ),
{
}

/// Texts that do not fit the capacity never lead to a request for storage:
/// `add_intro` turns them down whatever else holds, and with `RecordTooLarge`
/// where the introducer signed and the addresses are the derived ones.
pub proof fn lemma_oversized_intro_is_refused(
    initializer: Account,
    pda_intro: Account,
    pda_counter: Account,
    name: Seq<char>,
    message: Seq<char>,
    derived_intro: Option<(Seq<u8>, u8)>,
    derived_counter: Option<(Seq<u8>, u8)>,
)
    requires
        intro_size(name, message) > RECORD_CAPACITY,
    ensures
        add_intro_refusal(
            initializer,
            pda_intro,
            pda_counter,
            name,
            message,
            derived_intro,
            derived_counter,
        ) is Some,
        initializer.is_signer && (derived_intro matches Some((address, _)) && address
            == pda_intro.key@) && (derived_counter matches Some((address, _)) && address
            == pda_counter.key@) ==> add_intro_refusal(
            initializer,
            pda_intro,
            pda_counter,
            name,
            message,
            derived_intro,
            derived_counter,
        ) == Some(IntroError::RecordTooLarge),
{
}

} // verus!
