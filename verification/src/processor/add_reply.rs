//! Creating a reply to an introduction.
//!
//! Replies to one introduction are numbered by its counter. The address of a
//! reply is derived from the address of the introduction and from the value
//! at which the counter stands when the reply is made, so that every reply
//! gets an address of its own. As with introductions the work falls in two
//! parts: `add_reply` checks and plans, `ReplyCreation::commit` writes once
//! the ledger has granted the storage.

use crate::account::{signer_seeds, with_bump, Account, Allocation};
use crate::address::{
    derived_view, lemma_reply_seeds_differ, next_address, program_address, reply_seed_bytes,
    reply_seeds, Address,
};
use crate::error::IntroError;
use crate::state::{
    lemma_decoded_counter_fits, lemma_tag_sizes, overwrite_front, reply_size, reply_tag,
    reply_too_large, zeros, IntroReply, IntroReplyCounter, ReplyCounterRecord, ReplyRecord,
    RECORD_CAPACITY,
};
use vstd::prelude::*;

verus! {

/// What remains to be done for a reply whose request passed every check: the
/// storage to ask for, the reply to write into it, and the counter as it
/// stands once the reply is written.
pub struct ReplyCreation {
    /// Storage of the reply.
    pub reply: Allocation,
    /// Where the counter is.
    pub counter_address: Address,
    /// The reply to write.
    pub record: IntroReply,
    /// The counter to write behind it.
    pub tally: IntroReplyCounter,
}

/// Why a request for a reply is turned down before any storage is asked for,
/// given what derivation gave for the address of the reply; none if it is
/// not. The checks, in this order: the introduction and its counter are under
/// this engine; the replier signed; the counter's storage spells a record,
/// and one that is initialized; the reply is at its derived address; the text
/// fits the capacity; the counter can still be advanced.
pub open spec fn add_reply_refusal(
    program_id: Seq<u8>,
    replier: Account,
    pda_intro: Account,
    pda_counter: Account,
    pda_reply: Account,
    reply: Seq<char>,
    derived: Option<(Seq<u8>, u8)>,
) -> Option<IntroError> {
    if pda_intro.owner@ != program_id || pda_counter.owner@ != program_id {
        Some(IntroError::OwnershipViolation)
    } else if !replier.is_signer {
        Some(IntroError::MissingSignature)
    } else {
        match ReplyCounterRecord::decoding(pda_counter.data@) {
            None => Some(IntroError::DataCorruption),
            Some(counted) => if !counted.is_initialized {
                Some(IntroError::NotInitialized)
            } else if !(derived matches Some((address, _)) && address == pda_reply.key@) {
                Some(IntroError::AddressMismatch)
            } else if reply_size(reply) > RECORD_CAPACITY {
                Some(IntroError::RecordTooLarge)
            } else if counted.counter == u64::MAX {
                Some(IntroError::DataCorruption)
            } else {
                None
            },
        }
    }
}

/// The address of the next reply to the introduction at `parent`, whose
/// counter is stored as `counter_data`: derived from `parent` and from the
/// value the counter stands at. None if `counter_data` spells no counter.
pub open spec fn next_reply_address(program_id: Seq<u8>, parent: Seq<u8>, counter_data: Seq<u8>)
    -> Option<(Seq<u8>, u8)> {
    match ReplyCounterRecord::decoding(counter_data) {
        Some(counted) => program_address(reply_seeds(parent, counted.counter), program_id),
        None => None,
    }
}

/// The counter once one more reply has been made: one higher, nothing else
/// in it changed.
pub open spec fn advance(counted: ReplyCounterRecord) -> ReplyCounterRecord {
    ReplyCounterRecord { counter: (counted.counter + 1) as u64, ..counted }
}

/// The counter once `n` more replies have been made.
pub open spec fn after_replies(start: ReplyCounterRecord, n: nat) -> ReplyCounterRecord
    decreases n,
{
    if n == 0 {
        start
    } else {
        advance(after_replies(start, (n - 1) as nat))
    }
}

/// The number that the reply gets which is made while the counter stands at
/// `counted`.
pub open spec fn reply_number(counted: ReplyCounterRecord) -> u64 {
    (counted.counter + 1) as u64
}

/// Whether `plan` is what a request for a reply that passed every check
/// leaves to be done, the counter standing at `counted`: storage of the fixed
/// capacity at the derived address, paid by the replier and signed for with
/// the seeds of the derivation; the reply as asked for, initialized and
/// numbered one above the counter; and the counter advanced by one, nothing
/// else in it changed.
pub open spec fn plans_reply(
    plan: ReplyCreation,
    program_id: Seq<u8>,
    replier: Seq<u8>,
    parent: Seq<u8>,
    counter_address: Seq<u8>,
    counted: ReplyCounterRecord,
    reply: Seq<char>,
    derived: Option<(Seq<u8>, u8)>,
) -> bool {
    &&& derived matches Some((address, bump))
    &&& counted.counter < u64::MAX
    &&& plan.reply.asks(
        address,
        RECORD_CAPACITY as nat,
        replier,
        program_id,
        signer_seeds(reply_seeds(parent, counted.counter), bump),
    )
    &&& plan.counter_address@ == counter_address
    &&& plan.record@ == ReplyRecord {
        discriminator: reply_tag(),
        is_initialized: true,
        intro: parent,
        replier,
        reply,
        count: reply_number(counted),
    }
    &&& plan.tally@ == advance(counted)
}

/// Checks a request for a reply once the address of the reply has been
/// derived: `derived` is what derivation gave for the introduction's address
/// and the value the counter stands at.
pub fn add_reply_with_derived(
    derived: Option<(Address, u8)>,
    program_id: &Address,
    replier: &Account,
    pda_intro: &Account,
    pda_counter: &Account,
    pda_reply: &Account,
    reply: String,
) -> (r: Result<ReplyCreation, IntroError>)
    ensures
        match add_reply_refusal(
            program_id@,
            *replier,
            *pda_intro,
            *pda_counter,
            *pda_reply,
            reply@,
            derived_view(derived),
        ) {
            Some(e) => r matches Err(refusal) && refusal == e,
            None => r matches Ok(plan) && plans_reply(
                plan,
                program_id@,
                replier.key@,
                pda_intro.key@,
                pda_counter.key@,
                ReplyCounterRecord::decoding(pda_counter.data@).unwrap(),
                reply@,
                derived_view(derived),
            ),
        },
{
    proof {
        pda_intro.owner.lemma_view_is_identity(*program_id);
        pda_counter.owner.lemma_view_is_identity(*program_id);
    }
    if pda_intro.owner != *program_id || pda_counter.owner != *program_id {
        return Err(IntroError::OwnershipViolation);
    }
    if !replier.is_signer {
        return Err(IntroError::MissingSignature);
    }
    let mut counter_data = match IntroReplyCounter::decode(pda_counter.data.as_slice()) {
        Ok(counted) => counted,
        Err(e) => {
            return Err(e);
        },
    };
    if !counter_data.is_initialized() {
        return Err(IntroError::NotInitialized);
    }
    let (address, bump) = match derived {
        Some(found) => found,
        None => {
            return Err(IntroError::AddressMismatch);
        },
    };
    proof {
        address.lemma_view_is_identity(pda_reply.key);
    }
    if address != pda_reply.key {
        return Err(IntroError::AddressMismatch);
    }
    if reply_too_large(&reply) {
        return Err(IntroError::RecordTooLarge);
    }
    if counter_data.counter == u64::MAX {
        return Err(IntroError::DataCorruption);
    }
    proof {
        lemma_tag_sizes();
    }
    let allocation = Allocation {
        address,
        space: RECORD_CAPACITY,
        payer: replier.key,
        owner: *program_id,
        seeds: with_bump(reply_seed_bytes(&pda_intro.key, counter_data.counter), bump),
    };
    let record = IntroReply {
        discriminator: IntroReply::DISCRIMINATOR.to_owned(),
        is_initialized: true,
        intro: pda_intro.key,
        replier: replier.key,
        reply,
        count: counter_data.counter + 1,
    };
    counter_data.counter += 1;
    Ok(
        ReplyCreation {
            reply: allocation,
            counter_address: pda_counter.key,
            record,
            tally: counter_data,
        },
    )
}

/// Checks a request of `replier` for a reply to the introduction at
/// `pda_intro`. The introduction and its counter must be under this engine,
/// `replier` must have signed, the counter must be initialized, `pda_reply`
/// must be at the address derived from the introduction's address and the
/// value the counter stands at, and the text must fit the capacity. On
/// success the result says which storage to ask the ledger for and what
/// `commit` will write.
pub fn add_reply(
    program_id: &Address,
    replier: &Account,
    pda_intro: &Account,
    pda_counter: &Account,
    pda_reply: &Account,
    reply: String,
) -> (r: Result<ReplyCreation, IntroError>)
    ensures
        match add_reply_refusal(
            program_id@,
            *replier,
            *pda_intro,
            *pda_counter,
            *pda_reply,
            reply@,
            next_reply_address(program_id@, pda_intro.key@, pda_counter.data@),
        ) {
            Some(e) => r matches Err(refusal) && refusal == e,
            None => r matches Ok(plan) && plans_reply(
                plan,
                program_id@,
                replier.key@,
                pda_intro.key@,
                pda_counter.key@,
                ReplyCounterRecord::decoding(pda_counter.data@).unwrap(),
                reply@,
                next_reply_address(program_id@, pda_intro.key@, pda_counter.data@),
            ),
        },
{
    let derived = match IntroReplyCounter::decode(pda_counter.data.as_slice()) {
        Ok(counted) => next_address(&pda_intro.key, counted.counter, program_id),
        Err(_) => None,
    };
    add_reply_with_derived(derived, program_id, replier, pda_intro, pda_counter, pda_reply, reply)
}

/// Why the records of `plan` are not written into the two accounts; none if
/// they are. The checks, in this order: the ledger granted the storage; each
/// account is at the address the plan was made for; the counter's storage spells a record, one that is
/// initialized, and the plan advances it by exactly one; the reply's storage
/// spells a record, and one that is not initialized; the reply and then the
/// counter fit the storage they are to go in.
pub open spec fn reply_commit_refusal(
    plan: ReplyCreation,
    granted: bool,
    pda_reply: Account,
    pda_counter: Account,
) -> Option<IntroError> {
    if !granted {
        Some(IntroError::StorageAllocationFailed)
    } else if pda_reply.key != plan.reply.address || pda_counter.key != plan.counter_address {
        Some(IntroError::AddressMismatch)
    } else {
        match ReplyCounterRecord::decoding(pda_counter.data@) {
            None => Some(IntroError::DataCorruption),
            Some(counted) => if !counted.is_initialized {
                Some(IntroError::NotInitialized)
            } else if plan.tally@.counter != counted.counter + 1 {
                Some(IntroError::AddressMismatch)
            } else {
                match ReplyRecord::decoding(pda_reply.data@) {
                    None => Some(IntroError::DataCorruption),
                    Some(stored) => if stored.is_initialized {
                        Some(IntroError::AlreadyInitialized)
                    } else if !(plan.record@.encodable() && plan.record@.size()
                        <= pda_reply.data@.len()) {
                        Some(IntroError::RecordTooLarge)
                    } else if !(plan.tally@.encodable() && plan.tally@.size()
                        <= pda_counter.data@.len()) {
                        Some(IntroError::RecordTooLarge)
                    } else {
                        None
                    },
                }
            },
        }
    }
}

impl ReplyCreation {
    /// Writes the reply and advances the counter, once the ledger has been
    /// asked for the storage: `granted` tells whether it set it aside, and the
    /// accounts are handed in as they are after that. A plan
    /// made while the counter stood elsewhere is turned down, since its
    /// address is not the one derived from the counter as it stands. Both
    /// records are written or neither is; on failure nothing is changed.
    pub fn commit(&self, granted: bool, pda_reply: &mut Account, pda_counter: &mut Account) -> (r:
        Result<(), IntroError>)
        ensures
            match reply_commit_refusal(*self, granted, *old(pda_reply), *old(pda_counter)) {
                Some(e) => {
                    &&& r == Err::<(), IntroError>(e)
                    &&& *final(pda_reply) == *old(pda_reply)
                    &&& *final(pda_counter) == *old(pda_counter)
                },
                None => {
                    &&& r is Ok
                    &&& old(pda_reply).same_but_data(*final(pda_reply))
                    &&& old(pda_counter).same_but_data(*final(pda_counter))
                    &&& final(pda_reply).data@ == self.record@.encoding() + old(
                        pda_reply,
                    ).data@.skip(self.record@.size() as int)
                    &&& final(pda_counter).data@ == self.tally@.encoding() + old(
                        pda_counter,
                    ).data@.skip(self.tally@.size() as int)
                    &&& ReplyRecord::decoding(final(pda_reply).data@) == Some(self.record@)
                    &&& ReplyCounterRecord::decoding(final(pda_counter).data@) == Some(
                        self.tally@,
                    )
                    &&& self.tally@.counter == ReplyCounterRecord::decoding(
                        old(pda_counter).data@,
                    ).unwrap().counter + 1
                },
            },
    {
        if !granted {
            return Err(IntroError::StorageAllocationFailed);
        }
        if pda_reply.key != self.reply.address || pda_counter.key != self.counter_address {
            return Err(IntroError::AddressMismatch);
        }
        let counted = match IntroReplyCounter::decode(pda_counter.data.as_slice()) {
            Ok(counted) => counted,
            Err(e) => {
                return Err(e);
            },
        };
        if !counted.is_initialized() {
            return Err(IntroError::NotInitialized);
        }
        if counted.counter == u64::MAX || self.tally.counter != counted.counter + 1 {
            return Err(IntroError::AddressMismatch);
        }
        let stored = match IntroReply::decode(pda_reply.data.as_slice()) {
            Ok(stored) => stored,
            Err(e) => {
                return Err(e);
            },
        };
        if stored.is_initialized() {
            return Err(IntroError::AlreadyInitialized);
        }
        let reply_bytes = match self.record.encode() {
            Ok(bytes) => bytes,
            Err(e) => {
                return Err(e);
            },
        };
        proof {
            self.record@.lemma_decode_encoding(pda_reply.data@.skip(reply_bytes.len() as int));
        }
        if reply_bytes.len() > pda_reply.data.len() {
            return Err(IntroError::RecordTooLarge);
        }
        let counter_bytes = match self.tally.encode() {
            Ok(bytes) => bytes,
            Err(e) => {
                return Err(e);
            },
        };
        proof {
            self.tally@.lemma_decode_encoding(pda_counter.data@.skip(counter_bytes.len() as int));
        }
        if counter_bytes.len() > pda_counter.data.len() {
            return Err(IntroError::RecordTooLarge);
        }
        overwrite_front(&mut pda_reply.data, &reply_bytes);
        overwrite_front(&mut pda_counter.data, &counter_bytes);
        Ok(())
    }
}

/// Replies are numbered in the order they are made. Starting from the
/// counter that is written with a new introduction, which stands at zero: once
/// `n` replies have been made the counter stands at `n`, the next reply gets
/// the number `n + 1`, and it is derived from other seeds than any reply made
/// before it.
pub proof fn lemma_replies_count_up(parent: Seq<u8>, n: nat)
    requires
        n < u64::MAX,
    ensures
        after_replies(ReplyCounterRecord::counting(0), n) == ReplyCounterRecord::counting(n as u64),
        reply_number(after_replies(ReplyCounterRecord::counting(0), n)) == n + 1,
        forall|earlier: nat|
            earlier < n ==> reply_seeds(
                parent,
                #[trigger] after_replies(ReplyCounterRecord::counting(0), earlier).counter,
            ) != reply_seeds(parent, after_replies(ReplyCounterRecord::counting(0), n).counter),
    decreases n,
{
    let start = ReplyCounterRecord::counting(0);
    if n > 0 {
        lemma_replies_count_up(parent, (n - 1) as nat);
    }
    assert forall|earlier: nat| earlier < n implies reply_seeds(
        parent,
        #[trigger] after_replies(start, earlier).counter,
    ) != reply_seeds(parent, after_replies(start, n).counter) by {
        lemma_replies_count_up(parent, earlier);
        lemma_reply_seeds_differ(parent, earlier as u64, n as u64);
    }
}

/// A reply that is written moves the counter from where it stood to one
/// above, and carries that number: whatever the accounts held, if `commit`
/// does not turn the plan of a checked request down, the counter it writes is
/// the stored one advanced by one.
pub proof fn lemma_commit_advances_counter(
    plan: ReplyCreation,
    program_id: Seq<u8>,
    replier: Seq<u8>,
    parent: Seq<u8>,
    counted: ReplyCounterRecord,
    reply: Seq<char>,
    derived: Option<(Seq<u8>, u8)>,
    pda_reply: Account,
    pda_counter: Account,
)
    requires
        plans_reply(plan, program_id, replier, parent, pda_counter.key@, counted, reply, derived),
        reply_commit_refusal(plan, true, pda_reply, pda_counter) is None,
    ensures
        ReplyCounterRecord::decoding(pda_counter.data@) matches Some(stored) && stored.counter
            == counted.counter && plan.tally@.counter == stored.counter + 1 && plan.record@.count
            == stored.counter + 1,
{
}

/// On storage as the ledger hands it out, the plan of a checked request is
/// written: a reply that passed `add_reply` is not turned down by `commit`
/// when the ledger granted the storage, the reply's account holds zero bytes
/// of the capacity asked for and the counter's account is as it was when the
/// request was checked.
pub proof fn lemma_reply_fits_fresh_storage(
    plan: ReplyCreation,
    program_id: Seq<u8>,
    replier: Account,
    pda_intro: Account,
    pda_counter: Account,
    pda_reply: Account,
    reply: Seq<char>,
    derived: Option<(Seq<u8>, u8)>,
    fresh: Account,
)
    requires
        add_reply_refusal(program_id, replier, pda_intro, pda_counter, pda_reply, reply, derived)
            is None,
        plans_reply(
            plan,
            program_id,
            replier.key@,
            pda_intro.key@,
            pda_counter.key@,
            ReplyCounterRecord::decoding(pda_counter.data@).unwrap(),
            reply,
            derived,
        ),
        fresh.key == pda_reply.key,
        fresh.data@ == zeros(plan.reply.space as nat),
    ensures
        reply_commit_refusal(plan, true, fresh, pda_counter) is None,
{
    let counted = ReplyCounterRecord::decoding(pda_counter.data@).unwrap();
    lemma_tag_sizes();
    ReplyRecord::lemma_fresh_storage(RECORD_CAPACITY as nat);
    plan.counter_address.lemma_view_is_identity(pda_counter.key);
    plan.reply.address.lemma_view_is_identity(fresh.key);
    lemma_decoded_counter_fits(pda_counter.data@);
}

/// A reply is only planned at its derived address and within the capacity,
/// wherever the counter stands. Once the ownership, the signature and the
/// counter's record are in order: a reply account that is not at the address
/// derived from the introduction and the counter is turned down with
/// `AddressMismatch`; at the right address, a text above the capacity is
/// turned down with `RecordTooLarge`.
pub proof fn lemma_misplaced_or_oversized_reply_is_refused(
    program_id: Seq<u8>,
    replier: Account,
    pda_intro: Account,
    pda_counter: Account,
    pda_reply: Account,
    reply: Seq<char>,
    derived: Option<(Seq<u8>, u8)>,
)
    requires
        pda_intro.owner@ == program_id,
        pda_counter.owner@ == program_id,
        replier.is_signer,
        ReplyCounterRecord::decoding(pda_counter.data@) matches Some(counted)
            && counted.is_initialized,
    ensures
        !(derived matches Some((address, _)) && address == pda_reply.key@) ==> add_reply_refusal(
            program_id,
            replier,
            pda_intro,
            pda_counter,
            pda_reply,
            reply,
            derived,
        ) == Some(IntroError::AddressMismatch),
        (derived matches Some((address, _)) && address == pda_reply.key@) && reply_size(reply)
            > RECORD_CAPACITY ==> add_reply_refusal(
            program_id,
            replier,
            pda_intro,
            pda_counter,
            pda_reply,
            reply,
            derived,
        ) == Some(IntroError::RecordTooLarge),
{
}

/// A reply that was written is never written over: whatever the plan, an
/// account that holds an initialized reply is turned down by `commit`, which
/// by its contract then leaves it as it is.
pub proof fn lemma_written_reply_is_kept(
    plan: ReplyCreation,
    granted: bool,
    pda_reply: Account,
    pda_counter: Account,
)
    requires
        ReplyRecord::decoding(pda_reply.data@) matches Some(stored) && stored.is_initialized,
    ensures
        reply_commit_refusal(plan, granted, pda_reply, pda_counter) is Some,
{
}

/// On a ledger where one address holds one account, every reply that is
/// written has an address of its own. Let `written` be accounts that hold
/// initialized replies, and let any of them that is at the address of
/// `pda_reply` hold what `pda_reply` holds. Then a plan that `commit` does not
/// turn down on `pda_reply` writes at an address where none of them is.
pub proof fn lemma_new_reply_has_an_address_of_its_own(
    plan: ReplyCreation,
    written: Seq<Account>,
    pda_reply: Account,
    pda_counter: Account,
)
    requires
        forall|i: int|
            0 <= i < written.len() ==> (ReplyRecord::decoding(
                #[trigger] written[i].data@,
            ) matches Some(stored) && stored.is_initialized),
        forall|i: int|
            0 <= i < written.len() && (#[trigger] written[i]).key == pda_reply.key
                ==> written[i].data@ == pda_reply.data@,
        reply_commit_refusal(plan, true, pda_reply, pda_counter) is None,
    ensures
        forall|i: int| 0 <= i < written.len() ==> (#[trigger] written[i]).key != pda_reply.key,
{
    assert forall|i: int| 0 <= i < written.len() implies (#[trigger] written[i]).key
        != pda_reply.key by {
        if written[i].key == pda_reply.key {
            assert(ReplyRecord::decoding(written[i].data@) matches Some(stored)
                && stored.is_initialized);
            lemma_written_reply_is_kept(plan, true, pda_reply, pda_counter);
        }
    }
}

} // verus!
