//! The operations of the engine. Each one makes its checks in a fixed order,
//! fails on the first that does not hold, and writes nothing before the last
//! has passed.

pub mod add_intro;
pub mod add_reply;
pub mod update_intro;

use crate::account::Account;
use crate::address::{counter_seeds, intro_seeds, program_address, Address};
use crate::error::IntroError;
use crate::instruction::{IntroInstruction, Request};
use crate::processor::add_intro::{add_intro, add_intro_refusal, plans_intro, IntroCreation};
use crate::processor::add_reply::{
    add_reply, add_reply_refusal, next_reply_address, plans_reply, ReplyCreation,
};
use crate::processor::update_intro::{update_intro, update_outcome};
use crate::state::{IntroRecord, ReplyCounterRecord};
use vstd::prelude::*;

verus! {

/// What is left to do once a request has been processed.
pub enum Pending {
    /// Nothing: the request was carried out.
    Done,
    /// An introduction to create, once the ledger has granted its storage.
    Intro(IntroCreation),
    /// A reply to create, once the ledger has granted its storage.
    Reply(ReplyCreation),
}

/// Whether `r` is what a request for a new introduction comes to: the
/// accounts are the introducer, the introduction and its counter, in this
/// order.
pub open spec fn intro_requested(
    r: Result<Pending, IntroError>,
    program_id: Seq<u8>,
    accounts: Seq<Account>,
    name: Seq<char>,
    message: Seq<char>,
) -> bool {
    if accounts.len() < 3 {
        r matches Err(e) && e == IntroError::MalformedRequest
    } else {
        let derived_intro = program_address(intro_seeds(accounts[0].key@), program_id);
        let derived_counter = program_address(counter_seeds(accounts[0].key@), program_id);
        match add_intro_refusal(
            accounts[0],
            accounts[1],
            accounts[2],
            name,
            message,
            derived_intro,
            derived_counter,
        ) {
            Some(refusal) => r matches Err(e) && e == refusal,
            None => r matches Ok(Pending::Intro(plan)) && plans_intro(
                plan,
                program_id,
                accounts[0].key@,
                name,
                message,
                derived_intro,
                derived_counter,
            ),
        }
    }
}

/// Whether `r` and the accounts `after` are what a request for an update
/// comes to: the accounts are the introducer and the introduction, in this
/// order, and nothing but the storage of the introduction is changed.
pub open spec fn update_requested(
    r: Result<Pending, IntroError>,
    program_id: Seq<u8>,
    accounts: Seq<Account>,
    after: Seq<Account>,
    name: Seq<char>,
    message: Seq<char>,
) -> bool {
    if accounts.len() < 2 {
        (r matches Err(e) && e == IntroError::MalformedRequest) && after == accounts
    } else {
        match update_outcome(
            program_id,
            accounts[0],
            accounts[1],
            name,
            message,
            program_address(intro_seeds(accounts[0].key@), program_id),
        ) {
            Ok(changed) => {
                &&& r matches Ok(Pending::Done)
                &&& after.len() == accounts.len()
                &&& forall|i: int| 0 <= i < accounts.len() && i != 1 ==> after[i] == accounts[i]
                &&& accounts[1].same_but_data(after[1])
                &&& after[1].data@ == changed.encoding() + accounts[1].data@.skip(
                    changed.size() as int,
                )
                &&& IntroRecord::decoding(after[1].data@) == Some(changed)
            },
            Err(refusal) => (r matches Err(e) && e == refusal) && after == accounts,
        }
    }
}

/// Whether `r` is what a request for a reply comes to: the accounts are the
/// replier, the introduction, its counter and the reply, in this order.
pub open spec fn reply_requested(
    r: Result<Pending, IntroError>,
    program_id: Seq<u8>,
    accounts: Seq<Account>,
    reply: Seq<char>,
) -> bool {
    if accounts.len() < 4 {
        r matches Err(e) && e == IntroError::MalformedRequest
    } else {
        let derived = next_reply_address(program_id, accounts[1].key@, accounts[2].data@);
        match add_reply_refusal(
            program_id,
            accounts[0],
            accounts[1],
            accounts[2],
            accounts[3],
            reply,
            derived,
        ) {
            Some(refusal) => r matches Err(e) && e == refusal,
            None => r matches Ok(Pending::Reply(plan)) && plans_reply(
                plan,
                program_id,
                accounts[0].key@,
                accounts[1].key@,
                accounts[2].key@,
                ReplyCounterRecord::decoding(accounts[2].data@).unwrap(),
                reply,
                derived,
            ),
        }
    }
}

/// Decodes a request and hands it to its operation, with the accounts the
/// operation takes from the front of `accounts`. A request that does not
/// decode, that comes with too few accounts, or that asks to initialize the
/// mint, which this engine does not do, is malformed. An update is carried
/// out at once; for a new introduction or reply the result holds what to ask
/// the ledger for and what to write then, and no account is changed.
pub fn process_instruction(
    program_id: &Address,
    accounts: &mut Vec<Account>,
    instruction_data: &[u8],
) -> (r: Result<Pending, IntroError>)
    ensures
        match Request::decoding(instruction_data@) {
            None => (r matches Err(e) && e == IntroError::MalformedRequest) && final(accounts)@
                == old(accounts)@,
            Some(Request::InitializeMint) => (r matches Err(e) && e
                == IntroError::MalformedRequest) && final(accounts)@ == old(accounts)@,
            Some(Request::AddIntro { name, message }) => intro_requested(
                r,
                program_id@,
                old(accounts)@,
                name,
                message,
            ) && final(accounts)@ == old(accounts)@,
            Some(Request::UpdateIntro { name, message }) => update_requested(
                r,
                program_id@,
                old(accounts)@,
                final(accounts)@,
                name,
                message,
            ),
            Some(Request::AddReply { reply }) => reply_requested(
                r,
                program_id@,
                old(accounts)@,
                reply,
            ) && final(accounts)@ == old(accounts)@,
        },
{
    let instruction = match IntroInstruction::unpack(instruction_data) {
        Ok(instruction) => instruction,
        Err(e) => {
            return Err(e);
        },
    };
    match instruction {
        IntroInstruction::AddIntro { name, message } => {
            if accounts.len() < 3 {
                return Err(IntroError::MalformedRequest);
            }
            match add_intro(program_id, &accounts[0], &accounts[1], &accounts[2], name, message) {
                Ok(plan) => Ok(Pending::Intro(plan)),
                Err(e) => Err(e),
            }
        },
        IntroInstruction::UpdateIntro { name, message } => {
            if accounts.len() < 2 {
                return Err(IntroError::MalformedRequest);
            }
            let ghost before = accounts@;
            let mut pda_intro = accounts.remove(1);
            let done = update_intro(program_id, &accounts[0], &mut pda_intro, name, message);
            accounts.insert(1, pda_intro);
            assert(done is Err ==> accounts@ =~= before);
            match done {
                Ok(()) => Ok(Pending::Done),
                Err(e) => Err(e),
            }
        },
        IntroInstruction::AddReply { reply } => {
            if accounts.len() < 4 {
                return Err(IntroError::MalformedRequest);
            }
            match add_reply(
                program_id,
                &accounts[0],
                &accounts[1],
                &accounts[2],
                &accounts[3],
                reply,
            ) {
                Ok(plan) => Ok(Pending::Reply(plan)),
                Err(e) => Err(e),
            }
        },
        IntroInstruction::InitializeMint => Err(IntroError::MalformedRequest),
    }
}

} // verus!
