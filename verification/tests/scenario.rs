use intro_program::account::Account;
use intro_program::address::{
    counter_seed_bytes, derive_address, intro_seed_bytes, next_address, Address,
};
use intro_program::error::IntroError;
use intro_program::processor::add_intro::add_intro;
use intro_program::processor::add_reply::add_reply;
use intro_program::state::{IntroAccountState, IntroReply, IntroReplyCounter};

fn address(fill: u8) -> Address {
    Address::new([fill; 32])
}

fn signer(fill: u8) -> Account {
    Account {
        key: address(fill),
        is_signer: true,
        owner: address(0),
        lamports: 1_000_000,
        data: Vec::new(),
    }
}

fn empty_at(key: Address) -> Account {
    Account { key, is_signer: false, owner: address(0), lamports: 0, data: Vec::new() }
}

/// What the ledger does when it grants storage: `space` zero bytes under the
/// engine's control.
fn grant(account: &mut Account, space: usize, owner: Address) {
    account.data = vec![0u8; space];
    account.owner = owner;
    account.lamports = 1;
}

#[test]
fn intro_then_two_replies() {
    let program = address(7);
    let introducer = signer(1);
    let (intro_key, _) = derive_address(&intro_seed_bytes(&introducer.key), &program).unwrap();
    let (counter_key, _) = derive_address(&counter_seed_bytes(&introducer.key), &program).unwrap();
    let mut pda_intro = empty_at(intro_key);
    let mut pda_counter = empty_at(counter_key);

    let size = IntroAccountState::get_account_size("Ada".to_string(), "Hello".to_string());
    assert_eq!(size, 9 + 1 + 32 + 7 + 9);
    assert!(size <= 1000);
    let plan = add_intro(
        &program,
        &introducer,
        &pda_intro,
        &pda_counter,
        "Ada".to_string(),
        "Hello".to_string(),
    )
    .unwrap();
    assert_eq!(plan.intro.space, 1000);
    assert_eq!(plan.counter.space, 20);
    grant(&mut pda_intro, plan.intro.space, plan.intro.owner);
    grant(&mut pda_counter, plan.counter.space, plan.counter.owner);
    assert_eq!(plan.commit(true, &mut pda_intro, &mut pda_counter), Ok(()));

    let stored = IntroAccountState::decode(&pda_intro.data).unwrap();
    assert!(stored.is_initialized);
    assert_eq!(stored.discriminator, "intro");
    assert_eq!(stored.introducer, introducer.key);
    assert_eq!(stored.name, "Ada");
    assert_eq!(stored.message, "Hello");
    assert_eq!(IntroReplyCounter::decode(&pda_counter.data).unwrap().counter, 0);

    let first_replier = signer(2);
    let (first_key, _) = next_address(&intro_key, 0, &program).unwrap();
    let mut first_reply = empty_at(first_key);
    let plan = add_reply(
        &program,
        &first_replier,
        &pda_intro,
        &pda_counter,
        &first_reply,
        "Hi Ada".to_string(),
    )
    .unwrap();
    grant(&mut first_reply, plan.reply.space, plan.reply.owner);
    assert_eq!(plan.commit(true, &mut first_reply, &mut pda_counter), Ok(()));
    assert_eq!(IntroReplyCounter::decode(&pda_counter.data).unwrap().counter, 1);
    let stored = IntroReply::decode(&first_reply.data).unwrap();
    assert_eq!(stored.count, 1);
    assert_eq!(stored.reply, "Hi Ada");
    assert_eq!(stored.replier, first_replier.key);
    assert_eq!(stored.intro, intro_key);

    let second_replier = signer(3);
    let (second_key, _) = next_address(&intro_key, 1, &program).unwrap();
    assert_ne!(second_key, first_key);
    let mut second_reply = empty_at(second_key);
    let plan = add_reply(
        &program,
        &second_replier,
        &pda_intro,
        &pda_counter,
        &second_reply,
        "Welcome".to_string(),
    )
    .unwrap();
    grant(&mut second_reply, plan.reply.space, plan.reply.owner);
    assert_eq!(plan.commit(true, &mut second_reply, &mut pda_counter), Ok(()));
    assert_eq!(IntroReplyCounter::decode(&pda_counter.data).unwrap().counter, 2);
    assert_eq!(IntroReply::decode(&second_reply.data).unwrap().count, 2);

    let stale = add_reply(
        &program,
        &second_replier,
        &pda_intro,
        &pda_counter,
        &second_reply,
        "Again".to_string(),
    );
    assert!(matches!(stale, Err(IntroError::AddressMismatch)));
}
