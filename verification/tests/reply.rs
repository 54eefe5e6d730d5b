use intro_program::account::Account;
use intro_program::address::{
    counter_seed_bytes, derive_address, intro_seed_bytes, next_address, Address,
};
use intro_program::error::IntroError;
use intro_program::processor::add_intro::add_intro;
use intro_program::processor::add_reply::{add_reply, add_reply_with_derived, ReplyCreation};
use intro_program::state::{IntroReply, IntroReplyCounter};

fn address(fill: u8) -> Address {
    Address::new([fill; 32])
}

fn program() -> Address {
    address(7)
}

fn account(key: Address, is_signer: bool, data: Vec<u8>) -> Account {
    Account { key, is_signer, owner: program(), lamports: 1, data }
}

struct Thread {
    pda_intro: Account,
    pda_counter: Account,
}

fn thread(fill: u8) -> Thread {
    let introducer = account(address(fill), true, Vec::new());
    let (intro_key, _) = derive_address(&intro_seed_bytes(&introducer.key), &program()).unwrap();
    let (counter_key, _) =
        derive_address(&counter_seed_bytes(&introducer.key), &program()).unwrap();
    let mut pda_intro = account(intro_key, false, vec![0u8; 1000]);
    let mut pda_counter = account(counter_key, false, vec![0u8; 20]);
    let plan = add_intro(
        &program(),
        &introducer,
        &pda_intro,
        &pda_counter,
        "Ada".to_string(),
        "Hello".to_string(),
    )
    .unwrap();
    assert_eq!(plan.commit(true, &mut pda_intro, &mut pda_counter), Ok(()));
    Thread { pda_intro, pda_counter }
}

fn slot(t: &Thread, counter: u64) -> Account {
    let (key, _) = next_address(&t.pda_intro.key, counter, &program()).unwrap();
    Account { key, is_signer: false, owner: address(0), lamports: 0, data: Vec::new() }
}

fn plan(t: &Thread, replier: &Account, pda_reply: &Account, text: &str)
    -> Result<ReplyCreation, IntroError> {
    add_reply(&program(), replier, &t.pda_intro, &t.pda_counter, pda_reply, text.to_string())
}

fn counter_of(t: &Thread) -> u64 {
    IntroReplyCounter::decode(&t.pda_counter.data).unwrap().counter
}

fn set_counter(t: &mut Thread, counter: u64, is_initialized: bool) {
    let record = IntroReplyCounter {
        discriminator: "counter".to_string(),
        is_initialized,
        counter,
    };
    assert_eq!(record.store(&mut t.pda_counter.data), Ok(()));
}

#[test]
fn add_reply_plans_storage_and_records() {
    let mut t = thread(1);
    set_counter(&mut t, 41, true);
    let replier = account(address(2), true, Vec::new());
    let pda_reply = slot(&t, 41);
    let plan = plan(&t, &replier, &pda_reply, "Hi Ada").unwrap();
    assert_eq!(plan.reply.address, pda_reply.key);
    assert_eq!(plan.reply.space, 1000);
    assert_eq!(plan.reply.payer, replier.key);
    assert_eq!(plan.reply.owner, program());
    let (_, bump) = next_address(&t.pda_intro.key, 41, &program()).unwrap();
    assert_eq!(
        plan.reply.seeds,
        vec![t.pda_intro.key.to_vec(), 41u64.to_be_bytes().to_vec(), vec![bump]]
    );
    assert_eq!(plan.counter_address, t.pda_counter.key);
    assert_eq!(plan.record.discriminator, "reply");
    assert!(plan.record.is_initialized);
    assert_eq!(plan.record.intro, t.pda_intro.key);
    assert_eq!(plan.record.replier, replier.key);
    assert_eq!(plan.record.reply, "Hi Ada");
    assert_eq!(plan.record.count, 42);
    assert_eq!(plan.tally.discriminator, "counter");
    assert!(plan.tally.is_initialized);
    assert_eq!(plan.tally.counter, 42);
    assert_eq!(counter_of(&t), 41);
}

#[test]
fn replies_are_numbered_from_one() {
    let mut t = thread(1);
    let mut keys: Vec<Address> = Vec::new();
    for n in 0..12u64 {
        assert_eq!(counter_of(&t), n);
        let replier = account(address(10 + n as u8), true, Vec::new());
        let mut pda_reply = slot(&t, n);
        assert!(!keys.contains(&pda_reply.key));
        keys.push(pda_reply.key);
        let plan = plan(&t, &replier, &pda_reply, "Hi").unwrap();
        pda_reply.data = vec![0u8; plan.reply.space];
        assert_eq!(plan.commit(true, &mut pda_reply, &mut t.pda_counter), Ok(()));
        let stored = IntroReply::decode(&pda_reply.data).unwrap();
        assert_eq!(stored.count, n + 1);
        assert_eq!(stored.replier, replier.key);
        assert_eq!(counter_of(&t), n + 1);
    }
}

#[test]
fn a_failed_reply_leaves_the_counter() {
    let mut t = thread(1);
    let replier = account(address(2), true, Vec::new());
    let mut pda_reply = slot(&t, 0);
    let plan = plan(&t, &replier, &pda_reply, "Hi").unwrap();
    let before = t.pda_counter.data.clone();
    assert_eq!(
        plan.commit(false, &mut pda_reply, &mut t.pda_counter),
        Err(IntroError::StorageAllocationFailed)
    );
    assert_eq!(
        plan.commit(true, &mut pda_reply, &mut t.pda_counter),
        Err(IntroError::DataCorruption)
    );
    pda_reply.data = vec![0u8; 10];
    assert_eq!(
        plan.commit(true, &mut pda_reply, &mut t.pda_counter),
        Err(IntroError::DataCorruption)
    );
    pda_reply.data = vec![0u8; 87];
    assert_eq!(
        plan.commit(true, &mut pda_reply, &mut t.pda_counter),
        Err(IntroError::RecordTooLarge)
    );
    assert_eq!(pda_reply.data, vec![0u8; 87]);
    assert_eq!(t.pda_counter.data, before);
    assert_eq!(counter_of(&t), 0);
    pda_reply.data = vec![0u8; 88];
    assert_eq!(plan.commit(true, &mut pda_reply, &mut t.pda_counter), Ok(()));
    assert_eq!(counter_of(&t), 1);
}

#[test]
fn a_reply_is_written_once() {
    let mut t = thread(1);
    let replier = account(address(2), true, Vec::new());
    let mut pda_reply = slot(&t, 0);
    let plan = plan(&t, &replier, &pda_reply, "Hi").unwrap();
    pda_reply.data = vec![0u8; 1000];
    assert_eq!(plan.commit(true, &mut pda_reply, &mut t.pda_counter), Ok(()));
    let reply_before = pda_reply.data.clone();
    let counter_before = t.pda_counter.data.clone();
    assert_eq!(
        plan.commit(true, &mut pda_reply, &mut t.pda_counter),
        Err(IntroError::AddressMismatch)
    );
    set_counter(&mut t, 0, true);
    let counter_reset = t.pda_counter.data.clone();
    assert_eq!(
        plan.commit(true, &mut pda_reply, &mut t.pda_counter),
        Err(IntroError::AlreadyInitialized)
    );
    assert_eq!(pda_reply.data, reply_before);
    assert_eq!(t.pda_counter.data, counter_reset);
    assert_ne!(counter_before, counter_reset);
}

#[test]
fn reply_commit_refuses_other_accounts_than_planned() {
    let mut t = thread(1);
    let mut other = thread(2);
    let replier = account(address(3), true, Vec::new());
    let mut pda_reply = slot(&t, 0);
    let plan = plan(&t, &replier, &pda_reply, "Hi").unwrap();
    pda_reply.data = vec![0u8; 1000];
    let mut wrong = slot(&t, 1);
    wrong.data = vec![0u8; 1000];
    assert_eq!(
        plan.commit(true, &mut wrong, &mut t.pda_counter),
        Err(IntroError::AddressMismatch)
    );
    assert_eq!(
        plan.commit(true, &mut pda_reply, &mut other.pda_counter),
        Err(IntroError::AddressMismatch)
    );
    assert_eq!(counter_of(&other), 0);
    assert_eq!(plan.commit(true, &mut pda_reply, &mut t.pda_counter), Ok(()));
}

#[test]
fn commit_needs_an_initialized_counter() {
    let mut t = thread(1);
    let replier = account(address(2), true, Vec::new());
    let mut pda_reply = slot(&t, 0);
    let plan = plan(&t, &replier, &pda_reply, "Hi").unwrap();
    pda_reply.data = vec![0u8; 1000];
    t.pda_counter.data = vec![0u8; 20];
    assert_eq!(
        plan.commit(true, &mut pda_reply, &mut t.pda_counter),
        Err(IntroError::NotInitialized)
    );
    t.pda_counter.data = vec![0xffu8; 20];
    assert_eq!(
        plan.commit(true, &mut pda_reply, &mut t.pda_counter),
        Err(IntroError::DataCorruption)
    );
    assert_eq!(pda_reply.data, vec![0u8; 1000]);
}

#[test]
fn add_reply_needs_the_engine_to_own_both_records() {
    let mut t = thread(1);
    let replier = account(address(2), false, Vec::new());
    let pda_reply = slot(&t, 0);
    t.pda_intro.owner = address(8);
    assert!(matches!(plan(&t, &replier, &pda_reply, "Hi"), Err(IntroError::OwnershipViolation)));
    t.pda_intro.owner = program();
    t.pda_counter.owner = address(8);
    assert!(matches!(plan(&t, &replier, &pda_reply, "Hi"), Err(IntroError::OwnershipViolation)));
}

#[test]
fn add_reply_needs_the_signature() {
    let mut t = thread(1);
    let replier = account(address(2), false, Vec::new());
    let pda_reply = slot(&t, 0);
    assert!(matches!(plan(&t, &replier, &pda_reply, "Hi"), Err(IntroError::MissingSignature)));
    t.pda_counter.data = Vec::new();
    assert!(matches!(plan(&t, &replier, &pda_reply, "Hi"), Err(IntroError::MissingSignature)));
}

#[test]
fn add_reply_needs_a_counter() {
    let mut t = thread(1);
    let replier = account(address(2), true, Vec::new());
    let pda_reply = slot(&t, 0);
    t.pda_counter.data = vec![0u8; 20];
    assert!(matches!(plan(&t, &replier, &pda_reply, "Hi"), Err(IntroError::NotInitialized)));
    t.pda_counter.data = vec![0u8; 12];
    assert!(matches!(plan(&t, &replier, &pda_reply, "Hi"), Err(IntroError::DataCorruption)));
    t.pda_counter.data = vec![0xffu8; 20];
    assert!(matches!(plan(&t, &replier, &pda_reply, "Hi"), Err(IntroError::DataCorruption)));
}

#[test]
fn address_and_size_are_checked_before_the_counter_is_advanced() {
    let mut t = thread(1);
    set_counter(&mut t, u64::MAX, true);
    let replier = account(address(2), true, Vec::new());
    assert!(matches!(
        plan(&t, &replier, &slot(&t, 0), "Hi"),
        Err(IntroError::AddressMismatch)
    ));
    assert!(matches!(
        plan(&t, &replier, &slot(&t, 0), &"a".repeat(915)),
        Err(IntroError::AddressMismatch)
    ));
    let pda_reply = slot(&t, u64::MAX);
    assert!(matches!(
        plan(&t, &replier, &pda_reply, &"a".repeat(915)),
        Err(IntroError::RecordTooLarge)
    ));
    assert!(matches!(
        plan(&t, &replier, &pda_reply, &"a".repeat(914)),
        Err(IntroError::DataCorruption)
    ));
}

#[test]
fn a_reply_at_another_address_is_refused() {
    let mut t = thread(1);
    set_counter(&mut t, 5, true);
    let replier = account(address(2), true, Vec::new());
    assert!(plan(&t, &replier, &slot(&t, 5), "Hi").is_ok());
    assert!(matches!(plan(&t, &replier, &slot(&t, 6), "Hi"), Err(IntroError::AddressMismatch)));
    let (little_endian, _) = intro_program::address::derive_address(
        &vec![t.pda_intro.key.to_vec(), 5u64.to_le_bytes().to_vec()],
        &program(),
    )
    .unwrap();
    let mut misplaced = slot(&t, 5);
    misplaced.key = little_endian;
    assert!(matches!(plan(&t, &replier, &misplaced, "Hi"), Err(IntroError::AddressMismatch)));
    let other = thread(3);
    assert!(matches!(
        plan(&t, &replier, &slot(&other, 5), "Hi"),
        Err(IntroError::AddressMismatch)
    ));
}

#[test]
fn an_earlier_reply_is_left_alone() {
    let mut t = thread(1);
    let first_replier = account(address(2), true, Vec::new());
    let mut first = slot(&t, 0);
    let planned = plan(&t, &first_replier, &first, "Hi Ada").unwrap();
    first.data = vec![0u8; planned.reply.space];
    assert_eq!(planned.commit(true, &mut first, &mut t.pda_counter), Ok(()));
    let first_before = first.data.clone();

    let second_replier = account(address(3), true, Vec::new());
    assert!(matches!(
        plan(&t, &second_replier, &first, "Mine"),
        Err(IntroError::AddressMismatch)
    ));
    let mut second = slot(&t, 1);
    assert_ne!(second.key, first.key);
    let planned = plan(&t, &second_replier, &second, "Welcome").unwrap();
    second.data = vec![0u8; planned.reply.space];
    assert_eq!(planned.commit(true, &mut second, &mut t.pda_counter), Ok(()));
    assert_eq!(first.data, first_before);
    let stored = IntroReply::decode(&first.data).unwrap();
    assert_eq!(stored.reply, "Hi Ada");
    assert_eq!(stored.count, 1);
    assert_eq!(stored.replier, first_replier.key);
}

#[test]
fn add_reply_refuses_a_counter_that_cannot_advance() {
    let mut t = thread(1);
    set_counter(&mut t, u64::MAX, true);
    let replier = account(address(2), true, Vec::new());
    let pda_reply = slot(&t, u64::MAX);
    assert!(matches!(plan(&t, &replier, &pda_reply, "Hi"), Err(IntroError::DataCorruption)));
    set_counter(&mut t, u64::MAX - 1, true);
    let pda_reply = slot(&t, u64::MAX - 1);
    let plan = plan(&t, &replier, &pda_reply, "Hi").unwrap();
    assert_eq!(plan.record.count, u64::MAX);
    assert_eq!(plan.tally.counter, u64::MAX);
}

#[test]
fn add_reply_refuses_an_address_that_is_not_derived() {
    let t = thread(1);
    let replier = account(address(2), true, Vec::new());
    assert!(matches!(
        plan(&t, &replier, &slot(&t, 1), "Hi"),
        Err(IntroError::AddressMismatch)
    ));
    assert!(matches!(
        plan(&t, &replier, &slot(&thread(3), 0), "Hi"),
        Err(IntroError::AddressMismatch)
    ));
    assert!(matches!(
        plan(&t, &replier, &slot(&t, 1), &"a".repeat(5000)),
        Err(IntroError::AddressMismatch)
    ));
    let r = add_reply_with_derived(
        None,
        &program(),
        &replier,
        &t.pda_intro,
        &t.pda_counter,
        &slot(&t, 0),
        "Hi".to_string(),
    );
    assert!(matches!(r, Err(IntroError::AddressMismatch)));
}

#[test]
fn add_reply_refuses_text_beyond_the_capacity() {
    let t = thread(1);
    let replier = account(address(2), true, Vec::new());
    let pda_reply = slot(&t, 0);
    assert!(matches!(
        plan(&t, &replier, &pda_reply, &"a".repeat(915)),
        Err(IntroError::RecordTooLarge)
    ));
    assert!(plan(&t, &replier, &pda_reply, &"a".repeat(914)).is_ok());
}

#[test]
fn add_reply_keeps_an_odd_discriminator_of_the_counter() {
    let mut t = thread(1);
    t.pda_counter.data = vec![0u8; 40];
    let odd = IntroReplyCounter {
        discriminator: "tally".to_string(),
        is_initialized: true,
        counter: 3,
    };
    assert_eq!(odd.store(&mut t.pda_counter.data), Ok(()));
    let replier = account(address(2), true, Vec::new());
    let mut pda_reply = slot(&t, 3);
    let plan = plan(&t, &replier, &pda_reply, "Hi").unwrap();
    pda_reply.data = vec![0u8; 1000];
    assert_eq!(plan.commit(true, &mut pda_reply, &mut t.pda_counter), Ok(()));
    let stored = IntroReplyCounter::decode(&t.pda_counter.data).unwrap();
    assert_eq!(stored.discriminator, "tally");
    assert_eq!(stored.counter, 4);
}
