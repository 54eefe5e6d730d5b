use intro_program::account::Account;
use intro_program::address::{
    counter_seed_bytes, derive_address, intro_seed_bytes, next_address, Address,
};
use intro_program::error::IntroError;
use intro_program::processor::{process_instruction, Pending};
use intro_program::state::{IntroAccountState, IntroReplyCounter};

fn address(fill: u8) -> Address {
    Address::new([fill; 32])
}

fn program() -> Address {
    address(7)
}

fn account(key: Address, is_signer: bool, data: Vec<u8>) -> Account {
    Account { key, is_signer, owner: program(), lamports: 1, data }
}

fn request(tag: u8, texts: &[&str]) -> Vec<u8> {
    let mut out = vec![tag];
    for t in texts {
        out.extend_from_slice(&(t.len() as u32).to_le_bytes());
        out.extend_from_slice(t.as_bytes());
    }
    out
}

fn accounts_of(fill: u8) -> Vec<Account> {
    let introducer = account(address(fill), true, Vec::new());
    let (intro_key, _) = derive_address(&intro_seed_bytes(&introducer.key), &program()).unwrap();
    let (counter_key, _) =
        derive_address(&counter_seed_bytes(&introducer.key), &program()).unwrap();
    vec![
        introducer,
        account(intro_key, false, vec![0u8; 1000]),
        account(counter_key, false, vec![0u8; 20]),
    ]
}

fn created(fill: u8) -> Vec<Account> {
    let mut accounts = accounts_of(fill);
    let pending =
        process_instruction(&program(), &mut accounts, &request(0, &["Ada", "Hello"])).unwrap();
    match pending {
        Pending::Intro(plan) => {
            let mut counter = accounts.pop().unwrap();
            let mut intro = accounts.pop().unwrap();
            assert_eq!(plan.commit(true, &mut intro, &mut counter), Ok(()));
            accounts.push(intro);
            accounts.push(counter);
        }
        _ => panic!("no introduction planned"),
    }
    accounts
}

fn data_of(accounts: &[Account]) -> Vec<Vec<u8>> {
    accounts.iter().map(|a| a.data.clone()).collect()
}

#[test]
fn a_request_for_an_introduction_is_planned() {
    let mut accounts = accounts_of(1);
    let before = data_of(&accounts);
    match process_instruction(&program(), &mut accounts, &request(0, &["Ada", "Hello"])) {
        Ok(Pending::Intro(plan)) => {
            assert_eq!(plan.record.name, "Ada");
            assert_eq!(plan.record.message, "Hello");
            assert_eq!(plan.intro.address, accounts[1].key);
            assert_eq!(plan.counter.address, accounts[2].key);
        }
        _ => panic!("no introduction planned"),
    }
    assert_eq!(data_of(&accounts), before);
}

#[test]
fn a_request_for_an_update_is_carried_out() {
    let mut accounts = created(1);
    let counter_before = accounts[2].data.clone();
    let done = process_instruction(&program(), &mut accounts, &request(1, &["Ada", "Changed"]));
    assert!(matches!(done, Ok(Pending::Done)));
    assert_eq!(accounts.len(), 3);
    assert_eq!(accounts[0].key, address(1));
    let stored = IntroAccountState::decode(&accounts[1].data).unwrap();
    assert_eq!(stored.name, "Ada");
    assert_eq!(stored.message, "Changed");
    assert_eq!(stored.introducer, address(1));
    assert_eq!(accounts[2].data, counter_before);
}

#[test]
fn a_refused_update_changes_no_account() {
    let mut accounts = created(1);
    accounts[0].is_signer = false;
    let before = data_of(&accounts);
    let keys: Vec<Address> = accounts.iter().map(|a| a.key).collect();
    let done = process_instruction(&program(), &mut accounts, &request(1, &["Ada", "Changed"]));
    assert!(matches!(done, Err(IntroError::MissingSignature)));
    assert_eq!(data_of(&accounts), before);
    assert_eq!(accounts.iter().map(|a| a.key).collect::<Vec<Address>>(), keys);
}

#[test]
fn a_request_for_a_reply_is_planned() {
    let created = created(1);
    let replier = account(address(2), true, Vec::new());
    let (reply_key, _) = next_address(&created[1].key, 0, &program()).unwrap();
    let mut accounts = vec![
        replier,
        account(created[1].key, false, created[1].data.clone()),
        account(created[2].key, false, created[2].data.clone()),
        account(reply_key, false, Vec::new()),
    ];
    let before = data_of(&accounts);
    match process_instruction(&program(), &mut accounts, &request(2, &["Hi Ada"])) {
        Ok(Pending::Reply(plan)) => {
            assert_eq!(plan.record.reply, "Hi Ada");
            assert_eq!(plan.record.count, 1);
            assert_eq!(plan.reply.address, reply_key);
            let mut reply = accounts.pop().unwrap();
            let mut counter = accounts.pop().unwrap();
            reply.data = vec![0u8; plan.reply.space];
            assert_eq!(plan.commit(true, &mut reply, &mut counter), Ok(()));
            assert_eq!(IntroReplyCounter::decode(&counter.data).unwrap().counter, 1);
        }
        _ => panic!("no reply planned"),
    }
    assert_eq!(before.len(), 4);
}

#[test]
fn a_request_to_initialize_the_mint_is_malformed() {
    let mut accounts = created(1);
    let before = data_of(&accounts);
    assert!(matches!(
        process_instruction(&program(), &mut accounts, &[3]),
        Err(IntroError::MalformedRequest)
    ));
    assert_eq!(data_of(&accounts), before);
}

#[test]
fn a_request_that_does_not_decode_is_malformed() {
    let mut accounts = created(1);
    for bytes in [vec![], vec![9u8], vec![0u8, 1, 0], request(1, &["only one"])] {
        assert!(matches!(
            process_instruction(&program(), &mut accounts, &bytes),
            Err(IntroError::MalformedRequest)
        ));
    }
}

#[test]
fn a_request_with_too_few_accounts_is_malformed() {
    let mut accounts = created(1);
    accounts.truncate(2);
    assert!(matches!(
        process_instruction(&program(), &mut accounts, &request(0, &["Ada", "Hello"])),
        Err(IntroError::MalformedRequest)
    ));
    assert!(matches!(
        process_instruction(&program(), &mut accounts, &request(1, &["Ada", "Hello"])),
        Ok(Pending::Done)
    ));
    accounts.truncate(1);
    assert!(matches!(
        process_instruction(&program(), &mut accounts, &request(1, &["Ada", "Hello"])),
        Err(IntroError::MalformedRequest)
    ));
    let mut accounts = created(1);
    assert!(matches!(
        process_instruction(&program(), &mut accounts, &request(2, &["Hi"])),
        Err(IntroError::MalformedRequest)
    ));
    assert_eq!(accounts.len(), 3);
}

#[test]
fn the_operation_decides_the_error() {
    let mut accounts = accounts_of(1);
    assert!(matches!(
        process_instruction(&program(), &mut accounts, &request(0, &["", &"a".repeat(990)])),
        Err(IntroError::RecordTooLarge)
    ));
    assert!(matches!(
        process_instruction(&program(), &mut accounts, &request(1, &["Ada", "Hello"])),
        Err(IntroError::NotInitialized)
    ));
    accounts[1].owner = address(8);
    assert!(matches!(
        process_instruction(&program(), &mut accounts, &request(1, &["Ada", "Hello"])),
        Err(IntroError::OwnershipViolation)
    ));
    accounts[1].key = address(9);
    assert!(matches!(
        process_instruction(&program(), &mut accounts, &request(0, &["Ada", "Hello"])),
        Err(IntroError::AddressMismatch)
    ));
}
