use intro_program::account::{is_account_initialized, with_bump, Account};
use intro_program::address::{
    counter_seed_bytes, derive_address, intro_seed_bytes, next_address, reply_seed_bytes,
    Address,
};
use solana_program::pubkey::Pubkey;

fn address(fill: u8) -> Address {
    Address::new([fill; 32])
}

fn pubkey(a: &Address) -> Pubkey {
    Pubkey::new_from_array(a.bytes)
}

#[test]
fn addresses_compare_by_their_bytes() {
    let mut bytes = [3u8; 32];
    assert_eq!(Address::new(bytes), address(3));
    bytes[31] = 4;
    assert_ne!(Address::new(bytes), address(3));
    bytes[31] = 3;
    bytes[0] = 0;
    assert_ne!(Address::new(bytes), address(3));
    assert_eq!(address(3).to_vec(), vec![3u8; 32]);
}

#[test]
fn seeds_are_what_the_records_are_keyed_by() {
    assert_eq!(intro_seed_bytes(&address(1)), vec![vec![1u8; 32]]);
    assert_eq!(counter_seed_bytes(&address(1)), vec![vec![1u8; 32], b"reply".to_vec()]);
    assert_eq!(
        reply_seed_bytes(&address(2), 0x0102),
        vec![vec![2u8; 32], vec![0, 0, 0, 0, 0, 0, 1, 2]]
    );
    assert_eq!(with_bump(vec![vec![1u8, 2]], 254), vec![vec![1u8, 2], vec![254u8]]);
}

#[test]
fn derivation_is_that_of_the_ledger() {
    let program = address(7);
    let introducer = address(1);
    let (found, bump) = derive_address(&intro_seed_bytes(&introducer), &program).unwrap();
    let (expected, expected_bump) =
        Pubkey::find_program_address(&[&introducer.bytes], &pubkey(&program));
    assert_eq!(found.bytes, expected.to_bytes());
    assert_eq!(bump, expected_bump);
    assert_ne!(found, introducer);
    assert_ne!(found, program);

    let (found, bump) = derive_address(&counter_seed_bytes(&introducer), &program).unwrap();
    let (expected, expected_bump) =
        Pubkey::find_program_address(&[&introducer.bytes, b"reply"], &pubkey(&program));
    assert_eq!(found.bytes, expected.to_bytes());
    assert_eq!(bump, expected_bump);

    let (found, bump) = next_address(&introducer, 5, &program).unwrap();
    let (expected, expected_bump) = Pubkey::find_program_address(
        &[&introducer.bytes, &5u64.to_be_bytes()],
        &pubkey(&program),
    );
    assert_eq!(found.bytes, expected.to_bytes());
    assert_eq!(bump, expected_bump);
}

#[test]
fn derivation_repeats() {
    let program = address(7);
    for fill in 0..20u8 {
        let seeds = intro_seed_bytes(&address(fill));
        assert_eq!(derive_address(&seeds, &program), derive_address(&seeds, &program));
    }
}

#[test]
fn different_seeds_give_different_addresses() {
    let program = address(7);
    let mut seen: Vec<Address> = Vec::new();
    for fill in 0..20u8 {
        let (intro, _) = derive_address(&intro_seed_bytes(&address(fill)), &program).unwrap();
        let (counter, _) = derive_address(&counter_seed_bytes(&address(fill)), &program).unwrap();
        assert!(!seen.contains(&intro));
        seen.push(intro);
        assert!(!seen.contains(&counter));
        seen.push(counter);
    }
    for counter in 0..50u64 {
        let (reply, _) = next_address(&address(1), counter, &program).unwrap();
        assert!(!seen.contains(&reply));
        seen.push(reply);
    }
    let (other_engine, _) = derive_address(&intro_seed_bytes(&address(1)), &address(8)).unwrap();
    assert!(!seen.contains(&other_engine));
}

#[test]
fn seeds_beyond_the_ledgers_limits_give_no_address() {
    let program = address(7);
    assert_eq!(derive_address(&vec![vec![0u8; 33]], &program), None);
    assert_eq!(derive_address(&vec![vec![1u8]; 16], &program), None);
    assert!(derive_address(&vec![vec![1u8]; 15], &program).is_some());
    assert!(derive_address(&Vec::new(), &program).is_some());
}

#[test]
fn an_account_exists_with_balance_and_storage() {
    let mut account = Account {
        key: address(1),
        is_signer: false,
        owner: address(0),
        lamports: 0,
        data: Vec::new(),
    };
    assert!(!is_account_initialized(&account));
    account.lamports = 5;
    assert!(!is_account_initialized(&account));
    account.data = vec![0u8; 1];
    assert!(is_account_initialized(&account));
    account.lamports = 0;
    assert!(!is_account_initialized(&account));
}
