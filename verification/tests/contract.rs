use greeting_contract::Address;
use greeting_contract::ContractError;
use greeting_contract::TransferOrder;
use greeting_contract::U256;
use greeting_contract::YourContract;
use greeting_contract::contract::default_greeting_text;
use greeting_contract::contract::settle_withdraw;

fn fresh(owner: Address) -> YourContract {
    let mut c = YourContract::default();
    c.constructor(owner);
    c
}

#[test]
fn test_counter() {
    // A fresh deployment: the instance comes up in its constructed state.
    let _contract = fresh(Address::from_u64(1));
}

#[test]
fn construct_defaults() {
    let c = fresh(Address::from_u64(1));
    assert_eq!(c.get_greeting(), "Building Unstoppable Apps!!!");
    assert_eq!(c.get_greeting(), default_greeting_text());
    assert!(!c.get_premium());
    assert_eq!(c.get_total_counter(), U256::zero());
    assert_eq!(c.get_user_greeting_counter(Address::from_u64(2)), U256::zero());
}

#[test]
fn counters_accumulate() {
    let b = Address::from_u64(2);
    let c_addr = Address::from_u64(3);
    let mut c = fresh(Address::from_u64(1));
    c.set_greeting("one".to_string(), b, U256::zero());
    c.set_greeting("two".to_string(), c_addr, U256::zero());
    c.set_greeting("three".to_string(), b, U256::from_u64(4));
    assert_eq!(c.get_total_counter(), U256::from_u64(3));
    // The per-caller counts sum to the total.
    assert_eq!(c.get_user_greeting_counter(b), U256::from_u64(2));
    assert_eq!(c.get_user_greeting_counter(c_addr), U256::from_u64(1));
    assert_eq!(c.get_greeting(), "three");
}

#[test]
fn premium_reflects_last_value() {
    let b = Address::from_u64(2);
    let mut c = fresh(Address::from_u64(1));
    c.set_greeting("hi".to_string(), b, U256::from_u64(5));
    assert!(c.get_premium());
    c.set_greeting("hi".to_string(), b, U256::zero());
    assert!(!c.get_premium());
    c.set_greeting("hi".to_string(), b, U256::from_u64(1));
    assert!(c.get_premium());
}

#[test]
fn update_returns_event_record() {
    let b = Address::from_u64(2);
    let mut c = fresh(Address::from_u64(1));
    let record = c.set_greeting("hello".to_string(), b, U256::from_u64(7));
    assert_eq!(record.greeting_setter, b);
    assert_eq!(record.new_greeting, "hello");
    assert!(record.premium);
    assert_eq!(record.value, U256::from_u64(7));
}

#[test]
fn from_parts_presents_given_state() {
    let owner = Address::from_u64(1);
    let b = Address::from_u64(2);
    let state = YourContract::from_parts(
        owner,
        "partial".to_string(),
        true,
        U256::from_u64(9),
        vec![(b, U256::from_u64(4))],
    );
    assert_eq!(state.get_greeting(), "partial");
    assert!(state.get_premium());
    assert_eq!(state.get_total_counter(), U256::from_u64(9));
    assert_eq!(state.get_user_greeting_counter(b), U256::from_u64(4));
    assert_eq!(state.get_user_greeting_counter(owner), U256::zero());
}

#[test]
fn update_from_partial_state() {
    let b = Address::from_u64(2);
    let mut state = YourContract::from_parts(
        Address::from_u64(1),
        "old".to_string(),
        false,
        U256::from_u64(7),
        vec![(b, U256::from_u64(3))],
    );
    let record = state.set_greeting("new".to_string(), b, U256::zero());
    assert_eq!(state.get_greeting(), "new");
    assert_eq!(state.get_total_counter(), U256::from_u64(8));
    assert_eq!(state.get_user_greeting_counter(b), U256::from_u64(4));
    assert!(!record.premium);
}

#[test]
fn withdraw_non_owner_fails() {
    let owner = Address::from_u64(1);
    let intruder = Address::from_u64(2);
    let mut c = fresh(owner);
    c.set_greeting("hi".to_string(), intruder, U256::zero());
    let r = c.withdraw(intruder, U256::from_u64(100));
    assert_eq!(r, Err(ContractError::AuthorizationError));
    // All other state is unchanged by the refused call.
    assert_eq!(c.get_greeting(), "hi");
    assert_eq!(c.get_total_counter(), U256::from_u64(1));
    assert!(!c.get_premium());
}

#[test]
fn withdraw_owner_succeeds() {
    let owner = Address::from_u64(1);
    let c = fresh(owner);
    let balance = U256::from_u64(250);
    let r = c.withdraw(owner, balance);
    // The whole held balance is ordered to the owner, leaving the balance 0.
    assert_eq!(r, Ok(TransferOrder { to: owner, amount: balance }));
    assert_eq!(settle_withdraw(true), Ok(()));
}

#[test]
fn failed_transfer_gives_transfer_error() {
    assert_eq!(settle_withdraw(false), Err(ContractError::TransferError));
}

#[test]
fn scenario_two_updates_then_withdraw() {
    let a = Address::from_u64(10);
    let b = Address::from_u64(11);
    let c_addr = Address::from_u64(12);
    let mut c = fresh(a);

    c.set_greeting("hi".to_string(), b, U256::zero());
    assert_eq!(c.get_total_counter(), U256::from_u64(1));
    assert!(!c.get_premium());
    assert_eq!(c.get_user_greeting_counter(b), U256::from_u64(1));

    let record = c.set_greeting("hey".to_string(), c_addr, U256::from_u64(5));
    assert_eq!(c.get_total_counter(), U256::from_u64(2));
    assert!(c.get_premium());
    assert_eq!(c.get_user_greeting_counter(c_addr), U256::from_u64(1));
    assert_eq!(record.greeting_setter, c_addr);
    assert_eq!(record.new_greeting, "hey");
    assert!(record.premium);
    assert_eq!(record.value, U256::from_u64(5));

    assert_eq!(c.withdraw(b, U256::from_u64(5)), Err(ContractError::AuthorizationError));

    let r = c.withdraw(a, U256::from_u64(5));
    assert_eq!(r, Ok(TransferOrder { to: a, amount: U256::from_u64(5) }));
    assert_eq!(settle_withdraw(true), Ok(()));
}
