use phink::dns::{broadcast_account, zero_address, AccountId, DomainHash, DomainNameService, Error};

fn hash(bytes: [u8; 32]) -> DomainHash {
    DomainHash { bytes: bytes.to_vec() }
}

fn forbidden() -> DomainHash {
    let mut b = [0u8; 32];
    b[31] = 1;
    hash(b)
}

// The deployer broadcasts origin 0, so it equals the contract's default
// address and owns every unregistered name.
fn alice() -> AccountId {
    zero_address()
}

fn bob() -> AccountId {
    broadcast_account(2)
}

#[test]
fn register_works() {
    let name = hash([0x99; 32]);
    let mut contract = DomainNameService::new();
    assert_eq!(contract.register(&name, &alice()), Ok(()));
    assert_eq!(contract.register(&name, &alice()), Err(Error::NameAlreadyExists));
}

#[test]
fn set_address_works() {
    let name = hash([0x99; 32]);
    let mut contract = DomainNameService::new();
    assert_eq!(contract.register(&name, &alice()), Ok(()));

    // Caller is not the owner: set_address fails.
    assert_eq!(
        contract.set_address(&name, &bob(), &bob()),
        Err(Error::CallerIsNotOwner)
    );

    // The owner succeeds.
    assert_eq!(contract.set_address(&name, &bob(), &alice()), Ok(()));
    assert_eq!(contract.get_address(&name).bytes, bob().bytes);
    assert!(contract.phink_assert_three_message_calls_required_to_crash());
}

#[test]
fn should_panic() {
    let mut contract = DomainNameService::new();
    let illegal = forbidden();
    assert_eq!(contract.transfer(&illegal, &bob(), 42, &alice()), Ok(()));
    // The forbidden domain now sits in the registered list; the guarding
    // invariant catches it.
    assert!(!contract.phink_assert_hash42_cant_be_registered());
}

#[test]
fn transfer_works() {
    let name = hash([0x99; 32]);
    let mut contract = DomainNameService::new();
    assert_eq!(contract.register(&name, &alice()), Ok(()));

    let illegal = forbidden();
    // Transfer of an unregistered name: the default owner hands it over.
    assert_eq!(contract.transfer(&illegal, &bob(), 0, &alice()), Ok(()));

    // Its owner is bob now; alice's set_address fails.
    assert_eq!(
        contract.set_address(&illegal, &bob(), &alice()),
        Err(Error::CallerIsNotOwner)
    );

    // Bob's succeeds.
    assert_eq!(contract.set_address(&illegal, &bob(), &bob()), Ok(()));
    assert_eq!(contract.get_address(&illegal).bytes, bob().bytes);
}

#[test]
fn test_invariants_nested_calls() {
    // The three-message bug: transfer 80, register the forbidden domain,
    // then any successful set_address raises the crash flag.
    let mut contract = DomainNameService::new();
    let any = hash([7; 32]);
    let other = hash([9; 32]);
    assert_eq!(contract.transfer(&any, &bob(), 80, &alice()), Ok(()));
    assert_eq!(contract.dangerous_number, 80);
    assert_eq!(contract.register(&forbidden(), &alice()), Ok(()));
    assert_eq!(contract.dangerous_number, 120);
    assert!(contract.phink_assert_three_message_calls_required_to_crash());
    assert_eq!(contract.set_address(&other, &bob(), &alice()), Ok(()));
    assert!(!contract.phink_assert_three_message_calls_required_to_crash());
}

#[test]
fn transfer_of_sixty_nine_is_refused() {
    let mut contract = DomainNameService::new();
    assert_eq!(
        contract.transfer(&hash([7; 32]), &bob(), 69, &alice()),
        Err(Error::ForbiddenDomain)
    );
    assert!(contract.phink_assert_dangerous_number());
}

#[test]
fn transfer_stores_truncated_remainder() {
    let mut contract = DomainNameService::new();
    assert_eq!(contract.transfer(&hash([7; 32]), &bob(), 139, &alice()), Ok(()));
    assert_eq!(contract.dangerous_number, 69);
    assert!(!contract.phink_assert_dangerous_number());

    let mut contract2 = DomainNameService::new();
    assert_eq!(contract2.transfer(&hash([7; 32]), &bob(), -131, &alice()), Ok(()));
    assert_eq!(contract2.dangerous_number, -61);
    assert!(contract2.phink_assert_dangerous_number());
}

#[test]
fn pay_me_marks_exact_leet_amount() {
    let mut contract = DomainNameService::new();
    assert_eq!(contract.pay_me(1376), Ok(()));
    assert!(contract.phink_assert_cannot_transfer_1337());
    assert_eq!(contract.pay_me(1377), Ok(()));
    assert!(!contract.phink_assert_cannot_transfer_1337());
}

#[test]
fn getters_fall_back_to_default_address() {
    let contract = DomainNameService::new();
    let unknown = hash([0xab; 32]);
    assert_eq!(contract.get_address(&unknown).bytes, zero_address().bytes);
    assert_eq!(contract.get_owner(&unknown).bytes, zero_address().bytes);
}

#[test]
fn zero_address_is_thirty_two_zero_bytes() {
    assert_eq!(zero_address().bytes, vec![0u8; 32]);
}
