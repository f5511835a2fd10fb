use eth_connector::Address;
use eth_connector::ConnectorError;
use eth_connector::DepositInstruction;
use eth_connector::DepositedEvent;
use eth_connector::EthConnectorContract;
use eth_connector::PromiseResult;
use eth_connector::FungibleToken;
use eth_connector::withdraw_message_bytes;

const CUSTODIAN_HEX: &str = "096de9c2b8a5b8c22cee3289b101f6960d68e51e";
const RECIPIENT_HEX: &str = "aabbccddeeff00112233445566778899aabbccdd";
const OWNER_HEX: &str = "deadbeefdeadbeefdeadbeefdeadbeefdeadbeef";

fn custodian() -> Address {
    Address::from_hex(CUSTODIAN_HEX).unwrap()
}

fn fresh_contract() -> EthConnectorContract {
    EthConnectorContract::init_contract(
        "prover.near".to_string(),
        CUSTODIAN_HEX,
        &"bridge.near".to_string(),
    )
    .unwrap()
}

/// A contract holding 1000 tokens for `alice` in the host namespace.
fn funded_host_contract() -> EthConnectorContract {
    let mut contract = fresh_contract();
    let event = DepositedEvent {
        sender: Address::from_hex(RECIPIENT_HEX).unwrap(),
        recipient: "alice".to_string(),
        amount: 1010,
        fee: 10,
        eth_custodian_address: custodian(),
        fingerprint: "proof-fund-host".to_string(),
    };
    let args = match contract.deposit(&event, &None).unwrap() {
        DepositInstruction::Near(args) => args,
        _ => panic!("expected host instruction"),
    };
    contract
        .finish_deposit_near(
            true,
            &vec![PromiseResult::Successful(vec![1u8])],
            &args,
            &"relayer.near".to_string(),
        )
        .unwrap();
    contract
}

/// A contract holding 1000 tokens for `OWNER_HEX` in the origin namespace.
fn funded_eth_contract() -> (EthConnectorContract, Address) {
    let mut contract = fresh_contract();
    let owner = Address::from_hex(OWNER_HEX).unwrap();
    let event = DepositedEvent {
        sender: Address::from_hex(RECIPIENT_HEX).unwrap(),
        recipient: format!("somecontract:{}", OWNER_HEX),
        amount: 1010,
        fee: 10,
        eth_custodian_address: custodian(),
        fingerprint: "proof-fund-eth".to_string(),
    };
    let relayer = Address::from_hex(RECIPIENT_HEX).unwrap();
    let args = match contract.deposit(&event, &Some(relayer)).unwrap() {
        DepositInstruction::Eth(args) => args,
        _ => panic!("expected origin instruction"),
    };
    contract
        .finish_deposit_eth(true, &vec![PromiseResult::Successful(vec![1u8])], &args)
        .unwrap();
    (contract, owner)
}

#[test]
fn withdraw_host_happy_path() {
    let mut contract = funded_host_contract();
    let alice = "alice".to_string();
    assert_eq!(contract.ft_balance_of(&alice), 1000);
    let receipt = contract.withdraw_near(&alice, RECIPIENT_HEX, 400).unwrap();
    assert_eq!(receipt.amount, 400);
    assert_eq!(receipt.recipient_id, Address::from_hex(RECIPIENT_HEX).unwrap());
    assert_eq!(receipt.eth_custodian_address, custodian());
    assert_eq!(contract.ft_balance_of(&alice), 600);
    assert_eq!(contract.ft_total_supply(), 610);
}

#[test]
fn withdraw_host_never_exceeds_balance() {
    let mut contract = funded_host_contract();
    let alice = "alice".to_string();
    let r = contract.withdraw_near(&alice, RECIPIENT_HEX, 1001);
    assert!(matches!(r, Err(ConnectorError::InsufficientBalance)));
    assert_eq!(contract.ft_balance_of(&alice), 1000);
    assert_eq!(contract.ft_total_supply(), 1010);

    let r = contract.withdraw_near(&"nobody".to_string(), RECIPIENT_HEX, 1);
    assert!(matches!(r, Err(ConnectorError::InsufficientBalance)));

    let r = contract.withdraw_near(&alice, "nothex", 1);
    assert!(matches!(r, Err(ConnectorError::DecodeError)));
    assert_eq!(contract.ft_balance_of(&alice), 1000);
}

#[test]
fn withdraw_origin_requires_matching_signer() {
    let (mut contract, owner) = funded_eth_contract();
    let recipient = Address::from_hex(RECIPIENT_HEX).unwrap();

    // No recovered signer: the signature did not verify at all.
    let r = contract.withdraw_eth(&owner, &recipient, 100, &None);
    assert!(matches!(r, Err(ConnectorError::SignatureInvalid)));

    // A signature recovering to someone else (e.g. signed over a different
    // amount or recipient) must not burn the claimed sender's balance.
    let other = Address::from_hex(CUSTODIAN_HEX).unwrap();
    let r = contract.withdraw_eth(&owner, &recipient, 100, &Some(other));
    assert!(matches!(r, Err(ConnectorError::SignatureInvalid)));
    assert_eq!(contract.ft_balance_of_eth(&owner), 1000);

    // The genuine signer may burn, but never beyond the balance.
    let r = contract.withdraw_eth(&owner, &recipient, 5000, &Some(owner.clone()));
    assert!(matches!(r, Err(ConnectorError::InsufficientBalance)));
    assert_eq!(contract.ft_balance_of_eth(&owner), 1000);

    let receipt = contract
        .withdraw_eth(&owner, &recipient, 300, &Some(owner.clone()))
        .unwrap();
    assert_eq!(receipt.amount, 300);
    assert_eq!(receipt.recipient_id, recipient);
    assert_eq!(receipt.eth_custodian_address, custodian());
    assert_eq!(contract.ft_balance_of_eth(&owner), 700);
    assert_eq!(contract.ft_total_supply(), 710);
}

#[test]
fn canonical_withdraw_message_layout() {
    let sender = Address::new(vec![0x11u8; 20]);
    let recipient = Address::new(vec![0x22u8; 20]);
    let custodian = Address::new(vec![0x33u8; 20]);
    let msg = withdraw_message_bytes(&sender, &recipient, &custodian, 258);
    assert_eq!(msg.len(), 76);
    assert_eq!(&msg[0..20], &[0x11u8; 20]);
    assert_eq!(&msg[20..40], &[0x22u8; 20]);
    assert_eq!(&msg[40..60], &[0x33u8; 20]);
    let mut amount_bytes = vec![0u8; 16];
    amount_bytes[0] = 2;
    amount_bytes[1] = 1;
    assert_eq!(&msg[60..76], &amount_bytes[..]);

    // Different amounts give different messages: a replayed signature for a
    // different amount names a different canonical message.
    let msg2 = withdraw_message_bytes(&sender, &recipient, &custodian, 259);
    assert_ne!(msg, msg2);
}

#[test]
fn transfer_moves_balance_and_keeps_supply() {
    let mut contract = funded_host_contract();
    let alice = "alice".to_string();
    let bob = "bob".to_string();
    contract.storage_deposit(&bob, 0);
    contract.ft_transfer(&alice, &bob, 250).unwrap();
    assert_eq!(contract.ft_balance_of(&alice), 750);
    assert_eq!(contract.ft_balance_of(&bob), 250);
    assert_eq!(contract.ft_total_supply(), 1010);

    let r = contract.ft_transfer(&alice, &bob, 751);
    assert!(matches!(r, Err(ConnectorError::InsufficientBalance)));
    assert_eq!(contract.ft_balance_of(&alice), 750);
    assert_eq!(contract.ft_balance_of(&bob), 250);
}

#[test]
fn transfer_call_and_resolution_refund() {
    let mut contract = funded_host_contract();
    let alice = "alice".to_string();
    let bob = "bob".to_string();
    contract.storage_deposit(&bob, 0);
    let action = contract
        .ft_transfer_call(&alice, &bob, 300, "hello".to_string())
        .unwrap();
    assert_eq!(action.sender_id, "alice");
    assert_eq!(action.receiver_id, "bob");
    assert_eq!(action.amount, 300);
    assert_eq!(action.msg, "hello");
    assert_eq!(contract.ft_balance_of(&bob), 300);

    // The receiver rejected 100 of it and still holds enough: refund.
    let used = contract
        .ft_resolve_transfer(true, &alice, &bob, 300, 100)
        .unwrap();
    assert_eq!(used, 200);
    assert_eq!(contract.ft_balance_of(&alice), 800);
    assert_eq!(contract.ft_balance_of(&bob), 200);
    assert_eq!(contract.ft_total_supply(), 1010);
}

#[test]
fn resolution_by_non_self_caller_is_rejected() {
    let mut contract = funded_host_contract();
    let r = contract.ft_resolve_transfer(false, &"alice".to_string(), &"bob".to_string(), 10, 10);
    assert!(matches!(r, Err(ConnectorError::PrivilegedCallViolation)));
    assert_eq!(contract.ft_balance_of(&"alice".to_string()), 1000);
}

#[test]
fn resolution_burns_when_sender_is_gone() {
    let mut contract = funded_host_contract();
    let alice = "alice".to_string();
    let ghost_sender = "gone.near".to_string();
    // alice holds 1000; the claimed sender was never registered, so the
    // rejected part cannot be refunded and is burned.
    let used = contract
        .ft_resolve_transfer(true, &ghost_sender, &alice, 500, 200)
        .unwrap();
    assert_eq!(used, 500);
    assert_eq!(contract.ft_balance_of(&alice), 800);
    assert_eq!(contract.ft_balance_of(&ghost_sender), 0);
    assert_eq!(contract.ft_total_supply(), 810);
}

#[test]
fn storage_registration_bookkeeping() {
    let mut contract = fresh_contract();
    let carol = "carol".to_string();
    assert!(contract.storage_balance_of(&carol).is_none());
    let b = contract.storage_deposit(&carol, 125);
    assert_eq!(b.total, 125);
    assert_eq!(b.available, 0);
    assert!(contract.storage_balance_of(&carol).is_some());
    assert_eq!(contract.ft_balance_of(&carol), 0);
    assert_eq!(contract.ft_total_supply(), 0);

    assert!(contract.storage_withdraw(&carol, 0).is_ok());
    let r = contract.storage_withdraw(&carol, 1);
    assert!(matches!(r, Err(ConnectorError::InsufficientBalance)));
    let r = contract.storage_withdraw(&"unknown".to_string(), 0);
    assert!(matches!(r, Err(ConnectorError::InsufficientBalance)));
}

#[test]
fn used_event_key_is_derived_from_the_fingerprint() {
    let contract = fresh_contract();
    let key = contract.used_event_key(&"abc123".to_string());
    assert_eq!(key, "EthConnector.used-event.abc123");
}

#[test]
fn ledger_rebuild_validates_persisted_entries() {
    let owner = Address::from_hex(OWNER_HEX).unwrap();

    // A valid snapshot round-trips with recomputed supply counters.
    let ft = FungibleToken::from_entries(
        vec![("alice".to_string(), 70), ("bob".to_string(), 30)],
        vec![(owner.clone(), 400)],
    )
    .unwrap();
    assert_eq!(ft.ft_total_supply(), 500);
    assert_eq!(ft.ft_total_supply_near(), 100);
    assert_eq!(ft.ft_total_supply_eth(), 400);
    assert_eq!(ft.ft_balance_of(&"alice".to_string()), 70);
    assert_eq!(ft.internal_unwrap_balance_of_eth(&owner), 400);

    // Duplicate keys in either namespace are rejected.
    let r = FungibleToken::from_entries(
        vec![("alice".to_string(), 1), ("alice".to_string(), 2)],
        vec![],
    );
    assert!(matches!(r, Err(ConnectorError::DecodeError)));
    let r = FungibleToken::from_entries(vec![], vec![(owner.clone(), 1), (owner.clone(), 2)]);
    assert!(matches!(r, Err(ConnectorError::DecodeError)));

    // Balances that overflow the total supply are rejected.
    let r = FungibleToken::from_entries(
        vec![("alice".to_string(), u128::MAX), ("bob".to_string(), 1)],
        vec![],
    );
    assert!(matches!(r, Err(ConnectorError::Overflow)));
    let r = FungibleToken::from_entries(
        vec![("alice".to_string(), u128::MAX)],
        vec![(owner.clone(), 1)],
    );
    assert!(matches!(r, Err(ConnectorError::Overflow)));
}

#[test]
fn ledger_entries_expose_the_snapshot() {
    let contract = funded_host_contract();
    let entries = contract.get_ft().host_entries();
    let total: u128 = entries.iter().map(|(_, v)| *v).sum();
    assert_eq!(total, contract.ft_total_supply_near());
    assert!(entries.iter().any(|(k, v)| k == "alice" && *v == 1000));
    assert_eq!(contract.used_events_list().len(), 1);
}

#[test]
fn resolution_with_nothing_to_refund_changes_nothing() {
    let mut contract = funded_host_contract();
    let alice = "alice".to_string();
    let bob = "bob".to_string();
    // Nothing was rejected: the full amount stays transferred.
    let used = contract.ft_resolve_transfer(true, &bob, &alice, 300, 0).unwrap();
    assert_eq!(used, 300);
    assert_eq!(contract.ft_total_supply(), 1010);
    // The receiver no longer holds anything of the rejected amount.
    let used = contract.ft_resolve_transfer(true, &alice, &bob, 300, 100).unwrap();
    assert_eq!(used, 300);
    assert_eq!(contract.ft_balance_of(&alice), 1000);
    assert_eq!(contract.ft_total_supply(), 1010);
}
