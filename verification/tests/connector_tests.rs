use eth_connector::Address;
use eth_connector::ConnectorError;
use eth_connector::DepositInstruction;
use eth_connector::DepositedEvent;
use eth_connector::EthConnectorContract;
use eth_connector::FinishDepositCallArgs;
use eth_connector::PromiseResult;
use eth_connector::TokenMessageData;

const CUSTODIAN_HEX: &str = "096de9c2b8a5b8c22cee3289b101f6960d68e51e";
const SENDER_HEX: &str = "00112233445566778899aabbccddeeff00112233";

fn custodian() -> Address {
    Address::from_hex(CUSTODIAN_HEX).unwrap()
}

fn fresh_contract() -> EthConnectorContract {
    EthConnectorContract::init_contract(
        "prover.near".to_string(),
        CUSTODIAN_HEX,
        &"bridge.near".to_string(),
    )
    .unwrap()
}

fn host_event(recipient: &str, amount: u128, fee: u128, fingerprint: &str) -> DepositedEvent {
    DepositedEvent {
        sender: Address::from_hex(SENDER_HEX).unwrap(),
        recipient: recipient.to_string(),
        amount,
        fee,
        eth_custodian_address: custodian(),
        fingerprint: fingerprint.to_string(),
    }
}

fn ok_result() -> Vec<PromiseResult> {
    vec![PromiseResult::Successful(vec![1u8])]
}

fn near_args(instruction: DepositInstruction) -> FinishDepositCallArgs {
    match instruction {
        DepositInstruction::Near(args) => args,
        DepositInstruction::Eth(_) => panic!("expected a host-identity instruction"),
    }
}

#[test]
fn init_rejects_bad_custodian() {
    let r = EthConnectorContract::init_contract(
        "prover.near".to_string(),
        "nothex",
        &"bridge.near".to_string(),
    );
    assert!(matches!(r, Err(ConnectorError::DecodeError)));
}

#[test]
fn deposit_scenario_host_identity() {
    // Deposit 1000 with fee 10 for `alice`: after verification alice gains
    // 990, the finalizing caller gains 10, total supply grows by 1000.
    let mut contract = fresh_contract();
    let event = host_event("alice", 1000, 10, "proof-1");
    let args = near_args(contract.deposit(&event, &None).unwrap());
    assert_eq!(args.new_owner_id, "alice");
    assert_eq!(args.amount, 1000);
    assert_eq!(args.fee, 10);

    let r = contract.finish_deposit_near(true, &ok_result(), &args, &"relayer.near".to_string());
    assert!(r.is_ok());
    assert_eq!(contract.ft_balance_of(&"alice".to_string()), 990);
    assert_eq!(contract.ft_balance_of(&"relayer.near".to_string()), 10);
    assert_eq!(contract.ft_total_supply(), 1000);
    assert_eq!(contract.ft_total_supply_near(), 1000);
    assert_eq!(contract.ft_total_supply_eth(), 0);
}

#[test]
fn deposit_replay_is_rejected() {
    // The same fingerprint submitted twice, the second time with
    // verification again reported successful: the second attempt fails with
    // ProofReplay and no balance changes.
    let mut contract = fresh_contract();
    let event = host_event("alice", 1000, 10, "proof-1");
    let args = near_args(contract.deposit(&event, &None).unwrap());
    contract
        .finish_deposit_near(true, &ok_result(), &args, &"relayer.near".to_string())
        .unwrap();

    let again = contract.deposit(&event, &None).unwrap();
    let args2 = near_args(again);
    let r = contract.finish_deposit_near(true, &ok_result(), &args2, &"relayer.near".to_string());
    assert!(matches!(r, Err(ConnectorError::ProofReplay)));
    assert_eq!(contract.ft_balance_of(&"alice".to_string()), 990);
    assert_eq!(contract.ft_balance_of(&"relayer.near".to_string()), 10);
    assert_eq!(contract.ft_total_supply(), 1000);
}

#[test]
fn resumption_by_non_self_caller_is_rejected() {
    let mut contract = fresh_contract();
    let event = host_event("alice", 1000, 10, "proof-1");
    let args = near_args(contract.deposit(&event, &None).unwrap());
    let r = contract.finish_deposit_near(false, &ok_result(), &args, &"mallory".to_string());
    assert!(matches!(r, Err(ConnectorError::PrivilegedCallViolation)));
    assert_eq!(contract.ft_total_supply(), 0);
    assert_eq!(contract.ft_balance_of(&"alice".to_string()), 0);
}

#[test]
fn wrong_async_result_shape_is_rejected() {
    let mut contract = fresh_contract();
    let event = host_event("alice", 1000, 10, "proof-1");
    let args = near_args(contract.deposit(&event, &None).unwrap());
    let pred = "relayer.near".to_string();

    let none: Vec<PromiseResult> = vec![];
    let r = contract.finish_deposit_near(true, &none, &args, &pred);
    assert!(matches!(r, Err(ConnectorError::UnexpectedAsyncResultShape)));

    let two = vec![
        PromiseResult::Successful(vec![1u8]),
        PromiseResult::Successful(vec![1u8]),
    ];
    let r = contract.finish_deposit_near(true, &two, &args, &pred);
    assert!(matches!(r, Err(ConnectorError::UnexpectedAsyncResultShape)));

    let failed = vec![PromiseResult::Failed];
    let r = contract.finish_deposit_near(true, &failed, &args, &pred);
    assert!(matches!(r, Err(ConnectorError::UnexpectedAsyncResultShape)));

    let malformed = vec![PromiseResult::Successful(vec![2u8])];
    let r = contract.finish_deposit_near(true, &malformed, &args, &pred);
    assert!(matches!(r, Err(ConnectorError::DecodeError)));

    let negative = vec![PromiseResult::Successful(vec![0u8])];
    let r = contract.finish_deposit_near(true, &negative, &args, &pred);
    assert!(matches!(r, Err(ConnectorError::VerificationFailed)));
    assert_eq!(contract.ft_total_supply(), 0);
}

#[test]
fn deposit_validation_errors() {
    let contract = fresh_contract();

    let mut event = host_event("alice", 100, 200, "proof-x");
    let r = contract.deposit(&event, &None);
    assert!(matches!(r, Err(ConnectorError::FeeExceedsAmount)));

    event = host_event("alice", 100, 1, "proof-x");
    event.eth_custodian_address =
        Address::from_hex("ffffffffffffffffffffffffffffffffffffffff").unwrap();
    let r = contract.deposit(&event, &None);
    assert!(matches!(r, Err(ConnectorError::EventAddressMismatch)));

    let event = host_event("a:b:c", 100, 1, "proof-x");
    let r = contract.deposit(&event, &None);
    assert!(matches!(r, Err(ConnectorError::DecodeError)));

    let event = host_event("tag:nothexatall", 100, 1, "proof-x");
    let r = contract.deposit(&event, &None);
    assert!(matches!(r, Err(ConnectorError::DecodeError)));

    let event = host_event(
        &format!("somecontract:{}", SENDER_HEX),
        100,
        1,
        "proof-x",
    );
    let r = contract.deposit(&event, &None);
    assert!(matches!(r, Err(ConnectorError::RelayerRequired)));
}

#[test]
fn recipient_message_resolution() {
    // "somecontract:<20-byte hex>" resolves to an origin-address target; a
    // message with no delimiter resolves to a host account of the whole
    // message.
    let contract = fresh_contract();
    let message = format!("somecontract:deadbeefdeadbeefdeadbeefdeadbeefdeadbeef");
    match contract.parse_event_message(&message) {
        Ok(TokenMessageData::Eth { contract: tag, address }) => {
            assert_eq!(tag, "somecontract");
            assert_eq!(
                address,
                Address::from_hex("deadbeefdeadbeefdeadbeefdeadbeefdeadbeef").unwrap()
            );
        }
        _ => panic!("expected an origin-address target"),
    }
    match contract.parse_event_message("alice") {
        Ok(TokenMessageData::Near(a)) => assert_eq!(a, "alice"),
        _ => panic!("expected a host-account target"),
    }
    assert!(matches!(
        contract.parse_event_message("a:b:c"),
        Err(ConnectorError::DecodeError)
    ));
}

#[test]
fn deposit_scenario_origin_address() {
    let mut contract = fresh_contract();
    let owner = Address::from_hex("deadbeefdeadbeefdeadbeefdeadbeefdeadbeef").unwrap();
    let relayer = Address::from_hex(SENDER_HEX).unwrap();
    let event = host_event(
        "somecontract:deadbeefdeadbeefdeadbeefdeadbeefdeadbeef",
        1000,
        10,
        "proof-eth-1",
    );
    let args = match contract.deposit(&event, &Some(relayer.clone())).unwrap() {
        DepositInstruction::Eth(args) => args,
        DepositInstruction::Near(_) => panic!("expected an origin-address instruction"),
    };
    assert_eq!(args.new_owner_id, owner);
    assert_eq!(args.relayer_eth_account, relayer);

    contract
        .finish_deposit_eth(true, &ok_result(), &args)
        .unwrap();
    assert_eq!(contract.ft_balance_of_eth(&owner), 990);
    assert_eq!(contract.ft_balance_of_eth(&relayer), 10);
    assert_eq!(contract.ft_total_supply(), 1000);
    assert_eq!(contract.ft_total_supply_eth(), 1000);
    assert_eq!(contract.ft_total_supply_near(), 0);
}

#[test]
fn minting_beyond_max_supply_overflows() {
    let mut contract = fresh_contract();
    let event = host_event("alice", u128::MAX, 0, "proof-max");
    let args = near_args(contract.deposit(&event, &None).unwrap());
    contract
        .finish_deposit_near(true, &ok_result(), &args, &"alice".to_string())
        .unwrap();
    assert_eq!(contract.ft_total_supply(), u128::MAX);

    let event2 = host_event("bob", 1, 0, "proof-one-more");
    let args2 = near_args(contract.deposit(&event2, &None).unwrap());
    let r = contract.finish_deposit_near(true, &ok_result(), &args2, &"alice".to_string());
    assert!(matches!(r, Err(ConnectorError::Overflow)));
    assert_eq!(contract.ft_total_supply(), u128::MAX);
}

#[test]
fn empty_message_resolves_to_empty_host_account() {
    let contract = fresh_contract();
    match contract.parse_event_message("") {
        Ok(TokenMessageData::Near(a)) => assert_eq!(a, ""),
        _ => panic!("expected a host-account target"),
    }
}

#[test]
fn withdrawing_the_whole_balance_empties_the_account() {
    let mut contract = fresh_contract();
    let event = host_event("alice", 500, 0, "proof-all");
    let args = near_args(contract.deposit(&event, &None).unwrap());
    contract
        .finish_deposit_near(true, &ok_result(), &args, &"alice".to_string())
        .unwrap();
    assert_eq!(contract.ft_balance_of(&"alice".to_string()), 500);
    contract
        .withdraw_near(&"alice".to_string(), SENDER_HEX, 500)
        .unwrap();
    assert_eq!(contract.ft_balance_of(&"alice".to_string()), 0);
    assert_eq!(contract.ft_total_supply(), 0);
}
