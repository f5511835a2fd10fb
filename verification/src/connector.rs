//! The bridge orchestrator: two-phase verify-then-mint deposits with replay
//! protection, signature-authenticated withdrawals, and the fungible-token
//! call surface. Deposits are a two-call protocol: `deposit` only validates
//! and returns the continuation data for the asynchronous verification; the
//! `finish_deposit_*` resumptions, valid only for the contract calling
//! itself, perform every ledger mutation after all fallible checks passed.
use crate::address::Address;
use crate::address::bytes_of_hex;
use crate::address::valid_hex;
use crate::errors::ConnectorError;
use crate::fungible_token::FungibleToken;
use vstd::prelude::*;

verus! {

/// Connector configuration: the trusted external verifier identity and the
/// fixed origin-chain custodian address. Immutable after provisioning.
pub struct EthConnector {
    pub prover_account: String,
    pub eth_custodian_address: Address,
}

/// Tagged deposit destination: a host-native account identity, or an
/// origin-chain address qualified by a contract tag.
pub enum TokenMessageData {
    Near(String),
    Eth { contract: String, address: Address },
}

/// A deposit event decoded from an origin-chain log entry, together with the
/// fingerprint that the replay guard consumes.
pub struct DepositedEvent {
    pub sender: Address,
    pub recipient: String,
    pub amount: u128,
    pub fee: u128,
    pub eth_custodian_address: Address,
    pub fingerprint: String,
}

/// Continuation data for finalizing a host-identity deposit.
pub struct FinishDepositCallArgs {
    pub new_owner_id: String,
    pub amount: u128,
    pub fee: u128,
    pub fingerprint: String,
}

/// Continuation data for finalizing an origin-address deposit.
pub struct FinishDepositEthCallArgs {
    pub new_owner_id: Address,
    pub amount: u128,
    pub fee: u128,
    pub relayer_eth_account: Address,
    pub fingerprint: String,
}

/// What a validated deposit asks the host to schedule after verification.
pub enum DepositInstruction {
    Near(FinishDepositCallArgs),
    Eth(FinishDepositEthCallArgs),
}

/// One prior asynchronous result, as the host hands it to a resumption.
pub enum PromiseResult {
    NotReady,
    Successful(Vec<u8>),
    Failed,
}

/// Receipt authorizing release on the origin chain.
pub struct WithdrawResult {
    pub recipient_id: Address,
    pub amount: u128,
    pub eth_custodian_address: Address,
}

/// Registration bookkeeping record for a host account.
#[derive(Clone, Copy, Debug, PartialEq, Eq, Structural)]
pub struct StorageBalance {
    pub total: u128,
    pub available: u128,
}

/// The verifier's boolean verdict in its one-byte wire form; anything else
/// is malformed.
pub open spec fn parse_bool(b: Seq<u8>) -> Option<bool> {
    if b.len() == 1 && b[0] == 1 {
        Some(true)
    } else if b.len() == 1 && b[0] == 0 {
        Some(false)
    } else {
        None
    }
}

fn parse_bool_arg(b: &Vec<u8>) -> (r: Option<bool>)
    ensures
        r == parse_bool(b@),
{
    if b.len() == 1 {
        let x = b[0];
        if x == 1 {
            Some(true)
        } else if x == 0 {
            Some(false)
        } else {
            None
        }
    } else {
        None
    }
}

/// Derived storage key under which a consumed fingerprint is persisted.
pub open spec fn used_event_key_spec(k: Seq<char>) -> Seq<char> {
    "EthConnector.used-event."@ + k
}

/// No delimiter anywhere in the message.
pub open spec fn colon_free(s: Seq<char>) -> bool {
    forall|i: int| 0 <= i < s.len() ==> #[trigger] s[i] != ':'
}

/// Exactly one delimiter, at position `i`.
pub open spec fn single_colon_at(s: Seq<char>, i: int) -> bool {
    &&& 0 <= i < s.len()
    &&& s[i] == ':'
    &&& colon_free(s.subrange(0, i))
    &&& colon_free(s.subrange(i + 1, s.len() as int))
}

/// What follows the delimiter decodes as a 20-byte address.
pub open spec fn eth_suffix_ok(s: Seq<char>, i: int) -> bool {
    valid_hex(s.subrange(i + 1, s.len() as int)) && s.len() - i - 1 == 40
}

/// The resumption carried exactly one successful result that decodes to a
/// positive verification verdict.
pub open spec fn verification_passed(results: Seq<PromiseResult>) -> bool {
    results.len() == 1 && (results[0] matches PromiseResult::Successful(b) && parse_bool(b@)
        == Some(true))
}

/// Payload of the deferred notification step of a two-phase transfer.
pub struct TransferCallAction {
    pub sender_id: String,
    pub receiver_id: String,
    pub amount: u128,
    pub msg: String,
}

/// The whole contract state: configuration, ledger, and the replay guard's
/// set of consumed proof fingerprints.
pub struct EthConnectorContract {
    contract: EthConnector,
    ft: FungibleToken,
    used_events: Vec<String>,
}

impl EthConnectorContract {
    pub closed spec fn spec_custodian(&self) -> Seq<u8> {
        self.contract.eth_custodian_address@
    }

    pub closed spec fn spec_prover_account(&self) -> Seq<char> {
        self.contract.prover_account@
    }

    pub closed spec fn spec_ft(&self) -> FungibleToken {
        self.ft
    }

    pub closed spec fn spec_used_events(&self) -> Seq<String> {
        self.used_events@
    }

    /// A fingerprint is recorded as consumed.
    pub open spec fn spec_used_contains(&self, fp: Seq<char>) -> bool {
        exists|i: int|
            0 <= i < self.spec_used_events().len() && #[trigger] self.spec_used_events()[i]@ == fp
    }

    pub open spec fn wf(&self) -> bool {
        self.spec_ft().wf() && self.spec_custodian().len() == 20
    }

    /// Assemble a contract from its persisted parts.
    pub fn new(contract: EthConnector, ft: FungibleToken, used_events: Vec<String>) -> (r: Self)
        requires
            ft.wf(),
            contract.eth_custodian_address.wf(),
        ensures
            r.wf(),
            r.spec_custodian() == contract.eth_custodian_address@,
            r.spec_prover_account() == contract.prover_account@,
            r.spec_ft() == ft,
            r.spec_used_events() == used_events@,
    {
        EthConnectorContract { contract, ft, used_events }
    }

    /// Provision a fresh contract: validate the custodian address, start an
    /// empty ledger with the owner registered, and an empty replay guard.
    /// Fails with `DecodeError` exactly when the custodian is not 40 hex
    /// digits.
    pub fn init_contract(prover_account: String, eth_custodian_address: &str, owner_id: &String)
        -> (r: Result<Self, ConnectorError>)
        ensures
            r is Ok <==> valid_hex(eth_custodian_address@) && eth_custodian_address@.len() == 40,
            r matches Ok(c) ==> {
                &&& c.wf()
                &&& c.spec_custodian() == bytes_of_hex(eth_custodian_address@)
                &&& c.spec_prover_account() == prover_account@
                &&& c.spec_ft().host_registered(owner_id@)
                &&& forall|k: Seq<char>| #[trigger] c.spec_ft().host_balance(k) == 0
                &&& forall|k: Seq<u8>| !#[trigger] c.spec_ft().eth_registered(k)
                &&& c.spec_ft().spec_total_supply() == 0
                &&& c.spec_ft().spec_total_supply_near() == 0
                &&& c.spec_ft().spec_total_supply_eth() == 0
                &&& c.spec_used_events().len() == 0
            },
            r is Err ==> r == Err::<Self, ConnectorError>(ConnectorError::DecodeError),
    {
        let custodian = match Address::from_hex(eth_custodian_address) {
            Ok(a) => a,
            Err(_) => {
                return Err(ConnectorError::DecodeError);
            },
        };
        let mut ft = FungibleToken::new();
        proof {
            assert(forall|k: Seq<char>|
                !crate::fungible_token::assoc_has(ft.spec_accounts(), k));
            assert(forall|k: Seq<u8>|
                !crate::fungible_token::assoc_has(ft.spec_accounts_eth(), k));
        }
        ft.internal_register_account(owner_id);
        Ok(
            EthConnectorContract {
                contract: EthConnector { prover_account, eth_custodian_address: custodian },
                ft,
                used_events: Vec::new(),
            },
        )
    }

    /// Verifier identity, for routing the asynchronous verification request.
    pub fn get_prover_account(&self) -> (r: &String)
        ensures
            r@ == self.spec_prover_account(),
    {
        &self.contract.prover_account
    }

    /// The configured custodian address.
    pub fn get_eth_custodian_address(&self) -> (r: &Address)
        ensures
            r@ == self.spec_custodian(),
    {
        &self.contract.eth_custodian_address
    }

    /// The ledger, for read access and persistence by the host.
    pub fn get_ft(&self) -> (r: &FungibleToken)
        ensures
            *r == self.spec_ft(),
    {
        &self.ft
    }

    /// The recorded fingerprints, for persistence by the host.
    pub fn used_events_list(&self) -> (r: &Vec<String>)
        ensures
            r@ == self.spec_used_events(),
    {
        &self.used_events
    }

    /// Storage key under which a consumed fingerprint is persisted.
    pub fn used_event_key(&self, key: &String) -> (r: String)
        ensures
            r@ == used_event_key_spec(key@),
    {
        let mut s: String = "EthConnector.used-event.".to_owned();
        s.append(key.as_str());
        s
    }

    /// Whether a proof fingerprint was already consumed.
    pub fn check_used_event(&self, key: &String) -> (r: bool)
        ensures
            r == self.spec_used_contains(key@),
    {
        let mut i: usize = 0;
        while i < self.used_events.len()
            invariant
                i <= self.used_events@.len(),
                forall|j: int| 0 <= j < i ==> #[trigger] self.spec_used_events()[j]@ != key@,
            decreases self.used_events@.len() - i,
        {
            if self.used_events[i] == *key {
                proof {
                    assert(self.spec_used_events()[i as int]@ == key@);
                }
                return true;
            }
            i += 1;
        }
        false
    }

    /// Record a consumed fingerprint. Fingerprints are never removed.
    pub fn save_used_event(&mut self, key: &String)
        ensures
            final(self).spec_used_events() == old(self).spec_used_events().push(*key),
            final(self).spec_used_contains(key@),
            forall|fp: Seq<char>|
                old(self).spec_used_contains(fp) ==> final(self).spec_used_contains(fp),
            final(self).spec_ft() == old(self).spec_ft(),
            final(self).spec_custodian() == old(self).spec_custodian(),
            final(self).spec_prover_account() == old(self).spec_prover_account(),
            final(self).wf() == old(self).wf(),
    {
        let ghost u0 = self.used_events@;
        let k = key.clone();
        self.used_events.push(k);
        proof {
            assert(self.used_events@ =~= u0.push(*key));
            assert(self.spec_used_events()[u0.len() as int]@ == key@);
            assert forall|fp: Seq<char>|
                old(self).spec_used_contains(fp) implies self.spec_used_contains(fp) by {
                let w = choose|w: int|
                    0 <= w < old(self).spec_used_events().len() && old(self).spec_used_events()[
                        w
                    ]@ == fp;
                assert(self.spec_used_events()[w]@ == fp);
            }
        }
    }

    /// Consume a proof fingerprint: fails with `ProofReplay`, changing
    /// nothing, exactly when it was consumed before.
    pub fn record_proof(&mut self, key: &String) -> (r: Result<(), ConnectorError>)
        ensures
            r is Ok <==> !old(self).spec_used_contains(key@),
            r is Err ==> *final(self) == *old(self) && r == Err::<(), ConnectorError>(
                ConnectorError::ProofReplay,
            ),
            r is Ok ==> final(self).spec_used_events() == old(self).spec_used_events().push(*key),
            final(self).spec_used_contains(key@),
            forall|fp: Seq<char>|
                old(self).spec_used_contains(fp) ==> final(self).spec_used_contains(fp),
            final(self).spec_ft() == old(self).spec_ft(),
            final(self).spec_custodian() == old(self).spec_custodian(),
            final(self).spec_prover_account() == old(self).spec_prover_account(),
            final(self).wf() == old(self).wf(),
    {
        if self.check_used_event(key) {
            return Err(ConnectorError::ProofReplay);
        }
        self.save_used_event(key);
        Ok(())
    }

    /// Mint host-namespace tokens, registering the identity when absent.
    pub fn mint_near(&mut self, owner_id: &String, amount: u128)
        requires
            old(self).wf(),
            old(self).spec_ft().spec_total_supply() + amount <= u128::MAX,
        ensures
            final(self).wf(),
            final(self).spec_ft().host_balance(owner_id@) == old(self).spec_ft().host_balance(
                owner_id@,
            ) + amount,
            forall|k: Seq<char>|
                k != owner_id@ ==> #[trigger] final(self).spec_ft().host_balance(k) == old(self).spec_ft().host_balance(k),
            final(self).spec_ft().spec_accounts_eth() == old(self).spec_ft().spec_accounts_eth(),
            final(self).spec_ft().spec_total_supply() == old(self).spec_ft().spec_total_supply()
                + amount,
            final(self).spec_ft().spec_total_supply_near() == old(self).spec_ft().spec_total_supply_near() + amount,
            final(self).spec_ft().spec_total_supply_eth() == old(self).spec_ft().spec_total_supply_eth(),
            final(self).spec_used_events() == old(self).spec_used_events(),
            final(self).spec_custodian() == old(self).spec_custodian(),
            final(self).spec_prover_account() == old(self).spec_prover_account(),
    {
        self.ft.internal_register_account(owner_id);
        self.ft.internal_deposit(owner_id, amount);
    }

    /// Mint origin-namespace tokens, registering the address when absent.
    pub fn mint_eth(&mut self, owner_id: &Address, amount: u128)
        requires
            old(self).wf(),
            old(self).spec_ft().spec_total_supply() + amount <= u128::MAX,
        ensures
            final(self).wf(),
            final(self).spec_ft().eth_balance(owner_id@) == old(self).spec_ft().eth_balance(
                owner_id@,
            ) + amount,
            forall|k: Seq<u8>|
                k != owner_id@ ==> #[trigger] final(self).spec_ft().eth_balance(k) == old(self).spec_ft().eth_balance(k),
            final(self).spec_ft().spec_accounts() == old(self).spec_ft().spec_accounts(),
            final(self).spec_ft().spec_total_supply() == old(self).spec_ft().spec_total_supply()
                + amount,
            final(self).spec_ft().spec_total_supply_eth() == old(self).spec_ft().spec_total_supply_eth() + amount,
            final(self).spec_ft().spec_total_supply_near() == old(self).spec_ft().spec_total_supply_near(),
            final(self).spec_used_events() == old(self).spec_used_events(),
            final(self).spec_custodian() == old(self).spec_custodian(),
            final(self).spec_prover_account() == old(self).spec_prover_account(),
    {
        self.ft.internal_deposit_eth(owner_id, amount);
    }

    /// Burn host-namespace tokens of a registered identity.
    pub fn burn_near(&mut self, owner_id: &String, amount: u128)
        requires
            old(self).wf(),
            old(self).spec_ft().host_registered(owner_id@),
            amount <= old(self).spec_ft().host_balance(owner_id@),
        ensures
            final(self).wf(),
            final(self).spec_ft().host_balance(owner_id@) == old(self).spec_ft().host_balance(
                owner_id@,
            ) - amount,
            forall|k: Seq<char>|
                k != owner_id@ ==> #[trigger] final(self).spec_ft().host_balance(k) == old(self).spec_ft().host_balance(k),
            final(self).spec_ft().spec_accounts_eth() == old(self).spec_ft().spec_accounts_eth(),
            final(self).spec_ft().spec_total_supply() == old(self).spec_ft().spec_total_supply()
                - amount,
            final(self).spec_ft().spec_total_supply_near() == old(self).spec_ft().spec_total_supply_near() - amount,
            final(self).spec_ft().spec_total_supply_eth() == old(self).spec_ft().spec_total_supply_eth(),
            final(self).spec_used_events() == old(self).spec_used_events(),
            final(self).spec_custodian() == old(self).spec_custodian(),
            final(self).spec_prover_account() == old(self).spec_prover_account(),
    {
        self.ft.internal_withdraw(owner_id, amount);
    }

    /// Burn origin-namespace tokens of a registered address.
    pub fn burn_eth(&mut self, address: &Address, amount: u128)
        requires
            old(self).wf(),
            old(self).spec_ft().eth_registered(address@),
            amount <= old(self).spec_ft().eth_balance(address@),
        ensures
            final(self).wf(),
            final(self).spec_ft().eth_balance(address@) == old(self).spec_ft().eth_balance(
                address@,
            ) - amount,
            forall|k: Seq<u8>|
                k != address@ ==> #[trigger] final(self).spec_ft().eth_balance(k) == old(self).spec_ft().eth_balance(k),
            final(self).spec_ft().spec_accounts() == old(self).spec_ft().spec_accounts(),
            final(self).spec_ft().spec_total_supply() == old(self).spec_ft().spec_total_supply()
                - amount,
            final(self).spec_ft().spec_total_supply_eth() == old(self).spec_ft().spec_total_supply_eth() - amount,
            final(self).spec_ft().spec_total_supply_near() == old(self).spec_ft().spec_total_supply_near(),
            final(self).spec_used_events() == old(self).spec_used_events(),
            final(self).spec_custodian() == old(self).spec_custodian(),
            final(self).spec_prover_account() == old(self).spec_prover_account(),
    {
        self.ft.internal_withdraw_eth(address, amount);
    }

    /// Combined total supply: host plus origin namespaces.
    pub fn ft_total_supply(&self) -> (r: u128)
        ensures
            r == self.spec_ft().spec_total_supply(),
    {
        self.ft.ft_total_supply()
    }

    /// Total supply held under host identities.
    pub fn ft_total_supply_near(&self) -> (r: u128)
        ensures
            r == self.spec_ft().spec_total_supply_near(),
    {
        self.ft.ft_total_supply_near()
    }

    /// Total supply held under origin addresses.
    pub fn ft_total_supply_eth(&self) -> (r: u128)
        ensures
            r == self.spec_ft().spec_total_supply_eth(),
    {
        self.ft.ft_total_supply_eth()
    }

    /// Balance of a host identity; zero when unregistered.
    pub fn ft_balance_of(&self, account_id: &String) -> (r: u128)
        requires
            self.wf(),
        ensures
            r == self.spec_ft().host_balance(account_id@),
    {
        self.ft.ft_balance_of(account_id)
    }

    /// Balance of an origin address; zero when unregistered.
    pub fn ft_balance_of_eth(&self, address: &Address) -> (r: u128)
        requires
            self.wf(),
        ensures
            r == self.spec_ft().eth_balance(address@),
    {
        self.ft.internal_unwrap_balance_of_eth(address)
    }

    /// Resolve a deposit's embedded recipient message. No delimiter names a
    /// host account; one delimiter names an origin address qualified by a
    /// contract tag; anything else — several delimiters, or an address part
    /// that is not 40 hex digits — is malformed.
    pub fn parse_event_message(&self, message: &str) -> (r: Result<
        TokenMessageData,
        ConnectorError,
    >)
        ensures
            colon_free(message@) ==> (r matches Ok(TokenMessageData::Near(a)) && a@ == message@),
            forall|i: int|
                single_colon_at(message@, i) && eth_suffix_ok(message@, i) ==> (
                r matches Ok(TokenMessageData::Eth { contract, address }) && contract@
                    == message@.subrange(0, i) && address@ == bytes_of_hex(
                    message@.subrange(i + 1, message@.len() as int),
                )),
            forall|i: int|
                single_colon_at(message@, i) && !eth_suffix_ok(message@, i) ==> r == Err::<
                    TokenMessageData,
                    ConnectorError,
                >(ConnectorError::DecodeError),
            !colon_free(message@) && !(exists|i: int| single_colon_at(message@, i)) ==> r == Err::<
                TokenMessageData,
                ConnectorError,
            >(ConnectorError::DecodeError),
    {
        let n = message.unicode_len();
        let mut c1: usize = 0;
        proof {
            assert(message@.subrange(0, 0) =~= Seq::<char>::empty());
        }
        while c1 < n && message.get_char(c1) != ':'
            invariant
                c1 <= n,
                n == message@.len(),
                colon_free(message@.subrange(0, c1 as int)),
            decreases n - c1,
        {
            c1 += 1;
            proof {
                assert(message@.subrange(0, c1 as int) =~= message@.subrange(
                    0,
                    c1 - 1,
                ).push(message@[c1 - 1]));
            }
        }
        if c1 == n {
            proof {
                assert(message@.subrange(0, n as int) =~= message@);
            }
            return Ok(TokenMessageData::Near(message.to_owned()));
        }
        let mut j: usize = c1 + 1;
        proof {
            assert(message@.subrange(c1 + 1, c1 + 1) =~= Seq::<char>::empty());
        }
        while j < n && message.get_char(j) != ':'
            invariant
                c1 < n,
                message@[c1 as int] == ':',
                n == message@.len(),
                c1 + 1 <= j <= n,
                colon_free(message@.subrange(c1 + 1, j as int)),
            decreases n - j,
        {
            j += 1;
            proof {
                assert(message@.subrange(c1 + 1, j as int) =~= message@.subrange(
                    c1 + 1,
                    j - 1,
                ).push(message@[j - 1]));
            }
        }
        if j < n {
            proof {
                assert(message@[j as int] == ':');
                assert forall|i: int| !single_colon_at(message@, i) by {
                    if single_colon_at(message@, i) {
                        if i < c1 as int {
                            assert(message@.subrange(i + 1, n as int)[c1 - i - 1] == ':');
                        } else if i > c1 as int {
                            assert(message@.subrange(0, i)[c1 as int] == ':');
                        } else {
                            assert(message@.subrange(i + 1, n as int)[j - i - 1] == ':');
                        }
                    }
                }
            }
            return Err(ConnectorError::DecodeError);
        }
        proof {
            assert(single_colon_at(message@, c1 as int));
            assert forall|i: int| single_colon_at(message@, i) implies i == c1 as int by {
                if i < c1 as int {
                    assert(message@.subrange(i + 1, n as int)[c1 - i - 1] == ':');
                } else if i > c1 as int {
                    assert(message@.subrange(0, i)[c1 as int] == ':');
                }
            }
        }
        let contract_tag = message.substring_char(0, c1);
        let addr_str = message.substring_char(c1 + 1, n);
        match Address::from_hex(addr_str) {
            Ok(address) => Ok(
                TokenMessageData::Eth { contract: contract_tag.to_owned(), address },
            ),
            Err(_) => Err(ConnectorError::DecodeError),
        }
    }

    /// Validate a deposit and build the continuation for the asynchronous
    /// verification: the custodian in the event must match the configured
    /// one, the fee may not exceed the amount, the recipient message must
    /// resolve, and an origin-address deposit needs a designated relayer. No
    /// state is touched — a deposit that never resumes leaves no trace.
    pub fn deposit(&self, event: &DepositedEvent, relayer_eth_account: &Option<Address>) -> (r:
        Result<DepositInstruction, ConnectorError>)
        requires
            self.wf(),
        ensures
            event.eth_custodian_address@ != self.spec_custodian() ==> r == Err::<
                DepositInstruction,
                ConnectorError,
            >(ConnectorError::EventAddressMismatch),
            event.eth_custodian_address@ == self.spec_custodian() && event.fee > event.amount ==> r
                == Err::<DepositInstruction, ConnectorError>(ConnectorError::FeeExceedsAmount),
            deposit_checks_passed(self, event) && colon_free(event.recipient@) ==> (
            r matches Ok(DepositInstruction::Near(a)) && a.new_owner_id@ == event.recipient@
                && a.amount == event.amount && a.fee == event.fee && a.fingerprint@
                == event.fingerprint@),
            forall|i: int|
                deposit_checks_passed(self, event) && single_colon_at(event.recipient@, i)
                    && eth_suffix_ok(event.recipient@, i) && relayer_eth_account is None ==> r
                    == Err::<DepositInstruction, ConnectorError>(ConnectorError::RelayerRequired),
            forall|i: int|
                deposit_checks_passed(self, event) && single_colon_at(event.recipient@, i)
                    && eth_suffix_ok(event.recipient@, i) ==> (
                *relayer_eth_account matches Some(rl) ==> (
                r matches Ok(DepositInstruction::Eth(a)) && a.new_owner_id@ == bytes_of_hex(
                    event.recipient@.subrange(i + 1, event.recipient@.len() as int),
                ) && a.amount == event.amount && a.fee == event.fee && a.relayer_eth_account@
                    == rl@ && a.fingerprint@ == event.fingerprint@)),
            forall|i: int|
                deposit_checks_passed(self, event) && single_colon_at(event.recipient@, i)
                    && !eth_suffix_ok(event.recipient@, i) ==> r == Err::<
                    DepositInstruction,
                    ConnectorError,
                >(ConnectorError::DecodeError),
            deposit_checks_passed(self, event) && !colon_free(event.recipient@) && !(exists|i: int|
                single_colon_at(event.recipient@, i)) ==> r == Err::<
                DepositInstruction,
                ConnectorError,
            >(ConnectorError::DecodeError),
    {
        if !event.eth_custodian_address.eq_addr(&self.contract.eth_custodian_address) {
            return Err(ConnectorError::EventAddressMismatch);
        }
        if event.fee > event.amount {
            return Err(ConnectorError::FeeExceedsAmount);
        }
        match self.parse_event_message(event.recipient.as_str()) {
            Ok(TokenMessageData::Near(account_id)) => Ok(
                DepositInstruction::Near(
                    FinishDepositCallArgs {
                        new_owner_id: account_id,
                        amount: event.amount,
                        fee: event.fee,
                        fingerprint: event.fingerprint.clone(),
                    },
                ),
            ),
            Ok(TokenMessageData::Eth { contract: _, address }) => match relayer_eth_account {
                Some(rl) => Ok(
                    DepositInstruction::Eth(
                        FinishDepositEthCallArgs {
                            new_owner_id: address,
                            amount: event.amount,
                            fee: event.fee,
                            relayer_eth_account: rl.clone(),
                            fingerprint: event.fingerprint.clone(),
                        },
                    ),
                ),
                None => Err(ConnectorError::RelayerRequired),
            },
            Err(e) => Err(e),
        }
    }

    /// Finalize a host-identity deposit. Valid only as a self-call carrying
    /// exactly one successful verification result; consumes the proof
    /// fingerprint, then mints `amount - fee` to the recipient and the fee
    /// to the finalizing caller. Any failure leaves the state untouched.
    pub fn finish_deposit_near(
        &mut self,
        private_call: bool,
        promise_results: &Vec<PromiseResult>,
        args: &FinishDepositCallArgs,
        predecessor_account_id: &String,
    ) -> (r: Result<(), ConnectorError>)
        requires
            old(self).wf(),
        ensures
            final(self).wf(),
            r is Err ==> *final(self) == *old(self),
            !private_call ==> r == Err::<(), ConnectorError>(ConnectorError::PrivilegedCallViolation),
            private_call && promise_results@.len() != 1 ==> r == Err::<(), ConnectorError>(
                ConnectorError::UnexpectedAsyncResultShape,
            ),
            private_call && promise_results@.len() == 1 && !(promise_results@[0]
                is Successful) ==> r == Err::<(), ConnectorError>(
                ConnectorError::UnexpectedAsyncResultShape,
            ),
            private_call && promise_results@.len() == 1 && (
            promise_results@[0] matches PromiseResult::Successful(b) && parse_bool(b@)
                is None) ==> r == Err::<(), ConnectorError>(ConnectorError::DecodeError),
            private_call && promise_results@.len() == 1 && (
            promise_results@[0] matches PromiseResult::Successful(b) && parse_bool(b@) == Some(
                false,
            )) ==> r == Err::<(), ConnectorError>(ConnectorError::VerificationFailed),
            private_call && verification_passed(promise_results@) && args.fee > args.amount ==> r
                == Err::<(), ConnectorError>(ConnectorError::FeeExceedsAmount),
            private_call && verification_passed(promise_results@) && args.fee <= args.amount && old(self).spec_used_contains(args.fingerprint@) ==> r == Err::<(), ConnectorError>(
                ConnectorError::ProofReplay,
            ),
            private_call && verification_passed(promise_results@) && args.fee <= args.amount
                && !old(self).spec_used_contains(args.fingerprint@) && old(self).spec_ft().spec_total_supply() + args.amount > u128::MAX ==> r == Err::<
                (),
                ConnectorError,
            >(ConnectorError::Overflow),
            r is Ok <==> (private_call && verification_passed(promise_results@) && args.fee
                <= args.amount && !old(self).spec_used_contains(args.fingerprint@) && old(self).spec_ft().spec_total_supply() + args.amount <= u128::MAX),
            r is Ok ==> {
                &&& final(self).spec_used_events() == old(self).spec_used_events().push(
                    args.fingerprint,
                )
                &&& final(self).spec_used_contains(args.fingerprint@)
                &&& final(self).spec_ft().spec_total_supply() == old(self).spec_ft().spec_total_supply() + args.amount
                &&& final(self).spec_ft().spec_total_supply_near() == old(self).spec_ft().spec_total_supply_near() + args.amount
                &&& final(self).spec_ft().spec_total_supply_eth() == old(self).spec_ft().spec_total_supply_eth()
                &&& final(self).spec_ft().spec_accounts_eth() == old(self).spec_ft().spec_accounts_eth()
                &&& (if args.new_owner_id@ == predecessor_account_id@ {
                    final(self).spec_ft().host_balance(args.new_owner_id@) == old(self).spec_ft().host_balance(args.new_owner_id@) + args.amount
                } else {
                    final(self).spec_ft().host_balance(args.new_owner_id@) == old(self).spec_ft().host_balance(args.new_owner_id@) + args.amount - args.fee && final(self).spec_ft().host_balance(predecessor_account_id@) == old(self).spec_ft().host_balance(predecessor_account_id@) + args.fee
                })
                &&& forall|k: Seq<char>|
                    k != args.new_owner_id@ && k != predecessor_account_id@ ==> #[trigger] final(self).spec_ft().host_balance(k) == old(self).spec_ft().host_balance(k)
            },
            forall|fp: Seq<char>|
                old(self).spec_used_contains(fp) ==> final(self).spec_used_contains(fp),
            final(self).spec_custodian() == old(self).spec_custodian(),
            final(self).spec_prover_account() == old(self).spec_prover_account(),
    {
        if !private_call {
            return Err(ConnectorError::PrivilegedCallViolation);
        }
        if promise_results.len() != 1 {
            return Err(ConnectorError::UnexpectedAsyncResultShape);
        }
        let bytes = match &promise_results[0] {
            PromiseResult::Successful(x) => x,
            _ => {
                return Err(ConnectorError::UnexpectedAsyncResultShape);
            },
        };
        let verified = match parse_bool_arg(bytes) {
            Some(v) => v,
            None => {
                return Err(ConnectorError::DecodeError);
            },
        };
        if !verified {
            return Err(ConnectorError::VerificationFailed);
        }
        if args.fee > args.amount {
            return Err(ConnectorError::FeeExceedsAmount);
        }
        if self.check_used_event(&args.fingerprint) {
            return Err(ConnectorError::ProofReplay);
        }
        let total = self.ft_total_supply();
        if args.amount > u128::MAX - total {
            return Err(ConnectorError::Overflow);
        }
        match self.record_proof(&args.fingerprint) {
            Ok(()) => {},
            Err(e) => {
                return Err(e);
            },
        }
        self.mint_near(&args.new_owner_id, args.amount - args.fee);
        self.mint_near(predecessor_account_id, args.fee);
        Ok(())
    }

    /// Finalize an origin-address deposit: mints `amount - fee` to the
    /// recipient address and the fee to the relayer. Same gating and replay
    /// protection as the host-identity path.
    pub fn finish_deposit_eth(
        &mut self,
        private_call: bool,
        promise_results: &Vec<PromiseResult>,
        args: &FinishDepositEthCallArgs,
    ) -> (r: Result<(), ConnectorError>)
        requires
            old(self).wf(),
        ensures
            final(self).wf(),
            r is Err ==> *final(self) == *old(self),
            !private_call ==> r == Err::<(), ConnectorError>(ConnectorError::PrivilegedCallViolation),
            private_call && promise_results@.len() != 1 ==> r == Err::<(), ConnectorError>(
                ConnectorError::UnexpectedAsyncResultShape,
            ),
            private_call && promise_results@.len() == 1 && !(promise_results@[0]
                is Successful) ==> r == Err::<(), ConnectorError>(
                ConnectorError::UnexpectedAsyncResultShape,
            ),
            private_call && promise_results@.len() == 1 && (
            promise_results@[0] matches PromiseResult::Successful(b) && parse_bool(b@)
                is None) ==> r == Err::<(), ConnectorError>(ConnectorError::DecodeError),
            private_call && promise_results@.len() == 1 && (
            promise_results@[0] matches PromiseResult::Successful(b) && parse_bool(b@) == Some(
                false,
            )) ==> r == Err::<(), ConnectorError>(ConnectorError::VerificationFailed),
            private_call && verification_passed(promise_results@) && args.fee > args.amount ==> r
                == Err::<(), ConnectorError>(ConnectorError::FeeExceedsAmount),
            private_call && verification_passed(promise_results@) && args.fee <= args.amount && old(self).spec_used_contains(args.fingerprint@) ==> r == Err::<(), ConnectorError>(
                ConnectorError::ProofReplay,
            ),
            private_call && verification_passed(promise_results@) && args.fee <= args.amount
                && !old(self).spec_used_contains(args.fingerprint@) && old(self).spec_ft().spec_total_supply() + args.amount > u128::MAX ==> r == Err::<
                (),
                ConnectorError,
            >(ConnectorError::Overflow),
            r is Ok <==> (private_call && verification_passed(promise_results@) && args.fee
                <= args.amount && !old(self).spec_used_contains(args.fingerprint@) && old(self).spec_ft().spec_total_supply() + args.amount <= u128::MAX),
            r is Ok ==> {
                &&& final(self).spec_used_events() == old(self).spec_used_events().push(
                    args.fingerprint,
                )
                &&& final(self).spec_used_contains(args.fingerprint@)
                &&& final(self).spec_ft().spec_total_supply() == old(self).spec_ft().spec_total_supply() + args.amount
                &&& final(self).spec_ft().spec_total_supply_eth() == old(self).spec_ft().spec_total_supply_eth() + args.amount
                &&& final(self).spec_ft().spec_total_supply_near() == old(self).spec_ft().spec_total_supply_near()
                &&& final(self).spec_ft().spec_accounts() == old(self).spec_ft().spec_accounts()
                &&& (if args.new_owner_id@ == args.relayer_eth_account@ {
                    final(self).spec_ft().eth_balance(args.new_owner_id@) == old(self).spec_ft().eth_balance(args.new_owner_id@) + args.amount
                } else {
                    final(self).spec_ft().eth_balance(args.new_owner_id@) == old(self).spec_ft().eth_balance(args.new_owner_id@) + args.amount - args.fee && final(self).spec_ft().eth_balance(args.relayer_eth_account@) == old(self).spec_ft().eth_balance(args.relayer_eth_account@) + args.fee
                })
                &&& forall|k: Seq<u8>|
                    k != args.new_owner_id@ && k != args.relayer_eth_account@ ==> #[trigger] final(self).spec_ft().eth_balance(k) == old(self).spec_ft().eth_balance(k)
            },
            forall|fp: Seq<char>|
                old(self).spec_used_contains(fp) ==> final(self).spec_used_contains(fp),
            final(self).spec_custodian() == old(self).spec_custodian(),
            final(self).spec_prover_account() == old(self).spec_prover_account(),
    {
        if !private_call {
            return Err(ConnectorError::PrivilegedCallViolation);
        }
        if promise_results.len() != 1 {
            return Err(ConnectorError::UnexpectedAsyncResultShape);
        }
        let bytes = match &promise_results[0] {
            PromiseResult::Successful(x) => x,
            _ => {
                return Err(ConnectorError::UnexpectedAsyncResultShape);
            },
        };
        let verified = match parse_bool_arg(bytes) {
            Some(v) => v,
            None => {
                return Err(ConnectorError::DecodeError);
            },
        };
        if !verified {
            return Err(ConnectorError::VerificationFailed);
        }
        if args.fee > args.amount {
            return Err(ConnectorError::FeeExceedsAmount);
        }
        if self.check_used_event(&args.fingerprint) {
            return Err(ConnectorError::ProofReplay);
        }
        let total = self.ft_total_supply();
        if args.amount > u128::MAX - total {
            return Err(ConnectorError::Overflow);
        }
        match self.record_proof(&args.fingerprint) {
            Ok(()) => {},
            Err(e) => {
                return Err(e);
            },
        }
        self.mint_eth(&args.new_owner_id, args.amount - args.fee);
        self.mint_eth(&args.relayer_eth_account, args.fee);
        Ok(())
    }
}

/// Custodian matches the configuration and the fee is within the amount.
pub open spec fn deposit_checks_passed(c: &EthConnectorContract, event: &DepositedEvent) -> bool {
    event.eth_custodian_address@ == c.spec_custodian() && event.fee <= event.amount
}

impl EthConnectorContract {
    /// Burn from the caller's host balance and issue a release receipt for
    /// the origin chain. Succeeds exactly when the recipient is 40 hex
    /// digits and the caller's registered balance covers the amount; any
    /// failure leaves every balance unchanged.
    pub fn withdraw_near(
        &mut self,
        predecessor_account_id: &String,
        recipient_address: &str,
        amount: u128,
    ) -> (r: Result<WithdrawResult, ConnectorError>)
        requires
            old(self).wf(),
        ensures
            final(self).wf(),
            r is Err ==> *final(self) == *old(self),
            !(valid_hex(recipient_address@) && recipient_address@.len() == 40) ==> r == Err::<
                WithdrawResult,
                ConnectorError,
            >(ConnectorError::DecodeError),
            valid_hex(recipient_address@) && recipient_address@.len() == 40 && !(old(self).spec_ft().host_registered(predecessor_account_id@) && amount <= old(self).spec_ft().host_balance(predecessor_account_id@)) ==> r == Err::<
                WithdrawResult,
                ConnectorError,
            >(ConnectorError::InsufficientBalance),
            r is Ok <==> (valid_hex(recipient_address@) && recipient_address@.len() == 40 && old(self).spec_ft().host_registered(predecessor_account_id@) && amount <= old(self).spec_ft().host_balance(predecessor_account_id@)),
            r matches Ok(res) ==> {
                &&& res.recipient_id@ == bytes_of_hex(recipient_address@)
                &&& res.amount == amount
                &&& res.eth_custodian_address@ == old(self).spec_custodian()
                &&& final(self).spec_ft().host_balance(predecessor_account_id@) == old(self).spec_ft().host_balance(predecessor_account_id@) - amount
                &&& forall|k: Seq<char>|
                    k != predecessor_account_id@ ==> #[trigger] final(self).spec_ft().host_balance(k) == old(self).spec_ft().host_balance(k)
                &&& final(self).spec_ft().spec_accounts_eth() == old(self).spec_ft().spec_accounts_eth()
                &&& final(self).spec_ft().spec_total_supply() == old(self).spec_ft().spec_total_supply() - amount
            },
            final(self).spec_used_events() == old(self).spec_used_events(),
            final(self).spec_custodian() == old(self).spec_custodian(),
            final(self).spec_prover_account() == old(self).spec_prover_account(),
    {
        let recipient = match Address::from_hex(recipient_address) {
            Ok(a) => a,
            Err(_) => {
                return Err(ConnectorError::DecodeError);
            },
        };
        match self.ft.accounts_get(predecessor_account_id) {
            Some(balance) => {
                if amount > balance {
                    return Err(ConnectorError::InsufficientBalance);
                }
            },
            None => {
                return Err(ConnectorError::InsufficientBalance);
            },
        }
        let custodian = self.contract.eth_custodian_address.clone();
        self.burn_near(predecessor_account_id, amount);
        Ok(WithdrawResult { recipient_id: recipient, amount, eth_custodian_address: custodian })
    }

    /// Burn from an origin-address balance, authorized by a detached
    /// signature over the canonical withdrawal message (see
    /// `crate::prover::withdraw_msg`). The host's signature recovery is
    /// handed in as `recovered_signer`; authorization succeeds only when it
    /// names the claimed sender. Any failure leaves every balance unchanged.
    pub fn withdraw_eth(
        &mut self,
        sender: &Address,
        eth_recipient: &Address,
        amount: u128,
        recovered_signer: &Option<Address>,
    ) -> (r: Result<WithdrawResult, ConnectorError>)
        requires
            old(self).wf(),
        ensures
            final(self).wf(),
            r is Err ==> *final(self) == *old(self),
            !(*recovered_signer matches Some(a) && a@ == sender@) ==> r == Err::<
                WithdrawResult,
                ConnectorError,
            >(ConnectorError::SignatureInvalid),
            (*recovered_signer matches Some(a) && a@ == sender@) && !(old(self).spec_ft().eth_registered(sender@) && amount <= old(self).spec_ft().eth_balance(
                sender@,
            )) ==> r == Err::<WithdrawResult, ConnectorError>(ConnectorError::InsufficientBalance),
            r is Ok <==> ((*recovered_signer matches Some(a) && a@ == sender@) && old(self).spec_ft().eth_registered(sender@) && amount <= old(self).spec_ft().eth_balance(
                sender@,
            )),
            r matches Ok(res) ==> {
                &&& res.recipient_id@ == eth_recipient@
                &&& res.amount == amount
                &&& res.eth_custodian_address@ == old(self).spec_custodian()
                &&& final(self).spec_ft().eth_balance(sender@) == old(self).spec_ft().eth_balance(
                    sender@,
                ) - amount
                &&& forall|k: Seq<u8>|
                    k != sender@ ==> #[trigger] final(self).spec_ft().eth_balance(k) == old(self).spec_ft().eth_balance(k)
                &&& final(self).spec_ft().spec_accounts() == old(self).spec_ft().spec_accounts()
                &&& final(self).spec_ft().spec_total_supply() == old(self).spec_ft().spec_total_supply() - amount
            },
            final(self).spec_used_events() == old(self).spec_used_events(),
            final(self).spec_custodian() == old(self).spec_custodian(),
            final(self).spec_prover_account() == old(self).spec_prover_account(),
    {
        let authorized = match recovered_signer {
            Some(a) => a.eq_addr(sender),
            None => false,
        };
        if !authorized {
            return Err(ConnectorError::SignatureInvalid);
        }
        let balance = match self.ft.accounts_get_eth(sender) {
            Some(b) => b,
            None => {
                return Err(ConnectorError::InsufficientBalance);
            },
        };
        if amount > balance {
            return Err(ConnectorError::InsufficientBalance);
        }
        let custodian = self.contract.eth_custodian_address.clone();
        self.burn_eth(sender, amount);
        Ok(
            WithdrawResult {
                recipient_id: eth_recipient.clone(),
                amount,
                eth_custodian_address: custodian,
            },
        )
    }

    /// Transfer between two distinct registered host identities; the caller
    /// is the sender. Supply counters never change.
    pub fn ft_transfer(
        &mut self,
        predecessor_account_id: &String,
        receiver_id: &String,
        amount: u128,
    ) -> (r: Result<(), ConnectorError>)
        requires
            old(self).wf(),
            predecessor_account_id@ != receiver_id@,
            old(self).spec_ft().host_registered(receiver_id@),
            amount > 0,
        ensures
            final(self).wf(),
            r is Ok <==> amount <= old(self).spec_ft().host_balance(predecessor_account_id@),
            r is Err ==> *final(self) == *old(self) && r == Err::<(), ConnectorError>(
                ConnectorError::InsufficientBalance,
            ),
            r is Ok ==> {
                &&& final(self).spec_ft().host_balance(predecessor_account_id@) == old(self).spec_ft().host_balance(predecessor_account_id@) - amount
                &&& final(self).spec_ft().host_balance(receiver_id@) == old(self).spec_ft().host_balance(receiver_id@) + amount
                &&& forall|k: Seq<char>|
                    k != predecessor_account_id@ && k != receiver_id@ ==> #[trigger] final(self).spec_ft().host_balance(k) == old(self).spec_ft().host_balance(k)
                &&& final(self).spec_ft().spec_total_supply() == old(self).spec_ft().spec_total_supply()
            },
            final(self).spec_ft().spec_accounts_eth() == old(self).spec_ft().spec_accounts_eth(),
            final(self).spec_used_events() == old(self).spec_used_events(),
            final(self).spec_custodian() == old(self).spec_custodian(),
            final(self).spec_prover_account() == old(self).spec_prover_account(),
    {
        self.ft.ft_transfer(predecessor_account_id, receiver_id, amount)
    }

    /// Settle a two-phase transfer; a resumption, so valid only as a
    /// self-call. Refunds what the receiver rejected and still holds, burns
    /// the unrecoverable part when the sender is gone, and returns the
    /// amount that finally stayed transferred.
    pub fn ft_resolve_transfer(
        &mut self,
        private_call: bool,
        sender_id: &String,
        receiver_id: &String,
        amount: u128,
        unused: u128,
    ) -> (r: Result<u128, ConnectorError>)
        requires
            old(self).wf(),
            sender_id@ != receiver_id@,
        ensures
            final(self).wf(),
            !private_call ==> r == Err::<u128, ConnectorError>(
                ConnectorError::PrivilegedCallViolation,
            ) && *final(self) == *old(self),
            private_call ==> r is Ok,
            private_call ==> ({
                let capped = if unused <= amount {
                    unused as int
                } else {
                    amount as int
                };
                let rb = old(self).spec_ft().host_balance(receiver_id@) as int;
                let refund = if rb <= capped {
                    rb
                } else {
                    capped
                };
                if refund == 0 {
                    &&& *final(self) == *old(self)
                    &&& r == Ok::<u128, ConnectorError>(amount)
                } else if old(self).spec_ft().host_registered(sender_id@) {
                    &&& final(self).spec_ft().host_balance(receiver_id@) == rb - refund
                    &&& final(self).spec_ft().host_balance(sender_id@) == old(self).spec_ft().host_balance(sender_id@) + refund
                    &&& final(self).spec_ft().spec_total_supply() == old(self).spec_ft().spec_total_supply()
                    &&& r == Ok::<u128, ConnectorError>((amount - refund) as u128)
                } else {
                    &&& final(self).spec_ft().host_balance(receiver_id@) == rb - refund
                    &&& final(self).spec_ft().spec_total_supply() == old(self).spec_ft().spec_total_supply() - refund
                    &&& r == Ok::<u128, ConnectorError>(amount)
                }
            }),
            final(self).spec_ft().spec_accounts_eth() == old(self).spec_ft().spec_accounts_eth(),
            final(self).spec_used_events() == old(self).spec_used_events(),
            final(self).spec_custodian() == old(self).spec_custodian(),
            final(self).spec_prover_account() == old(self).spec_prover_account(),
    {
        if !private_call {
            return Err(ConnectorError::PrivilegedCallViolation);
        }
        let used = self.ft.ft_resolve_transfer(sender_id, receiver_id, amount, unused);
        Ok(used)
    }

    /// First phase of a transfer with notification: move the tokens, then
    /// hand back the notification the host should deliver to the receiver;
    /// `ft_resolve_transfer` settles the outcome.
    pub fn ft_transfer_call(
        &mut self,
        predecessor_account_id: &String,
        receiver_id: &String,
        amount: u128,
        msg: String,
    ) -> (r: Result<TransferCallAction, ConnectorError>)
        requires
            old(self).wf(),
            predecessor_account_id@ != receiver_id@,
            old(self).spec_ft().host_registered(receiver_id@),
            amount > 0,
        ensures
            final(self).wf(),
            r is Ok <==> amount <= old(self).spec_ft().host_balance(predecessor_account_id@),
            r is Err ==> *final(self) == *old(self) && r == Err::<TransferCallAction, ConnectorError>(
                ConnectorError::InsufficientBalance,
            ),
            r matches Ok(a) ==> {
                &&& a.sender_id@ == predecessor_account_id@
                &&& a.receiver_id@ == receiver_id@
                &&& a.amount == amount
                &&& a.msg@ == msg@
                &&& final(self).spec_ft().host_balance(predecessor_account_id@) == old(self).spec_ft().host_balance(predecessor_account_id@) - amount
                &&& final(self).spec_ft().host_balance(receiver_id@) == old(self).spec_ft().host_balance(receiver_id@) + amount
                &&& final(self).spec_ft().spec_total_supply() == old(self).spec_ft().spec_total_supply()
            },
            final(self).spec_used_events() == old(self).spec_used_events(),
            final(self).spec_custodian() == old(self).spec_custodian(),
            final(self).spec_prover_account() == old(self).spec_prover_account(),
    {
        match self.ft.ft_transfer(predecessor_account_id, receiver_id, amount) {
            Ok(()) => Ok(
                TransferCallAction {
                    sender_id: predecessor_account_id.clone(),
                    receiver_id: receiver_id.clone(),
                    amount,
                    msg,
                },
            ),
            Err(e) => Err(e),
        }
    }

    /// Register a host account for storage bookkeeping; a no-op when it
    /// already exists. Balances and supply never change; the refund policy
    /// for the attached deposit is the host dispatcher's.
    pub fn storage_deposit(&mut self, account_id: &String, attached_deposit: u128) -> (r:
        StorageBalance)
        requires
            old(self).wf(),
        ensures
            final(self).wf(),
            final(self).spec_ft().host_registered(account_id@),
            forall|k: Seq<char>|
                #[trigger] final(self).spec_ft().host_balance(k) == old(self).spec_ft().host_balance(k),
            final(self).spec_ft().spec_total_supply() == old(self).spec_ft().spec_total_supply(),
            final(self).spec_ft().spec_accounts_eth() == old(self).spec_ft().spec_accounts_eth(),
            final(self).spec_used_events() == old(self).spec_used_events(),
            final(self).spec_custodian() == old(self).spec_custodian(),
            final(self).spec_prover_account() == old(self).spec_prover_account(),
            r.total == attached_deposit,
            r.available == 0,
    {
        self.ft.internal_register_account(account_id);
        StorageBalance { total: attached_deposit, available: 0 }
    }

    /// Storage withdrawal: the available storage balance is always zero, so
    /// only a zero-amount withdrawal by a registered account succeeds; it
    /// changes nothing and reports the current record.
    pub fn storage_withdraw(&mut self, predecessor_account_id: &String, amount: u128) -> (r:
        Result<StorageBalance, ConnectorError>)
        requires
            old(self).wf(),
        ensures
            final(self).wf(),
            *final(self) == *old(self),
            r is Ok <==> (old(self).spec_ft().host_registered(predecessor_account_id@) && amount
                == 0),
            r matches Ok(b) ==> b == (StorageBalance { total: 0, available: 0 }),
            r is Err ==> r == Err::<StorageBalance, ConnectorError>(
                ConnectorError::InsufficientBalance,
            ),
    {
        match self.ft.accounts_get(predecessor_account_id) {
            Some(_) => {
                if amount == 0 {
                    Ok(StorageBalance { total: 0, available: 0 })
                } else {
                    Err(ConnectorError::InsufficientBalance)
                }
            },
            None => Err(ConnectorError::InsufficientBalance),
        }
    }

    /// Registration record of a host account.
    pub fn storage_balance_of(&self, account_id: &String) -> (r: Option<StorageBalance>)
        requires
            self.wf(),
        ensures
            r is Some <==> self.spec_ft().host_registered(account_id@),
            r matches Some(b) ==> b == (StorageBalance { total: 0, available: 0 }),
    {
        match self.ft.accounts_get(account_id) {
            Some(_) => Some(StorageBalance { total: 0, available: 0 }),
            None => None,
        }
    }
}

/// A proof fingerprint funds at most one successful mint. A successful
/// finish-deposit demands an unrecorded fingerprint and records it (the
/// contracts of `finish_deposit_near` and `finish_deposit_eth`), every
/// operation preserves recorded fingerprints, and a recorded fingerprint
/// forces any further finish-deposit carrying it into `ProofReplay` with no
/// ledger change. This lemma supplies the chaining step: through any
/// sequence of states each of which preserves the recorded set, a recorded
/// fingerprint stays recorded.
pub proof fn lemma_recorded_fingerprint_is_permanent(
    states: Seq<EthConnectorContract>,
    fp: Seq<char>,
)
    requires
        states.len() > 0,
        states[0].spec_used_contains(fp),
        forall|n: int, f: Seq<char>|
            0 <= n < states.len() - 1 && #[trigger] states[n].spec_used_contains(f) ==> states[n
                + 1].spec_used_contains(f),
    ensures
        states.last().spec_used_contains(fp),
    decreases states.len(),
{
    if states.len() > 1 {
        assert(states[1].spec_used_contains(fp));
        let rest = states.drop_first();
        assert forall|n: int, f: Seq<char>|
            0 <= n < rest.len() - 1 && #[trigger] rest[n].spec_used_contains(f) implies rest[n
            + 1].spec_used_contains(f) by {
            assert(rest[n] == states[n + 1]);
            assert(rest[n + 1] == states[n + 2]);
            assert(states[n + 2].spec_used_contains(f));
        }
        lemma_recorded_fingerprint_is_permanent(rest, fp);
        assert(rest.last() == states.last());
    }
}

} // verus!
