//! Accounting and verification core of a two-way token bridge between an
//! origin chain and a host ledger: address codec, dual-namespace balance
//! ledger, replay guard, recipient resolver, withdrawal authorizer, and the
//! deposit/withdrawal orchestrator.
mod address;
mod connector;
mod errors;
mod fungible_token;
mod prover;

pub use address::Address;
pub use fungible_token::FungibleToken;
pub use fungible_token::sum_balances;
pub use fungible_token::distinct_keys;
pub use prover::withdraw_message_bytes;
pub use address::AddressConst;
pub use address::AddressLengthError;
pub use connector::DepositInstruction;
pub use connector::DepositedEvent;
pub use connector::EthConnector;
pub use connector::EthConnectorContract;
pub use connector::FinishDepositCallArgs;
pub use connector::FinishDepositEthCallArgs;
pub use connector::PromiseResult;
pub use connector::StorageBalance;
pub use connector::TokenMessageData;
pub use connector::TransferCallAction;
pub use connector::WithdrawResult;
pub use errors::ConnectorError;
