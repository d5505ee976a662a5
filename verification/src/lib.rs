//! A fungible-token ledger: balances per account, delegated-spending
//! allowances per (owner, spender) pair, and a total supply that always
//! equals the sum of all balances.

pub mod allowances;
pub mod balances;
pub mod ledger;

pub use crate::ledger::AccountId;
pub use crate::ledger::Balance;
pub use crate::ledger::Burn;
pub use crate::ledger::Erc20;
pub use crate::ledger::Error;
pub use crate::ledger::Event;
pub use crate::ledger::LedgerView;
pub use crate::ledger::Mint;
pub use crate::ledger::Transfer;
