//! A minimal fungible-token ledger: named-account balances, a global supply
//! figure, and a single privileged account permitted to create new supply.
//!
//! The [`ledger::Ledger`] owns all state and exposes the operations
//! `init`, `token_name`, `token_symbol`, `total_supply`, `balance_of`,
//! `transfer` and `mint`. Amounts are arbitrary-precision non-negative
//! integers ([`amount::Amount`]); the balance table stores no zero entries,
//! and the recorded total supply always equals the sum of all stored
//! balances.

pub mod amount;
pub mod ledger;

pub use amount::Amount;
pub use ledger::AccountId;
pub use ledger::ErrorKind;
pub use ledger::Ledger;
pub use ledger::Receipt;
