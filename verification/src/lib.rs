//! A two-party, non-custodial token swap (escrow) core.
//!
//! A maker deposits an amount of one asset into a per-offer holding account
//! (the vault) and records how much of another asset they want in return.
//! Any taker may later fulfill the offer: the taker pays the wanted amount
//! directly to the maker, the vault's full balance is released to the taker,
//! and the offer record and vault are torn down — all as one atomic step.
//!
//! The underlying ledger (fungible balances keyed by owner and asset, and
//! offer records keyed by their derived address) is modelled explicitly in
//! [`ledger::Ledger`], so every rule of the escrow state machine is stated
//! as a contract and proved.

pub mod error;
pub mod state;
pub mod ledger;
pub mod laws;
