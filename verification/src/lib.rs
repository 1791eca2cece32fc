//! A registry of uniquely identified digital creatures.
//!
//! Each creature carries an immutable 16-byte genome and is owned by an
//! account that locks a fixed bond per creature held.  The ledger offers
//! three atomic operations — mint, breed and transfer — whose contracts
//! pin down the exact successor state and the exact error on every input.

pub mod genome;
pub mod model;
pub mod ledger;

pub use genome::Kitty;
pub use ledger::Funds;
pub use ledger::Ledger;
pub use model::Config;
pub use model::Error;
pub use model::Event;
