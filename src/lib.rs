//! Invoice tokenization platform: an invoice lifecycle state machine with a
//! Dutch-auction primary sale, a fractional ownership ledger, pro-rata
//! settlement, an insurance pool, disputes with clawback, and a secondary
//! order book; plus a fungible claim token with allowances and KYC gating.
pub mod errors;
pub mod types;
pub mod events;
pub mod arith;
pub mod auction;
pub mod settlement;
pub mod ledger;
pub mod contract;
pub mod lifecycle;
pub mod orders;
pub mod insurance;
pub mod access;
pub mod laws;
pub mod token;
