//! Instruction processing for a lottery/escrow program on a UTXO settlement
//! layer: requests are decoded from instruction bytes, checked against the
//! state record kept in the participant's account buffer, and either change
//! that record (Deposit, Ticket) or rebuild a settlement transaction to be
//! signed (Swap).
pub mod deposit;
pub mod error;
pub mod params;
pub mod router;
pub mod state;
pub mod swap;
pub mod wire;
