//! Reliable bulk transfer: payloads travel as RaptorQ symbols.
pub mod decoder;
pub mod encoder;
pub mod transfers;
