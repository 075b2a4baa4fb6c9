//! Command message compiler and secure dispatch channel for a peer-to-peer
//! trade-escrow protocol carried over a relay network.
//!
//! The library validates user-supplied payment data (fiat ranges, lightning
//! invoices and addresses), compiles commands into canonical protocol
//! messages, derives shared secrets for private channels, and decides how a
//! dispatch is correlated with its asynchronous response.

pub mod codec;
pub mod digits;
pub mod dispatch;
pub mod fiat;
pub mod instrument;
pub mod message;
pub mod sharedkey;
