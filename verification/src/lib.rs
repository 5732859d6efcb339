//! A multi-symbol limit order book matching engine.
//!
//! Each order book keeps two price-ordered sides of resting limit orders and
//! matches incoming market orders against the opposite side in price-time
//! priority. A registry multiplexes books by symbol, and a request layer
//! validates RPC input, decodes decimal strings to scaled integer units, and
//! prepares the rows and the notification payload that the persistence and
//! publication sinks consume.

pub mod book;
pub mod decimal;
pub mod engine;
pub mod laws;
pub mod level;
pub mod order;
pub mod publish;
pub mod registry;
pub mod rpc;
pub mod sink;
