//! Control-plane codec and message chunking for a kernel WireGuard device.
//!
//! `model` holds the configuration values, `attrs` the protocol's attribute records and their
//! encoded sizes, `codec` the conversions between the two, `payload` the packing of an update
//! into size-bounded messages, and `lifecycle` the decisions of the interface operations.
pub mod model;
pub mod attrs;
pub mod codec;
pub mod payload;
pub mod lifecycle;
