//! Discovery and pairing support for HomeKit-style accessories.
//!
//! The crate covers the three protocol pieces that need care: the TLV8
//! tag-length-value codec used for every pairing message, the validation of
//! service-advertisement records into accessory descriptions, and the
//! six-message pair-setup state machine with its SRP credential step.

pub mod client;
pub mod credentials;
pub mod devices;
pub mod discovery;
pub mod pairing;
pub mod tlv8;
