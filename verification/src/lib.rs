//! Expansion of Intel HEX text into address-and-byte rows, and the decisions
//! of the WinMerge unpacker plugin that offers it.

pub mod hex;
pub mod text;
pub mod intel_hex;
pub mod com;
pub mod plugin;

pub use intel_hex::expand;
