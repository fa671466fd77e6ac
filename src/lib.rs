//! An XDCC client library: the offer parser, the pack ranges, the session's
//! decisions on each control line, and the byte count of each transfer.
pub mod dcc_send;
pub mod lines;
pub mod packs_ranges;
pub mod text;
pub mod xdcc;

pub use dcc_send::DccSend;
pub use packs_ranges::{PackRange, PacksRanges};
pub use xdcc::Xdcc;
