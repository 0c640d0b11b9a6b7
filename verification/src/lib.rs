//! Control-plane library for a network-attached relay board.
//!
//! The crate models the shared relay table, the mutation engine with its
//! debounce policy, the board wire protocol (bitmask encoding and the
//! decimal / dotted-quad codecs), the fan-out event bus that feeds
//! long-poll consumers, the board registration state machine, and the
//! two-snapshot panel reconciliation policy. All of it is verified;
//! network and disk plumbing lives outside the library and hands it
//! plain values.

pub mod addr;
pub mod board;
pub mod codec;
pub mod engine;
pub mod events;
pub mod registry;
pub mod scan;
pub mod table;

pub use table::Item;
pub use table::States;
