//! Reads the running nf_tables ruleset (tables, chains, rules) over a
//! netfilter netlink socket and decodes it into a typed model.
//!
//! The library holds the protocol logic: request encoding, message framing,
//! attribute decoding, the receive-loop decisions and the order in which the
//! Table -> Chain -> Rule hierarchy is queried. The socket itself is driven by
//! the caller, which hands each received datagram back to the library.

mod types;
pub mod wire;
pub mod decode;
pub mod session;
pub mod load;

pub use types::{
    family_code, family_of_code, family_round_trip, policy_code, policy_of_code, policy_round_trip,
    Chain, Error, Expression, Family, Hook, HookType, HookType2, Item, ItemSet, Policy, Rule, Table,
};
pub use load::{Loader, Stage};
pub use session::Flow;
pub use wire::{split_messages, Message};
