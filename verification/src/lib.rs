//! Verified core of a rule-driven interception gateway.
//!
//! The gateway answers DNS queries with synthetic addresses from a private
//! pool, remembers which domain each address stands for, and decides for
//! every flow that later arrives for such an address whether it is relayed,
//! dialed directly or dropped. This crate holds what is decided and
//! remembered: the binding store with its connection ledger, the rule
//! engine, the hosts grammar and snapshot, the DNS resolver's algorithm and
//! the dispatcher's. Sockets, files and tasks are the caller's; every
//! function here takes plain values and says in its contract what it
//! returns or changes.

pub mod addr;
pub mod client;
pub mod clock;
pub mod connections;
pub mod dns;
pub mod hosts;
pub mod hosts_file;
pub mod pool;
pub mod resolver;
pub mod rule;
pub mod store;
pub mod text;
