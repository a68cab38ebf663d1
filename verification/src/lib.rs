//! Synchronization and reconciliation engine for directories that several
//! machines share without a central server.
//!
//! Each node watches its files, announces changes to its peers over a gossip
//! channel, and reconciles what its disk, its local store and a distributed
//! overlay say about each file. This crate holds the logic of a node, with
//! what it does stated in contracts and proved:
//!
//! - `types`, `dht`: tracked files, content keys and hashes, version records;
//! - `bencode`, `netmessages`, `netcommand`, `netexchange`, `frame`: the wire
//!   forms of everything that nodes and the operator exchange;
//! - `resolver`: the decision table that says whether to push, pull, merge
//!   or leave a file alone;
//! - `ledger`, `fileset`: the engine's own state;
//! - `netevent`: the engine, from event and state to actions and next state;
//! - `onload`, `watcher`, `interface`, `handlers`: configuration, file
//!   changes, the operator's commands.
//!
//! The crate performs no input or output. Whoever runs the engine reads the
//! disk, the store and the clock, hands plain values in, and performs the
//! actions that come back.

pub mod bencode;
pub mod dht;
pub mod fileset;
pub mod frame;
pub mod handlers;
pub mod interface;
pub mod ledger;
pub mod netcommand;
pub mod netevent;
pub mod netexchange;
pub mod netmessages;
pub mod onload;
pub mod resolver;
pub mod types;
pub mod watcher;
