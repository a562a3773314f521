//! A Byzantine-fault-tolerant consensus engine of the HotStuff family, in
//! which several logical validators share one set of network listeners and
//! every wire message carries the identifier of the validator it is for.
//!
//! The crate holds the round-based consensus state machine (proposals, votes,
//! timeouts, certificates, the commit rule), the committee and leader
//! election, the ancestor synchronizer, and the per-connection dispatch state
//! machine that demultiplexes framed bytes onto validator instances. The
//! network itself (sockets, tasks, channels) lives outside the crate and only
//! hands plain values in and out.

pub mod aggregator;
pub mod codec;
pub mod committee;
pub mod consensus;
pub mod helper;
pub mod machine;
pub mod mempool;
pub mod messages;
pub mod proposer;
pub mod receiver;
pub mod safety;
pub mod store;
pub mod synchronizer;
