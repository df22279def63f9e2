//! Routing-table maintenance for a peer-to-peer overlay: liveness of remote
//! nodes per address family, bounded close-node lists ranked by health and
//! XOR distance, and the periodic choice of whom to query for each friend.
//! Beside it, the framing of packets on the encrypted stream between a
//! client and a relay.
//!
//! Nothing here reads a clock, draws a random number or touches a socket:
//! the current instant and the draws are arguments, and what is to be sent
//! is returned to the caller.

pub mod addr;
pub mod buffer;
pub mod codec;
pub mod dht_friend;
pub mod dht_node;
pub mod kbucket;
pub mod key;
pub mod packed_node;
pub mod time;
