//! A node as it travels in packets: one socket address and the node's key.

use vstd::prelude::*;
use crate::addr::SocketAddr;
use crate::key::PublicKey;

verus! {

/// The address and the public key of a node, without any state.
#[derive(Clone, Copy, Debug, PartialEq, Eq)]
pub struct PackedNode {
    /// Socket address of the node.
    pub saddr: SocketAddr,
    /// Public key of the node.
    pub pk: PublicKey,
}

impl PackedNode {
    /// The node with the given address and key.
    pub fn new(saddr: SocketAddr, pk: &PublicKey) -> (pn: PackedNode)
        ensures
            pn == (PackedNode { saddr, pk: *pk }),
    {
        PackedNode { saddr, pk: *pk }
    }
}

} // verus!
