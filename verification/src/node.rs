//! What a node says of itself.

use vstd::prelude::*;
use crate::order::bytes_copy;

verus! {

/// A node's description as mathematical values.
pub ghost struct NodeInfoView {
    pub node_id: Seq<u8>,
    pub cluster_id: Seq<char>,
    pub advertise_addr: Seq<char>,
    pub advertise_peer_addr: Seq<char>,
    pub incarnation: u64,
}

/// The identity of a node, the addresses under which it can be reached, and
/// its incarnation: a counter that the node alone advances, and by which the
/// later of two reports about it is told.
#[derive(Debug)]
pub struct NodeInfo {
    pub node_id: Vec<u8>,
    pub cluster_id: String,
    pub advertise_addr: String,
    pub advertise_peer_addr: String,
    pub incarnation: u64,
}

impl View for NodeInfo {
    type V = NodeInfoView;

    open spec fn view(&self) -> NodeInfoView {
        NodeInfoView {
            node_id: self.node_id@,
            cluster_id: self.cluster_id@,
            advertise_addr: self.advertise_addr@,
            advertise_peer_addr: self.advertise_peer_addr@,
            incarnation: self.incarnation,
        }
    }
}

impl Clone for NodeInfo {
    fn clone(&self) -> (r: NodeInfo)
        ensures
            r@ == self@,
    {
        NodeInfo {
            node_id: bytes_copy(self.node_id.as_slice()),
            cluster_id: self.cluster_id.clone(),
            advertise_addr: self.advertise_addr.clone(),
            advertise_peer_addr: self.advertise_peer_addr.clone(),
            incarnation: self.incarnation,
        }
    }
}

/// The part of a node's description that outlives a restart. The addresses
/// are left out: they may change from one start to the next.
#[derive(Debug)]
pub struct PersistentNodeInfo {
    pub node_id: Vec<u8>,
    pub cluster_id: String,
    pub incarnation: u64,
}

impl PersistentNodeInfo {
    /// The lasting part of `info`.
    pub fn from_node(info: &NodeInfo) -> (r: PersistentNodeInfo)
        ensures
            r.node_id@ == info.node_id@,
            r.cluster_id@ == info.cluster_id@,
            r.incarnation == info.incarnation,
    {
        PersistentNodeInfo {
            node_id: bytes_copy(info.node_id.as_slice()),
            cluster_id: info.cluster_id.clone(),
            incarnation: info.incarnation,
        }
    }
}

impl NodeInfo {
    /// The description of a node that starts for the first time.
    pub fn init(node_id: Vec<u8>, cluster_id: String, addr: String, peer_addr: String) -> (r:
        NodeInfo)
        ensures
            r@ == (NodeInfoView {
                node_id: node_id@,
                cluster_id: cluster_id@,
                advertise_addr: addr@,
                advertise_peer_addr: peer_addr@,
                incarnation: 0,
            }),
    {
        NodeInfo {
            node_id,
            cluster_id,
            advertise_addr: addr,
            advertise_peer_addr: peer_addr,
            incarnation: 0,
        }
    }

    /// Moves the node to its next incarnation.
    pub fn advance_incarnation(&mut self)
        requires
            old(self).incarnation < u64::MAX,
        ensures
            final(self)@ == (NodeInfoView {
                incarnation: (old(self).incarnation + 1) as u64,
                ..old(self)@
            }),
    {
        self.incarnation = self.incarnation + 1;
    }

    /// The description of a node whose lasting part was stored as `stored`,
    /// under the addresses of this start.
    pub fn restore(stored: PersistentNodeInfo, advertise_addr: String, advertise_peer_addr: String) -> (r: NodeInfo)
        ensures
            r@ == (NodeInfoView {
                node_id: stored.node_id@,
                cluster_id: stored.cluster_id@,
                advertise_addr: advertise_addr@,
                advertise_peer_addr: advertise_peer_addr@,
                incarnation: stored.incarnation,
            }),
    {
        NodeInfo {
            node_id: stored.node_id,
            cluster_id: stored.cluster_id,
            advertise_addr,
            advertise_peer_addr,
            incarnation: stored.incarnation,
        }
    }

    /// The description with which a node starts. A node that finds its
    /// lasting part stored keeps its identity and cluster and takes the
    /// incarnation after the stored one; the stored incarnation stays where no
    /// later one exists. A node that finds nothing stored starts as `node_id`
    /// in `cluster_id` at incarnation 0.
    pub fn startup(
        stored: Option<PersistentNodeInfo>,
        node_id: Vec<u8>,
        cluster_id: String,
        advertise_addr: String,
        advertise_peer_addr: String,
    ) -> (r: NodeInfo)
        ensures
            r@.advertise_addr == advertise_addr@,
            r@.advertise_peer_addr == advertise_peer_addr@,
            match stored {
                Some(s) => {
                    &&& r@.node_id == s.node_id@
                    &&& r@.cluster_id == s.cluster_id@
                    &&& r@.incarnation == if s.incarnation < u64::MAX {
                        s.incarnation + 1
                    } else {
                        u64::MAX as int
                    }
                },
                None => {
                    &&& r@.node_id == node_id@
                    &&& r@.cluster_id == cluster_id@
                    &&& r@.incarnation == 0
                },
            },
    {
        match stored {
            Some(s) => {
                let mut node = NodeInfo::restore(s, advertise_addr, advertise_peer_addr);
                if node.incarnation < u64::MAX {
                    node.advance_incarnation();
                }
                node
            },
            None => NodeInfo::init(node_id, cluster_id, advertise_addr, advertise_peer_addr),
        }
    }
}

} // verus!
