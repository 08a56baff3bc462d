//! The router: which node serves a key.
//!
//! A key goes to the first live member that a walk round the ring from the
//! hash of the key meets. Where that is the node itself, or nobody is alive,
//! the node serves the key; otherwise the client is sent on to the owner.

use vstd::prelude::*;
use vstd::string::StringSliceAdditionalSpecFns;
use crate::gossip::GossipState;
use crate::member::{MemberStateView, MemberStatus, Membership};
use crate::order::bytes_eq;
use crate::ring::key_hash;
use crate::slots::{answers, lemma_rank_bounds, scan_order, SlotView};

verus! {

/// Where a request is served, as mathematical values.
pub ghost enum RouteDestView {
    Local,
    RemoteAddr(Seq<char>),
}

/// Where a request is served: by this node, or by the node that advertises
/// the given address.
#[derive(Debug)]
pub enum RouteDest {
    Local,
    RemoteAddr(String),
}

impl View for RouteDest {
    type V = RouteDestView;

    open spec fn view(&self) -> RouteDestView {
        match self {
            RouteDest::Local => RouteDestView::Local,
            RouteDest::RemoteAddr(addr) => RouteDestView::RemoteAddr(addr@),
        }
    }
}

impl Clone for RouteDest {
    fn clone(&self) -> (r: RouteDest)
        ensures
            r@ == self@,
    {
        match self {
            RouteDest::Local => RouteDest::Local,
            RouteDest::RemoteAddr(addr) => RouteDest::RemoteAddr(addr.clone()),
        }
    }
}

/// `id` is known and thought alive.
pub open spec fn is_live(members: Map<Seq<u8>, MemberStateView>, id: Seq<u8>) -> bool {
    members.contains_key(id) && members[id].status == MemberStatus::Alive
}

/// The node of the first slot of `scan` whose node is alive.
pub open spec fn first_live(scan: Seq<SlotView>, members: Map<Seq<u8>, MemberStateView>) -> Option<
    Seq<u8>,
>
    decreases scan.len(),
{
    if scan.len() == 0 {
        None
    } else if is_live(members, scan[0].1) {
        Some(scan[0].1)
    } else {
        first_live(scan.skip(1), members)
    }
}

/// Where the node `current` serves `key`, given the ring and the members
/// that it knows.
pub open spec fn route_of(
    ring: Seq<SlotView>,
    members: Map<Seq<u8>, MemberStateView>,
    current: Seq<u8>,
    key: Seq<u8>,
) -> RouteDestView {
    match first_live(scan_order(ring, key_hash(key)), members) {
        None => RouteDestView::Local,
        Some(id) => if id == current {
            RouteDestView::Local
        } else {
            RouteDestView::RemoteAddr(members[id].info.advertise_addr)
        },
    }
}

/// The first live slot of a walk is the one before which no slot is live.
pub proof fn lemma_first_live_at(
    scan: Seq<SlotView>,
    members: Map<Seq<u8>, MemberStateView>,
    k: int,
)
    requires
        0 <= k < scan.len(),
        is_live(members, scan[k].1),
        forall|j: int| 0 <= j < k ==> !is_live(members, (#[trigger] scan[j]).1),
    ensures
        first_live(scan, members) == Some(scan[k].1),
    decreases k,
{
    if k > 0 {
        let rest = scan.skip(1);
        assert(rest[k - 1] == scan[k]);
        assert forall|j: int| 0 <= j < k - 1 implies !is_live(members, (#[trigger] rest[j]).1) by {
            assert(rest[j] == scan[j + 1]);
        }
        assert(!is_live(members, scan[0].1));
        lemma_first_live_at(rest, members, k - 1);
    }
}

/// A walk without a live slot has no first live slot.
pub proof fn lemma_first_live_none(scan: Seq<SlotView>, members: Map<Seq<u8>, MemberStateView>)
    requires
        forall|j: int| 0 <= j < scan.len() ==> !is_live(members, (#[trigger] scan[j]).1),
    ensures
        first_live(scan, members) is None,
    decreases scan.len(),
{
    if scan.len() > 0 {
        let rest = scan.skip(1);
        assert forall|j: int| 0 <= j < rest.len() implies !is_live(members, (#[trigger] rest[j]).1) by {
            assert(rest[j] == scan[j + 1]);
        }
        assert(!is_live(members, scan[0].1));
        lemma_first_live_none(rest, members);
    }
}

/// The router of one node, over the state of its gossip engine.
pub struct Proxy<'a> {
    gossip: &'a GossipState,
}

impl<'a> Proxy<'a> {
    /// The state that the router reads.
    pub closed spec fn state(&self) -> GossipState {
        *self.gossip
    }

    /// A router over `gossip`.
    pub fn new(gossip: &'a GossipState) -> (p: Proxy<'a>)
        ensures
            p.state() == *gossip,
    {
        Proxy { gossip }
    }

    /// Where `key` is served.
    pub fn route(&self, key: &str) -> (dest: RouteDest)
        requires
            self.state().wf(),
        ensures
            dest@ == route_of(
                self.state().hash_ring()@,
                self.state().members()@,
                self.state().node()@.node_id,
                key.spec_bytes(),
            ),
    {
        route(self.gossip, key.as_bytes())
    }
}

/// Where the node with the state `gossip` serves `key`.
pub fn route(gossip: &GossipState, key: &[u8]) -> (dest: RouteDest)
    requires
        gossip.wf(),
    ensures
        dest@ == route_of(gossip.hash_ring()@, gossip.members()@, gossip.node()@.node_id, key@),
{
    let ring = gossip.ring();
    let membership: &Membership = gossip.membership();
    let ghost members = membership@;
    let ghost scan = scan_order(ring@, key_hash(key@));
    let live = |id: &Vec<u8>| -> (b: bool)
        requires
            membership.wf(),
        ensures
            b == is_live(membership@, id@),
        { membership.is_alive(id.as_slice()) };
    let found: Option<Vec<u8>> = ring.lookup_until(key, live);
    proof {
        lemma_rank_bounds(ring@, key_hash(key@));
        assert forall|node: Seq<u8>, b: bool| answers(live, node, b) implies b == is_live(
            members,
            node,
        ) by {
            let x = choose|x: Vec<u8>| #[trigger] x@ == node && call_ensures(live, (&x,), b);
            assert(call_ensures(live, (&x,), b));
        }
        if found is Some {
            let n = found->0;
            let k = choose|k: int|
                {
                    &&& 0 <= k < ring@.len()
                    &&& (#[trigger] scan_order(ring@, key_hash(key@))[k]).1 == n@
                    &&& answers(live, n@, true)
                    &&& forall|j: int|
                        0 <= j < k ==> answers(
                            live,
                            (#[trigger] scan_order(ring@, key_hash(key@))[j]).1,
                            false,
                        )
                };
            assert(scan.len() == ring@.len());
            lemma_first_live_at(scan, members, k);
        } else {
            assert(scan.len() == ring@.len());
            lemma_first_live_none(scan, members);
        }
    }
    match found {
        Some(id) => {
            match membership.get(id.as_slice()) {
                Some(target) => {
                    if bytes_eq(
                        target.info.node_id.as_slice(),
                        gossip.current().node_id.as_slice(),
                    ) {
                        RouteDest::Local
                    } else {
                        RouteDest::RemoteAddr(target.info.advertise_addr.clone())
                    }
                },
                None => RouteDest::Local,
            }
        },
        None => RouteDest::Local,
    }
}

} // verus!
