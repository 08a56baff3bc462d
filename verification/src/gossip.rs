//! The gossip state machine.
//!
//! A node keeps its own description, its view of the cluster and the ring
//! that it routes by. Messages from peers, ticks of the periodic loops and the
//! outcomes of its own pings and syncs are handed to the functions of this
//! module, which say how the state changes and what is to be sent. Sending,
//! waiting and storing are left to the caller.

use vstd::prelude::*;
use crate::member::{MemberState, MemberStateView, MemberStatus, Membership, Timestamp};
use crate::member::{alive_infos, is_stale, merge_all, merge_into, without_stale};
use crate::node::{NodeInfo, NodeInfoView};
use crate::order::{bytes_copy, lex_lt};
use crate::ring::{vnode_hash, HashRing, DEFAULT_VNODE_COUNT};

verus! {

/// Seconds between two pings.
pub const PING_INTERVAL_SECS: u64 = 1;

/// Seconds between two rounds of anti-entropy.
pub const SYNC_INTERVAL_SECS: u64 = 5;

/// Seconds between two attempts to send one message.
pub const RETRY_INTERVAL_SECS: u64 = 1;

/// How often a message is sent again after a failure.
pub const RETRIES: usize = 3;

/// Seconds between two rebuilds of the ring.
pub const REBUILD_RING_INTERVAL_SECS: u64 = 5;

/// Seconds after which a dead member is forgotten; the harvest runs at the
/// same interval.
pub const MEMBER_DEADLINE_SECS: u64 = 30;

/// The member deadline in nanoseconds.
pub const MEMBER_DEADLINE_NANOS: u64 = 30_000_000_000;

/// Why the gossip engine gave up.
#[derive(Debug)]
pub struct GossipError(pub String);

impl GossipError {
    /// An error with the message `msg`.
    pub fn new(msg: String) -> (e: GossipError)
        ensures
            e.0@ == msg@,
    {
        GossipError(msg)
    }

    /// The message of the error.
    pub fn to_string(&self) -> (s: String)
        ensures
            s@ == self.0@,
    {
        self.0.clone()
    }
}

/// The views of a list of reports.
pub open spec fn reports_view(v: Vec<MemberState>) -> Seq<MemberStateView> {
    v@.map_values(|m: MemberState| m@)
}

/// A gossip message as mathematical values.
pub ghost enum GossipMessageView {
    Ping(NodeInfoView),
    Ack(NodeInfoView),
    Sync { members: Seq<MemberStateView> },
}

/// What nodes say to each other. A `Ping` carries the sender and asks for an
/// `Ack`, which carries the responder. A `Sync` carries all that the sender
/// knows and asks for the same in return.
#[derive(Debug)]
pub enum GossipMessage {
    Ping(NodeInfo),
    Ack(NodeInfo),
    Sync { members: Vec<MemberState> },
}

impl View for GossipMessage {
    type V = GossipMessageView;

    open spec fn view(&self) -> GossipMessageView {
        match self {
            GossipMessage::Ping(info) => GossipMessageView::Ping(info@),
            GossipMessage::Ack(info) => GossipMessageView::Ack(info@),
            GossipMessage::Sync { members } => GossipMessageView::Sync {
                members: reports_view(*members),
            },
        }
    }
}

/// A copy of a list of reports.
pub fn copy_reports(v: &Vec<MemberState>) -> (r: Vec<MemberState>)
    ensures
        reports_view(r) == reports_view(*v),
{
    let mut out: Vec<MemberState> = Vec::with_capacity(v.len());
    let mut i: usize = 0;
    while i < v.len()
        invariant
            i <= v@.len(),
            out@.len() == i,
            forall|j: int| 0 <= j < i ==> (#[trigger] out@[j])@ == v@[j]@,
        decreases v@.len() - i,
    {
        out.push(v[i].clone());
        i = i + 1;
    }
    assert(reports_view(out) =~= reports_view(*v));
    out
}

impl Clone for GossipMessage {
    fn clone(&self) -> (r: GossipMessage)
        ensures
            r@ == self@,
    {
        match self {
            GossipMessage::Ping(info) => GossipMessage::Ping(info.clone()),
            GossipMessage::Ack(info) => GossipMessage::Ack(info.clone()),
            GossipMessage::Sync { members } => GossipMessage::Sync {
                members: copy_reports(members),
            },
        }
    }
}

/// The view of an optional message.
pub open spec fn opt_message(m: Option<GossipMessage>) -> Option<GossipMessageView> {
    match m {
        Some(msg) => Some(msg@),
        None => None,
    }
}

/// The report that a node makes of itself at `now`.
pub open spec fn self_report(current: NodeInfoView, now: Timestamp) -> MemberStateView {
    MemberStateView { info: current, status: MemberStatus::Alive, heartbeat: now }
}

/// The membership after the content of `message`, received at `now`, was
/// merged in: the sender of a `Ping` or an `Ack` as alive at `now`, the
/// reports of a `Sync` in their order.
pub open spec fn absorbed(
    members: Map<Seq<u8>, MemberStateView>,
    message: GossipMessageView,
    now: Timestamp,
) -> Map<Seq<u8>, MemberStateView> {
    match message {
        GossipMessageView::Ping(info) => merge_into(members, self_report(info, now)),
        GossipMessageView::Ack(info) => merge_into(members, self_report(info, now)),
        GossipMessageView::Sync { members: reports } => merge_all(members, reports),
    }
}

/// The membership after the node `current` asserted itself as alive at `now`.
pub open spec fn refreshed(
    members: Map<Seq<u8>, MemberStateView>,
    current: NodeInfoView,
    now: Timestamp,
) -> Map<Seq<u8>, MemberStateView> {
    merge_into(members, self_report(current, now))
}

/// The membership after `message` was handled at `now` by the node `current`.
pub open spec fn handled(
    members: Map<Seq<u8>, MemberStateView>,
    current: NodeInfoView,
    message: GossipMessageView,
    now: Timestamp,
) -> Map<Seq<u8>, MemberStateView> {
    refreshed(absorbed(members, message, now), current, now)
}

/// The node `current` is outvoted in `members` at `now`: it is held dead by a
/// record that its own report of being alive cannot displace, because the
/// record has a later incarnation, or the same incarnation and a heartbeat
/// after `now`.
pub open spec fn outvoted(
    members: Map<Seq<u8>, MemberStateView>,
    current: NodeInfoView,
    now: Timestamp,
) -> bool {
    let id = current.node_id;
    &&& members.contains_key(id)
    &&& members[id].status == MemberStatus::Dead
    &&& (members[id].info.incarnation > current.incarnation || (members[id].info.incarnation
        == current.incarnation && members[id].heartbeat > now))
}

/// After a node asserted itself it is a member of its own view, and it is
/// alive there unless it was outvoted.
pub proof fn lemma_refresh_keeps_self(
    members: Map<Seq<u8>, MemberStateView>,
    current: NodeInfoView,
    now: Timestamp,
)
    ensures
        refreshed(members, current, now).contains_key(current.node_id),
        (refreshed(members, current, now)[current.node_id].status == MemberStatus::Alive)
            == !outvoted(members, current, now),
{
}

/// Self-liveness: whatever a node knew and whatever message it handles, it is
/// afterwards a member of its own view, and alive there, provided that the
/// message did not leave it outvoted.
pub proof fn lemma_self_liveness(
    members: Map<Seq<u8>, MemberStateView>,
    current: NodeInfoView,
    message: GossipMessageView,
    now: Timestamp,
)
    requires
        !outvoted(absorbed(members, message, now), current, now),
    ensures
        handled(members, current, message, now).contains_key(current.node_id),
        handled(members, current, message, now)[current.node_id].status == MemberStatus::Alive,
{
    lemma_refresh_keeps_self(absorbed(members, message, now), current, now);
}

/// A message together with the time at which it is handled.
pub type Arrival = (GossipMessageView, Timestamp);

/// The membership of the node `current` after it handled `arrivals` in
/// order, starting from `members`.
pub open spec fn handled_all(
    members: Map<Seq<u8>, MemberStateView>,
    current: NodeInfoView,
    arrivals: Seq<Arrival>,
) -> Map<Seq<u8>, MemberStateView>
    decreases arrivals.len(),
{
    if arrivals.len() == 0 {
        members
    } else {
        handled(
            handled_all(members, current, arrivals.drop_last()),
            current,
            arrivals.last().0,
            arrivals.last().1,
        )
    }
}

/// None of `arrivals`, handled in order from `members`, leaves the node
/// `current` outvoted.
pub open spec fn never_outvoted(
    members: Map<Seq<u8>, MemberStateView>,
    current: NodeInfoView,
    arrivals: Seq<Arrival>,
) -> bool
    decreases arrivals.len(),
{
    arrivals.len() > 0 ==> {
        &&& never_outvoted(members, current, arrivals.drop_last())
        &&& !outvoted(
            absorbed(
                handled_all(members, current, arrivals.drop_last()),
                arrivals.last().0,
                arrivals.last().1,
            ),
            current,
            arrivals.last().1,
        )
    }
}

/// Self-liveness over time: a node that handles any sequence of messages,
/// none of which leaves it outvoted, is afterwards a live member of its own
/// view. Its incarnation stays what it was all the while, since only an
/// outvoted node advances it.
pub proof fn lemma_self_liveness_holds(
    members: Map<Seq<u8>, MemberStateView>,
    current: NodeInfoView,
    arrivals: Seq<Arrival>,
)
    requires
        arrivals.len() > 0,
        never_outvoted(members, current, arrivals),
    ensures
        handled_all(members, current, arrivals).contains_key(current.node_id),
        handled_all(members, current, arrivals)[current.node_id].status == MemberStatus::Alive,
{
    lemma_self_liveness(
        handled_all(members, current, arrivals.drop_last()),
        current,
        arrivals.last().0,
        arrivals.last().1,
    );
}

/// Calls `rand::random_range` on the range from 0 up to `n`, which draws from
/// the thread-local generator and panics on an empty range. The contract
/// claims only that the number drawn lies in the range.
#[verifier::external_body]
fn random_below(n: usize) -> (r: usize)
    requires
        n > 0,
    ensures
        r < n,
{
    rand::random_range(0..n)
}

/// The two exchanges that a node starts with a peer.
#[derive(Debug, Clone, Copy, PartialEq, Eq, Structural)]
pub enum Exchange {
    /// A `Ping`, answered by an `Ack`.
    Ping,
    /// A `Sync`, answered by a `Sync`.
    Sync,
}

/// Whether `reply` is the answer that `exchange` asks for.
pub open spec fn answer_fits(exchange: Exchange, reply: Option<GossipMessageView>) -> bool {
    match exchange {
        Exchange::Ping => reply matches Some(GossipMessageView::Ack(_)),
        Exchange::Sync => reply matches Some(GossipMessageView::Sync { .. }),
    }
}

/// The membership after a report that `peer` is dead, as of the heartbeat
/// last seen from it; a peer that is not known leaves no trace.
pub open spec fn marked_dead(
    members: Map<Seq<u8>, MemberStateView>,
    peer: NodeInfoView,
) -> Map<Seq<u8>, MemberStateView> {
    if members.contains_key(peer.node_id) {
        merge_into(
            members,
            MemberStateView {
                info: peer,
                status: MemberStatus::Dead,
                heartbeat: members[peer.node_id].heartbeat,
            },
        )
    } else {
        members
    }
}

/// What a periodic loop does on its tick.
#[derive(Debug)]
pub enum Step {
    /// Send `message` to `peer`, with retries.
    Send { peer: NodeInfo, message: GossipMessage },
    /// No member is alive: go through the initial peers again.
    Bootstrap,
}

/// A member as the control plane lists it: what is known of it, and the ring
/// positions of its virtual nodes.
#[derive(Debug)]
pub struct Member {
    pub node_id: Vec<u8>,
    pub cluster_id: String,
    pub advertise_addr: String,
    pub advertise_peer_addr: String,
    pub incarnation: u64,
    pub status: MemberStatus,
    pub heartbeat: Timestamp,
    pub vnodes: Vec<u32>,
}

impl Member {
    /// The listing shows the record `m` with the positions that a ring with
    /// `vnodes` virtual nodes gives its node.
    pub open spec fn shows(&self, m: MemberStateView, vnodes: u32) -> bool {
        &&& self.node_id@ == m.info.node_id
        &&& self.cluster_id@ == m.info.cluster_id
        &&& self.advertise_addr@ == m.info.advertise_addr
        &&& self.advertise_peer_addr@ == m.info.advertise_peer_addr
        &&& self.incarnation == m.info.incarnation
        &&& self.status == m.status
        &&& self.heartbeat == m.heartbeat
        &&& self.vnodes@.len() == vnodes
        &&& forall|j: int|
            0 <= j < self.vnodes@.len() ==> #[trigger] self.vnodes@[j] == vnode_hash(
                m.info.node_id,
                j as u32,
            )
    }
}

/// What handling a message led to.
#[derive(Debug)]
pub struct Handled {
    /// The answer to send back, if one is due.
    pub reply: Option<GossipMessage>,
    /// Whether the node moved to its next incarnation, which the caller then
    /// stores.
    pub advanced: bool,
}

/// The state of the gossip engine of one node.
pub struct GossipState {
    current_node: NodeInfo,
    membership: Membership,
    ring: HashRing,
}

impl GossipState {
    /// The node itself.
    pub closed spec fn node(&self) -> NodeInfo {
        self.current_node
    }

    /// The node's view of the cluster.
    pub closed spec fn members(&self) -> Membership {
        self.membership
    }

    /// The ring that the node routes by.
    pub closed spec fn hash_ring(&self) -> HashRing {
        self.ring
    }

    /// Membership and ring are well formed.
    pub open spec fn wf(&self) -> bool {
        &&& self.members().wf()
        &&& self.hash_ring().wf()
    }

    /// The node is a live member of its own view.
    pub open spec fn self_alive(&self) -> bool {
        &&& self.members()@.contains_key(self.node()@.node_id)
        &&& self.members()@[self.node()@.node_id].status == MemberStatus::Alive
    }

    /// The state of a node that knows nobody yet and routes by an empty ring.
    pub fn new(current_node: NodeInfo) -> (state: GossipState)
        ensures
            state.wf(),
            state.node()@ == current_node@,
            state.members()@ == Map::<Seq<u8>, MemberStateView>::empty(),
            state.hash_ring().nodes() == Set::<Seq<u8>>::empty(),
            state.hash_ring().vnodes() == DEFAULT_VNODE_COUNT,
    {
        GossipState {
            current_node,
            membership: Membership::new(),
            ring: HashRing::new(DEFAULT_VNODE_COUNT),
        }
    }

    /// The node itself.
    pub fn current(&self) -> (r: NodeInfo)
        ensures
            r@ == self.node()@,
    {
        self.current_node.clone()
    }

    /// The node's view of the cluster.
    pub fn membership(&self) -> (r: &Membership)
        ensures
            *r == self.members(),
    {
        &self.membership
    }

    /// The ring that the node routes by.
    pub fn ring(&self) -> (r: &HashRing)
        ensures
            *r == self.hash_ring(),
    {
        &self.ring
    }

    /// Starts over with a view that holds the node alone, alive at `now`.
    pub fn bootstrap(&mut self, now: Timestamp)
        requires
            old(self).wf(),
        ensures
            final(self).wf(),
            final(self).node() == old(self).node(),
            final(self).hash_ring() == old(self).hash_ring(),
            final(self).members()@ == Map::<Seq<u8>, MemberStateView>::empty().insert(
                old(self).node()@.node_id,
                self_report(old(self).node()@, now),
            ),
            final(self).self_alive(),
    {
        let mut membership = Membership::new();
        membership.update_member(
            MemberState {
                info: self.current_node.clone(),
                status: MemberStatus::Alive,
                heartbeat: now,
            },
        );
        self.membership = membership;
    }

    /// Whether the bootstrap left the node with anybody in its view. Fails
    /// exactly when the view is empty.
    pub fn check_bootstrapped(&self) -> (r: Result<(), GossipError>)
        requires
            self.wf(),
        ensures
            r is Err <==> self.members()@ == Map::<Seq<u8>, MemberStateView>::empty(),
            r matches Err(e) ==> e.0@
                == "failed to bootstrap the cluster: no initial peer available"@,
    {
        if self.membership.is_empty() {
            Err(
                GossipError::new(
                    "failed to bootstrap the cluster: no initial peer available".to_string(),
                ),
            )
        } else {
            Ok(())
        }
    }

    /// Asserts the node as alive at `now` in its own view.
    pub fn refresh_self(&mut self, now: Timestamp)
        requires
            old(self).wf(),
        ensures
            final(self).wf(),
            final(self).node() == old(self).node(),
            final(self).hash_ring() == old(self).hash_ring(),
            final(self).members()@ == refreshed(old(self).members()@, old(self).node()@, now),
            final(self).members()@.contains_key(old(self).node()@.node_id),
            final(self).self_alive() == !outvoted(old(self).members()@, old(self).node()@, now),
    {
        self.membership.update_member(
            MemberState {
                info: self.current_node.clone(),
                status: MemberStatus::Alive,
                heartbeat: now,
            },
        );
    }

    /// Where the node is held dead in its own view, moves it to its next
    /// incarnation, so that its later reports displace the record. Returns
    /// whether it did; the last incarnation cannot be left.
    pub fn defend(&mut self) -> (advanced: bool)
        requires
            old(self).wf(),
        ensures
            final(self).wf(),
            final(self).members() == old(self).members(),
            final(self).hash_ring() == old(self).hash_ring(),
            advanced == (old(self).members()@.contains_key(old(self).node()@.node_id) && old(
                self,
            ).members()@[old(self).node()@.node_id].status == MemberStatus::Dead && old(
                self,
            ).node().incarnation < u64::MAX),
            final(self).node()@ == if advanced {
                NodeInfoView {
                    incarnation: (old(self).node().incarnation + 1) as u64,
                    ..old(self).node()@
                }
            } else {
                old(self).node()@
            },
    {
        if self.membership.is_dead(self.current_node.node_id.as_slice())
            && self.current_node.incarnation < u64::MAX {
            self.current_node.advance_incarnation();
            true
        } else {
            false
        }
    }

    /// Handles a message that arrived at `now`: merges what it carries,
    /// asserts the node itself as alive, and defends the node where it is
    /// held dead all the same. A `Ping` is answered with an `Ack` that
    /// carries the node as it was when the message came, a `Sync` with all
    /// that is known after the merge, an `Ack` not at all.
    pub fn handle_message(&mut self, message: GossipMessage, now: Timestamp) -> (done: Handled)
        requires
            old(self).wf(),
        ensures
            final(self).wf(),
            final(self).hash_ring() == old(self).hash_ring(),
            final(self).members()@ == handled(
                old(self).members()@,
                old(self).node()@,
                message@,
                now,
            ),
            final(self).members()@.contains_key(old(self).node()@.node_id),
            final(self).self_alive() == !outvoted(
                absorbed(old(self).members()@, message@, now),
                old(self).node()@,
                now,
            ),
            done.advanced == (!final(self).self_alive() && old(self).node().incarnation
                < u64::MAX),
            final(self).node()@ == if done.advanced {
                NodeInfoView {
                    incarnation: (old(self).node().incarnation + 1) as u64,
                    ..old(self).node()@
                }
            } else {
                old(self).node()@
            },
            opt_message(done.reply) == match message@ {
                GossipMessageView::Ping(_) => Some(GossipMessageView::Ack(old(self).node()@)),
                GossipMessageView::Ack(_) => None,
                GossipMessageView::Sync { .. } => Some(
                    GossipMessageView::Sync { members: final(self).members().ordered() },
                ),
            },
    {
        let reply: Option<GossipMessage> = match message {
            GossipMessage::Ping(info) => {
                self.membership.update_member(
                    MemberState { info, status: MemberStatus::Alive, heartbeat: now },
                );
                self.refresh_self(now);
                Some(GossipMessage::Ack(self.current_node.clone()))
            },
            GossipMessage::Ack(info) => {
                self.membership.update_member(
                    MemberState { info, status: MemberStatus::Alive, heartbeat: now },
                );
                self.refresh_self(now);
                None
            },
            GossipMessage::Sync { members } => {
                self.membership.update_all(&members);
                self.refresh_self(now);
                Some(GossipMessage::Sync { members: copy_reports(self.membership.members()) })
            },
        };
        let advanced: bool = self.defend();
        Handled { reply, advanced }
    }

    /// Forgets the members that have been dead for longer than the member
    /// deadline at `now`, and returns their descriptions. Where any is
    /// returned the ring is due for a rebuild.
    pub fn remove_dead_members(&mut self, now: Timestamp) -> (removed: Vec<NodeInfo>)
        requires
            old(self).wf(),
        ensures
            final(self).wf(),
            final(self).node() == old(self).node(),
            final(self).hash_ring() == old(self).hash_ring(),
            final(self).members()@ == without_stale(
                old(self).members()@,
                now,
                MEMBER_DEADLINE_NANOS,
            ),
            forall|i: int, j: int|
                0 <= i < j < removed@.len() ==> lex_lt(
                    (#[trigger] removed@[i])@.node_id,
                    (#[trigger] removed@[j])@.node_id,
                ),
            forall|i: int|
                0 <= i < removed@.len() ==> {
                    let info = (#[trigger] removed@[i])@;
                    &&& old(self).members()@.contains_key(info.node_id)
                    &&& old(self).members()@[info.node_id].info == info
                    &&& is_stale(
                        old(self).members()@[info.node_id],
                        now,
                        MEMBER_DEADLINE_NANOS,
                    )
                },
            forall|id: Seq<u8>| #[trigger]
                old(self).members()@.contains_key(id) && is_stale(
                    old(self).members()@[id],
                    now,
                    MEMBER_DEADLINE_NANOS,
                ) ==> exists|i: int|
                    0 <= i < removed@.len() && (#[trigger] removed@[i])@.node_id == id,
    {
        self.membership.remove_stale(now, MEMBER_DEADLINE_NANOS)
    }

    /// Asserts the node as alive at `now` and lays the ring out anew over
    /// the members that are known then.
    pub fn rebuild_ring(&mut self, now: Timestamp)
        requires
            old(self).wf(),
        ensures
            final(self).wf(),
            final(self).node() == old(self).node(),
            final(self).members()@ == refreshed(old(self).members()@, old(self).node()@, now),
            final(self).hash_ring().vnodes() == DEFAULT_VNODE_COUNT,
            final(self).hash_ring().nodes() == final(self).members()@.dom(),
    {
        self.refresh_self(now);
        let ids: Vec<Vec<u8>> = self.membership.node_ids();
        self.ring = HashRing::from_nodes(&ids);
    }

    /// Records that `peer` did not answer: where the peer is known, a report
    /// that it is dead, as of the heartbeat last seen from it, is merged in.
    pub fn mark_dead(&mut self, peer: &NodeInfo)
        requires
            old(self).wf(),
        ensures
            final(self).wf(),
            final(self).node() == old(self).node(),
            final(self).hash_ring() == old(self).hash_ring(),
            final(self).members()@ == marked_dead(old(self).members()@, peer@),
    {
        let last_seen: Option<Timestamp> = match self.membership.get(peer.node_id.as_slice()) {
            Some(m) => Some(m.heartbeat),
            None => None,
        };
        match last_seen {
            Some(heartbeat) => {
                self.membership.update_member(
                    MemberState { info: peer.clone(), status: MemberStatus::Dead, heartbeat },
                );
            },
            None => {},
        }
    }

    /// The ping that the node sends.
    pub fn ping_message(&self) -> (m: GossipMessage)
        ensures
            m@ == GossipMessageView::Ping(self.node()@),
    {
        GossipMessage::Ping(self.current_node.clone())
    }

    /// The sync that the node sends: all that it knows.
    pub fn sync_message(&self) -> (m: GossipMessage)
        ensures
            m@ == (GossipMessageView::Sync { members: self.members().ordered() }),
    {
        GossipMessage::Sync { members: copy_reports(self.membership.members()) }
    }

    /// Whether `reply` is the answer that `exchange` asks for.
    pub fn reply_fits(exchange: Exchange, reply: &Option<GossipMessage>) -> (r: bool)
        ensures
            r == answer_fits(exchange, opt_message(*reply)),
    {
        match reply {
            Some(GossipMessage::Ack(_)) => exchange == Exchange::Ping,
            Some(GossipMessage::Sync { .. }) => exchange == Exchange::Sync,
            _ => false,
        }
    }

    /// Takes in the outcome of an exchange with `peer` that ended at `now`:
    /// `reply` is what came back, `None` once the retries were used up. The
    /// answer that the exchange asks for is handled as a message; anything
    /// else counts against the peer, which is marked dead. Returns whether
    /// the node moved to its next incarnation.
    pub fn exchange_done(
        &mut self,
        exchange: Exchange,
        peer: &NodeInfo,
        reply: Option<GossipMessage>,
        now: Timestamp,
    ) -> (advanced: bool)
        requires
            old(self).wf(),
        ensures
            final(self).wf(),
            final(self).hash_ring() == old(self).hash_ring(),
            final(self).members()@ == match opt_message(reply) {
                Some(m) if answer_fits(exchange, Some(m)) => handled(
                    old(self).members()@,
                    old(self).node()@,
                    m,
                    now,
                ),
                _ => marked_dead(old(self).members()@, peer@),
            },
            advanced == (answer_fits(exchange, opt_message(reply)) && !final(self).self_alive()
                && old(self).node().incarnation < u64::MAX),
            final(self).node()@ == if advanced {
                NodeInfoView {
                    incarnation: (old(self).node().incarnation + 1) as u64,
                    ..old(self).node()@
                }
            } else {
                old(self).node()@
            },
    {
        if GossipState::reply_fits(exchange, &reply) {
            match reply {
                Some(message) => self.handle_message(message, now).advanced,
                None => false,
            }
        } else {
            self.mark_dead(peer);
            false
        }
    }

    /// Takes in the outcome of an exchange with an initial peer, of which
    /// only the address is known: the answer that the exchange asks for is
    /// handled as a message, anything else is passed over. Returns whether
    /// the node moved to its next incarnation.
    pub fn bootstrap_done(
        &mut self,
        exchange: Exchange,
        reply: Option<GossipMessage>,
        now: Timestamp,
    ) -> (advanced: bool)
        requires
            old(self).wf(),
        ensures
            final(self).wf(),
            final(self).hash_ring() == old(self).hash_ring(),
            final(self).members()@ == match opt_message(reply) {
                Some(m) if answer_fits(exchange, Some(m)) => handled(
                    old(self).members()@,
                    old(self).node()@,
                    m,
                    now,
                ),
                _ => old(self).members()@,
            },
            advanced == (answer_fits(exchange, opt_message(reply)) && !final(self).self_alive()
                && old(self).node().incarnation < u64::MAX),
            final(self).node()@ == if advanced {
                NodeInfoView {
                    incarnation: (old(self).node().incarnation + 1) as u64,
                    ..old(self).node()@
                }
            } else {
                old(self).node()@
            },
    {
        if GossipState::reply_fits(exchange, &reply) {
            match reply {
                Some(message) => self.handle_message(message, now).advanced,
                None => false,
            }
        } else {
            false
        }
    }

    /// The message that opens `exchange`.
    pub fn opening(&self, exchange: Exchange) -> (m: GossipMessage)
        ensures
            m@ == match exchange {
                Exchange::Ping => GossipMessageView::Ping(self.node()@),
                Exchange::Sync => GossipMessageView::Sync { members: self.members().ordered() },
            },
    {
        match exchange {
            Exchange::Ping => self.ping_message(),
            Exchange::Sync => self.sync_message(),
        }
    }

    /// The step of a tick that picked the live member number `index`, in
    /// increasing order of node identifier: the opening of `exchange` goes to
    /// that member; where there is none, the node bootstraps again.
    pub fn plan(&self, exchange: Exchange, index: usize) -> (step: Step)
        requires
            self.wf(),
        ensures
            match step {
                Step::Send { peer, message } => {
                    &&& index < alive_infos(self.members().ordered()).len()
                    &&& peer@ == alive_infos(self.members().ordered())[index as int]
                    &&& message@ == match exchange {
                        Exchange::Ping => GossipMessageView::Ping(self.node()@),
                        Exchange::Sync => GossipMessageView::Sync {
                            members: self.members().ordered(),
                        },
                    }
                },
                Step::Bootstrap => index >= alive_infos(self.members().ordered()).len(),
            },
    {
        let alive: Vec<NodeInfo> = self.membership.alive();
        if index < alive.len() {
            assert(alive@.map_values(|n: NodeInfo| n@)[index as int] == alive@[index as int]@);
            Step::Send { peer: alive[index].clone(), message: self.opening(exchange) }
        } else {
            Step::Bootstrap
        }
    }

    /// The step of a tick: the opening of `exchange` goes to a live member
    /// drawn at random; where nobody is alive, the node bootstraps again.
    pub fn plan_random(&self, exchange: Exchange) -> (step: Step)
        requires
            self.wf(),
        ensures
            match step {
                Step::Send { peer, message } => {
                    &&& alive_infos(self.members().ordered()).contains(peer@)
                    &&& message@ == match exchange {
                        Exchange::Ping => GossipMessageView::Ping(self.node()@),
                        Exchange::Sync => GossipMessageView::Sync {
                            members: self.members().ordered(),
                        },
                    }
                },
                Step::Bootstrap => alive_infos(self.members().ordered()).len() == 0,
            },
    {
        let count: usize = self.membership.alive().len();
        if count == 0 {
            Step::Bootstrap
        } else {
            let index: usize = random_below(count);
            self.plan(exchange, index)
        }
    }

    /// The harvest: forgets the members that have been dead for longer than
    /// the member deadline at `now` and, where it forgot any, asserts the
    /// node as alive and lays the ring out anew. Returns the descriptions of
    /// the forgotten.
    pub fn harvest(&mut self, now: Timestamp) -> (removed: Vec<NodeInfo>)
        requires
            old(self).wf(),
        ensures
            final(self).wf(),
            final(self).node() == old(self).node(),
            final(self).members()@ == if removed@.len() > 0 {
                refreshed(
                    without_stale(old(self).members()@, now, MEMBER_DEADLINE_NANOS),
                    old(self).node()@,
                    now,
                )
            } else {
                old(self).members()@
            },
            removed@.len() > 0 ==> final(self).hash_ring().nodes() == final(self).members()@.dom(),
            removed@.len() == 0 ==> final(self).hash_ring() == old(self).hash_ring(),
            (removed@.len() > 0) == exists|id: Seq<u8>| #[trigger]
                old(self).members()@.contains_key(id) && is_stale(
                    old(self).members()@[id],
                    now,
                    MEMBER_DEADLINE_NANOS,
                ),
            forall|i: int|
                0 <= i < removed@.len() ==> {
                    let info = (#[trigger] removed@[i])@;
                    &&& old(self).members()@.contains_key(info.node_id)
                    &&& old(self).members()@[info.node_id].info == info
                    &&& is_stale(
                        old(self).members()@[info.node_id],
                        now,
                        MEMBER_DEADLINE_NANOS,
                    )
                },
    {
        let removed: Vec<NodeInfo> = self.remove_dead_members(now);
        if removed.len() > 0 {
            assert(old(self).members()@.contains_key(removed@[0]@.node_id));
            self.rebuild_ring(now);
        } else {
            assert(self.members()@ =~= old(self).members()@);
        }
        removed
    }

    /// The members as the control plane lists them, in increasing order of
    /// node identifier.
    pub fn list_members(&self) -> (r: Vec<Member>)
        requires
            self.wf(),
        ensures
            r@.len() == self.members().ordered().len(),
            forall|i: int|
                0 <= i < r@.len() ==> (#[trigger] r@[i]).shows(
                    self.members().ordered()[i],
                    self.hash_ring().vnodes(),
                ),
    {
        let members: &Vec<MemberState> = self.membership.members();
        let ghost s = self.members().ordered();
        let mut out: Vec<Member> = Vec::with_capacity(members.len());
        let mut i: usize = 0;
        while i < members.len()
            invariant
                self.wf(),
                i <= members@.len(),
                s == self.members().ordered(),
                s == members@.map_values(|m: MemberState| m@),
                out@.len() == i,
                forall|k: int|
                    0 <= k < i ==> (#[trigger] out@[k]).shows(s[k], self.hash_ring().vnodes()),
            decreases members@.len() - i,
        {
            let m: &MemberState = &members[i];
            assert(s[i as int] == m@);
            let listed = Member {
                node_id: bytes_copy(m.info.node_id.as_slice()),
                cluster_id: m.info.cluster_id.clone(),
                advertise_addr: m.info.advertise_addr.clone(),
                advertise_peer_addr: m.info.advertise_peer_addr.clone(),
                incarnation: m.info.incarnation,
                status: m.status,
                heartbeat: m.heartbeat,
                vnodes: self.ring.list_vnodes(m.info.node_id.as_slice()),
            };
            out.push(listed);
            i = i + 1;
        }
        out
    }
}

} // verus!
