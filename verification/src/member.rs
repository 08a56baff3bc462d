//! The members of the cluster as one node sees them.
//!
//! Reports about a member meet under three rules. A report with a higher
//! incarnation replaces what is known; one with a lower incarnation is
//! ignored; of two reports with the same incarnation the later heartbeat is
//! kept, the status of a report that is at least as fresh is taken, and a
//! staler report can only turn a live member dead.

use vstd::prelude::*;
use crate::node::{NodeInfo, NodeInfoView};
use crate::order::{bytes_copy, bytes_eq, bytes_lt, lex_lt};
use crate::order::{lemma_lex_transitive, lemma_lex_trichotomy};

verus! {

/// A point in time, in nanoseconds since the Unix epoch.
pub type Timestamp = i128;

/// Whether a member is thought to be up.
#[derive(Debug, Clone, Copy, PartialEq, Eq, Hash, Structural)]
pub enum MemberStatus {
    Alive,
    Dead,
}

impl MemberStatus {
    /// The status after a report of `other` that may only lower it: `Dead`
    /// once either is `Dead`.
    pub open spec fn downgraded(self, other: MemberStatus) -> MemberStatus {
        if other == MemberStatus::Dead {
            MemberStatus::Dead
        } else {
            self
        }
    }

    /// The name of the status on the wire, as a sequence of characters.
    pub open spec fn name(self) -> Seq<char> {
        match self {
            MemberStatus::Alive => "alive"@,
            MemberStatus::Dead => "dead"@,
        }
    }

    /// The name of the status on the wire.
    pub fn label(&self) -> (s: &'static str)
        ensures
            s@ == self.name(),
    {
        match self {
            MemberStatus::Alive => "alive",
            MemberStatus::Dead => "dead",
        }
    }

    /// Lowers the status to `other`: a live member turns dead on a report of
    /// `Dead`; a dead member stays dead.
    pub fn downgrade_to(&mut self, other: &MemberStatus)
        ensures
            *final(self) == old(self).downgraded(*other),
    {
        match other {
            MemberStatus::Dead => {
                *self = MemberStatus::Dead;
            },
            MemberStatus::Alive => {},
        }
    }
}

/// A report about a member as mathematical values.
pub ghost struct MemberStateView {
    pub info: NodeInfoView,
    pub status: MemberStatus,
    pub heartbeat: Timestamp,
}

/// What is known of one member: its description, its status, and the time of
/// the observation that the status rests on.
#[derive(Debug)]
pub struct MemberState {
    pub info: NodeInfo,
    pub status: MemberStatus,
    pub heartbeat: Timestamp,
}

impl View for MemberState {
    type V = MemberStateView;

    open spec fn view(&self) -> MemberStateView {
        MemberStateView { info: self.info@, status: self.status, heartbeat: self.heartbeat }
    }
}

impl Clone for MemberState {
    fn clone(&self) -> (r: MemberState)
        ensures
            r@ == self@,
    {
        MemberState { info: self.info.clone(), status: self.status, heartbeat: self.heartbeat }
    }
}

/// The later of two points in time.
pub open spec fn later(a: Timestamp, b: Timestamp) -> Timestamp {
    if a >= b {
        a
    } else {
        b
    }
}

/// What is known of a member after the report `incoming` met the record
/// `current` of the same member.
pub open spec fn merged(current: MemberStateView, incoming: MemberStateView) -> MemberStateView {
    if incoming.info.incarnation > current.info.incarnation {
        incoming
    } else if incoming.info.incarnation < current.info.incarnation {
        current
    } else {
        MemberStateView {
            info: current.info,
            status: if incoming.heartbeat >= current.heartbeat && incoming.status
                != current.status {
                incoming.status
            } else {
                current.status.downgraded(incoming.status)
            },
            heartbeat: later(current.heartbeat, incoming.heartbeat),
        }
    }
}

/// The membership after one report: a member not yet known is added as
/// reported, a known one is merged with the report.
pub open spec fn merge_into(
    members: Map<Seq<u8>, MemberStateView>,
    incoming: MemberStateView,
) -> Map<Seq<u8>, MemberStateView> {
    let id = incoming.info.node_id;
    if members.contains_key(id) {
        members.insert(id, merged(members[id], incoming))
    } else {
        members.insert(id, incoming)
    }
}

/// The membership after a sequence of reports, taken in order.
pub open spec fn merge_all(
    members: Map<Seq<u8>, MemberStateView>,
    reports: Seq<MemberStateView>,
) -> Map<Seq<u8>, MemberStateView>
    decreases reports.len(),
{
    if reports.len() == 0 {
        members
    } else {
        merge_into(merge_all(members, reports.drop_last()), reports.last())
    }
}

/// A member is stale at `now` once it is dead and its last heartbeat lies
/// more than `deadline` nanoseconds back.
pub open spec fn is_stale(m: MemberStateView, now: Timestamp, deadline: u64) -> bool {
    m.status == MemberStatus::Dead && now - m.heartbeat > deadline
}

/// The membership without its stale members.
pub open spec fn without_stale(
    members: Map<Seq<u8>, MemberStateView>,
    now: Timestamp,
    deadline: u64,
) -> Map<Seq<u8>, MemberStateView> {
    Map::new(
        |id: Seq<u8>| members.contains_key(id) && !is_stale(members[id], now, deadline),
        |id: Seq<u8>| members[id],
    )
}

/// The descriptions of the records with status `Alive`, in the order of the
/// records.
pub open spec fn alive_infos(s: Seq<MemberStateView>) -> Seq<NodeInfoView>
    decreases s.len(),
{
    if s.len() == 0 {
        Seq::empty()
    } else if s.last().status == MemberStatus::Alive {
        alive_infos(s.drop_last()).push(s.last().info)
    } else {
        alive_infos(s.drop_last())
    }
}

/// The records are strictly increasing by node identifier.
pub open spec fn ids_increasing(s: Seq<MemberStateView>) -> bool {
    forall|i: int, j: int|
        0 <= i < j < s.len() ==> lex_lt((#[trigger] s[i]).info.node_id, (#[trigger] s[j]).info.node_id)
}

/// The records of `s` by node identifier.
pub open spec fn as_map(s: Seq<MemberStateView>) -> Map<Seq<u8>, MemberStateView> {
    Map::new(
        |id: Seq<u8>| exists|i: int| 0 <= i < s.len() && (#[trigger] s[i]).info.node_id == id,
        |id: Seq<u8>| s[choose|i: int| 0 <= i < s.len() && (#[trigger] s[i]).info.node_id == id],
    )
}

/// In an increasing sequence each record is the one found under its
/// identifier.
pub proof fn lemma_as_map_index(s: Seq<MemberStateView>, i: int)
    requires
        ids_increasing(s),
        0 <= i < s.len(),
    ensures
        as_map(s).contains_key(s[i].info.node_id),
        as_map(s)[s[i].info.node_id] == s[i],
{
    let id = s[i].info.node_id;
    let j = choose|j: int| 0 <= j < s.len() && (#[trigger] s[j]).info.node_id == id;
    lemma_lex_trichotomy(id, id);
    if j < i {
        assert(lex_lt(s[j].info.node_id, s[i].info.node_id));
    } else if i < j {
        assert(lex_lt(s[i].info.node_id, s[j].info.node_id));
    }
}

/// A record under a new identifier, put at its place, adds one entry.
pub proof fn lemma_as_map_insert(s: Seq<MemberStateView>, p: int, m: MemberStateView)
    requires
        ids_increasing(s),
        0 <= p <= s.len(),
        forall|i: int| 0 <= i < p ==> lex_lt((#[trigger] s[i]).info.node_id, m.info.node_id),
        forall|i: int| p <= i < s.len() ==> lex_lt(m.info.node_id, (#[trigger] s[i]).info.node_id),
    ensures
        ids_increasing(s.insert(p, m)),
        !as_map(s).contains_key(m.info.node_id),
        as_map(s.insert(p, m)) == as_map(s).insert(m.info.node_id, m),
{
    let t = s.insert(p, m);
    let id = m.info.node_id;
    lemma_lex_trichotomy(id, id);
    assert forall|i: int, j: int| 0 <= i < j < t.len() implies lex_lt(
        (#[trigger] t[i]).info.node_id,
        (#[trigger] t[j]).info.node_id,
    ) by {
        if j < p {
            assert(lex_lt(s[i].info.node_id, s[j].info.node_id));
        } else if j == p {
            assert(lex_lt(s[i].info.node_id, id));
        } else if i < p {
            assert(lex_lt(s[i].info.node_id, s[j - 1].info.node_id));
        } else if i == p {
            assert(lex_lt(id, s[j - 1].info.node_id));
        } else {
            assert(lex_lt(s[i - 1].info.node_id, s[j - 1].info.node_id));
        }
    }
    if as_map(s).contains_key(id) {
        let i = choose|i: int| 0 <= i < s.len() && (#[trigger] s[i]).info.node_id == id;
        assert(lex_lt(s[i].info.node_id, id) || lex_lt(id, s[i].info.node_id));
    }
    assert forall|k: Seq<u8>| #[trigger]
        as_map(t).contains_key(k) == (k == id || as_map(s).contains_key(k)) by {
        if as_map(t).contains_key(k) {
            let i = choose|i: int| 0 <= i < t.len() && (#[trigger] t[i]).info.node_id == k;
            if i < p {
                assert(t[i] == s[i]);
                assert(as_map(s).contains_key(k));
            } else if i > p {
                assert(t[i] == s[i - 1]);
                assert(as_map(s).contains_key(k));
            } else {
                assert(t[i] == m);
            }
        }
        if k == id {
            assert(t[p] == m);
            lemma_as_map_index(t, p);
        } else if as_map(s).contains_key(k) {
            let i = choose|i: int| 0 <= i < s.len() && (#[trigger] s[i]).info.node_id == k;
            if i < p {
                assert(t[i] == s[i]);
                lemma_as_map_index(t, i);
            } else {
                assert(t[i + 1] == s[i]);
                lemma_as_map_index(t, i + 1);
            }
        }
    }
    assert forall|k: Seq<u8>| as_map(t).contains_key(k) implies #[trigger] as_map(t)[k] == (if k
        == id {
        m
    } else {
        as_map(s)[k]
    }) by {
        if k == id {
            assert(t[p] == m);
            lemma_as_map_index(t, p);
        } else {
            let i = choose|i: int| 0 <= i < s.len() && (#[trigger] s[i]).info.node_id == k;
            lemma_as_map_index(s, i);
            if i < p {
                assert(t[i] == s[i]);
                lemma_as_map_index(t, i);
            } else {
                assert(t[i + 1] == s[i]);
                lemma_as_map_index(t, i + 1);
            }
        }
    }
    assert(as_map(t) =~= as_map(s).insert(id, m));
}

/// A record that takes the place of one with the same identifier changes
/// that entry alone.
pub proof fn lemma_as_map_update(s: Seq<MemberStateView>, p: int, m: MemberStateView)
    requires
        ids_increasing(s),
        0 <= p < s.len(),
        s[p].info.node_id == m.info.node_id,
    ensures
        ids_increasing(s.update(p, m)),
        as_map(s.update(p, m)) == as_map(s).insert(m.info.node_id, m),
{
    let t = s.update(p, m);
    let id = m.info.node_id;
    assert forall|i: int, j: int| 0 <= i < j < t.len() implies lex_lt(
        (#[trigger] t[i]).info.node_id,
        (#[trigger] t[j]).info.node_id,
    ) by {
        assert(lex_lt(s[i].info.node_id, s[j].info.node_id));
    }
    assert forall|k: Seq<u8>| #[trigger]
        as_map(t).contains_key(k) == (k == id || as_map(s).contains_key(k)) by {
        if as_map(t).contains_key(k) {
            let i = choose|i: int| 0 <= i < t.len() && (#[trigger] t[i]).info.node_id == k;
            if i != p {
                assert(t[i] == s[i]);
                assert(as_map(s).contains_key(k));
            } else {
                assert(t[i] == m);
            }
        }
        if k == id {
            assert(t[p] == m);
            lemma_as_map_index(t, p);
        } else if as_map(s).contains_key(k) {
            let i = choose|i: int| 0 <= i < s.len() && (#[trigger] s[i]).info.node_id == k;
            assert(t[i] == s[i]);
            lemma_as_map_index(t, i);
        }
    }
    assert forall|k: Seq<u8>| as_map(t).contains_key(k) implies #[trigger] as_map(t)[k] == (if k
        == id {
        m
    } else {
        as_map(s)[k]
    }) by {
        if k == id {
            assert(t[p] == m);
            lemma_as_map_index(t, p);
        } else {
            let i = choose|i: int| 0 <= i < s.len() && (#[trigger] s[i]).info.node_id == k;
            lemma_as_map_index(s, i);
            assert(t[i] == s[i]);
            lemma_as_map_index(t, i);
        }
    }
    assert(as_map(t) =~= as_map(s).insert(id, m));
}

/// Taking a record out removes its entry alone.
pub proof fn lemma_as_map_remove(s: Seq<MemberStateView>, p: int)
    requires
        ids_increasing(s),
        0 <= p < s.len(),
    ensures
        ids_increasing(s.remove(p)),
        as_map(s.remove(p)) == as_map(s).remove(s[p].info.node_id),
{
    let t = s.remove(p);
    let id = s[p].info.node_id;
    lemma_lex_trichotomy(id, id);
    assert forall|i: int, j: int| 0 <= i < j < t.len() implies lex_lt(
        (#[trigger] t[i]).info.node_id,
        (#[trigger] t[j]).info.node_id,
    ) by {
        let a = if i < p {
            i
        } else {
            i + 1
        };
        let b = if j < p {
            j
        } else {
            j + 1
        };
        assert(t[i] == s[a] && t[j] == s[b]);
        assert(lex_lt(s[a].info.node_id, s[b].info.node_id));
    }
    assert(as_map(t) =~= as_map(s).remove(id)) by {
        assert forall|k: Seq<u8>| as_map(t).contains_key(k) implies as_map(s).remove(
            id,
        ).contains_key(k) && as_map(t)[k] == as_map(s).remove(id)[k] by {
            let i = choose|i: int| 0 <= i < t.len() && (#[trigger] t[i]).info.node_id == k;
            let a = if i < p {
                i
            } else {
                i + 1
            };
            assert(t[i] == s[a]);
            if a < p {
                assert(lex_lt(s[a].info.node_id, s[p].info.node_id));
            } else {
                assert(lex_lt(s[p].info.node_id, s[a].info.node_id));
            }
            lemma_as_map_index(s, a);
            lemma_as_map_index(t, i);
        }
        assert forall|k: Seq<u8>| as_map(s).remove(id).contains_key(k) implies as_map(
            t,
        ).contains_key(k) by {
            let i = choose|i: int| 0 <= i < s.len() && (#[trigger] s[i]).info.node_id == k;
            if i < p {
                assert(t[i] == s[i]);
            } else {
                assert(t[i - 1] == s[i]);
            }
        }
    }
}

/// For every member already known, the incarnation that is kept never
/// falls, whatever reports arrive and in whatever order.
pub proof fn lemma_incarnation_monotone(
    members: Map<Seq<u8>, MemberStateView>,
    reports: Seq<MemberStateView>,
    id: Seq<u8>,
)
    requires
        members.contains_key(id),
    ensures
        merge_all(members, reports).contains_key(id),
        merge_all(members, reports)[id].info.incarnation >= members[id].info.incarnation,
    decreases reports.len(),
{
    if reports.len() > 0 {
        lemma_incarnation_monotone(members, reports.drop_last(), id);
    }
}

/// Whether more than `deadline` nanoseconds lie between `heartbeat` and
/// `now`.
pub fn elapsed_more_than(heartbeat: Timestamp, now: Timestamp, deadline: u64) -> (r: bool)
    ensures
        r == (now - heartbeat > deadline),
{
    if now <= heartbeat {
        false
    } else if heartbeat < 0 && now > i128::MAX + heartbeat {
        true
    } else {
        now - heartbeat > deadline as i128
    }
}

/// The view of the cluster: one record per known member, kept in increasing
/// order of node identifier.
pub struct Membership {
    members: Vec<MemberState>,
}

impl View for Membership {
    type V = Map<Seq<u8>, MemberStateView>;

    /// The records by node identifier.
    open spec fn view(&self) -> Map<Seq<u8>, MemberStateView> {
        as_map(self.ordered())
    }
}

impl Membership {
    /// The records in the order in which they are kept.
    pub closed spec fn ordered(&self) -> Seq<MemberStateView> {
        self.members@.map_values(|m: MemberState| m@)
    }

    /// No two records share a node identifier, and they are kept in
    /// increasing order of it.
    pub open spec fn wf(&self) -> bool {
        ids_increasing(self.ordered())
    }

    /// A membership that knows nobody.
    pub fn new() -> (r: Membership)
        ensures
            r.wf(),
            r.ordered() == Seq::<MemberStateView>::empty(),
            r@ == Map::<Seq<u8>, MemberStateView>::empty(),
    {
        let r = Membership { members: Vec::new() };
        assert(r.ordered() =~= Seq::<MemberStateView>::empty());
        assert(r@ =~= Map::<Seq<u8>, MemberStateView>::empty());
        r
    }

    /// The number of known members.
    pub fn len(&self) -> (n: usize)
        ensures
            n == self.ordered().len(),
    {
        self.members.len()
    }

    /// Whether nobody is known.
    pub fn is_empty(&self) -> (r: bool)
        requires
            self.wf(),
        ensures
            r == (self.ordered().len() == 0),
            r == (self@ == Map::<Seq<u8>, MemberStateView>::empty()),
    {
        proof {
            if self.ordered().len() > 0 {
                lemma_as_map_index(self.ordered(), 0);
            } else {
                assert(self@ =~= Map::<Seq<u8>, MemberStateView>::empty());
            }
        }
        self.members.len() == 0
    }

    /// The records in increasing order of node identifier.
    pub fn members(&self) -> (r: &Vec<MemberState>)
        ensures
            r@.map_values(|m: MemberState| m@) == self.ordered(),
    {
        &self.members
    }

    /// The index of the first record whose identifier does not come before
    /// `id`.
    fn position(&self, id: &[u8]) -> (p: usize)
        requires
            self.wf(),
        ensures
            p <= self.ordered().len(),
            forall|i: int|
                0 <= i < p ==> lex_lt((#[trigger] self.ordered()[i]).info.node_id, id@),
            forall|i: int|
                p <= i < self.ordered().len() ==> !lex_lt(
                    (#[trigger] self.ordered()[i]).info.node_id,
                    id@,
                ),
    {
        let ghost s = self.ordered();
        let mut lo: usize = 0;
        let mut hi: usize = self.members.len();
        while lo < hi
            invariant
                self.wf(),
                s == self.ordered(),
                s.len() == self.members@.len(),
                lo <= hi <= s.len(),
                forall|i: int| 0 <= i < lo ==> lex_lt((#[trigger] s[i]).info.node_id, id@),
                forall|i: int| hi <= i < s.len() ==> !lex_lt((#[trigger] s[i]).info.node_id, id@),
            decreases hi - lo,
        {
            let mid: usize = lo + (hi - lo) / 2;
            assert(s[mid as int] == self.members@[mid as int]@);
            if bytes_lt(self.members[mid].info.node_id.as_slice(), id) {
                assert forall|i: int| 0 <= i < mid + 1 implies lex_lt(
                    (#[trigger] s[i]).info.node_id,
                    id@,
                ) by {
                    if i < mid {
                        assert(lex_lt(s[i].info.node_id, s[mid as int].info.node_id));
                        lemma_lex_transitive(s[i].info.node_id, s[mid as int].info.node_id, id@);
                    }
                }
                lo = mid + 1;
            } else {
                assert forall|i: int| mid <= i < s.len() implies !lex_lt(
                    (#[trigger] s[i]).info.node_id,
                    id@,
                ) by {
                    if mid < i && lex_lt(s[i].info.node_id, id@) {
                        assert(lex_lt(s[mid as int].info.node_id, s[i].info.node_id));
                        lemma_lex_transitive(s[mid as int].info.node_id, s[i].info.node_id, id@);
                    }
                }
                hi = mid;
            }
        }
        lo
    }

    /// The index of the record of `id`, if it is known.
    fn index_of(&self, id: &[u8]) -> (r: Option<usize>)
        requires
            self.wf(),
        ensures
            match r {
                Some(i) => i < self.ordered().len() && self.ordered()[i as int].info.node_id
                    == id@ && self@.contains_key(id@) && self@[id@] == self.ordered()[i as int],
                None => !self@.contains_key(id@),
            },
    {
        let p: usize = self.position(id);
        let ghost s = self.ordered();
        if p < self.members.len() {
            assert(s[p as int] == self.members@[p as int]@);
            if bytes_eq(self.members[p].info.node_id.as_slice(), id) {
                proof {
                    lemma_as_map_index(s, p as int);
                }
                return Some(p);
            }
        }
        proof {
            if self@.contains_key(id@) {
                let i = choose|i: int| 0 <= i < s.len() && (#[trigger] s[i]).info.node_id == id@;
                lemma_lex_trichotomy(id@, id@);
                assert(i >= p);
                if i > p {
                    assert(lex_lt(s[p as int].info.node_id, s[i].info.node_id));
                }
            }
        }
        None
    }

    /// The record of `id`, if it is known.
    pub fn get(&self, id: &[u8]) -> (r: Option<&MemberState>)
        requires
            self.wf(),
        ensures
            match r {
                Some(m) => self@.contains_key(id@) && self@[id@] == m@,
                None => !self@.contains_key(id@),
            },
    {
        match self.index_of(id) {
            Some(i) => {
                assert(self.ordered()[i as int] == self.members@[i as int]@);
                Some(&self.members[i])
            },
            None => None,
        }
    }

    /// Whether `id` is known.
    pub fn contains(&self, id: &[u8]) -> (r: bool)
        requires
            self.wf(),
        ensures
            r == self@.contains_key(id@),
    {
        self.index_of(id).is_some()
    }

    /// Whether `id` is known and thought dead.
    pub fn is_dead(&self, id: &[u8]) -> (r: bool)
        requires
            self.wf(),
        ensures
            r == (self@.contains_key(id@) && self@[id@].status == MemberStatus::Dead),
    {
        match self.get(id) {
            Some(m) => m.status == MemberStatus::Dead,
            None => false,
        }
    }

    /// Whether `id` is known and thought alive.
    pub fn is_alive(&self, id: &[u8]) -> (r: bool)
        requires
            self.wf(),
        ensures
            r == (self@.contains_key(id@) && self@[id@].status == MemberStatus::Alive),
    {
        match self.get(id) {
            Some(m) => m.status == MemberStatus::Alive,
            None => false,
        }
    }

    /// Takes in one report. Returns whether anything that is known changed.
    pub fn update_member(&mut self, member: MemberState) -> (changed: bool)
        requires
            old(self).wf(),
        ensures
            final(self).wf(),
            final(self)@ == merge_into(old(self)@, member@),
            changed == (final(self)@ != old(self)@),
            forall|id: Seq<u8>| #[trigger]
                old(self)@.contains_key(id) ==> final(self)@.contains_key(id)
                    && final(self)@[id].info.incarnation >= old(self)@[id].info.incarnation,
    {
        let p: usize = self.position(member.info.node_id.as_slice());
        let ghost s = self.ordered();
        let ghost inc = member@;
        let ghost id = inc.info.node_id;
        if p < self.members.len() {
            assert(s[p as int] == self.members@[p as int]@);
            if bytes_eq(self.members[p].info.node_id.as_slice(), member.info.node_id.as_slice()) {
                proof {
                    lemma_as_map_index(s, p as int);
                }
                let known: u64 = self.members[p].info.incarnation;
                if known < member.info.incarnation {
                    self.members.set(p, member);
                    proof {
                        assert(self.ordered() =~= s.update(p as int, inc));
                        lemma_as_map_update(s, p as int, inc);
                        assert(self@[id] != as_map(s)[id]);
                    }
                    return true;
                }
                if known > member.info.incarnation {
                    proof {
                        assert(as_map(s) =~= as_map(s).insert(id, s[p as int]));
                    }
                    return false;
                }
                let prev_status: MemberStatus = self.members[p].status;
                let prev_heartbeat: Timestamp = self.members[p].heartbeat;
                let heartbeat: Timestamp = if prev_heartbeat >= member.heartbeat {
                    prev_heartbeat
                } else {
                    member.heartbeat
                };
                let mut status: MemberStatus = prev_status;
                if member.heartbeat >= prev_heartbeat && member.status != prev_status {
                    status = member.status;
                } else {
                    status.downgrade_to(&member.status);
                }
                let merged_state = MemberState {
                    info: self.members[p].info.clone(),
                    status,
                    heartbeat,
                };
                assert(merged_state@ == merged(s[p as int], inc));
                self.members.set(p, merged_state);
                proof {
                    assert(self.ordered() =~= s.update(p as int, merged(s[p as int], inc)));
                    lemma_as_map_update(s, p as int, merged(s[p as int], inc));
                    if status == prev_status && heartbeat == prev_heartbeat {
                        assert(merged(s[p as int], inc) == s[p as int]);
                        assert(as_map(s) =~= as_map(s).insert(id, s[p as int]));
                    } else {
                        assert(self@[id] != as_map(s)[id]);
                    }
                }
                return status != prev_status || heartbeat != prev_heartbeat;
            }
        }
        proof {
            lemma_lex_trichotomy(id, id);
            if p < s.len() {
                lemma_lex_trichotomy(s[p as int].info.node_id, id);
            }
            assert forall|i: int| p <= i < s.len() implies lex_lt(
                id,
                (#[trigger] s[i]).info.node_id,
            ) by {
                if i > p {
                    assert(lex_lt(s[p as int].info.node_id, s[i].info.node_id));
                    lemma_lex_transitive(id, s[p as int].info.node_id, s[i].info.node_id);
                }
            }
            lemma_as_map_insert(s, p as int, inc);
        }
        self.members.insert(p, member);
        proof {
            assert(self.ordered() =~= s.insert(p as int, inc));
            assert(self@.contains_key(id));
        }
        true
    }

    /// Takes in a list of reports, in order.
    pub fn update_all(&mut self, reports: &Vec<MemberState>)
        requires
            old(self).wf(),
        ensures
            final(self).wf(),
            final(self)@ == merge_all(old(self)@, reports@.map_values(|m: MemberState| m@)),
            forall|id: Seq<u8>| #[trigger]
                old(self)@.contains_key(id) ==> final(self)@.contains_key(id)
                    && final(self)@[id].info.incarnation >= old(self)@[id].info.incarnation,
    {
        let ghost views = reports@.map_values(|m: MemberState| m@);
        let mut i: usize = 0;
        while i < reports.len()
            invariant
                i <= reports@.len(),
                views == reports@.map_values(|m: MemberState| m@),
                self.wf(),
                self@ == merge_all(old(self)@, views.subrange(0, i as int)),
            decreases reports@.len() - i,
        {
            self.update_member(reports[i].clone());
            proof {
                assert(views.subrange(0, i + 1).drop_last() =~= views.subrange(0, i as int));
                assert(views.subrange(0, i + 1).last() == views[i as int]);
            }
            i = i + 1;
        }
        proof {
            assert(views.subrange(0, i as int) =~= views);
            assert forall|id: Seq<u8>| #[trigger] old(self)@.contains_key(id) implies self@.contains_key(
                id,
            ) && self@[id].info.incarnation >= old(self)@[id].info.incarnation by {
                lemma_incarnation_monotone(old(self)@, views, id);
            }
        }
    }

    /// Forgets `id`.
    pub fn remove_member(&mut self, id: &[u8])
        requires
            old(self).wf(),
        ensures
            final(self).wf(),
            final(self)@ == old(self)@.remove(id@),
    {
        let ghost s = self.ordered();
        match self.index_of(id) {
            Some(i) => {
                self.members.remove(i);
                proof {
                    assert(self.ordered() =~= s.remove(i as int));
                    lemma_as_map_remove(s, i as int);
                }
            },
            None => {
                assert(self@ =~= self@.remove(id@));
            },
        }
    }

    /// Forgets the members that are stale at `now`, and returns their
    /// descriptions in increasing order of node identifier.
    pub fn remove_stale(&mut self, now: Timestamp, deadline: u64) -> (removed: Vec<NodeInfo>)
        requires
            old(self).wf(),
        ensures
            final(self).wf(),
            final(self)@ == without_stale(old(self)@, now, deadline),
            forall|i: int, j: int|
                0 <= i < j < removed@.len() ==> lex_lt(
                    (#[trigger] removed@[i])@.node_id,
                    (#[trigger] removed@[j])@.node_id,
                ),
            forall|i: int|
                0 <= i < removed@.len() ==> {
                    let info = (#[trigger] removed@[i])@;
                    &&& old(self)@.contains_key(info.node_id)
                    &&& old(self)@[info.node_id].info == info
                    &&& is_stale(old(self)@[info.node_id], now, deadline)
                },
            forall|id: Seq<u8>| #[trigger]
                old(self)@.contains_key(id) && is_stale(old(self)@[id], now, deadline)
                    ==> exists|i: int|
                    0 <= i < removed@.len() && (#[trigger] removed@[i])@.node_id == id,
    {
        let ghost s = self.ordered();
        let mut kept: Vec<MemberState> = Vec::new();
        let mut removed: Vec<NodeInfo> = Vec::new();
        // For each record kept or removed, the index it came from; for each
        // index gone through, the place its record went to.
        let ghost mut kept_src: Seq<int> = Seq::empty();
        let ghost mut removed_src: Seq<int> = Seq::empty();
        let ghost mut dest: Seq<int> = Seq::empty();
        let mut i: usize = 0;
        while i < self.members.len()
            invariant
                i <= s.len(),
                s == self.ordered(),
                s.len() == self.members@.len(),
                kept_src.len() == kept@.len(),
                removed_src.len() == removed@.len(),
                dest.len() == i,
                forall|a: int|
                    0 <= a < kept@.len() ==> 0 <= #[trigger] kept_src[a] < i && kept@[a]@
                        == s[kept_src[a]] && !is_stale(s[kept_src[a]], now, deadline),
                forall|a: int, c: int|
                    0 <= a < c < kept@.len() ==> #[trigger] kept_src[a] < #[trigger] kept_src[c],
                forall|a: int|
                    0 <= a < removed@.len() ==> 0 <= #[trigger] removed_src[a] < i && removed@[a]@
                        == s[removed_src[a]].info && is_stale(s[removed_src[a]], now, deadline),
                forall|a: int, c: int|
                    0 <= a < c < removed@.len() ==> #[trigger] removed_src[a]
                        < #[trigger] removed_src[c],
                forall|b: int|
                    0 <= b < i ==> if is_stale(s[b], now, deadline) {
                        0 <= #[trigger] dest[b] < removed@.len() && removed_src[dest[b]] == b
                    } else {
                        0 <= dest[b] < kept@.len() && kept_src[dest[b]] == b
                    },
            decreases s.len() - i,
        {
            assert(s[i as int] == self.members@[i as int]@);
            let stale: bool = self.members[i].status == MemberStatus::Dead && elapsed_more_than(
                self.members[i].heartbeat,
                now,
                deadline,
            );
            if stale {
                removed.push(self.members[i].info.clone());
                proof {
                    dest = dest.push(removed_src.len() as int);
                    removed_src = removed_src.push(i as int);
                }
            } else {
                kept.push(self.members[i].clone());
                proof {
                    dest = dest.push(kept_src.len() as int);
                    kept_src = kept_src.push(i as int);
                }
            }
            i = i + 1;
        }
        self.members = kept;
        proof {
            let k = self.ordered();
            let target = without_stale(as_map(s), now, deadline);
            assert forall|a: int| 0 <= a < k.len() implies #[trigger] k[a] == s[kept_src[a]] by {
                assert(k[a] == self.members@[a]@);
            }
            assert forall|a: int, c: int| 0 <= a < c < k.len() implies lex_lt(
                (#[trigger] k[a]).info.node_id,
                (#[trigger] k[c]).info.node_id,
            ) by {
                assert(k[a] == s[kept_src[a]] && k[c] == s[kept_src[c]]);
                assert(kept_src[a] < kept_src[c]);
            }
            assert forall|id: Seq<u8>| #[trigger] as_map(k).contains_key(id) == target.contains_key(
                id,
            ) by {
                if as_map(k).contains_key(id) {
                    let a = choose|a: int| 0 <= a < k.len() && (#[trigger] k[a]).info.node_id == id;
                    assert(k[a] == s[kept_src[a]]);
                    lemma_as_map_index(s, kept_src[a]);
                }
                if target.contains_key(id) {
                    let b = choose|b: int| 0 <= b < s.len() && (#[trigger] s[b]).info.node_id == id;
                    lemma_as_map_index(s, b);
                    assert(kept_src[dest[b]] == b);
                    assert(k[dest[b]] == s[b]);
                }
            }
            assert forall|id: Seq<u8>| as_map(k).contains_key(id) implies #[trigger] as_map(k)[id]
                == target[id] by {
                let a = choose|a: int| 0 <= a < k.len() && (#[trigger] k[a]).info.node_id == id;
                assert(k[a] == s[kept_src[a]]);
                lemma_as_map_index(k, a);
                lemma_as_map_index(s, kept_src[a]);
            }
            assert(as_map(k) =~= target);
            assert forall|a: int, c: int| 0 <= a < c < removed@.len() implies lex_lt(
                (#[trigger] removed@[a])@.node_id,
                (#[trigger] removed@[c])@.node_id,
            ) by {
                assert(removed_src[a] < removed_src[c]);
                assert(lex_lt(s[removed_src[a]].info.node_id, s[removed_src[c]].info.node_id));
            }
            assert forall|a: int| 0 <= a < removed@.len() implies {
                let info = (#[trigger] removed@[a])@;
                &&& as_map(s).contains_key(info.node_id)
                &&& as_map(s)[info.node_id].info == info
                &&& is_stale(as_map(s)[info.node_id], now, deadline)
            } by {
                lemma_as_map_index(s, removed_src[a]);
            }
            assert forall|id: Seq<u8>| #[trigger]
                as_map(s).contains_key(id) && is_stale(as_map(s)[id], now, deadline) implies exists|
                a: int,
            | 0 <= a < removed@.len() && (#[trigger] removed@[a])@.node_id == id by {
                let b = choose|b: int| 0 <= b < s.len() && (#[trigger] s[b]).info.node_id == id;
                lemma_as_map_index(s, b);
                assert(removed_src[dest[b]] == b);
                assert(removed@[dest[b]]@.node_id == id);
            }
        }
        removed
    }

    /// The descriptions of the members thought alive, in increasing order of
    /// node identifier.
    pub fn alive(&self) -> (r: Vec<NodeInfo>)
        requires
            self.wf(),
        ensures
            r@.map_values(|n: NodeInfo| n@) == alive_infos(self.ordered()),
            forall|i: int, j: int|
                0 <= i < j < r@.len() ==> lex_lt(
                    (#[trigger] r@[i])@.node_id,
                    (#[trigger] r@[j])@.node_id,
                ),
            forall|i: int|
                0 <= i < r@.len() ==> {
                    let info = (#[trigger] r@[i])@;
                    &&& self@.contains_key(info.node_id)
                    &&& self@[info.node_id].info == info
                    &&& self@[info.node_id].status == MemberStatus::Alive
                },
            forall|id: Seq<u8>| #[trigger]
                self@.contains_key(id) && self@[id].status == MemberStatus::Alive ==> exists|
                    i: int,
                | 0 <= i < r@.len() && (#[trigger] r@[i])@.node_id == id,
    {
        let ghost s = self.ordered();
        let mut out: Vec<NodeInfo> = Vec::new();
        let ghost mut src: Seq<int> = Seq::empty();
        let ghost mut dest: Seq<int> = Seq::empty();
        let mut i: usize = 0;
        assert(out@.map_values(|n: NodeInfo| n@) =~= alive_infos(s.subrange(0, 0)));
        while i < self.members.len()
            invariant
                i <= s.len(),
                s == self.ordered(),
                s.len() == self.members@.len(),
                src.len() == out@.len(),
                dest.len() == i,
                out@.map_values(|n: NodeInfo| n@) == alive_infos(s.subrange(0, i as int)),
                forall|a: int|
                    0 <= a < out@.len() ==> 0 <= #[trigger] src[a] < i && out@[a]@
                        == s[src[a]].info && s[src[a]].status == MemberStatus::Alive,
                forall|a: int, c: int|
                    0 <= a < c < out@.len() ==> #[trigger] src[a] < #[trigger] src[c],
                forall|b: int|
                    0 <= b < i && s[b].status == MemberStatus::Alive ==> 0 <= #[trigger] dest[b]
                        < out@.len() && src[dest[b]] == b,
            decreases s.len() - i,
        {
            assert(s[i as int] == self.members@[i as int]@);
            let ghost seen = out@.map_values(|n: NodeInfo| n@);
            proof {
                assert(s.subrange(0, i + 1).drop_last() =~= s.subrange(0, i as int));
                assert(s.subrange(0, i + 1).last() == s[i as int]);
            }
            if self.members[i].status == MemberStatus::Alive {
                out.push(self.members[i].info.clone());
                proof {
                    dest = dest.push(src.len() as int);
                    src = src.push(i as int);
                    assert(out@.map_values(|n: NodeInfo| n@) =~= seen.push(s[i as int].info));
                }
            } else {
                proof {
                    dest = dest.push(0);
                }
            }
            i = i + 1;
        }
        proof {
            assert(s.subrange(0, i as int) =~= s);
            assert forall|a: int, c: int| 0 <= a < c < out@.len() implies lex_lt(
                (#[trigger] out@[a])@.node_id,
                (#[trigger] out@[c])@.node_id,
            ) by {
                assert(src[a] < src[c]);
                assert(lex_lt(s[src[a]].info.node_id, s[src[c]].info.node_id));
            }
            assert forall|a: int| 0 <= a < out@.len() implies {
                let info = (#[trigger] out@[a])@;
                &&& self@.contains_key(info.node_id)
                &&& self@[info.node_id].info == info
                &&& self@[info.node_id].status == MemberStatus::Alive
            } by {
                lemma_as_map_index(s, src[a]);
            }
            assert forall|id: Seq<u8>| #[trigger]
                self@.contains_key(id) && self@[id].status == MemberStatus::Alive implies exists|
                a: int,
            | 0 <= a < out@.len() && (#[trigger] out@[a])@.node_id == id by {
                let b = choose|b: int| 0 <= b < s.len() && (#[trigger] s[b]).info.node_id == id;
                lemma_as_map_index(s, b);
                assert(src[dest[b]] == b);
                assert(out@[dest[b]]@.node_id == id);
            }
        }
        out
    }

    /// The identifiers of the known members, in increasing order.
    pub fn node_ids(&self) -> (r: Vec<Vec<u8>>)
        requires
            self.wf(),
        ensures
            r@.len() == self.ordered().len(),
            forall|i: int| 0 <= i < r@.len() ==> (#[trigger] r@[i])@ == self.ordered()[i].info.node_id,
            r@.map_values(|n: Vec<u8>| n@).to_set() == self@.dom(),
    {
        let ghost s = self.ordered();
        let mut out: Vec<Vec<u8>> = Vec::with_capacity(self.members.len());
        let mut i: usize = 0;
        while i < self.members.len()
            invariant
                i <= s.len(),
                s == self.ordered(),
                s.len() == self.members@.len(),
                out@.len() == i,
                forall|j: int| 0 <= j < i ==> (#[trigger] out@[j])@ == s[j].info.node_id,
            decreases s.len() - i,
        {
            assert(s[i as int] == self.members@[i as int]@);
            out.push(bytes_copy(self.members[i].info.node_id.as_slice()));
            i = i + 1;
        }
        proof {
            let ids = out@.map_values(|n: Vec<u8>| n@);
            assert forall|id: Seq<u8>| #[trigger] ids.to_set().contains(id) == self@.dom().contains(
                id,
            ) by {
                if ids.to_set().contains(id) {
                    let j = choose|j: int| 0 <= j < ids.len() && ids[j] == id;
                    assert(s[j].info.node_id == id);
                }
                if self@.dom().contains(id) {
                    let j = choose|j: int| 0 <= j < s.len() && (#[trigger] s[j]).info.node_id == id;
                    assert(ids[j] == id);
                }
            }
            assert(ids.to_set() =~= self@.dom());
        }
        out
    }
}

impl Clone for Membership {
    fn clone(&self) -> (r: Membership)
        ensures
            r.ordered() == self.ordered(),
            r@ == self@,
    {
        let mut members: Vec<MemberState> = Vec::with_capacity(self.members.len());
        let mut i: usize = 0;
        while i < self.members.len()
            invariant
                i <= self.members@.len(),
                members@.len() == i,
                forall|j: int| 0 <= j < i ==> (#[trigger] members@[j])@ == self.members@[j]@,
            decreases self.members@.len() - i,
        {
            members.push(self.members[i].clone());
            i = i + 1;
        }
        let r = Membership { members };
        assert(r.ordered() =~= self.ordered());
        r
    }
}

impl Default for Membership {
    /// A membership that knows nobody.
    fn default() -> (r: Membership)
        ensures
            r.wf(),
            r@ == Map::<Seq<u8>, MemberStateView>::empty(),
    {
        Membership::new()
    }
}

} // verus!
