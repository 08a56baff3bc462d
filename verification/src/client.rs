//! The client's side: where a request goes first and what an answer means.
//!
//! A client keeps a table of the ring positions that the control plane lists
//! and sends a request straight to the owner of its key. The table is a
//! shortcut only: a node that does not own a key redirects all the same.

use vstd::prelude::*;
use vstd::string::StringSliceAdditionalSpecFns;
use crate::order::{bytes_copy, bytes_eq, bytes_lt};
use crate::ring::{hash_key, key_hash};
use crate::server::{
    STATUS_CREATED, STATUS_NOT_FOUND, STATUS_NO_CONTENT, STATUS_OK, STATUS_TOO_MANY_REQUESTS,
};
use crate::slots::{lemma_rank_is_split, lemma_slot_transitive, lemma_slot_trichotomy};
use crate::slots::{rank, slot_lt, sorted, SlotView};

verus! {

/// Seconds after which the route table is fetched again.
pub const UPDATE_ROUTE_TABLE_INTERVAL_SECS: u64 = 10;

/// How many redirects a client follows for one request.
pub const REDIRECT_LIMIT: usize = 2;

/// What the build of a server says of itself.
#[derive(Debug)]
pub struct Version {
    pub branch: String,
    pub commit: String,
    pub commit_short: String,
    pub clean: bool,
    pub source_time: String,
    pub build_time: String,
    pub rustc: String,
    pub target: String,
    pub version: String,
}

/// Why a request of the client failed.
#[derive(Debug)]
pub enum Error {
    /// The server answered with status 429.
    TooManyRequests,
    /// Anything else, in words.
    Opaque(String),
}

impl Error {
    /// The error in words.
    pub fn to_string(&self) -> (s: String)
        ensures
            s@ == match self {
                Error::TooManyRequests => "Too many requests"@,
                Error::Opaque(msg) => msg@,
            },
    {
        match self {
            Error::TooManyRequests => "Too many requests".to_string(),
            Error::Opaque(msg) => msg.clone(),
        }
    }
}

/// The view of the outcome of a `get`.
pub open spec fn get_view(r: Result<Option<Vec<u8>>, Error>) -> Result<Option<Seq<u8>>, Option<Seq<char>>> {
    match r {
        Ok(Some(v)) => Ok(Some(v@)),
        Ok(None) => Ok(None),
        Err(Error::TooManyRequests) => Err(None),
        Err(Error::Opaque(msg)) => Err(Some(msg@)),
    }
}

/// The view of the outcome of a `put` or a `delete`.
pub open spec fn unit_view(r: Result<(), Error>) -> Result<(), Option<Seq<char>>> {
    match r {
        Ok(()) => Ok(()),
        Err(Error::TooManyRequests) => Err(None),
        Err(Error::Opaque(msg)) => Err(Some(msg@)),
    }
}

/// What the answer to a `GET` means: 404 that there is no value, 200 that
/// `body` is the value, 429 that the server is overloaded; any other status
/// is an error that carries the status in words.
pub fn get_response(status: u16, status_text: String, body: Vec<u8>) -> (r: Result<
    Option<Vec<u8>>,
    Error,
>)
    ensures
        get_view(r) == if status == STATUS_NOT_FOUND {
            Ok::<Option<Seq<u8>>, Option<Seq<char>>>(None)
        } else if status == STATUS_OK {
            Ok(Some(body@))
        } else if status == STATUS_TOO_MANY_REQUESTS {
            Err(None)
        } else {
            Err(Some(status_text@))
        },
{
    if status == STATUS_NOT_FOUND {
        Ok(None)
    } else if status == STATUS_OK {
        Ok(Some(body))
    } else if status == STATUS_TOO_MANY_REQUESTS {
        Err(Error::TooManyRequests)
    } else {
        Err(Error::Opaque(status_text))
    }
}

/// What the answer to a `PUT` means: 200 and 201 that the value is stored,
/// 429 that the server is overloaded; any other status is an error.
pub fn put_response(status: u16, status_text: String) -> (r: Result<(), Error>)
    ensures
        unit_view(r) == if status == STATUS_OK || status == STATUS_CREATED {
            Ok::<(), Option<Seq<char>>>(())
        } else if status == STATUS_TOO_MANY_REQUESTS {
            Err(None)
        } else {
            Err(Some(status_text@))
        },
{
    if status == STATUS_OK || status == STATUS_CREATED {
        Ok(())
    } else if status == STATUS_TOO_MANY_REQUESTS {
        Err(Error::TooManyRequests)
    } else {
        Err(Error::Opaque(status_text))
    }
}

/// What the answer to a `DELETE` means: 200 and 204 that the key is gone,
/// 429 that the server is overloaded; any other status is an error.
pub fn delete_response(status: u16, status_text: String) -> (r: Result<(), Error>)
    ensures
        unit_view(r) == if status == STATUS_OK || status == STATUS_NO_CONTENT {
            Ok::<(), Option<Seq<char>>>(())
        } else if status == STATUS_TOO_MANY_REQUESTS {
            Err(None)
        } else {
            Err(Some(status_text@))
        },
{
    if status == STATUS_OK || status == STATUS_NO_CONTENT {
        Ok(())
    } else if status == STATUS_TOO_MANY_REQUESTS {
        Err(Error::TooManyRequests)
    } else {
        Err(Error::Opaque(status_text))
    }
}

/// What the answer to a request for a listing means: 200 that the body
/// holds it, 429 that the server is overloaded; any other status is an error.
pub fn listing_response(status: u16, status_text: String) -> (r: Result<(), Error>)
    ensures
        unit_view(r) == if status == STATUS_OK {
            Ok::<(), Option<Seq<char>>>(())
        } else if status == STATUS_TOO_MANY_REQUESTS {
            Err(None)
        } else {
            Err(Some(status_text@))
        },
{
    if status == STATUS_OK {
        Ok(())
    } else if status == STATUS_TOO_MANY_REQUESTS {
        Err(Error::TooManyRequests)
    } else {
        Err(Error::Opaque(status_text))
    }
}

/// Whether a route table that was fetched `elapsed_secs` whole seconds and
/// `elapsed_nanos` nanoseconds ago is due to be fetched again: once more
/// than the update interval has passed.
pub fn route_table_is_stale(elapsed_secs: u64, elapsed_nanos: u32) -> (r: bool)
    ensures
        r == (elapsed_secs > UPDATE_ROUTE_TABLE_INTERVAL_SECS || (elapsed_secs
            == UPDATE_ROUTE_TABLE_INTERVAL_SECS && elapsed_nanos > 0)),
{
    elapsed_secs > UPDATE_ROUTE_TABLE_INTERVAL_SECS || (elapsed_secs
        == UPDATE_ROUTE_TABLE_INTERVAL_SECS && elapsed_nanos > 0)
}

/// A route as mathematical values: a slot of the ring and the address of
/// its node.
pub ghost struct RouteView {
    pub slot: SlotView,
    pub addr: Seq<char>,
}

/// One route of the table.
#[derive(Debug)]
pub struct Route {
    pub hash: u32,
    pub node_id: Vec<u8>,
    pub addr: String,
}

impl View for Route {
    type V = RouteView;

    open spec fn view(&self) -> RouteView {
        RouteView { slot: (self.hash, self.node_id@), addr: self.addr@ }
    }
}

/// The slots of a sequence of routes.
pub open spec fn slots_of(s: Seq<RouteView>) -> Seq<SlotView> {
    s.map_values(|r: RouteView| r.slot)
}

/// The route that serves ring position `digest`: the first at or after it,
/// or the first of the table where there is none.
pub open spec fn route_at(s: Seq<RouteView>, digest: u32) -> Option<RouteView> {
    if s.len() == 0 {
        None
    } else if rank(slots_of(s), digest) < s.len() {
        Some(s[rank(slots_of(s), digest) as int])
    } else {
        Some(s[0])
    }
}

/// The ring as a client knows it: for each slot the address of its node.
pub struct RouteTable {
    ring: Vec<Route>,
}

impl View for RouteTable {
    type V = Seq<RouteView>;

    closed spec fn view(&self) -> Seq<RouteView> {
        self.ring@.map_values(|r: Route| r@)
    }
}

impl RouteTable {
    /// The routes are strictly increasing by slot.
    pub open spec fn wf(&self) -> bool {
        sorted(slots_of(self@))
    }

    /// An empty table.
    pub fn new() -> (t: RouteTable)
        ensures
            t.wf(),
            t@ == Seq::<RouteView>::empty(),
    {
        let t = RouteTable { ring: Vec::new() };
        assert(t@ =~= Seq::<RouteView>::empty());
        t
    }

    /// The number of routes.
    pub fn len(&self) -> (n: usize)
        ensures
            n == self@.len(),
    {
        self.ring.len()
    }

    /// The index of the first route whose slot does not come before
    /// `(hash, node)`.
    fn position(&self, hash: u32, node: &[u8]) -> (p: usize)
        requires
            self.wf(),
        ensures
            p <= self@.len(),
            forall|i: int| 0 <= i < p ==> slot_lt((#[trigger] self@[i]).slot, (hash, node@)),
            forall|i: int|
                p <= i < self@.len() ==> !slot_lt((#[trigger] self@[i]).slot, (hash, node@)),
    {
        let ghost e: SlotView = (hash, node@);
        let ghost s = self@;
        let mut lo: usize = 0;
        let mut hi: usize = self.ring.len();
        while lo < hi
            invariant
                self.wf(),
                s == self@,
                e == (hash, node@),
                lo <= hi <= s.len(),
                s.len() == self.ring@.len(),
                forall|i: int| 0 <= i < lo ==> slot_lt((#[trigger] s[i]).slot, e),
                forall|i: int| hi <= i < s.len() ==> !slot_lt((#[trigger] s[i]).slot, e),
            decreases hi - lo,
        {
            let mid: usize = lo + (hi - lo) / 2;
            assert(s[mid as int] == self.ring@[mid as int]@);
            let h: u32 = self.ring[mid].hash;
            let before: bool = h < hash || (h == hash && bytes_lt(
                self.ring[mid].node_id.as_slice(),
                node,
            ));
            assert(before == slot_lt(s[mid as int].slot, e));
            if before {
                assert forall|i: int| 0 <= i < mid + 1 implies slot_lt((#[trigger] s[i]).slot, e) by {
                    if i < mid {
                        assert(slot_lt(slots_of(s)[i], slots_of(s)[mid as int]));
                        lemma_slot_transitive(s[i].slot, s[mid as int].slot, e);
                    }
                }
                lo = mid + 1;
            } else {
                assert forall|i: int| mid <= i < s.len() implies !slot_lt(
                    (#[trigger] s[i]).slot,
                    e,
                ) by {
                    if mid < i && slot_lt(s[i].slot, e) {
                        assert(slot_lt(slots_of(s)[mid as int], slots_of(s)[i]));
                        lemma_slot_transitive(s[mid as int].slot, s[i].slot, e);
                    }
                }
                hi = mid;
            }
        }
        lo
    }

    /// Sets the address of the node `node_id` at ring position `hash`. A
    /// route for the same node at the same position is replaced.
    pub fn insert(&mut self, hash: u32, node_id: Vec<u8>, addr: String)
        requires
            old(self).wf(),
        ensures
            final(self).wf(),
            forall|r: RouteView| #[trigger]
                final(self)@.contains(r) <==> (r == (RouteView {
                    slot: (hash, node_id@),
                    addr: addr@,
                }) || (r.slot != (hash, node_id@) && old(self)@.contains(r))),
    {
        let p: usize = self.position(hash, node_id.as_slice());
        let ghost e: SlotView = (hash, node_id@);
        let ghost s = self@;
        let ghost fresh = RouteView { slot: e, addr: addr@ };
        proof {
            lemma_slot_trichotomy(e, e);
        }
        if p < self.ring.len() {
            assert(s[p as int] == self.ring@[p as int]@);
            if self.ring[p].hash == hash && bytes_eq(
                self.ring[p].node_id.as_slice(),
                node_id.as_slice(),
            ) {
                self.ring.set(p, Route { hash, node_id, addr });
                proof {
                    let t = self@;
                    assert(t =~= s.update(p as int, fresh));
                    assert(slots_of(t) =~= slots_of(s));
                    assert forall|r: RouteView| #[trigger] t.contains(r) <==> (r == fresh || (r.slot
                        != e && s.contains(r))) by {
                        if t.contains(r) {
                            let i = choose|i: int| 0 <= i < t.len() && t[i] == r;
                            if i != p {
                                assert(s[i] == r);
                                if i < p {
                                    assert(slot_lt(slots_of(s)[i], slots_of(s)[p as int]));
                                } else {
                                    assert(slot_lt(slots_of(s)[p as int], slots_of(s)[i]));
                                }
                                lemma_slot_trichotomy(r.slot, e);
                            }
                        }
                        if r == fresh {
                            assert(t[p as int] == r);
                        } else if r.slot != e && s.contains(r) {
                            let i = choose|i: int| 0 <= i < s.len() && s[i] == r;
                            assert(t[i] == r);
                        }
                    }
                }
                return ;
            }
        }
        proof {
            if p < s.len() {
                lemma_slot_trichotomy(s[p as int].slot, e);
            }
        }
        self.ring.insert(p, Route { hash, node_id, addr });
        proof {
            let t = self@;
            assert(t =~= s.insert(p as int, fresh));
            let ts = slots_of(t);
            let ss = slots_of(s);
            assert forall|i: int, j: int| 0 <= i < j < ts.len() implies slot_lt(
                #[trigger] ts[i],
                #[trigger] ts[j],
            ) by {
                if j < p {
                    assert(slot_lt(ss[i], ss[j]));
                } else if j == p {
                    assert(slot_lt(s[i].slot, e));
                } else if i < p {
                    assert(slot_lt(ss[i], ss[j - 1]));
                } else if i == p {
                    assert(slot_lt(e, s[p as int].slot));
                    if j - 1 > p {
                        assert(slot_lt(ss[p as int], ss[j - 1]));
                        lemma_slot_transitive(e, ss[p as int], ss[j - 1]);
                    }
                } else {
                    assert(slot_lt(ss[i - 1], ss[j - 1]));
                }
            }
            assert forall|r: RouteView| #[trigger] t.contains(r) <==> (r == fresh || (r.slot != e
                && s.contains(r))) by {
                if t.contains(r) {
                    let i = choose|i: int| 0 <= i < t.len() && t[i] == r;
                    if i < p {
                        assert(s[i] == r);
                        assert(slot_lt(s[i].slot, e));
                    } else if i > p {
                        assert(s[i - 1] == r);
                        assert(!slot_lt(s[i - 1].slot, e));
                        if i - 1 > p {
                            assert(slot_lt(ss[p as int], ss[i - 1]));
                            lemma_slot_transitive(e, ss[p as int], ss[i - 1]);
                        }
                        lemma_slot_trichotomy(r.slot, e);
                    }
                }
                if r == fresh {
                    assert(t[p as int] == r);
                } else if r.slot != e && s.contains(r) {
                    let i = choose|i: int| 0 <= i < s.len() && s[i] == r;
                    if i < p {
                        assert(t[i] == r);
                    } else {
                        assert(t[i + 1] == r);
                    }
                }
            }
        }
    }

    /// The route that serves `key`: the node and its address.
    pub fn lookup(&self, key: &str) -> (r: Option<(Vec<u8>, String)>)
        requires
            self.wf(),
        ensures
            match r {
                Some((node, addr)) => route_at(self@, key_hash(key.spec_bytes())) == Some(
                    RouteView {
                        slot: (route_at(self@, key_hash(key.spec_bytes()))->0.slot.0, node@),
                        addr: addr@,
                    },
                ),
                None => route_at(self@, key_hash(key.spec_bytes())) is None,
            },
    {
        self.lookup_at(hash_key(key.as_bytes()))
    }

    /// The route that serves ring position `digest`: the node and its
    /// address.
    pub fn lookup_at(&self, digest: u32) -> (r: Option<(Vec<u8>, String)>)
        requires
            self.wf(),
        ensures
            match r {
                Some((node, addr)) => route_at(self@, digest) == Some(
                    RouteView { slot: (route_at(self@, digest)->0.slot.0, node@), addr: addr@ },
                ),
                None => route_at(self@, digest) is None,
            },
    {
        if self.ring.len() == 0 {
            return None;
        }
        let ghost s = self@;
        let mut lo: usize = 0;
        let mut hi: usize = self.ring.len();
        while lo < hi
            invariant
                self.wf(),
                s == self@,
                lo <= hi <= s.len(),
                s.len() == self.ring@.len(),
                forall|i: int| 0 <= i < lo ==> (#[trigger] slots_of(s)[i]).0 < digest,
                forall|i: int| hi <= i < s.len() ==> (#[trigger] slots_of(s)[i]).0 >= digest,
            decreases hi - lo,
        {
            let mid: usize = lo + (hi - lo) / 2;
            assert(s[mid as int] == self.ring@[mid as int]@);
            assert(slots_of(s)[mid as int] == s[mid as int].slot);
            if self.ring[mid].hash < digest {
                assert forall|i: int| 0 <= i < mid + 1 implies (#[trigger] slots_of(s)[i]).0
                    < digest by {
                    if i < mid {
                        assert(slot_lt(slots_of(s)[i], slots_of(s)[mid as int]));
                    }
                }
                lo = mid + 1;
            } else {
                assert forall|i: int| mid <= i < s.len() implies (#[trigger] slots_of(s)[i]).0
                    >= digest by {
                    if mid < i {
                        assert(slot_lt(slots_of(s)[mid as int], slots_of(s)[i]));
                    }
                }
                hi = mid;
            }
        }
        proof {
            lemma_rank_is_split(slots_of(s), digest, lo as int);
        }
        let at: usize = if lo < self.ring.len() {
            lo
        } else {
            0
        };
        assert(s[at as int] == self.ring@[at as int]@);
        Some((bytes_copy(self.ring[at].node_id.as_slice()), self.ring[at].addr.clone()))
    }

    /// The routes in increasing order of slot.
    pub fn routes(&self) -> (r: &Vec<Route>)
        ensures
            r@.map_values(|x: Route| x@) == self@,
    {
        &self.ring
    }
}

/// A listed member as mathematical values: its identifier, its address and
/// the ring positions of its virtual nodes.
pub type ListedView = (Seq<u8>, Seq<char>, Seq<u32>);

/// The views of a listing of members.
pub open spec fn listing_view(members: Seq<(Vec<u8>, String, Vec<u32>)>) -> Seq<ListedView> {
    members.map_values(|m: (Vec<u8>, String, Vec<u32>)| (m.0@, m.1@, m.2@))
}

/// The route `r` is that of a virtual node of the listed member `m`.
pub open spec fn route_of_member(r: RouteView, m: ListedView) -> bool {
    r.slot.1 == m.0 && r.addr == m.1 && m.2.contains(r.slot.0)
}

/// The table has a route for `slot`.
pub open spec fn has_slot(s: Seq<RouteView>, slot: SlotView) -> bool {
    exists|k: int| 0 <= k < s.len() && (#[trigger] s[k]).slot == slot
}

/// The slot of the virtual node number `j` of the listed member `m`.
pub open spec fn listed_slot(m: ListedView, j: int) -> SlotView {
    (m.2[j], m.0)
}

/// The route `r` is that of a virtual node of one of the first `n` members
/// of `listing`.
pub open spec fn from_listing(r: RouteView, listing: Seq<ListedView>, n: int) -> bool {
    exists|a: int| 0 <= a < n && route_of_member(r, #[trigger] listing[a])
}

/// Puts the routes of one listed member into `table`.
fn insert_member(table: &mut RouteTable, node_id: &Vec<u8>, addr: &String, vnodes: &Vec<u32>)
    requires
        old(table).wf(),
    ensures
        final(table).wf(),
        forall|r: RouteView| #[trigger]
            final(table)@.contains(r) ==> old(table)@.contains(r) || route_of_member(
                r,
                (node_id@, addr@, vnodes@),
            ),
        forall|slot: SlotView| #[trigger]
            has_slot(old(table)@, slot) ==> has_slot(final(table)@, slot),
        forall|j: int|
            0 <= j < vnodes@.len() ==> final(table)@.contains(
                RouteView { slot: (#[trigger] vnodes@[j], node_id@), addr: addr@ },
            ),
{
    let ghost m: ListedView = (node_id@, addr@, vnodes@);
    let mut j: usize = 0;
    while j < vnodes.len()
        invariant
            j <= vnodes@.len(),
            m == (node_id@, addr@, vnodes@),
            table.wf(),
            forall|r: RouteView| #[trigger]
                table@.contains(r) ==> old(table)@.contains(r) || route_of_member(r, m),
            forall|slot: SlotView| #[trigger] has_slot(old(table)@, slot) ==> has_slot(table@, slot),
            forall|i: int|
                0 <= i < j ==> table@.contains(
                    RouteView { slot: (#[trigger] vnodes@[i], node_id@), addr: addr@ },
                ),
        decreases vnodes@.len() - j,
    {
        let ghost held = table@;
        let ghost fresh = RouteView { slot: (vnodes@[j as int], node_id@), addr: addr@ };
        table.insert(vnodes[j], bytes_copy(node_id.as_slice()), addr.clone());
        proof {
            assert(table@.contains(fresh));
            assert forall|slot: SlotView| #[trigger] has_slot(held, slot) implies has_slot(
                table@,
                slot,
            ) by {
                let k0 = choose|k: int| 0 <= k < held.len() && (#[trigger] held[k]).slot == slot;
                let w = if held[k0].slot == fresh.slot {
                    fresh
                } else {
                    held[k0]
                };
                assert(held.contains(held[k0]));
                assert(table@.contains(w));
                let k1 = choose|k: int| 0 <= k < table@.len() && table@[k] == w;
                assert(table@[k1].slot == slot);
            }
            assert forall|i: int| 0 <= i < j + 1 implies table@.contains(
                RouteView { slot: (#[trigger] vnodes@[i], node_id@), addr: addr@ },
            ) by {
                let r = RouteView { slot: (vnodes@[i], node_id@), addr: addr@ };
                if r != fresh {
                    assert(held.contains(r));
                    assert(r.slot != fresh.slot);
                }
            }
        }
        j = j + 1;
    }
}

/// The table of the ring positions that a listing of members gives. Every
/// route of the table is that of a virtual node of a listed member, and every
/// listed virtual node has a route; a member that is listed once has all its
/// virtual nodes routed to its address.
pub fn route_table_of(members: &Vec<(Vec<u8>, String, Vec<u32>)>) -> (t: RouteTable)
    ensures
        t.wf(),
        forall|r: RouteView| #[trigger]
            t@.contains(r) ==> from_listing(r, listing_view(members@), members@.len() as int),
        forall|a: int, j: int|
            0 <= a < members@.len() && 0 <= j < listing_view(members@)[a].2.len() ==> has_slot(
                t@,
                #[trigger] listed_slot(listing_view(members@)[a], j),
            ),
{
    let mut table = RouteTable::new();
    let ghost listing = listing_view(members@);
    let mut i: usize = 0;
    while i < members.len()
        invariant
            i <= members@.len(),
            listing == listing_view(members@),
            table.wf(),
            forall|r: RouteView| #[trigger] table@.contains(r) ==> from_listing(r, listing, i as int),
            forall|a: int, j: int|
                0 <= a < i && 0 <= j < listing[a].2.len() ==> has_slot(
                    table@,
                    #[trigger] listed_slot(listing[a], j),
                ),
        decreases members@.len() - i,
    {
        let ghost held = table@;
        insert_member(&mut table, &members[i].0, &members[i].1, &members[i].2);
        proof {
            let m = listing[i as int];
            assert(m == (members@[i as int].0@, members@[i as int].1@, members@[i as int].2@));
            assert forall|r: RouteView| #[trigger] table@.contains(r) implies from_listing(
                r,
                listing,
                i + 1,
            ) by {
                if held.contains(r) {
                    let a = choose|a: int| 0 <= a < i && route_of_member(r, #[trigger] listing[a]);
                    assert(route_of_member(r, listing[a]));
                } else {
                    assert(route_of_member(r, listing[i as int]));
                }
            }
            assert forall|a: int, j: int|
                0 <= a < i + 1 && 0 <= j < listing[a].2.len() implies has_slot(
                table@,
                #[trigger] listed_slot(listing[a], j),
            ) by {
                if a < i {
                    assert(has_slot(held, listed_slot(listing[a], j)));
                } else {
                    let r = RouteView { slot: (m.2[j], m.0), addr: m.1 };
                    assert(table@.contains(r));
                    let k1 = choose|k: int| 0 <= k < table@.len() && table@[k] == r;
                    assert(table@[k1].slot == listed_slot(m, j));
                }
            }
        }
        i = i + 1;
    }
    table
}

/// Where a client sends the request for `key`: to the node that the table
/// names, or to `data_url` where the table is missing or empty.
pub fn first_hop(table: &Option<RouteTable>, data_url: &String, key: &str) -> (url: String)
    requires
        table matches Some(t) ==> t.wf(),
    ensures
        url@ == match table {
            Some(t) => match route_at(t@, key_hash(key.spec_bytes())) {
                Some(r) => r.addr,
                None => data_url@,
            },
            None => data_url@,
        },
{
    match table {
        Some(t) => match t.lookup(key) {
            Some((_, addr)) => addr,
            None => data_url.clone(),
        },
        None => data_url.clone(),
    }
}

} // verus!
