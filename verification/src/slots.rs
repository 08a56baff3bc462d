//! An ordered table of ring slots.
//!
//! A slot is a pair of a 32-bit position on the ring and the identifier of the
//! node that sits there. The table keeps its slots strictly increasing, first
//! by position and then by identifier, so that each pair occurs once and the
//! smallest identifier leads among the nodes that share a position.

use vstd::prelude::*;
use crate::order::{bytes_copy, bytes_eq, bytes_lt, lex_lt, opt_bytes};
use crate::order::{lemma_lex_transitive, lemma_lex_trichotomy};

verus! {

/// A slot as a mathematical pair: ring position and node identifier.
pub type SlotView = (u32, Seq<u8>);

/// One slot of the ring.
pub struct Slot {
    pub hash: u32,
    pub node: Vec<u8>,
}

impl View for Slot {
    type V = SlotView;

    open spec fn view(&self) -> SlotView {
        (self.hash, self.node@)
    }
}

/// Slot `a` comes strictly before slot `b`.
pub open spec fn slot_lt(a: SlotView, b: SlotView) -> bool {
    a.0 < b.0 || (a.0 == b.0 && lex_lt(a.1, b.1))
}

/// The slots are strictly increasing.
pub open spec fn sorted(s: Seq<SlotView>) -> bool {
    forall|i: int, j: int| 0 <= i < j < s.len() ==> slot_lt(#[trigger] s[i], #[trigger] s[j])
}

/// How many slots lie strictly below position `digest`.
pub open spec fn rank(s: Seq<SlotView>, digest: u32) -> nat
    decreases s.len(),
{
    if s.len() == 0 {
        0
    } else {
        rank(s.drop_last(), digest) + if s.last().0 < digest {
            1nat
        } else {
            0nat
        }
    }
}

/// The node that owns position `digest`: the first slot at or after it, or,
/// past the last slot, the first slot of the ring.
pub open spec fn owner_at(s: Seq<SlotView>, digest: u32) -> Option<Seq<u8>> {
    if s.len() == 0 {
        None
    } else if rank(s, digest) < s.len() {
        Some(s[rank(s, digest) as int].1)
    } else {
        Some(s[0].1)
    }
}

/// The slots in the order in which a walk from `digest` meets them: those at
/// or after it, then those before it.
pub open spec fn scan_order(s: Seq<SlotView>, digest: u32) -> Seq<SlotView> {
    s.subrange(rank(s, digest) as int, s.len() as int) + s.subrange(0, rank(s, digest) as int)
}

/// `pred`, called on a node with identifier `node`, may answer `b`.
pub open spec fn answers<F: Fn(&Vec<u8>) -> bool>(pred: F, node: Seq<u8>, b: bool) -> bool {
    exists|x: Vec<u8>| #[trigger] x@ == node && call_ensures(pred, (&x,), b)
}

/// Two slots are equal, or exactly one comes before the other.
pub proof fn lemma_slot_trichotomy(a: SlotView, b: SlotView)
    ensures
        a == b || slot_lt(a, b) || slot_lt(b, a),
        !(slot_lt(a, b) && slot_lt(b, a)),
        a == b ==> !slot_lt(a, b),
{
    lemma_lex_trichotomy(a.1, b.1);
}

/// The order of slots is transitive.
pub proof fn lemma_slot_transitive(a: SlotView, b: SlotView, c: SlotView)
    requires
        slot_lt(a, b),
        slot_lt(b, c),
    ensures
        slot_lt(a, c),
{
    if a.0 == b.0 && b.0 == c.0 {
        lemma_lex_transitive(a.1, b.1, c.1);
    }
}

/// In a sorted table the slots below `digest` are exactly the first `p`.
pub proof fn lemma_rank_is_split(s: Seq<SlotView>, digest: u32, p: int)
    requires
        0 <= p <= s.len(),
        forall|i: int| 0 <= i < p ==> (#[trigger] s[i]).0 < digest,
        forall|i: int| p <= i < s.len() ==> (#[trigger] s[i]).0 >= digest,
    ensures
        rank(s, digest) == p,
    decreases s.len(),
{
    if s.len() > 0 {
        let t = s.drop_last();
        if p == s.len() {
            lemma_rank_is_split(t, digest, p - 1);
        } else {
            lemma_rank_is_split(t, digest, p);
        }
    }
}

/// The rank splits a sorted table into the slots below `digest` and the rest.
pub proof fn lemma_rank_bounds(s: Seq<SlotView>, digest: u32)
    requires
        sorted(s),
    ensures
        rank(s, digest) <= s.len(),
        forall|i: int| 0 <= i < rank(s, digest) ==> (#[trigger] s[i]).0 < digest,
        forall|i: int| rank(s, digest) <= i < s.len() ==> (#[trigger] s[i]).0 >= digest,
    decreases s.len(),
{
    if s.len() > 0 {
        let t = s.drop_last();
        assert(sorted(t)) by {
            assert forall|i: int, j: int| 0 <= i < j < t.len() implies slot_lt(
                #[trigger] t[i],
                #[trigger] t[j],
            ) by {
                assert(t[i] == s[i] && t[j] == s[j]);
            }
        }
        lemma_rank_bounds(t, digest);
        let last = s.len() - 1;
        if s.last().0 < digest {
            assert forall|i: int| 0 <= i < rank(s, digest) implies (#[trigger] s[i]).0
                < digest by {
                if i < last {
                    assert(slot_lt(s[i], s[last]));
                }
            }
            assert(rank(t, digest) == t.len()) by {
                if rank(t, digest) < t.len() {
                    let k = rank(t, digest) as int;
                    assert(t[k].0 >= digest);
                    assert(t[k] == s[k]);
                    assert(slot_lt(s[k], s[last]));
                }
            }
        } else {
            assert forall|i: int| 0 <= i < rank(s, digest) implies (#[trigger] s[i]).0
                < digest by {
                assert(t[i] == s[i]);
            }
            assert forall|i: int| rank(s, digest) <= i < s.len() implies (#[trigger] s[i]).0
                >= digest by {
                if i < last {
                    assert(t[i] == s[i]);
                }
            }
        }
    }
}

/// A sorted table is determined by the set of its slots.
pub proof fn lemma_sorted_canonical(s: Seq<SlotView>, t: Seq<SlotView>)
    requires
        sorted(s),
        sorted(t),
        s.to_set() == t.to_set(),
    ensures
        s == t,
    decreases s.len(),
{
    if s.len() == 0 {
        if t.len() > 0 {
            assert(t.to_set().contains(t[0]));
            assert(s.to_set().contains(t[0]));
        }
        assert(s =~= t);
    } else if t.len() == 0 {
        assert(s.to_set().contains(s[0]));
        assert(t.to_set().contains(s[0]));
    } else {
        let a = s.last();
        let b = t.last();
        // The last slot of each is the greatest of the common set.
        assert(a == b) by {
            assert(s.to_set().contains(a));
            assert(t.to_set().contains(a));
            assert(t.to_set().contains(b));
            assert(s.to_set().contains(b));
            let i = choose|i: int| 0 <= i < t.len() && t[i] == a;
            let j = choose|j: int| 0 <= j < s.len() && s[j] == b;
            lemma_slot_trichotomy(a, b);
            if i < t.len() - 1 {
                assert(slot_lt(t[i], t[t.len() - 1]));
            }
            if j < s.len() - 1 {
                assert(slot_lt(s[j], s[s.len() - 1]));
            }
        }
        let s_front = s.drop_last();
        let t_front = t.drop_last();
        assert(sorted(s_front)) by {
            assert forall|i: int, j: int| 0 <= i < j < s_front.len() implies slot_lt(
                #[trigger] s_front[i],
                #[trigger] s_front[j],
            ) by {
                assert(s_front[i] == s[i] && s_front[j] == s[j]);
            }
        }
        assert(sorted(t_front)) by {
            assert forall|i: int, j: int| 0 <= i < j < t_front.len() implies slot_lt(
                #[trigger] t_front[i],
                #[trigger] t_front[j],
            ) by {
                assert(t_front[i] == t[i] && t_front[j] == t[j]);
            }
        }
        assert(s_front.to_set() =~= t_front.to_set()) by {
            assert forall|x: SlotView| s_front.to_set().contains(x) implies t_front.to_set().contains(
                x,
            ) by {
                let i = choose|i: int| 0 <= i < s_front.len() && s_front[i] == x;
                assert(s[i] == x);
                assert(slot_lt(s[i], s[s.len() - 1]));
                lemma_slot_trichotomy(x, a);
                assert(s.to_set().contains(x));
                assert(t.to_set().contains(x));
                let j = choose|j: int| 0 <= j < t.len() && t[j] == x;
                assert(j < t.len() - 1);
                assert(t_front[j] == x);
            }
            assert forall|x: SlotView| t_front.to_set().contains(x) implies s_front.to_set().contains(
                x,
            ) by {
                let i = choose|i: int| 0 <= i < t_front.len() && t_front[i] == x;
                assert(t[i] == x);
                assert(slot_lt(t[i], t[t.len() - 1]));
                lemma_slot_trichotomy(x, b);
                assert(t.to_set().contains(x));
                assert(s.to_set().contains(x));
                let j = choose|j: int| 0 <= j < s.len() && s[j] == x;
                assert(j < s.len() - 1);
                assert(s_front[j] == x);
            }
        }
        lemma_sorted_canonical(s_front, t_front);
        assert(s =~= s_front.push(a));
        assert(t =~= t_front.push(b));
    }
}

/// The ordered table of slots.
pub struct SlotTable {
    slots: Vec<Slot>,
}

impl View for SlotTable {
    type V = Seq<SlotView>;

    closed spec fn view(&self) -> Seq<SlotView> {
        self.slots@.map_values(|s: Slot| s@)
    }
}

impl SlotTable {
    /// The table keeps its slots strictly increasing.
    pub open spec fn wf(&self) -> bool {
        sorted(self@)
    }

    /// The set of slots in the table.
    pub open spec fn entries(&self) -> Set<SlotView> {
        self@.to_set()
    }

    /// An empty table.
    pub fn new() -> (t: SlotTable)
        ensures
            t.wf(),
            t@ == Seq::<SlotView>::empty(),
    {
        let t = SlotTable { slots: Vec::new() };
        assert(t@ =~= Seq::<SlotView>::empty());
        t
    }

    /// The number of slots.
    pub fn len(&self) -> (n: usize)
        ensures
            n == self@.len(),
    {
        self.slots.len()
    }

    /// The index of the first slot at or after position `digest`.
    pub fn lower_bound(&self, digest: u32) -> (p: usize)
        requires
            self.wf(),
        ensures
            p == rank(self@, digest),
            p <= self@.len(),
    {
        let mut lo: usize = 0;
        let mut hi: usize = self.slots.len();
        while lo < hi
            invariant
                self.wf(),
                lo <= hi <= self@.len(),
                self@.len() == self.slots@.len(),
                forall|i: int| 0 <= i < lo ==> (#[trigger] self@[i]).0 < digest,
                forall|i: int| hi <= i < self@.len() ==> (#[trigger] self@[i]).0 >= digest,
            decreases hi - lo,
        {
            let mid: usize = lo + (hi - lo) / 2;
            assert(self@[mid as int] == self.slots@[mid as int]@);
            if self.slots[mid].hash < digest {
                assert forall|i: int| 0 <= i < mid + 1 implies (#[trigger] self@[i]).0
                    < digest by {
                    if i < mid {
                        assert(slot_lt(self@[i], self@[mid as int]));
                    }
                }
                lo = mid + 1;
            } else {
                assert forall|i: int| mid <= i < self@.len() implies (#[trigger] self@[i]).0
                    >= digest by {
                    if mid < i {
                        assert(slot_lt(self@[mid as int], self@[i]));
                    }
                }
                hi = mid;
            }
        }
        proof {
            lemma_rank_is_split(self@, digest, lo as int);
        }
        lo
    }

    /// The index of the first slot that does not come before `(hash, node)`.
    fn position(&self, hash: u32, node: &[u8]) -> (p: usize)
        requires
            self.wf(),
        ensures
            p <= self@.len(),
            forall|i: int| 0 <= i < p ==> slot_lt(#[trigger] self@[i], (hash, node@)),
            forall|i: int| p <= i < self@.len() ==> !slot_lt(#[trigger] self@[i], (hash, node@)),
    {
        let ghost e: SlotView = (hash, node@);
        let mut lo: usize = 0;
        let mut hi: usize = self.slots.len();
        while lo < hi
            invariant
                self.wf(),
                e == (hash, node@),
                lo <= hi <= self@.len(),
                self@.len() == self.slots@.len(),
                forall|i: int| 0 <= i < lo ==> slot_lt(#[trigger] self@[i], e),
                forall|i: int| hi <= i < self@.len() ==> !slot_lt(#[trigger] self@[i], e),
            decreases hi - lo,
        {
            let mid: usize = lo + (hi - lo) / 2;
            assert(self@[mid as int] == self.slots@[mid as int]@);
            let h: u32 = self.slots[mid].hash;
            let before: bool = h < hash || (h == hash && bytes_lt(
                self.slots[mid].node.as_slice(),
                node,
            ));
            assert(before == slot_lt(self@[mid as int], e));
            if before {
                assert forall|i: int| 0 <= i < mid + 1 implies slot_lt(#[trigger] self@[i], e) by {
                    if i < mid {
                        assert(slot_lt(self@[i], self@[mid as int]));
                        lemma_slot_transitive(self@[i], self@[mid as int], e);
                    }
                }
                lo = mid + 1;
            } else {
                assert forall|i: int| mid <= i < self@.len() implies !slot_lt(
                    #[trigger] self@[i],
                    e,
                ) by {
                    if mid < i && slot_lt(self@[i], e) {
                        assert(slot_lt(self@[mid as int], self@[i]));
                        lemma_slot_transitive(self@[mid as int], self@[i], e);
                    }
                }
                hi = mid;
            }
        }
        lo
    }

    /// Whether the table holds the slot `(hash, node)`.
    pub fn contains(&self, hash: u32, node: &[u8]) -> (r: bool)
        requires
            self.wf(),
        ensures
            r == self.entries().contains((hash, node@)),
    {
        let p: usize = self.position(hash, node);
        let ghost e: SlotView = (hash, node@);
        if p < self.slots.len() {
            assert(self@[p as int] == self.slots@[p as int]@);
            if self.slots[p].hash == hash && bytes_eq(self.slots[p].node.as_slice(), node) {
                assert(self@[p as int] == e);
                assert(self@.contains(e));
                return true;
            }
        }
        proof {
            if self@.contains(e) {
                let i = choose|i: int| 0 <= i < self@.len() && self@[i] == e;
                lemma_slot_trichotomy(e, e);
                assert(!slot_lt(self@[i], e));
                assert(i >= p);
                if i > p {
                    assert(slot_lt(self@[p as int], self@[i]));
                }
            }
        }
        false
    }

    /// Puts the slot `(hash, node)` into the table; a slot that is already
    /// there stays as it is. Returns whether the slot is new.
    pub fn insert(&mut self, hash: u32, node: Vec<u8>) -> (fresh: bool)
        requires
            old(self).wf(),
        ensures
            final(self).wf(),
            final(self).entries() == old(self).entries().insert((hash, node@)),
            fresh == !old(self).entries().contains((hash, node@)),
    {
        let p: usize = self.position(hash, node.as_slice());
        let ghost e: SlotView = (hash, node@);
        let ghost before = self@;
        if p < self.slots.len() {
            assert(self@[p as int] == self.slots@[p as int]@);
            if self.slots[p].hash == hash && bytes_eq(
                self.slots[p].node.as_slice(),
                node.as_slice(),
            ) {
                proof {
                    assert(self@[p as int] == e);
                    assert(self@.contains(e));
                    assert(self.entries() =~= self.entries().insert(e));
                }
                return false;
            }
        }
        proof {
            // The slot at `p`, if any, comes strictly after the new one.
            lemma_slot_trichotomy(e, e);
            if p < before.len() {
                lemma_slot_trichotomy(before[p as int], e);
            }
            if before.contains(e) {
                let i = choose|i: int| 0 <= i < before.len() && before[i] == e;
                assert(!slot_lt(before[i], e));
                if i > p {
                    assert(slot_lt(before[p as int], before[i]));
                }
            }
        }
        self.slots.insert(p, Slot { hash, node });
        proof {
            let after = self@;
            assert(after =~= before.insert(p as int, e));
            assert forall|i: int, j: int| 0 <= i < j < after.len() implies slot_lt(
                #[trigger] after[i],
                #[trigger] after[j],
            ) by {
                if j < p {
                    assert(slot_lt(before[i], before[j]));
                } else if j == p {
                    assert(slot_lt(before[i], e));
                } else if i < p {
                    assert(slot_lt(before[i], before[j - 1]));
                } else if i == p {
                    assert(slot_lt(e, before[p as int]));
                    if j - 1 > p {
                        assert(slot_lt(before[p as int], before[j - 1]));
                        lemma_slot_transitive(e, before[p as int], before[j - 1]);
                    }
                } else {
                    assert(slot_lt(before[i - 1], before[j - 1]));
                }
            }
            assert(after.to_set() =~= before.to_set().insert(e)) by {
                assert forall|x: SlotView| after.to_set().contains(x) implies before.to_set().insert(
                    e,
                ).contains(x) by {
                    let i = choose|i: int| 0 <= i < after.len() && after[i] == x;
                    if i < p {
                        assert(before[i] == x);
                    } else if i > p {
                        assert(before[i - 1] == x);
                    }
                }
                assert forall|x: SlotView| before.to_set().insert(e).contains(
                    x,
                ) implies after.to_set().contains(x) by {
                    if x == e {
                        assert(after[p as int] == x);
                    } else {
                        let i = choose|i: int| 0 <= i < before.len() && before[i] == x;
                        if i < p {
                            assert(after[i] == x);
                        } else {
                            assert(after[i + 1] == x);
                        }
                    }
                }
            }
        }
        true
    }

    /// The node that owns position `digest`, if the table has any slot.
    pub fn owner_at(&self, digest: u32) -> (r: Option<Vec<u8>>)
        requires
            self.wf(),
        ensures
            opt_bytes(r) == owner_at(self@, digest),
    {
        if self.slots.len() == 0 {
            return None;
        }
        let p: usize = self.lower_bound(digest);
        if p < self.slots.len() {
            assert(self@[p as int] == self.slots@[p as int]@);
            Some(bytes_copy(self.slots[p].node.as_slice()))
        } else {
            assert(self@[0] == self.slots@[0]@);
            Some(bytes_copy(self.slots[0].node.as_slice()))
        }
    }

    /// Walks the ring from position `digest`, wrapping round once, and returns
    /// the first node of which `pred` holds.
    pub fn first_from<F: Fn(&Vec<u8>) -> bool>(&self, digest: u32, pred: F) -> (r: Option<
        Vec<u8>,
    >)
        requires
            self.wf(),
            forall|x: &Vec<u8>| call_requires(pred, (x,)),
        ensures
            match r {
                Some(n) => exists|k: int|
                    {
                        &&& 0 <= k < self@.len()
                        &&& (#[trigger] scan_order(self@, digest)[k]).1 == n@
                        &&& answers(pred, n@, true)
                        &&& forall|j: int|
                            0 <= j < k ==> answers(
                                pred,
                                (#[trigger] scan_order(self@, digest)[j]).1,
                                false,
                            )
                    },
                None => forall|j: int|
                    0 <= j < self@.len() ==> answers(
                        pred,
                        (#[trigger] scan_order(self@, digest)[j]).1,
                        false,
                    ),
            },
    {
        let n: usize = self.slots.len();
        let p: usize = self.lower_bound(digest);
        let ghost scan = scan_order(self@, digest);
        assert(scan.len() == n);
        let mut k: usize = 0;
        while k < n
            invariant
                self.wf(),
                n == self@.len(),
                n == self.slots@.len(),
                p == rank(self@, digest),
                p <= n,
                k <= n,
                scan == scan_order(self@, digest),
                scan.len() == n,
                forall|x: &Vec<u8>| call_requires(pred, (x,)),
                forall|j: int| 0 <= j < k ==> answers(pred, (#[trigger] scan[j]).1, false),
            decreases n - k,
        {
            let idx: usize = if k < n - p {
                p + k
            } else {
                k - (n - p)
            };
            assert(scan[k as int] == self@[idx as int]);
            assert(self@[idx as int] == self.slots@[idx as int]@);
            let hit: bool = pred(&self.slots[idx].node);
            assert(answers(pred, scan[k as int].1, hit)) by {
                let x = self.slots@[idx as int].node;
                assert(x@ == scan[k as int].1 && call_ensures(pred, (&x,), hit));
            }
            if hit {
                let found: Vec<u8> = bytes_copy(self.slots[idx].node.as_slice());
                assert(scan[k as int].1 == found@);
                return Some(found);
            }
            k = k + 1;
        }
        None
    }

    /// The slots in increasing order.
    pub fn to_vec(&self) -> (r: Vec<(u32, Vec<u8>)>)
        ensures
            r@.len() == self@.len(),
            forall|i: int| 0 <= i < r@.len() ==> (#[trigger] r@[i]).0 == self@[i].0 && r@[i].1@ == self@[i].1,
    {
        let mut out: Vec<(u32, Vec<u8>)> = Vec::with_capacity(self.slots.len());
        let mut i: usize = 0;
        while i < self.slots.len()
            invariant
                i <= self.slots@.len(),
                self@.len() == self.slots@.len(),
                out@.len() == i,
                forall|j: int| 0 <= j < i ==> (#[trigger] out@[j]).0 == self@[j].0 && out@[j].1@ == self@[j].1,
            decreases self.slots@.len() - i,
        {
            assert(self@[i as int] == self.slots@[i as int]@);
            out.push((self.slots[i].hash, bytes_copy(self.slots[i].node.as_slice())));
            i = i + 1;
        }
        out
    }
}

impl Clone for SlotTable {
    fn clone(&self) -> (r: SlotTable)
        ensures
            r@ == self@,
    {
        let mut slots: Vec<Slot> = Vec::with_capacity(self.slots.len());
        let mut i: usize = 0;
        while i < self.slots.len()
            invariant
                i <= self.slots@.len(),
                slots@.len() == i,
                forall|j: int| 0 <= j < i ==> (#[trigger] slots@[j])@ == self.slots@[j]@,
            decreases self.slots@.len() - i,
        {
            slots.push(
                Slot { hash: self.slots[i].hash, node: bytes_copy(self.slots[i].node.as_slice()) },
            );
            i = i + 1;
        }
        let r = SlotTable { slots };
        assert(r@ =~= self@);
        r
    }
}

} // verus!
