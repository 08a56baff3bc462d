//! The consistent-hash ring.
//!
//! Every node sits on the ring at `vnodes` positions, its virtual nodes. The
//! position of virtual node `i` of a node is the MurmurHash3 (x86, 32 bit,
//! seed 0) of the node's identifier followed by `i` as four little-endian
//! bytes. A key belongs to the node at the first position at or after the
//! hash of the key, wrapping round to the first position of the ring.

use vstd::prelude::*;
use vstd::bytes::{spec_u32_to_le_bytes, u32_to_le_bytes};
use crate::order::{bytes_copy, opt_bytes};
use crate::slots::{SlotTable, SlotView};
use crate::slots::{answers, lemma_sorted_canonical, owner_at, scan_order, sorted};

verus! {

/// The number of virtual nodes of a ring made without an explicit count.
pub const DEFAULT_VNODE_COUNT: u32 = 64;

/// The seed under which nodes and keys are hashed.
pub const HASH_SEED: u32 = 0;

/// The MurmurHash3 (x86, 32 bit) sum of `bytes` under `seed`.
pub uninterp spec fn murmur3_x86_32(bytes: Seq<u8>, seed: u32) -> u32;

/// Calls `mur3::murmurhash3_x86_32`, a pure function of the bytes and the
/// seed. The contract gives its result the name `murmur3_x86_32` and claims
/// nothing else of it.
#[verifier::external_body]
fn murmur3_32(bytes: &[u8], seed: u32) -> (h: u32)
    ensures
        h == murmur3_x86_32(bytes@, seed),
{
    mur3::murmurhash3_x86_32(bytes, seed)
}

/// The ring position of a key.
pub open spec fn key_hash(key: Seq<u8>) -> u32 {
    murmur3_x86_32(key, HASH_SEED)
}

/// The ring position of virtual node `vnode` of `node`.
pub open spec fn vnode_hash(node: Seq<u8>, vnode: u32) -> u32 {
    murmur3_x86_32(node + spec_u32_to_le_bytes(vnode), HASH_SEED)
}

/// The slots that `node` occupies with its first `vnodes` virtual nodes.
pub open spec fn node_slots(node: Seq<u8>, vnodes: u32) -> Set<SlotView> {
    Set::new(
        |e: SlotView| e.1 == node && exists|i: u32| i < vnodes && e.0 == #[trigger] vnode_hash(node, i),
    )
}

/// The slots of a ring that holds `nodes`, each with `vnodes` virtual nodes.
pub open spec fn ring_slots(nodes: Set<Seq<u8>>, vnodes: u32) -> Set<SlotView> {
    Set::new(|e: SlotView| nodes.contains(e.1) && node_slots(e.1, vnodes).contains(e))
}

/// A consistent-hash ring over nodes named by byte strings.
pub struct HashRing {
    vnodes: u32,
    table: SlotTable,
    nodes: Ghost<Set<Seq<u8>>>,
}

impl View for HashRing {
    type V = Seq<SlotView>;

    /// The slots of the ring in increasing order.
    closed spec fn view(&self) -> Seq<SlotView> {
        self.table@
    }
}

impl HashRing {
    /// The number of virtual nodes per node.
    pub closed spec fn vnodes(&self) -> u32 {
        self.vnodes
    }

    /// The nodes that were added to the ring.
    pub closed spec fn nodes(&self) -> Set<Seq<u8>> {
        self.nodes@
    }

    /// The ring holds, in increasing order, exactly one slot for every
    /// virtual node of every node that was added.
    pub open spec fn wf(&self) -> bool {
        &&& sorted(self@)
        &&& self@.to_set() == ring_slots(self.nodes(), self.vnodes())
    }

    /// The owner of `key`.
    pub open spec fn owner(&self, key: Seq<u8>) -> Option<Seq<u8>> {
        owner_at(self@, key_hash(key))
    }

    /// Creates an empty ring with `vnodes` virtual nodes per node.
    pub fn new(vnodes: u32) -> (ring: HashRing)
        ensures
            ring.wf(),
            ring.vnodes() == vnodes,
            ring.nodes() == Set::<Seq<u8>>::empty(),
            ring@ == Seq::<SlotView>::empty(),
    {
        let ring = HashRing { vnodes, table: SlotTable::new(), nodes: Ghost(Set::empty()) };
        assert(ring@.to_set() =~= ring_slots(ring.nodes(), ring.vnodes()));
        ring
    }

    /// Creates a ring with the default number of virtual nodes that holds
    /// `nodes`.
    pub fn from_nodes(nodes: &Vec<Vec<u8>>) -> (ring: HashRing)
        ensures
            ring.wf(),
            ring.vnodes() == DEFAULT_VNODE_COUNT,
            ring.nodes() == nodes@.map_values(|n: Vec<u8>| n@).to_set(),
    {
        let mut ring = HashRing::new(DEFAULT_VNODE_COUNT);
        let ghost ids = nodes@.map_values(|n: Vec<u8>| n@);
        let mut i: usize = 0;
        while i < nodes.len()
            invariant
                i <= nodes@.len(),
                ids == nodes@.map_values(|n: Vec<u8>| n@),
                ring.wf(),
                ring.vnodes() == DEFAULT_VNODE_COUNT,
                ring.nodes() == ids.subrange(0, i as int).to_set(),
            decreases nodes@.len() - i,
        {
            ring.add_node(bytes_copy(nodes[i].as_slice()));
            proof {
                assert(ids.subrange(0, i + 1) =~= ids.subrange(0, i as int).push(ids[i as int]));
                ids.subrange(0, i as int).lemma_push_to_set_commute(ids[i as int]);
            }
            i = i + 1;
        }
        assert(ids.subrange(0, i as int) =~= ids);
        ring
    }

    /// The number of virtual nodes per node.
    pub fn vnode_count(&self) -> (n: u32)
        ensures
            n == self.vnodes(),
    {
        self.vnodes
    }

    /// The number of slots on the ring.
    pub fn len(&self) -> (n: usize)
        ensures
            n == self@.len(),
    {
        self.table.len()
    }

    /// The node responsible for `key`.
    pub fn lookup(&self, key: &[u8]) -> (r: Option<Vec<u8>>)
        requires
            self.wf(),
        ensures
            opt_bytes(r) == self.owner(key@),
    {
        self.lookup_at(hash_key(key))
    }

    /// The node responsible for ring position `digest`: the smallest node of
    /// the first occupied position at or after `digest`, or of the first
    /// position of the ring where there is none.
    pub fn lookup_at(&self, digest: u32) -> (r: Option<Vec<u8>>)
        requires
            self.wf(),
        ensures
            opt_bytes(r) == owner_at(self@, digest),
    {
        self.table.owner_at(digest)
    }

    /// The first node responsible for `key` of which `predicate` holds.
    pub fn lookup_until<F: Fn(&Vec<u8>) -> bool>(&self, key: &[u8], predicate: F) -> (r: Option<
        Vec<u8>,
    >)
        requires
            self.wf(),
            forall|x: &Vec<u8>| call_requires(predicate, (x,)),
        ensures
            match r {
                Some(n) => exists|k: int|
                    {
                        &&& 0 <= k < self@.len()
                        &&& (#[trigger] scan_order(self@, key_hash(key@))[k]).1 == n@
                        &&& answers(predicate, n@, true)
                        &&& forall|j: int|
                            0 <= j < k ==> answers(
                                predicate,
                                (#[trigger] scan_order(self@, key_hash(key@))[j]).1,
                                false,
                            )
                    },
                None => forall|j: int|
                    0 <= j < self@.len() ==> answers(
                        predicate,
                        (#[trigger] scan_order(self@, key_hash(key@))[j]).1,
                        false,
                    ),
            },
    {
        self.lookup_until_at(hash_key(key), predicate)
    }

    /// The first node of which `predicate` holds on a walk round the ring
    /// that starts at position `digest`.
    pub fn lookup_until_at<F: Fn(&Vec<u8>) -> bool>(&self, digest: u32, predicate: F) -> (r:
        Option<Vec<u8>>)
        requires
            self.wf(),
            forall|x: &Vec<u8>| call_requires(predicate, (x,)),
        ensures
            match r {
                Some(n) => exists|k: int|
                    {
                        &&& 0 <= k < self@.len()
                        &&& (#[trigger] scan_order(self@, digest)[k]).1 == n@
                        &&& answers(predicate, n@, true)
                        &&& forall|j: int|
                            0 <= j < k ==> answers(
                                predicate,
                                (#[trigger] scan_order(self@, digest)[j]).1,
                                false,
                            )
                    },
                None => forall|j: int|
                    0 <= j < self@.len() ==> answers(
                        predicate,
                        (#[trigger] scan_order(self@, digest)[j]).1,
                        false,
                    ),
            },
    {
        self.table.first_from(digest, predicate)
    }

    /// The ring positions of the virtual nodes of `node`, by virtual node.
    pub fn list_vnodes(&self, node: &[u8]) -> (r: Vec<u32>)
        requires
            self.wf(),
        ensures
            r@.len() == self.vnodes(),
            forall|i: int| 0 <= i < r@.len() ==> #[trigger] r@[i] == vnode_hash(node@, i as u32),
            self.nodes().contains(node@) ==> forall|i: int|
                0 <= i < r@.len() ==> self@.contains((#[trigger] r@[i], node@)),
    {
        let mut out: Vec<u32> = Vec::new();
        let mut i: u32 = 0;
        while i < self.vnodes
            invariant
                i <= self.vnodes(),
                self.vnodes == self.vnodes(),
                out@.len() == i,
                forall|j: int| 0 <= j < out@.len() ==> #[trigger] out@[j] == vnode_hash(node@, j as u32),
            decreases self.vnodes - i,
        {
            out.push(hash_node(node, i));
            i = i + 1;
        }
        proof {
            if self.nodes().contains(node@) {
                assert forall|i: int| 0 <= i < out@.len() implies self@.contains(
                    (#[trigger] out@[i], node@),
                ) by {
                    let e: SlotView = (out@[i], node@);
                    assert(e.0 == vnode_hash(node@, i as u32));
                    assert(node_slots(node@, self.vnodes()).contains(e));
                    assert(ring_slots(self.nodes(), self.vnodes()).contains(e));
                    assert(self@.to_set().contains(e));
                }
            }
        }
        out
    }

    /// Adds `node` to the ring, at each of its virtual nodes.
    pub fn add_node(&mut self, node: Vec<u8>)
        requires
            old(self).wf(),
        ensures
            final(self).wf(),
            final(self).vnodes() == old(self).vnodes(),
            final(self).nodes() == old(self).nodes().insert(node@),
            final(self)@.to_set() == old(self)@.to_set().union(
                node_slots(node@, old(self).vnodes()),
            ),
    {
        let ghost before = self@.to_set();
        let ghost id = node@;
        let mut i: u32 = 0;
        assert(before =~= before.union(node_slots(id, 0)));
        while i < self.vnodes
            invariant
                i <= self.vnodes,
                id == node@,
                self.vnodes == old(self).vnodes,
                self.nodes == old(self).nodes,
                before == old(self)@.to_set(),
                self.table.wf(),
                self.table.entries() == before.union(node_slots(id, i)),
            decreases self.vnodes - i,
        {
            let hash: u32 = hash_node(node.as_slice(), i);
            let ghost held = self.table.entries();
            self.table.insert(hash, bytes_copy(node.as_slice()));
            proof {
                let e: SlotView = (hash, id);
                let next: u32 = (i + 1) as u32;
                assert(held.insert(e) =~= before.union(node_slots(id, next))) by {
                    assert forall|x: SlotView| node_slots(id, next).contains(x) implies x == e
                        || node_slots(id, i).contains(x) by {
                        let j = choose|j: u32| j < next && x.0 == #[trigger] vnode_hash(id, j);
                        if j < i {
                            assert(x.0 == vnode_hash(id, j));
                        }
                    }
                    assert forall|x: SlotView| node_slots(id, i).contains(x) implies node_slots(
                        id,
                        next,
                    ).contains(x) by {
                        let j = choose|j: u32| j < i && x.0 == #[trigger] vnode_hash(id, j);
                        assert(j < next && x.0 == vnode_hash(id, j));
                    }
                    assert(e.0 == vnode_hash(id, i));
                    assert(node_slots(id, next).contains(e));
                }
            }
            i = i + 1;
        }
        self.nodes = Ghost(self.nodes@.insert(node@));
        proof {
            let vn = self.vnodes;
            let grown = old(self).nodes().insert(id);
            assert(before.union(node_slots(id, vn)) =~= ring_slots(grown, vn)) by {
                assert forall|x: SlotView| ring_slots(grown, vn).contains(x) implies before.union(
                    node_slots(id, vn),
                ).contains(x) by {
                    if x.1 != id {
                        assert(ring_slots(old(self).nodes(), vn).contains(x));
                    }
                }
                assert forall|x: SlotView| before.union(node_slots(id, vn)).contains(
                    x,
                ) implies ring_slots(grown, vn).contains(x) by {
                    if before.contains(x) {
                        assert(ring_slots(old(self).nodes(), vn).contains(x));
                    }
                }
            }
        }
    }

    /// The slots of the ring in increasing order, each with its node.
    pub fn slots(&self) -> (r: Vec<(u32, Vec<u8>)>)
        ensures
            r@.len() == self@.len(),
            forall|i: int| 0 <= i < r@.len() ==> (#[trigger] r@[i]).0 == self@[i].0 && r@[i].1@ == self@[i].1,
    {
        self.table.to_vec()
    }
}

impl Clone for HashRing {
    fn clone(&self) -> (r: HashRing)
        ensures
            r@ == self@,
            r.vnodes() == self.vnodes(),
            r.nodes() == self.nodes(),
            self.wf() ==> r.wf(),
    {
        HashRing { vnodes: self.vnodes, table: self.table.clone(), nodes: self.nodes }
    }
}

impl Default for HashRing {
    /// An empty ring with the default number of virtual nodes.
    fn default() -> (ring: HashRing)
        ensures
            ring.wf(),
            ring.vnodes() == DEFAULT_VNODE_COUNT,
            ring.nodes() == Set::<Seq<u8>>::empty(),
    {
        HashRing::new(DEFAULT_VNODE_COUNT)
    }
}

/// The ring position of `key`.
pub(crate) fn hash_key(key: &[u8]) -> (h: u32)
    ensures
        h == key_hash(key@),
{
    murmur3_32(key, HASH_SEED)
}

/// The ring position of virtual node `vnode` of `node`.
fn hash_node(node: &[u8], vnode: u32) -> (h: u32)
    ensures
        h == vnode_hash(node@, vnode),
{
    let mut buff: Vec<u8> = bytes_copy(node);
    let mut tail: Vec<u8> = u32_to_le_bytes(vnode);
    buff.append(&mut tail);
    murmur3_32(buff.as_slice(), HASH_SEED)
}

/// Two rings with the same number of virtual nodes to which the same set of
/// nodes was added hold the same slots, whatever the order in which the nodes
/// came, and give every key to the same owner.
pub proof fn lemma_ring_determinism(a: HashRing, b: HashRing, key: Seq<u8>)
    requires
        a.wf(),
        b.wf(),
        a.vnodes() == b.vnodes(),
        a.nodes() == b.nodes(),
    ensures
        a@ == b@,
        a.owner(key) == b.owner(key),
{
    lemma_sorted_canonical(a@, b@);
}

} // verus!
