//! The consistent-hash ring: conhash's `ConsistentHash`, held behind a small
//! set of trusted wrappers, with a model of its contents over plain values.
use vstd::prelude::*;
use conhash::{ConsistentHash, Node};

verus! {

/// One member of the ring: the name its virtual positions are derived from,
/// and the slot of the backend it stands for in the engine's table.
#[derive(Clone)]
pub struct RingNode {
    pub name: String,
    pub slot: usize,
}

impl Node for RingNode {
    fn name(&self) -> String {
        self.name.clone()
    }
}

/// The ring. conhash's type is generic over a trait of its own, which Verus
/// cannot take as a bound, so the value is held in a field hidden from Verus and
/// described through `ring_positions` and `ring_replicas`.
#[verifier::external_body]
pub struct Ring {
    inner: ConsistentHash<RingNode>,
}

/// What the ring's position map holds: each virtual position (a digest) and
/// the name and slot of the node placed there.
pub uninterp spec fn ring_positions(r: Ring) -> Map<Seq<u8>, (Seq<char>, usize)>;

/// What the ring's replica table holds: each member's name and the number of
/// virtual positions it was added with.
pub uninterp spec fn ring_replicas(r: Ring) -> Map<Seq<char>, nat>;

/// The digests conhash computes for the replicas `0..replicas` of the node
/// `name` (the MD5 digest of `"name:i"`).
pub uninterp spec fn replica_digests(name: Seq<char>, replicas: nat) -> Set<Seq<u8>>;

/// The digest conhash computes for a lookup key (its MD5 digest).
pub uninterp spec fn key_digest(key: Seq<u8>) -> Seq<u8>;

/// The ring with no member.
pub open spec fn empty_model() -> RingModel {
    RingModel { positions: Map::empty(), replicas: Map::empty() }
}

/// The ring as a mathematical value.
pub struct RingModel {
    pub positions: Map<Seq<u8>, (Seq<char>, usize)>,
    pub replicas: Map<Seq<char>, nat>,
}

pub open spec fn model(r: Ring) -> RingModel {
    RingModel { positions: ring_positions(r), replicas: ring_replicas(r) }
}

/// The virtual positions of member `name`, or none where it is absent.
pub open spec fn arcs_of(m: RingModel, name: Seq<char>) -> Set<Seq<u8>> {
    if m.replicas.contains_key(name) {
        replica_digests(name, m.replicas[name])
    } else {
        Set::empty()
    }
}

/// The ring after removing member `name`: its replica entry and every
/// position derived from it go.
pub open spec fn model_remove(m: RingModel, name: Seq<char>) -> RingModel {
    if m.replicas.contains_key(name) {
        RingModel {
            positions: m.positions.remove_keys(arcs_of(m, name)),
            replicas: m.replicas.remove(name),
        }
    } else {
        m
    }
}

/// The ring after adding `replicas` positions for member `(name, slot)`:
/// any earlier entry of that name is removed first.
pub open spec fn model_add(m: RingModel, name: Seq<char>, slot: usize, replicas: nat) -> RingModel {
    let base = model_remove(m, name);
    RingModel {
        positions: base.positions.union_prefer_right(
            Map::new(|k: Seq<u8>| replica_digests(name, replicas).contains(k), |k: Seq<u8>| (name, slot)),
        ),
        replicas: base.replicas.insert(name, replicas),
    }
}

/// Byte strings in lexicographic order, as std orders `Vec<u8>`.
pub open spec fn lex_le(a: Seq<u8>, b: Seq<u8>) -> bool
    decreases a.len(),
{
    if a.len() == 0 {
        true
    } else if b.len() == 0 {
        false
    } else if a[0] != b[0] {
        a[0] < b[0]
    } else {
        lex_le(a.drop_first(), b.drop_first())
    }
}

/// `k` is the position a lookup of digest `h` lands on: the least position at
/// or after `h`, or, where there is none, the least position of all.
pub open spec fn selects(pos: Set<Seq<u8>>, h: Seq<u8>, k: Seq<u8>) -> bool {
    pos.contains(k) && (
        (lex_le(h, k) && forall|j: Seq<u8>| pos.contains(j) && lex_le(h, j) ==> lex_le(k, j))
        || ((forall|j: Seq<u8>| pos.contains(j) ==> !lex_le(h, j))
            && forall|j: Seq<u8>| pos.contains(j) ==> lex_le(k, j))
    )
}

/// The slot a lookup of digest `h` returns on positions `p`.
pub open spec fn route(p: Map<Seq<u8>, (Seq<char>, usize)>, h: Seq<u8>) -> Option<usize> {
    if exists|k: Seq<u8>| selects(p.dom(), h, k) {
        Some(p[choose|k: Seq<u8>| selects(p.dom(), h, k)].1)
    } else {
        None
    }
}

/// The slot that `key` is routed to on ring `m`.
pub open spec fn lookup(m: RingModel, key: Seq<u8>) -> Option<usize> {
    route(m.positions, key_digest(key))
}

/// Relies on conhash::ConsistentHash::new: a ring with no members.
#[verifier::external_body]
fn conhash_new() -> (r: Ring)
    ensures
        ring_positions(r) =~= Map::empty(),
        ring_replicas(r) =~= Map::empty(),
{
    Ring { inner: ConsistentHash::new() }
}

/// Relies on conhash::ConsistentHash::add: removes the node's earlier
/// positions (by its name), records its replica count and inserts the node at
/// the digest of `"name:i"` for each replica `i`.
#[verifier::external_body]
fn conhash_add(ring: &mut Ring, node: &RingNode, replicas: usize)
    ensures
        ring_positions(*final(ring)) == model_add(model(*old(ring)), node.name@, node.slot, replicas as nat).positions,
        ring_replicas(*final(ring)) == model_add(model(*old(ring)), node.name@, node.slot, replicas as nat).replicas,
        forall|k: Seq<u8>| #[trigger] replica_digests(node.name@, replicas as nat).contains(k)
            ==> ring_positions(*final(ring))[k] == (node.name@, node.slot),
        replicas != 0 ==> !(ring_positions(*final(ring)).dom().intersect(
            replica_digests(node.name@, replicas as nat)) =~= Set::empty()),
{
    ring.inner.add(node, replicas)
}

/// Relies on conhash::ConsistentHash::remove: where the node's name has a
/// replica count, drops it and the positions derived from it; else nothing.
#[verifier::external_body]
fn conhash_remove(ring: &mut Ring, node: &RingNode)
    ensures
        ring_positions(*final(ring)) == model_remove(model(*old(ring)), node.name@).positions,
        ring_replicas(*final(ring)) == model_remove(model(*old(ring)), node.name@).replicas,
{
    ring.inner.remove(node)
}

/// Relies on conhash::ConsistentHash::get: `None` on an empty ring, else the
/// node at the first position at or after the key's digest, wrapping round to
/// the first position.
#[verifier::external_body]
fn conhash_get(ring: &Ring, key: &[u8]) -> (r: Option<usize>)
    ensures
        r == route(ring_positions(*ring), key_digest(key@)),
        r is None <==> ring_positions(*ring).dom() =~= Set::empty(),
{
    ring.inner.get(key).map(|n| n.slot)
}

impl Ring {
    pub open spec fn view(&self) -> RingModel {
        model(*self)
    }

    /// An empty ring.
    pub fn new() -> (r: Ring)
        ensures
            r@ == empty_model(),
    {
        let r = conhash_new();
        assert(r@.positions =~= empty_model().positions);
        assert(r@.replicas =~= empty_model().replicas);
        r
    }

    /// Adds `node` with `replicas` virtual positions, replacing any earlier
    /// entry of the same name.
    pub fn add(&mut self, node: &RingNode, replicas: usize)
        ensures
            final(self)@ == model_add(old(self)@, node.name@, node.slot, replicas as nat),
            replicas != 0 ==> exists|k: Seq<u8>| #[trigger] replica_digests(node.name@, replicas as nat).contains(k)
                && final(self)@.positions.contains_key(k),
    {
        conhash_add(self, node, replicas);
        proof {
            if replicas != 0 {
                let both = self@.positions.dom().intersect(replica_digests(node.name@, replicas as nat));
                assert(!(both =~= Set::empty()));
                let k = choose|k: Seq<u8>| both.contains(k);
                assert(both.contains(k));
            }
        }
    }

    /// Removes every virtual position of `node`; nothing where it is absent.
    pub fn remove(&mut self, node: &RingNode)
        ensures
            final(self)@ == model_remove(old(self)@, node.name@),
    {
        conhash_remove(self, node);
    }

    /// The slot that `key` is routed to, `None` on an empty ring.
    pub fn get(&self, key: &[u8]) -> (r: Option<usize>)
        ensures
            r == lookup(self@, key@),
            r is None <==> self@.positions.dom() =~= Set::empty(),
    {
        conhash_get(self, key)
    }
}

proof fn lemma_lex_antisymmetric(a: Seq<u8>, b: Seq<u8>)
    requires
        lex_le(a, b),
        lex_le(b, a),
    ensures
        a == b,
    decreases a.len(),
{
    if a.len() > 0 && b.len() > 0 && a[0] == b[0] {
        lemma_lex_antisymmetric(a.drop_first(), b.drop_first());
        assert(a =~= seq![a[0]] + a.drop_first());
        assert(b =~= seq![b[0]] + b.drop_first());
    }
}

proof fn lemma_selects_unique(pos: Set<Seq<u8>>, h: Seq<u8>, k1: Seq<u8>, k2: Seq<u8>)
    requires
        selects(pos, h, k1),
        selects(pos, h, k2),
    ensures
        k1 == k2,
{
    if lex_le(h, k1) && lex_le(h, k2) {
        lemma_lex_antisymmetric(k1, k2);
    } else if !lex_le(h, k1) && !lex_le(h, k2) {
        lemma_lex_antisymmetric(k1, k2);
    }
}

/// Looking up the same key twice on a ring that did not change gives the same
/// slot.
pub proof fn lemma_lookup_stable(m: RingModel, key: Seq<u8>, first: Option<usize>, second: Option<usize>)
    requires
        first == lookup(m, key),
        second == lookup(m, key),
    ensures
        first == second,
{
}

/// Adding a member that is absent and whose positions are all free, then
/// removing it, gives back the ring as it was.
pub proof fn lemma_add_then_remove(m: RingModel, name: Seq<char>, slot: usize, replicas: nat)
    requires
        !m.replicas.contains_key(name),
        m.positions.dom().disjoint(replica_digests(name, replicas)),
    ensures
        model_remove(model_add(m, name, slot, replicas), name) == m,
{
    let a = model_add(m, name, slot, replicas);
    let r = model_remove(a, name);
    assert(a.replicas.contains_key(name));
    assert(r.replicas =~= m.replicas);
    assert(r.positions =~= m.positions);
}

/// Adding the same member twice is the same as adding it once.
pub proof fn lemma_add_idempotent(m: RingModel, name: Seq<char>, slot: usize, replicas: nat)
    ensures
        model_add(model_add(m, name, slot, replicas), name, slot, replicas)
            == model_add(m, name, slot, replicas),
{
    let a = model_add(m, name, slot, replicas);
    let b = model_add(a, name, slot, replicas);
    assert(b.replicas =~= a.replicas);
    assert(b.positions =~= a.positions);
}

/// Removing the same member twice is the same as removing it once.
pub proof fn lemma_remove_idempotent(m: RingModel, name: Seq<char>)
    ensures
        model_remove(model_remove(m, name), name) == model_remove(m, name),
{
}

/// Removing a member moves only the keys that landed on one of its own
/// positions: a key whose position belongs to no arc of the removed member
/// keeps its slot.
pub proof fn lemma_remove_keeps_other_keys(m: RingModel, name: Seq<char>, key: Seq<u8>, k: Seq<u8>)
    requires
        selects(m.positions.dom(), key_digest(key), k),
        !arcs_of(m, name).contains(k),
    ensures
        lookup(model_remove(m, name), key) == lookup(m, key),
        lookup(m, key) == Some(m.positions[k].1),
{
    let h = key_digest(key);
    let r = model_remove(m, name);
    let pos = m.positions.dom();
    let pos2 = r.positions.dom();
    let c = choose|j: Seq<u8>| selects(pos, h, j);
    lemma_selects_unique(pos, h, k, c);
    assert(pos2.subset_of(pos));
    assert(pos2.contains(k));
    assert(selects(pos2, h, k));
    let c2 = choose|j: Seq<u8>| selects(pos2, h, j);
    lemma_selects_unique(pos2, h, k, c2);
    assert(r.positions[k] == m.positions[k]);
}

} // verus!
