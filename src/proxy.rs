//! The dispatch engine: it owns the ring and the probe records, routes
//! datagrams and applies the health policy on each tick. Sockets and the event
//! loop belong to the caller, which hands in what they reported.
use vstd::prelude::*;
use vstd::slice::{slice_subrange, slice_to_vec};
use crate::health::{healthy_prefix, starts_with, ready_next, reply_next, Connection, ProbeAction, ProbeState, ReadOutcome};
use crate::node::ServerNode;
use crate::ring::{empty_model, lookup, model_add, model_remove, replica_digests, Ring, RingModel, RingNode};

verus! {

/// Virtual positions per backend.
pub const REPLICAS: usize = 20;
/// Failures older than this many milliseconds are forgotten.
pub const COOL_DOWN_MS: u64 = 30000;
/// Most probe records one engine holds.
pub const MAX_CONNS: usize = 1024;
/// The token of the ingress socket.
pub const SERVER_TOKEN: usize = 0;
/// The token of the periodic tick.
pub const TICK_TOKEN: usize = 1025;

/// The byte that ends a datagram's routing key.
pub const KEY_END: u8 = 58;

/// The index of the first `':'` in `s`, if any.
pub open spec fn first_colon(s: Seq<u8>) -> Option<int> {
    if exists|i: int| 0 <= i < s.len() && s[i] == KEY_END {
        Some(choose|i: int| 0 <= i < s.len() && s[i] == KEY_END && forall|j: int| 0 <= j < i ==> s[j] != KEY_END)
    } else {
        None
    }
}

/// The routing key of a datagram: the bytes strictly before its first `':'`.
pub open spec fn routing_key(s: Seq<u8>) -> Option<Seq<u8>> {
    match first_colon(s) {
        Some(i) => Some(s.take(i)),
        None => None,
    }
}

/// The position of the first `':'` in `packet`.
pub fn key_end(packet: &[u8]) -> (r: Option<usize>)
    ensures
        r == (match first_colon(packet@) { Some(i) => Some(i as usize), None => None::<usize> }),
        r matches Some(i) ==> i < packet@.len() && packet@[i as int] == KEY_END
            && forall|j: int| 0 <= j < i ==> packet@[j] != KEY_END,
        r is None ==> forall|j: int| 0 <= j < packet@.len() ==> packet@[j] != KEY_END,
{
    let mut i: usize = 0;
    while i < packet.len()
        invariant
            i <= packet@.len(),
            forall|j: int| 0 <= j < i ==> packet@[j] != KEY_END,
        decreases packet@.len() - i,
    {
        if packet[i] == KEY_END {
            let ghost s = packet@;
            assert(exists|k: int| 0 <= k < s.len() && s[k] == KEY_END);
            let ghost c = choose|k: int| 0 <= k < s.len() && s[k] == KEY_END && forall|j: int| 0 <= j < k ==> s[j] != KEY_END;
            assert(0 <= i < s.len() && s[i as int] == KEY_END && forall|j: int| 0 <= j < i ==> s[j] != KEY_END);
            assert(c == i) by {
                if c < i {
                    assert(s[c] != KEY_END);
                } else if c > i {
                    assert(s[i as int] != KEY_END);
                }
            }
            return Some(i);
        }
        i = i + 1;
    }
    None
}

/// What becomes of one received datagram.
pub enum Dispatch {
    /// Send `payload` to the backend in `slot`.
    Forward { slot: usize, payload: Vec<u8> },
    /// The datagram holds no `':'`.
    Malformed,
    /// The ring is empty.
    NoBackend,
}

/// Where the event loop's token points.
#[derive(Clone, Copy, Debug, PartialEq, Eq, Structural)]
pub enum EventTarget {
    Ingress,
    Tick,
    Probe(usize),
    Unknown,
}

/// Whether failures recorded at `last_reset` have aged out at `now`.
pub open spec fn cooled(last_reset: u64, now: u64) -> bool {
    now > last_reset && now - last_reset > COOL_DOWN_MS
}

/// Membership after a tick: a backend with more than two failures is evicted;
/// else an absent one with a success since its eviction is reinstated.
pub open spec fn tick_member(c: Connection, member: bool) -> bool {
    if c.failure > 2 { false } else { member || c.success > 0 }
}

/// Successes after a tick: spent by a reinstatement, and cleared by an
/// eviction, so that only a success after it brings the backend back.
pub open spec fn tick_success(c: Connection, member: bool) -> u32 {
    if c.failure > 2 || (!member && c.success > 0) { 0 } else { c.success }
}

/// Failures after a tick: cleared by an eviction or once they have aged out.
pub open spec fn tick_failure(c: Connection, now: u64) -> u32 {
    if c.failure > 2 || cooled(c.last_reset, now) { 0 } else { c.failure }
}

pub open spec fn tick_last_reset(c: Connection, now: u64) -> u64 {
    if c.failure > 2 || cooled(c.last_reset, now) { now } else { c.last_reset }
}

/// The probe on a tick: a Closed record reconnects, a Writing one sends its
/// probe and waits for the reply.
pub open spec fn tick_state(s: ProbeState) -> ProbeState {
    if s == ProbeState::Closed {
        ProbeState::Connecting
    } else if s == ProbeState::Writing {
        ProbeState::Reading
    } else {
        s
    }
}

pub open spec fn tick_action(s: ProbeState) -> ProbeAction {
    if s == ProbeState::Closed {
        ProbeAction::Reconnect
    } else if s == ProbeState::Writing {
        ProbeAction::SendProbe
    } else {
        ProbeAction::Idle
    }
}

/// The record after a tick.
pub open spec fn ticked(c: Connection, member: bool, now: u64) -> Connection {
    Connection {
        token: c.token,
        state: tick_state(c.state),
        failure: tick_failure(c, now),
        success: tick_success(c, member),
        last_reset: tick_last_reset(c, now),
    }
}

/// `after` is `before` after one tick at `now`: each record and its ring
/// membership as the health policy says, the backends as they were.
pub open spec fn tick_step(before: Proxy, after: Proxy, now: u64) -> bool {
    &&& after.nodes == before.nodes
    &&& after.names == before.names
    &&& after.check_interval == before.check_interval
    &&& after.len() == before.len()
    &&& forall|i: int| 0 <= i < before.len() ==> {
        &&& #[trigger] after.conns@[i] == ticked(before.conns@[i], before.members@[i], now)
        &&& after.members@[i] == tick_member(before.conns@[i], before.members@[i])
    }
    &&& after.ring@ == tick_ring(before, before.len())
}

/// The ring after the tick's policy for record `j` of `p`, applied to `m`:
/// an absent record with a success is added with `REPLICAS` positions, then a
/// record with more than two failures is removed.
pub open spec fn tick_ring_one(m: RingModel, p: Proxy, j: int) -> RingModel {
    let c = p.conns@[j];
    let name = p.name_at(j);
    let m1 = if c.success > 0 && !p.members@[j] {
        model_add(m, name, j as usize, REPLICAS as nat)
    } else {
        m
    };
    if c.failure > 2 { model_remove(m1, name) } else { m1 }
}

/// The ring after the tick's policy for the first `n` records of `p`, in order.
pub open spec fn tick_ring(p: Proxy, n: nat) -> RingModel
    decreases n,
{
    if n == 0 {
        p.ring@
    } else {
        tick_ring_one(tick_ring(p, (n - 1) as nat), p, n - 1)
    }
}

/// The ring built from `names`, each added in turn with `REPLICAS` positions
/// and its index as slot.
pub open spec fn build_ring(names: Seq<Seq<char>>) -> RingModel
    decreases names.len(),
{
    if names.len() == 0 {
        empty_model()
    } else {
        model_add(build_ring(names.drop_last()), names.last(), (names.len() - 1) as usize, REPLICAS as nat)
    }
}

/// `x` holds the fields of the first node of its name in `nodes`.
pub open spec fn first_of_name(nodes: Seq<ServerNode>, x: ServerNode) -> bool {
    exists|t: int| 0 <= t < nodes.len()
        && !names_of(nodes.take(t)).contains(x.name_spec())
        && x.host@ == (#[trigger] nodes[t]).host@
        && x.port == nodes[t].port
        && x.adminport == nodes[t].adminport
}

/// The names in `s`, each kept at its first occurrence.
pub open spec fn first_occurrences(s: Seq<Seq<char>>) -> Seq<Seq<char>>
    decreases s.len(),
{
    if s.len() == 0 {
        Seq::empty()
    } else {
        let p = first_occurrences(s.drop_last());
        if p.contains(s.last()) { p } else { p.push(s.last()) }
    }
}

proof fn lemma_push_contains(s: Seq<Seq<char>>, y: Seq<char>, x: Seq<char>)
    ensures
        s.push(y).contains(x) <==> (s.contains(x) || y == x),
{
    let t = s.push(y);
    if t.contains(x) {
        let k = choose|k: int| 0 <= k < t.len() && t[k] == x;
        if k < s.len() {
            assert(s[k] == x);
        }
    }
    if s.contains(x) {
        let k = choose|k: int| 0 <= k < s.len() && s[k] == x;
        assert(t[k] == x);
    }
    if y == x {
        assert(t[s.len() as int] == x);
    }
}

proof fn lemma_first_occurrences_contains(s: Seq<Seq<char>>, x: Seq<char>)
    ensures
        first_occurrences(s).contains(x) <==> s.contains(x),
    decreases s.len(),
{
    if s.len() > 0 {
        let d = s.drop_last();
        lemma_first_occurrences_contains(d, x);
        assert(s =~= d.push(s.last()));
        lemma_push_contains(d, s.last(), x);
        let p = first_occurrences(d);
        lemma_push_contains(p, s.last(), x);
        if s.last() == x && p.contains(s.last()) {
            assert(p.contains(x));
        }
    }
}

pub open spec fn names_of(nodes: Seq<ServerNode>) -> Seq<Seq<char>> {
    nodes.map_values(|n: ServerNode| n.name_spec())
}

/// The engine of one worker.
pub struct Proxy {
    pub ring: Ring,
    /// The backends, one per probe record, distinct by name.
    pub nodes: Vec<ServerNode>,
    /// `nodes[i].name()`, kept to address the ring.
    pub names: Vec<String>,
    pub conns: Vec<Connection>,
    /// Whether `nodes[i]` is on the ring.
    pub members: Vec<bool>,
    /// The tick period, in milliseconds.
    pub check_interval: u64,
}

impl Proxy {
    pub open spec fn len(&self) -> nat {
        self.conns@.len()
    }

    pub open spec fn name_at(&self, i: int) -> Seq<char> {
        self.names@[i]@
    }

    pub open spec fn wf(&self) -> bool {
        &&& self.nodes@.len() == self.len()
        &&& self.names@.len() == self.len()
        &&& self.members@.len() == self.len()
        &&& self.len() <= MAX_CONNS
        &&& forall|i: int| 0 <= i < self.len() ==> #[trigger] self.names@[i]@ == self.nodes@[i].name_spec()
        &&& forall|i: int| 0 <= i < self.len() ==> #[trigger] self.conns@[i].token == i + 1
        &&& forall|i: int, j: int| 0 <= i < self.len() && 0 <= j < self.len() && i != j
                ==> #[trigger] self.name_at(i) != #[trigger] self.name_at(j)
        &&& forall|i: int| 0 <= i < self.len()
                ==> #[trigger] self.members@[i] == self.ring@.replicas.contains_key(self.name_at(i))
        &&& forall|i: int| 0 <= i < self.len() ==> #[trigger] self.names_view()[i] == self.name_at(i)
        &&& forall|i: int| 0 <= i < self.len() && #[trigger] self.members@[i]
                ==> self.ring@.replicas[self.name_at(i)] == REPLICAS as nat
        &&& forall|k: Seq<u8>| #[trigger] self.ring@.positions.contains_key(k)
                ==> self.ring@.positions[k].1 < self.len()
                    && self.name_at(self.ring@.positions[k].1 as int) == self.ring@.positions[k].0
                    && self.members@[self.ring@.positions[k].1 as int]
                    && replica_digests(self.ring@.positions[k].0, REPLICAS as nat).contains(k)
    }

    pub open spec fn names_view(&self) -> Seq<Seq<char>> {
        self.names@.map_values(|s: String| s@)
    }

    /// Whether `name` is already in the table.
    fn has_name(&self, name: &String) -> (r: bool)
        ensures
            r == self.names_view().contains(name@),
    {
        let mut j: usize = 0;
        while j < self.names.len()
            invariant
                j <= self.names@.len(),
                forall|k: int| 0 <= k < j ==> self.names@[k]@ != name@,
            decreases self.names@.len() - j,
        {
            if self.names[j] == *name {
                assert(self.names_view()[j as int] == name@);
                return true;
            }
            j = j + 1;
        }
        proof {
            if self.names_view().contains(name@) {
                let k = choose|k: int| 0 <= k < self.names_view().len() && self.names_view()[k] == name@;
                assert(self.names@[k]@ == name@);
            }
        }
        false
    }

    /// An engine with one probe record per backend of `nodes` (the first of
    /// each name; a later one of the same name is the same backend), each on
    /// the ring with `REPLICAS` positions and each probe connecting.
    pub fn new(check_interval: u64, nodes: &Vec<ServerNode>, now: u64) -> (r: Proxy)
        requires
            nodes@.len() <= MAX_CONNS,
        ensures
            r.wf(),
            r.check_interval == check_interval,
            r.names_view() == first_occurrences(names_of(nodes@)),
            r.ring@ == build_ring(r.names_view()),
            nodes@.len() > 0 ==> !(r.ring@.positions.dom() =~= Set::empty()),
            forall|i: int| 0 <= i < r.len() ==> first_of_name(nodes@, #[trigger] r.nodes@[i]),
            forall|nm: Seq<char>| r.ring@.replicas.contains_key(nm) <==> r.names_view().contains(nm),
            forall|i: int| 0 <= i < r.len() ==> #[trigger] r.members@[i],
            forall|i: int| 0 <= i < r.len() ==> r.ring@.replicas[#[trigger] r.name_at(i)] == REPLICAS as nat,
            forall|i: int| 0 <= i < r.len() ==> (#[trigger] r.conns@[i]) == (Connection {
                token: (i + 1) as usize,
                state: ProbeState::Connecting,
                failure: 0,
                success: 0,
                last_reset: now,
            }),
    {
        let mut p = Proxy {
            ring: Ring::new(),
            nodes: Vec::new(),
            names: Vec::new(),
            conns: Vec::new(),
            members: Vec::new(),
            check_interval,
        };
        assert(p.names_view() =~= first_occurrences(names_of(nodes@.take(0))));
        let mut t: usize = 0;
        while t < nodes.len()
            invariant
                p.wf(),
                t <= nodes@.len(),
                nodes@.len() <= MAX_CONNS,
                p.len() <= t,
                p.check_interval == check_interval,
                p.names_view() == first_occurrences(names_of(nodes@.take(t as int))),
                p.ring@ == build_ring(p.names_view()),
                t > 0 ==> !(p.ring@.positions.dom() =~= Set::empty()),
                forall|i: int| 0 <= i < p.len() ==> first_of_name(nodes@, #[trigger] p.nodes@[i]),
                forall|nm: Seq<char>| p.ring@.replicas.contains_key(nm) <==> p.names_view().contains(nm),
                forall|i: int| 0 <= i < p.len() ==> #[trigger] p.members@[i],
                forall|i: int| 0 <= i < p.len() ==> p.ring@.replicas[#[trigger] p.name_at(i)] == REPLICAS as nat,
                forall|i: int| 0 <= i < p.len() ==> (#[trigger] p.conns@[i]) == (Connection {
                    token: (i + 1) as usize,
                    state: ProbeState::Connecting,
                    failure: 0,
                    success: 0,
                    last_reset: now,
                }),
            decreases nodes@.len() - t,
        {
            let x = &nodes[t];
            let name = x.name();
            let ghost seen = names_of(nodes@.take(t as int));
            let ghost upto = names_of(nodes@.take(t + 1));
            proof {
                assert(upto.drop_last() =~= seen);
                assert(upto.last() == name@);
                lemma_first_occurrences_contains(seen, name@);
            }
            if !p.has_name(&name) {
                let ghost before = p;
                let i = p.conns.len();
                let mut c = Connection::new(i + 1, now);
                c.register();
                p.nodes.push(ServerNode { host: x.host.clone(), port: x.port, adminport: x.adminport });
                p.names.push(name.clone());
                p.conns.push(c);
                p.members.push(false);
                proof { p.lemma_push(before); }
                let ghost mid = p;
                let node = RingNode { name, slot: i };
                p.ring.add(&node, REPLICAS);
                p.members.set(i, true);
                proof {
                    p.lemma_ring_update(mid, i as int);
                    assert(p.names_view() =~= before.names_view().push(node.name@));
                    assert(p.names_view().drop_last() =~= before.names_view());
                    assert(build_ring(p.names_view()) == model_add(before.ring@, node.name@, i, REPLICAS as nat));
                    let k0 = choose|k: Seq<u8>| replica_digests(node.name@, REPLICAS as nat).contains(k)
                        && p.ring@.positions.contains_key(k);
                    assert(p.ring@.positions.dom().contains(k0));
                    assert forall|j: int| 0 <= j < p.len() implies first_of_name(nodes@, #[trigger] p.nodes@[j]) by {
                        if j < i {
                            assert(p.nodes@[j] == before.nodes@[j]);
                        } else {
                            assert(nodes@[t as int].name_spec() == node.name@);
                            assert(!seen.contains(node.name@));
                            assert(names_of(nodes@.take(t as int)) == seen);
                        }
                    }
                    assert(mid.names_view() =~= p.names_view());
                    assert(!before.ring@.replicas.contains_key(node.name@));
                    assert(p.ring@.replicas == before.ring@.replicas.insert(node.name@, REPLICAS as nat));
                    assert forall|nm: Seq<char>| p.ring@.replicas.contains_key(nm) <==> p.names_view().contains(nm) by {
                        if nm == node.name@ {
                            assert(p.names_view()[i as int] == nm);
                        } else if before.names_view().contains(nm) {
                            let k = choose|k: int| 0 <= k < before.names_view().len() && before.names_view()[k] == nm;
                            assert(p.names_view()[k] == nm);
                        } else if p.names_view().contains(nm) {
                            let k = choose|k: int| 0 <= k < p.names_view().len() && p.names_view()[k] == nm;
                            assert(before.names_view()[k] == nm);
                        }
                    }
                    assert forall|j: int| 0 <= j < p.len() implies p.members@[j]
                        && p.ring@.replicas[#[trigger] p.name_at(j)] == REPLICAS as nat by {
                        if j < i {
                            assert(before.members@[j]);
                            assert(p.names@[j] == before.names@[j]);
                            assert(p.name_at(j) == before.name_at(j));
                            assert(p.name_at(j) != p.name_at(i as int));
                        } else {
                            assert(p.name_at(j) == node.name@);
                        }
                    }
                }
            }
            t = t + 1;
        }
        assert(nodes@.take(nodes@.len() as int) =~= nodes@);
        p
    }

    /// Appending a record whose name is new and which is not on the ring keeps
    /// the engine well formed.
    proof fn lemma_push(self, before: Proxy)
        requires
            before.wf(),
            before.len() < MAX_CONNS,
            self.ring == before.ring,
            self.nodes@ == before.nodes@.push(self.nodes@.last()),
            self.names@ == before.names@.push(self.names@.last()),
            self.conns@ == before.conns@.push(self.conns@.last()),
            self.members@ == before.members@.push(false),
            self.names@.last()@ == self.nodes@.last().name_spec(),
            self.conns@.last().token == before.len() + 1,
            !before.names_view().contains(self.names@.last()@),
            forall|nm: Seq<char>| before.ring@.replicas.contains_key(nm) ==> before.names_view().contains(nm),
        ensures
            self.wf(),
    {
        let n = before.len() as int;
        assert forall|j: int| 0 <= j < self.len() implies #[trigger] self.names@[j]@ == self.nodes@[j].name_spec() by {
            if j < n {
                assert(before.names@[j]@ == before.nodes@[j].name_spec());
            }
        }
        assert forall|j: int| 0 <= j < self.len() implies #[trigger] self.conns@[j].token == j + 1 by {
            if j < n {
                assert(before.conns@[j].token == j + 1);
            }
        }
        assert forall|a: int, b: int| 0 <= a < self.len() && 0 <= b < self.len() && a != b
                implies #[trigger] self.name_at(a) != #[trigger] self.name_at(b) by {
            if a < n && b < n {
                assert(before.name_at(a) != before.name_at(b));
            } else if a < n {
                assert(before.names_view()[a] == before.name_at(a));
            } else {
                assert(before.names_view()[b] == before.name_at(b));
            }
        }
        assert forall|j: int| 0 <= j < self.len()
                implies #[trigger] self.members@[j] == self.ring@.replicas.contains_key(self.name_at(j)) by {
            if j < n {
                assert(before.members@[j] == before.ring@.replicas.contains_key(before.name_at(j)));
            }
        }
        assert forall|k: Seq<u8>| #[trigger] self.ring@.positions.contains_key(k)
                implies self.ring@.positions[k].1 < self.len()
                    && self.name_at(self.ring@.positions[k].1 as int) == self.ring@.positions[k].0 by {
            assert(before.ring@.positions.contains_key(k));
        }
    }

    /// Changing one probe record, token kept, keeps the engine well formed.
    proof fn lemma_conns_update(self, before: Proxy, i: int)
        requires
            before.wf(),
            0 <= i < before.len(),
            self.conns@.len() == before.conns@.len(),
            self.conns@ == before.conns@.update(i, self.conns@[i]),
            self.conns@[i].token == before.conns@[i].token,
            self.ring == before.ring,
            self.nodes == before.nodes,
            self.names == before.names,
            self.members == before.members,
        ensures
            self.wf(),
    {
        assert forall|j: int| 0 <= j < self.len() implies #[trigger] self.conns@[j].token == j + 1 by {
            if j != i {
                assert(self.conns@[j] == before.conns@[j]);
            }
        }
        assert forall|i: int| 0 <= i < self.len() implies #[trigger] self.names@[i]@ == self.nodes@[i].name_spec() by {
            assert(before.names@[i]@ == before.nodes@[i].name_spec());
        }
        assert forall|i: int| 0 <= i < self.len()
                implies #[trigger] self.members@[i] == self.ring@.replicas.contains_key(self.name_at(i)) by {
            assert(before.members@[i] == before.ring@.replicas.contains_key(before.name_at(i)));
        }
        assert forall|i: int, j: int| 0 <= i < self.len() && 0 <= j < self.len() && i != j
                implies #[trigger] self.name_at(i) != #[trigger] self.name_at(j) by {
            assert(before.name_at(i) != before.name_at(j));
        }
    }

    /// Adding or removing the ring entry of record `i`, with its membership
    /// flag set to match, keeps the engine well formed.
    proof fn lemma_ring_update(self, before: Proxy, i: int)
        requires
            before.wf(),
            0 <= i < before.len(),
            self.ring@ == model_add(before.ring@, before.name_at(i), i as usize, REPLICAS as nat)
                || self.ring@ == model_remove(before.ring@, before.name_at(i)),
            self.conns == before.conns,
            self.nodes == before.nodes,
            self.names == before.names,
            self.members@ == before.members@.update(i, self.ring@.replicas.contains_key(before.name_at(i))),
        ensures
            self.wf(),
    {
        let name = before.name_at(i);
        assert forall|j: int| 0 <= j < self.len() implies #[trigger] self.names@[j]@ == self.nodes@[j].name_spec() by {
            assert(before.names@[j]@ == before.nodes@[j].name_spec());
        }
        assert forall|j: int| 0 <= j < self.len() implies #[trigger] self.conns@[j].token == j + 1 by {
            assert(before.conns@[j].token == j + 1);
        }
        assert forall|a: int, b: int| 0 <= a < self.len() && 0 <= b < self.len() && a != b
                implies #[trigger] self.name_at(a) != #[trigger] self.name_at(b) by {
            assert(before.name_at(a) != before.name_at(b));
        }
        assert forall|j: int| 0 <= j < self.len()
                implies #[trigger] self.members@[j] == self.ring@.replicas.contains_key(self.name_at(j)) by {
            if j != i {
                assert(before.name_at(i) != before.name_at(j));
                assert(before.members@[j] == before.ring@.replicas.contains_key(before.name_at(j)));
            }
        }
        assert forall|k: Seq<u8>| #[trigger] self.ring@.positions.contains_key(k)
                implies self.ring@.positions[k].1 < self.len()
                    && self.name_at(self.ring@.positions[k].1 as int) == self.ring@.positions[k].0 by {
            let base = crate::ring::model_remove(before.ring@, name);
            if base.positions.contains_key(k) {
                assert(before.ring@.positions.contains_key(k));
            }
        }
    }

    /// A read of the reply on record `i`.
    pub fn probe_reply(&mut self, i: usize, outcome: &ReadOutcome) -> (r: ProbeAction)
        requires
            old(self).wf(),
            i < old(self).len(),
        ensures
            final(self).wf(),
            final(self).conns@ == old(self).conns@.update(i as int, final(self).conns@[i as int]),
            final(self).ring == old(self).ring,
            final(self).members == old(self).members,
            final(self).check_interval == old(self).check_interval,
            (final(self).conns@[i as int], r) == reply_next(old(self).conns@[i as int], *outcome),
    {
        let ghost before = *self;
        let mut c = self.conns[i];
        let r = c.on_reply(outcome);
        self.conns.set(i, c);
        proof { self.lemma_conns_update(before, i as int); }
        r
    }

    /// The tick's health policy for record `i`: reinstate, evict, age out
    /// failures, then advance the probe.
    fn tick_one(&mut self, i: usize, now: u64) -> (r: ProbeAction)
        requires
            old(self).wf(),
            i < old(self).len(),
        ensures
            final(self).wf(),
            final(self).conns@ == old(self).conns@.update(
                i as int, ticked(old(self).conns@[i as int], old(self).members@[i as int], now)),
            final(self).members@ == old(self).members@.update(
                i as int, tick_member(old(self).conns@[i as int], old(self).members@[i as int])),
            final(self).nodes == old(self).nodes,
            final(self).names == old(self).names,
            final(self).check_interval == old(self).check_interval,
            r == tick_action(old(self).conns@[i as int].state),
            final(self).ring@ == tick_ring_one(old(self).ring@, *old(self), i as int),
    {
        let ghost start = *self;
        let c = self.conns[i];
        let m = self.members[i];
        let node = RingNode { name: self.names[i].clone(), slot: i };
        let mut next = c;
        if c.success > 0 && !m {
            let ghost before = *self;
            self.ring.add(&node, REPLICAS);
            self.members.set(i, true);
            proof { self.lemma_ring_update(before, i as int); }
            next.success = 0;
        }
        if c.failure > 2 {
            let ghost before = *self;
            self.ring.remove(&node);
            self.members.set(i, false);
            proof { self.lemma_ring_update(before, i as int); }
            next.failure = 0;
            next.success = 0;
            next.last_reset = now;
        } else if now > c.last_reset && now - c.last_reset > COOL_DOWN_MS {
            next.failure = 0;
            next.last_reset = now;
        }
        let r = match c.state {
            ProbeState::Closed => {
                next.register();
                ProbeAction::Reconnect
            },
            ProbeState::Writing => {
                next.state = ProbeState::Reading;
                ProbeAction::SendProbe
            },
            _ => ProbeAction::Idle,
        };
        let ghost before = *self;
        self.conns.set(i, next);
        proof {
            self.lemma_conns_update(before, i as int);
            assert(self.members@ =~= start.members@.update(i as int, tick_member(c, m)));
        }
        r
    }

    /// One tick: the health policy for every record, in order. Returns what
    /// to do with each probe socket.
    pub fn timeout(&mut self, now: u64) -> (r: Vec<ProbeAction>)
        requires
            old(self).wf(),
        ensures
            final(self).wf(),
            tick_step(*old(self), *final(self), now),
            r@.len() == old(self).len(),
            forall|i: int| 0 <= i < old(self).len() ==> #[trigger] r@[i] == tick_action(old(self).conns@[i].state),
    {
        let ghost start = *self;
        let mut actions: Vec<ProbeAction> = Vec::new();
        let n = self.conns.len();
        let mut i: usize = 0;
        while i < n
            invariant
                self.wf(),
                start.wf(),
                n == start.len(),
                self.len() == n,
                i <= n,
                actions@.len() == i,
                self.nodes == start.nodes,
                self.names == start.names,
                self.check_interval == start.check_interval,
                self.ring@ == tick_ring(start, i as nat),
                forall|j: int| 0 <= j < i ==> {
                    &&& #[trigger] self.conns@[j] == ticked(start.conns@[j], start.members@[j], now)
                    &&& self.members@[j] == tick_member(start.conns@[j], start.members@[j])
                },
                forall|j: int| 0 <= j < i ==> #[trigger] actions@[j] == tick_action(start.conns@[j].state),
                forall|j: int| i <= j < n ==> #[trigger] self.conns@[j] == start.conns@[j]
                    && self.members@[j] == start.members@[j],
            decreases n - i,
        {
            let ghost prev = *self;
            let a = self.tick_one(i, now);
            actions.push(a);
            proof {
                assert(prev.conns@[i as int] == start.conns@[i as int]);
                assert(prev.members@[i as int] == start.members@[i as int]);
                assert(prev.name_at(i as int) == start.name_at(i as int));
                assert(tick_ring_one(prev.ring@, prev, i as int) == tick_ring_one(prev.ring@, start, i as int));
                assert forall|j: int| i < j < n implies #[trigger] self.conns@[j] == start.conns@[j]
                    && self.members@[j] == start.members@[j] by {
                    assert(self.conns@[j] == prev.conns@[j]);
                    assert(self.members@[j] == prev.members@[j]);
                }
            }
            i = i + 1;
        }
        assert(self.conns@.len() == n);
        actions
    }

    /// Decides what becomes of a received datagram: it is routed on the bytes
    /// before its first `':'` and forwarded whole, or dropped.
    pub fn parse(&self, packet: &[u8]) -> (r: Dispatch)
        requires
            self.wf(),
        ensures
            routing_key(packet@) is None <==> r is Malformed,
            r is NoBackend <==> (routing_key(packet@) is Some && self.ring@.positions.dom() =~= Set::empty()),
            routing_key(packet@) matches Some(key) ==> match lookup(self.ring@, key) {
                None => r is NoBackend,
                Some(s) => r == (Dispatch::Forward { slot: s, payload: r->payload }),
            },
            r matches Dispatch::Forward { slot, payload } ==> payload@ == packet@ && slot < self.len(),
    {
        match key_end(packet) {
            None => Dispatch::Malformed,
            Some(n) => {
                let key = slice_subrange(packet, 0, n);
                assert(key@ == packet@.take(n as int));
                match self.ring.get(key) {
                    None => Dispatch::NoBackend,
                    Some(slot) => {
                        proof {
                            let p = self.ring@.positions;
                            let h = crate::ring::key_digest(key@);
                            let k = choose|k: Seq<u8>| crate::ring::selects(p.dom(), h, k);
                            assert(p.contains_key(k));
                        }
                        Dispatch::Forward { slot, payload: slice_to_vec(packet) }
                    },
                }
            },
        }
    }

    /// Where an event with `token` goes: the ingress socket, the tick, or the
    /// probe record at an index.
    pub fn token_target(&self, token: usize) -> (r: EventTarget)
        requires
            self.wf(),
        ensures
            token == SERVER_TOKEN ==> r == EventTarget::Ingress,
            token == TICK_TOKEN ==> r == EventTarget::Tick,
            1 <= token <= self.len() ==> r == EventTarget::Probe((token - 1) as usize),
            token != SERVER_TOKEN && token != TICK_TOKEN && !(1 <= token <= self.len())
                ==> r == EventTarget::Unknown,
    {
        if token == SERVER_TOKEN {
            EventTarget::Ingress
        } else if token == TICK_TOKEN {
            EventTarget::Tick
        } else if token <= self.conns.len() {
            EventTarget::Probe(token - 1)
        } else {
            EventTarget::Unknown
        }
    }

    /// A readiness event for the probe socket of record `i`.
    pub fn probe_ready(&mut self, i: usize, hangup: bool) -> (r: ProbeAction)
        requires
            old(self).wf(),
            i < old(self).len(),
        ensures
            final(self).wf(),
            final(self).conns@ == old(self).conns@.update(i as int, final(self).conns@[i as int]),
            final(self).ring == old(self).ring,
            final(self).members == old(self).members,
            final(self).check_interval == old(self).check_interval,
            (final(self).conns@[i as int], r) == ready_next(old(self).conns@[i as int], hangup),
    {
        let ghost before = *self;
        let mut c = self.conns[i];
        let r = c.ready(hangup);
        self.conns.set(i, c);
        proof { self.lemma_conns_update(before, i as int); }
        r
    }
}

/// A backend whose failure count exceeds two is off the ring after the next
/// tick.
pub proof fn lemma_failing_backend_evicted(before: Proxy, after: Proxy, now: u64, i: int)
    requires
        before.wf(),
        after.wf(),
        tick_step(before, after, now),
        0 <= i < before.len(),
        before.conns@[i].failure > 2,
    ensures
        !after.ring@.replicas.contains_key(before.name_at(i)),
        forall|k: Seq<u8>| after.ring@.positions.contains_key(k) ==> (#[trigger] after.ring@.positions[k]).1 != i,
        forall|key: Seq<u8>| #[trigger] lookup(after.ring@, key) != Some(i as usize),
{
    assert(after.conns@[i] == ticked(before.conns@[i], before.members@[i], now));
    assert(after.name_at(i) == before.name_at(i));
    assert forall|key: Seq<u8>| #[trigger] lookup(after.ring@, key) != Some(i as usize) by {
        lemma_routes_to_members(after, key);
    }
}

/// Every key the engine's ring routes goes to a backend that is on the ring.
pub proof fn lemma_routes_to_members(p: Proxy, key: Seq<u8>)
    requires
        p.wf(),
    ensures
        lookup(p.ring@, key) matches Some(s) ==> s < p.len() && p.members@[s as int],
{
    let pos = p.ring@.positions;
    let h = crate::ring::key_digest(key);
    if exists|k: Seq<u8>| crate::ring::selects(pos.dom(), h, k) {
        let k = choose|k: Seq<u8>| crate::ring::selects(pos.dom(), h, k);
        assert(pos.contains_key(k));
    }
}

/// A backend that is off the ring, has answered a probe with success since,
/// and has at most two failures, is back on the ring after the next tick.
pub proof fn lemma_recovered_backend_reinstated(before: Proxy, after: Proxy, now: u64, i: int)
    requires
        before.wf(),
        after.wf(),
        tick_step(before, after, now),
        0 <= i < before.len(),
        !before.ring@.replicas.contains_key(before.name_at(i)),
        before.conns@[i].success > 0,
        before.conns@[i].failure <= 2,
    ensures
        after.ring@.replicas.contains_key(before.name_at(i)),
        after.ring@.replicas[before.name_at(i)] == REPLICAS as nat,
        after.conns@[i].success == 0,
{
    assert(after.conns@[i] == ticked(before.conns@[i], before.members@[i], now));
    assert(after.name_at(i) == before.name_at(i));
}

/// A healthy reply read in the Reading state leaves a success on the record,
/// which the next tick acts on.
pub proof fn lemma_healthy_reply_counts(c: Connection, reply: Seq<u8>, d: Vec<u8>)
    requires
        c.state == ProbeState::Reading,
        d@ == reply,
        reply.len() > 0,
        starts_with(reply, healthy_prefix()),
    ensures
        reply_next(c, ReadOutcome::Data(d)).0.success > 0,
        reply_next(c, ReadOutcome::Data(d)).0.failure == c.failure,
{
}

} // verus!
