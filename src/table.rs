use vstd::prelude::*;
use std::collections::HashMap;

verus! {

broadcast use vstd::std_specs::hash::group_hash_axioms;

/// A network address of a peer: the IP address as a 128-bit number (an
/// IPv4 address in its low 32 bits, with `v6` false) and the port.
#[derive(Clone, Copy, Debug, PartialEq, Eq, Hash, Structural)]
pub struct PeerAddress {
    pub ip: u128,
    pub port: u16,
    pub v6: bool,
}

/// What the dispatcher does with a datagram that came to the listening socket.
#[derive(Clone, Copy, Debug, PartialEq, Eq, Structural)]
pub enum Dispatch {
    /// It came from the tunnel destination itself: ignore it.
    FromDestination,
    /// Its sender has a live flow: hand the payload to that flow.
    Existing,
    /// Its sender is new: start a flow for it, then hand the payload over.
    NewPeer,
}

/// The decision for a datagram from `from`, given the peers that have a flow.
pub open spec fn dispatch_kind(flows: Set<PeerAddress>, from: PeerAddress, dst: PeerAddress) -> Dispatch {
    if from == dst {
        Dispatch::FromDestination
    } else if flows.contains(from) {
        Dispatch::Existing
    } else {
        Dispatch::NewPeer
    }
}

/// The peers that have a flow after datagrams from `peers` arrive in
/// order, starting from `flows`.
pub open spec fn flows_after(flows: Set<PeerAddress>, peers: Seq<PeerAddress>, dst: PeerAddress) -> Set<PeerAddress>
    decreases peers.len(),
{
    if peers.len() == 0 {
        flows
    } else {
        let before = flows_after(flows, peers.drop_last(), dst);
        if dispatch_kind(before, peers.last(), dst) == Dispatch::NewPeer {
            before.insert(peers.last())
        } else {
            before
        }
    }
}

/// The peers for which a flow is started while datagrams from `peers`
/// arrive in order, starting from `flows`, one entry per start.
pub open spec fn flows_started(flows: Set<PeerAddress>, peers: Seq<PeerAddress>, dst: PeerAddress) -> Seq<PeerAddress>
    decreases peers.len(),
{
    if peers.len() == 0 {
        seq![]
    } else {
        let started = flows_started(flows, peers.drop_last(), dst);
        if dispatch_kind(flows_after(flows, peers.drop_last(), dst), peers.last(), dst) == Dispatch::NewPeer {
            started.push(peers.last())
        } else {
            started
        }
    }
}

/// Whatever order datagrams arrive in, a flow is started at most once per
/// peer, never for a peer that had one or for the destination, and the
/// table then holds exactly the peers it held and those started.
pub proof fn lemma_one_flow_per_peer(flows: Set<PeerAddress>, peers: Seq<PeerAddress>, dst: PeerAddress)
    ensures
        flows_started(flows, peers, dst).no_duplicates(),
        forall|i: int| 0 <= i < flows_started(flows, peers, dst).len() ==> {
            let p = #[trigger] flows_started(flows, peers, dst)[i];
            &&& !flows.contains(p)
            &&& p != dst
            &&& peers.contains(p)
        },
        flows_after(flows, peers, dst) == flows + flows_started(flows, peers, dst).to_set(),
    decreases peers.len(),
{
    if peers.len() > 0 {
        let init = peers.drop_last();
        lemma_one_flow_per_peer(flows, init, dst);
        let started = flows_started(flows, init, dst);
        let before = flows_after(flows, init, dst);
        let p = peers.last();
        assert forall|q: PeerAddress| init.contains(q) implies peers.contains(q) by {
            let j = choose|j: int| 0 <= j < init.len() && init[j] == q;
            assert(peers[j] == q);
        }
        assert(peers[peers.len() - 1] == p);
        if dispatch_kind(before, p, dst) == Dispatch::NewPeer {
            assert(!before.contains(p));
            assert(!started.contains(p)) by {
                if started.contains(p) {
                    let j = choose|j: int| 0 <= j < started.len() && started[j] == p;
                    assert(started.to_set().contains(p));
                }
            }
            started.lemma_push_to_set_commute(p);
            assert(before.insert(p) =~= flows + started.push(p).to_set());
        }
    }
}

/// Where a peer sits among the peers of its IP address: its port and
/// whether the address is IPv6.
pub open spec fn slot(p: PeerAddress) -> u32 {
    (p.port * 2 + if p.v6 { 1int } else { 0int }) as u32
}

/// Whether the two-level map holds an entry for `p`.
pub open spec fn stored<H>(by_ip: Map<u128, HashMap<u32, H>>, p: PeerAddress) -> bool {
    by_ip.contains_key(p.ip) && by_ip[p.ip]@.contains_key(slot(p))
}

fn slot_of(p: PeerAddress) -> (r: u32)
    ensures
        r == slot(p),
{
    (p.port as u32) * 2 + if p.v6 { 1u32 } else { 0u32 }
}

proof fn lemma_slot_apart(p: PeerAddress, q: PeerAddress)
    requires
        p.ip == q.ip,
        p != q,
    ensures
        slot(p) != slot(q),
{
}

/// The live flows, keyed by peer: for each peer the handle that reaches its
/// relay. A peer has at most one entry. Peers are found by IP address, then
/// by port and address family, each in a hash map.
pub struct FlowTable<H> {
    by_ip: HashMap<u128, HashMap<u32, H>>,
    model: Ghost<Map<PeerAddress, H>>,
}

impl<H> FlowTable<H> {
    pub closed spec fn view(&self) -> Map<PeerAddress, H> {
        self.model@
    }

    pub closed spec fn wf(&self) -> bool {
        &&& forall|p: PeerAddress|
            #![trigger self.model@.dom().contains(p)]
            #![trigger stored(self.by_ip@, p)]
            self.model@.dom().contains(p) <==> stored(self.by_ip@, p)
        &&& forall|p: PeerAddress| #[trigger] self.model@.dom().contains(p)
            ==> self.model@[p] == self.by_ip@[p.ip]@[slot(p)]
    }

    /// An empty table.
    pub fn new() -> (r: Self)
        ensures
            r.wf(),
            r@ == Map::<PeerAddress, H>::empty(),
    {
        FlowTable { by_ip: HashMap::new(), model: Ghost(Map::empty()) }
    }

    /// The handle of `peer`'s flow, if it has one.
    pub fn lookup(&self, peer: PeerAddress) -> (r: Option<&H>)
        requires
            self.wf(),
        ensures
            r matches Some(h) ==> self@.contains_key(peer) && *h == self@[peer],
            r is None ==> !self@.contains_key(peer),
    {
        let r = match self.by_ip.get(&peer.ip) {
            Some(inner) => inner.get(&slot_of(peer)),
            None => None,
        };
        assert(self.model@.dom().contains(peer) <==> stored(self.by_ip@, peer));
        r
    }

    /// Whether `peer` has a flow.
    pub fn contains(&self, peer: PeerAddress) -> (r: bool)
        requires
            self.wf(),
        ensures
            r == self@.contains_key(peer),
    {
        let r = match self.by_ip.get(&peer.ip) {
            Some(inner) => inner.contains_key(&slot_of(peer)),
            None => false,
        };
        assert(self.model@.dom().contains(peer) <==> stored(self.by_ip@, peer));
        r
    }

    /// Adds `peer` with `handle` where it has no flow yet; a peer that has
    /// one keeps it. Returns whether it was added.
    pub fn insert(&mut self, peer: PeerAddress, handle: H) -> (r: bool)
        requires
            old(self).wf(),
        ensures
            final(self).wf(),
            r == !old(self)@.contains_key(peer),
            final(self)@ == if r { old(self)@.insert(peer, handle) } else { old(self)@ },
    {
        if self.contains(peer) {
            return false;
        }
        let ghost old_by_ip = self.by_ip@;
        let ghost m = self.model@.insert(peer, handle);
        let mut inner = match self.by_ip.remove(&peer.ip) {
            Some(inner) => inner,
            None => HashMap::new(),
        };
        let ghost old_inner = inner@;
        inner.insert(slot_of(peer), handle);
        self.by_ip.insert(peer.ip, inner);
        self.model = Ghost(m);
        proof {
            assert forall|q: PeerAddress|
                #![trigger m.dom().contains(q)]
                #![trigger stored(self.by_ip@, q)]
                m.dom().contains(q) <==> stored(self.by_ip@, q) by {
                if q.ip == peer.ip && q != peer {
                    lemma_slot_apart(q, peer);
                    assert(old_inner.contains_key(slot(q)) <==> stored(old_by_ip, q));
                }
                assert(old(self).model@.dom().contains(q) <==> stored(old_by_ip, q));
            }
            assert forall|q: PeerAddress| #[trigger] m.dom().contains(q)
                implies m[q] == self.by_ip@[q.ip]@[slot(q)] by {
                if q != peer {
                    assert(old(self).model@.dom().contains(q));
                    if q.ip == peer.ip {
                        lemma_slot_apart(q, peer);
                    }
                }
            }
        }
        true
    }

    /// Takes `peer`'s flow out; nothing changes where it has none.
    pub fn remove(&mut self, peer: PeerAddress) -> (r: bool)
        requires
            old(self).wf(),
        ensures
            final(self).wf(),
            r == old(self)@.contains_key(peer),
            final(self)@ == old(self)@.remove(peer),
    {
        let ghost old_by_ip = self.by_ip@;
        let ghost m = self.model@.remove(peer);
        assert(self.model@.dom().contains(peer) <==> stored(old_by_ip, peer));
        let r = match self.by_ip.remove(&peer.ip) {
            None => false,
            Some(mut inner) => {
                let ghost old_inner = inner@;
                let had = inner.remove(&slot_of(peer)).is_some();
                let keep = !inner.is_empty();
                if keep {
                    self.by_ip.insert(peer.ip, inner);
                }
                proof {
                    if !keep {
                        assert(inner@.dom() =~= Set::<u32>::empty());
                    }
                }
                had
            },
        };
        self.model = Ghost(m);
        proof {
            assert forall|q: PeerAddress|
                #![trigger m.dom().contains(q)]
                #![trigger stored(self.by_ip@, q)]
                m.dom().contains(q) <==> stored(self.by_ip@, q) by {
                if q.ip == peer.ip && q != peer {
                    lemma_slot_apart(q, peer);
                }
                assert(old(self).model@.dom().contains(q) <==> stored(old_by_ip, q));
            }
            assert forall|q: PeerAddress| #[trigger] m.dom().contains(q)
                implies m[q] == self.by_ip@[q.ip]@[slot(q)] by {
                assert(old(self).model@.dom().contains(q));
                if q.ip == peer.ip {
                    lemma_slot_apart(q, peer);
                }
            }
        }
        r
    }

    /// The decision for a datagram from `from`, where `dst` is the tunnel destination.
    pub fn classify(&self, from: PeerAddress, dst: PeerAddress) -> (r: Dispatch)
        requires
            self.wf(),
        ensures
            r == dispatch_kind(self@.dom(), from, dst),
    {
        if from == dst {
            Dispatch::FromDestination
        } else if self.contains(from) {
            Dispatch::Existing
        } else {
            Dispatch::NewPeer
        }
    }
}

} // verus!
