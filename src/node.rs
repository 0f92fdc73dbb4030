//! The node registry: every simulated node by its unique address, with the
//! random stream that belongs to it.
use vstd::prelude::*;

use crate::addr::Addr;
use crate::rand::{draw, node_seed, state_after, Rng};

verus! {

/// The identity of a node as a number: its IPv4 address above its port.
pub open spec fn addr_key(a: Addr) -> u64 {
    (a.ip as int * 0x1_0000 + a.port as int) as u64
}

/// The identity of a node as a number: its IPv4 address above its port.
pub fn node_key(a: Addr) -> (r: u64)
    ensures
        r == addr_key(a),
{
    (a.ip as u64) * 0x1_0000 + (a.port as u64)
}

/// What the registry knows of one node: its address and how many values it
/// has drawn from its stream.
pub struct NodeView {
    pub addr: Addr,
    pub draws: nat,
}

struct Node {
    addr: Addr,
    rng: Rng,
    draws: Ghost<nat>,
}

/// The nodes of one simulation. Node `i` is the `i`-th registered.
pub struct Registry {
    seed: u64,
    nodes: Vec<Node>,
}

impl Registry {
    /// The simulation's seed.
    pub closed spec fn seed(&self) -> u64 {
        self.seed
    }

    /// The registered nodes, in order of registration.
    pub closed spec fn nodes(&self) -> Seq<NodeView> {
        self.nodes@.map_values(|n: Node| NodeView { addr: n.addr, draws: n.draws@ })
    }

    /// Addresses are unique, and each node's stream stands where its seed and
    /// its number of draws put it.
    pub closed spec fn wf(&self) -> bool {
        &&& forall|i: int, j: int|
            0 <= i < self.nodes@.len() && 0 <= j < self.nodes@.len() && i != j
                ==> self.nodes@[i].addr != self.nodes@[j].addr
        &&& forall|i: int|
            0 <= i < self.nodes@.len() ==> #[trigger] self.nodes@[i].rng.state == state_after(
                node_seed(self.seed, addr_key(self.nodes@[i].addr)),
                self.nodes@[i].draws@,
            )
    }

    /// `addr` has been registered.
    pub open spec fn has(&self, addr: Addr) -> bool {
        exists|i: int| 0 <= i < self.nodes().len() && self.nodes()[i].addr == addr
    }

    /// An empty registry for a simulation run with `seed`.
    pub fn new(seed: u64) -> (r: Registry)
        ensures
            r.wf(),
            r.seed() == seed,
            r.nodes().len() == 0,
    {
        let r = Registry { seed, nodes: Vec::new() };
        assert(r.nodes() =~= Seq::empty());
        r
    }

    /// Registers a new node; its index is returned. An address may be
    /// registered once only: a second registration is a configuration error,
    /// and the caller must not make it.
    pub fn register(&mut self, addr: Addr) -> (r: usize)
        requires
            old(self).wf(),
            !old(self).has(addr),
        ensures
            final(self).wf(),
            final(self).seed() == old(self).seed(),
            r == old(self).nodes().len(),
            final(self).nodes() == old(self).nodes().push(NodeView { addr, draws: 0 }),
    {
        let ghost before = self.nodes();
        let rng = Rng::new(self.seed, node_key(addr));
        let r = self.nodes.len();
        self.nodes.push(Node { addr, rng, draws: Ghost(0) });
        assert(self.nodes() =~= before.push(NodeView { addr, draws: 0 }));
        assert forall|i: int| 0 <= i < r implies self.nodes@[i].addr != addr by {
            assert(before[i].addr == self.nodes@[i].addr);
        }
        r
    }

    /// The index of the node at `addr`, if it is registered.
    pub fn lookup(&self, addr: Addr) -> (r: Option<usize>)
        requires
            self.wf(),
        ensures
            match r {
                Some(i) => i < self.nodes().len() && self.nodes()[i as int].addr == addr,
                None => !self.has(addr),
            },
    {
        let mut i: usize = 0;
        while i < self.nodes.len()
            invariant
                i <= self.nodes@.len(),
                forall|k: int| 0 <= k < i ==> self.nodes()[k].addr != addr,
            decreases self.nodes@.len() - i,
        {
            if self.nodes[i].addr == addr {
                return Some(i);
            }
            i = i + 1;
        }
        None
    }

    /// The address of node `node`.
    pub fn addr(&self, node: usize) -> (r: Addr)
        requires
            node < self.nodes().len(),
        ensures
            r == self.nodes()[node as int].addr,
    {
        self.nodes[node].addr
    }

    /// The next value of node `node`'s stream. It is the value at the node's
    /// own count of draws in the stream that its seed and address fix: what
    /// other nodes drew, and when, does not change it.
    pub fn next_u64(&mut self, node: usize) -> (r: u64)
        requires
            old(self).wf(),
            node < old(self).nodes().len(),
        ensures
            final(self).wf(),
            final(self).seed() == old(self).seed(),
            r == draw(node_seed(old(self).seed(), addr_key(old(self).nodes()[node as int].addr)),
                old(self).nodes()[node as int].draws),
            final(self).nodes() == old(self).nodes().update(
                node as int,
                NodeView { draws: old(self).nodes()[node as int].draws + 1, ..old(self).nodes()[node as int] },
            ),
    {
        let ghost before = self.nodes();
        let ghost old_nodes = self.nodes@;
        let mut n = self.nodes.remove(node);
        let r = n.rng.next_u64();
        n.draws = Ghost(n.draws@ + 1);
        self.nodes.insert(node, n);
        assert(self.nodes@ =~= old_nodes.update(node as int, n));
        assert(self.nodes() =~= before.update(
            node as int,
            NodeView { draws: before[node as int].draws + 1, ..before[node as int] },
        ));
        assert forall|i: int| 0 <= i < self.nodes@.len() implies #[trigger] self.nodes@[i].rng.state == state_after(
            node_seed(self.seed, addr_key(self.nodes@[i].addr)),
            self.nodes@[i].draws@,
        ) by {
            if i != node {
                assert(self.nodes@[i] == old_nodes[i]);
            }
        }
        r
    }
}

/// Two runs with the same seed in which a node, at the same address, has
/// drawn equally often, draw the same next value for it, whatever the other
/// nodes of either run did.
pub proof fn lemma_draws_reproducible(r1: Registry, r2: Registry, i: int, j: int)
    requires
        r1.seed() == r2.seed(),
        0 <= i < r1.nodes().len(),
        0 <= j < r2.nodes().len(),
        r1.nodes()[i] == r2.nodes()[j],
    ensures
        draw(node_seed(r1.seed(), addr_key(r1.nodes()[i].addr)), r1.nodes()[i].draws) == draw(
            node_seed(r2.seed(), addr_key(r2.nodes()[j].addr)),
            r2.nodes()[j].draws,
        ),
{
}

} // verus!
