//! A sparse graph whose nodes sit on integer grid positions.
//!
//! Each node remembers the positions it is connected to and carries a
//! payload. Nodes are stored in a hash map keyed by a packed form of the
//! position, so that each position holds at most one node.
use std::collections::hash_map::Entry;
use std::collections::HashMap;
use vstd::prelude::*;

verus! {

broadcast use vstd::std_specs::hash::group_hash_axioms;

/// A grid position `(x, y)`.
pub type Position = (i32, i32);

/// Whether two positions are the same cell.
pub fn same_position(a: Position, b: Position) -> (r: bool)
    ensures
        r == (a == b),
{
    a.0 == b.0 && a.1 == b.1
}

/// Distance between the packed forms of `(x, y)` and `(x + 1, y)`.
pub const ROW_STRIDE: u64 = 0x1_0000_0000;

/// Offset that maps `i32::MIN` to zero.
pub const COORD_SHIFT: i64 = 0x8000_0000;

/// The packed form of a position: both coordinates shifted to be
/// non-negative, the first one in the high half of a `u64`.
pub open spec fn spec_key(p: Position) -> int {
    (p.0 + COORD_SHIFT) * ROW_STRIDE + (p.1 + COORD_SHIFT)
}

proof fn lemma_key_bounds(p: Position)
    ensures
        0 <= spec_key(p) <= u64::MAX,
{
    let a = p.0 + COORD_SHIFT;
    let b = p.1 + COORD_SHIFT;
    assert(0 <= a < ROW_STRIDE && 0 <= b < ROW_STRIDE);
    assert(0 <= a * ROW_STRIDE <= (ROW_STRIDE - 1) * ROW_STRIDE) by (nonlinear_arith)
        requires
            0 <= a < ROW_STRIDE,
    ;
}

/// Two positions share a packed form only when they are equal.
pub proof fn lemma_key_injective(p: Position, q: Position)
    ensures
        spec_key(p) == spec_key(q) ==> p == q,
{
    let a = p.0 + COORD_SHIFT;
    let b = p.1 + COORD_SHIFT;
    let c = q.0 + COORD_SHIFT;
    let d = q.1 + COORD_SHIFT;
    if spec_key(p) == spec_key(q) {
        assert(a == c && b == d) by (nonlinear_arith)
            requires
                a * ROW_STRIDE + b == c * ROW_STRIDE + d,
                0 <= b < ROW_STRIDE,
                0 <= d < ROW_STRIDE,
                ROW_STRIDE > 0,
        ;
    }
}

/// Packs a position into the key under which its node is stored.
pub fn position_key(p: Position) -> (k: u64)
    ensures
        k == spec_key(p),
{
    proof {
        lemma_key_bounds(p);
    }
    let a: u64 = (p.0 as i64 + COORD_SHIFT) as u64;
    let b: u64 = (p.1 as i64 + COORD_SHIFT) as u64;
    a * ROW_STRIDE + b
}

/// A node of the graph.
pub struct Node<T> {
    id: Position,
    pub connections: Vec<Position>,
    pub data: T,
}

/// What a node holds, as plain values.
pub struct NodeView<T> {
    pub id: Position,
    pub connections: Seq<Position>,
    pub data: T,
}

impl<T> Node<T> {
    /// The node's contents as plain values.
    pub closed spec fn node_view(&self) -> NodeView<T> {
        NodeView { id: self.id, connections: self.connections@, data: self.data }
    }

    /// The position the node was created for.
    pub closed spec fn spec_id(&self) -> Position {
        self.id
    }

    /// A node at `position` whose only connection is `connection`.
    pub fn new(position: Position, connection: Position, data: T) -> (n: Self)
        ensures
            n.node_view() == (NodeView { id: position, connections: seq![connection], data }),
    {
        let mut connections: Vec<Position> = Vec::new();
        connections.push(connection);
        Self { id: position, connections, data }
    }
}

/// The graph of nodes, keyed by position.
pub struct Graph<T> {
    nodes: HashMap<u64, Node<T>>,
}

/// The graph that `add(connection, position, data)` turns `g` into.
pub open spec fn spec_added<T>(
    g: Map<Position, NodeView<T>>,
    connection: Position,
    position: Position,
    data: T,
) -> Map<Position, NodeView<T>> {
    if !g.contains_key(connection) {
        g
    } else {
        let g1 = g.insert(position, NodeView { id: position, connections: seq![connection], data });
        let c = g1[connection];
        g1.insert(connection, NodeView { connections: c.connections.push(position), ..c })
    }
}

impl<T> Graph<T> {
    /// Every stored node lies under the packed form of its own position.
    pub closed spec fn wf(&self) -> bool {
        forall|k: u64| #[trigger]
            self.nodes@.contains_key(k) ==> spec_key(self.nodes@[k].spec_id()) == k
    }

    /// The nodes of the graph, by position.
    pub closed spec fn view(&self) -> Map<Position, NodeView<T>> {
        Map::new(
            |p: Position| self.nodes@.contains_key(spec_key(p) as u64),
            |p: Position| self.nodes@[spec_key(p) as u64].node_view(),
        )
    }

    /// An empty graph.
    pub fn new() -> (g: Self)
        ensures
            g.wf(),
            g@ == Map::<Position, NodeView<T>>::empty(),
    {
        let g = Graph { nodes: HashMap::new() };
        assert(g@ =~= Map::<Position, NodeView<T>>::empty());
        g
    }

    /// Puts a node at `position` connected to `connection`, and connects
    /// `connection` back to it. Nothing happens when no node stands at
    /// `connection`. A node already at `position` is replaced.
    pub fn add(&mut self, connection: Position, position: Position, data: T)
        requires
            old(self).wf(),
        ensures
            final(self).wf(),
            final(self)@ == spec_added(old(self)@, connection, position, data),
    {
        proof {
            lemma_key_bounds(connection);
            lemma_key_bounds(position);
        }
        let kc = position_key(connection);
        if !self.nodes.contains_key(&kc) {
            return;
        }
        let kp = position_key(position);
        let ghost g0 = self@;
        self.nodes.insert(kp, Node::new(position, connection, data));
        let ghost g1 = self@;
        assert(g1 =~= g0.insert(
            position,
            NodeView { id: position, connections: seq![connection], data },
        )) by {
            assert forall|p: Position| #[trigger] g1.contains_key(p) == g0.insert(
                position,
                NodeView { id: position, connections: seq![connection], data },
            ).contains_key(p) by {
                lemma_key_bounds(p);
                lemma_key_injective(p, position);
            }
            assert forall|p: Position| g1.contains_key(p) implies #[trigger] g1[p] == g0.insert(
                position,
                NodeView { id: position, connections: seq![connection], data },
            )[p] by {
                lemma_key_bounds(p);
                lemma_key_injective(p, position);
            }
        }
        match self.nodes.entry(kc) {
            Entry::Occupied(mut o) => {
                o.get_mut().connections.push(position);
            },
            Entry::Vacant(_) => {},
        }
        let ghost c = g1[connection];
        assert(self@ =~= g1.insert(
            connection,
            NodeView { connections: c.connections.push(position), ..c },
        )) by {
            assert forall|p: Position| #[trigger] self@.contains_key(p) == g1.insert(
                connection,
                NodeView { connections: c.connections.push(position), ..c },
            ).contains_key(p) by {
                lemma_key_bounds(p);
                lemma_key_injective(p, connection);
            }
            assert forall|p: Position| self@.contains_key(p) implies #[trigger] self@[p]
                == g1.insert(
                connection,
                NodeView { connections: c.connections.push(position), ..c },
            )[p] by {
                lemma_key_bounds(p);
                lemma_key_injective(p, connection);
            }
        }
    }

    /// The payload of the node at `position`, if there is one.
    pub fn get(&mut self, position: Position) -> (r: Option<&T>)
        requires
            old(self).wf(),
        ensures
            final(self)@ == old(self)@,
            final(self).wf(),
            r == (if old(self)@.contains_key(position) {
                Some(&old(self)@[position].data)
            } else {
                None
            }),
    {
        proof {
            lemma_key_bounds(position);
        }
        let k = position_key(position);
        match self.nodes.get(&k) {
            Some(node) => Some(&node.data),
            None => None,
        }
    }

    /// Mutable access to the payload of the node at `position`, if there
    /// is one. Only the payload can change through it.
    pub fn get_mut(&mut self, position: Position) -> (r: Option<&mut T>)
        requires
            old(self).wf(),
        ensures
            final(self).wf(),
            match r {
                Some(d) => {
                    &&& old(self)@.contains_key(position)
                    &&& *d == old(self)@[position].data
                    &&& final(self)@ == old(self)@.insert(
                        position,
                        NodeView { data: *final(d), ..old(self)@[position] },
                    )
                },
                None => {
                    &&& !old(self)@.contains_key(position)
                    &&& final(self)@ == old(self)@
                },
            },
    {
        proof {
            lemma_key_bounds(position);
        }
        let k = position_key(position);
        match self.nodes.entry(k) {
            Entry::Occupied(o) => {
                let node = o.into_mut();
                Some(&mut node.data)
            },
            Entry::Vacant(_) => None,
        }
    }
}

/// A node added next to an existing node can be read back: afterwards the
/// new position holds the new payload, the existing node lists the new
/// position as its last connection, and every other node is as before.
/// Adding next to a position without a node changes nothing.
pub proof fn law_add_then_read<T>(
    g: Map<Position, NodeView<T>>,
    connection: Position,
    position: Position,
    data: T,
)
    ensures
        g.contains_key(connection) ==> {
            let h = spec_added(g, connection, position, data);
            &&& h.contains_key(position)
            &&& h[position].data == data
            &&& h.contains_key(connection)
            &&& h[connection].connections.last() == position
            &&& h.dom() == g.dom().insert(position)
            &&& forall|q: Position|
                #[trigger] g.contains_key(q) && q != position && q != connection ==> h[q] == g[q]
        },
        !g.contains_key(connection) ==> spec_added(g, connection, position, data) == g,
{
    if g.contains_key(connection) {
        let h = spec_added(g, connection, position, data);
        assert(h.dom() =~= g.dom().insert(position));
    }
}

/// A payload written through `get_mut` at a position with a node is what
/// `get` reads back there afterwards; the node keeps its connections and
/// every other position is as before.
pub proof fn law_write_then_read<T>(g: Map<Position, NodeView<T>>, p: Position, v: T, q: Position)
    requires
        g.contains_key(p),
    ensures
        ({
            let h = g.insert(p, NodeView { data: v, ..g[p] });
            &&& h.contains_key(p)
            &&& h[p].data == v
            &&& h[p].connections == g[p].connections
            &&& h.dom() == g.dom()
            &&& q != p && g.contains_key(q) ==> h[q] == g[q]
        }),
{
    let h = g.insert(p, NodeView { data: v, ..g[p] });
    assert(h.dom() =~= g.dom());
}

} // verus!
