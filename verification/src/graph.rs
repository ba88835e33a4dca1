//! The dataflow graph of one network: node instances with stable
//! identities, directed pin-to-pin connections, and the mutation
//! protocol that keeps the structure well-formed.
//!
//! Well-formedness (`Graph::wf`) holds after every mutation: node
//! identities are unique and never reused, every connection joins
//! existing pins in range of the current arity of both endpoints, and
//! every input pin has at most one incoming connection. Pin-type
//! compatibility is checked when a connection is made and deliberately
//! not re-checked when a node's declared type is edited later; an
//! arity-narrowing edit, by contrast, prunes the connections it
//! invalidates in the same transaction.

use crate::node::OSRCNode;
use crate::node::OSRCNodeV;
use crate::node::spec_can_connect;
use vstd::prelude::*;

verus! {

/// One node of a network: a catalog value plus a stable identity and
/// the editor's visual position (held as IEEE-754 bit patterns; the
/// core never interprets them).
#[derive(Clone, Debug, PartialEq)]
pub struct NodeInstance {
    pub id: u64,
    pub pos_x: u32,
    pub pos_y: u32,
    pub kind: OSRCNode,
}

/// Mathematical image of a `NodeInstance`.
pub struct NodeInstanceV {
    pub id: u64,
    pub pos_x: u32,
    pub pos_y: u32,
    pub kind: OSRCNodeV,
}

impl View for NodeInstance {
    type V = NodeInstanceV;

    open spec fn view(&self) -> NodeInstanceV {
        NodeInstanceV { id: self.id, pos_x: self.pos_x, pos_y: self.pos_y, kind: self.kind@ }
    }
}

/// A directed edge from an output pin to an input pin, each pin
/// addressed by node identity and pin index.
#[derive(Clone, Copy, Debug, PartialEq, Eq, Structural, Hash)]
pub struct Connection {
    pub from_node: u64,
    pub from_pin: usize,
    pub to_node: u64,
    pub to_pin: usize,
}

/// Whether some node of `s` carries the identity `id`.
pub open spec fn spec_has_node(s: Seq<NodeInstance>, id: u64) -> bool {
    exists|i: int| 0 <= i < s.len() && s[i].id == id
}

/// The node of `s` carrying identity `id`; meaningful when the
/// identity is present and identities are unique.
pub open spec fn spec_node_of(s: Seq<NodeInstance>, id: u64) -> NodeInstance {
    s[choose|i: int| 0 <= i < s.len() && s[i].id == id]
}

/// Node identities are pairwise distinct.
pub open spec fn nodes_distinct(s: Seq<NodeInstance>) -> bool {
    forall|i: int, j: int| 0 <= i < j < s.len() ==> s[i].id != s[j].id
}

/// A connection joins two existing nodes on pin indices that are in
/// range of their current arities.
pub open spec fn conn_valid(s: Seq<NodeInstance>, c: Connection) -> bool {
    &&& spec_has_node(s, c.from_node)
    &&& spec_has_node(s, c.to_node)
    &&& (c.from_pin as nat) < spec_node_of(s, c.from_node).kind.spec_output_count()
    &&& (c.to_pin as nat) < spec_node_of(s, c.to_node).kind.spec_input_count()
}

/// Every connection of `conns` is valid against the nodes `s`.
pub open spec fn conns_valid(s: Seq<NodeInstance>, conns: Seq<Connection>) -> bool {
    forall|i: int| 0 <= i < conns.len() ==> conn_valid(s, #[trigger] conns[i])
}

/// No input pin is driven by two connections.
pub open spec fn single_driver(conns: Seq<Connection>) -> bool {
    forall|i: int, j: int| 0 <= i < j < conns.len()
        ==> !(conns[i].to_node == conns[j].to_node && conns[i].to_pin == conns[j].to_pin)
}

/// The nodes of `s` without the one carrying identity `id`, in order.
pub open spec fn nodes_without(s: Seq<NodeInstance>, id: u64) -> Seq<NodeInstance>
    decreases s.len(),
{
    if s.len() == 0 {
        Seq::empty()
    } else {
        let rest = nodes_without(s.drop_last(), id);
        if s.last().id != id {
            rest.push(s.last())
        } else {
            rest
        }
    }
}

/// The connections of `s` that do not touch node `id` on either
/// endpoint, in order.
pub open spec fn conns_not_incident(s: Seq<Connection>, id: u64) -> Seq<Connection>
    decreases s.len(),
{
    if s.len() == 0 {
        Seq::empty()
    } else {
        let rest = conns_not_incident(s.drop_last(), id);
        if s.last().from_node != id && s.last().to_node != id {
            rest.push(s.last())
        } else {
            rest
        }
    }
}

/// The connections of `s` incident to node `id`, in order.
pub open spec fn conns_incident(s: Seq<Connection>, id: u64) -> Seq<Connection>
    decreases s.len(),
{
    if s.len() == 0 {
        Seq::empty()
    } else {
        let rest = conns_incident(s.drop_last(), id);
        if s.last().from_node == id || s.last().to_node == id {
            rest.push(s.last())
        } else {
            rest
        }
    }
}

/// The connections of `s` that do not drive the input pin
/// `(to_node, to_pin)`, in order.
pub open spec fn conns_without_target(s: Seq<Connection>, to_node: u64, to_pin: usize) -> Seq<
    Connection,
>
    decreases s.len(),
{
    if s.len() == 0 {
        Seq::empty()
    } else {
        let rest = conns_without_target(s.drop_last(), to_node, to_pin);
        if !(s.last().to_node == to_node && s.last().to_pin == to_pin) {
            rest.push(s.last())
        } else {
            rest
        }
    }
}

/// The connections of `s` other than the exact edge `e`, in order.
pub open spec fn conns_without_edge(s: Seq<Connection>, e: Connection) -> Seq<Connection>
    decreases s.len(),
{
    if s.len() == 0 {
        Seq::empty()
    } else {
        let rest = conns_without_edge(s.drop_last(), e);
        if s.last() != e {
            rest.push(s.last())
        } else {
            rest
        }
    }
}

/// The connections of `s` that remain in range when node `id` takes
/// the port shape of `kind`, in order.
pub open spec fn conns_in_range_for(s: Seq<Connection>, id: u64, kind: OSRCNode) -> Seq<
    Connection,
>
    decreases s.len(),
{
    if s.len() == 0 {
        Seq::empty()
    } else {
        let rest = conns_in_range_for(s.drop_last(), id, kind);
        let c = s.last();
        if (c.from_node != id || (c.from_pin as nat) < kind.spec_output_count()) && (c.to_node
            != id || (c.to_pin as nat) < kind.spec_input_count()) {
            rest.push(c)
        } else {
            rest
        }
    }
}

/// The nodes of `s` with the kind of node `id` replaced by `kind`;
/// identities and positions are untouched, and a sequence without the
/// identity is returned unchanged.
pub open spec fn nodes_with_kind(s: Seq<NodeInstance>, id: u64, kind: OSRCNode) -> Seq<
    NodeInstance,
> {
    Seq::new(
        s.len(),
        |i: int|
            if s[i].id == id {
                NodeInstance { id: s[i].id, pos_x: s[i].pos_x, pos_y: s[i].pos_y, kind: kind }
            } else {
                s[i]
            },
    )
}

/// A node found at index `i` is the node `spec_node_of` names, as
/// long as identities are unique.
pub proof fn lemma_node_of_index(s: Seq<NodeInstance>, i: int)
    requires
        nodes_distinct(s),
        0 <= i < s.len(),
    ensures
        spec_has_node(s, s[i].id),
        spec_node_of(s, s[i].id) == s[i],
{
    assert(spec_has_node(s, s[i].id));
    let j = choose|j: int| 0 <= j < s.len() && s[j].id == s[i].id;
    if j != i {
        assert(false);
    }
}

/// Looking a node up by identity gives the same instance in any two
/// sequences with unique identities, when one holds every node of the
/// other.
pub proof fn lemma_node_of_stable(s1: Seq<NodeInstance>, s2: Seq<NodeInstance>, id: u64)
    requires
        nodes_distinct(s1),
        spec_has_node(s2, id),
        forall|i: int| 0 <= i < s2.len() ==> s1.contains(#[trigger] s2[i]),
    ensures
        spec_has_node(s1, id),
        spec_node_of(s2, id) == spec_node_of(s1, id),
{
    let i2 = choose|i: int| 0 <= i < s2.len() && s2[i].id == id;
    assert(s1.contains(s2[i2]));
    let k = choose|k: int| 0 <= k < s1.len() && s1[k] == s2[i2];
    assert(spec_has_node(s1, id));
    let j2 = choose|j: int| 0 <= j < s2.len() && s2[j].id == id;
    assert(s1.contains(s2[j2]));
    let k2 = choose|k: int| 0 <= k < s1.len() && s1[k] == s2[j2];
    if k != k2 {
        assert(s1[k].id == s1[k2].id);
        assert(false);
    }
    let j1 = choose|j: int| 0 <= j < s1.len() && s1[j].id == id;
    if j1 != k {
        assert(false);
    }
}

/// What `nodes_without` keeps: exactly the nodes of `s` that do not
/// carry `id`, each of them a node of `s`.
pub proof fn lemma_nodes_without_props(s: Seq<NodeInstance>, id: u64)
    ensures
        forall|i: int|
            0 <= i < nodes_without(s, id).len() ==> s.contains(#[trigger] nodes_without(s, id)[i])
                && nodes_without(s, id)[i].id != id,
        forall|k: int|
            0 <= k < s.len() && s[k].id != id ==> nodes_without(s, id).contains(#[trigger] s[k]),
        nodes_without(s, id).len() <= s.len(),
    decreases s.len(),
{
    if s.len() > 0 {
        lemma_nodes_without_props(s.drop_last(), id);
        let f = nodes_without(s, id);
        let fd = nodes_without(s.drop_last(), id);
        assert forall|i: int| 0 <= i < f.len() implies s.contains(#[trigger] f[i]) && f[i].id
            != id by {
            if i < fd.len() {
                assert(s.drop_last().contains(fd[i]));
                let k = choose|k: int| 0 <= k < s.drop_last().len() && s.drop_last()[k] == fd[i];
                assert(s[k] == fd[i]);
                assert(s.contains(f[i]));
            } else {
                assert(f[i] == s.last());
                assert(s[s.len() - 1] == s.last());
                assert(s.contains(f[i]));
            }
        }
        assert forall|k: int| 0 <= k < s.len() && s[k].id != id implies f.contains(
            #[trigger] s[k],
        ) by {
            if k < s.len() - 1 {
                assert(s.drop_last()[k] == s[k]);
                assert(fd.contains(s[k]));
                let j = choose|j: int| 0 <= j < fd.len() && fd[j] == s[k];
                assert(f[j] == s[k]);
                assert(f.contains(s[k]));
            } else {
                assert(f[f.len() - 1] == s[k]);
                assert(f.contains(s[k]));
            }
        }
    }
}

/// Removing an identity that is not present leaves the sequence as it
/// stands.
pub proof fn lemma_nodes_without_absent(s: Seq<NodeInstance>, id: u64)
    requires
        forall|k: int| 0 <= k < s.len() ==> (#[trigger] s[k]).id != id,
    ensures
        nodes_without(s, id) == s,
    decreases s.len(),
{
    if s.len() > 0 {
        assert(forall|k: int|
            0 <= k < s.drop_last().len() ==> (#[trigger] s.drop_last()[k]).id != id);
        lemma_nodes_without_absent(s.drop_last(), id);
        assert(s[s.len() - 1].id != id);
        assert(nodes_without(s, id) =~= s);
    }
}

/// With unique identities, `nodes_without` is exactly the removal of
/// the one index that carries `id`.
pub proof fn lemma_nodes_without_is_remove(s: Seq<NodeInstance>, id: u64, i: int)
    requires
        nodes_distinct(s),
        0 <= i < s.len(),
        s[i].id == id,
    ensures
        nodes_without(s, id) == s.remove(i),
    decreases s.len(),
{
    if i == s.len() - 1 {
        assert(forall|k: int|
            0 <= k < s.drop_last().len() ==> (#[trigger] s.drop_last()[k]).id != id);
        lemma_nodes_without_absent(s.drop_last(), id);
        assert(s.remove(i) =~= s.drop_last());
    } else {
        lemma_nodes_without_is_remove(s.drop_last(), id, i);
        assert(s.last().id != id);
        assert(s.remove(i) =~= s.drop_last().remove(i).push(s.last()));
    }
}

/// Unique identities survive `nodes_without`.
pub proof fn lemma_nodes_without_distinct(s: Seq<NodeInstance>, id: u64)
    requires
        nodes_distinct(s),
    ensures
        nodes_distinct(nodes_without(s, id)),
    decreases s.len(),
{
    if s.len() > 0 {
        lemma_nodes_without_distinct(s.drop_last(), id);
        if s.last().id != id {
            let fd = nodes_without(s.drop_last(), id);
            lemma_nodes_without_props(s.drop_last(), id);
            assert forall|i: int| 0 <= i < fd.len() implies (#[trigger] fd[i]).id
                != s.last().id by {
                assert(s.drop_last().contains(fd[i]));
                let k = choose|k: int| 0 <= k < s.drop_last().len() && s.drop_last()[k] == fd[i];
                assert(s[k] == fd[i]);
                assert(s[k].id != s[s.len() - 1].id);
            }
        }
    }
}

/// What `conns_not_incident` keeps: exactly the connections of `s`
/// that touch `id` on neither endpoint, each a connection of `s`.
pub proof fn lemma_not_incident_props(s: Seq<Connection>, id: u64)
    ensures
        forall|i: int|
            0 <= i < conns_not_incident(s, id).len() ==> s.contains(
                #[trigger] conns_not_incident(s, id)[i],
            ) && conns_not_incident(s, id)[i].from_node != id && conns_not_incident(s, id)[i].to_node
                != id,
        forall|k: int|
            0 <= k < s.len() && s[k].from_node != id && s[k].to_node != id ==> conns_not_incident(
                s,
                id,
            ).contains(#[trigger] s[k]),
        conns_not_incident(s, id).len() <= s.len(),
    decreases s.len(),
{
    if s.len() > 0 {
        lemma_not_incident_props(s.drop_last(), id);
        let f = conns_not_incident(s, id);
        let fd = conns_not_incident(s.drop_last(), id);
        assert forall|i: int| 0 <= i < f.len() implies s.contains(#[trigger] f[i]) && f[i].from_node
            != id && f[i].to_node != id by {
            if i < fd.len() {
                assert(s.drop_last().contains(fd[i]));
                let k = choose|k: int| 0 <= k < s.drop_last().len() && s.drop_last()[k] == fd[i];
                assert(s[k] == fd[i]);
                assert(s.contains(f[i]));
            } else {
                assert(f[i] == s.last());
                assert(s[s.len() - 1] == s.last());
                assert(s.contains(f[i]));
            }
        }
        assert forall|k: int|
            0 <= k < s.len() && s[k].from_node != id && s[k].to_node != id implies f.contains(
            #[trigger] s[k],
        ) by {
            if k < s.len() - 1 {
                assert(s.drop_last()[k] == s[k]);
                assert(fd.contains(s[k]));
                let j = choose|j: int| 0 <= j < fd.len() && fd[j] == s[k];
                assert(f[j] == s[k]);
                assert(f.contains(s[k]));
            } else {
                assert(f[f.len() - 1] == s[k]);
                assert(f.contains(s[k]));
            }
        }
    }
}

/// A removal cascade removes exactly the incident connections: the
/// kept and the incident connections partition the sequence.
pub proof fn lemma_incident_partition(s: Seq<Connection>, id: u64)
    ensures
        conns_not_incident(s, id).len() + conns_incident(s, id).len() == s.len(),
    decreases s.len(),
{
    if s.len() > 0 {
        lemma_incident_partition(s.drop_last(), id);
    }
}

/// What `conns_without_target` keeps: exactly the connections of `s`
/// that do not drive the pin, each a connection of `s`.
pub proof fn lemma_without_target_props(s: Seq<Connection>, tn: u64, tp: usize)
    ensures
        forall|i: int|
            0 <= i < conns_without_target(s, tn, tp).len() ==> s.contains(
                #[trigger] conns_without_target(s, tn, tp)[i],
            ) && !(conns_without_target(s, tn, tp)[i].to_node == tn && conns_without_target(
                s,
                tn,
                tp,
            )[i].to_pin == tp),
        forall|k: int|
            0 <= k < s.len() && !(s[k].to_node == tn && s[k].to_pin == tp)
                ==> conns_without_target(s, tn, tp).contains(#[trigger] s[k]),
        conns_without_target(s, tn, tp).len() <= s.len(),
    decreases s.len(),
{
    if s.len() > 0 {
        lemma_without_target_props(s.drop_last(), tn, tp);
        let f = conns_without_target(s, tn, tp);
        let fd = conns_without_target(s.drop_last(), tn, tp);
        assert forall|i: int| 0 <= i < f.len() implies s.contains(#[trigger] f[i]) && !(f[i].to_node
            == tn && f[i].to_pin == tp) by {
            if i < fd.len() {
                assert(s.drop_last().contains(fd[i]));
                let k = choose|k: int| 0 <= k < s.drop_last().len() && s.drop_last()[k] == fd[i];
                assert(s[k] == fd[i]);
                assert(s.contains(f[i]));
            } else {
                assert(f[i] == s.last());
                assert(s[s.len() - 1] == s.last());
                assert(s.contains(f[i]));
            }
        }
        assert forall|k: int|
            0 <= k < s.len() && !(s[k].to_node == tn && s[k].to_pin == tp) implies f.contains(
            #[trigger] s[k],
        ) by {
            if k < s.len() - 1 {
                assert(s.drop_last()[k] == s[k]);
                assert(fd.contains(s[k]));
                let j = choose|j: int| 0 <= j < fd.len() && fd[j] == s[k];
                assert(f[j] == s[k]);
                assert(f.contains(s[k]));
            } else {
                assert(f[f.len() - 1] == s[k]);
                assert(f.contains(s[k]));
            }
        }
    }
}

/// What `conns_without_edge` keeps: every connection of `s` but the
/// named edge.
pub proof fn lemma_without_edge_props(s: Seq<Connection>, e: Connection)
    ensures
        forall|i: int|
            0 <= i < conns_without_edge(s, e).len() ==> s.contains(
                #[trigger] conns_without_edge(s, e)[i],
            ) && conns_without_edge(s, e)[i] != e,
        forall|k: int|
            0 <= k < s.len() && s[k] != e ==> conns_without_edge(s, e).contains(#[trigger] s[k]),
        conns_without_edge(s, e).len() <= s.len(),
    decreases s.len(),
{
    if s.len() > 0 {
        lemma_without_edge_props(s.drop_last(), e);
        let f = conns_without_edge(s, e);
        let fd = conns_without_edge(s.drop_last(), e);
        assert forall|i: int| 0 <= i < f.len() implies s.contains(#[trigger] f[i]) && f[i] != e by {
            if i < fd.len() {
                assert(s.drop_last().contains(fd[i]));
                let k = choose|k: int| 0 <= k < s.drop_last().len() && s.drop_last()[k] == fd[i];
                assert(s[k] == fd[i]);
                assert(s.contains(f[i]));
            } else {
                assert(f[i] == s.last());
                assert(s[s.len() - 1] == s.last());
                assert(s.contains(f[i]));
            }
        }
        assert forall|k: int| 0 <= k < s.len() && s[k] != e implies f.contains(#[trigger] s[k]) by {
            if k < s.len() - 1 {
                assert(s.drop_last()[k] == s[k]);
                assert(fd.contains(s[k]));
                let j = choose|j: int| 0 <= j < fd.len() && fd[j] == s[k];
                assert(f[j] == s[k]);
                assert(f.contains(s[k]));
            } else {
                assert(f[f.len() - 1] == s[k]);
                assert(f.contains(s[k]));
            }
        }
    }
}

/// What `conns_in_range_for` keeps: exactly the connections of `s`
/// that stay in range when node `id` takes the shape of `kind`.
pub proof fn lemma_in_range_for_props(s: Seq<Connection>, id: u64, kind: OSRCNode)
    ensures
        forall|i: int|
            0 <= i < conns_in_range_for(s, id, kind).len() ==> s.contains(
                #[trigger] conns_in_range_for(s, id, kind)[i],
            ) && (conns_in_range_for(s, id, kind)[i].from_node != id || (conns_in_range_for(
                s,
                id,
                kind,
            )[i].from_pin as nat) < kind.spec_output_count()) && (conns_in_range_for(
                s,
                id,
                kind,
            )[i].to_node != id || (conns_in_range_for(s, id, kind)[i].to_pin as nat)
                < kind.spec_input_count()),
        forall|k: int|
            0 <= k < s.len() && (s[k].from_node != id || (s[k].from_pin as nat)
                < kind.spec_output_count()) && (s[k].to_node != id || (s[k].to_pin as nat)
                < kind.spec_input_count()) ==> conns_in_range_for(s, id, kind).contains(
                #[trigger] s[k],
            ),
        conns_in_range_for(s, id, kind).len() <= s.len(),
    decreases s.len(),
{
    if s.len() > 0 {
        lemma_in_range_for_props(s.drop_last(), id, kind);
        let f = conns_in_range_for(s, id, kind);
        let fd = conns_in_range_for(s.drop_last(), id, kind);
        assert forall|i: int| 0 <= i < f.len() implies s.contains(#[trigger] f[i]) && (f[i].from_node
            != id || (f[i].from_pin as nat) < kind.spec_output_count()) && (f[i].to_node != id || (
        f[i].to_pin as nat) < kind.spec_input_count()) by {
            if i < fd.len() {
                assert(s.drop_last().contains(fd[i]));
                let k = choose|k: int| 0 <= k < s.drop_last().len() && s.drop_last()[k] == fd[i];
                assert(s[k] == fd[i]);
                assert(s.contains(f[i]));
            } else {
                assert(f[i] == s.last());
                assert(s[s.len() - 1] == s.last());
                assert(s.contains(f[i]));
            }
        }
        assert forall|k: int|
            0 <= k < s.len() && (s[k].from_node != id || (s[k].from_pin as nat)
                < kind.spec_output_count()) && (s[k].to_node != id || (s[k].to_pin as nat)
                < kind.spec_input_count()) implies f.contains(#[trigger] s[k]) by {
            if k < s.len() - 1 {
                assert(s.drop_last()[k] == s[k]);
                assert(fd.contains(s[k]));
                let j = choose|j: int| 0 <= j < fd.len() && fd[j] == s[k];
                assert(f[j] == s[k]);
                assert(f.contains(s[k]));
            } else {
                assert(f[f.len() - 1] == s[k]);
                assert(f.contains(s[k]));
            }
        }
    }
}

/// The single-driver property survives `conns_not_incident`.
pub proof fn lemma_not_incident_single_driver(s: Seq<Connection>, id: u64)
    requires
        single_driver(s),
    ensures
        single_driver(conns_not_incident(s, id)),
    decreases s.len(),
{
    if s.len() > 0 {
        lemma_not_incident_single_driver(s.drop_last(), id);
        if s.last().from_node != id && s.last().to_node != id {
            let fd = conns_not_incident(s.drop_last(), id);
            lemma_not_incident_props(s.drop_last(), id);
            assert forall|i: int| 0 <= i < fd.len() implies !((#[trigger] fd[i]).to_node
                == s.last().to_node && fd[i].to_pin == s.last().to_pin) by {
                assert(s.drop_last().contains(fd[i]));
                let k = choose|k: int| 0 <= k < s.drop_last().len() && s.drop_last()[k] == fd[i];
                assert(s[k] == fd[i]);
                assert(!(s[k].to_node == s[s.len() - 1].to_node && s[k].to_pin == s[s.len()
                    - 1].to_pin));
            }
        }
    }
}

/// The single-driver property survives `conns_without_target`.
pub proof fn lemma_without_target_single_driver(s: Seq<Connection>, tn: u64, tp: usize)
    requires
        single_driver(s),
    ensures
        single_driver(conns_without_target(s, tn, tp)),
    decreases s.len(),
{
    if s.len() > 0 {
        lemma_without_target_single_driver(s.drop_last(), tn, tp);
        if !(s.last().to_node == tn && s.last().to_pin == tp) {
            let fd = conns_without_target(s.drop_last(), tn, tp);
            lemma_without_target_props(s.drop_last(), tn, tp);
            assert forall|i: int| 0 <= i < fd.len() implies !((#[trigger] fd[i]).to_node
                == s.last().to_node && fd[i].to_pin == s.last().to_pin) by {
                assert(s.drop_last().contains(fd[i]));
                let k = choose|k: int| 0 <= k < s.drop_last().len() && s.drop_last()[k] == fd[i];
                assert(s[k] == fd[i]);
                assert(!(s[k].to_node == s[s.len() - 1].to_node && s[k].to_pin == s[s.len()
                    - 1].to_pin));
            }
        }
    }
}

/// The single-driver property survives `conns_without_edge`.
pub proof fn lemma_without_edge_single_driver(s: Seq<Connection>, e: Connection)
    requires
        single_driver(s),
    ensures
        single_driver(conns_without_edge(s, e)),
    decreases s.len(),
{
    if s.len() > 0 {
        lemma_without_edge_single_driver(s.drop_last(), e);
        if s.last() != e {
            let fd = conns_without_edge(s.drop_last(), e);
            lemma_without_edge_props(s.drop_last(), e);
            assert forall|i: int| 0 <= i < fd.len() implies !((#[trigger] fd[i]).to_node
                == s.last().to_node && fd[i].to_pin == s.last().to_pin) by {
                assert(s.drop_last().contains(fd[i]));
                let k = choose|k: int| 0 <= k < s.drop_last().len() && s.drop_last()[k] == fd[i];
                assert(s[k] == fd[i]);
                assert(!(s[k].to_node == s[s.len() - 1].to_node && s[k].to_pin == s[s.len()
                    - 1].to_pin));
            }
        }
    }
}

/// The single-driver property survives `conns_in_range_for`.
pub proof fn lemma_in_range_for_single_driver(s: Seq<Connection>, id: u64, kind: OSRCNode)
    requires
        single_driver(s),
    ensures
        single_driver(conns_in_range_for(s, id, kind)),
    decreases s.len(),
{
    if s.len() > 0 {
        lemma_in_range_for_single_driver(s.drop_last(), id, kind);
        let c = s.last();
        if (c.from_node != id || (c.from_pin as nat) < kind.spec_output_count()) && (c.to_node
            != id || (c.to_pin as nat) < kind.spec_input_count()) {
            let fd = conns_in_range_for(s.drop_last(), id, kind);
            lemma_in_range_for_props(s.drop_last(), id, kind);
            assert forall|i: int| 0 <= i < fd.len() implies !((#[trigger] fd[i]).to_node
                == s.last().to_node && fd[i].to_pin == s.last().to_pin) by {
                assert(s.drop_last().contains(fd[i]));
                let k = choose|k: int| 0 <= k < s.drop_last().len() && s.drop_last()[k] == fd[i];
                assert(s[k] == fd[i]);
                assert(!(s[k].to_node == s[s.len() - 1].to_node && s[k].to_pin == s[s.len()
                    - 1].to_pin));
            }
        }
    }
}

/// One network's graph: node instances keyed by stable identities
/// and the directed connections between their pins. `next_id` is the
/// identity the next inserted node will take; identities of removed
/// nodes are never reused within a session.
#[derive(Clone, Debug, PartialEq)]
pub struct Graph {
    pub next_id: u64,
    pub nodes: Vec<NodeInstance>,
    pub conns: Vec<Connection>,
}

/// Mathematical image of a `Graph`.
pub struct GraphV {
    pub next_id: u64,
    pub nodes: Seq<NodeInstanceV>,
    pub conns: Seq<Connection>,
}

impl View for Graph {
    type V = GraphV;

    open spec fn view(&self) -> GraphV {
        GraphV {
            next_id: self.next_id,
            nodes: self.nodes@.map_values(|n: NodeInstance| n@),
            conns: self.conns@,
        }
    }
}

/// Whether a connection request is accepted: both endpoints exist,
/// both pin indices are in range of the endpoints' current arities,
/// and the pin types are compatible.
pub open spec fn spec_connect_ok(
    g: Graph,
    from_node: u64,
    from_pin: usize,
    to_node: u64,
    to_pin: usize,
) -> bool {
    &&& spec_has_node(g.nodes@, from_node)
    &&& spec_has_node(g.nodes@, to_node)
    &&& (from_pin as nat) < spec_node_of(g.nodes@, from_node).kind.spec_output_count()
    &&& (to_pin as nat) < spec_node_of(g.nodes@, to_node).kind.spec_input_count()
    &&& spec_can_connect(
        spec_node_of(g.nodes@, from_node).kind.spec_pin_type_output(from_pin as int),
        spec_node_of(g.nodes@, to_node).kind.spec_pin_type_input(to_pin as int),
    )
}

impl Graph {
    /// Every node identity lies below the allocation cursor, so a
    /// fresh identity can never collide with a live one.
    pub open spec fn ids_fresh(self) -> bool {
        forall|i: int| 0 <= i < self.nodes@.len() ==> (#[trigger] self.nodes@[i]).id < self.next_id
    }

    /// The structural invariant: unique, never-reused identities;
    /// every connection within the current arity of both endpoints;
    /// at most one driver per input pin.
    pub open spec fn wf(self) -> bool {
        &&& nodes_distinct(self.nodes@)
        &&& self.ids_fresh()
        &&& conns_valid(self.nodes@, self.conns@)
        &&& single_driver(self.conns@)
    }

    /// An empty graph.
    pub fn new() -> (g: Graph)
        ensures
            g.wf(),
            g.nodes@.len() == 0,
            g.conns@.len() == 0,
            g.next_id == 0,
    {
        Graph { next_id: 0, nodes: Vec::new(), conns: Vec::new() }
    }

    /// Index of the node carrying `id`, if present.
    pub fn find_node(&self, id: u64) -> (r: Option<usize>)
        ensures
            match r {
                Some(i) => 0 <= i < self.nodes@.len() && self.nodes@[i as int].id == id
                    && spec_has_node(self.nodes@, id),
                None => !spec_has_node(self.nodes@, id),
            },
    {
        let n = self.nodes.len();
        let mut k: usize = 0;
        while k < n
            invariant
                n == self.nodes@.len(),
                0 <= k <= n,
                forall|j: int| 0 <= j < k ==> (#[trigger] self.nodes@[j]).id != id,
            decreases n - k,
        {
            if self.nodes[k].id == id {
                return Some(k);
            }
            k = k + 1;
        }
        None
    }

    /// Adds a node with a fresh identity and no connections; gives
    /// back the identity. The identity space is a machine word; a
    /// session can exhaust it only in theory, and the caller rules
    /// that out.
    pub fn insert_node(&mut self, kind: OSRCNode, pos_x: u32, pos_y: u32) -> (id: u64)
        requires
            old(self).wf(),
            old(self).next_id < u64::MAX,
        ensures
            final(self).wf(),
            id == old(self).next_id,
            final(self).next_id == old(self).next_id + 1,
            final(self).nodes@ == old(self).nodes@.push(
                (NodeInstance { id: old(self).next_id, pos_x, pos_y, kind }),
            ),
            final(self).conns@ == old(self).conns@,
            spec_has_node(final(self).nodes@, id),
            spec_node_of(final(self).nodes@, id) == (NodeInstance {
                id: old(self).next_id,
                pos_x,
                pos_y,
                kind,
            }),
    {
        let id = self.next_id;
        let ghost old_nodes = self.nodes@;
        let node = NodeInstance { id, pos_x, pos_y, kind };
        self.nodes.push(node);
        self.next_id = self.next_id + 1;
        proof {
            let s = self.nodes@;
            assert(s[s.len() - 1].id == id);
            assert(spec_has_node(s, id));
            assert(nodes_distinct(s));
            lemma_node_of_index(s, s.len() - 1);
            assert forall|c: int| 0 <= c < self.conns@.len() implies conn_valid(
                s,
                #[trigger] self.conns@[c],
            ) by {
                let cn = self.conns@[c];
                assert(conn_valid(old_nodes, cn));
                assert forall|i: int| 0 <= i < old_nodes.len() implies s.contains(
                    #[trigger] old_nodes[i],
                ) by {
                    assert(s[i] == old_nodes[i]);
                }
                lemma_node_of_stable(s, old_nodes, cn.from_node);
                lemma_node_of_stable(s, old_nodes, cn.to_node);
            }
        }
        id
    }

    /// Removes the node carrying `id` together with every connection
    /// incident to it on either endpoint; a no-op when the identity
    /// is absent.
    pub fn remove_node(&mut self, id: u64)
        requires
            old(self).wf(),
        ensures
            final(self).wf(),
            final(self).next_id == old(self).next_id,
            final(self).nodes@ == nodes_without(old(self).nodes@, id),
            final(self).conns@ == conns_not_incident(old(self).conns@, id),
            !spec_has_node(old(self).nodes@, id) ==> final(self).nodes@ == old(self).nodes@
                && final(self).conns@ == old(self).conns@,
    {
        let found = self.find_node(id);
        match found {
            None => {
                proof {
                    assert(forall|k: int|
                        0 <= k < self.nodes@.len() ==> (#[trigger] self.nodes@[k]).id != id);
                    lemma_nodes_without_absent(self.nodes@, id);
                    assert(forall|k: int|
                        0 <= k < self.conns@.len() ==> conn_valid(
                            self.nodes@,
                            #[trigger] self.conns@[k],
                        ));
                    assert forall|k: int| 0 <= k < self.conns@.len() implies (
                    #[trigger] self.conns@[k]).from_node != id && self.conns@[k].to_node != id by {
                        assert(conn_valid(self.nodes@, self.conns@[k]));
                    }
                    lemma_conns_not_incident_absent(self.conns@, id);
                }
            },
            Some(i) => {
                let ghost old_nodes = self.nodes@;
                let ghost old_conns = self.conns@;
                let n = self.conns.len();
                let mut kept: Vec<Connection> = Vec::new();
                let mut k: usize = 0;
                while k < n
                    invariant
                        n == self.conns@.len(),
                        0 <= k <= n,
                        kept@ == conns_not_incident(self.conns@.take(k as int), id),
                    decreases n - k,
                {
                    let c = self.conns[k];
                    proof {
                        assert(self.conns@.take(k + 1).drop_last() =~= self.conns@.take(k as int));
                        assert(self.conns@.take(k + 1).last() == c);
                    }
                    if c.from_node != id && c.to_node != id {
                        kept.push(c);
                    }
                    k = k + 1;
                }
                proof {
                    assert(self.conns@.take(n as int) =~= self.conns@);
                }
                self.conns = kept;
                self.nodes.remove(i);
                proof {
                    lemma_nodes_without_is_remove(old_nodes, id, i as int);
                    assert(self.nodes@ =~= old_nodes.remove(i as int));
                    lemma_nodes_without_distinct(old_nodes, id);
                    lemma_not_incident_single_driver(old_conns, id);
                    lemma_not_incident_props(old_conns, id);
                    lemma_nodes_without_props(old_nodes, id);
                    assert forall|c: int| 0 <= c < self.conns@.len() implies conn_valid(
                        self.nodes@,
                        #[trigger] self.conns@[c],
                    ) by {
                        let cn = self.conns@[c];
                        assert(old_conns.contains(cn));
                        let k0 = choose|k0: int| 0 <= k0 < old_conns.len() && old_conns[k0] == cn;
                        assert(conn_valid(old_nodes, old_conns[k0]));
                        let fsrc = spec_node_of(old_nodes, cn.from_node);
                        let ftgt = spec_node_of(old_nodes, cn.to_node);
                        lemma_node_of_index_any(old_nodes, cn.from_node);
                        lemma_node_of_index_any(old_nodes, cn.to_node);
                        assert(old_nodes.contains(fsrc) && fsrc.id == cn.from_node);
                        assert(old_nodes.contains(ftgt) && ftgt.id == cn.to_node);
                        let isrc = choose|j: int|
                            0 <= j < old_nodes.len() && old_nodes[j] == fsrc;
                        let itgt = choose|j: int|
                            0 <= j < old_nodes.len() && old_nodes[j] == ftgt;
                        assert(self.nodes@.contains(old_nodes[isrc]));
                        assert(self.nodes@.contains(old_nodes[itgt]));
                        assert(spec_has_node(self.nodes@, cn.from_node)) by {
                            let j = choose|j: int|
                                0 <= j < self.nodes@.len() && self.nodes@[j] == fsrc;
                            assert(self.nodes@[j].id == cn.from_node);
                        }
                        assert(spec_has_node(self.nodes@, cn.to_node)) by {
                            let j = choose|j: int|
                                0 <= j < self.nodes@.len() && self.nodes@[j] == ftgt;
                            assert(self.nodes@[j].id == cn.to_node);
                        }
                        lemma_node_of_stable(old_nodes, self.nodes@, cn.from_node);
                        lemma_node_of_stable(old_nodes, self.nodes@, cn.to_node);
                    }
                }
            },
        }
    }
}

impl Graph {
    /// Joins an output pin to an input pin. The request is refused —
    /// no state changes — unless both endpoints exist, both pin
    /// indices are in range, and the pin types are compatible. On
    /// success any connection already driving the input pin is
    /// replaced, so the pin never has two drivers, with no observable
    /// intermediate state.
    pub fn connect(&mut self, from_node: u64, from_pin: usize, to_node: u64, to_pin: usize)
        requires
            old(self).wf(),
        ensures
            final(self).wf(),
            final(self).next_id == old(self).next_id,
            final(self).nodes@ == old(self).nodes@,
            spec_connect_ok(*old(self), from_node, from_pin, to_node, to_pin)
                ==> final(self).conns@ == conns_without_target(
                old(self).conns@,
                to_node,
                to_pin,
            ).push((Connection { from_node, from_pin, to_node, to_pin })),
            !spec_connect_ok(*old(self), from_node, from_pin, to_node, to_pin)
                ==> final(self).conns@ == old(self).conns@,
    {
        let fi = match self.find_node(from_node) {
            Some(i) => i,
            None => {
                return ;
            },
        };
        let ti = match self.find_node(to_node) {
            Some(i) => i,
            None => {
                return ;
            },
        };
        proof {
            lemma_node_of_index(self.nodes@, fi as int);
            lemma_node_of_index(self.nodes@, ti as int);
        }
        let ok = {
            let out_ok = self.nodes[fi].kind.output_pin_in_range(from_pin);
            let in_ok = self.nodes[ti].kind.input_pin_in_range(to_pin);
            if out_ok && in_ok {
                let ft = self.nodes[fi].kind.pin_type_output(from_pin);
                let tt = self.nodes[ti].kind.pin_type_input(to_pin);
                ft.can_connect(&tt)
            } else {
                false
            }
        };
        if !ok {
            return ;
        }
        let ghost old_conns = self.conns@;
        let n = self.conns.len();
        let mut kept: Vec<Connection> = Vec::new();
        let mut k: usize = 0;
        while k < n
            invariant
                n == self.conns@.len(),
                0 <= k <= n,
                kept@ == conns_without_target(self.conns@.take(k as int), to_node, to_pin),
            decreases n - k,
        {
            let c = self.conns[k];
            proof {
                assert(self.conns@.take(k + 1).drop_last() =~= self.conns@.take(k as int));
                assert(self.conns@.take(k + 1).last() == c);
            }
            if !(c.to_node == to_node && c.to_pin == to_pin) {
                kept.push(c);
            }
            k = k + 1;
        }
        proof {
            assert(self.conns@.take(n as int) =~= self.conns@);
        }
        kept.push(Connection { from_node, from_pin, to_node, to_pin });
        self.conns = kept;
        proof {
            let e = (Connection { from_node, from_pin, to_node, to_pin });
            let keptc = conns_without_target(old_conns, to_node, to_pin);
            lemma_without_target_props(old_conns, to_node, to_pin);
            lemma_without_target_single_driver(old_conns, to_node, to_pin);
            assert forall|c: int| 0 <= c < self.conns@.len() implies conn_valid(
                self.nodes@,
                #[trigger] self.conns@[c],
            ) by {
                if c < keptc.len() {
                    let cn = self.conns@[c];
                    assert(cn == keptc[c]);
                    assert(old_conns.contains(cn));
                    let k0 = choose|k0: int| 0 <= k0 < old_conns.len() && old_conns[k0] == cn;
                    assert(conn_valid(self.nodes@, old_conns[k0]));
                } else {
                    assert(self.conns@[c] == e);
                }
            }
            assert forall|i: int, j: int| 0 <= i < j < self.conns@.len() implies !(self.conns@[i].to_node
                == self.conns@[j].to_node && self.conns@[i].to_pin == self.conns@[j].to_pin) by {
                if j == self.conns@.len() - 1 {
                    assert(self.conns@[i] == keptc[i]);
                    assert(!(keptc[i].to_node == to_node && keptc[i].to_pin == to_pin));
                } else {
                    assert(self.conns@[i] == keptc[i]);
                    assert(self.conns@[j] == keptc[j]);
                }
            }
        }
    }

    /// Removes the exact edge, if present; a no-op otherwise.
    pub fn disconnect(&mut self, from_node: u64, from_pin: usize, to_node: u64, to_pin: usize)
        requires
            old(self).wf(),
        ensures
            final(self).wf(),
            final(self).next_id == old(self).next_id,
            final(self).nodes@ == old(self).nodes@,
            final(self).conns@ == conns_without_edge(
                old(self).conns@,
                (Connection { from_node, from_pin, to_node, to_pin }),
            ),
    {
        let e = Connection { from_node, from_pin, to_node, to_pin };
        let ghost old_conns = self.conns@;
        let n = self.conns.len();
        let mut kept: Vec<Connection> = Vec::new();
        let mut k: usize = 0;
        while k < n
            invariant
                n == self.conns@.len(),
                0 <= k <= n,
                kept@ == conns_without_edge(self.conns@.take(k as int), e),
            decreases n - k,
        {
            let c = self.conns[k];
            proof {
                assert(self.conns@.take(k + 1).drop_last() =~= self.conns@.take(k as int));
                assert(self.conns@.take(k + 1).last() == c);
            }
            if !(c == e) {
                kept.push(c);
            }
            k = k + 1;
        }
        proof {
            assert(self.conns@.take(n as int) =~= self.conns@);
        }
        self.conns = kept;
        proof {
            lemma_without_edge_props(old_conns, e);
            lemma_without_edge_single_driver(old_conns, e);
            assert forall|c: int| 0 <= c < self.conns@.len() implies conn_valid(
                self.nodes@,
                #[trigger] self.conns@[c],
            ) by {
                let cn = self.conns@[c];
                assert(old_conns.contains(cn));
                let k0 = choose|k0: int| 0 <= k0 < old_conns.len() && old_conns[k0] == cn;
                assert(conn_valid(self.nodes@, old_conns[k0]));
            }
        }
    }

    /// Replaces the configuration of node `id` by `kind` and, in the
    /// same transaction, prunes every connection whose pin index is
    /// out of range for the node's new port shape. Pin-type
    /// compatibility of surviving connections is deliberately not
    /// re-checked here. A no-op when the identity is absent.
    pub fn set_node_kind(&mut self, id: u64, kind: OSRCNode)
        requires
            old(self).wf(),
        ensures
            final(self).wf(),
            final(self).next_id == old(self).next_id,
            !spec_has_node(old(self).nodes@, id) ==> final(self).nodes@ == old(self).nodes@
                && final(self).conns@ == old(self).conns@,
            spec_has_node(old(self).nodes@, id) ==> final(self).nodes@ == nodes_with_kind(
                old(self).nodes@,
                id,
                kind,
            ) && final(self).conns@ == conns_in_range_for(old(self).conns@, id, kind),
    {
        let i = match self.find_node(id) {
            Some(i) => i,
            None => {
                return ;
            },
        };
        let ghost old_nodes = self.nodes@;
        let ghost old_conns = self.conns@;
        let n = self.conns.len();
        let mut kept: Vec<Connection> = Vec::new();
        let mut k: usize = 0;
        while k < n
            invariant
                n == self.conns@.len(),
                0 <= k <= n,
                kept@ == conns_in_range_for(self.conns@.take(k as int), id, kind),
            decreases n - k,
        {
            let c = self.conns[k];
            proof {
                assert(self.conns@.take(k + 1).drop_last() =~= self.conns@.take(k as int));
                assert(self.conns@.take(k + 1).last() == c);
            }
            let keep_from = c.from_node != id || kind.output_pin_in_range(c.from_pin);
            let keep_to = c.to_node != id || kind.input_pin_in_range(c.to_pin);
            if keep_from && keep_to {
                kept.push(c);
            }
            k = k + 1;
        }
        proof {
            assert(self.conns@.take(n as int) =~= self.conns@);
        }
        let nid = self.nodes[i].id;
        let px = self.nodes[i].pos_x;
        let py = self.nodes[i].pos_y;
        self.nodes.set(i, NodeInstance { id: nid, pos_x: px, pos_y: py, kind });
        self.conns = kept;
        proof {
            assert forall|j: int| 0 <= j < old_nodes.len() && j != i implies old_nodes[j].id != id by {}
            assert(self.nodes@ =~= nodes_with_kind(old_nodes, id, kind));
            let new_nodes = self.nodes@;
            assert(forall|j: int|
                0 <= j < new_nodes.len() ==> (#[trigger] new_nodes[j]).id == old_nodes[j].id);
            assert(nodes_distinct(new_nodes));
            lemma_in_range_for_props(old_conns, id, kind);
            lemma_in_range_for_single_driver(old_conns, id, kind);
            assert forall|c: int| 0 <= c < self.conns@.len() implies conn_valid(
                new_nodes,
                #[trigger] self.conns@[c],
            ) by {
                let cn = self.conns@[c];
                assert(old_conns.contains(cn));
                let k0 = choose|k0: int| 0 <= k0 < old_conns.len() && old_conns[k0] == cn;
                assert(conn_valid(old_nodes, old_conns[k0]));
                lemma_with_kind_node_of(old_nodes, id, kind, cn.from_node);
                lemma_with_kind_node_of(old_nodes, id, kind, cn.to_node);
                if cn.from_node == id {
                    assert((cn.from_pin as nat) < kind.spec_output_count());
                    assert(spec_node_of(new_nodes, cn.from_node).kind == kind);
                } else {
                    assert(spec_node_of(new_nodes, cn.from_node) == spec_node_of(
                        old_nodes,
                        cn.from_node,
                    ));
                }
                if cn.to_node == id {
                    assert((cn.to_pin as nat) < kind.spec_input_count());
                    assert(spec_node_of(new_nodes, cn.to_node).kind == kind);
                } else {
                    assert(spec_node_of(new_nodes, cn.to_node) == spec_node_of(
                        old_nodes,
                        cn.to_node,
                    ));
                }
            }
        }
    }
}

impl Graph {
    /// Decides the structural invariant, for a graph that arrived
    /// from outside the mutation protocol — a decoded document, say —
    /// before it is edited further.
    pub fn validate(&self) -> (r: bool)
        ensures
            r == self.wf(),
    {
        let n = self.nodes.len();
        let mut i: usize = 0;
        while i < n
            invariant
                n == self.nodes@.len(),
                0 <= i <= n,
                forall|a: int, b: int|
                    0 <= a < b < n && a < i ==> self.nodes@[a].id != self.nodes@[b].id,
                forall|a: int| 0 <= a < i ==> (#[trigger] self.nodes@[a]).id < self.next_id,
            decreases n - i,
        {
            if !(self.nodes[i].id < self.next_id) {
                return false;
            }
            let mut j: usize = i + 1;
            while j < n
                invariant
                    n == self.nodes@.len(),
                    0 <= i < n,
                    i < j <= n,
                    forall|b: int| i < b < j ==> self.nodes@[i as int].id != self.nodes@[b].id,
                decreases n - j,
            {
                if self.nodes[i].id == self.nodes[j].id {
                    return false;
                }
                j = j + 1;
            }
            i = i + 1;
        }
        let m = self.conns.len();
        let mut k: usize = 0;
        while k < m
            invariant
                m == self.conns@.len(),
                0 <= k <= m,
                nodes_distinct(self.nodes@),
                self.ids_fresh(),
                forall|a: int| 0 <= a < k ==> conn_valid(self.nodes@, #[trigger] self.conns@[a]),
            decreases m - k,
        {
            let c = self.conns[k];
            let fi = match self.find_node(c.from_node) {
                Some(fi) => fi,
                None => {
                    return false;
                },
            };
            let ti = match self.find_node(c.to_node) {
                Some(ti) => ti,
                None => {
                    return false;
                },
            };
            proof {
                lemma_node_of_index(self.nodes@, fi as int);
                lemma_node_of_index(self.nodes@, ti as int);
            }
            if !self.nodes[fi].kind.output_pin_in_range(c.from_pin) {
                return false;
            }
            if !self.nodes[ti].kind.input_pin_in_range(c.to_pin) {
                return false;
            }
            k = k + 1;
        }
        let mut p: usize = 0;
        while p < m
            invariant
                m == self.conns@.len(),
                0 <= p <= m,
                nodes_distinct(self.nodes@),
                self.ids_fresh(),
                conns_valid(self.nodes@, self.conns@),
                forall|a: int, b: int|
                    0 <= a < b < m && a < p ==> !(self.conns@[a].to_node == self.conns@[b].to_node
                        && self.conns@[a].to_pin == self.conns@[b].to_pin),
            decreases m - p,
        {
            let mut q: usize = p + 1;
            while q < m
                invariant
                    m == self.conns@.len(),
                    0 <= p < m,
                    p < q <= m,
                    forall|b: int|
                        p < b < q ==> !(self.conns@[p as int].to_node == self.conns@[b].to_node
                            && self.conns@[p as int].to_pin == self.conns@[b].to_pin),
                decreases m - q,
            {
                if self.conns[p].to_node == self.conns[q].to_node && self.conns[p].to_pin
                    == self.conns[q].to_pin {
                    return false;
                }
                q = q + 1;
            }
            p = p + 1;
        }
        true
    }
}

/// Replacing one node's kind moves no identities: lookups of any
/// other identity give the unchanged node, and a lookup of the edited
/// identity gives the same node with the new kind.
pub proof fn lemma_with_kind_node_of(s: Seq<NodeInstance>, id: u64, kind: OSRCNode, ep: u64)
    requires
        nodes_distinct(s),
        spec_has_node(s, ep),
    ensures
        spec_has_node(nodes_with_kind(s, id, kind), ep),
        nodes_distinct(nodes_with_kind(s, id, kind)),
        ep != id ==> spec_node_of(nodes_with_kind(s, id, kind), ep) == spec_node_of(s, ep),
        ep == id ==> spec_node_of(nodes_with_kind(s, id, kind), ep) == (NodeInstance {
            id: spec_node_of(s, ep).id,
            pos_x: spec_node_of(s, ep).pos_x,
            pos_y: spec_node_of(s, ep).pos_y,
            kind: kind,
        }),
{
    let u = nodes_with_kind(s, id, kind);
    assert(forall|j: int| 0 <= j < u.len() ==> (#[trigger] u[j]).id == s[j].id);
    let i0 = choose|i: int| 0 <= i < s.len() && s[i].id == ep;
    assert(u[i0].id == ep);
    assert(spec_has_node(u, ep));
    let j0 = choose|j: int| 0 <= j < u.len() && u[j].id == ep;
    if j0 != i0 {
        assert(s[j0].id == s[i0].id);
        assert(false);
    }
    lemma_node_of_index(s, i0);
}

/// How many connections of `s` drive the input pin `(tn, tp)`.
pub open spec fn count_drivers(s: Seq<Connection>, tn: u64, tp: usize) -> nat
    decreases s.len(),
{
    if s.len() == 0 {
        0
    } else {
        count_drivers(s.drop_last(), tn, tp) + (if s.last().to_node == tn && s.last().to_pin
            == tp {
            1nat
        } else {
            0nat
        })
    }
}

/// A sequence in which no connection drives the pin counts zero
/// drivers for it.
pub proof fn lemma_count_drivers_none(s: Seq<Connection>, tn: u64, tp: usize)
    requires
        forall|i: int|
            0 <= i < s.len() ==> !((#[trigger] s[i]).to_node == tn && s[i].to_pin == tp),
    ensures
        count_drivers(s, tn, tp) == 0,
    decreases s.len(),
{
    if s.len() > 0 {
        assert(forall|i: int|
            0 <= i < s.drop_last().len() ==> !((#[trigger] s.drop_last()[i]).to_node == tn
                && s.drop_last()[i].to_pin == tp));
        lemma_count_drivers_none(s.drop_last(), tn, tp);
        assert(!(s[s.len() - 1].to_node == tn && s[s.len() - 1].to_pin == tp));
    }
}

/// In a well-formed graph every input pin has at most one incoming
/// connection: the single-driver property, counted.
pub proof fn lemma_single_driver_at_most_one(s: Seq<Connection>, tn: u64, tp: usize)
    requires
        single_driver(s),
    ensures
        count_drivers(s, tn, tp) <= 1,
    decreases s.len(),
{
    if s.len() > 0 {
        lemma_single_driver_at_most_one(s.drop_last(), tn, tp);
        if s.last().to_node == tn && s.last().to_pin == tp {
            assert forall|i: int|
                0 <= i < s.drop_last().len() implies !((#[trigger] s.drop_last()[i]).to_node == tn
                && s.drop_last()[i].to_pin == tp) by {
                assert(s.drop_last()[i] == s[i]);
                assert(!(s[i].to_node == s[s.len() - 1].to_node && s[i].to_pin == s[s.len()
                    - 1].to_pin));
            }
            lemma_count_drivers_none(s.drop_last(), tn, tp);
        }
    }
}

/// Replace-on-connect, counted: after a connection replaces whatever
/// drove its input pin, exactly one connection drives that pin.
pub proof fn lemma_replace_on_connect_count(s: Seq<Connection>, e: Connection)
    ensures
        count_drivers(
            conns_without_target(s, e.to_node, e.to_pin).push(e),
            e.to_node,
            e.to_pin,
        ) == 1,
{
    let kept = conns_without_target(s, e.to_node, e.to_pin);
    lemma_without_target_props(s, e.to_node, e.to_pin);
    lemma_count_drivers_none(kept, e.to_node, e.to_pin);
    assert(kept.push(e).drop_last() =~= kept);
    assert(kept.push(e).last() == e);
}

/// Replace-on-connect: after a connection to an input pin replaces
/// whatever drove it, exactly the new edge drives that pin — every
/// connection of the result that targets the pin is the new edge,
/// which stands last.
pub proof fn lemma_replace_on_connect(s: Seq<Connection>, e: Connection)
    ensures
        conns_without_target(s, e.to_node, e.to_pin).push(e).last() == e,
        forall|i: int|
            0 <= i < conns_without_target(s, e.to_node, e.to_pin).push(e).len()
                && (#[trigger] conns_without_target(s, e.to_node, e.to_pin).push(e)[i]).to_node
                == e.to_node && conns_without_target(s, e.to_node, e.to_pin).push(e)[i].to_pin
                == e.to_pin ==> conns_without_target(s, e.to_node, e.to_pin).push(e)[i] == e,
{
    lemma_without_target_props(s, e.to_node, e.to_pin);
    let f = conns_without_target(s, e.to_node, e.to_pin).push(e);
    assert forall|i: int|
        0 <= i < f.len() && (#[trigger] f[i]).to_node == e.to_node && f[i].to_pin
            == e.to_pin implies f[i] == e by {
        if i < f.len() - 1 {
            assert(f[i] == conns_without_target(s, e.to_node, e.to_pin)[i]);
        }
    }
}

/// A cascade that touches nothing keeps every connection.
pub proof fn lemma_conns_not_incident_absent(s: Seq<Connection>, id: u64)
    requires
        forall|k: int|
            0 <= k < s.len() ==> (#[trigger] s[k]).from_node != id && s[k].to_node != id,
    ensures
        conns_not_incident(s, id) == s,
    decreases s.len(),
{
    if s.len() > 0 {
        assert(forall|k: int|
            0 <= k < s.drop_last().len() ==> (#[trigger] s.drop_last()[k]).from_node != id
                && s.drop_last()[k].to_node != id);
        lemma_conns_not_incident_absent(s.drop_last(), id);
        assert(s[s.len() - 1].from_node != id && s[s.len() - 1].to_node != id);
        assert(conns_not_incident(s, id) =~= s);
    }
}

/// The node an identity names is itself a member of the sequence.
pub proof fn lemma_node_of_index_any(s: Seq<NodeInstance>, id: u64)
    requires
        spec_has_node(s, id),
    ensures
        s.contains(spec_node_of(s, id)),
        spec_node_of(s, id).id == id,
{
    let i = choose|i: int| 0 <= i < s.len() && s[i].id == id;
    assert(s[i] == spec_node_of(s, id));
}

} // verus!
