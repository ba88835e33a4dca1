use osrc::graph::Connection;
use osrc::graph::Graph;
use osrc::node::GateType;
use osrc::node::OSRCNode;
use osrc::node::PinType;

fn bool_const(name: &str) -> OSRCNode {
    OSRCNode::Constant {
        itype: PinType::Bool,
        value: "1".to_string(),
        node_name: name.to_string(),
    }
}

#[test]
fn insert_allocates_fresh_identities() {
    let mut g = Graph::new();
    let a = g.insert_node(bool_const("a"), 0, 0);
    let b = g.insert_node(bool_const("b"), 0, 0);
    assert_ne!(a, b);
    g.remove_node(a);
    let c = g.insert_node(bool_const("c"), 0, 0);
    assert_ne!(c, a);
    assert_ne!(c, b);
    assert_eq!(g.nodes.len(), 2);
}

#[test]
fn connect_accepts_compatible_pins() {
    let mut g = Graph::new();
    let src = g.insert_node(bool_const("src"), 0, 0);
    let gate = g.insert_node(OSRCNode::LogicGate { gtype: GateType::AND(2) }, 0, 0);
    g.connect(src, 0, gate, 0);
    assert_eq!(g.conns.len(), 1);
    assert_eq!(
        g.conns[0],
        Connection { from_node: src, from_pin: 0, to_node: gate, to_pin: 0 }
    );
}

#[test]
fn connect_refuses_type_mismatch() {
    let mut g = Graph::new();
    let src = g.insert_node(
        OSRCNode::Constant {
            itype: PinType::U8,
            value: "5".to_string(),
            node_name: String::new(),
        },
        0,
        0,
    );
    let gate = g.insert_node(OSRCNode::LogicGate { gtype: GateType::AND(2) }, 0, 0);
    g.connect(src, 0, gate, 0);
    assert_eq!(g.conns.len(), 0);
}

#[test]
fn connect_refuses_out_of_range_pins() {
    let mut g = Graph::new();
    let src = g.insert_node(bool_const("src"), 0, 0);
    let gate = g.insert_node(OSRCNode::LogicGate { gtype: GateType::AND(2) }, 0, 0);
    g.connect(src, 1, gate, 0);
    g.connect(src, 0, gate, 2);
    g.connect(src, 0, 999, 0);
    assert_eq!(g.conns.len(), 0);
}

#[test]
fn connect_refuses_none_pins() {
    let mut g = Graph::new();
    let a = g.insert_node(bool_const("a"), 0, 0);
    let b = g.insert_node(bool_const("b"), 0, 0);
    // a constant has no input pins at all
    g.connect(a, 0, b, 0);
    assert_eq!(g.conns.len(), 0);
}

#[test]
fn replace_on_connect_keeps_one_driver() {
    let mut g = Graph::new();
    let a = g.insert_node(bool_const("a"), 0, 0);
    let b = g.insert_node(bool_const("b"), 0, 0);
    let gate = g.insert_node(OSRCNode::LogicGate { gtype: GateType::AND(2) }, 0, 0);
    g.connect(a, 0, gate, 0);
    g.connect(b, 0, gate, 0);
    assert_eq!(g.conns.len(), 1);
    assert_eq!(
        g.conns[0],
        Connection { from_node: b, from_pin: 0, to_node: gate, to_pin: 0 }
    );
}

#[test]
fn disconnect_removes_only_the_named_edge() {
    let mut g = Graph::new();
    let a = g.insert_node(bool_const("a"), 0, 0);
    let gate = g.insert_node(OSRCNode::LogicGate { gtype: GateType::AND(2) }, 0, 0);
    g.connect(a, 0, gate, 0);
    g.connect(a, 0, gate, 1);
    g.disconnect(a, 0, gate, 0);
    assert_eq!(g.conns.len(), 1);
    assert_eq!(
        g.conns[0],
        Connection { from_node: a, from_pin: 0, to_node: gate, to_pin: 1 }
    );
    // absent edge: no-op
    g.disconnect(a, 0, gate, 0);
    assert_eq!(g.conns.len(), 1);
}

#[test]
fn remove_node_cascades_exactly_its_connections() {
    let mut g = Graph::new();
    let a = g.insert_node(bool_const("a"), 0, 0);
    let b = g.insert_node(bool_const("b"), 0, 0);
    let gate = g.insert_node(OSRCNode::LogicGate { gtype: GateType::AND(2) }, 0, 0);
    let sink = g.insert_node(
        OSRCNode::ApiOutput { itype: PinType::Bool, node_name: String::new() },
        0,
        0,
    );
    g.connect(a, 0, gate, 0);
    g.connect(b, 0, gate, 1);
    g.connect(gate, 0, sink, 0);
    assert_eq!(g.conns.len(), 3);
    // three connections are incident to it: two in, one out
    g.remove_node(gate);
    assert_eq!(g.conns.len(), 0);
    assert_eq!(g.nodes.len(), 3);
}

#[test]
fn remove_node_is_a_no_op_on_an_absent_identity() {
    let mut g = Graph::new();
    let a = g.insert_node(bool_const("a"), 0, 0);
    g.remove_node(12345);
    assert_eq!(g.nodes.len(), 1);
    assert_eq!(g.nodes[0].id, a);
}

#[test]
fn cycles_through_delays_are_legal() {
    let mut g = Graph::new();
    let delay = g.insert_node(
        OSRCNode::EdgeDelay { cycles: 1, rising_edge: true, falling_edge: false },
        0,
        0,
    );
    let gate = g.insert_node(OSRCNode::LogicGate { gtype: GateType::NOT }, 0, 0);
    g.connect(delay, 0, gate, 0);
    g.connect(gate, 0, delay, 0);
    assert_eq!(g.conns.len(), 2);
}

#[test]
fn constant_to_bitwise_split_of_matching_width() {
    let mut g = Graph::new();
    let c = g.insert_node(
        OSRCNode::Constant {
            itype: PinType::U8,
            value: "5".to_string(),
            node_name: String::new(),
        },
        0,
        0,
    );
    let split8 = g.insert_node(OSRCNode::BitwiseSplit { num_bits: 8 }, 0, 0);
    let split16 = g.insert_node(OSRCNode::BitwiseSplit { num_bits: 16 }, 0, 0);
    assert_eq!(PinType::from_size(8), PinType::U8);
    assert!(PinType::U8.can_connect(&PinType::from_size(8)));
    g.connect(c, 0, split8, 0);
    assert_eq!(g.conns.len(), 1);
    // a 16-bit split expects a U16 input: the attempt must be rejected
    g.connect(c, 0, split16, 0);
    assert_eq!(g.conns.len(), 1);
    assert_eq!(g.conns[0].to_node, split8);
}

#[test]
fn narrowing_a_gate_prunes_exactly_the_out_of_range_inputs() {
    let mut g = Graph::new();
    let mut sources = Vec::new();
    for i in 0..4 {
        sources.push(g.insert_node(bool_const(&format!("s{}", i)), 0, 0));
    }
    let gate = g.insert_node(OSRCNode::LogicGate { gtype: GateType::AND(4) }, 0, 0);
    for (pin, src) in sources.iter().enumerate() {
        g.connect(*src, 0, gate, pin);
    }
    assert_eq!(g.conns.len(), 4);
    g.set_node_kind(gate, OSRCNode::LogicGate { gtype: GateType::AND(2) });
    assert_eq!(g.conns.len(), 2);
    for c in &g.conns {
        assert!(c.to_pin == 0 || c.to_pin == 1);
    }
    assert_eq!(g.conns[0].from_node, sources[0]);
    assert_eq!(g.conns[1].from_node, sources[1]);
    // it kept its identity and carries the new fan-in
    let gate_node = g.nodes.iter().find(|n| n.id == gate).unwrap();
    assert_eq!(gate_node.kind, OSRCNode::LogicGate { gtype: GateType::AND(2) });
}

#[test]
fn widening_a_gate_prunes_nothing() {
    let mut g = Graph::new();
    let a = g.insert_node(bool_const("a"), 0, 0);
    let gate = g.insert_node(OSRCNode::LogicGate { gtype: GateType::AND(2) }, 0, 0);
    g.connect(a, 0, gate, 1);
    g.set_node_kind(gate, OSRCNode::LogicGate { gtype: GateType::AND(8) });
    assert_eq!(g.conns.len(), 1);
}

#[test]
fn find_node_reports_presence() {
    let mut g = Graph::new();
    let a = g.insert_node(bool_const("a"), 7, 9);
    assert_eq!(g.find_node(a), Some(0));
    assert_eq!(g.find_node(a + 1), None);
    assert_eq!(g.nodes[0].pos_x, 7);
    assert_eq!(g.nodes[0].pos_y, 9);
}

#[test]
fn a_graph_built_through_the_protocol_validates() {
    let mut g = Graph::new();
    let a = g.insert_node(bool_const("a"), 0, 0);
    let gate = g.insert_node(OSRCNode::LogicGate { gtype: GateType::AND(2) }, 0, 0);
    g.connect(a, 0, gate, 0);
    assert!(g.validate());
}

#[test]
fn validate_rejects_duplicate_identities() {
    let mut g = Graph::new();
    let a = g.insert_node(bool_const("a"), 0, 0);
    let mut copy = g.nodes[0].clone();
    copy.id = a;
    g.nodes.push(copy);
    assert!(!g.validate());
}

#[test]
fn validate_rejects_dangling_and_out_of_range_connections() {
    let mut g = Graph::new();
    let a = g.insert_node(bool_const("a"), 0, 0);
    let gate = g.insert_node(OSRCNode::LogicGate { gtype: GateType::AND(2) }, 0, 0);
    g.conns.push(Connection { from_node: a, from_pin: 0, to_node: 77, to_pin: 0 });
    assert!(!g.validate());
    g.conns.clear();
    g.conns.push(Connection { from_node: a, from_pin: 0, to_node: gate, to_pin: 9 });
    assert!(!g.validate());
}

#[test]
fn validate_rejects_a_doubly_driven_input() {
    let mut g = Graph::new();
    let a = g.insert_node(bool_const("a"), 0, 0);
    let b = g.insert_node(bool_const("b"), 0, 0);
    let gate = g.insert_node(OSRCNode::LogicGate { gtype: GateType::AND(2) }, 0, 0);
    g.conns.push(Connection { from_node: a, from_pin: 0, to_node: gate, to_pin: 0 });
    g.conns.push(Connection { from_node: b, from_pin: 0, to_node: gate, to_pin: 0 });
    assert!(!g.validate());
}
