use osrc::graph::Graph;
use osrc::node::GateType;
use osrc::node::MathOperation;
use osrc::node::NaryOperation;
use osrc::node::OSRCNode;
use osrc::node::PinType;

struct Lcg(u64);

impl Lcg {
    fn next(&mut self) -> u64 {
        self.0 = self.0.wrapping_mul(6364136223846793005).wrapping_add(1442695040888963407);
        self.0 >> 16
    }

    fn below(&mut self, n: u64) -> u64 {
        self.next() % n
    }
}

fn arbitrary_kind(r: &mut Lcg) -> OSRCNode {
    match r.below(8) {
        0 => OSRCNode::Constant {
            itype: PinType::Bool,
            value: "1".to_string(),
            node_name: String::new(),
        },
        1 => OSRCNode::LogicGate { gtype: GateType::AND(2 + r.below(6) as usize) },
        2 => OSRCNode::LogicGate { gtype: GateType::NOT },
        3 => OSRCNode::BitwiseSplit { num_bits: 1 + r.below(32) as usize },
        4 => OSRCNode::BitwiseJoin { num_bits: 1 + r.below(32) as usize },
        5 => OSRCNode::Multiplexer { itype: PinType::Bool, input_bits: 1 + r.below(4) as usize },
        6 => OSRCNode::MathOperation {
            itype: PinType::UNDEFINED,
            operator: MathOperation::Nary(NaryOperation::ADD, 2 + r.below(5) as usize),
        },
        _ => OSRCNode::EdgeDelay {
            cycles: r.below(100) as usize,
            rising_edge: r.below(2) == 0,
            falling_edge: r.below(2) == 0,
        },
    }
}

/// After any sequence of inserts, connects, disconnects, removals
/// and field edits, the structural invariant holds: no dangling or
/// out-of-range connection, no doubly driven input, no reused
/// identity.
#[test]
fn the_invariant_survives_arbitrary_operation_sequences() {
    let mut r = Lcg(0x5eed);
    let mut g = Graph::new();
    for step in 0..600 {
        let ids: Vec<u64> = g.nodes.iter().map(|n| n.id).collect();
        let pick = |r: &mut Lcg, ids: &Vec<u64>| -> u64 {
            if ids.is_empty() || r.below(8) == 0 {
                r.below(40)
            } else {
                ids[r.below(ids.len() as u64) as usize]
            }
        };
        match r.below(10) {
            0 | 1 | 2 => {
                let k = arbitrary_kind(&mut r);
                g.insert_node(k, step as u32, step as u32);
            },
            3 | 4 | 5 | 6 => {
                let from = pick(&mut r, &ids);
                let to = pick(&mut r, &ids);
                let fp = r.below(40) as usize;
                let tp = r.below(40) as usize;
                g.connect(from, fp, to, tp);
            },
            7 => {
                let from = pick(&mut r, &ids);
                let to = pick(&mut r, &ids);
                g.disconnect(from, r.below(40) as usize, to, r.below(40) as usize);
            },
            8 => {
                let id = pick(&mut r, &ids);
                g.remove_node(id);
            },
            _ => {
                let id = pick(&mut r, &ids);
                let k = arbitrary_kind(&mut r);
                g.set_node_kind(id, k);
            },
        }
        assert!(g.validate(), "invariant broken after step {}", step);
    }
    // the run must have actually built something
    assert!(!g.nodes.is_empty());
}
