use osrc::codec::decode;
use osrc::codec::encode;
use osrc::file_structure::Date;
use osrc::file_structure::FPGAProgram;
use osrc::file_structure::FileInfo;
use osrc::file_structure::GlobalVariable;
use osrc::file_structure::Network;
use osrc::file_structure::NetworkType;
use osrc::file_structure::Time;
use osrc::graph::Graph;
use osrc::node::BinaryOperation;
use osrc::node::GateType;
use osrc::node::MathOperation;
use osrc::node::NaryOperation;
use osrc::node::OSRCNode;
use osrc::node::PinType;
use osrc::node::SerialDeviceReg;
use osrc::node::UnaryOperation;
use osrc::node::ValueCompare;

fn every_kind() -> Vec<OSRCNode> {
    vec![
        OSRCNode::Constant {
            itype: PinType::U8,
            value: "5".to_string(),
            node_name: "five".to_string(),
        },
        OSRCNode::ApiInput {
            min: Some(0.0f64.to_bits()),
            max: Some(100.5f64.to_bits()),
            default: None,
            timeout: Some(2.5f64.to_bits()),
            itype: PinType::F64,
            node_name: "api in".to_string(),
        },
        OSRCNode::ApiOutput { itype: PinType::I32, node_name: "api out".to_string() },
        OSRCNode::PIController {
            p: 1.5f32.to_bits(),
            i: 0.25f32.to_bits(),
            i_limit: 10.0f32.to_bits(),
            output_min: (-1.0f32).to_bits(),
            output_max: 1.0f32.to_bits(),
            node_name: "pi".to_string(),
        },
        OSRCNode::VelEstimator { alpha: 0.9f32.to_bits() },
        OSRCNode::LogicGate { gtype: GateType::NAND(3) },
        OSRCNode::Comparator { itype: PinType::I16, comparison: ValueCompare::NotEqual },
        OSRCNode::MathOperation {
            itype: PinType::F32,
            operator: MathOperation::Nary(NaryOperation::AVG, 4),
        },
        OSRCNode::MathOperation {
            itype: PinType::F32,
            operator: MathOperation::BinaryOperation(BinaryOperation::POW),
        },
        OSRCNode::MathOperation {
            itype: PinType::F32,
            operator: MathOperation::UnaryOperation(UnaryOperation::ATAN),
        },
        OSRCNode::Multiplexer { itype: PinType::U32, input_bits: 3 },
        OSRCNode::BitwiseSplit { num_bits: 8 },
        OSRCNode::BitwiseJoin { num_bits: 32 },
        OSRCNode::EdgeDelay { cycles: 5, rising_edge: true, falling_edge: false },
        OSRCNode::CycleDelay { cycles: 2, itype: PinType::U16 },
        OSRCNode::Converter {
            input_type: PinType::U8,
            output_type: PinType::F32,
            direct_mode: false,
            input_min: "0".to_string(),
            input_max: "255".to_string(),
            output_min: "-1.0".to_string(),
            output_max: "1.0".to_string(),
            invert: true,
        },
        OSRCNode::SerialDevice {
            enabled: true,
            addr: 17,
            timeout: 250,
            descriptor: "/dev/ttyUSB0".to_string(),
            num_read: 2,
            num_write: 1,
            node_name: "dev".to_string(),
        },
        OSRCNode::SerialRead {
            name: "reg_a".to_string(),
            dev: SerialDeviceReg::AsyncReg { update_cycles: 10 },
            itype: PinType::U16,
        },
        OSRCNode::SerialWrite {
            name: "reg_b".to_string(),
            dev: SerialDeviceReg::CyclicReg { sync_node: true, cyclic_index: 3 },
            itype: PinType::I8,
        },
        OSRCNode::GlobalVariableInput { name: "gvar".to_string() },
        OSRCNode::GlobalVariableOutput { name: "gvar".to_string() },
        OSRCNode::Invalid,
    ]
}

fn rich_program() -> FPGAProgram {
    let mut graph = Graph::new();
    let mut ids = Vec::new();
    for (i, kind) in every_kind().into_iter().enumerate() {
        ids.push(graph.insert_node(kind, i as u32, (i * 2) as u32));
    }
    // constant U8 -> bitwise split of eight bits
    graph.connect(ids[0], 0, ids[11], 0);
    // split bit 0 -> nand gate input 1
    graph.connect(ids[11], 0, ids[5], 1);
    // NAND output -> edge delay, whose output feeds back: a legal cycle
    graph.connect(ids[5], 0, ids[13], 0);
    graph.connect(ids[13], 0, ids[5], 0);
    assert_eq!(graph.conns.len(), 4);

    let mut net = Network::new();
    net.name = "main net".to_string();
    net.enabled = false;
    net.net_type = NetworkType::Async;
    net.timeout = 1234;
    net.update_cycle_trigger_count = 3;
    net.execution_index = 2;
    net.nodes = graph;

    let second = Network::new();

    FPGAProgram {
        info: FileInfo {
            date: Date { year: 2024, month: 12, day: 31 },
            time: Time { hour: 23, minute: 59, second: 58 },
            fpga_config: "boards/main.cfg".to_string(),
            write_protected: true,
        },
        set_node_vars: vec![
            GlobalVariable { name: "gvar".to_string(), pin_type: PinType::U32 },
            GlobalVariable { name: "gvar".to_string(), pin_type: PinType::Bool },
        ],
        networks: vec![net, second],
    }
}

#[test]
fn round_trip_of_a_program_with_every_node_kind() {
    let p = rich_program();
    let bytes = encode(&p);
    let q = decode(&bytes).expect("the encoder's output must decode");
    assert_eq!(q, p);
}

#[test]
fn round_trip_of_an_empty_program() {
    let p = FPGAProgram::new(
        Date { year: 1999, month: 1, day: 1 },
        Time { hour: 0, minute: 0, second: 0 },
    );
    let q = decode(&encode(&p)).unwrap();
    assert_eq!(q, p);
}

#[test]
fn round_trip_of_a_negative_year() {
    let mut p = FPGAProgram::new(
        Date { year: -44, month: 3, day: 15 },
        Time { hour: 12, minute: 0, second: 0 },
    );
    p.info.fpga_config = "ante legem".to_string();
    let q = decode(&encode(&p)).unwrap();
    assert_eq!(q, p);
}

#[test]
fn round_trip_keeps_unicode_names() {
    let mut p = FPGAProgram::new(
        Date { year: 2024, month: 6, day: 1 },
        Time { hour: 1, minute: 2, second: 3 },
    );
    p.set_node_vars.push(GlobalVariable {
        name: "gr\u{00f6}\u{00df}e \u{2192} \u{03c6}".to_string(),
        pin_type: PinType::F64,
    });
    let q = decode(&encode(&p)).unwrap();
    assert_eq!(q, p);
}

#[test]
fn encoding_of_a_small_program_is_the_expected_document() {
    let mut p = FPGAProgram::new(
        Date { year: 2000, month: 1, day: 2 },
        Time { hour: 3, minute: 4, second: 5 },
    );
    p.info.fpga_config = "ab".to_string();
    let bytes = encode(&p);
    let expected = b"1\n2000\n1\n2\n3\n4\n5\n2\nab0\n0\n0\n";
    assert_eq!(bytes, expected.to_vec());
}

#[test]
fn decode_rejects_an_empty_document() {
    assert!(decode(&Vec::new()).is_none());
}

#[test]
fn decode_rejects_an_unknown_version() {
    let p = FPGAProgram::new(
        Date { year: 2000, month: 1, day: 2 },
        Time { hour: 3, minute: 4, second: 5 },
    );
    let mut bytes = encode(&p);
    bytes[0] = b'7';
    assert!(decode(&bytes).is_none());
}

#[test]
fn decode_rejects_a_truncated_document() {
    let p = rich_program();
    let bytes = encode(&p);
    let cut: Vec<u8> = bytes[..bytes.len() - 5].to_vec();
    assert!(decode(&cut).is_none());
}

#[test]
fn decode_rejects_a_malformed_flag() {
    // the write-protect flag of this document reads 9: not a boolean
    let doc = b"1\n2000\n1\n2\n3\n4\n5\n0\n9\n0\n0\n".to_vec();
    assert!(decode(&doc).is_none());
}

#[test]
fn unknown_node_tag_degrades_to_an_invalid_node() {
    // one network holding a single record with the unknown tag 99 and
    // a two-byte payload to step over
    let mut doc = String::new();
    doc.push_str("1\n"); // format version
    doc.push_str("2000\n1\n2\n3\n4\n5\n"); // creation date and time
    doc.push_str("0\n"); // empty configuration reference
    doc.push_str("0\n"); // not write-protected
    doc.push_str("0\n"); // no global variables
    doc.push_str("1\n"); // one network
    doc.push_str("1\nn"); // its name, one byte
    doc.push_str("1\n0\n7\n8\n9\n"); // enabled, synchronous, scheduling metadata
    doc.push_str("1\n"); // the graph's identity cursor
    doc.push_str("1\n"); // one node
    doc.push_str("0\n0\n0\n"); // its identity and position bits
    doc.push_str("99\n2\n0\n"); // unknown tag, payload length two, payload
    doc.push_str("0\n"); // no connections
    let bytes = doc.into_bytes();
    let p = decode(&bytes).expect("the unknown record must not fail the document");
    assert_eq!(p.networks.len(), 1);
    assert_eq!(p.networks[0].nodes.nodes.len(), 1);
    assert_eq!(p.networks[0].nodes.nodes[0].kind, OSRCNode::Invalid);
    assert_eq!(p.networks[0].nodes.conns.len(), 0);
}

#[test]
fn invalid_nodes_survive_the_round_trip() {
    let mut p = FPGAProgram::new(
        Date { year: 2001, month: 2, day: 3 },
        Time { hour: 4, minute: 5, second: 6 },
    );
    let mut net = Network::new();
    net.nodes.insert_node(OSRCNode::Invalid, 0, 0);
    p.networks.push(net);
    let q = decode(&encode(&p)).unwrap();
    assert_eq!(q, p);
}

#[test]
fn decode_rejects_an_unknown_pin_type_tag() {
    // one global variable named "x" whose pin-type tag reads 99
    let doc = b"1\n2000\n1\n2\n3\n4\n5\n0\n0\n1\n1\nx99\n0\n".to_vec();
    assert!(decode(&doc).is_none());
}

#[test]
fn decode_rejects_a_number_beyond_the_machine_word() {
    // the creation year overflows any integer token
    let doc = b"1\n99999999999999999999\n1\n2\n3\n4\n5\n0\n0\n0\n0\n".to_vec();
    assert!(decode(&doc).is_none());
}

#[test]
fn decode_rejects_bytes_that_are_not_a_string() {
    // a one-byte name that is not valid UTF-8
    let mut doc = b"1\n2000\n1\n2\n3\n4\n5\n0\n0\n1\n1\n".to_vec();
    doc.push(0xff);
    doc.extend_from_slice(b"10\n0\n");
    assert!(decode(&doc).is_none());
}
