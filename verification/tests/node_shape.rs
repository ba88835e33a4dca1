use osrc::node::GateType;
use osrc::node::MathOperation;
use osrc::node::NaryOperation;
use osrc::node::OSRCNode;
use osrc::node::PinType;
use osrc::node::UnaryOperation;

#[test]
fn sources_have_no_inputs_and_one_output() {
    let c = OSRCNode::Constant {
        itype: PinType::U8,
        value: "5".to_string(),
        node_name: String::new(),
    };
    assert_eq!(c.input_count(), 0);
    assert_eq!(c.output_count(), 1);
    assert_eq!(c.pin_type_output(0), PinType::U8);
    assert_eq!(c.pin_type_input(0), PinType::NONE);

    let g = OSRCNode::GlobalVariableInput { name: "speed".to_string() };
    assert_eq!(g.input_count(), 0);
    assert_eq!(g.output_count(), 1);
    assert_eq!(g.pin_type_output(0), PinType::UNDEFINED);
}

#[test]
fn sinks_have_one_input_and_no_outputs() {
    let a = OSRCNode::ApiOutput { itype: PinType::I16, node_name: String::new() };
    assert_eq!(a.input_count(), 1);
    assert_eq!(a.output_count(), 0);
    assert_eq!(a.pin_type_input(0), PinType::I16);

    let g = OSRCNode::GlobalVariableOutput { name: "speed".to_string() };
    assert_eq!(g.input_count(), 1);
    assert_eq!(g.output_count(), 0);
    assert_eq!(g.pin_type_input(0), PinType::UNDEFINED);
}

#[test]
fn logic_gate_fan_in() {
    let and4 = OSRCNode::LogicGate { gtype: GateType::AND(4) };
    assert_eq!(and4.input_count(), 4);
    assert_eq!(and4.output_count(), 1);
    assert_eq!(and4.pin_type_input(2), PinType::Bool);
    assert_eq!(and4.pin_type_output(0), PinType::Bool);

    let not = OSRCNode::LogicGate { gtype: GateType::NOT };
    assert_eq!(not.input_count(), 1);
}

#[test]
fn math_operation_shapes() {
    let nary = OSRCNode::MathOperation {
        itype: PinType::F32,
        operator: MathOperation::Nary(NaryOperation::ADD, 5),
    };
    assert_eq!(nary.input_count(), 5);
    assert_eq!(nary.output_count(), 1);
    assert_eq!(nary.pin_type_input(3), PinType::F32);
    assert_eq!(nary.pin_type_output(0), PinType::F32);

    let un = OSRCNode::MathOperation {
        itype: PinType::F64,
        operator: MathOperation::UnaryOperation(UnaryOperation::ABS),
    };
    assert_eq!(un.input_count(), 1);

    let bad = OSRCNode::MathOperation { itype: PinType::F64, operator: MathOperation::Invalid };
    assert_eq!(bad.input_count(), 0);
}

#[test]
fn comparator_shape() {
    let c = OSRCNode::Comparator {
        itype: PinType::I32,
        comparison: osrc::node::ValueCompare::LessThan,
    };
    assert_eq!(c.input_count(), 2);
    assert_eq!(c.output_count(), 1);
    assert_eq!(c.pin_type_input(1), PinType::I32);
    assert_eq!(c.pin_type_output(0), PinType::Bool);
}

#[test]
fn multiplexer_select_lines_come_first() {
    let m = OSRCNode::Multiplexer { itype: PinType::U16, input_bits: 2 };
    assert_eq!(m.input_count(), 2 + 4);
    assert_eq!(m.output_count(), 1);
    assert_eq!(m.pin_type_input(0), PinType::Bool);
    assert_eq!(m.pin_type_input(1), PinType::Bool);
    assert_eq!(m.pin_type_input(2), PinType::U16);
    assert_eq!(m.pin_type_input(5), PinType::U16);
    assert_eq!(m.pin_type_output(0), PinType::U16);
    assert!(m.input_pin_in_range(5));
    assert!(!m.input_pin_in_range(6));
}

#[test]
fn bit_packing_shapes() {
    let s = OSRCNode::BitwiseSplit { num_bits: 8 };
    assert_eq!(s.input_count(), 1);
    assert_eq!(s.output_count(), 8);
    assert_eq!(s.pin_type_input(0), PinType::U8);
    assert_eq!(s.pin_type_output(3), PinType::Bool);

    let j = OSRCNode::BitwiseJoin { num_bits: 16 };
    assert_eq!(j.input_count(), 16);
    assert_eq!(j.output_count(), 1);
    assert_eq!(j.pin_type_input(7), PinType::Bool);
    assert_eq!(j.pin_type_output(0), PinType::U16);
}

#[test]
fn serial_device_shape() {
    let d = OSRCNode::SerialDevice {
        enabled: true,
        addr: 3,
        timeout: 100,
        descriptor: "/dev/ttyS0".to_string(),
        num_read: 2,
        num_write: 3,
        node_name: String::new(),
    };
    assert_eq!(d.input_count(), 4);
    assert_eq!(d.output_count(), 2);
    assert_eq!(d.pin_type_input(0), PinType::Bool);
    assert_eq!(d.pin_type_input(1), PinType::SERIAL);
    assert_eq!(d.pin_type_input(3), PinType::SERIAL);
    assert_eq!(d.pin_type_output(0), PinType::SERIAL);
}

#[test]
fn controllers_are_single_width() {
    let pi = OSRCNode::PIController {
        p: 1065353216,
        i: 0,
        i_limit: 0,
        output_min: 0,
        output_max: 0,
        node_name: String::new(),
    };
    assert_eq!(pi.input_count(), 1);
    assert_eq!(pi.output_count(), 1);
    assert_eq!(pi.pin_type_input(0), PinType::F32);
    assert_eq!(pi.pin_type_output(0), PinType::F32);

    let ve = OSRCNode::VelEstimator { alpha: 0.5f32.to_bits() };
    assert_eq!(ve.pin_type_input(0), PinType::F32);
    assert_eq!(ve.pin_type_output(0), PinType::F32);
}

#[test]
fn invalid_has_no_ports() {
    assert_eq!(OSRCNode::Invalid.input_count(), 0);
    assert_eq!(OSRCNode::Invalid.output_count(), 0);
    assert_eq!(OSRCNode::Invalid.pin_type_input(0), PinType::NONE);
    assert_eq!(OSRCNode::Invalid.pin_type_output(0), PinType::NONE);
}
