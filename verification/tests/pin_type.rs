use osrc::node::OSRCNode;
use osrc::node::PinType;

#[test]
fn can_connect_is_symmetric_on_all_pairs() {
    let all = PinType::all();
    for a in &all {
        for b in &all {
            assert_eq!(a.can_connect(b), b.can_connect(a), "{:?} vs {:?}", a, b);
        }
    }
}

#[test]
fn none_never_connects() {
    let all = PinType::all();
    for a in &all {
        assert!(!PinType::NONE.can_connect(a));
        assert!(!a.can_connect(&PinType::NONE));
    }
}

#[test]
fn undefined_is_a_wildcard_except_against_none() {
    let all = PinType::all();
    for a in &all {
        if *a != PinType::NONE {
            assert!(PinType::UNDEFINED.can_connect(a));
            assert!(a.can_connect(&PinType::UNDEFINED));
        }
    }
    assert!(!PinType::UNDEFINED.can_connect(&PinType::NONE));
}

#[test]
fn signed_unsigned_crossovers() {
    assert!(PinType::U8.can_connect(&PinType::I8));
    assert!(PinType::I8.can_connect(&PinType::U8));
    assert!(PinType::U16.can_connect(&PinType::I16));
    assert!(PinType::U32.can_connect(&PinType::I32));
    assert!(!PinType::U16.can_connect(&PinType::I32));
    assert!(!PinType::U8.can_connect(&PinType::I16));
    assert!(!PinType::U32.can_connect(&PinType::I8));
}

#[test]
fn same_variant_connects() {
    let all = PinType::all();
    for a in &all {
        if *a != PinType::NONE {
            assert!(a.can_connect(a), "{:?}", a);
        }
    }
}

#[test]
fn from_size_maps_widths() {
    assert_eq!(PinType::from_size(1), PinType::Bool);
    assert_eq!(PinType::from_size(8), PinType::U8);
    assert_eq!(PinType::from_size(16), PinType::U16);
    assert_eq!(PinType::from_size(32), PinType::U32);
    assert_eq!(PinType::from_size(0), PinType::UNDEFINED);
    assert_eq!(PinType::from_size(7), PinType::UNDEFINED);
    assert_eq!(PinType::from_size(64), PinType::UNDEFINED);
}

#[test]
fn all_pin_types_lists_every_variant_once() {
    let all = PinType::all();
    assert_eq!(all.len(), 13);
    for (i, a) in all.iter().enumerate() {
        for (j, b) in all.iter().enumerate() {
            if i != j {
                assert_ne!(a, b);
            }
        }
    }
}

#[test]
fn palette_lists_every_kind_but_invalid() {
    let kinds = OSRCNode::all_kinds();
    assert_eq!(kinds.len(), 19);
    assert!(matches!(kinds[0], OSRCNode::Constant { .. }));
    assert!(matches!(kinds[18], OSRCNode::GlobalVariableOutput { .. }));
    for k in &kinds {
        assert!(!matches!(k, OSRCNode::Invalid));
    }
}

#[test]
fn kind_titles_are_title_case() {
    assert_eq!(OSRCNode::Invalid.name(), "Invalid");
    assert_eq!(OSRCNode::BitwiseSplit { num_bits: 4 }.name(), "Bitwise Split");
    assert_eq!(
        OSRCNode::GlobalVariableInput { name: String::new() }.name(),
        "Global Variable Input"
    );
    assert_eq!(OSRCNode::PIController {
        p: 0,
        i: 0,
        i_limit: 0,
        output_min: 0,
        output_max: 0,
        node_name: String::new(),
    }
    .name(), "Pi Controller");
}
