use osrc::file_structure::Date;
use osrc::file_structure::FPGAProgram;
use osrc::file_structure::GlobalVariable;
use osrc::file_structure::Network;
use osrc::file_structure::NetworkType;
use osrc::file_structure::Time;
use osrc::node::PinType;

#[test]
fn a_fresh_program_is_empty_and_unprotected() {
    let p = FPGAProgram::new(
        Date { year: 2023, month: 7, day: 4 },
        Time { hour: 10, minute: 30, second: 0 },
    );
    assert_eq!(p.networks.len(), 0);
    assert_eq!(p.set_node_vars.len(), 0);
    assert!(!p.info.write_protected);
    assert_eq!(p.info.fpga_config, "");
    assert_eq!(p.info.date, Date { year: 2023, month: 7, day: 4 });
    assert_eq!(p.info.time, Time { hour: 10, minute: 30, second: 0 });
}

#[test]
fn a_program_stamped_now_is_empty_and_unprotected() {
    let p = FPGAProgram::new_now();
    assert_eq!(p.networks.len(), 0);
    assert_eq!(p.set_node_vars.len(), 0);
    assert!(!p.info.write_protected);
    assert!((1..=12).contains(&p.info.date.month));
    assert!((1..=31).contains(&p.info.date.day));
    assert!(p.info.time.hour < 24);
    assert!(p.info.time.minute < 60);
    assert!(p.info.time.second < 60);
}

#[test]
fn a_new_global_variable_is_unresolved() {
    let v = GlobalVariable::new();
    assert_eq!(v.name, "New Variable");
    assert_eq!(v.pin_type, PinType::UNDEFINED);
}

#[test]
fn a_new_network_has_the_default_schedule() {
    let n = Network::new();
    assert_eq!(n.name, "New Network");
    assert!(n.enabled);
    assert_eq!(n.net_type, NetworkType::Sync);
    assert_eq!(n.timeout, 10000);
    assert_eq!(n.update_cycle_trigger_count, 1);
    assert_eq!(n.execution_index, 0);
    assert_eq!(n.nodes.nodes.len(), 0);
    assert_eq!(n.nodes.conns.len(), 0);
}

#[test]
fn global_variable_names_need_not_be_unique() {
    let mut p = FPGAProgram::new(
        Date { year: 2023, month: 7, day: 4 },
        Time { hour: 10, minute: 30, second: 0 },
    );
    p.set_node_vars.push(GlobalVariable { name: "x".to_string(), pin_type: PinType::U8 });
    p.set_node_vars.push(GlobalVariable { name: "x".to_string(), pin_type: PinType::I8 });
    assert_eq!(p.set_node_vars.len(), 2);
}
