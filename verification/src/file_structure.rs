//! The program aggregate: file metadata, the global-variable symbol
//! table, and the ordered collection of networks with their
//! scheduling metadata.

use crate::graph::Graph;
use crate::graph::GraphV;
use crate::node::PinType;
use chrono::Datelike;
use chrono::Timelike;
use vstd::prelude::*;

verus! {

/// A calendar date, held as plain fields.
#[derive(Clone, Copy, Debug, PartialEq, Eq, Structural, Hash)]
pub struct Date {
    pub year: i32,
    pub month: u8,
    pub day: u8,
}

impl Date {
    /// The fields fit the calendar: month 1 to 12, day 1 to 31.
    pub open spec fn wf(self) -> bool {
        1 <= self.month <= 12 && 1 <= self.day <= 31
    }
}

/// A time of day, held as plain fields.
#[derive(Clone, Copy, Debug, PartialEq, Eq, Structural, Hash)]
pub struct Time {
    pub hour: u8,
    pub minute: u8,
    pub second: u8,
}

impl Time {
    /// The fields fit the clock: hour below 24, minute and second
    /// below 60.
    pub open spec fn wf(self) -> bool {
        self.hour < 24 && self.minute < 60 && self.second < 60
    }
}

/// File metadata of a program: when it was created, the reference to
/// the downstream hardware-configuration artifact, and the
/// write-protect flag.
#[derive(Clone, Debug, PartialEq)]
pub struct FileInfo {
    pub date: Date,
    pub time: Time,
    pub fpga_config: String,
    pub write_protected: bool,
}

/// Mathematical image of a `FileInfo`.
pub struct FileInfoV {
    pub date: Date,
    pub time: Time,
    pub fpga_config: Seq<char>,
    pub write_protected: bool,
}

impl View for FileInfo {
    type V = FileInfoV;

    open spec fn view(&self) -> FileInfoV {
        FileInfoV {
            date: self.date,
            time: self.time,
            fpga_config: self.fpga_config@,
            write_protected: self.write_protected,
        }
    }
}

/// One entry of the program-wide symbol table, referenced by name
/// from variable-I/O nodes across all networks. The declared type is
/// stored and round-tripped only: a referencing node keeps the
/// wildcard pin type, and resolution against this table belongs to
/// the downstream engine.
#[derive(Clone, Debug, PartialEq)]
pub struct GlobalVariable {
    pub name: String,
    pub pin_type: PinType,
}

/// Mathematical image of a `GlobalVariable`.
pub struct GlobalVariableV {
    pub name: Seq<char>,
    pub pin_type: PinType,
}

impl View for GlobalVariable {
    type V = GlobalVariableV;

    open spec fn view(&self) -> GlobalVariableV {
        GlobalVariableV { name: self.name@, pin_type: self.pin_type }
    }
}

impl GlobalVariable {
    /// A freshly added variable: placeholder name, unresolved type.
    pub fn new() -> (r: Self)
        ensures
            r.name@ == "New Variable"@,
            r.pin_type == PinType::UNDEFINED,
    {
        GlobalVariable { name: "New Variable".to_owned(), pin_type: PinType::UNDEFINED }
    }
}

/// How the downstream scheduler triggers a network.
#[derive(Clone, Copy, Debug, PartialEq, Eq, Structural, Hash)]
pub enum NetworkType {
    Sync,
    Async,
}

/// One independently scheduled dataflow graph, with the execution
/// metadata that this core stores and round-trips but does not
/// interpret.
#[derive(Clone, Debug, PartialEq)]
pub struct Network {
    pub name: String,
    pub enabled: bool,
    pub net_type: NetworkType,
    pub timeout: u32,
    pub update_cycle_trigger_count: u32,
    pub execution_index: u32,
    pub nodes: Graph,
}

/// Mathematical image of a `Network`.
pub struct NetworkV {
    pub name: Seq<char>,
    pub enabled: bool,
    pub net_type: NetworkType,
    pub timeout: u32,
    pub update_cycle_trigger_count: u32,
    pub execution_index: u32,
    pub nodes: GraphV,
}

impl View for Network {
    type V = NetworkV;

    open spec fn view(&self) -> NetworkV {
        NetworkV {
            name: self.name@,
            enabled: self.enabled,
            net_type: self.net_type,
            timeout: self.timeout,
            update_cycle_trigger_count: self.update_cycle_trigger_count,
            execution_index: self.execution_index,
            nodes: self.nodes@,
        }
    }
}

impl Network {
    /// A freshly added network: enabled, synchronous, default
    /// timeout and trigger count, an empty graph.
    pub fn new() -> (r: Self)
        ensures
            r.name@ == "New Network"@,
            r.enabled,
            r.net_type == NetworkType::Sync,
            r.timeout == 10000,
            r.update_cycle_trigger_count == 1,
            r.execution_index == 0,
            r.nodes.wf(),
            r.nodes.nodes@.len() == 0,
            r.nodes.conns@.len() == 0,
            r.nodes.next_id == 0,
    {
        let name: String = "New Network".to_owned();
        Network {
            name,
            enabled: true,
            net_type: NetworkType::Sync,
            timeout: 10000,
            update_cycle_trigger_count: 1,
            execution_index: 0,
            nodes: Graph::new(),
        }
    }
}

/// A complete control program: file metadata, the global-variable
/// table, and the networks. The unit of persistence.
#[derive(Clone, Debug, PartialEq)]
pub struct FPGAProgram {
    pub info: FileInfo,
    pub set_node_vars: Vec<GlobalVariable>,
    pub networks: Vec<Network>,
}

/// Mathematical image of an `FPGAProgram`.
pub struct FPGAProgramV {
    pub info: FileInfoV,
    pub set_node_vars: Seq<GlobalVariableV>,
    pub networks: Seq<NetworkV>,
}

impl View for FPGAProgram {
    type V = FPGAProgramV;

    open spec fn view(&self) -> FPGAProgramV {
        FPGAProgramV {
            info: self.info@,
            set_node_vars: self.set_node_vars@.map_values(|v: GlobalVariable| v@),
            networks: self.networks@.map_values(|n: Network| n@),
        }
    }
}

/// Relies on `chrono::Local::now` and the `Datelike` / `Timelike`
/// accessors: `month()` is 1 to 12, `day()` is 1 to 31, `hour()` is
/// below 24, `minute()` and `second()` below 60. The clock's reading
/// itself is whatever the machine says.
#[verifier::external_body]
fn chrono_now_parts() -> (r: (Date, Time))
    ensures
        r.0.wf(),
        r.1.wf(),
{
    let now = chrono::Local::now();
    let date = Date { year: now.year(), month: now.month() as u8, day: now.day() as u8 };
    let time = Time { hour: now.hour() as u8, minute: now.minute() as u8, second: now.second() as u8 };
    (date, time)
}

impl FPGAProgram {
    /// A fresh, empty program stamped with the given creation date
    /// and time: no global variables, no networks, no configuration
    /// reference, not write-protected. This is what loading a path
    /// with no backing file yields.
    pub fn new(date: Date, time: Time) -> (r: Self)
        ensures
            r.info.date == date,
            r.info.time == time,
            r.info.fpga_config@ == Seq::<char>::empty(),
            !r.info.write_protected,
            r.set_node_vars@.len() == 0,
            r.networks@.len() == 0,
    {
        FPGAProgram {
            info: FileInfo { date, time, fpga_config: String::new(), write_protected: false },
            set_node_vars: Vec::new(),
            networks: Vec::new(),
        }
    }

    /// A fresh, empty program stamped with the current local date
    /// and time.
    pub fn new_now() -> (r: Self)
        ensures
            r.info.date.wf(),
            r.info.time.wf(),
            r.info.fpga_config@ == Seq::<char>::empty(),
            !r.info.write_protected,
            r.set_node_vars@.len() == 0,
            r.networks@.len() == 0,
    {
        let (date, time) = chrono_now_parts();
        FPGAProgram::new(date, time)
    }
}

} // verus!
