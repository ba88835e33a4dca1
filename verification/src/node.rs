//! Pin data types, the compatibility relation that gates every
//! connection attempt, and the catalog of node kinds with their
//! derived port shapes.

use vstd::arithmetic::power2::{lemma2_to64, lemma2_to64_rest, lemma_pow2_strictly_increases, pow2};
use vstd::bits::lemma_u64_shl_is_mul;
use vstd::prelude::*;

verus! {

/// The closed set of data types a pin may carry. `UNDEFINED` is the
/// not-yet-resolved wildcard; `NONE` marks a pin that must never be
/// connected in either direction.
#[derive(Clone, Copy, Debug, PartialEq, Eq, Structural, Hash)]
pub enum PinType {
    Bool,
    U8,
    U16,
    U32,
    I8,
    I16,
    I32,
    F32,
    F64,
    STRING,
    UNDEFINED,
    SERIAL,
    NONE,
}

/// Whether two pins of the given types may be joined: `NONE` never
/// connects, `UNDEFINED` connects to anything else, signed/unsigned
/// same-width pairs cross over, and otherwise the variants must match.
pub open spec fn spec_can_connect(a: PinType, b: PinType) -> bool {
    match (a, b) {
        (PinType::NONE, _) => false,
        (_, PinType::NONE) => false,
        (PinType::UNDEFINED, _) => true,
        (_, PinType::UNDEFINED) => true,
        (PinType::U8, PinType::I8) => true,
        (PinType::I8, PinType::U8) => true,
        (PinType::U16, PinType::I16) => true,
        (PinType::I16, PinType::U16) => true,
        (PinType::U32, PinType::I32) => true,
        (PinType::I32, PinType::U32) => true,
        _ => a == b,
    }
}

/// The pin type carried by a bit-packed value of the given width:
/// `1 -> Bool`, `8 -> U8`, `16 -> U16`, `32 -> U32`, anything else
/// is unresolved.
pub open spec fn spec_from_size(size: usize) -> PinType {
    if size == 1 {
        PinType::Bool
    } else if size == 8 {
        PinType::U8
    } else if size == 16 {
        PinType::U16
    } else if size == 32 {
        PinType::U32
    } else {
        PinType::UNDEFINED
    }
}

impl PinType {
    /// Decides whether a pin of type `self` may be joined to a pin of
    /// type `other`.
    #[inline]
    pub fn can_connect(&self, other: &Self) -> (r: bool)
        ensures
            r == spec_can_connect(*self, *other),
    {
        match (self, other) {
            (PinType::NONE, _) => false,
            (_, PinType::NONE) => false,
            (PinType::UNDEFINED, _) => true,
            (_, PinType::UNDEFINED) => true,
            (PinType::U8, PinType::I8)
            | (PinType::I8, PinType::U8)
            | (PinType::U16, PinType::I16)
            | (PinType::I16, PinType::U16)
            | (PinType::U32, PinType::I32)
            | (PinType::I32, PinType::U32) => true,
            _ => self == other,
        }
    }

    /// Maps a bit width to the pin type that carries it.
    pub fn from_size(size: usize) -> (r: Self)
        ensures
            r == spec_from_size(size),
    {
        match size {
            1 => PinType::Bool,
            8 => PinType::U8,
            16 => PinType::U16,
            32 => PinType::U32,
            _ => PinType::UNDEFINED,
        }
    }

    /// Every pin type, in declaration order, for a type picker.
    pub fn all() -> (r: Vec<PinType>)
        ensures
            r@ =~= seq![
                PinType::Bool,
                PinType::U8,
                PinType::U16,
                PinType::U32,
                PinType::I8,
                PinType::I16,
                PinType::I32,
                PinType::F32,
                PinType::F64,
                PinType::STRING,
                PinType::UNDEFINED,
                PinType::SERIAL,
                PinType::NONE,
            ],
    {
        let mut v: Vec<PinType> = Vec::new();
        v.push(PinType::Bool);
        v.push(PinType::U8);
        v.push(PinType::U16);
        v.push(PinType::U32);
        v.push(PinType::I8);
        v.push(PinType::I16);
        v.push(PinType::I32);
        v.push(PinType::F32);
        v.push(PinType::F64);
        v.push(PinType::STRING);
        v.push(PinType::UNDEFINED);
        v.push(PinType::SERIAL);
        v.push(PinType::NONE);
        v
    }
}

/// The compatibility relation is symmetric: joining is decided the
/// same way from either end of the wire.
pub proof fn lemma_can_connect_symmetric(a: PinType, b: PinType)
    ensures
        spec_can_connect(a, b) == spec_can_connect(b, a),
{
}

/// A `NONE` pin accepts no connection in either direction, whatever
/// stands on the other side.
pub proof fn lemma_none_never_connects(x: PinType)
    ensures
        !spec_can_connect(PinType::NONE, x),
        !spec_can_connect(x, PinType::NONE),
{
}

/// The `UNDEFINED` wildcard connects to everything except `NONE`,
/// whose rule takes precedence.
pub proof fn lemma_undefined_wildcard(x: PinType)
    ensures
        x != PinType::NONE ==> spec_can_connect(PinType::UNDEFINED, x),
        x != PinType::NONE ==> spec_can_connect(x, PinType::UNDEFINED),
        !spec_can_connect(PinType::UNDEFINED, PinType::NONE),
{
}

/// Comparison kinds offered by the `Comparator` node.
#[derive(Clone, Copy, Debug, PartialEq, Eq, Structural, Hash)]
pub enum ValueCompare {
    GreaterThan,
    GreaterThanOrEqual,
    LessThan,
    LessThanOrEqual,
    Equal,
    NotEqual,
}

/// Logic-gate kinds; every kind but `NOT` carries its fan-in count.
#[derive(Clone, Copy, Debug, PartialEq, Eq, Structural, Hash)]
pub enum GateType {
    AND(usize),
    OR(usize),
    NAND(usize),
    NOR(usize),
    XOR(usize),
    NOT,
}

/// Commutative reductions over any number of inputs.
#[derive(Clone, Copy, Debug, PartialEq, Eq, Structural, Hash)]
pub enum NaryOperation {
    ADD,
    MUL,
    MIN,
    MAX,
    AVG,
}

/// Operations over exactly two inputs.
#[derive(Clone, Copy, Debug, PartialEq, Eq, Structural, Hash)]
pub enum BinaryOperation {
    ROOT,
    POW,
    LOG,
}

/// Operations over exactly one input.
#[derive(Clone, Copy, Debug, PartialEq, Eq, Structural, Hash)]
pub enum UnaryOperation {
    LN,
    LOG10,
    SINE,
    COS,
    TAN,
    ASIN,
    ACOS,
    ATAN,
    NEGATE,
    ABS,
}

/// The operator carried by a `MathOperation` node; `Nary` also
/// carries its input count.
#[derive(Clone, Copy, Debug, PartialEq, Eq, Structural, Hash)]
pub enum MathOperation {
    Nary(NaryOperation, usize),
    BinaryOperation(BinaryOperation),
    UnaryOperation(UnaryOperation),
    Invalid,
}

/// How a serial register is addressed: polled on a fixed cadence
/// (`AsyncReg`), by position in a cyclic schedule (`CyclicReg`), or
/// not yet chosen (`Unset`).
#[derive(Clone, Copy, Debug, PartialEq, Eq, Structural, Hash)]
pub enum SerialDeviceReg {
    AsyncReg { update_cycles: u16 },
    CyclicReg { sync_node: bool, cyclic_index: u32 },
    Unset,
}

impl GateType {
    /// Number of inputs of a gate of this kind.
    pub open spec fn spec_fan_in(self) -> nat {
        match self {
            GateType::AND(i) => i as nat,
            GateType::OR(i) => i as nat,
            GateType::NAND(i) => i as nat,
            GateType::NOR(i) => i as nat,
            GateType::XOR(i) => i as nat,
            GateType::NOT => 1,
        }
    }
}

impl MathOperation {
    /// Number of inputs the operator consumes.
    pub open spec fn spec_input_count(self) -> nat {
        match self {
            MathOperation::Nary(_, n) => n as nat,
            MathOperation::BinaryOperation(_) => 2,
            MathOperation::UnaryOperation(_) => 1,
            MathOperation::Invalid => 0,
        }
    }
}

/// One variant per node archetype; each carries its own configuration
/// fields, from which the node's port shape is computed, never stored.
///
/// Gains, limits and the smoothing factor of the controller kinds, and
/// the optional bounds of `ApiInput`, are held as IEEE-754 bit patterns
/// (`u32` for single, `u64` for double width): the core stores and
/// round-trips them without interpreting them, and the downstream
/// evaluator gives them numeric meaning. Both pins of `VelEstimator`
/// carry the single-width type, the same width as its smoothing
/// factor and as the controller next to it.
#[derive(Clone, Debug, PartialEq)]
pub enum OSRCNode {
    Constant {
        itype: PinType,
        value: String,
        node_name: String,
    },
    ApiInput {
        min: Option<u64>,
        max: Option<u64>,
        default: Option<u64>,
        timeout: Option<u64>,
        itype: PinType,
        node_name: String,
    },
    ApiOutput {
        itype: PinType,
        node_name: String,
    },
    PIController {
        p: u32,
        i: u32,
        i_limit: u32,
        output_min: u32,
        output_max: u32,
        node_name: String,
    },
    VelEstimator {
        alpha: u32,
    },
    LogicGate {
        gtype: GateType,
    },
    Comparator {
        itype: PinType,
        comparison: ValueCompare,
    },
    MathOperation {
        itype: PinType,
        operator: MathOperation,
    },
    Multiplexer {
        itype: PinType,
        input_bits: usize,
    },
    BitwiseSplit {
        num_bits: usize,
    },
    BitwiseJoin {
        num_bits: usize,
    },
    EdgeDelay {
        cycles: usize,
        rising_edge: bool,
        falling_edge: bool,
    },
    CycleDelay {
        cycles: usize,
        itype: PinType,
    },
    Converter {
        input_type: PinType,
        output_type: PinType,
        direct_mode: bool,
        input_min: String,
        input_max: String,
        output_min: String,
        output_max: String,
        invert: bool,
    },
    SerialDevice {
        enabled: bool,
        addr: u16,
        timeout: u16,
        descriptor: String,
        num_read: usize,
        num_write: usize,
        node_name: String,
    },
    SerialRead {
        name: String,
        dev: SerialDeviceReg,
        itype: PinType,
    },
    SerialWrite {
        name: String,
        dev: SerialDeviceReg,
        itype: PinType,
    },
    GlobalVariableInput {
        name: String,
    },
    GlobalVariableOutput {
        name: String,
    },
    Invalid,
}

/// Mathematical image of an `OSRCNode`: the same variants with every
/// string replaced by its character sequence.
pub enum OSRCNodeV {
    Constant { itype: PinType, value: Seq<char>, node_name: Seq<char> },
    ApiInput {
        min: Option<u64>,
        max: Option<u64>,
        default: Option<u64>,
        timeout: Option<u64>,
        itype: PinType,
        node_name: Seq<char>,
    },
    ApiOutput { itype: PinType, node_name: Seq<char> },
    PIController {
        p: u32,
        i: u32,
        i_limit: u32,
        output_min: u32,
        output_max: u32,
        node_name: Seq<char>,
    },
    VelEstimator { alpha: u32 },
    LogicGate { gtype: GateType },
    Comparator { itype: PinType, comparison: ValueCompare },
    MathOperation { itype: PinType, operator: MathOperation },
    Multiplexer { itype: PinType, input_bits: usize },
    BitwiseSplit { num_bits: usize },
    BitwiseJoin { num_bits: usize },
    EdgeDelay { cycles: usize, rising_edge: bool, falling_edge: bool },
    CycleDelay { cycles: usize, itype: PinType },
    Converter {
        input_type: PinType,
        output_type: PinType,
        direct_mode: bool,
        input_min: Seq<char>,
        input_max: Seq<char>,
        output_min: Seq<char>,
        output_max: Seq<char>,
        invert: bool,
    },
    SerialDevice {
        enabled: bool,
        addr: u16,
        timeout: u16,
        descriptor: Seq<char>,
        num_read: usize,
        num_write: usize,
        node_name: Seq<char>,
    },
    SerialRead { name: Seq<char>, dev: SerialDeviceReg, itype: PinType },
    SerialWrite { name: Seq<char>, dev: SerialDeviceReg, itype: PinType },
    GlobalVariableInput { name: Seq<char> },
    GlobalVariableOutput { name: Seq<char> },
    Invalid,
}

impl View for OSRCNode {
    type V = OSRCNodeV;

    open spec fn view(&self) -> OSRCNodeV {
        match self {
            OSRCNode::Constant { itype, value, node_name } => OSRCNodeV::Constant {
                itype: *itype,
                value: value@,
                node_name: node_name@,
            },
            OSRCNode::ApiInput { min, max, default, timeout, itype, node_name } => OSRCNodeV::ApiInput {
                min: *min,
                max: *max,
                default: *default,
                timeout: *timeout,
                itype: *itype,
                node_name: node_name@,
            },
            OSRCNode::ApiOutput { itype, node_name } => OSRCNodeV::ApiOutput {
                itype: *itype,
                node_name: node_name@,
            },
            OSRCNode::PIController { p, i, i_limit, output_min, output_max, node_name } => OSRCNodeV::PIController {
                p: *p,
                i: *i,
                i_limit: *i_limit,
                output_min: *output_min,
                output_max: *output_max,
                node_name: node_name@,
            },
            OSRCNode::VelEstimator { alpha } => OSRCNodeV::VelEstimator { alpha: *alpha },
            OSRCNode::LogicGate { gtype } => OSRCNodeV::LogicGate { gtype: *gtype },
            OSRCNode::Comparator { itype, comparison } => OSRCNodeV::Comparator {
                itype: *itype,
                comparison: *comparison,
            },
            OSRCNode::MathOperation { itype, operator } => OSRCNodeV::MathOperation {
                itype: *itype,
                operator: *operator,
            },
            OSRCNode::Multiplexer { itype, input_bits } => OSRCNodeV::Multiplexer {
                itype: *itype,
                input_bits: *input_bits,
            },
            OSRCNode::BitwiseSplit { num_bits } => OSRCNodeV::BitwiseSplit { num_bits: *num_bits },
            OSRCNode::BitwiseJoin { num_bits } => OSRCNodeV::BitwiseJoin { num_bits: *num_bits },
            OSRCNode::EdgeDelay { cycles, rising_edge, falling_edge } => OSRCNodeV::EdgeDelay {
                cycles: *cycles,
                rising_edge: *rising_edge,
                falling_edge: *falling_edge,
            },
            OSRCNode::CycleDelay { cycles, itype } => OSRCNodeV::CycleDelay {
                cycles: *cycles,
                itype: *itype,
            },
            OSRCNode::Converter {
                input_type,
                output_type,
                direct_mode,
                input_min,
                input_max,
                output_min,
                output_max,
                invert,
            } => OSRCNodeV::Converter {
                input_type: *input_type,
                output_type: *output_type,
                direct_mode: *direct_mode,
                input_min: input_min@,
                input_max: input_max@,
                output_min: output_min@,
                output_max: output_max@,
                invert: *invert,
            },
            OSRCNode::SerialDevice { enabled, addr, timeout, descriptor, num_read, num_write, node_name } => OSRCNodeV::SerialDevice {
                enabled: *enabled,
                addr: *addr,
                timeout: *timeout,
                descriptor: descriptor@,
                num_read: *num_read,
                num_write: *num_write,
                node_name: node_name@,
            },
            OSRCNode::SerialRead { name, dev, itype } => OSRCNodeV::SerialRead {
                name: name@,
                dev: *dev,
                itype: *itype,
            },
            OSRCNode::SerialWrite { name, dev, itype } => OSRCNodeV::SerialWrite {
                name: name@,
                dev: *dev,
                itype: *itype,
            },
            OSRCNode::GlobalVariableInput { name } => OSRCNodeV::GlobalVariableInput { name: name@ },
            OSRCNode::GlobalVariableOutput { name } => OSRCNodeV::GlobalVariableOutput { name: name@ },
            OSRCNode::Invalid => OSRCNodeV::Invalid,
        }
    }
}

impl OSRCNode {
    /// Number of input pins, as a function of the variant's fields
    /// alone. A multiplexer exposes its select lines first, then
    /// `2^input_bits` data lines.
    pub open spec fn spec_input_count(self) -> nat {
        match self {
            OSRCNode::Constant { .. } => 0,
            OSRCNode::ApiInput { .. } => 0,
            OSRCNode::ApiOutput { .. } => 1,
            OSRCNode::PIController { .. } => 1,
            OSRCNode::VelEstimator { .. } => 1,
            OSRCNode::LogicGate { gtype } => gtype.spec_fan_in(),
            OSRCNode::Comparator { .. } => 2,
            OSRCNode::MathOperation { operator, .. } => operator.spec_input_count(),
            OSRCNode::Multiplexer { input_bits, .. } => (input_bits + pow2(input_bits as nat)) as nat,
            OSRCNode::BitwiseSplit { .. } => 1,
            OSRCNode::BitwiseJoin { num_bits } => num_bits as nat,
            OSRCNode::EdgeDelay { .. } => 1,
            OSRCNode::CycleDelay { .. } => 1,
            OSRCNode::Converter { .. } => 1,
            OSRCNode::SerialDevice { num_write, .. } => 1 + num_write as nat,
            OSRCNode::SerialRead { .. } => 1,
            OSRCNode::SerialWrite { .. } => 1,
            OSRCNode::GlobalVariableInput { .. } => 0,
            OSRCNode::GlobalVariableOutput { .. } => 1,
            OSRCNode::Invalid => 0,
        }
    }

    /// Number of output pins, as a function of the variant's fields
    /// alone.
    pub open spec fn spec_output_count(self) -> nat {
        match self {
            OSRCNode::Constant { .. } => 1,
            OSRCNode::ApiInput { .. } => 1,
            OSRCNode::ApiOutput { .. } => 0,
            OSRCNode::PIController { .. } => 1,
            OSRCNode::VelEstimator { .. } => 1,
            OSRCNode::LogicGate { .. } => 1,
            OSRCNode::Comparator { .. } => 1,
            OSRCNode::MathOperation { .. } => 1,
            OSRCNode::Multiplexer { .. } => 1,
            OSRCNode::BitwiseSplit { num_bits } => num_bits as nat,
            OSRCNode::BitwiseJoin { .. } => 1,
            OSRCNode::EdgeDelay { .. } => 1,
            OSRCNode::CycleDelay { .. } => 1,
            OSRCNode::Converter { .. } => 1,
            OSRCNode::SerialDevice { num_read, .. } => num_read as nat,
            OSRCNode::SerialRead { .. } => 1,
            OSRCNode::SerialWrite { .. } => 1,
            OSRCNode::GlobalVariableInput { .. } => 1,
            OSRCNode::GlobalVariableOutput { .. } => 0,
            OSRCNode::Invalid => 0,
        }
    }

    /// Type of the input pin at `idx`. Total: for a node without
    /// inputs it gives the `NONE` marker, and for an index past the
    /// arity it gives the same type as the last in-range index of
    /// that side.
    pub open spec fn spec_pin_type_input(self, idx: int) -> PinType {
        match self {
            OSRCNode::Constant { .. } => PinType::NONE,
            OSRCNode::ApiInput { .. } => PinType::NONE,
            OSRCNode::ApiOutput { itype, .. } => itype,
            OSRCNode::PIController { .. } => PinType::F32,
            OSRCNode::VelEstimator { .. } => PinType::F32,
            OSRCNode::LogicGate { .. } => PinType::Bool,
            OSRCNode::Comparator { itype, .. } => itype,
            OSRCNode::MathOperation { itype, .. } => itype,
            OSRCNode::Multiplexer { itype, input_bits } => if idx < input_bits {
                PinType::Bool
            } else {
                itype
            },
            OSRCNode::BitwiseSplit { num_bits } => spec_from_size(num_bits),
            OSRCNode::BitwiseJoin { .. } => PinType::Bool,
            OSRCNode::EdgeDelay { .. } => PinType::Bool,
            OSRCNode::CycleDelay { itype, .. } => itype,
            OSRCNode::Converter { input_type, .. } => input_type,
            OSRCNode::SerialDevice { .. } => if idx == 0 {
                PinType::Bool
            } else {
                PinType::SERIAL
            },
            OSRCNode::SerialRead { .. } => PinType::SERIAL,
            OSRCNode::SerialWrite { itype, .. } => itype,
            OSRCNode::GlobalVariableInput { .. } => PinType::NONE,
            OSRCNode::GlobalVariableOutput { .. } => PinType::UNDEFINED,
            OSRCNode::Invalid => PinType::NONE,
        }
    }

    /// Type of the input pin at `idx`.
    pub fn pin_type_input(&self, idx: usize) -> (r: PinType)
        ensures
            r == self.spec_pin_type_input(idx as int),
    {
        match self {
            OSRCNode::Constant { .. } => PinType::NONE,
            OSRCNode::ApiInput { .. } => PinType::NONE,
            OSRCNode::ApiOutput { itype, .. } => *itype,
            OSRCNode::PIController { .. } => PinType::F32,
            OSRCNode::VelEstimator { .. } => PinType::F32,
            OSRCNode::LogicGate { .. } => PinType::Bool,
            OSRCNode::Comparator { itype, .. } => *itype,
            OSRCNode::MathOperation { itype, .. } => *itype,
            OSRCNode::Multiplexer { itype, input_bits } => {
                if idx < *input_bits {
                    PinType::Bool
                } else {
                    *itype
                }
            },
            OSRCNode::BitwiseSplit { num_bits } => PinType::from_size(*num_bits),
            OSRCNode::BitwiseJoin { .. } => PinType::Bool,
            OSRCNode::EdgeDelay { .. } => PinType::Bool,
            OSRCNode::CycleDelay { itype, .. } => *itype,
            OSRCNode::Converter { input_type, .. } => *input_type,
            OSRCNode::SerialDevice { .. } => OSRCNode::serial_type(idx),
            OSRCNode::SerialRead { .. } => PinType::SERIAL,
            OSRCNode::SerialWrite { itype, .. } => *itype,
            OSRCNode::GlobalVariableInput { .. } => PinType::NONE,
            OSRCNode::GlobalVariableOutput { .. } => PinType::UNDEFINED,
            OSRCNode::Invalid => PinType::NONE,
        }
    }

    /// Type of pin `i` on the input side of a serial device: a
    /// `Bool` enable line first, `SERIAL` write ports after it.
    fn serial_type(i: usize) -> (r: PinType)
        ensures
            r == (if i == 0 {
                PinType::Bool
            } else {
                PinType::SERIAL
            }),
    {
        match i {
            0 => PinType::Bool,
            _ => PinType::SERIAL,
        }
    }

    /// Type of the output pin at `idx`.
    pub fn pin_type_output(&self, idx: usize) -> (r: PinType)
        ensures
            r == self.spec_pin_type_output(idx as int),
    {
        match self {
            OSRCNode::Constant { itype, .. } => *itype,
            OSRCNode::ApiInput { itype, .. } => *itype,
            OSRCNode::ApiOutput { itype, .. } => *itype,
            OSRCNode::PIController { .. } => PinType::F32,
            OSRCNode::VelEstimator { .. } => PinType::F32,
            OSRCNode::LogicGate { .. } => PinType::Bool,
            OSRCNode::Comparator { .. } => PinType::Bool,
            OSRCNode::MathOperation { itype, .. } => *itype,
            OSRCNode::Multiplexer { itype, .. } => *itype,
            OSRCNode::BitwiseSplit { .. } => PinType::Bool,
            OSRCNode::BitwiseJoin { num_bits } => PinType::from_size(*num_bits),
            OSRCNode::EdgeDelay { .. } => PinType::Bool,
            OSRCNode::CycleDelay { itype, .. } => *itype,
            OSRCNode::Converter { output_type, .. } => *output_type,
            OSRCNode::SerialDevice { .. } => PinType::SERIAL,
            OSRCNode::SerialRead { itype, .. } => *itype,
            OSRCNode::SerialWrite { .. } => PinType::SERIAL,
            OSRCNode::GlobalVariableInput { .. } => PinType::UNDEFINED,
            OSRCNode::GlobalVariableOutput { .. } => PinType::UNDEFINED,
            OSRCNode::Invalid => PinType::NONE,
        }
    }

    /// Whether `idx` addresses an existing input pin. Total: a
    /// multiplexer's arity can exceed the machine word, in which case
    /// every representable index is in range.
    pub fn input_pin_in_range(&self, idx: usize) -> (r: bool)
        ensures
            r == (idx < self.spec_input_count()),
    {
        match self {
            OSRCNode::Constant { .. } => false,
            OSRCNode::ApiInput { .. } => false,
            OSRCNode::ApiOutput { .. } => idx < 1,
            OSRCNode::PIController { .. } => idx < 1,
            OSRCNode::VelEstimator { .. } => idx < 1,
            OSRCNode::LogicGate { gtype } => {
                let n: usize = match gtype {
                    GateType::AND(i) => *i,
                    GateType::OR(i) => *i,
                    GateType::NAND(i) => *i,
                    GateType::NOR(i) => *i,
                    GateType::XOR(i) => *i,
                    GateType::NOT => 1,
                };
                idx < n
            },
            OSRCNode::Comparator { .. } => idx < 2,
            OSRCNode::MathOperation { operator, .. } => {
                let n: usize = match operator {
                    MathOperation::Nary(_, n) => *n,
                    MathOperation::BinaryOperation(_) => 2,
                    MathOperation::UnaryOperation(_) => 1,
                    MathOperation::Invalid => 0,
                };
                idx < n
            },
            OSRCNode::Multiplexer { input_bits, .. } => {
                let ib: usize = *input_bits;
                if ib >= 64 {
                    proof {
                        lemma2_to64();
                        lemma2_to64_rest();
                        if ib > 64 {
                            lemma_pow2_strictly_increases(64, ib as nat);
                        }
                    }
                    true
                } else {
                    proof {
                        lemma2_to64();
                        lemma2_to64_rest();
                        if (ib as nat) < 63 {
                            lemma_pow2_strictly_increases(ib as nat, 63);
                        }
                        lemma_u64_shl_is_mul(1u64, ib as u64);
                    }
                    let data: u64 = 1u64 << (ib as u64);
                    (idx as u64) < (ib as u64) + data
                }
            },
            OSRCNode::BitwiseSplit { .. } => idx < 1,
            OSRCNode::BitwiseJoin { num_bits } => idx < *num_bits,
            OSRCNode::EdgeDelay { .. } => idx < 1,
            OSRCNode::CycleDelay { .. } => idx < 1,
            OSRCNode::Converter { .. } => idx < 1,
            OSRCNode::SerialDevice { num_write, .. } => idx == 0 || idx - 1 < *num_write,
            OSRCNode::SerialRead { .. } => idx < 1,
            OSRCNode::SerialWrite { .. } => idx < 1,
            OSRCNode::GlobalVariableInput { .. } => false,
            OSRCNode::GlobalVariableOutput { .. } => idx < 1,
            OSRCNode::Invalid => false,
        }
    }

    /// Whether `idx` addresses an existing output pin.
    pub fn output_pin_in_range(&self, idx: usize) -> (r: bool)
        ensures
            r == (idx < self.spec_output_count()),
    {
        match self {
            OSRCNode::Constant { .. } => idx < 1,
            OSRCNode::ApiInput { .. } => idx < 1,
            OSRCNode::ApiOutput { .. } => false,
            OSRCNode::PIController { .. } => idx < 1,
            OSRCNode::VelEstimator { .. } => idx < 1,
            OSRCNode::LogicGate { .. } => idx < 1,
            OSRCNode::Comparator { .. } => idx < 1,
            OSRCNode::MathOperation { .. } => idx < 1,
            OSRCNode::Multiplexer { .. } => idx < 1,
            OSRCNode::BitwiseSplit { num_bits } => idx < *num_bits,
            OSRCNode::BitwiseJoin { .. } => idx < 1,
            OSRCNode::EdgeDelay { .. } => idx < 1,
            OSRCNode::CycleDelay { .. } => idx < 1,
            OSRCNode::Converter { .. } => idx < 1,
            OSRCNode::SerialDevice { num_read, .. } => idx < *num_read,
            OSRCNode::SerialRead { .. } => idx < 1,
            OSRCNode::SerialWrite { .. } => idx < 1,
            OSRCNode::GlobalVariableInput { .. } => idx < 1,
            OSRCNode::GlobalVariableOutput { .. } => false,
            OSRCNode::Invalid => false,
        }
    }

    /// Number of input pins. The arity of a multiplexer with very
    /// many select lines exceeds the machine word; the caller rules
    /// that out, and `input_pin_in_range` stays total.
    pub fn input_count(&self) -> (r: usize)
        requires
            self.spec_input_count() <= usize::MAX,
        ensures
            r == self.spec_input_count(),
    {
        match self {
            OSRCNode::Constant { .. } => 0,
            OSRCNode::ApiInput { .. } => 0,
            OSRCNode::ApiOutput { .. } => 1,
            OSRCNode::PIController { .. } => 1,
            OSRCNode::VelEstimator { .. } => 1,
            OSRCNode::LogicGate { gtype } => match gtype {
                GateType::AND(i) => *i,
                GateType::OR(i) => *i,
                GateType::NAND(i) => *i,
                GateType::NOR(i) => *i,
                GateType::XOR(i) => *i,
                GateType::NOT => 1,
            },
            OSRCNode::Comparator { .. } => 2,
            OSRCNode::MathOperation { operator, .. } => match operator {
                MathOperation::Nary(_, n) => *n,
                MathOperation::BinaryOperation(_) => 2,
                MathOperation::UnaryOperation(_) => 1,
                MathOperation::Invalid => 0,
            },
            OSRCNode::Multiplexer { input_bits, .. } => {
                let ib: usize = *input_bits;
                proof {
                    lemma2_to64();
                    lemma2_to64_rest();
                    if ib >= 64 {
                        if ib > 64 {
                            lemma_pow2_strictly_increases(64, ib as nat);
                        }
                        assert(false);
                    }
                    lemma_u64_shl_is_mul(1u64, ib as u64);
                    if (ib as nat) < 63 {
                        lemma_pow2_strictly_increases(ib as nat, 63);
                    }
                }
                let data: u64 = 1u64 << (ib as u64);
                ((ib as u64) + data) as usize
            },
            OSRCNode::BitwiseSplit { .. } => 1,
            OSRCNode::BitwiseJoin { num_bits } => *num_bits,
            OSRCNode::EdgeDelay { .. } => 1,
            OSRCNode::CycleDelay { .. } => 1,
            OSRCNode::Converter { .. } => 1,
            OSRCNode::SerialDevice { num_write, .. } => 1 + *num_write,
            OSRCNode::SerialRead { .. } => 1,
            OSRCNode::SerialWrite { .. } => 1,
            OSRCNode::GlobalVariableInput { .. } => 0,
            OSRCNode::GlobalVariableOutput { .. } => 1,
            OSRCNode::Invalid => 0,
        }
    }

    /// Number of output pins.
    pub fn output_count(&self) -> (r: usize)
        ensures
            r == self.spec_output_count(),
    {
        match self {
            OSRCNode::Constant { .. } => 1,
            OSRCNode::ApiInput { .. } => 1,
            OSRCNode::ApiOutput { .. } => 0,
            OSRCNode::PIController { .. } => 1,
            OSRCNode::VelEstimator { .. } => 1,
            OSRCNode::LogicGate { .. } => 1,
            OSRCNode::Comparator { .. } => 1,
            OSRCNode::MathOperation { .. } => 1,
            OSRCNode::Multiplexer { .. } => 1,
            OSRCNode::BitwiseSplit { num_bits } => *num_bits,
            OSRCNode::BitwiseJoin { .. } => 1,
            OSRCNode::EdgeDelay { .. } => 1,
            OSRCNode::CycleDelay { .. } => 1,
            OSRCNode::Converter { .. } => 1,
            OSRCNode::SerialDevice { num_read, .. } => *num_read,
            OSRCNode::SerialRead { .. } => 1,
            OSRCNode::SerialWrite { .. } => 1,
            OSRCNode::GlobalVariableInput { .. } => 1,
            OSRCNode::GlobalVariableOutput { .. } => 0,
            OSRCNode::Invalid => 0,
        }
    }

    /// Type of the output pin at `idx`, total in the same way as
    /// `spec_pin_type_input`.
    pub open spec fn spec_pin_type_output(self, idx: int) -> PinType {
        match self {
            OSRCNode::Constant { itype, .. } => itype,
            OSRCNode::ApiInput { itype, .. } => itype,
            OSRCNode::ApiOutput { itype, .. } => itype,
            OSRCNode::PIController { .. } => PinType::F32,
            OSRCNode::VelEstimator { .. } => PinType::F32,
            OSRCNode::LogicGate { .. } => PinType::Bool,
            OSRCNode::Comparator { .. } => PinType::Bool,
            OSRCNode::MathOperation { itype, .. } => itype,
            OSRCNode::Multiplexer { itype, .. } => itype,
            OSRCNode::BitwiseSplit { .. } => PinType::Bool,
            OSRCNode::BitwiseJoin { num_bits } => spec_from_size(num_bits),
            OSRCNode::EdgeDelay { .. } => PinType::Bool,
            OSRCNode::CycleDelay { itype, .. } => itype,
            OSRCNode::Converter { output_type, .. } => output_type,
            OSRCNode::SerialDevice { .. } => PinType::SERIAL,
            OSRCNode::SerialRead { itype, .. } => itype,
            OSRCNode::SerialWrite { .. } => PinType::SERIAL,
            OSRCNode::GlobalVariableInput { .. } => PinType::UNDEFINED,
            OSRCNode::GlobalVariableOutput { .. } => PinType::UNDEFINED,
            OSRCNode::Invalid => PinType::NONE,
        }
    }

    /// The human-readable title of the variant, in title case.
    pub open spec fn spec_name(self) -> Seq<char> {
        match self {
            OSRCNode::Constant { .. } => "Constant"@,
            OSRCNode::ApiInput { .. } => "Api Input"@,
            OSRCNode::ApiOutput { .. } => "Api Output"@,
            OSRCNode::PIController { .. } => "Pi Controller"@,
            OSRCNode::VelEstimator { .. } => "Vel Estimator"@,
            OSRCNode::LogicGate { .. } => "Logic Gate"@,
            OSRCNode::Comparator { .. } => "Comparator"@,
            OSRCNode::MathOperation { .. } => "Math Operation"@,
            OSRCNode::Multiplexer { .. } => "Multiplexer"@,
            OSRCNode::BitwiseSplit { .. } => "Bitwise Split"@,
            OSRCNode::BitwiseJoin { .. } => "Bitwise Join"@,
            OSRCNode::EdgeDelay { .. } => "Edge Delay"@,
            OSRCNode::CycleDelay { .. } => "Cycle Delay"@,
            OSRCNode::Converter { .. } => "Converter"@,
            OSRCNode::SerialDevice { .. } => "Serial Device"@,
            OSRCNode::SerialRead { .. } => "Serial Read"@,
            OSRCNode::SerialWrite { .. } => "Serial Write"@,
            OSRCNode::GlobalVariableInput { .. } => "Global Variable Input"@,
            OSRCNode::GlobalVariableOutput { .. } => "Global Variable Output"@,
            OSRCNode::Invalid => "Invalid"@,
        }
    }

    /// The title shown for this node kind.
    pub fn name(&self) -> (r: String)
        ensures
            r@ == self.spec_name(),
    {
        let s: &str = match self {
            OSRCNode::Constant { .. } => "Constant",
            OSRCNode::ApiInput { .. } => "Api Input",
            OSRCNode::ApiOutput { .. } => "Api Output",
            OSRCNode::PIController { .. } => "Pi Controller",
            OSRCNode::VelEstimator { .. } => "Vel Estimator",
            OSRCNode::LogicGate { .. } => "Logic Gate",
            OSRCNode::Comparator { .. } => "Comparator",
            OSRCNode::MathOperation { .. } => "Math Operation",
            OSRCNode::Multiplexer { .. } => "Multiplexer",
            OSRCNode::BitwiseSplit { .. } => "Bitwise Split",
            OSRCNode::BitwiseJoin { .. } => "Bitwise Join",
            OSRCNode::EdgeDelay { .. } => "Edge Delay",
            OSRCNode::CycleDelay { .. } => "Cycle Delay",
            OSRCNode::Converter { .. } => "Converter",
            OSRCNode::SerialDevice { .. } => "Serial Device",
            OSRCNode::SerialRead { .. } => "Serial Read",
            OSRCNode::SerialWrite { .. } => "Serial Write",
            OSRCNode::GlobalVariableInput { .. } => "Global Variable Input",
            OSRCNode::GlobalVariableOutput { .. } => "Global Variable Output",
            OSRCNode::Invalid => "Invalid",
        };
        s.to_owned()
    }

    /// The node palette: one freshly configured value of every
    /// user-constructible kind, in declaration order. `Invalid` is
    /// not offered.
    pub open spec fn spec_palette() -> Seq<OSRCNodeV> {
        seq![
            OSRCNodeV::Constant {
                itype: PinType::UNDEFINED,
                value: Seq::<char>::empty(),
                node_name: Seq::<char>::empty(),
            },
            OSRCNodeV::ApiInput {
                min: None,
                max: None,
                default: None,
                timeout: None,
                itype: PinType::UNDEFINED,
                node_name: Seq::<char>::empty(),
            },
            OSRCNodeV::ApiOutput { itype: PinType::UNDEFINED, node_name: Seq::<char>::empty() },
            OSRCNodeV::PIController {
                p: 0,
                i: 0,
                i_limit: 0,
                output_min: 0,
                output_max: 0,
                node_name: Seq::<char>::empty(),
            },
            OSRCNodeV::VelEstimator { alpha: 0 },
            OSRCNodeV::LogicGate { gtype: GateType::NOT },
            OSRCNodeV::Comparator { itype: PinType::UNDEFINED, comparison: ValueCompare::Equal },
            OSRCNodeV::MathOperation { itype: PinType::UNDEFINED, operator: MathOperation::Invalid },
            OSRCNodeV::Multiplexer { itype: PinType::UNDEFINED, input_bits: 0 },
            OSRCNodeV::BitwiseSplit { num_bits: 0 },
            OSRCNodeV::BitwiseJoin { num_bits: 0 },
            OSRCNodeV::EdgeDelay { cycles: 0, rising_edge: false, falling_edge: false },
            OSRCNodeV::CycleDelay { cycles: 0, itype: PinType::UNDEFINED },
            OSRCNodeV::Converter {
                input_type: PinType::UNDEFINED,
                output_type: PinType::UNDEFINED,
                direct_mode: false,
                input_min: Seq::<char>::empty(),
                input_max: Seq::<char>::empty(),
                output_min: Seq::<char>::empty(),
                output_max: Seq::<char>::empty(),
                invert: false,
            },
            OSRCNodeV::SerialDevice {
                enabled: false,
                addr: 0,
                timeout: 0,
                descriptor: Seq::<char>::empty(),
                num_read: 0,
                num_write: 0,
                node_name: Seq::<char>::empty(),
            },
            OSRCNodeV::SerialRead {
                name: Seq::<char>::empty(),
                dev: SerialDeviceReg::Unset,
                itype: PinType::UNDEFINED,
            },
            OSRCNodeV::SerialWrite {
                name: Seq::<char>::empty(),
                dev: SerialDeviceReg::Unset,
                itype: PinType::UNDEFINED,
            },
            OSRCNodeV::GlobalVariableInput { name: Seq::<char>::empty() },
            OSRCNodeV::GlobalVariableOutput { name: Seq::<char>::empty() },
        ]
    }

    /// Builds the palette of node kinds for the editor's add-node
    /// menu.
    pub fn all_kinds() -> (r: Vec<OSRCNode>)
        ensures
            r@.map_values(|k: OSRCNode| k@) =~= OSRCNode::spec_palette(),
    {
        let mut v: Vec<OSRCNode> = Vec::new();
        v.push(OSRCNode::Constant {
            itype: PinType::UNDEFINED,
            value: String::new(),
            node_name: String::new(),
        });
        v.push(OSRCNode::ApiInput {
            min: None,
            max: None,
            default: None,
            timeout: None,
            itype: PinType::UNDEFINED,
            node_name: String::new(),
        });
        v.push(OSRCNode::ApiOutput { itype: PinType::UNDEFINED, node_name: String::new() });
        v.push(OSRCNode::PIController {
            p: 0,
            i: 0,
            i_limit: 0,
            output_min: 0,
            output_max: 0,
            node_name: String::new(),
        });
        v.push(OSRCNode::VelEstimator { alpha: 0 });
        v.push(OSRCNode::LogicGate { gtype: GateType::NOT });
        v.push(OSRCNode::Comparator { itype: PinType::UNDEFINED, comparison: ValueCompare::Equal });
        v.push(OSRCNode::MathOperation {
            itype: PinType::UNDEFINED,
            operator: MathOperation::Invalid,
        });
        v.push(OSRCNode::Multiplexer { itype: PinType::UNDEFINED, input_bits: 0 });
        v.push(OSRCNode::BitwiseSplit { num_bits: 0 });
        v.push(OSRCNode::BitwiseJoin { num_bits: 0 });
        v.push(OSRCNode::EdgeDelay { cycles: 0, rising_edge: false, falling_edge: false });
        v.push(OSRCNode::CycleDelay { cycles: 0, itype: PinType::UNDEFINED });
        v.push(OSRCNode::Converter {
            input_type: PinType::UNDEFINED,
            output_type: PinType::UNDEFINED,
            direct_mode: false,
            input_min: String::new(),
            input_max: String::new(),
            output_min: String::new(),
            output_max: String::new(),
            invert: false,
        });
        v.push(OSRCNode::SerialDevice {
            enabled: false,
            addr: 0,
            timeout: 0,
            descriptor: String::new(),
            num_read: 0,
            num_write: 0,
            node_name: String::new(),
        });
        v.push(OSRCNode::SerialRead {
            name: String::new(),
            dev: SerialDeviceReg::Unset,
            itype: PinType::UNDEFINED,
        });
        v.push(OSRCNode::SerialWrite {
            name: String::new(),
            dev: SerialDeviceReg::Unset,
            itype: PinType::UNDEFINED,
        });
        v.push(OSRCNode::GlobalVariableInput { name: String::new() });
        v.push(OSRCNode::GlobalVariableOutput { name: String::new() });
        v
    }
}

} // verus!
