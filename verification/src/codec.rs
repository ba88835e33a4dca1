//! Lossless persistence codec for the program aggregate: a
//! structured text document of newline-terminated decimal scalars,
//! length-prefixed UTF-8 strings, tagged records for node kinds, and
//! counted arrays — one record per program field, one entry per
//! network, node, connection and global variable, mirroring the data
//! model one to one.
//!
//! Encoding is total; decoding inverts it exactly (`decode` of
//! `encode` gives the program back field for field), degrades an
//! unrecognized node-kind tag to an `Invalid` node instead of
//! failing the document, and rejects malformed input.

use crate::file_structure::Date;
use crate::file_structure::FPGAProgramV;
use crate::file_structure::FileInfoV;
use crate::file_structure::GlobalVariableV;
use crate::file_structure::FPGAProgram;
use crate::file_structure::FileInfo;
use crate::file_structure::GlobalVariable;
use crate::file_structure::Network;
use crate::file_structure::NetworkType;
use crate::file_structure::NetworkV;
use crate::file_structure::Time;
use crate::graph::Connection;
use crate::graph::Graph;
use crate::graph::NodeInstance;
use crate::graph::GraphV;
use crate::graph::NodeInstanceV;
use crate::node::BinaryOperation;
use crate::node::OSRCNode;
use crate::node::OSRCNodeV;
use crate::node::GateType;
use crate::node::MathOperation;
use crate::node::NaryOperation;
use crate::node::PinType;
use crate::node::SerialDeviceReg;
use crate::node::UnaryOperation;
use crate::node::ValueCompare;
use vstd::prelude::*;
use vstd::utf8::decode_utf8;
use vstd::utf8::encode_utf8;
use vstd::utf8::encode_utf8_decode_utf8;
use vstd::utf8::encode_utf8_valid_utf8;
use vstd::utf8::valid_utf8;

verus! {

/// One newline, the terminator of every scalar token.
pub open spec fn nl() -> u8 {
    10
}

/// ASCII digit test.
pub open spec fn is_digit(b: u8) -> bool {
    48 <= b <= 57
}

/// The decimal digits of `n`, most significant first.
pub open spec fn spec_digits(n: nat) -> Seq<u8>
    decreases n,
{
    if n < 10 {
        seq![(48 + n) as u8]
    } else {
        spec_digits(n / 10).push((48 + n % 10) as u8)
    }
}

/// A number as a token: its decimal digits and a newline.
pub open spec fn spec_enc_nat(n: nat) -> Seq<u8> {
    spec_digits(n) + seq![nl()]
}

/// Powers of ten.
pub open spec fn pow10(k: nat) -> nat
    decreases k,
{
    if k == 0 {
        1
    } else {
        10 * pow10((k - 1) as nat)
    }
}

/// The value of a digit string, most significant first.
pub open spec fn spec_digits_value(ds: Seq<u8>) -> nat
    decreases ds.len(),
{
    if ds.len() == 0 {
        0
    } else {
        ((ds[0] - 48) * pow10((ds.len() - 1) as nat) + spec_digits_value(ds.drop_first())) as nat
    }
}

/// Greedy decimal reader: consumes digits into `acc`, stops at the
/// newline, rejects anything else and values beyond the machine
/// word.
pub open spec fn spec_dec_u64_loop(s: Seq<u8>, acc: nat) -> Option<(u64, Seq<u8>)>
    decreases s.len(),
{
    if s.len() == 0 {
        None
    } else if is_digit(s[0]) {
        let acc2 = (acc * 10 + (s[0] - 48)) as nat;
        if acc2 > u64::MAX {
            None
        } else {
            spec_dec_u64_loop(s.drop_first(), acc2)
        }
    } else if s[0] == nl() {
        Some((acc as u64, s.drop_first()))
    } else {
        None
    }
}

/// Reads one number token: at least one digit, then a newline.
pub open spec fn spec_dec_u64(s: Seq<u8>) -> Option<(u64, Seq<u8>)> {
    if s.len() > 0 && is_digit(s[0]) {
        spec_dec_u64_loop(s, 0)
    } else {
        None
    }
}

/// Every byte of a digit string is a digit, there is at least one,
/// and the string's value is the number it was made from.
pub proof fn lemma_digits_shape(n: nat)
    ensures
        spec_digits(n).len() >= 1,
        forall|i: int| 0 <= i < spec_digits(n).len() ==> is_digit(#[trigger] spec_digits(n)[i]),
        spec_digits_value(spec_digits(n)) == n,
    decreases n,
{
    if n < 10 {
        let ds = spec_digits(n);
        assert(ds[0] == (48 + n) as u8);
        assert(ds.drop_first() =~= Seq::<u8>::empty());
        assert(pow10(0) == 1);
        assert(spec_digits_value(ds) == ((ds[0] - 48) * pow10(0) + spec_digits_value(
            ds.drop_first(),
        )) as nat);
    } else {
        lemma_digits_shape(n / 10);
        lemma_digits_value_push(spec_digits(n / 10), ((48 + n % 10) as u8));
        assert(spec_digits_value(spec_digits(n)) == spec_digits_value(spec_digits(n / 10)) * 10 + n
            % 10);
        assert(spec_digits_value(spec_digits(n)) == (n / 10) * 10 + n % 10);
    }
}

/// Appending a digit multiplies the value by ten and adds the digit.
pub proof fn lemma_digits_value_push(ds: Seq<u8>, d: u8)
    requires
        is_digit(d),
        forall|i: int| 0 <= i < ds.len() ==> is_digit(#[trigger] ds[i]),
    ensures
        spec_digits_value(ds.push(d)) == spec_digits_value(ds) * 10 + (d - 48),
    decreases ds.len(),
{
    if ds.len() == 0 {
        assert(ds.push(d).drop_first() =~= Seq::<u8>::empty());
        assert(ds.push(d)[0] == d);
        assert(pow10(0) == 1);
        assert(spec_digits_value(ds.push(d)) == ((d - 48) * pow10(0) + spec_digits_value(
            ds.push(d).drop_first(),
        )) as nat);
    } else {
        assert(ds.push(d).drop_first() =~= ds.drop_first().push(d));
        assert(forall|i: int|
            0 <= i < ds.drop_first().len() ==> is_digit(#[trigger] ds.drop_first()[i]));
        lemma_digits_value_push(ds.drop_first(), d);
        let dsp = ds.push(d);
        let k = ds.len() - 1;
        assert(dsp[0] == ds[0]);
        assert(spec_digits_value(dsp) == (ds[0] - 48) * pow10((k + 1) as nat) + spec_digits_value(
            ds.drop_first().push(d),
        ));
        assert(spec_digits_value(ds.drop_first().push(d)) == spec_digits_value(ds.drop_first()) * 10
            + (d - 48));
        assert(pow10((k + 1) as nat) == 10 * pow10(k as nat));
        assert((ds[0] - 48) * pow10((k + 1) as nat) == ((ds[0] - 48) * pow10(k as nat)) * 10)
            by (nonlinear_arith)
            requires
                pow10((k + 1) as nat) == 10 * pow10(k as nat),
        ;
        assert(spec_digits_value(dsp) == ((ds[0] - 48) * pow10(k as nat) + spec_digits_value(
            ds.drop_first(),
        )) * 10 + (d - 48)) by (nonlinear_arith)
            requires
                spec_digits_value(dsp) == ((ds[0] - 48) * pow10(k as nat)) * 10
                    + spec_digits_value(ds.drop_first()) * 10 + (d - 48),
        ;
    }
}

/// The greedy reader, fed a digit string, a newline and anything
/// after, accumulates the digits onto `acc` and stops at the
/// newline — as long as the final value fits the machine word.
pub proof fn lemma_dec_loop_digits(ds: Seq<u8>, acc: nat, rest: Seq<u8>)
    requires
        forall|i: int| 0 <= i < ds.len() ==> is_digit(#[trigger] ds[i]),
        acc * pow10(ds.len()) + spec_digits_value(ds) <= u64::MAX,
    ensures
        spec_dec_u64_loop(ds + seq![nl()] + rest, acc) == Some(
            ((acc * pow10(ds.len()) + spec_digits_value(ds)) as u64, rest),
        ),
    decreases ds.len(),
{
    let s = ds + seq![nl()] + rest;
    if ds.len() == 0 {
        assert(s[0] == nl());
        assert(s.drop_first() =~= rest);
        assert(pow10(ds.len()) == 1);
        assert(spec_digits_value(ds) == 0);
        assert(acc * pow10(ds.len()) + spec_digits_value(ds) == acc) by (nonlinear_arith)
            requires
                pow10(ds.len()) == 1,
                spec_digits_value(ds) == 0,
        ;
    } else {
        assert(s[0] == ds[0]);
        assert(is_digit(s[0]));
        let d = (ds[0] - 48) as nat;
        let acc2 = acc * 10 + d;
        let dsr = ds.drop_first();
        assert(s.drop_first() =~= dsr + seq![nl()] + rest);
        assert(spec_digits_value(ds) == d * pow10(dsr.len()) + spec_digits_value(dsr));
        assert(acc2 * pow10(dsr.len()) + spec_digits_value(dsr) == acc * pow10(ds.len())
            + spec_digits_value(ds)) by (nonlinear_arith)
            requires
                acc2 == acc * 10 + d,
                pow10(ds.len()) == 10 * pow10(dsr.len()),
                spec_digits_value(ds) == d * pow10(dsr.len()) + spec_digits_value(dsr),
                ds.len() >= 1,
                dsr.len() == ds.len() - 1,
        ;
        assert(pow10(dsr.len()) >= 1) by {
            lemma_pow10_pos(dsr.len());
        }
        assert(acc2 <= acc2 * pow10(dsr.len())) by (nonlinear_arith)
            requires
                pow10(dsr.len()) >= 1,
        ;
        assert(acc2 <= u64::MAX);
        lemma_dec_loop_digits(dsr, acc2, rest);
    }
}

/// Powers of ten are positive.
pub proof fn lemma_pow10_pos(k: nat)
    ensures
        pow10(k) >= 1,
    decreases k,
{
    if k > 0 {
        lemma_pow10_pos((k - 1) as nat);
    }
}

/// Round trip of the number token: reading back what was written
/// gives the number and leaves the rest untouched.
pub proof fn lemma_rt_u64(n: u64, rest: Seq<u8>)
    ensures
        spec_dec_u64(spec_enc_nat(n as nat) + rest) == Some((n, rest)),
{
    lemma_digits_shape(n as nat);
    assert(spec_enc_nat(n as nat) + rest =~= spec_digits(n as nat) + seq![nl()] + rest);
    lemma_dec_loop_digits(spec_digits(n as nat), 0, rest);
    let s = spec_digits(n as nat) + seq![nl()] + rest;
    assert(s[0] == spec_digits(n as nat)[0]);
    assert(is_digit(s[0]));
    assert(0 * pow10(spec_digits(n as nat).len()) + spec_digits_value(spec_digits(n as nat))
        == n as nat);
}

/// A boolean as a number token, `0` or `1`.
pub open spec fn spec_enc_bool(b: bool) -> Seq<u8> {
    if b {
        spec_enc_nat(1)
    } else {
        spec_enc_nat(0)
    }
}

/// Reads a boolean token; any number but `0` and `1` is malformed.
pub open spec fn spec_dec_bool(s: Seq<u8>) -> Option<(bool, Seq<u8>)> {
    match spec_dec_u64(s) {
        Some((v, r)) => if v == 0 {
            Some((false, r))
        } else if v == 1 {
            Some((true, r))
        } else {
            None
        },
        None => None,
    }
}

/// Round trip of the boolean token.
pub proof fn lemma_rt_bool(b: bool, rest: Seq<u8>)
    ensures
        spec_dec_bool(spec_enc_bool(b) + rest) == Some((b, rest)),
{
    if b {
        lemma_rt_u64(1, rest);
    } else {
        lemma_rt_u64(0, rest);
    }
}

/// Reads a number token that must fit in 32 bits.
pub open spec fn spec_dec_u32(s: Seq<u8>) -> Option<(u32, Seq<u8>)> {
    match spec_dec_u64(s) {
        Some((v, r)) => if v <= u32::MAX {
            Some((v as u32, r))
        } else {
            None
        },
        None => None,
    }
}

/// Round trip of the 32-bit token.
pub proof fn lemma_rt_u32(n: u32, rest: Seq<u8>)
    ensures
        spec_dec_u32(spec_enc_nat(n as nat) + rest) == Some((n, rest)),
{
    lemma_rt_u64(n as u64, rest);
}

/// Reads a number token that must fit in 16 bits.
pub open spec fn spec_dec_u16(s: Seq<u8>) -> Option<(u16, Seq<u8>)> {
    match spec_dec_u64(s) {
        Some((v, r)) => if v <= u16::MAX {
            Some((v as u16, r))
        } else {
            None
        },
        None => None,
    }
}

/// Round trip of the 16-bit token.
pub proof fn lemma_rt_u16(n: u16, rest: Seq<u8>)
    ensures
        spec_dec_u16(spec_enc_nat(n as nat) + rest) == Some((n, rest)),
{
    lemma_rt_u64(n as u64, rest);
}

/// Reads a number token that must fit in 8 bits.
pub open spec fn spec_dec_u8(s: Seq<u8>) -> Option<(u8, Seq<u8>)> {
    match spec_dec_u64(s) {
        Some((v, r)) => if v <= u8::MAX {
            Some((v as u8, r))
        } else {
            None
        },
        None => None,
    }
}

/// Round trip of the 8-bit token.
pub proof fn lemma_rt_u8(n: u8, rest: Seq<u8>)
    ensures
        spec_dec_u8(spec_enc_nat(n as nat) + rest) == Some((n, rest)),
{
    lemma_rt_u64(n as u64, rest);
}

/// Reads a number token that must fit the machine's word.
pub open spec fn spec_dec_usize(s: Seq<u8>) -> Option<(usize, Seq<u8>)> {
    match spec_dec_u64(s) {
        Some((v, r)) => if v <= usize::MAX {
            Some((v as usize, r))
        } else {
            None
        },
        None => None,
    }
}

/// Round trip of the word-sized token.
pub proof fn lemma_rt_usize(n: usize, rest: Seq<u8>)
    ensures
        spec_dec_usize(spec_enc_nat(n as nat) + rest) == Some((n, rest)),
{
    lemma_rt_u64(n as u64, rest);
}

/// A signed 32-bit number: a minus sign before the digits when
/// negative.
pub open spec fn spec_enc_i32(x: i32) -> Seq<u8> {
    if x >= 0 {
        spec_enc_nat(x as nat)
    } else {
        seq![45u8] + spec_enc_nat((-(x as int)) as nat)
    }
}

/// Reads a signed 32-bit number.
pub open spec fn spec_dec_i32(s: Seq<u8>) -> Option<(i32, Seq<u8>)> {
    if s.len() > 0 && s[0] == 45 {
        match spec_dec_u64(s.drop_first()) {
            Some((v, r)) => if v <= 0x8000_0000 {
                Some(((-(v as int)) as i32, r))
            } else {
                None
            },
            None => None,
        }
    } else {
        match spec_dec_u64(s) {
            Some((v, r)) => if v <= i32::MAX {
                Some((v as i32, r))
            } else {
                None
            },
            None => None,
        }
    }
}

/// Round trip of the signed token.
pub proof fn lemma_rt_i32(x: i32, rest: Seq<u8>)
    ensures
        spec_dec_i32(spec_enc_i32(x) + rest) == Some((x, rest)),
{
    let s = spec_enc_i32(x) + rest;
    if x >= 0 {
        lemma_digits_shape(x as nat);
        assert(s[0] == spec_digits(x as nat)[0]);
        assert(is_digit(s[0]));
        assert(s[0] != 45);
        lemma_rt_u64(x as u64, rest);
    } else {
        assert(s[0] == 45);
        let m = (-(x as int)) as nat;
        assert(s.drop_first() =~= spec_enc_nat(m) + rest);
        lemma_rt_u64(m as u64, rest);
    }
}

/// A string: the byte length of its UTF-8 form as a token, then the
/// raw bytes.
pub open spec fn spec_enc_str(cs: Seq<char>) -> Seq<u8> {
    spec_enc_nat(encode_utf8(cs).len()) + encode_utf8(cs)
}

/// A string's encoding can be read back: its UTF-8 form is no longer
/// than the largest length token.
pub open spec fn str_ok(cs: Seq<char>) -> bool {
    encode_utf8(cs).len() <= u64::MAX
}

/// Reads a string: a length token, then that many bytes, which must
/// be valid UTF-8.
pub open spec fn spec_dec_str(s: Seq<u8>) -> Option<(Seq<char>, Seq<u8>)> {
    match spec_dec_u64(s) {
        Some((len, r)) => if r.len() >= len && valid_utf8(r.take(len as int)) {
            Some((decode_utf8(r.take(len as int)), r.skip(len as int)))
        } else {
            None
        },
        None => None,
    }
}

/// Round trip of the string encoding.
pub proof fn lemma_rt_str(cs: Seq<char>, rest: Seq<u8>)
    requires
        str_ok(cs),
    ensures
        spec_dec_str(spec_enc_str(cs) + rest) == Some((cs, rest)),
{
    let bytes = encode_utf8(cs);
    let len = bytes.len();
    assert(spec_enc_str(cs) + rest =~= spec_enc_nat(len) + (bytes + rest));
    lemma_rt_u64(len as u64, bytes + rest);
    let r = bytes + rest;
    assert(r.take(len as int) =~= bytes);
    assert(r.skip(len as int) =~= rest);
    encode_utf8_valid_utf8(cs);
    encode_utf8_decode_utf8(cs);
}

/// An optional 64-bit value: a presence flag, then the value when
/// present.
pub open spec fn spec_enc_opt_u64(v: Option<u64>) -> Seq<u8> {
    match v {
        Some(n) => spec_enc_bool(true) + spec_enc_nat(n as nat),
        None => spec_enc_bool(false),
    }
}

/// Reads an optional 64-bit value.
pub open spec fn spec_dec_opt_u64(s: Seq<u8>) -> Option<(Option<u64>, Seq<u8>)> {
    match spec_dec_bool(s) {
        Some((present, r)) => if present {
            match spec_dec_u64(r) {
                Some((n, r2)) => Some((Some(n), r2)),
                None => None,
            }
        } else {
            Some((None, r))
        },
        None => None,
    }
}

/// Round trip of the optional value.
pub proof fn lemma_rt_opt_u64(v: Option<u64>, rest: Seq<u8>)
    ensures
        spec_dec_opt_u64(spec_enc_opt_u64(v) + rest) == Some((v, rest)),
{
    match v {
        Some(n) => {
            assert(spec_enc_opt_u64(v) + rest =~= spec_enc_bool(true) + (spec_enc_nat(n as nat)
                + rest));
            lemma_rt_bool(true, spec_enc_nat(n as nat) + rest);
            lemma_rt_u64(n, rest);
        },
        None => {
            lemma_rt_bool(false, rest);
        },
    }
}

/// The tag of a pin type, in declaration order.
pub open spec fn pin_tag(t: PinType) -> u64 {
    match t {
        PinType::Bool => 0,
        PinType::U8 => 1,
        PinType::U16 => 2,
        PinType::U32 => 3,
        PinType::I8 => 4,
        PinType::I16 => 5,
        PinType::I32 => 6,
        PinType::F32 => 7,
        PinType::F64 => 8,
        PinType::STRING => 9,
        PinType::UNDEFINED => 10,
        PinType::SERIAL => 11,
        PinType::NONE => 12,
    }
}

/// The pin type of a tag, when the tag is known.
pub open spec fn pin_of_tag(v: u64) -> Option<PinType> {
    if v == 0 {
        Some(PinType::Bool)
    } else if v == 1 {
        Some(PinType::U8)
    } else if v == 2 {
        Some(PinType::U16)
    } else if v == 3 {
        Some(PinType::U32)
    } else if v == 4 {
        Some(PinType::I8)
    } else if v == 5 {
        Some(PinType::I16)
    } else if v == 6 {
        Some(PinType::I32)
    } else if v == 7 {
        Some(PinType::F32)
    } else if v == 8 {
        Some(PinType::F64)
    } else if v == 9 {
        Some(PinType::STRING)
    } else if v == 10 {
        Some(PinType::UNDEFINED)
    } else if v == 11 {
        Some(PinType::SERIAL)
    } else if v == 12 {
        Some(PinType::NONE)
    } else {
        None
    }
}

/// A pin type as its tag token.
pub open spec fn spec_enc_pin(t: PinType) -> Seq<u8> {
    spec_enc_nat(pin_tag(t) as nat)
}

/// Reads a pin type; an unknown tag is malformed.
pub open spec fn spec_dec_pin(s: Seq<u8>) -> Option<(PinType, Seq<u8>)> {
    match spec_dec_u64(s) {
        Some((v, r)) => match pin_of_tag(v) {
            Some(t) => Some((t, r)),
            None => None,
        },
        None => None,
    }
}

/// Round trip of the pin-type token.
pub proof fn lemma_rt_pin(t: PinType, rest: Seq<u8>)
    ensures
        spec_dec_pin(spec_enc_pin(t) + rest) == Some((t, rest)),
{
    lemma_rt_u64(pin_tag(t), rest);
}

/// The tag of a comparison kind, in declaration order.
pub open spec fn cmp_tag(c: ValueCompare) -> u64 {
    match c {
        ValueCompare::GreaterThan => 0,
        ValueCompare::GreaterThanOrEqual => 1,
        ValueCompare::LessThan => 2,
        ValueCompare::LessThanOrEqual => 3,
        ValueCompare::Equal => 4,
        ValueCompare::NotEqual => 5,
    }
}

/// The comparison kind of a tag.
pub open spec fn cmp_of_tag(v: u64) -> Option<ValueCompare> {
    if v == 0 {
        Some(ValueCompare::GreaterThan)
    } else if v == 1 {
        Some(ValueCompare::GreaterThanOrEqual)
    } else if v == 2 {
        Some(ValueCompare::LessThan)
    } else if v == 3 {
        Some(ValueCompare::LessThanOrEqual)
    } else if v == 4 {
        Some(ValueCompare::Equal)
    } else if v == 5 {
        Some(ValueCompare::NotEqual)
    } else {
        None
    }
}

/// A comparison kind as its tag token.
pub open spec fn spec_enc_cmp(c: ValueCompare) -> Seq<u8> {
    spec_enc_nat(cmp_tag(c) as nat)
}

/// Reads a comparison kind.
pub open spec fn spec_dec_cmp(s: Seq<u8>) -> Option<(ValueCompare, Seq<u8>)> {
    match spec_dec_u64(s) {
        Some((v, r)) => match cmp_of_tag(v) {
            Some(c) => Some((c, r)),
            None => None,
        },
        None => None,
    }
}

/// Round trip of the comparison token.
pub proof fn lemma_rt_cmp(c: ValueCompare, rest: Seq<u8>)
    ensures
        spec_dec_cmp(spec_enc_cmp(c) + rest) == Some((c, rest)),
{
    lemma_rt_u64(cmp_tag(c), rest);
}

/// A gate kind: its tag token, then the fan-in for the kinds that
/// carry one.
pub open spec fn spec_enc_gate(g: GateType) -> Seq<u8> {
    match g {
        GateType::AND(n) => spec_enc_nat(0) + spec_enc_nat(n as nat),
        GateType::OR(n) => spec_enc_nat(1) + spec_enc_nat(n as nat),
        GateType::NAND(n) => spec_enc_nat(2) + spec_enc_nat(n as nat),
        GateType::NOR(n) => spec_enc_nat(3) + spec_enc_nat(n as nat),
        GateType::XOR(n) => spec_enc_nat(4) + spec_enc_nat(n as nat),
        GateType::NOT => spec_enc_nat(5),
    }
}

/// Reads a gate kind.
pub open spec fn spec_dec_gate(s: Seq<u8>) -> Option<(GateType, Seq<u8>)> {
    match spec_dec_u64(s) {
        Some((v, r)) => if v <= 4 {
            match spec_dec_usize(r) {
                Some((n, r2)) => if v == 0 {
                    Some((GateType::AND(n), r2))
                } else if v == 1 {
                    Some((GateType::OR(n), r2))
                } else if v == 2 {
                    Some((GateType::NAND(n), r2))
                } else if v == 3 {
                    Some((GateType::NOR(n), r2))
                } else {
                    Some((GateType::XOR(n), r2))
                },
                None => None,
            }
        } else if v == 5 {
            Some((GateType::NOT, r))
        } else {
            None
        },
        None => None,
    }
}

/// Round trip of a gate kind's encoding.
pub proof fn lemma_rt_gate(g: GateType, rest: Seq<u8>)
    ensures
        spec_dec_gate(spec_enc_gate(g) + rest) == Some((g, rest)),
{
    match g {
        GateType::AND(n) => {
            assert(spec_enc_gate(g) + rest =~= spec_enc_nat(0) + (spec_enc_nat(n as nat) + rest));
            lemma_rt_u64(0, spec_enc_nat(n as nat) + rest);
            lemma_rt_usize(n, rest);
        },
        GateType::OR(n) => {
            assert(spec_enc_gate(g) + rest =~= spec_enc_nat(1) + (spec_enc_nat(n as nat) + rest));
            lemma_rt_u64(1, spec_enc_nat(n as nat) + rest);
            lemma_rt_usize(n, rest);
        },
        GateType::NAND(n) => {
            assert(spec_enc_gate(g) + rest =~= spec_enc_nat(2) + (spec_enc_nat(n as nat) + rest));
            lemma_rt_u64(2, spec_enc_nat(n as nat) + rest);
            lemma_rt_usize(n, rest);
        },
        GateType::NOR(n) => {
            assert(spec_enc_gate(g) + rest =~= spec_enc_nat(3) + (spec_enc_nat(n as nat) + rest));
            lemma_rt_u64(3, spec_enc_nat(n as nat) + rest);
            lemma_rt_usize(n, rest);
        },
        GateType::XOR(n) => {
            assert(spec_enc_gate(g) + rest =~= spec_enc_nat(4) + (spec_enc_nat(n as nat) + rest));
            lemma_rt_u64(4, spec_enc_nat(n as nat) + rest);
            lemma_rt_usize(n, rest);
        },
        GateType::NOT => {
            lemma_rt_u64(5, rest);
        },
    }
}

/// The tag of a commutative reduction, in declaration order.
pub open spec fn nary_tag(o: NaryOperation) -> u64 {
    match o {
        NaryOperation::ADD => 0,
        NaryOperation::MUL => 1,
        NaryOperation::MIN => 2,
        NaryOperation::MAX => 3,
        NaryOperation::AVG => 4,
    }
}

/// The reduction of a tag.
pub open spec fn nary_of_tag(v: u64) -> Option<NaryOperation> {
    if v == 0 {
        Some(NaryOperation::ADD)
    } else if v == 1 {
        Some(NaryOperation::MUL)
    } else if v == 2 {
        Some(NaryOperation::MIN)
    } else if v == 3 {
        Some(NaryOperation::MAX)
    } else if v == 4 {
        Some(NaryOperation::AVG)
    } else {
        None
    }
}

/// The tag of a two-input operation, in declaration order.
pub open spec fn binary_tag(o: BinaryOperation) -> u64 {
    match o {
        BinaryOperation::ROOT => 0,
        BinaryOperation::POW => 1,
        BinaryOperation::LOG => 2,
    }
}

/// The two-input operation of a tag.
pub open spec fn binary_of_tag(v: u64) -> Option<BinaryOperation> {
    if v == 0 {
        Some(BinaryOperation::ROOT)
    } else if v == 1 {
        Some(BinaryOperation::POW)
    } else if v == 2 {
        Some(BinaryOperation::LOG)
    } else {
        None
    }
}

/// The tag of a one-input operation, in declaration order.
pub open spec fn unary_tag(o: UnaryOperation) -> u64 {
    match o {
        UnaryOperation::LN => 0,
        UnaryOperation::LOG10 => 1,
        UnaryOperation::SINE => 2,
        UnaryOperation::COS => 3,
        UnaryOperation::TAN => 4,
        UnaryOperation::ASIN => 5,
        UnaryOperation::ACOS => 6,
        UnaryOperation::ATAN => 7,
        UnaryOperation::NEGATE => 8,
        UnaryOperation::ABS => 9,
    }
}

/// The one-input operation of a tag.
pub open spec fn unary_of_tag(v: u64) -> Option<UnaryOperation> {
    if v == 0 {
        Some(UnaryOperation::LN)
    } else if v == 1 {
        Some(UnaryOperation::LOG10)
    } else if v == 2 {
        Some(UnaryOperation::SINE)
    } else if v == 3 {
        Some(UnaryOperation::COS)
    } else if v == 4 {
        Some(UnaryOperation::TAN)
    } else if v == 5 {
        Some(UnaryOperation::ASIN)
    } else if v == 6 {
        Some(UnaryOperation::ACOS)
    } else if v == 7 {
        Some(UnaryOperation::ATAN)
    } else if v == 8 {
        Some(UnaryOperation::NEGATE)
    } else if v == 9 {
        Some(UnaryOperation::ABS)
    } else {
        None
    }
}

/// A math operator: its shape tag, then its operator tag and, for
/// the reduction shape, its input count.
pub open spec fn spec_enc_math(m: MathOperation) -> Seq<u8> {
    match m {
        MathOperation::Nary(o, n) => spec_enc_nat(0) + spec_enc_nat(nary_tag(o) as nat)
            + spec_enc_nat(n as nat),
        MathOperation::BinaryOperation(o) => spec_enc_nat(1) + spec_enc_nat(binary_tag(o) as nat),
        MathOperation::UnaryOperation(o) => spec_enc_nat(2) + spec_enc_nat(unary_tag(o) as nat),
        MathOperation::Invalid => spec_enc_nat(3),
    }
}

/// Reads a math operator.
pub open spec fn spec_dec_math(s: Seq<u8>) -> Option<(MathOperation, Seq<u8>)> {
    match spec_dec_u64(s) {
        Some((v, r)) => if v == 0 {
            match spec_dec_u64(r) {
                Some((ov, r2)) => match nary_of_tag(ov) {
                    Some(o) => match spec_dec_usize(r2) {
                        Some((n, r3)) => Some((MathOperation::Nary(o, n), r3)),
                        None => None,
                    },
                    None => None,
                },
                None => None,
            }
        } else if v == 1 {
            match spec_dec_u64(r) {
                Some((ov, r2)) => match binary_of_tag(ov) {
                    Some(o) => Some((MathOperation::BinaryOperation(o), r2)),
                    None => None,
                },
                None => None,
            }
        } else if v == 2 {
            match spec_dec_u64(r) {
                Some((ov, r2)) => match unary_of_tag(ov) {
                    Some(o) => Some((MathOperation::UnaryOperation(o), r2)),
                    None => None,
                },
                None => None,
            }
        } else if v == 3 {
            Some((MathOperation::Invalid, r))
        } else {
            None
        },
        None => None,
    }
}

/// Round trip of the math-operator encoding.
pub proof fn lemma_rt_math(m: MathOperation, rest: Seq<u8>)
    ensures
        spec_dec_math(spec_enc_math(m) + rest) == Some((m, rest)),
{
    match m {
        MathOperation::Nary(o, n) => {
            assert(spec_enc_math(m) + rest =~= spec_enc_nat(0) + (spec_enc_nat(nary_tag(o) as nat)
                + (spec_enc_nat(n as nat) + rest)));
            lemma_rt_u64(0, spec_enc_nat(nary_tag(o) as nat) + (spec_enc_nat(n as nat) + rest));
            lemma_rt_u64(nary_tag(o), spec_enc_nat(n as nat) + rest);
            lemma_rt_usize(n, rest);
        },
        MathOperation::BinaryOperation(o) => {
            assert(spec_enc_math(m) + rest =~= spec_enc_nat(1) + (spec_enc_nat(
                binary_tag(o) as nat,
            ) + rest));
            lemma_rt_u64(1, spec_enc_nat(binary_tag(o) as nat) + rest);
            lemma_rt_u64(binary_tag(o), rest);
        },
        MathOperation::UnaryOperation(o) => {
            assert(spec_enc_math(m) + rest =~= spec_enc_nat(2) + (spec_enc_nat(unary_tag(o) as nat)
                + rest));
            lemma_rt_u64(2, spec_enc_nat(unary_tag(o) as nat) + rest);
            lemma_rt_u64(unary_tag(o), rest);
        },
        MathOperation::Invalid => {
            lemma_rt_u64(3, rest);
        },
    }
}

/// A register addressing mode: its tag, then its fields.
pub open spec fn spec_enc_reg(d: SerialDeviceReg) -> Seq<u8> {
    match d {
        SerialDeviceReg::AsyncReg { update_cycles } => spec_enc_nat(0) + spec_enc_nat(
            update_cycles as nat,
        ),
        SerialDeviceReg::CyclicReg { sync_node, cyclic_index } => spec_enc_nat(1) + spec_enc_bool(
            sync_node,
        ) + spec_enc_nat(cyclic_index as nat),
        SerialDeviceReg::Unset => spec_enc_nat(2),
    }
}

/// Reads a register addressing mode.
pub open spec fn spec_dec_reg(s: Seq<u8>) -> Option<(SerialDeviceReg, Seq<u8>)> {
    match spec_dec_u64(s) {
        Some((v, r)) => if v == 0 {
            match spec_dec_u16(r) {
                Some((u, r2)) => Some((SerialDeviceReg::AsyncReg { update_cycles: u }, r2)),
                None => None,
            }
        } else if v == 1 {
            match spec_dec_bool(r) {
                Some((sn, r2)) => match spec_dec_u32(r2) {
                    Some((ci, r3)) => Some(
                        (SerialDeviceReg::CyclicReg { sync_node: sn, cyclic_index: ci }, r3),
                    ),
                    None => None,
                },
                None => None,
            }
        } else if v == 2 {
            Some((SerialDeviceReg::Unset, r))
        } else {
            None
        },
        None => None,
    }
}

/// Round trip of the register-mode encoding.
pub proof fn lemma_rt_reg(d: SerialDeviceReg, rest: Seq<u8>)
    ensures
        spec_dec_reg(spec_enc_reg(d) + rest) == Some((d, rest)),
{
    match d {
        SerialDeviceReg::AsyncReg { update_cycles } => {
            assert(spec_enc_reg(d) + rest =~= spec_enc_nat(0) + (spec_enc_nat(
                update_cycles as nat,
            ) + rest));
            lemma_rt_u64(0, spec_enc_nat(update_cycles as nat) + rest);
            lemma_rt_u16(update_cycles, rest);
        },
        SerialDeviceReg::CyclicReg { sync_node, cyclic_index } => {
            assert(spec_enc_reg(d) + rest =~= spec_enc_nat(1) + (spec_enc_bool(sync_node) + (
            spec_enc_nat(cyclic_index as nat) + rest)));
            lemma_rt_u64(1, spec_enc_bool(sync_node) + (spec_enc_nat(cyclic_index as nat) + rest));
            lemma_rt_bool(sync_node, spec_enc_nat(cyclic_index as nat) + rest);
            lemma_rt_u32(cyclic_index, rest);
        },
        SerialDeviceReg::Unset => {
            lemma_rt_u64(2, rest);
        },
    }
}

/// A scheduling mode as a tag token.
pub open spec fn spec_enc_nettype(t: NetworkType) -> Seq<u8> {
    match t {
        NetworkType::Sync => spec_enc_nat(0),
        NetworkType::Async => spec_enc_nat(1),
    }
}

/// Reads a scheduling mode.
pub open spec fn spec_dec_nettype(s: Seq<u8>) -> Option<(NetworkType, Seq<u8>)> {
    match spec_dec_u64(s) {
        Some((v, r)) => if v == 0 {
            Some((NetworkType::Sync, r))
        } else if v == 1 {
            Some((NetworkType::Async, r))
        } else {
            None
        },
        None => None,
    }
}

/// Round trip of the scheduling-mode token.
pub proof fn lemma_rt_nettype(t: NetworkType, rest: Seq<u8>)
    ensures
        spec_dec_nettype(spec_enc_nettype(t) + rest) == Some((t, rest)),
{
    match t {
        NetworkType::Sync => lemma_rt_u64(0, rest),
        NetworkType::Async => lemma_rt_u64(1, rest),
    }
}

/// The tag of a node-kind record, in declaration order; `Invalid`
/// closes the list.
pub open spec fn node_tag(k: OSRCNodeV) -> u64 {
    match k {
        OSRCNodeV::Constant { .. } => 0,
        OSRCNodeV::ApiInput { .. } => 1,
        OSRCNodeV::ApiOutput { .. } => 2,
        OSRCNodeV::PIController { .. } => 3,
        OSRCNodeV::VelEstimator { .. } => 4,
        OSRCNodeV::LogicGate { .. } => 5,
        OSRCNodeV::Comparator { .. } => 6,
        OSRCNodeV::MathOperation { .. } => 7,
        OSRCNodeV::Multiplexer { .. } => 8,
        OSRCNodeV::BitwiseSplit { .. } => 9,
        OSRCNodeV::BitwiseJoin { .. } => 10,
        OSRCNodeV::EdgeDelay { .. } => 11,
        OSRCNodeV::CycleDelay { .. } => 12,
        OSRCNodeV::Converter { .. } => 13,
        OSRCNodeV::SerialDevice { .. } => 14,
        OSRCNodeV::SerialRead { .. } => 15,
        OSRCNodeV::SerialWrite { .. } => 16,
        OSRCNodeV::GlobalVariableInput { .. } => 17,
        OSRCNodeV::GlobalVariableOutput { .. } => 18,
        OSRCNodeV::Invalid => 19,
    }
}

/// The named fields of a node-kind record, in declaration order.
pub open spec fn spec_node_payload(k: OSRCNodeV) -> Seq<u8> {
    match k {
        OSRCNodeV::Constant { itype, value, node_name } => spec_enc_pin(itype) + spec_enc_str(value)
            + spec_enc_str(node_name),
        OSRCNodeV::ApiInput { min, max, default, timeout, itype, node_name } => spec_enc_opt_u64(
            min,
        ) + spec_enc_opt_u64(max) + spec_enc_opt_u64(default) + spec_enc_opt_u64(timeout)
            + spec_enc_pin(itype) + spec_enc_str(node_name),
        OSRCNodeV::ApiOutput { itype, node_name } => spec_enc_pin(itype) + spec_enc_str(node_name),
        OSRCNodeV::PIController { p, i, i_limit, output_min, output_max, node_name } => spec_enc_nat(
            p as nat,
        ) + spec_enc_nat(i as nat) + spec_enc_nat(i_limit as nat) + spec_enc_nat(output_min as nat)
            + spec_enc_nat(output_max as nat) + spec_enc_str(node_name),
        OSRCNodeV::VelEstimator { alpha } => spec_enc_nat(alpha as nat),
        OSRCNodeV::LogicGate { gtype } => spec_enc_gate(gtype),
        OSRCNodeV::Comparator { itype, comparison } => spec_enc_pin(itype) + spec_enc_cmp(
            comparison,
        ),
        OSRCNodeV::MathOperation { itype, operator } => spec_enc_pin(itype) + spec_enc_math(
            operator,
        ),
        OSRCNodeV::Multiplexer { itype, input_bits } => spec_enc_pin(itype) + spec_enc_nat(
            input_bits as nat,
        ),
        OSRCNodeV::BitwiseSplit { num_bits } => spec_enc_nat(num_bits as nat),
        OSRCNodeV::BitwiseJoin { num_bits } => spec_enc_nat(num_bits as nat),
        OSRCNodeV::EdgeDelay { cycles, rising_edge, falling_edge } => spec_enc_nat(cycles as nat)
            + spec_enc_bool(rising_edge) + spec_enc_bool(falling_edge),
        OSRCNodeV::CycleDelay { cycles, itype } => spec_enc_nat(cycles as nat) + spec_enc_pin(
            itype,
        ),
        OSRCNodeV::Converter {
            input_type,
            output_type,
            direct_mode,
            input_min,
            input_max,
            output_min,
            output_max,
            invert,
        } => spec_enc_pin(input_type) + spec_enc_pin(output_type) + spec_enc_bool(direct_mode)
            + spec_enc_str(input_min) + spec_enc_str(input_max) + spec_enc_str(output_min)
            + spec_enc_str(output_max) + spec_enc_bool(invert),
        OSRCNodeV::SerialDevice {
            enabled,
            addr,
            timeout,
            descriptor,
            num_read,
            num_write,
            node_name,
        } => spec_enc_bool(enabled) + spec_enc_nat(addr as nat) + spec_enc_nat(timeout as nat)
            + spec_enc_str(descriptor) + spec_enc_nat(num_read as nat) + spec_enc_nat(
            num_write as nat,
        ) + spec_enc_str(node_name),
        OSRCNodeV::SerialRead { name, dev, itype } => spec_enc_str(name) + spec_enc_reg(dev)
            + spec_enc_pin(itype),
        OSRCNodeV::SerialWrite { name, dev, itype } => spec_enc_str(name) + spec_enc_reg(dev)
            + spec_enc_pin(itype),
        OSRCNodeV::GlobalVariableInput { name } => spec_enc_str(name),
        OSRCNodeV::GlobalVariableOutput { name } => spec_enc_str(name),
        OSRCNodeV::Invalid => Seq::empty(),
    }
}

/// A node kind as a tagged record: its tag, the byte length of its
/// payload — so that a reader can step over a record it does not
/// recognize — and the payload.
pub open spec fn spec_enc_node(k: OSRCNodeV) -> Seq<u8> {
    spec_enc_nat(node_tag(k) as nat) + spec_enc_nat(spec_node_payload(k).len())
        + spec_node_payload(k)
}

/// The strings of a node kind can be read back, and its payload is
/// no longer than the largest length token.
pub open spec fn node_ok(k: OSRCNodeV) -> bool {
    &&& spec_node_payload(k).len() <= u64::MAX
    &&& match k {
        OSRCNodeV::Constant { value, node_name, .. } => str_ok(value) && str_ok(node_name),
        OSRCNodeV::ApiInput { node_name, .. } => str_ok(node_name),
        OSRCNodeV::ApiOutput { node_name, .. } => str_ok(node_name),
        OSRCNodeV::PIController { node_name, .. } => str_ok(node_name),
        OSRCNodeV::Converter { input_min, input_max, output_min, output_max, .. } => str_ok(
            input_min,
        ) && str_ok(input_max) && str_ok(output_min) && str_ok(output_max),
        OSRCNodeV::SerialDevice { descriptor, node_name, .. } => str_ok(descriptor) && str_ok(
            node_name,
        ),
        OSRCNodeV::SerialRead { name, .. } => str_ok(name),
        OSRCNodeV::SerialWrite { name, .. } => str_ok(name),
        OSRCNodeV::GlobalVariableInput { name } => str_ok(name),
        OSRCNodeV::GlobalVariableOutput { name } => str_ok(name),
        _ => true,
    }
}

/// Reads the payload of a `Constant` record.
pub open spec fn spec_dec_node_constant(s: Seq<u8>) -> Option<(OSRCNodeV, Seq<u8>)> {
    match spec_dec_pin(s) {
        Some((itype, r)) => match spec_dec_str(r) {
            Some((value, r2)) => match spec_dec_str(r2) {
                Some((node_name, r3)) => Some(
                    (OSRCNodeV::Constant { itype, value, node_name }, r3),
                ),
                None => None,
            },
            None => None,
        },
        None => None,
    }
}

/// Reads the payload of an `ApiInput` record.
pub open spec fn spec_dec_node_api_input(s: Seq<u8>) -> Option<(OSRCNodeV, Seq<u8>)> {
    match spec_dec_opt_u64(s) {
        Some((min, r1)) => match spec_dec_opt_u64(r1) {
            Some((max, r2)) => match spec_dec_opt_u64(r2) {
                Some((default, r3)) => match spec_dec_opt_u64(r3) {
                    Some((timeout, r4)) => match spec_dec_pin(r4) {
                        Some((itype, r5)) => match spec_dec_str(r5) {
                            Some((node_name, r6)) => Some(
                                (
                                    OSRCNodeV::ApiInput {
                                        min,
                                        max,
                                        default,
                                        timeout,
                                        itype,
                                        node_name,
                                    },
                                    r6,
                                ),
                            ),
                            None => None,
                        },
                        None => None,
                    },
                    None => None,
                },
                None => None,
            },
            None => None,
        },
        None => None,
    }
}

/// Reads the payload of a `PIController` record.
pub open spec fn spec_dec_node_pi(s: Seq<u8>) -> Option<(OSRCNodeV, Seq<u8>)> {
    match spec_dec_u32(s) {
        Some((p, r1)) => match spec_dec_u32(r1) {
            Some((i, r2)) => match spec_dec_u32(r2) {
                Some((i_limit, r3)) => match spec_dec_u32(r3) {
                    Some((output_min, r4)) => match spec_dec_u32(r4) {
                        Some((output_max, r5)) => match spec_dec_str(r5) {
                            Some((node_name, r6)) => Some(
                                (
                                    OSRCNodeV::PIController {
                                        p,
                                        i,
                                        i_limit,
                                        output_min,
                                        output_max,
                                        node_name,
                                    },
                                    r6,
                                ),
                            ),
                            None => None,
                        },
                        None => None,
                    },
                    None => None,
                },
                None => None,
            },
            None => None,
        },
        None => None,
    }
}

/// Reads the payload of a `Converter` record.
pub open spec fn spec_dec_node_converter(s: Seq<u8>) -> Option<(OSRCNodeV, Seq<u8>)> {
    match spec_dec_pin(s) {
        Some((input_type, r1)) => match spec_dec_pin(r1) {
            Some((output_type, r2)) => match spec_dec_bool(r2) {
                Some((direct_mode, r3)) => match spec_dec_str(r3) {
                    Some((input_min, r4)) => match spec_dec_str(r4) {
                        Some((input_max, r5)) => match spec_dec_str(r5) {
                            Some((output_min, r6)) => match spec_dec_str(r6) {
                                Some((output_max, r7)) => match spec_dec_bool(r7) {
                                    Some((invert, r8)) => Some(
                                        (
                                            OSRCNodeV::Converter {
                                                input_type,
                                                output_type,
                                                direct_mode,
                                                input_min,
                                                input_max,
                                                output_min,
                                                output_max,
                                                invert,
                                            },
                                            r8,
                                        ),
                                    ),
                                    None => None,
                                },
                                None => None,
                            },
                            None => None,
                        },
                        None => None,
                    },
                    None => None,
                },
                None => None,
            },
            None => None,
        },
        None => None,
    }
}

/// Reads the payload of a `SerialDevice` record.
pub open spec fn spec_dec_node_serial_device(s: Seq<u8>) -> Option<(OSRCNodeV, Seq<u8>)> {
    match spec_dec_bool(s) {
        Some((enabled, r1)) => match spec_dec_u16(r1) {
            Some((addr, r2)) => match spec_dec_u16(r2) {
                Some((timeout, r3)) => match spec_dec_str(r3) {
                    Some((descriptor, r4)) => match spec_dec_usize(r4) {
                        Some((num_read, r5)) => match spec_dec_usize(r5) {
                            Some((num_write, r6)) => match spec_dec_str(r6) {
                                Some((node_name, r7)) => Some(
                                    (
                                        OSRCNodeV::SerialDevice {
                                            enabled,
                                            addr,
                                            timeout,
                                            descriptor,
                                            num_read,
                                            num_write,
                                            node_name,
                                        },
                                        r7,
                                    ),
                                ),
                                None => None,
                            },
                            None => None,
                        },
                        None => None,
                    },
                    None => None,
                },
                None => None,
            },
            None => None,
        },
        None => None,
    }
}

/// Reads the payload of a `SerialRead` or `SerialWrite` record;
/// `write` picks which.
pub open spec fn spec_dec_node_serial_rw(s: Seq<u8>, write: bool) -> Option<(OSRCNodeV, Seq<u8>)> {
    match spec_dec_str(s) {
        Some((name, r1)) => match spec_dec_reg(r1) {
            Some((dev, r2)) => match spec_dec_pin(r2) {
                Some((itype, r3)) => if write {
                    Some((OSRCNodeV::SerialWrite { name, dev, itype }, r3))
                } else {
                    Some((OSRCNodeV::SerialRead { name, dev, itype }, r3))
                },
                None => None,
            },
            None => None,
        },
        None => None,
    }
}

/// Reads a node-kind record: tag, payload length, payload. A known
/// tag's payload is parsed field by field; an unknown tag is stepped
/// over by its payload length and degrades to `Invalid` rather than
/// failing the document.
pub open spec fn spec_dec_node(s: Seq<u8>) -> Option<(OSRCNodeV, Seq<u8>)> {
    match spec_dec_u64(s) {
        None => None,
        Some((tag, r1)) => match spec_dec_u64(r1) {
            None => None,
            Some((plen, r2)) => if tag == 0 {
                spec_dec_node_constant(r2)
            } else if tag == 1 {
                spec_dec_node_api_input(r2)
            } else if tag == 2 {
                match spec_dec_pin(r2) {
                    Some((itype, q1)) => match spec_dec_str(q1) {
                        Some((node_name, q2)) => Some((OSRCNodeV::ApiOutput { itype, node_name }, q2)),
                        None => None,
                    },
                    None => None,
                }
            } else if tag == 3 {
                spec_dec_node_pi(r2)
            } else if tag == 4 {
                match spec_dec_u32(r2) {
                    Some((alpha, q1)) => Some((OSRCNodeV::VelEstimator { alpha }, q1)),
                    None => None,
                }
            } else if tag == 5 {
                match spec_dec_gate(r2) {
                    Some((gtype, q1)) => Some((OSRCNodeV::LogicGate { gtype }, q1)),
                    None => None,
                }
            } else if tag == 6 {
                match spec_dec_pin(r2) {
                    Some((itype, q1)) => match spec_dec_cmp(q1) {
                        Some((comparison, q2)) => Some(
                            (OSRCNodeV::Comparator { itype, comparison }, q2),
                        ),
                        None => None,
                    },
                    None => None,
                }
            } else if tag == 7 {
                match spec_dec_pin(r2) {
                    Some((itype, q1)) => match spec_dec_math(q1) {
                        Some((operator, q2)) => Some(
                            (OSRCNodeV::MathOperation { itype, operator }, q2),
                        ),
                        None => None,
                    },
                    None => None,
                }
            } else if tag == 8 {
                match spec_dec_pin(r2) {
                    Some((itype, q1)) => match spec_dec_usize(q1) {
                        Some((input_bits, q2)) => Some(
                            (OSRCNodeV::Multiplexer { itype, input_bits }, q2),
                        ),
                        None => None,
                    },
                    None => None,
                }
            } else if tag == 9 {
                match spec_dec_usize(r2) {
                    Some((num_bits, q1)) => Some((OSRCNodeV::BitwiseSplit { num_bits }, q1)),
                    None => None,
                }
            } else if tag == 10 {
                match spec_dec_usize(r2) {
                    Some((num_bits, q1)) => Some((OSRCNodeV::BitwiseJoin { num_bits }, q1)),
                    None => None,
                }
            } else if tag == 11 {
                match spec_dec_usize(r2) {
                    Some((cycles, q1)) => match spec_dec_bool(q1) {
                        Some((rising_edge, q2)) => match spec_dec_bool(q2) {
                            Some((falling_edge, q3)) => Some(
                                (OSRCNodeV::EdgeDelay { cycles, rising_edge, falling_edge }, q3),
                            ),
                            None => None,
                        },
                        None => None,
                    },
                    None => None,
                }
            } else if tag == 12 {
                match spec_dec_usize(r2) {
                    Some((cycles, q1)) => match spec_dec_pin(q1) {
                        Some((itype, q2)) => Some((OSRCNodeV::CycleDelay { cycles, itype }, q2)),
                        None => None,
                    },
                    None => None,
                }
            } else if tag == 13 {
                spec_dec_node_converter(r2)
            } else if tag == 14 {
                spec_dec_node_serial_device(r2)
            } else if tag == 15 {
                spec_dec_node_serial_rw(r2, false)
            } else if tag == 16 {
                spec_dec_node_serial_rw(r2, true)
            } else if tag == 17 {
                match spec_dec_str(r2) {
                    Some((name, q1)) => Some((OSRCNodeV::GlobalVariableInput { name }, q1)),
                    None => None,
                }
            } else if tag == 18 {
                match spec_dec_str(r2) {
                    Some((name, q1)) => Some((OSRCNodeV::GlobalVariableOutput { name }, q1)),
                    None => None,
                }
            } else if tag == 19 {
                Some((OSRCNodeV::Invalid, r2))
            } else {
                if r2.len() >= plen {
                    Some((OSRCNodeV::Invalid, r2.skip(plen as int)))
                } else {
                    None
                }
            },
        },
    }
}

/// Round trip of one node-kind record shape.
#[verifier::spinoff_prover]
proof fn lemma_rt_node_constant(k: OSRCNodeV, rest: Seq<u8>)
    requires
        node_ok(k),
        k is Constant,
    ensures
        spec_dec_node(spec_enc_node(k) + rest) == Some((k, rest)),
{
    let pl = spec_node_payload(k);
    let tag = node_tag(k);
    assert(pl.len() == ((pl.len() as u64) as nat));
    match k {
        OSRCNodeV::Constant { itype, value, node_name } => {
            let r3 = spec_enc_str(node_name) + rest;
            let r2 = spec_enc_str(value) + r3;
            let r1 = spec_enc_pin(itype) + r2;
            let r0 = spec_enc_nat(pl.len()) + r1;
            assert(spec_enc_node(k) + rest =~= spec_enc_nat(tag as nat) + r0);
            lemma_rt_u64(tag, r0);
            lemma_rt_u64(pl.len() as u64, r1);
            lemma_rt_pin(itype, r2);
            lemma_rt_str(value, r3);
            lemma_rt_str(node_name, rest);
        },
        _ => { },
    }
}

/// Sequence concatenation reassociates.
proof fn seq_assoc<A>(x: Seq<A>, y: Seq<A>, z: Seq<A>)
    ensures
        (x + y) + z == x + (y + z),
{
    assert((x + y) + z =~= x + (y + z));
}

/// Round trip of one node-kind record shape.
#[verifier::rlimit(100)]
#[verifier::spinoff_prover]
proof fn lemma_rt_node_api_input(k: OSRCNodeV, rest: Seq<u8>)
    requires
        node_ok(k),
        k is ApiInput,
    ensures
        spec_dec_node(spec_enc_node(k) + rest) == Some((k, rest)),
{
    let pl = spec_node_payload(k);
    let tag = node_tag(k);
    assert(pl.len() == ((pl.len() as u64) as nat));
    match k {
        OSRCNodeV::ApiInput { min, max, default, timeout, itype, node_name } => {
            let r6 = spec_enc_str(node_name) + rest;
            let r5 = spec_enc_pin(itype) + r6;
            let r4 = spec_enc_opt_u64(timeout) + r5;
            let r3 = spec_enc_opt_u64(default) + r4;
            let r2 = spec_enc_opt_u64(max) + r3;
            let r1 = spec_enc_opt_u64(min) + r2;
            let r0 = spec_enc_nat(pl.len()) + r1;
            let o1 = spec_enc_opt_u64(min);
            let o2 = spec_enc_opt_u64(max);
            let o3 = spec_enc_opt_u64(default);
            let o4 = spec_enc_opt_u64(timeout);
            let p5 = spec_enc_pin(itype);
            let s6 = spec_enc_str(node_name);
            let tg = spec_enc_nat(tag as nat);
            let pn = spec_enc_nat(pl.len());
            seq_assoc(o1 + o2 + o3 + o4 + p5, s6, rest);
            seq_assoc(o1 + o2 + o3 + o4, p5, r6);
            seq_assoc(o1 + o2 + o3, o4, r5);
            seq_assoc(o1 + o2, o3, r4);
            seq_assoc(o1, o2, r3);
            assert(pl + rest == r1);
            seq_assoc(tg + pn, pl, rest);
            seq_assoc(tg, pn, r1);
            assert(spec_enc_node(k) + rest == tg + r0);
            lemma_rt_u64(tag, r0);
            lemma_rt_u64(pl.len() as u64, r1);
            lemma_rt_opt_u64(min, r2);
            lemma_rt_opt_u64(max, r3);
            lemma_rt_opt_u64(default, r4);
            lemma_rt_opt_u64(timeout, r5);
            lemma_rt_pin(itype, r6);
            lemma_rt_str(node_name, rest);
        },
        _ => { },
    }
}

/// Round trip of one node-kind record shape.
#[verifier::spinoff_prover]
proof fn lemma_rt_node_api_output(k: OSRCNodeV, rest: Seq<u8>)
    requires
        node_ok(k),
        k is ApiOutput,
    ensures
        spec_dec_node(spec_enc_node(k) + rest) == Some((k, rest)),
{
    let pl = spec_node_payload(k);
    let tag = node_tag(k);
    assert(pl.len() == ((pl.len() as u64) as nat));
    match k {
        OSRCNodeV::ApiOutput { itype, node_name } => {
            let r2 = spec_enc_str(node_name) + rest;
            let r1 = spec_enc_pin(itype) + r2;
            let r0 = spec_enc_nat(pl.len()) + r1;
            assert(spec_enc_node(k) + rest =~= spec_enc_nat(tag as nat) + r0);
            lemma_rt_u64(tag, r0);
            lemma_rt_u64(pl.len() as u64, r1);
            lemma_rt_pin(itype, r2);
            lemma_rt_str(node_name, rest);
        },
        _ => { },
    }
}

/// Round trip of one node-kind record shape.
#[verifier::spinoff_prover]
proof fn lemma_rt_node_p_i_controller(k: OSRCNodeV, rest: Seq<u8>)
    requires
        node_ok(k),
        k is PIController,
    ensures
        spec_dec_node(spec_enc_node(k) + rest) == Some((k, rest)),
{
    let pl = spec_node_payload(k);
    let tag = node_tag(k);
    assert(pl.len() == ((pl.len() as u64) as nat));
    match k {
        OSRCNodeV::PIController { p, i, i_limit, output_min, output_max, node_name } => {
            let r6 = spec_enc_str(node_name) + rest;
            let r5 = spec_enc_nat(output_max as nat) + r6;
            let r4 = spec_enc_nat(output_min as nat) + r5;
            let r3 = spec_enc_nat(i_limit as nat) + r4;
            let r2 = spec_enc_nat(i as nat) + r3;
            let r1 = spec_enc_nat(p as nat) + r2;
            let r0 = spec_enc_nat(pl.len()) + r1;
            assert(spec_enc_node(k) + rest =~= spec_enc_nat(tag as nat) + r0);
            lemma_rt_u64(tag, r0);
            lemma_rt_u64(pl.len() as u64, r1);
            lemma_rt_u32(p, r2);
            lemma_rt_u32(i, r3);
            lemma_rt_u32(i_limit, r4);
            lemma_rt_u32(output_min, r5);
            lemma_rt_u32(output_max, r6);
            lemma_rt_str(node_name, rest);
        },
        _ => { },
    }
}

/// Round trip of one node-kind record shape.
#[verifier::spinoff_prover]
proof fn lemma_rt_node_vel_estimator(k: OSRCNodeV, rest: Seq<u8>)
    requires
        node_ok(k),
        k is VelEstimator,
    ensures
        spec_dec_node(spec_enc_node(k) + rest) == Some((k, rest)),
{
    let pl = spec_node_payload(k);
    let tag = node_tag(k);
    assert(pl.len() == ((pl.len() as u64) as nat));
    match k {
        OSRCNodeV::VelEstimator { alpha } => {
            let r1 = spec_enc_nat(alpha as nat) + rest;
            let r0 = spec_enc_nat(pl.len()) + r1;
            assert(spec_enc_node(k) + rest =~= spec_enc_nat(tag as nat) + r0);
            lemma_rt_u64(tag, r0);
            lemma_rt_u64(pl.len() as u64, r1);
            lemma_rt_u32(alpha, rest);
        },
        _ => { },
    }
}

/// Round trip of one node-kind record shape.
#[verifier::spinoff_prover]
proof fn lemma_rt_node_logic_gate(k: OSRCNodeV, rest: Seq<u8>)
    requires
        node_ok(k),
        k is LogicGate,
    ensures
        spec_dec_node(spec_enc_node(k) + rest) == Some((k, rest)),
{
    let pl = spec_node_payload(k);
    let tag = node_tag(k);
    assert(pl.len() == ((pl.len() as u64) as nat));
    match k {
        OSRCNodeV::LogicGate { gtype } => {
            let r1 = spec_enc_gate(gtype) + rest;
            let r0 = spec_enc_nat(pl.len()) + r1;
            assert(spec_enc_node(k) + rest =~= spec_enc_nat(tag as nat) + r0);
            lemma_rt_u64(tag, r0);
            lemma_rt_u64(pl.len() as u64, r1);
            lemma_rt_gate(gtype, rest);
        },
        _ => { },
    }
}

/// Round trip of one node-kind record shape.
#[verifier::spinoff_prover]
proof fn lemma_rt_node_comparator(k: OSRCNodeV, rest: Seq<u8>)
    requires
        node_ok(k),
        k is Comparator,
    ensures
        spec_dec_node(spec_enc_node(k) + rest) == Some((k, rest)),
{
    let pl = spec_node_payload(k);
    let tag = node_tag(k);
    assert(pl.len() == ((pl.len() as u64) as nat));
    match k {
        OSRCNodeV::Comparator { itype, comparison } => {
            let r2 = spec_enc_cmp(comparison) + rest;
            let r1 = spec_enc_pin(itype) + r2;
            let r0 = spec_enc_nat(pl.len()) + r1;
            assert(spec_enc_node(k) + rest =~= spec_enc_nat(tag as nat) + r0);
            lemma_rt_u64(tag, r0);
            lemma_rt_u64(pl.len() as u64, r1);
            lemma_rt_pin(itype, r2);
            lemma_rt_cmp(comparison, rest);
        },
        _ => { },
    }
}

/// Round trip of one node-kind record shape.
#[verifier::spinoff_prover]
proof fn lemma_rt_node_math_operation(k: OSRCNodeV, rest: Seq<u8>)
    requires
        node_ok(k),
        k is MathOperation,
    ensures
        spec_dec_node(spec_enc_node(k) + rest) == Some((k, rest)),
{
    let pl = spec_node_payload(k);
    let tag = node_tag(k);
    assert(pl.len() == ((pl.len() as u64) as nat));
    match k {
        OSRCNodeV::MathOperation { itype, operator } => {
            let r2 = spec_enc_math(operator) + rest;
            let r1 = spec_enc_pin(itype) + r2;
            let r0 = spec_enc_nat(pl.len()) + r1;
            assert(spec_enc_node(k) + rest =~= spec_enc_nat(tag as nat) + r0);
            lemma_rt_u64(tag, r0);
            lemma_rt_u64(pl.len() as u64, r1);
            lemma_rt_pin(itype, r2);
            lemma_rt_math(operator, rest);
        },
        _ => { },
    }
}

/// Round trip of one node-kind record shape.
#[verifier::spinoff_prover]
proof fn lemma_rt_node_multiplexer(k: OSRCNodeV, rest: Seq<u8>)
    requires
        node_ok(k),
        k is Multiplexer,
    ensures
        spec_dec_node(spec_enc_node(k) + rest) == Some((k, rest)),
{
    let pl = spec_node_payload(k);
    let tag = node_tag(k);
    assert(pl.len() == ((pl.len() as u64) as nat));
    match k {
        OSRCNodeV::Multiplexer { itype, input_bits } => {
            let r2 = spec_enc_nat(input_bits as nat) + rest;
            let r1 = spec_enc_pin(itype) + r2;
            let r0 = spec_enc_nat(pl.len()) + r1;
            assert(spec_enc_node(k) + rest =~= spec_enc_nat(tag as nat) + r0);
            lemma_rt_u64(tag, r0);
            lemma_rt_u64(pl.len() as u64, r1);
            lemma_rt_pin(itype, r2);
            lemma_rt_usize(input_bits, rest);
        },
        _ => { },
    }
}

/// Round trip of one node-kind record shape.
#[verifier::spinoff_prover]
proof fn lemma_rt_node_bitwise_split(k: OSRCNodeV, rest: Seq<u8>)
    requires
        node_ok(k),
        k is BitwiseSplit,
    ensures
        spec_dec_node(spec_enc_node(k) + rest) == Some((k, rest)),
{
    let pl = spec_node_payload(k);
    let tag = node_tag(k);
    assert(pl.len() == ((pl.len() as u64) as nat));
    match k {
        OSRCNodeV::BitwiseSplit { num_bits } => {
            let r1 = spec_enc_nat(num_bits as nat) + rest;
            let r0 = spec_enc_nat(pl.len()) + r1;
            assert(spec_enc_node(k) + rest =~= spec_enc_nat(tag as nat) + r0);
            lemma_rt_u64(tag, r0);
            lemma_rt_u64(pl.len() as u64, r1);
            lemma_rt_usize(num_bits, rest);
        },
        _ => { },
    }
}

/// Round trip of one node-kind record shape.
#[verifier::spinoff_prover]
proof fn lemma_rt_node_bitwise_join(k: OSRCNodeV, rest: Seq<u8>)
    requires
        node_ok(k),
        k is BitwiseJoin,
    ensures
        spec_dec_node(spec_enc_node(k) + rest) == Some((k, rest)),
{
    let pl = spec_node_payload(k);
    let tag = node_tag(k);
    assert(pl.len() == ((pl.len() as u64) as nat));
    match k {
        OSRCNodeV::BitwiseJoin { num_bits } => {
            let r1 = spec_enc_nat(num_bits as nat) + rest;
            let r0 = spec_enc_nat(pl.len()) + r1;
            assert(spec_enc_node(k) + rest =~= spec_enc_nat(tag as nat) + r0);
            lemma_rt_u64(tag, r0);
            lemma_rt_u64(pl.len() as u64, r1);
            lemma_rt_usize(num_bits, rest);
        },
        _ => { },
    }
}

/// Round trip of one node-kind record shape.
#[verifier::spinoff_prover]
proof fn lemma_rt_node_edge_delay(k: OSRCNodeV, rest: Seq<u8>)
    requires
        node_ok(k),
        k is EdgeDelay,
    ensures
        spec_dec_node(spec_enc_node(k) + rest) == Some((k, rest)),
{
    let pl = spec_node_payload(k);
    let tag = node_tag(k);
    assert(pl.len() == ((pl.len() as u64) as nat));
    match k {
        OSRCNodeV::EdgeDelay { cycles, rising_edge, falling_edge } => {
            let r3 = spec_enc_bool(falling_edge) + rest;
            let r2 = spec_enc_bool(rising_edge) + r3;
            let r1 = spec_enc_nat(cycles as nat) + r2;
            let r0 = spec_enc_nat(pl.len()) + r1;
            assert(spec_enc_node(k) + rest =~= spec_enc_nat(tag as nat) + r0);
            lemma_rt_u64(tag, r0);
            lemma_rt_u64(pl.len() as u64, r1);
            lemma_rt_usize(cycles, r2);
            lemma_rt_bool(rising_edge, r3);
            lemma_rt_bool(falling_edge, rest);
        },
        _ => { },
    }
}

/// Round trip of one node-kind record shape.
#[verifier::spinoff_prover]
proof fn lemma_rt_node_cycle_delay(k: OSRCNodeV, rest: Seq<u8>)
    requires
        node_ok(k),
        k is CycleDelay,
    ensures
        spec_dec_node(spec_enc_node(k) + rest) == Some((k, rest)),
{
    let pl = spec_node_payload(k);
    let tag = node_tag(k);
    assert(pl.len() == ((pl.len() as u64) as nat));
    match k {
        OSRCNodeV::CycleDelay { cycles, itype } => {
            let r2 = spec_enc_pin(itype) + rest;
            let r1 = spec_enc_nat(cycles as nat) + r2;
            let r0 = spec_enc_nat(pl.len()) + r1;
            assert(spec_enc_node(k) + rest =~= spec_enc_nat(tag as nat) + r0);
            lemma_rt_u64(tag, r0);
            lemma_rt_u64(pl.len() as u64, r1);
            lemma_rt_usize(cycles, r2);
            lemma_rt_pin(itype, rest);
        },
        _ => { },
    }
}

/// Round trip of one node-kind record shape.
#[verifier::rlimit(100)]
#[verifier::spinoff_prover]
proof fn lemma_rt_node_converter(k: OSRCNodeV, rest: Seq<u8>)
    requires
        node_ok(k),
        k is Converter,
    ensures
        spec_dec_node(spec_enc_node(k) + rest) == Some((k, rest)),
{
    let pl = spec_node_payload(k);
    let tag = node_tag(k);
    assert(pl.len() == ((pl.len() as u64) as nat));
    match k {
        OSRCNodeV::Converter {
            input_type,
            output_type,
            direct_mode,
            input_min,
            input_max,
            output_min,
            output_max,
            invert,
        } => {
            let r8 = spec_enc_bool(invert) + rest;
            let r7 = spec_enc_str(output_max) + r8;
            let r6 = spec_enc_str(output_min) + r7;
            let r5 = spec_enc_str(input_max) + r6;
            let r4 = spec_enc_str(input_min) + r5;
            let r3 = spec_enc_bool(direct_mode) + r4;
            let r2 = spec_enc_pin(output_type) + r3;
            let r1 = spec_enc_pin(input_type) + r2;
            let r0 = spec_enc_nat(pl.len()) + r1;
            let f1 = spec_enc_pin(input_type);
            let f2 = spec_enc_pin(output_type);
            let f3 = spec_enc_bool(direct_mode);
            let f4 = spec_enc_str(input_min);
            let f5 = spec_enc_str(input_max);
            let f6 = spec_enc_str(output_min);
            let f7 = spec_enc_str(output_max);
            let f8 = spec_enc_bool(invert);
            let tg = spec_enc_nat(tag as nat);
            let pn = spec_enc_nat(pl.len());
            seq_assoc(f1 + f2 + f3 + f4 + f5 + f6 + f7, f8, rest);
            seq_assoc(f1 + f2 + f3 + f4 + f5 + f6, f7, r8);
            seq_assoc(f1 + f2 + f3 + f4 + f5, f6, r7);
            seq_assoc(f1 + f2 + f3 + f4, f5, r6);
            seq_assoc(f1 + f2 + f3, f4, r5);
            seq_assoc(f1 + f2, f3, r4);
            seq_assoc(f1, f2, r3);
            assert(pl + rest == r1);
            seq_assoc(tg + pn, pl, rest);
            seq_assoc(tg, pn, r1);
            assert(spec_enc_node(k) + rest == tg + r0);
            lemma_rt_u64(tag, r0);
            lemma_rt_u64(pl.len() as u64, r1);
            lemma_rt_pin(input_type, r2);
            lemma_rt_pin(output_type, r3);
            lemma_rt_bool(direct_mode, r4);
            lemma_rt_str(input_min, r5);
            lemma_rt_str(input_max, r6);
            lemma_rt_str(output_min, r7);
            lemma_rt_str(output_max, r8);
            lemma_rt_bool(invert, rest);
        },
        _ => { },
    }
}

/// Round trip of one node-kind record shape.
#[verifier::rlimit(100)]
#[verifier::spinoff_prover]
proof fn lemma_rt_node_serial_device(k: OSRCNodeV, rest: Seq<u8>)
    requires
        node_ok(k),
        k is SerialDevice,
    ensures
        spec_dec_node(spec_enc_node(k) + rest) == Some((k, rest)),
{
    let pl = spec_node_payload(k);
    let tag = node_tag(k);
    assert(pl.len() == ((pl.len() as u64) as nat));
    match k {
        OSRCNodeV::SerialDevice {
            enabled,
            addr,
            timeout,
            descriptor,
            num_read,
            num_write,
            node_name,
        } => {
            let r7 = spec_enc_str(node_name) + rest;
            let r6 = spec_enc_nat(num_write as nat) + r7;
            let r5 = spec_enc_nat(num_read as nat) + r6;
            let r4 = spec_enc_str(descriptor) + r5;
            let r3 = spec_enc_nat(timeout as nat) + r4;
            let r2 = spec_enc_nat(addr as nat) + r3;
            let r1 = spec_enc_bool(enabled) + r2;
            let r0 = spec_enc_nat(pl.len()) + r1;
            assert(spec_enc_node(k) + rest =~= spec_enc_nat(tag as nat) + r0);
            lemma_rt_u64(tag, r0);
            lemma_rt_u64(pl.len() as u64, r1);
            lemma_rt_bool(enabled, r2);
            lemma_rt_u16(addr, r3);
            lemma_rt_u16(timeout, r4);
            lemma_rt_str(descriptor, r5);
            lemma_rt_usize(num_read, r6);
            lemma_rt_usize(num_write, r7);
            lemma_rt_str(node_name, rest);
        },
        _ => { },
    }
}

/// Round trip of one node-kind record shape.
#[verifier::spinoff_prover]
proof fn lemma_rt_node_serial_read(k: OSRCNodeV, rest: Seq<u8>)
    requires
        node_ok(k),
        k is SerialRead,
    ensures
        spec_dec_node(spec_enc_node(k) + rest) == Some((k, rest)),
{
    let pl = spec_node_payload(k);
    let tag = node_tag(k);
    assert(pl.len() == ((pl.len() as u64) as nat));
    match k {
        OSRCNodeV::SerialRead { name, dev, itype } => {
            let r3 = spec_enc_pin(itype) + rest;
            let r2 = spec_enc_reg(dev) + r3;
            let r1 = spec_enc_str(name) + r2;
            let r0 = spec_enc_nat(pl.len()) + r1;
            assert(spec_enc_node(k) + rest =~= spec_enc_nat(tag as nat) + r0);
            lemma_rt_u64(tag, r0);
            lemma_rt_u64(pl.len() as u64, r1);
            lemma_rt_str(name, r2);
            lemma_rt_reg(dev, r3);
            lemma_rt_pin(itype, rest);
        },
        _ => { },
    }
}

/// Round trip of one node-kind record shape.
#[verifier::spinoff_prover]
proof fn lemma_rt_node_serial_write(k: OSRCNodeV, rest: Seq<u8>)
    requires
        node_ok(k),
        k is SerialWrite,
    ensures
        spec_dec_node(spec_enc_node(k) + rest) == Some((k, rest)),
{
    let pl = spec_node_payload(k);
    let tag = node_tag(k);
    assert(pl.len() == ((pl.len() as u64) as nat));
    match k {
        OSRCNodeV::SerialWrite { name, dev, itype } => {
            let r3 = spec_enc_pin(itype) + rest;
            let r2 = spec_enc_reg(dev) + r3;
            let r1 = spec_enc_str(name) + r2;
            let r0 = spec_enc_nat(pl.len()) + r1;
            assert(spec_enc_node(k) + rest =~= spec_enc_nat(tag as nat) + r0);
            lemma_rt_u64(tag, r0);
            lemma_rt_u64(pl.len() as u64, r1);
            lemma_rt_str(name, r2);
            lemma_rt_reg(dev, r3);
            lemma_rt_pin(itype, rest);
        },
        _ => { },
    }
}

/// Round trip of one node-kind record shape.
#[verifier::spinoff_prover]
proof fn lemma_rt_node_global_variable_input(k: OSRCNodeV, rest: Seq<u8>)
    requires
        node_ok(k),
        k is GlobalVariableInput,
    ensures
        spec_dec_node(spec_enc_node(k) + rest) == Some((k, rest)),
{
    let pl = spec_node_payload(k);
    let tag = node_tag(k);
    assert(pl.len() == ((pl.len() as u64) as nat));
    match k {
        OSRCNodeV::GlobalVariableInput { name } => {
            let r1 = spec_enc_str(name) + rest;
            let r0 = spec_enc_nat(pl.len()) + r1;
            assert(spec_enc_node(k) + rest =~= spec_enc_nat(tag as nat) + r0);
            lemma_rt_u64(tag, r0);
            lemma_rt_u64(pl.len() as u64, r1);
            lemma_rt_str(name, rest);
        },
        _ => { },
    }
}

/// Round trip of one node-kind record shape.
#[verifier::spinoff_prover]
proof fn lemma_rt_node_global_variable_output(k: OSRCNodeV, rest: Seq<u8>)
    requires
        node_ok(k),
        k is GlobalVariableOutput,
    ensures
        spec_dec_node(spec_enc_node(k) + rest) == Some((k, rest)),
{
    let pl = spec_node_payload(k);
    let tag = node_tag(k);
    assert(pl.len() == ((pl.len() as u64) as nat));
    match k {
        OSRCNodeV::GlobalVariableOutput { name } => {
            let r1 = spec_enc_str(name) + rest;
            let r0 = spec_enc_nat(pl.len()) + r1;
            assert(spec_enc_node(k) + rest =~= spec_enc_nat(tag as nat) + r0);
            lemma_rt_u64(tag, r0);
            lemma_rt_u64(pl.len() as u64, r1);
            lemma_rt_str(name, rest);
        },
        _ => { },
    }
}

/// Round trip of one node-kind record shape.
#[verifier::spinoff_prover]
proof fn lemma_rt_node_invalid(k: OSRCNodeV, rest: Seq<u8>)
    requires
        node_ok(k),
        k is Invalid,
    ensures
        spec_dec_node(spec_enc_node(k) + rest) == Some((k, rest)),
{
    let pl = spec_node_payload(k);
    let tag = node_tag(k);
    assert(pl.len() == ((pl.len() as u64) as nat));
    match k {
        OSRCNodeV::Invalid => {
            let r0 = spec_enc_nat(0) + rest;
            assert(spec_enc_node(k) + rest =~= spec_enc_nat(tag as nat) + r0);
            lemma_rt_u64(tag, r0);
            lemma_rt_u64(0, rest);
        },
        _ => { },
    }
}

/// Round trip of the node-kind record.
pub proof fn lemma_rt_node(k: OSRCNodeV, rest: Seq<u8>)
    requires
        node_ok(k),
    ensures
        spec_dec_node(spec_enc_node(k) + rest) == Some((k, rest)),
{
    match k {
        OSRCNodeV::Constant { itype, value, node_name } => lemma_rt_node_constant(k, rest),
        OSRCNodeV::ApiInput { min, max, default, timeout, itype, node_name } => lemma_rt_node_api_input(k, rest),
        OSRCNodeV::ApiOutput { itype, node_name } => lemma_rt_node_api_output(k, rest),
        OSRCNodeV::PIController { p, i, i_limit, output_min, output_max, node_name } => lemma_rt_node_p_i_controller(k, rest),
        OSRCNodeV::VelEstimator { alpha } => lemma_rt_node_vel_estimator(k, rest),
        OSRCNodeV::LogicGate { gtype } => lemma_rt_node_logic_gate(k, rest),
        OSRCNodeV::Comparator { itype, comparison } => lemma_rt_node_comparator(k, rest),
        OSRCNodeV::MathOperation { itype, operator } => lemma_rt_node_math_operation(k, rest),
        OSRCNodeV::Multiplexer { itype, input_bits } => lemma_rt_node_multiplexer(k, rest),
        OSRCNodeV::BitwiseSplit { num_bits } => lemma_rt_node_bitwise_split(k, rest),
        OSRCNodeV::BitwiseJoin { num_bits } => lemma_rt_node_bitwise_join(k, rest),
        OSRCNodeV::EdgeDelay { cycles, rising_edge, falling_edge } => lemma_rt_node_edge_delay(k, rest),
        OSRCNodeV::CycleDelay { cycles, itype } => lemma_rt_node_cycle_delay(k, rest),
        OSRCNodeV::Converter {
            input_type,
            output_type,
            direct_mode,
            input_min,
            input_max,
            output_min,
            output_max,
            invert,
        } => lemma_rt_node_converter(k, rest),
        OSRCNodeV::SerialDevice {
            enabled,
            addr,
            timeout,
            descriptor,
            num_read,
            num_write,
            node_name,
        } => lemma_rt_node_serial_device(k, rest),
        OSRCNodeV::SerialRead { name, dev, itype } => lemma_rt_node_serial_read(k, rest),
        OSRCNodeV::SerialWrite { name, dev, itype } => lemma_rt_node_serial_write(k, rest),
        OSRCNodeV::GlobalVariableInput { name } => lemma_rt_node_global_variable_input(k, rest),
        OSRCNodeV::GlobalVariableOutput { name } => lemma_rt_node_global_variable_output(k, rest),
        OSRCNodeV::Invalid => lemma_rt_node_invalid(k, rest),
    }
}

/// A connection as four pin-address tokens.
pub open spec fn spec_enc_conn(c: Connection) -> Seq<u8> {
    spec_enc_nat(c.from_node as nat) + spec_enc_nat(c.from_pin as nat) + spec_enc_nat(
        c.to_node as nat,
    ) + spec_enc_nat(c.to_pin as nat)
}

/// Reads a connection.
pub open spec fn spec_dec_conn(s: Seq<u8>) -> Option<(Connection, Seq<u8>)> {
    match spec_dec_u64(s) {
        Some((from_node, r1)) => match spec_dec_usize(r1) {
            Some((from_pin, r2)) => match spec_dec_u64(r2) {
                Some((to_node, r3)) => match spec_dec_usize(r3) {
                    Some((to_pin, r4)) => Some(
                        (Connection { from_node, from_pin, to_node, to_pin }, r4),
                    ),
                    None => None,
                },
                None => None,
            },
            None => None,
        },
        None => None,
    }
}

/// Round trip of a connection.
pub proof fn lemma_rt_conn(c: Connection, rest: Seq<u8>)
    ensures
        spec_dec_conn(spec_enc_conn(c) + rest) == Some((c, rest)),
{
    let r3 = spec_enc_nat(c.to_pin as nat) + rest;
    let r2 = spec_enc_nat(c.to_node as nat) + r3;
    let r1 = spec_enc_nat(c.from_pin as nat) + r2;
    assert(spec_enc_conn(c) + rest =~= spec_enc_nat(c.from_node as nat) + r1);
    lemma_rt_u64(c.from_node, r1);
    lemma_rt_usize(c.from_pin, r2);
    lemma_rt_u64(c.to_node, r3);
    lemma_rt_usize(c.to_pin, rest);
}

/// A node instance: its identity, its position bits, its kind.
pub open spec fn spec_enc_inst(n: NodeInstanceV) -> Seq<u8> {
    spec_enc_nat(n.id as nat) + spec_enc_nat(n.pos_x as nat) + spec_enc_nat(n.pos_y as nat)
        + spec_enc_node(n.kind)
}

/// Reads a node instance.
pub open spec fn spec_dec_inst(s: Seq<u8>) -> Option<(NodeInstanceV, Seq<u8>)> {
    match spec_dec_u64(s) {
        Some((id, r1)) => match spec_dec_u32(r1) {
            Some((pos_x, r2)) => match spec_dec_u32(r2) {
                Some((pos_y, r3)) => match spec_dec_node(r3) {
                    Some((kind, r4)) => Some((NodeInstanceV { id, pos_x, pos_y, kind }, r4)),
                    None => None,
                },
                None => None,
            },
            None => None,
        },
        None => None,
    }
}

/// Round trip of a node instance.
pub proof fn lemma_rt_inst(n: NodeInstanceV, rest: Seq<u8>)
    requires
        node_ok(n.kind),
    ensures
        spec_dec_inst(spec_enc_inst(n) + rest) == Some((n, rest)),
{
    let r3 = spec_enc_node(n.kind) + rest;
    let r2 = spec_enc_nat(n.pos_y as nat) + r3;
    let r1 = spec_enc_nat(n.pos_x as nat) + r2;
    assert(spec_enc_inst(n) + rest =~= spec_enc_nat(n.id as nat) + r1);
    lemma_rt_u64(n.id, r1);
    lemma_rt_u32(n.pos_x, r2);
    lemma_rt_u32(n.pos_y, r3);
    lemma_rt_node(n.kind, rest);
}

/// The node instances of a graph, one after another.
pub open spec fn spec_enc_insts(items: Seq<NodeInstanceV>) -> Seq<u8>
    decreases items.len(),
{
    if items.len() == 0 {
        Seq::empty()
    } else {
        spec_enc_inst(items[0]) + spec_enc_insts(items.drop_first())
    }
}

/// Reads `n` node instances.
pub open spec fn spec_dec_insts(s: Seq<u8>, n: u64) -> Option<(Seq<NodeInstanceV>, Seq<u8>)>
    decreases n,
{
    if n == 0 {
        Some((Seq::empty(), s))
    } else {
        match spec_dec_inst(s) {
            Some((x, r)) => match spec_dec_insts(r, (n - 1) as u64) {
                Some((xs, r2)) => Some((seq![x] + xs, r2)),
                None => None,
            },
            None => None,
        }
    }
}

/// Round trip of a run of node instances.
pub proof fn lemma_rt_insts(items: Seq<NodeInstanceV>, rest: Seq<u8>)
    requires
        items.len() <= u64::MAX,
        forall|i: int| 0 <= i < items.len() ==> node_ok((#[trigger] items[i]).kind),
    ensures
        spec_dec_insts(spec_enc_insts(items) + rest, items.len() as u64) == Some((items, rest)),
    decreases items.len(),
{
    if items.len() == 0 {
        assert(spec_enc_insts(items) + rest =~= rest);
        assert(items =~= Seq::<NodeInstanceV>::empty());
    } else {
        let df = items.drop_first();
        assert(spec_enc_insts(items) + rest =~= spec_enc_inst(items[0]) + (spec_enc_insts(df)
            + rest));
        lemma_rt_inst(items[0], spec_enc_insts(df) + rest);
        assert(forall|i: int| 0 <= i < df.len() ==> node_ok((#[trigger] df[i]).kind));
        lemma_rt_insts(df, rest);
        assert(seq![items[0]] + df =~= items);
    }
}

/// The connections of a graph, one after another.
pub open spec fn spec_enc_conns(items: Seq<Connection>) -> Seq<u8>
    decreases items.len(),
{
    if items.len() == 0 {
        Seq::empty()
    } else {
        spec_enc_conn(items[0]) + spec_enc_conns(items.drop_first())
    }
}

/// Reads `n` connections.
pub open spec fn spec_dec_conns(s: Seq<u8>, n: u64) -> Option<(Seq<Connection>, Seq<u8>)>
    decreases n,
{
    if n == 0 {
        Some((Seq::empty(), s))
    } else {
        match spec_dec_conn(s) {
            Some((x, r)) => match spec_dec_conns(r, (n - 1) as u64) {
                Some((xs, r2)) => Some((seq![x] + xs, r2)),
                None => None,
            },
            None => None,
        }
    }
}

/// Round trip of a run of connections.
pub proof fn lemma_rt_conns(items: Seq<Connection>, rest: Seq<u8>)
    requires
        items.len() <= u64::MAX,
    ensures
        spec_dec_conns(spec_enc_conns(items) + rest, items.len() as u64) == Some((items, rest)),
    decreases items.len(),
{
    if items.len() == 0 {
        assert(spec_enc_conns(items) + rest =~= rest);
        assert(items =~= Seq::<Connection>::empty());
    } else {
        let df = items.drop_first();
        assert(spec_enc_conns(items) + rest =~= spec_enc_conn(items[0]) + (spec_enc_conns(df)
            + rest));
        lemma_rt_conn(items[0], spec_enc_conns(df) + rest);
        lemma_rt_conns(df, rest);
        assert(seq![items[0]] + df =~= items);
    }
}

/// A graph: the identity cursor, then its nodes and connections as
/// counted runs.
pub open spec fn spec_enc_graph(g: GraphV) -> Seq<u8> {
    spec_enc_nat(g.next_id as nat) + spec_enc_nat(g.nodes.len()) + spec_enc_insts(g.nodes)
        + spec_enc_nat(g.conns.len()) + spec_enc_conns(g.conns)
}

/// A graph's encoding can be read back.
pub open spec fn graph_ok(g: GraphV) -> bool {
    &&& g.nodes.len() <= u64::MAX
    &&& g.conns.len() <= u64::MAX
    &&& forall|i: int| 0 <= i < g.nodes.len() ==> node_ok((#[trigger] g.nodes[i]).kind)
}

/// Reads a graph.
pub open spec fn spec_dec_graph(s: Seq<u8>) -> Option<(GraphV, Seq<u8>)> {
    match spec_dec_u64(s) {
        Some((next_id, r1)) => match spec_dec_u64(r1) {
            Some((ncount, r2)) => match spec_dec_insts(r2, ncount) {
                Some((nodes, r3)) => match spec_dec_u64(r3) {
                    Some((ccount, r4)) => match spec_dec_conns(r4, ccount) {
                        Some((conns, r5)) => Some((GraphV { next_id, nodes, conns }, r5)),
                        None => None,
                    },
                    None => None,
                },
                None => None,
            },
            None => None,
        },
        None => None,
    }
}

/// Round trip of a graph.
pub proof fn lemma_rt_graph(g: GraphV, rest: Seq<u8>)
    requires
        graph_ok(g),
    ensures
        spec_dec_graph(spec_enc_graph(g) + rest) == Some((g, rest)),
{
    let f1 = spec_enc_nat(g.next_id as nat);
    let f2 = spec_enc_nat(g.nodes.len());
    let f3 = spec_enc_insts(g.nodes);
    let f4 = spec_enc_nat(g.conns.len());
    let f5 = spec_enc_conns(g.conns);
    let r4 = f5 + rest;
    let r3 = f4 + r4;
    let r2 = f3 + r3;
    let r1 = f2 + r2;
    seq_assoc(f1 + f2 + f3 + f4, f5, rest);
    seq_assoc(f1 + f2 + f3, f4, r4);
    seq_assoc(f1 + f2, f3, r3);
    seq_assoc(f1, f2, r2);
    assert(spec_enc_graph(g) + rest == f1 + r1);
    assert(g.nodes.len() == ((g.nodes.len() as u64) as nat));
    assert(g.conns.len() == ((g.conns.len() as u64) as nat));
    lemma_rt_u64(g.next_id, r1);
    lemma_rt_u64(g.nodes.len() as u64, r2);
    lemma_rt_insts(g.nodes, r3);
    lemma_rt_u64(g.conns.len() as u64, r4);
    lemma_rt_conns(g.conns, rest);
}

/// A global variable: its name, then its declared type.
pub open spec fn spec_enc_gvar(v: GlobalVariableV) -> Seq<u8> {
    spec_enc_str(v.name) + spec_enc_pin(v.pin_type)
}

/// Reads a global variable.
pub open spec fn spec_dec_gvar(s: Seq<u8>) -> Option<(GlobalVariableV, Seq<u8>)> {
    match spec_dec_str(s) {
        Some((name, r1)) => match spec_dec_pin(r1) {
            Some((pin_type, r2)) => Some((GlobalVariableV { name, pin_type }, r2)),
            None => None,
        },
        None => None,
    }
}

/// Round trip of a global variable.
pub proof fn lemma_rt_gvar(v: GlobalVariableV, rest: Seq<u8>)
    requires
        str_ok(v.name),
    ensures
        spec_dec_gvar(spec_enc_gvar(v) + rest) == Some((v, rest)),
{
    let r1 = spec_enc_pin(v.pin_type) + rest;
    assert(spec_enc_gvar(v) + rest =~= spec_enc_str(v.name) + r1);
    lemma_rt_str(v.name, r1);
    lemma_rt_pin(v.pin_type, rest);
}

/// The global variables, one after another.
pub open spec fn spec_enc_gvars(items: Seq<GlobalVariableV>) -> Seq<u8>
    decreases items.len(),
{
    if items.len() == 0 {
        Seq::empty()
    } else {
        spec_enc_gvar(items[0]) + spec_enc_gvars(items.drop_first())
    }
}

/// Reads `n` global variables.
pub open spec fn spec_dec_gvars(s: Seq<u8>, n: u64) -> Option<(Seq<GlobalVariableV>, Seq<u8>)>
    decreases n,
{
    if n == 0 {
        Some((Seq::empty(), s))
    } else {
        match spec_dec_gvar(s) {
            Some((x, r)) => match spec_dec_gvars(r, (n - 1) as u64) {
                Some((xs, r2)) => Some((seq![x] + xs, r2)),
                None => None,
            },
            None => None,
        }
    }
}

/// Round trip of a run of global variables.
pub proof fn lemma_rt_gvars(items: Seq<GlobalVariableV>, rest: Seq<u8>)
    requires
        items.len() <= u64::MAX,
        forall|i: int| 0 <= i < items.len() ==> str_ok((#[trigger] items[i]).name),
    ensures
        spec_dec_gvars(spec_enc_gvars(items) + rest, items.len() as u64) == Some((items, rest)),
    decreases items.len(),
{
    if items.len() == 0 {
        assert(spec_enc_gvars(items) + rest =~= rest);
        assert(items =~= Seq::<GlobalVariableV>::empty());
    } else {
        let df = items.drop_first();
        assert(spec_enc_gvars(items) + rest =~= spec_enc_gvar(items[0]) + (spec_enc_gvars(df)
            + rest));
        lemma_rt_gvar(items[0], spec_enc_gvars(df) + rest);
        assert(forall|i: int| 0 <= i < df.len() ==> str_ok((#[trigger] df[i]).name));
        lemma_rt_gvars(df, rest);
        assert(seq![items[0]] + df =~= items);
    }
}

/// A network: its name, flags and scheduling metadata, then its
/// graph.
pub open spec fn spec_enc_network(n: NetworkV) -> Seq<u8> {
    spec_enc_str(n.name) + spec_enc_bool(n.enabled) + spec_enc_nettype(n.net_type) + spec_enc_nat(
        n.timeout as nat,
    ) + spec_enc_nat(n.update_cycle_trigger_count as nat) + spec_enc_nat(n.execution_index as nat)
        + spec_enc_graph(n.nodes)
}

/// A network's encoding can be read back.
pub open spec fn network_ok(n: NetworkV) -> bool {
    str_ok(n.name) && graph_ok(n.nodes)
}

/// Reads a network.
pub open spec fn spec_dec_network(s: Seq<u8>) -> Option<(NetworkV, Seq<u8>)> {
    match spec_dec_str(s) {
        Some((name, r1)) => match spec_dec_bool(r1) {
            Some((enabled, r2)) => match spec_dec_nettype(r2) {
                Some((net_type, r3)) => match spec_dec_u32(r3) {
                    Some((timeout, r4)) => match spec_dec_u32(r4) {
                        Some((update_cycle_trigger_count, r5)) => match spec_dec_u32(r5) {
                            Some((execution_index, r6)) => match spec_dec_graph(r6) {
                                Some((nodes, r7)) => Some(
                                    (
                                        NetworkV {
                                            name,
                                            enabled,
                                            net_type,
                                            timeout,
                                            update_cycle_trigger_count,
                                            execution_index,
                                            nodes,
                                        },
                                        r7,
                                    ),
                                ),
                                None => None,
                            },
                            None => None,
                        },
                        None => None,
                    },
                    None => None,
                },
                None => None,
            },
            None => None,
        },
        None => None,
    }
}

/// Round trip of a network.
#[verifier::rlimit(100)]
#[verifier::spinoff_prover]
pub proof fn lemma_rt_network(n: NetworkV, rest: Seq<u8>)
    requires
        network_ok(n),
    ensures
        spec_dec_network(spec_enc_network(n) + rest) == Some((n, rest)),
{
    let f1 = spec_enc_str(n.name);
    let f2 = spec_enc_bool(n.enabled);
    let f3 = spec_enc_nettype(n.net_type);
    let f4 = spec_enc_nat(n.timeout as nat);
    let f5 = spec_enc_nat(n.update_cycle_trigger_count as nat);
    let f6 = spec_enc_nat(n.execution_index as nat);
    let f7 = spec_enc_graph(n.nodes);
    let r6 = f7 + rest;
    let r5 = f6 + r6;
    let r4 = f5 + r5;
    let r3 = f4 + r4;
    let r2 = f3 + r3;
    let r1 = f2 + r2;
    seq_assoc(f1 + f2 + f3 + f4 + f5 + f6, f7, rest);
    seq_assoc(f1 + f2 + f3 + f4 + f5, f6, r6);
    seq_assoc(f1 + f2 + f3 + f4, f5, r5);
    seq_assoc(f1 + f2 + f3, f4, r4);
    seq_assoc(f1 + f2, f3, r3);
    seq_assoc(f1, f2, r2);
    assert(spec_enc_network(n) + rest == f1 + r1);
    lemma_rt_str(n.name, r1);
    lemma_rt_bool(n.enabled, r2);
    lemma_rt_nettype(n.net_type, r3);
    lemma_rt_u32(n.timeout, r4);
    lemma_rt_u32(n.update_cycle_trigger_count, r5);
    lemma_rt_u32(n.execution_index, r6);
    lemma_rt_graph(n.nodes, rest);
}

/// The networks, one after another.
pub open spec fn spec_enc_networks(items: Seq<NetworkV>) -> Seq<u8>
    decreases items.len(),
{
    if items.len() == 0 {
        Seq::empty()
    } else {
        spec_enc_network(items[0]) + spec_enc_networks(items.drop_first())
    }
}

/// Reads `n` networks.
pub open spec fn spec_dec_networks(s: Seq<u8>, n: u64) -> Option<(Seq<NetworkV>, Seq<u8>)>
    decreases n,
{
    if n == 0 {
        Some((Seq::empty(), s))
    } else {
        match spec_dec_network(s) {
            Some((x, r)) => match spec_dec_networks(r, (n - 1) as u64) {
                Some((xs, r2)) => Some((seq![x] + xs, r2)),
                None => None,
            },
            None => None,
        }
    }
}

/// Round trip of a run of networks.
#[verifier::rlimit(100)]
#[verifier::spinoff_prover]
pub proof fn lemma_rt_networks(items: Seq<NetworkV>, rest: Seq<u8>)
    requires
        items.len() <= u64::MAX,
        forall|i: int| 0 <= i < items.len() ==> network_ok(#[trigger] items[i]),
    ensures
        spec_dec_networks(spec_enc_networks(items) + rest, items.len() as u64) == Some(
            (items, rest),
        ),
    decreases items.len(),
{
    if items.len() == 0 {
        assert(spec_enc_networks(items) + rest =~= rest);
        assert(items =~= Seq::<NetworkV>::empty());
    } else {
        let df = items.drop_first();
        assert(spec_enc_networks(items) + rest =~= spec_enc_network(items[0]) + (spec_enc_networks(
            df,
        ) + rest));
        lemma_rt_network(items[0], spec_enc_networks(df) + rest);
        assert(forall|i: int| 0 <= i < df.len() ==> network_ok(#[trigger] df[i]));
        lemma_rt_networks(df, rest);
        assert(seq![items[0]] + df =~= items);
    }
}

/// The file metadata: creation date and time as six tokens, the
/// configuration reference, the write-protect flag.
pub open spec fn spec_enc_info(f: FileInfoV) -> Seq<u8> {
    spec_enc_i32(f.date.year) + spec_enc_nat(f.date.month as nat) + spec_enc_nat(f.date.day as nat)
        + spec_enc_nat(f.time.hour as nat) + spec_enc_nat(f.time.minute as nat) + spec_enc_nat(
        f.time.second as nat,
    ) + spec_enc_str(f.fpga_config) + spec_enc_bool(f.write_protected)
}

/// Reads the file metadata.
pub open spec fn spec_dec_info(s: Seq<u8>) -> Option<(FileInfoV, Seq<u8>)> {
    match spec_dec_i32(s) {
        Some((year, r1)) => match spec_dec_u8(r1) {
            Some((month, r2)) => match spec_dec_u8(r2) {
                Some((day, r3)) => match spec_dec_u8(r3) {
                    Some((hour, r4)) => match spec_dec_u8(r4) {
                        Some((minute, r5)) => match spec_dec_u8(r5) {
                            Some((second, r6)) => match spec_dec_str(r6) {
                                Some((fpga_config, r7)) => match spec_dec_bool(r7) {
                                    Some((write_protected, r8)) => Some(
                                        (
                                            FileInfoV {
                                                date: Date { year, month, day },
                                                time: Time { hour, minute, second },
                                                fpga_config,
                                                write_protected,
                                            },
                                            r8,
                                        ),
                                    ),
                                    None => None,
                                },
                                None => None,
                            },
                            None => None,
                        },
                        None => None,
                    },
                    None => None,
                },
                None => None,
            },
            None => None,
        },
        None => None,
    }
}

/// Round trip of the file metadata.
#[verifier::rlimit(100)]
#[verifier::spinoff_prover]
pub proof fn lemma_rt_info(f: FileInfoV, rest: Seq<u8>)
    requires
        str_ok(f.fpga_config),
    ensures
        spec_dec_info(spec_enc_info(f) + rest) == Some((f, rest)),
{
    let f1 = spec_enc_i32(f.date.year);
    let f2 = spec_enc_nat(f.date.month as nat);
    let f3 = spec_enc_nat(f.date.day as nat);
    let f4 = spec_enc_nat(f.time.hour as nat);
    let f5 = spec_enc_nat(f.time.minute as nat);
    let f6 = spec_enc_nat(f.time.second as nat);
    let f7 = spec_enc_str(f.fpga_config);
    let f8 = spec_enc_bool(f.write_protected);
    let r7 = f8 + rest;
    let r6 = f7 + r7;
    let r5 = f6 + r6;
    let r4 = f5 + r5;
    let r3 = f4 + r4;
    let r2 = f3 + r3;
    let r1 = f2 + r2;
    seq_assoc(f1 + f2 + f3 + f4 + f5 + f6 + f7, f8, rest);
    seq_assoc(f1 + f2 + f3 + f4 + f5 + f6, f7, r7);
    seq_assoc(f1 + f2 + f3 + f4 + f5, f6, r6);
    seq_assoc(f1 + f2 + f3 + f4, f5, r5);
    seq_assoc(f1 + f2 + f3, f4, r4);
    seq_assoc(f1 + f2, f3, r3);
    seq_assoc(f1, f2, r2);
    assert(spec_enc_info(f) + rest == f1 + r1);
    lemma_rt_i32(f.date.year, r1);
    lemma_rt_u8(f.date.month, r2);
    lemma_rt_u8(f.date.day, r3);
    lemma_rt_u8(f.time.hour, r4);
    lemma_rt_u8(f.time.minute, r5);
    lemma_rt_u8(f.time.second, r6);
    lemma_rt_str(f.fpga_config, r7);
    lemma_rt_bool(f.write_protected, rest);
    assert(Date { year: f.date.year, month: f.date.month, day: f.date.day } == f.date);
    assert(Time { hour: f.time.hour, minute: f.time.minute, second: f.time.second } == f.time);
}

/// The format version this codec writes.
pub open spec fn format_version() -> u64 {
    1
}

/// A whole program: the format version, the file metadata, then the
/// global variables and the networks as counted runs.
pub open spec fn spec_enc_program(p: FPGAProgramV) -> Seq<u8> {
    spec_enc_nat(format_version() as nat) + spec_enc_info(p.info) + spec_enc_nat(
        p.set_node_vars.len(),
    ) + spec_enc_gvars(p.set_node_vars) + spec_enc_nat(p.networks.len()) + spec_enc_networks(
        p.networks,
    )
}

/// A program's encoding can be read back: every string and every
/// collection fits the largest length token. Any program a machine
/// can hold satisfies this.
pub open spec fn program_ok(p: FPGAProgramV) -> bool {
    &&& str_ok(p.info.fpga_config)
    &&& p.set_node_vars.len() <= u64::MAX
    &&& forall|i: int| 0 <= i < p.set_node_vars.len() ==> str_ok((#[trigger] p.set_node_vars[i]).name)
    &&& p.networks.len() <= u64::MAX
    &&& forall|i: int| 0 <= i < p.networks.len() ==> network_ok(#[trigger] p.networks[i])
}

/// Reads a whole program; a version this codec does not know is
/// malformed.
pub open spec fn spec_dec_program(s: Seq<u8>) -> Option<(FPGAProgramV, Seq<u8>)> {
    match spec_dec_u64(s) {
        Some((version, r0)) => if version != format_version() {
            None
        } else {
            match spec_dec_info(r0) {
                Some((info, r1)) => match spec_dec_u64(r1) {
                    Some((gcount, r2)) => match spec_dec_gvars(r2, gcount) {
                        Some((set_node_vars, r3)) => match spec_dec_u64(r3) {
                            Some((ncount, r4)) => match spec_dec_networks(r4, ncount) {
                                Some((networks, r5)) => Some(
                                    (FPGAProgramV { info, set_node_vars, networks }, r5),
                                ),
                                None => None,
                            },
                            None => None,
                        },
                        None => None,
                    },
                    None => None,
                },
                None => None,
            }
        },
        None => None,
    }
}

/// Round trip of a whole program: decoding an encoded program gives
/// the program back, field for field, and leaves what follows
/// untouched.
#[verifier::rlimit(100)]
#[verifier::spinoff_prover]
pub proof fn lemma_rt_program(p: FPGAProgramV, rest: Seq<u8>)
    requires
        program_ok(p),
    ensures
        spec_dec_program(spec_enc_program(p) + rest) == Some((p, rest)),
{
    let f1 = spec_enc_nat(format_version() as nat);
    let f2 = spec_enc_info(p.info);
    let f3 = spec_enc_nat(p.set_node_vars.len());
    let f4 = spec_enc_gvars(p.set_node_vars);
    let f5 = spec_enc_nat(p.networks.len());
    let f6 = spec_enc_networks(p.networks);
    let r5 = f6 + rest;
    let r4 = f5 + r5;
    let r3 = f4 + r4;
    let r2 = f3 + r3;
    let r1 = f2 + r2;
    seq_assoc(f1 + f2 + f3 + f4 + f5, f6, rest);
    seq_assoc(f1 + f2 + f3 + f4, f5, r5);
    seq_assoc(f1 + f2 + f3, f4, r4);
    seq_assoc(f1 + f2, f3, r3);
    seq_assoc(f1, f2, r2);
    assert(spec_enc_program(p) + rest == f1 + r1);
    assert(p.set_node_vars.len() == ((p.set_node_vars.len() as u64) as nat));
    assert(p.networks.len() == ((p.networks.len() as u64) as nat));
    lemma_rt_u64(format_version(), r1);
    lemma_rt_info(p.info, r2);
    lemma_rt_u64(p.set_node_vars.len() as u64, r3);
    lemma_rt_gvars(p.set_node_vars, r4);
    lemma_rt_u64(p.networks.len() as u64, r5);
    lemma_rt_networks(p.networks, rest);
    assert(FPGAProgramV { info: p.info, set_node_vars: p.set_node_vars, networks: p.networks }
        == p);
}

/// Decoding an encoded program, exactly, with nothing after it.
pub proof fn lemma_round_trip(p: FPGAProgramV)
    requires
        program_ok(p),
    ensures
        spec_dec_program(spec_enc_program(p)) == Some((p, Seq::<u8>::empty())),
{
    lemma_rt_program(p, Seq::empty());
    assert(spec_enc_program(p) + Seq::<u8>::empty() =~= spec_enc_program(p));
}

/// Writes the decimal digits of `n`, most significant first.
fn enc_u64_digits(out: &mut Vec<u8>, n: u64)
    ensures
        final(out)@ == old(out)@ + spec_digits(n as nat),
    decreases n,
{
    if n >= 10 {
        enc_u64_digits(out, n / 10);
    }
    out.push(48 + ((n % 10) as u8));
    proof {
        if n < 10 {
            assert(final(out)@ =~= old(out)@ + spec_digits(n as nat));
        } else {
            assert(final(out)@ =~= old(out)@ + spec_digits(n as nat));
        }
    }
}

/// Writes one number token.
fn enc_u64(out: &mut Vec<u8>, n: u64)
    ensures
        final(out)@ == old(out)@ + spec_enc_nat(n as nat),
{
    enc_u64_digits(out, n);
    out.push(10);
    proof {
        assert(final(out)@ =~= old(out)@ + spec_enc_nat(n as nat));
    }
}

/// Writes a boolean token.
fn enc_bool(out: &mut Vec<u8>, b: bool)
    ensures
        final(out)@ == old(out)@ + spec_enc_bool(b),
{
    if b {
        enc_u64(out, 1);
    } else {
        enc_u64(out, 0);
    }
}

/// Writes a signed token.
fn enc_i32(out: &mut Vec<u8>, x: i32)
    ensures
        final(out)@ == old(out)@ + spec_enc_i32(x),
{
    if x >= 0 {
        enc_u64(out, x as u64);
    } else {
        out.push(45);
        let m: u64 = (-(x as i64)) as u64;
        enc_u64(out, m);
        proof {
            assert(final(out)@ =~= old(out)@ + spec_enc_i32(x));
        }
    }
}

/// Writes a string: its UTF-8 byte length, then the raw bytes.
fn enc_str(out: &mut Vec<u8>, s: &str)
    ensures
        final(out)@ == old(out)@ + spec_enc_str(s@),
        str_ok(s@),
{
    let bytes: &[u8] = s.as_bytes();
    let len: usize = bytes.len();
    enc_u64(out, len as u64);
    out.extend_from_slice(bytes);
    proof {
        assert(final(out)@ =~= old(out)@ + spec_enc_str(s@));
    }
}

/// Writes an optional 64-bit value.
fn enc_opt_u64(out: &mut Vec<u8>, v: &Option<u64>)
    ensures
        final(out)@ == old(out)@ + spec_enc_opt_u64(*v),
{
    match v {
        Some(n) => {
            enc_bool(out, true);
            enc_u64(out, *n);
            proof {
                assert(final(out)@ =~= old(out)@ + spec_enc_opt_u64(*v));
            }
        },
        None => {
            enc_bool(out, false);
        },
    }
}

/// Writes a pin-type tag.
fn enc_pin(out: &mut Vec<u8>, t: &PinType)
    ensures
        final(out)@ == old(out)@ + spec_enc_pin(*t),
{
    let tag: u64 = match t {
        PinType::Bool => 0,
        PinType::U8 => 1,
        PinType::U16 => 2,
        PinType::U32 => 3,
        PinType::I8 => 4,
        PinType::I16 => 5,
        PinType::I32 => 6,
        PinType::F32 => 7,
        PinType::F64 => 8,
        PinType::STRING => 9,
        PinType::UNDEFINED => 10,
        PinType::SERIAL => 11,
        PinType::NONE => 12,
    };
    enc_u64(out, tag);
}

/// Writes a comparison tag.
fn enc_cmp(out: &mut Vec<u8>, c: &ValueCompare)
    ensures
        final(out)@ == old(out)@ + spec_enc_cmp(*c),
{
    let tag: u64 = match c {
        ValueCompare::GreaterThan => 0,
        ValueCompare::GreaterThanOrEqual => 1,
        ValueCompare::LessThan => 2,
        ValueCompare::LessThanOrEqual => 3,
        ValueCompare::Equal => 4,
        ValueCompare::NotEqual => 5,
    };
    enc_u64(out, tag);
}

/// Writes a gate kind.
fn enc_gate(out: &mut Vec<u8>, g: &GateType)
    ensures
        final(out)@ == old(out)@ + spec_enc_gate(*g),
{
    match g {
        GateType::AND(n) => {
            enc_u64(out, 0);
            enc_u64(out, *n as u64);
        },
        GateType::OR(n) => {
            enc_u64(out, 1);
            enc_u64(out, *n as u64);
        },
        GateType::NAND(n) => {
            enc_u64(out, 2);
            enc_u64(out, *n as u64);
        },
        GateType::NOR(n) => {
            enc_u64(out, 3);
            enc_u64(out, *n as u64);
        },
        GateType::XOR(n) => {
            enc_u64(out, 4);
            enc_u64(out, *n as u64);
        },
        GateType::NOT => {
            enc_u64(out, 5);
        },
    }
    proof {
        assert(final(out)@ =~= old(out)@ + spec_enc_gate(*g));
    }
}

/// Writes a math operator.
fn enc_math(out: &mut Vec<u8>, m: &MathOperation)
    ensures
        final(out)@ == old(out)@ + spec_enc_math(*m),
{
    match m {
        MathOperation::Nary(o, n) => {
            enc_u64(out, 0);
            let t: u64 = match o {
                NaryOperation::ADD => 0,
                NaryOperation::MUL => 1,
                NaryOperation::MIN => 2,
                NaryOperation::MAX => 3,
                NaryOperation::AVG => 4,
            };
            enc_u64(out, t);
            enc_u64(out, *n as u64);
        },
        MathOperation::BinaryOperation(o) => {
            enc_u64(out, 1);
            let t: u64 = match o {
                BinaryOperation::ROOT => 0,
                BinaryOperation::POW => 1,
                BinaryOperation::LOG => 2,
            };
            enc_u64(out, t);
        },
        MathOperation::UnaryOperation(o) => {
            enc_u64(out, 2);
            let t: u64 = match o {
                UnaryOperation::LN => 0,
                UnaryOperation::LOG10 => 1,
                UnaryOperation::SINE => 2,
                UnaryOperation::COS => 3,
                UnaryOperation::TAN => 4,
                UnaryOperation::ASIN => 5,
                UnaryOperation::ACOS => 6,
                UnaryOperation::ATAN => 7,
                UnaryOperation::NEGATE => 8,
                UnaryOperation::ABS => 9,
            };
            enc_u64(out, t);
        },
        MathOperation::Invalid => {
            enc_u64(out, 3);
        },
    }
    proof {
        assert(final(out)@ =~= old(out)@ + spec_enc_math(*m));
    }
}

/// Writes a register addressing mode.
fn enc_reg(out: &mut Vec<u8>, d: &SerialDeviceReg)
    ensures
        final(out)@ == old(out)@ + spec_enc_reg(*d),
{
    match d {
        SerialDeviceReg::AsyncReg { update_cycles } => {
            enc_u64(out, 0);
            enc_u64(out, *update_cycles as u64);
        },
        SerialDeviceReg::CyclicReg { sync_node, cyclic_index } => {
            enc_u64(out, 1);
            enc_bool(out, *sync_node);
            enc_u64(out, *cyclic_index as u64);
        },
        SerialDeviceReg::Unset => {
            enc_u64(out, 2);
        },
    }
    proof {
        assert(final(out)@ =~= old(out)@ + spec_enc_reg(*d));
    }
}

/// Writes a scheduling-mode tag.
fn enc_nettype(out: &mut Vec<u8>, t: &NetworkType)
    ensures
        final(out)@ == old(out)@ + spec_enc_nettype(*t),
{
    match t {
        NetworkType::Sync => enc_u64(out, 0),
        NetworkType::Async => enc_u64(out, 1),
    }
}

/// Writes the named fields of one node-kind record shape.
#[verifier::spinoff_prover]
fn enc_payload_constant(out: &mut Vec<u8>, k: &OSRCNode)
    requires
        k@ is Constant,
    ensures
        final(out)@ == old(out)@ + spec_node_payload(k@),
        node_strs_ok(k@),
{
    match k {
        OSRCNode::Constant { itype, value, node_name } => {
            enc_pin(out, itype);
            enc_str(out, value.as_str());
            enc_str(out, node_name.as_str());
            proof {
                assert(out@ =~= old(out)@ + spec_node_payload(k@));
            }
        },
        _ => {
            proof {
                assert(false);
            }
        },
    }
}

/// Writes the named fields of one node-kind record shape.
#[verifier::spinoff_prover]
fn enc_payload_api_input(out: &mut Vec<u8>, k: &OSRCNode)
    requires
        k@ is ApiInput,
    ensures
        final(out)@ == old(out)@ + spec_node_payload(k@),
        node_strs_ok(k@),
{
    match k {
        OSRCNode::ApiInput { min, max, default, timeout, itype, node_name } => {
            enc_opt_u64(out, min);
            enc_opt_u64(out, max);
            enc_opt_u64(out, default);
            enc_opt_u64(out, timeout);
            enc_pin(out, itype);
            enc_str(out, node_name.as_str());
            proof {
                assert(out@ =~= old(out)@ + spec_node_payload(k@));
            }
        },
        _ => {
            proof {
                assert(false);
            }
        },
    }
}

/// Writes the named fields of one node-kind record shape.
#[verifier::spinoff_prover]
fn enc_payload_api_output(out: &mut Vec<u8>, k: &OSRCNode)
    requires
        k@ is ApiOutput,
    ensures
        final(out)@ == old(out)@ + spec_node_payload(k@),
        node_strs_ok(k@),
{
    match k {
        OSRCNode::ApiOutput { itype, node_name } => {
            enc_pin(out, itype);
            enc_str(out, node_name.as_str());
            proof {
                assert(out@ =~= old(out)@ + spec_node_payload(k@));
            }
        },
        _ => {
            proof {
                assert(false);
            }
        },
    }
}

/// Writes the named fields of one node-kind record shape.
#[verifier::spinoff_prover]
fn enc_payload_p_i_controller(out: &mut Vec<u8>, k: &OSRCNode)
    requires
        k@ is PIController,
    ensures
        final(out)@ == old(out)@ + spec_node_payload(k@),
        node_strs_ok(k@),
{
    match k {
        OSRCNode::PIController { p, i, i_limit, output_min, output_max, node_name } => {
            enc_u64(out, *p as u64);
            enc_u64(out, *i as u64);
            enc_u64(out, *i_limit as u64);
            enc_u64(out, *output_min as u64);
            enc_u64(out, *output_max as u64);
            enc_str(out, node_name.as_str());
            proof {
                assert(out@ =~= old(out)@ + spec_node_payload(k@));
            }
        },
        _ => {
            proof {
                assert(false);
            }
        },
    }
}

/// Writes the named fields of one node-kind record shape.
#[verifier::spinoff_prover]
fn enc_payload_vel_estimator(out: &mut Vec<u8>, k: &OSRCNode)
    requires
        k@ is VelEstimator,
    ensures
        final(out)@ == old(out)@ + spec_node_payload(k@),
        node_strs_ok(k@),
{
    match k {
        OSRCNode::VelEstimator { alpha } => {
            enc_u64(out, *alpha as u64);
            proof {
                assert(out@ =~= old(out)@ + spec_node_payload(k@));
            }
        },
        _ => {
            proof {
                assert(false);
            }
        },
    }
}

/// Writes the named fields of one node-kind record shape.
#[verifier::spinoff_prover]
fn enc_payload_logic_gate(out: &mut Vec<u8>, k: &OSRCNode)
    requires
        k@ is LogicGate,
    ensures
        final(out)@ == old(out)@ + spec_node_payload(k@),
        node_strs_ok(k@),
{
    match k {
        OSRCNode::LogicGate { gtype } => {
            enc_gate(out, gtype);
            proof {
                assert(out@ =~= old(out)@ + spec_node_payload(k@));
            }
        },
        _ => {
            proof {
                assert(false);
            }
        },
    }
}

/// Writes the named fields of one node-kind record shape.
#[verifier::spinoff_prover]
fn enc_payload_comparator(out: &mut Vec<u8>, k: &OSRCNode)
    requires
        k@ is Comparator,
    ensures
        final(out)@ == old(out)@ + spec_node_payload(k@),
        node_strs_ok(k@),
{
    match k {
        OSRCNode::Comparator { itype, comparison } => {
            enc_pin(out, itype);
            enc_cmp(out, comparison);
            proof {
                assert(out@ =~= old(out)@ + spec_node_payload(k@));
            }
        },
        _ => {
            proof {
                assert(false);
            }
        },
    }
}

/// Writes the named fields of one node-kind record shape.
#[verifier::spinoff_prover]
fn enc_payload_math_operation(out: &mut Vec<u8>, k: &OSRCNode)
    requires
        k@ is MathOperation,
    ensures
        final(out)@ == old(out)@ + spec_node_payload(k@),
        node_strs_ok(k@),
{
    match k {
        OSRCNode::MathOperation { itype, operator } => {
            enc_pin(out, itype);
            enc_math(out, operator);
            proof {
                assert(out@ =~= old(out)@ + spec_node_payload(k@));
            }
        },
        _ => {
            proof {
                assert(false);
            }
        },
    }
}

/// Writes the named fields of one node-kind record shape.
#[verifier::spinoff_prover]
fn enc_payload_multiplexer(out: &mut Vec<u8>, k: &OSRCNode)
    requires
        k@ is Multiplexer,
    ensures
        final(out)@ == old(out)@ + spec_node_payload(k@),
        node_strs_ok(k@),
{
    match k {
        OSRCNode::Multiplexer { itype, input_bits } => {
            enc_pin(out, itype);
            enc_u64(out, *input_bits as u64);
            proof {
                assert(out@ =~= old(out)@ + spec_node_payload(k@));
            }
        },
        _ => {
            proof {
                assert(false);
            }
        },
    }
}

/// Writes the named fields of one node-kind record shape.
#[verifier::spinoff_prover]
fn enc_payload_bitwise_split(out: &mut Vec<u8>, k: &OSRCNode)
    requires
        k@ is BitwiseSplit,
    ensures
        final(out)@ == old(out)@ + spec_node_payload(k@),
        node_strs_ok(k@),
{
    match k {
        OSRCNode::BitwiseSplit { num_bits } => {
            enc_u64(out, *num_bits as u64);
            proof {
                assert(out@ =~= old(out)@ + spec_node_payload(k@));
            }
        },
        _ => {
            proof {
                assert(false);
            }
        },
    }
}

/// Writes the named fields of one node-kind record shape.
#[verifier::spinoff_prover]
fn enc_payload_bitwise_join(out: &mut Vec<u8>, k: &OSRCNode)
    requires
        k@ is BitwiseJoin,
    ensures
        final(out)@ == old(out)@ + spec_node_payload(k@),
        node_strs_ok(k@),
{
    match k {
        OSRCNode::BitwiseJoin { num_bits } => {
            enc_u64(out, *num_bits as u64);
            proof {
                assert(out@ =~= old(out)@ + spec_node_payload(k@));
            }
        },
        _ => {
            proof {
                assert(false);
            }
        },
    }
}

/// Writes the named fields of one node-kind record shape.
#[verifier::spinoff_prover]
fn enc_payload_edge_delay(out: &mut Vec<u8>, k: &OSRCNode)
    requires
        k@ is EdgeDelay,
    ensures
        final(out)@ == old(out)@ + spec_node_payload(k@),
        node_strs_ok(k@),
{
    match k {
        OSRCNode::EdgeDelay { cycles, rising_edge, falling_edge } => {
            enc_u64(out, *cycles as u64);
            enc_bool(out, *rising_edge);
            enc_bool(out, *falling_edge);
            proof {
                assert(out@ =~= old(out)@ + spec_node_payload(k@));
            }
        },
        _ => {
            proof {
                assert(false);
            }
        },
    }
}

/// Writes the named fields of one node-kind record shape.
#[verifier::spinoff_prover]
fn enc_payload_cycle_delay(out: &mut Vec<u8>, k: &OSRCNode)
    requires
        k@ is CycleDelay,
    ensures
        final(out)@ == old(out)@ + spec_node_payload(k@),
        node_strs_ok(k@),
{
    match k {
        OSRCNode::CycleDelay { cycles, itype } => {
            enc_u64(out, *cycles as u64);
            enc_pin(out, itype);
            proof {
                assert(out@ =~= old(out)@ + spec_node_payload(k@));
            }
        },
        _ => {
            proof {
                assert(false);
            }
        },
    }
}

/// Writes the named fields of one node-kind record shape.
#[verifier::spinoff_prover]
fn enc_payload_converter(out: &mut Vec<u8>, k: &OSRCNode)
    requires
        k@ is Converter,
    ensures
        final(out)@ == old(out)@ + spec_node_payload(k@),
        node_strs_ok(k@),
{
    match k {
        OSRCNode::Converter {
            input_type,
            output_type,
            direct_mode,
            input_min,
            input_max,
            output_min,
            output_max,
            invert,
        } => {
            enc_pin(out, input_type);
            enc_pin(out, output_type);
            enc_bool(out, *direct_mode);
            enc_str(out, input_min.as_str());
            enc_str(out, input_max.as_str());
            enc_str(out, output_min.as_str());
            enc_str(out, output_max.as_str());
            enc_bool(out, *invert);
            proof {
                assert(out@ =~= old(out)@ + spec_node_payload(k@));
            }
        },
        _ => {
            proof {
                assert(false);
            }
        },
    }
}

/// Writes the named fields of one node-kind record shape.
#[verifier::spinoff_prover]
fn enc_payload_serial_device(out: &mut Vec<u8>, k: &OSRCNode)
    requires
        k@ is SerialDevice,
    ensures
        final(out)@ == old(out)@ + spec_node_payload(k@),
        node_strs_ok(k@),
{
    match k {
        OSRCNode::SerialDevice {
            enabled,
            addr,
            timeout,
            descriptor,
            num_read,
            num_write,
            node_name,
        } => {
            enc_bool(out, *enabled);
            enc_u64(out, *addr as u64);
            enc_u64(out, *timeout as u64);
            enc_str(out, descriptor.as_str());
            enc_u64(out, *num_read as u64);
            enc_u64(out, *num_write as u64);
            enc_str(out, node_name.as_str());
            proof {
                assert(out@ =~= old(out)@ + spec_node_payload(k@));
            }
        },
        _ => {
            proof {
                assert(false);
            }
        },
    }
}

/// Writes the named fields of one node-kind record shape.
#[verifier::spinoff_prover]
fn enc_payload_serial_read(out: &mut Vec<u8>, k: &OSRCNode)
    requires
        k@ is SerialRead,
    ensures
        final(out)@ == old(out)@ + spec_node_payload(k@),
        node_strs_ok(k@),
{
    match k {
        OSRCNode::SerialRead { name, dev, itype } => {
            enc_str(out, name.as_str());
            enc_reg(out, dev);
            enc_pin(out, itype);
            proof {
                assert(out@ =~= old(out)@ + spec_node_payload(k@));
            }
        },
        _ => {
            proof {
                assert(false);
            }
        },
    }
}

/// Writes the named fields of one node-kind record shape.
#[verifier::spinoff_prover]
fn enc_payload_serial_write(out: &mut Vec<u8>, k: &OSRCNode)
    requires
        k@ is SerialWrite,
    ensures
        final(out)@ == old(out)@ + spec_node_payload(k@),
        node_strs_ok(k@),
{
    match k {
        OSRCNode::SerialWrite { name, dev, itype } => {
            enc_str(out, name.as_str());
            enc_reg(out, dev);
            enc_pin(out, itype);
            proof {
                assert(out@ =~= old(out)@ + spec_node_payload(k@));
            }
        },
        _ => {
            proof {
                assert(false);
            }
        },
    }
}

/// Writes the named fields of one node-kind record shape.
#[verifier::spinoff_prover]
fn enc_payload_global_variable_input(out: &mut Vec<u8>, k: &OSRCNode)
    requires
        k@ is GlobalVariableInput,
    ensures
        final(out)@ == old(out)@ + spec_node_payload(k@),
        node_strs_ok(k@),
{
    match k {
        OSRCNode::GlobalVariableInput { name } => {
            enc_str(out, name.as_str());
            proof {
                assert(out@ =~= old(out)@ + spec_node_payload(k@));
            }
        },
        _ => {
            proof {
                assert(false);
            }
        },
    }
}

/// Writes the named fields of one node-kind record shape.
#[verifier::spinoff_prover]
fn enc_payload_global_variable_output(out: &mut Vec<u8>, k: &OSRCNode)
    requires
        k@ is GlobalVariableOutput,
    ensures
        final(out)@ == old(out)@ + spec_node_payload(k@),
        node_strs_ok(k@),
{
    match k {
        OSRCNode::GlobalVariableOutput { name } => {
            enc_str(out, name.as_str());
            proof {
                assert(out@ =~= old(out)@ + spec_node_payload(k@));
            }
        },
        _ => {
            proof {
                assert(false);
            }
        },
    }
}

/// Writes the named fields of one node-kind record shape.
#[verifier::spinoff_prover]
fn enc_payload_invalid(out: &mut Vec<u8>, k: &OSRCNode)
    requires
        k@ is Invalid,
    ensures
        final(out)@ == old(out)@ + spec_node_payload(k@),
        node_strs_ok(k@),
{
    match k {
        OSRCNode::Invalid => {
            proof {
                assert(out@ =~= old(out)@ + spec_node_payload(k@));
            }
        },
        _ => {
            proof {
                assert(false);
            }
        },
    }
}

/// Writes the named fields of a node-kind record.
fn enc_node_payload(out: &mut Vec<u8>, k: &OSRCNode)
    ensures
        final(out)@ == old(out)@ + spec_node_payload(k@),
        node_strs_ok(k@),
{
    match k {
        OSRCNode::Constant { .. } => enc_payload_constant(out, k),
        OSRCNode::ApiInput { .. } => enc_payload_api_input(out, k),
        OSRCNode::ApiOutput { .. } => enc_payload_api_output(out, k),
        OSRCNode::PIController { .. } => enc_payload_p_i_controller(out, k),
        OSRCNode::VelEstimator { .. } => enc_payload_vel_estimator(out, k),
        OSRCNode::LogicGate { .. } => enc_payload_logic_gate(out, k),
        OSRCNode::Comparator { .. } => enc_payload_comparator(out, k),
        OSRCNode::MathOperation { .. } => enc_payload_math_operation(out, k),
        OSRCNode::Multiplexer { .. } => enc_payload_multiplexer(out, k),
        OSRCNode::BitwiseSplit { .. } => enc_payload_bitwise_split(out, k),
        OSRCNode::BitwiseJoin { .. } => enc_payload_bitwise_join(out, k),
        OSRCNode::EdgeDelay { .. } => enc_payload_edge_delay(out, k),
        OSRCNode::CycleDelay { .. } => enc_payload_cycle_delay(out, k),
        OSRCNode::Converter { .. } => enc_payload_converter(out, k),
        OSRCNode::SerialDevice { .. } => enc_payload_serial_device(out, k),
        OSRCNode::SerialRead { .. } => enc_payload_serial_read(out, k),
        OSRCNode::SerialWrite { .. } => enc_payload_serial_write(out, k),
        OSRCNode::GlobalVariableInput { .. } => enc_payload_global_variable_input(out, k),
        OSRCNode::GlobalVariableOutput { .. } => enc_payload_global_variable_output(out, k),
        OSRCNode::Invalid { .. } => enc_payload_invalid(out, k),
    }
}


/// The string fields of a node kind can be read back.
pub open spec fn node_strs_ok(k: OSRCNodeV) -> bool {
    match k {
        OSRCNodeV::Constant { value, node_name, .. } => str_ok(value) && str_ok(node_name),
        OSRCNodeV::ApiInput { node_name, .. } => str_ok(node_name),
        OSRCNodeV::ApiOutput { node_name, .. } => str_ok(node_name),
        OSRCNodeV::PIController { node_name, .. } => str_ok(node_name),
        OSRCNodeV::Converter { input_min, input_max, output_min, output_max, .. } => str_ok(
            input_min,
        ) && str_ok(input_max) && str_ok(output_min) && str_ok(output_max),
        OSRCNodeV::SerialDevice { descriptor, node_name, .. } => str_ok(descriptor) && str_ok(
            node_name,
        ),
        OSRCNodeV::SerialRead { name, .. } => str_ok(name),
        OSRCNodeV::SerialWrite { name, .. } => str_ok(name),
        OSRCNodeV::GlobalVariableInput { name } => str_ok(name),
        OSRCNodeV::GlobalVariableOutput { name } => str_ok(name),
        _ => true,
    }
}

/// Writes a node-kind record: tag, payload length, payload.
#[verifier::rlimit(100)]
#[verifier::spinoff_prover]
fn enc_node(out: &mut Vec<u8>, k: &OSRCNode)
    ensures
        final(out)@ == old(out)@ + spec_enc_node(k@),
        node_ok(k@),
{
    let mut payload: Vec<u8> = Vec::new();
    enc_node_payload(&mut payload, k);
    proof {
        assert(payload@ =~= spec_node_payload(k@));
    }
    let tag: u64 = match k {
        OSRCNode::Constant { .. } => 0,
        OSRCNode::ApiInput { .. } => 1,
        OSRCNode::ApiOutput { .. } => 2,
        OSRCNode::PIController { .. } => 3,
        OSRCNode::VelEstimator { .. } => 4,
        OSRCNode::LogicGate { .. } => 5,
        OSRCNode::Comparator { .. } => 6,
        OSRCNode::MathOperation { .. } => 7,
        OSRCNode::Multiplexer { .. } => 8,
        OSRCNode::BitwiseSplit { .. } => 9,
        OSRCNode::BitwiseJoin { .. } => 10,
        OSRCNode::EdgeDelay { .. } => 11,
        OSRCNode::CycleDelay { .. } => 12,
        OSRCNode::Converter { .. } => 13,
        OSRCNode::SerialDevice { .. } => 14,
        OSRCNode::SerialRead { .. } => 15,
        OSRCNode::SerialWrite { .. } => 16,
        OSRCNode::GlobalVariableInput { .. } => 17,
        OSRCNode::GlobalVariableOutput { .. } => 18,
        OSRCNode::Invalid => 19,
    };
    let plen: usize = payload.len();
    enc_u64(out, tag);
    enc_u64(out, plen as u64);
    out.extend_from_slice(payload.as_slice());
    proof {
        assert(final(out)@ =~= old(out)@ + spec_enc_node(k@));
    }
}

/// Writes a connection.
fn enc_conn(out: &mut Vec<u8>, c: &Connection)
    ensures
        final(out)@ == old(out)@ + spec_enc_conn(*c),
{
    enc_u64(out, c.from_node);
    enc_u64(out, c.from_pin as u64);
    enc_u64(out, c.to_node);
    enc_u64(out, c.to_pin as u64);
    proof {
        assert(final(out)@ =~= old(out)@ + spec_enc_conn(*c));
    }
}

/// Writes a node instance.
fn enc_inst(out: &mut Vec<u8>, n: &NodeInstance)
    ensures
        final(out)@ == old(out)@ + spec_enc_inst(n@),
        node_ok(n@.kind),
{
    enc_u64(out, n.id);
    enc_u64(out, n.pos_x as u64);
    enc_u64(out, n.pos_y as u64);
    enc_node(out, &n.kind);
    proof {
        assert(final(out)@ =~= old(out)@ + spec_enc_inst(n@));
    }
}

/// One more node instance extends the run by its record.
proof fn lemma_enc_insts_snoc(items: Seq<NodeInstanceV>, k: int)
    requires
        0 <= k < items.len(),
    ensures
        spec_enc_insts(items.take(k + 1)) == spec_enc_insts(items.take(k)) + spec_enc_inst(
            items[k],
        ),
    decreases k,
{
    if k == 0 {
        assert(items.take(1).drop_first() =~= Seq::<NodeInstanceV>::empty());
        assert(items.take(1)[0] == items[0]);
        assert(items.take(0) =~= Seq::<NodeInstanceV>::empty());
        assert(spec_enc_insts(Seq::<NodeInstanceV>::empty()) =~= Seq::<u8>::empty());
        assert(spec_enc_insts(items.take(1)) =~= spec_enc_inst(items[0]));
        assert(spec_enc_insts(items.take(0)) + spec_enc_inst(items[0]) =~= spec_enc_inst(
            items[0],
        ));
    } else {
        lemma_enc_insts_snoc(items.drop_first(), k - 1);
        assert(items.take(k + 1).drop_first() =~= items.drop_first().take(k));
        assert(items.take(k).drop_first() =~= items.drop_first().take(k - 1));
        assert(items.take(k + 1)[0] == items[0]);
        assert(items.take(k)[0] == items[0]);
        assert(items.drop_first()[k - 1] == items[k]);
        assert(spec_enc_inst(items[0]) + (spec_enc_insts(items.drop_first().take(k - 1))
            + spec_enc_inst(items[k])) =~= (spec_enc_inst(items[0]) + spec_enc_insts(
            items.drop_first().take(k - 1),
        )) + spec_enc_inst(items[k]));
    }
}

/// One more connection extends the run by its record.
proof fn lemma_enc_conns_snoc(items: Seq<Connection>, k: int)
    requires
        0 <= k < items.len(),
    ensures
        spec_enc_conns(items.take(k + 1)) == spec_enc_conns(items.take(k)) + spec_enc_conn(
            items[k],
        ),
    decreases k,
{
    if k == 0 {
        assert(items.take(1).drop_first() =~= Seq::<Connection>::empty());
        assert(items.take(1)[0] == items[0]);
        assert(items.take(0) =~= Seq::<Connection>::empty());
        assert(spec_enc_conns(Seq::<Connection>::empty()) =~= Seq::<u8>::empty());
        assert(spec_enc_conns(items.take(1)) =~= spec_enc_conn(items[0]));
        assert(spec_enc_conns(items.take(0)) + spec_enc_conn(items[0]) =~= spec_enc_conn(
            items[0],
        ));
    } else {
        lemma_enc_conns_snoc(items.drop_first(), k - 1);
        assert(items.take(k + 1).drop_first() =~= items.drop_first().take(k));
        assert(items.take(k).drop_first() =~= items.drop_first().take(k - 1));
        assert(items.take(k + 1)[0] == items[0]);
        assert(items.take(k)[0] == items[0]);
        assert(items.drop_first()[k - 1] == items[k]);
        assert(spec_enc_conn(items[0]) + (spec_enc_conns(items.drop_first().take(k - 1))
            + spec_enc_conn(items[k])) =~= (spec_enc_conn(items[0]) + spec_enc_conns(
            items.drop_first().take(k - 1),
        )) + spec_enc_conn(items[k]));
    }
}

/// Writes a graph: identity cursor, nodes, connections.
fn enc_graph(out: &mut Vec<u8>, g: &Graph)
    ensures
        final(out)@ == old(out)@ + spec_enc_graph(g@),
        graph_ok(g@),
{
    enc_u64(out, g.next_id);
    let ncount: usize = g.nodes.len();
    enc_u64(out, ncount as u64);
    let ghost mid0 = out@;
    let mut k: usize = 0;
    while k < ncount
        invariant
            ncount == g.nodes@.len(),
            0 <= k <= ncount,
            out@ == mid0 + spec_enc_insts(g@.nodes.take(k as int)),
            forall|i: int| 0 <= i < k ==> node_ok((#[trigger] g@.nodes[i]).kind),
        decreases ncount - k,
    {
        enc_inst(out, &g.nodes[k]);
        proof {
            assert(g@.nodes[k as int] == g.nodes@[k as int]@);
            lemma_enc_insts_snoc(g@.nodes, k as int);
            assert(out@ =~= mid0 + spec_enc_insts(g@.nodes.take(k + 1)));
        }
        k = k + 1;
    }
    proof {
        assert(g@.nodes.take(ncount as int) =~= g@.nodes);
    }
    let ccount: usize = g.conns.len();
    enc_u64(out, ccount as u64);
    let ghost mid1 = out@;
    let mut j: usize = 0;
    while j < ccount
        invariant
            ccount == g.conns@.len(),
            0 <= j <= ccount,
            out@ == mid1 + spec_enc_conns(g@.conns.take(j as int)),
        decreases ccount - j,
    {
        enc_conn(out, &g.conns[j]);
        proof {
            lemma_enc_conns_snoc(g@.conns, j as int);
            assert(out@ =~= mid1 + spec_enc_conns(g@.conns.take(j + 1)));
        }
        j = j + 1;
    }
    proof {
        assert(g@.conns.take(ccount as int) =~= g@.conns);
        assert(g@.conns =~= g.conns@);
        assert(final(out)@ =~= old(out)@ + spec_enc_graph(g@));
    }
}

/// Writes a global variable.
fn enc_gvar(out: &mut Vec<u8>, v: &GlobalVariable)
    ensures
        final(out)@ == old(out)@ + spec_enc_gvar(v@),
        str_ok(v@.name),
{
    enc_str(out, v.name.as_str());
    enc_pin(out, &v.pin_type);
    proof {
        assert(final(out)@ =~= old(out)@ + spec_enc_gvar(v@));
    }
}

/// Writes a network.
fn enc_network(out: &mut Vec<u8>, n: &Network)
    ensures
        final(out)@ == old(out)@ + spec_enc_network(n@),
        network_ok(n@),
{
    enc_str(out, n.name.as_str());
    enc_bool(out, n.enabled);
    enc_nettype(out, &n.net_type);
    enc_u64(out, n.timeout as u64);
    enc_u64(out, n.update_cycle_trigger_count as u64);
    enc_u64(out, n.execution_index as u64);
    enc_graph(out, &n.nodes);
    proof {
        assert(final(out)@ =~= old(out)@ + spec_enc_network(n@));
    }
}

/// Writes the file metadata.
fn enc_info(out: &mut Vec<u8>, f: &FileInfo)
    ensures
        final(out)@ == old(out)@ + spec_enc_info(f@),
        str_ok(f@.fpga_config),
{
    enc_i32(out, f.date.year);
    enc_u64(out, f.date.month as u64);
    enc_u64(out, f.date.day as u64);
    enc_u64(out, f.time.hour as u64);
    enc_u64(out, f.time.minute as u64);
    enc_u64(out, f.time.second as u64);
    enc_str(out, f.fpga_config.as_str());
    enc_bool(out, f.write_protected);
    proof {
        assert(final(out)@ =~= old(out)@ + spec_enc_info(f@));
    }
}

/// One more global variable extends the run by its record.
proof fn lemma_enc_gvars_snoc(items: Seq<GlobalVariableV>, k: int)
    requires
        0 <= k < items.len(),
    ensures
        spec_enc_gvars(items.take(k + 1)) == spec_enc_gvars(items.take(k)) + spec_enc_gvar(
            items[k],
        ),
    decreases k,
{
    if k == 0 {
        assert(items.take(1).drop_first() =~= Seq::<GlobalVariableV>::empty());
        assert(items.take(1)[0] == items[0]);
        assert(items.take(0) =~= Seq::<GlobalVariableV>::empty());
        assert(spec_enc_gvars(Seq::<GlobalVariableV>::empty()) =~= Seq::<u8>::empty());
        assert(spec_enc_gvars(items.take(1)) =~= spec_enc_gvar(items[0]));
        assert(spec_enc_gvars(items.take(0)) + spec_enc_gvar(items[0]) =~= spec_enc_gvar(
            items[0],
        ));
    } else {
        lemma_enc_gvars_snoc(items.drop_first(), k - 1);
        assert(items.take(k + 1).drop_first() =~= items.drop_first().take(k));
        assert(items.take(k).drop_first() =~= items.drop_first().take(k - 1));
        assert(items.take(k + 1)[0] == items[0]);
        assert(items.take(k)[0] == items[0]);
        assert(items.drop_first()[k - 1] == items[k]);
        assert(spec_enc_gvar(items[0]) + (spec_enc_gvars(items.drop_first().take(k - 1))
            + spec_enc_gvar(items[k])) =~= (spec_enc_gvar(items[0]) + spec_enc_gvars(
            items.drop_first().take(k - 1),
        )) + spec_enc_gvar(items[k]));
    }
}

/// One more network extends the run by its record.
proof fn lemma_enc_networks_snoc(items: Seq<NetworkV>, k: int)
    requires
        0 <= k < items.len(),
    ensures
        spec_enc_networks(items.take(k + 1)) == spec_enc_networks(items.take(k))
            + spec_enc_network(items[k]),
    decreases k,
{
    if k == 0 {
        assert(items.take(1).drop_first() =~= Seq::<NetworkV>::empty());
        assert(items.take(1)[0] == items[0]);
        assert(items.take(0) =~= Seq::<NetworkV>::empty());
        assert(spec_enc_networks(Seq::<NetworkV>::empty()) =~= Seq::<u8>::empty());
        assert(spec_enc_networks(items.take(1)) =~= spec_enc_network(items[0]));
        assert(spec_enc_networks(items.take(0)) + spec_enc_network(items[0]) =~= spec_enc_network(
            items[0],
        ));
    } else {
        lemma_enc_networks_snoc(items.drop_first(), k - 1);
        assert(items.take(k + 1).drop_first() =~= items.drop_first().take(k));
        assert(items.take(k).drop_first() =~= items.drop_first().take(k - 1));
        assert(items.take(k + 1)[0] == items[0]);
        assert(items.take(k)[0] == items[0]);
        assert(items.drop_first()[k - 1] == items[k]);
        assert(spec_enc_network(items[0]) + (spec_enc_networks(items.drop_first().take(k - 1))
            + spec_enc_network(items[k])) =~= (spec_enc_network(items[0]) + spec_enc_networks(
            items.drop_first().take(k - 1),
        )) + spec_enc_network(items[k]));
    }
}

/// Encodes a whole program as a document. Total: every program the
/// machine can hold is encodable, and what this writes decodes back
/// to the same program.
pub fn encode(p: &FPGAProgram) -> (r: Vec<u8>)
    ensures
        r@ == spec_enc_program(p@),
        program_ok(p@),
{
    let mut out: Vec<u8> = Vec::new();
    enc_u64(&mut out, 1);
    enc_info(&mut out, &p.info);
    let gcount: usize = p.set_node_vars.len();
    enc_u64(&mut out, gcount as u64);
    let ghost mid0 = out@;
    let mut k: usize = 0;
    while k < gcount
        invariant
            gcount == p.set_node_vars@.len(),
            0 <= k <= gcount,
            out@ == mid0 + spec_enc_gvars(p@.set_node_vars.take(k as int)),
            forall|i: int| 0 <= i < k ==> str_ok((#[trigger] p@.set_node_vars[i]).name),
        decreases gcount - k,
    {
        enc_gvar(&mut out, &p.set_node_vars[k]);
        proof {
            assert(p@.set_node_vars[k as int] == p.set_node_vars@[k as int]@);
            lemma_enc_gvars_snoc(p@.set_node_vars, k as int);
            assert(out@ =~= mid0 + spec_enc_gvars(p@.set_node_vars.take(k + 1)));
        }
        k = k + 1;
    }
    proof {
        assert(p@.set_node_vars.take(gcount as int) =~= p@.set_node_vars);
    }
    let ncount: usize = p.networks.len();
    enc_u64(&mut out, ncount as u64);
    let ghost mid1 = out@;
    let mut j: usize = 0;
    while j < ncount
        invariant
            ncount == p.networks@.len(),
            0 <= j <= ncount,
            out@ == mid1 + spec_enc_networks(p@.networks.take(j as int)),
            forall|i: int| 0 <= i < j ==> network_ok(#[trigger] p@.networks[i]),
        decreases ncount - j,
    {
        enc_network(&mut out, &p.networks[j]);
        proof {
            assert(p@.networks[j as int] == p.networks@[j as int]@);
            lemma_enc_networks_snoc(p@.networks, j as int);
            assert(out@ =~= mid1 + spec_enc_networks(p@.networks.take(j + 1)));
        }
        j = j + 1;
    }
    proof {
        assert(p@.networks.take(ncount as int) =~= p@.networks);
        assert(out@ =~= spec_enc_program(p@));
    }
    out
}

/// Reads one number token at byte offset `i`.
fn dec_u64(b: &Vec<u8>, i: usize) -> (r: Option<(u64, usize)>)
    requires
        i <= b@.len(),
    ensures
        match r {
            Some(p) => i <= p.1 <= b@.len() && spec_dec_u64(b@.skip(i as int)) == Some(
                (p.0, b@.skip(p.1 as int)),
            ),
            None => spec_dec_u64(b@.skip(i as int)) is None,
        },
{
    let n = b.len();
    if i >= n {
        return None;
    }
    let c0 = b[i];
    proof {
        assert(b@.skip(i as int)[0] == b@[i as int]);
    }
    if !(48 <= c0 && c0 <= 57) {
        return None;
    }
    let mut j = i;
    let mut acc: u64 = 0;
    loop
        invariant
            i <= j <= n,
            n == b@.len(),
            spec_dec_u64(b@.skip(i as int)) == spec_dec_u64_loop(b@.skip(j as int), acc as nat),
        decreases n - j,
    {
        if j >= n {
            proof {
                assert(b@.skip(j as int).len() == 0);
            }
            return None;
        }
        let c = b[j];
        proof {
            assert(b@.skip(j as int)[0] == b@[j as int]);
            assert(b@.skip(j as int).drop_first() =~= b@.skip(j + 1));
        }
        if 48 <= c && c <= 57 {
            let wide: u128 = (acc as u128) * 10 + ((c - 48) as u128);
            if wide > (u64::MAX as u128) {
                return None;
            }
            acc = wide as u64;
            j = j + 1;
        } else if c == 10 {
            return Some((acc, j + 1));
        } else {
            return None;
        }
    }
}

/// Reads a boolean token.
fn dec_bool(b: &Vec<u8>, i: usize) -> (r: Option<(bool, usize)>)
    requires
        i <= b@.len(),
    ensures
        match r {
            Some(p) => i <= p.1 <= b@.len() && spec_dec_bool(b@.skip(i as int)) == Some(
                (p.0, b@.skip(p.1 as int)),
            ),
            None => spec_dec_bool(b@.skip(i as int)) is None,
        },
{
    match dec_u64(b, i) {
        Some((v, j)) => if v == 0 {
            Some((false, j))
        } else if v == 1 {
            Some((true, j))
        } else {
            None
        },
        None => None,
    }
}

/// Reads a 32-bit token.
fn dec_u32(b: &Vec<u8>, i: usize) -> (r: Option<(u32, usize)>)
    requires
        i <= b@.len(),
    ensures
        match r {
            Some(p) => i <= p.1 <= b@.len() && spec_dec_u32(b@.skip(i as int)) == Some(
                (p.0, b@.skip(p.1 as int)),
            ),
            None => spec_dec_u32(b@.skip(i as int)) is None,
        },
{
    match dec_u64(b, i) {
        Some((v, j)) => if v <= u32::MAX as u64 {
            Some((v as u32, j))
        } else {
            None
        },
        None => None,
    }
}

/// Reads a 16-bit token.
fn dec_u16(b: &Vec<u8>, i: usize) -> (r: Option<(u16, usize)>)
    requires
        i <= b@.len(),
    ensures
        match r {
            Some(p) => i <= p.1 <= b@.len() && spec_dec_u16(b@.skip(i as int)) == Some(
                (p.0, b@.skip(p.1 as int)),
            ),
            None => spec_dec_u16(b@.skip(i as int)) is None,
        },
{
    match dec_u64(b, i) {
        Some((v, j)) => if v <= u16::MAX as u64 {
            Some((v as u16, j))
        } else {
            None
        },
        None => None,
    }
}

/// Reads an 8-bit token.
fn dec_u8(b: &Vec<u8>, i: usize) -> (r: Option<(u8, usize)>)
    requires
        i <= b@.len(),
    ensures
        match r {
            Some(p) => i <= p.1 <= b@.len() && spec_dec_u8(b@.skip(i as int)) == Some(
                (p.0, b@.skip(p.1 as int)),
            ),
            None => spec_dec_u8(b@.skip(i as int)) is None,
        },
{
    match dec_u64(b, i) {
        Some((v, j)) => if v <= u8::MAX as u64 {
            Some((v as u8, j))
        } else {
            None
        },
        None => None,
    }
}

/// Reads a word-sized token.
fn dec_usize(b: &Vec<u8>, i: usize) -> (r: Option<(usize, usize)>)
    requires
        i <= b@.len(),
    ensures
        match r {
            Some(p) => i <= p.1 <= b@.len() && spec_dec_usize(b@.skip(i as int)) == Some(
                (p.0, b@.skip(p.1 as int)),
            ),
            None => spec_dec_usize(b@.skip(i as int)) is None,
        },
{
    match dec_u64(b, i) {
        Some((v, j)) => if v <= usize::MAX as u64 {
            Some((v as usize, j))
        } else {
            None
        },
        None => None,
    }
}

/// Reads a signed token.
fn dec_i32(b: &Vec<u8>, i: usize) -> (r: Option<(i32, usize)>)
    requires
        i <= b@.len(),
    ensures
        match r {
            Some(p) => i <= p.1 <= b@.len() && spec_dec_i32(b@.skip(i as int)) == Some(
                (p.0, b@.skip(p.1 as int)),
            ),
            None => spec_dec_i32(b@.skip(i as int)) is None,
        },
{
    let n = b.len();
    if i < n && b[i] == 45 {
        proof {
            assert(b@.skip(i as int)[0] == b@[i as int]);
            assert(b@.skip(i as int).drop_first() =~= b@.skip(i + 1));
        }
        match dec_u64(b, i + 1) {
            Some((v, j)) => {
                if v <= 0x8000_0000 {
                    let x: i32 = (-(v as i64)) as i32;
                    Some((x, j))
                } else {
                    None
                }
            },
            None => None,
        }
    } else {
        proof {
            if i < n {
                assert(b@.skip(i as int)[0] == b@[i as int]);
            } else {
                assert(b@.skip(i as int).len() == 0);
            }
        }
        match dec_u64(b, i) {
            Some((v, j)) => {
                if v <= i32::MAX as u64 {
                    Some((v as i32, j))
                } else {
                    None
                }
            },
            None => None,
        }
    }
}

/// Relies on `String::from_utf8`: it succeeds exactly on valid
/// UTF-8, and the characters of the resulting string are the
/// decoding of the bytes.
#[verifier::external_body]
fn bytes_to_string(v: Vec<u8>) -> (r: Option<String>)
    ensures
        match r {
            Some(s) => valid_utf8(v@) && s@ == decode_utf8(v@),
            None => !valid_utf8(v@),
        },
{
    match String::from_utf8(v) {
        Ok(s) => Some(s),
        Err(_) => None,
    }
}

/// Reads a string: a length token, then that many bytes of UTF-8.
fn dec_str(b: &Vec<u8>, i: usize) -> (r: Option<(String, usize)>)
    requires
        i <= b@.len(),
    ensures
        match r {
            Some(p) => i <= p.1 <= b@.len() && spec_dec_str(b@.skip(i as int)) == Some(
                (p.0@, b@.skip(p.1 as int)),
            ),
            None => spec_dec_str(b@.skip(i as int)) is None,
        },
{
    let n = b.len();
    match dec_u64(b, i) {
        None => None,
        Some((len64, j)) => {
            if len64 > (n - j) as u64 {
                return None;
            }
            let len = len64 as usize;
            let mut bytes: Vec<u8> = Vec::new();
            let mut t: usize = 0;
            while t < len
                invariant
                    0 <= t <= len,
                    j + len <= n,
                    n == b@.len(),
                    bytes@ == b@.subrange(j as int, j + t),
                decreases len - t,
            {
                bytes.push(b[j + t]);
                proof {
                    assert(bytes@ =~= b@.subrange(j as int, j + t + 1));
                }
                t = t + 1;
            }
            proof {
                assert(bytes@ =~= b@.skip(j as int).take(len64 as int));
                assert(b@.skip(j as int).skip(len64 as int) =~= b@.skip(j + len));
            }
            match bytes_to_string(bytes) {
                Some(s) => Some((s, j + len)),
                None => None,
            }
        },
    }
}

/// Reads an optional 64-bit value.
fn dec_opt_u64(b: &Vec<u8>, i: usize) -> (r: Option<(Option<u64>, usize)>)
    requires
        i <= b@.len(),
    ensures
        match r {
            Some(p) => i <= p.1 <= b@.len() && spec_dec_opt_u64(b@.skip(i as int)) == Some(
                (p.0, b@.skip(p.1 as int)),
            ),
            None => spec_dec_opt_u64(b@.skip(i as int)) is None,
        },
{
    match dec_bool(b, i) {
        None => None,
        Some((present, j)) => if present {
            match dec_u64(b, j) {
                Some((v, j2)) => Some((Some(v), j2)),
                None => None,
            }
        } else {
            Some((None, j))
        },
    }
}

/// Reads a pin-type tag.
fn dec_pin(b: &Vec<u8>, i: usize) -> (r: Option<(PinType, usize)>)
    requires
        i <= b@.len(),
    ensures
        match r {
            Some(p) => i <= p.1 <= b@.len() && spec_dec_pin(b@.skip(i as int)) == Some(
                (p.0, b@.skip(p.1 as int)),
            ),
            None => spec_dec_pin(b@.skip(i as int)) is None,
        },
{
    match dec_u64(b, i) {
        None => None,
        Some((v, j)) => match v {
            0 => Some((PinType::Bool, j)),
            1 => Some((PinType::U8, j)),
            2 => Some((PinType::U16, j)),
            3 => Some((PinType::U32, j)),
            4 => Some((PinType::I8, j)),
            5 => Some((PinType::I16, j)),
            6 => Some((PinType::I32, j)),
            7 => Some((PinType::F32, j)),
            8 => Some((PinType::F64, j)),
            9 => Some((PinType::STRING, j)),
            10 => Some((PinType::UNDEFINED, j)),
            11 => Some((PinType::SERIAL, j)),
            12 => Some((PinType::NONE, j)),
            _ => None,
        },
    }
}

/// Reads a comparison tag.
fn dec_cmp(b: &Vec<u8>, i: usize) -> (r: Option<(ValueCompare, usize)>)
    requires
        i <= b@.len(),
    ensures
        match r {
            Some(p) => i <= p.1 <= b@.len() && spec_dec_cmp(b@.skip(i as int)) == Some(
                (p.0, b@.skip(p.1 as int)),
            ),
            None => spec_dec_cmp(b@.skip(i as int)) is None,
        },
{
    match dec_u64(b, i) {
        None => None,
        Some((v, j)) => match v {
            0 => Some((ValueCompare::GreaterThan, j)),
            1 => Some((ValueCompare::GreaterThanOrEqual, j)),
            2 => Some((ValueCompare::LessThan, j)),
            3 => Some((ValueCompare::LessThanOrEqual, j)),
            4 => Some((ValueCompare::Equal, j)),
            5 => Some((ValueCompare::NotEqual, j)),
            _ => None,
        },
    }
}

/// Reads a gate kind.
fn dec_gate(b: &Vec<u8>, i: usize) -> (r: Option<(GateType, usize)>)
    requires
        i <= b@.len(),
    ensures
        match r {
            Some(p) => i <= p.1 <= b@.len() && spec_dec_gate(b@.skip(i as int)) == Some(
                (p.0, b@.skip(p.1 as int)),
            ),
            None => spec_dec_gate(b@.skip(i as int)) is None,
        },
{
    match dec_u64(b, i) {
        None => None,
        Some((v, j)) => if v <= 4 {
            match dec_usize(b, j) {
                None => None,
                Some((fan, j2)) => if v == 0 {
                    Some((GateType::AND(fan), j2))
                } else if v == 1 {
                    Some((GateType::OR(fan), j2))
                } else if v == 2 {
                    Some((GateType::NAND(fan), j2))
                } else if v == 3 {
                    Some((GateType::NOR(fan), j2))
                } else {
                    Some((GateType::XOR(fan), j2))
                },
            }
        } else if v == 5 {
            Some((GateType::NOT, j))
        } else {
            None
        },
    }
}

/// Reads a math operator.
fn dec_math(b: &Vec<u8>, i: usize) -> (r: Option<(MathOperation, usize)>)
    requires
        i <= b@.len(),
    ensures
        match r {
            Some(p) => i <= p.1 <= b@.len() && spec_dec_math(b@.skip(i as int)) == Some(
                (p.0, b@.skip(p.1 as int)),
            ),
            None => spec_dec_math(b@.skip(i as int)) is None,
        },
{
    match dec_u64(b, i) {
        None => None,
        Some((v, j)) => if v == 0 {
            match dec_u64(b, j) {
                None => None,
                Some((ov, j2)) => {
                    let o = match ov {
                        0 => Some(NaryOperation::ADD),
                        1 => Some(NaryOperation::MUL),
                        2 => Some(NaryOperation::MIN),
                        3 => Some(NaryOperation::MAX),
                        4 => Some(NaryOperation::AVG),
                        _ => None,
                    };
                    match o {
                        None => None,
                        Some(op) => match dec_usize(b, j2) {
                            Some((cnt, j3)) => Some((MathOperation::Nary(op, cnt), j3)),
                            None => None,
                        },
                    }
                },
            }
        } else if v == 1 {
            match dec_u64(b, j) {
                None => None,
                Some((ov, j2)) => match ov {
                    0 => Some((MathOperation::BinaryOperation(BinaryOperation::ROOT), j2)),
                    1 => Some((MathOperation::BinaryOperation(BinaryOperation::POW), j2)),
                    2 => Some((MathOperation::BinaryOperation(BinaryOperation::LOG), j2)),
                    _ => None,
                },
            }
        } else if v == 2 {
            match dec_u64(b, j) {
                None => None,
                Some((ov, j2)) => match ov {
                    0 => Some((MathOperation::UnaryOperation(UnaryOperation::LN), j2)),
                    1 => Some((MathOperation::UnaryOperation(UnaryOperation::LOG10), j2)),
                    2 => Some((MathOperation::UnaryOperation(UnaryOperation::SINE), j2)),
                    3 => Some((MathOperation::UnaryOperation(UnaryOperation::COS), j2)),
                    4 => Some((MathOperation::UnaryOperation(UnaryOperation::TAN), j2)),
                    5 => Some((MathOperation::UnaryOperation(UnaryOperation::ASIN), j2)),
                    6 => Some((MathOperation::UnaryOperation(UnaryOperation::ACOS), j2)),
                    7 => Some((MathOperation::UnaryOperation(UnaryOperation::ATAN), j2)),
                    8 => Some((MathOperation::UnaryOperation(UnaryOperation::NEGATE), j2)),
                    9 => Some((MathOperation::UnaryOperation(UnaryOperation::ABS), j2)),
                    _ => None,
                },
            }
        } else if v == 3 {
            Some((MathOperation::Invalid, j))
        } else {
            None
        },
    }
}

/// Reads a register addressing mode.
fn dec_reg(b: &Vec<u8>, i: usize) -> (r: Option<(SerialDeviceReg, usize)>)
    requires
        i <= b@.len(),
    ensures
        match r {
            Some(p) => i <= p.1 <= b@.len() && spec_dec_reg(b@.skip(i as int)) == Some(
                (p.0, b@.skip(p.1 as int)),
            ),
            None => spec_dec_reg(b@.skip(i as int)) is None,
        },
{
    match dec_u64(b, i) {
        None => None,
        Some((v, j)) => if v == 0 {
            match dec_u16(b, j) {
                Some((u, j2)) => Some((SerialDeviceReg::AsyncReg { update_cycles: u }, j2)),
                None => None,
            }
        } else if v == 1 {
            match dec_bool(b, j) {
                None => None,
                Some((sn, j2)) => match dec_u32(b, j2) {
                    Some((ci, j3)) => Some(
                        (SerialDeviceReg::CyclicReg { sync_node: sn, cyclic_index: ci }, j3),
                    ),
                    None => None,
                },
            }
        } else if v == 2 {
            Some((SerialDeviceReg::Unset, j))
        } else {
            None
        },
    }
}

/// Reads a scheduling-mode tag.
fn dec_nettype(b: &Vec<u8>, i: usize) -> (r: Option<(NetworkType, usize)>)
    requires
        i <= b@.len(),
    ensures
        match r {
            Some(p) => i <= p.1 <= b@.len() && spec_dec_nettype(b@.skip(i as int)) == Some(
                (p.0, b@.skip(p.1 as int)),
            ),
            None => spec_dec_nettype(b@.skip(i as int)) is None,
        },
{
    match dec_u64(b, i) {
        None => None,
        Some((v, j)) => if v == 0 {
            Some((NetworkType::Sync, j))
        } else if v == 1 {
            Some((NetworkType::Async, j))
        } else {
            None
        },
    }
}

/// Reads the payload of a `Constant` record.
fn dec_node_constant(b: &Vec<u8>, i: usize) -> (r: Option<(OSRCNode, usize)>)
    requires
        i <= b@.len(),
    ensures
        match r {
            Some(p) => i <= p.1 <= b@.len() && spec_dec_node_constant(b@.skip(i as int)) == Some(
                (p.0@, b@.skip(p.1 as int)),
            ),
            None => spec_dec_node_constant(b@.skip(i as int)) is None,
        },
{
    match dec_pin(b, i) {
        None => None,
        Some((itype, j1)) => match dec_str(b, j1) {
            None => None,
            Some((value, j2)) => match dec_str(b, j2) {
                None => None,
                Some((node_name, j3)) => Some((OSRCNode::Constant { itype, value, node_name }, j3)),
            },
        },
    }
}

/// Reads the payload of an `ApiInput` record.
fn dec_node_api_input(b: &Vec<u8>, i: usize) -> (r: Option<(OSRCNode, usize)>)
    requires
        i <= b@.len(),
    ensures
        match r {
            Some(p) => i <= p.1 <= b@.len() && spec_dec_node_api_input(b@.skip(i as int)) == Some(
                (p.0@, b@.skip(p.1 as int)),
            ),
            None => spec_dec_node_api_input(b@.skip(i as int)) is None,
        },
{
    match dec_opt_u64(b, i) {
        None => None,
        Some((min, j1)) => match dec_opt_u64(b, j1) {
            None => None,
            Some((max, j2)) => match dec_opt_u64(b, j2) {
                None => None,
                Some((default, j3)) => match dec_opt_u64(b, j3) {
                    None => None,
                    Some((timeout, j4)) => match dec_pin(b, j4) {
                        None => None,
                        Some((itype, j5)) => match dec_str(b, j5) {
                            None => None,
                            Some((node_name, j6)) => Some(
                                (
                                    OSRCNode::ApiInput {
                                        min,
                                        max,
                                        default,
                                        timeout,
                                        itype,
                                        node_name,
                                    },
                                    j6,
                                ),
                            ),
                        },
                    },
                },
            },
        },
    }
}

/// Reads the payload of a `PIController` record.
fn dec_node_pi(b: &Vec<u8>, i: usize) -> (r: Option<(OSRCNode, usize)>)
    requires
        i <= b@.len(),
    ensures
        match r {
            Some(p) => i <= p.1 <= b@.len() && spec_dec_node_pi(b@.skip(i as int)) == Some(
                (p.0@, b@.skip(p.1 as int)),
            ),
            None => spec_dec_node_pi(b@.skip(i as int)) is None,
        },
{
    match dec_u32(b, i) {
        None => None,
        Some((p_gain, j1)) => match dec_u32(b, j1) {
            None => None,
            Some((i_gain, j2)) => match dec_u32(b, j2) {
                None => None,
                Some((i_limit, j3)) => match dec_u32(b, j3) {
                    None => None,
                    Some((output_min, j4)) => match dec_u32(b, j4) {
                        None => None,
                        Some((output_max, j5)) => match dec_str(b, j5) {
                            None => None,
                            Some((node_name, j6)) => Some(
                                (
                                    OSRCNode::PIController {
                                        p: p_gain,
                                        i: i_gain,
                                        i_limit,
                                        output_min,
                                        output_max,
                                        node_name,
                                    },
                                    j6,
                                ),
                            ),
                        },
                    },
                },
            },
        },
    }
}

/// Reads the payload of a `Converter` record.
fn dec_node_converter(b: &Vec<u8>, i: usize) -> (r: Option<(OSRCNode, usize)>)
    requires
        i <= b@.len(),
    ensures
        match r {
            Some(p) => i <= p.1 <= b@.len() && spec_dec_node_converter(b@.skip(i as int)) == Some(
                (p.0@, b@.skip(p.1 as int)),
            ),
            None => spec_dec_node_converter(b@.skip(i as int)) is None,
        },
{
    match dec_pin(b, i) {
        None => None,
        Some((input_type, j1)) => match dec_pin(b, j1) {
            None => None,
            Some((output_type, j2)) => match dec_bool(b, j2) {
                None => None,
                Some((direct_mode, j3)) => match dec_str(b, j3) {
                    None => None,
                    Some((input_min, j4)) => match dec_str(b, j4) {
                        None => None,
                        Some((input_max, j5)) => match dec_str(b, j5) {
                            None => None,
                            Some((output_min, j6)) => match dec_str(b, j6) {
                                None => None,
                                Some((output_max, j7)) => match dec_bool(b, j7) {
                                    None => None,
                                    Some((invert, j8)) => Some(
                                        (
                                            OSRCNode::Converter {
                                                input_type,
                                                output_type,
                                                direct_mode,
                                                input_min,
                                                input_max,
                                                output_min,
                                                output_max,
                                                invert,
                                            },
                                            j8,
                                        ),
                                    ),
                                },
                            },
                        },
                    },
                },
            },
        },
    }
}

/// Reads the payload of a `SerialDevice` record.
fn dec_node_serial_device(b: &Vec<u8>, i: usize) -> (r: Option<(OSRCNode, usize)>)
    requires
        i <= b@.len(),
    ensures
        match r {
            Some(p) => i <= p.1 <= b@.len() && spec_dec_node_serial_device(b@.skip(i as int))
                == Some((p.0@, b@.skip(p.1 as int))),
            None => spec_dec_node_serial_device(b@.skip(i as int)) is None,
        },
{
    match dec_bool(b, i) {
        None => None,
        Some((enabled, j1)) => match dec_u16(b, j1) {
            None => None,
            Some((addr, j2)) => match dec_u16(b, j2) {
                None => None,
                Some((timeout, j3)) => match dec_str(b, j3) {
                    None => None,
                    Some((descriptor, j4)) => match dec_usize(b, j4) {
                        None => None,
                        Some((num_read, j5)) => match dec_usize(b, j5) {
                            None => None,
                            Some((num_write, j6)) => match dec_str(b, j6) {
                                None => None,
                                Some((node_name, j7)) => Some(
                                    (
                                        OSRCNode::SerialDevice {
                                            enabled,
                                            addr,
                                            timeout,
                                            descriptor,
                                            num_read,
                                            num_write,
                                            node_name,
                                        },
                                        j7,
                                    ),
                                ),
                            },
                        },
                    },
                },
            },
        },
    }
}

/// Reads the payload of a `SerialRead` or `SerialWrite` record.
fn dec_node_serial_rw(b: &Vec<u8>, i: usize, write: bool) -> (r: Option<(OSRCNode, usize)>)
    requires
        i <= b@.len(),
    ensures
        match r {
            Some(p) => i <= p.1 <= b@.len() && spec_dec_node_serial_rw(b@.skip(i as int), write)
                == Some((p.0@, b@.skip(p.1 as int))),
            None => spec_dec_node_serial_rw(b@.skip(i as int), write) is None,
        },
{
    match dec_str(b, i) {
        None => None,
        Some((name, j1)) => match dec_reg(b, j1) {
            None => None,
            Some((dev, j2)) => match dec_pin(b, j2) {
                None => None,
                Some((itype, j3)) => if write {
                    Some((OSRCNode::SerialWrite { name, dev, itype }, j3))
                } else {
                    Some((OSRCNode::SerialRead { name, dev, itype }, j3))
                },
            },
        },
    }
}

/// Reads a node-kind record; an unrecognized tag is stepped over by
/// its payload length and yields an `Invalid` node.
#[verifier::rlimit(100)]
#[verifier::spinoff_prover]
fn dec_node(b: &Vec<u8>, i: usize) -> (r: Option<(OSRCNode, usize)>)
    requires
        i <= b@.len(),
    ensures
        match r {
            Some(p) => i <= p.1 <= b@.len() && spec_dec_node(b@.skip(i as int)) == Some(
                (p.0@, b@.skip(p.1 as int)),
            ),
            None => spec_dec_node(b@.skip(i as int)) is None,
        },
{
    let n = b.len();
    match dec_u64(b, i) {
        None => None,
        Some((tag, j1)) => match dec_u64(b, j1) {
            None => None,
            Some((plen, j2)) => {
                if tag == 0 {
                    dec_node_constant(b, j2)
                } else if tag == 1 {
                    dec_node_api_input(b, j2)
                } else if tag == 2 {
                    match dec_pin(b, j2) {
                        None => None,
                        Some((itype, q1)) => match dec_str(b, q1) {
                            None => None,
                            Some((node_name, q2)) => Some(
                                (OSRCNode::ApiOutput { itype, node_name }, q2),
                            ),
                        },
                    }
                } else if tag == 3 {
                    dec_node_pi(b, j2)
                } else if tag == 4 {
                    match dec_u32(b, j2) {
                        None => None,
                        Some((alpha, q1)) => Some((OSRCNode::VelEstimator { alpha }, q1)),
                    }
                } else if tag == 5 {
                    match dec_gate(b, j2) {
                        None => None,
                        Some((gtype, q1)) => Some((OSRCNode::LogicGate { gtype }, q1)),
                    }
                } else if tag == 6 {
                    match dec_pin(b, j2) {
                        None => None,
                        Some((itype, q1)) => match dec_cmp(b, q1) {
                            None => None,
                            Some((comparison, q2)) => Some(
                                (OSRCNode::Comparator { itype, comparison }, q2),
                            ),
                        },
                    }
                } else if tag == 7 {
                    match dec_pin(b, j2) {
                        None => None,
                        Some((itype, q1)) => match dec_math(b, q1) {
                            None => None,
                            Some((operator, q2)) => Some(
                                (OSRCNode::MathOperation { itype, operator }, q2),
                            ),
                        },
                    }
                } else if tag == 8 {
                    match dec_pin(b, j2) {
                        None => None,
                        Some((itype, q1)) => match dec_usize(b, q1) {
                            None => None,
                            Some((input_bits, q2)) => Some(
                                (OSRCNode::Multiplexer { itype, input_bits }, q2),
                            ),
                        },
                    }
                } else if tag == 9 {
                    match dec_usize(b, j2) {
                        None => None,
                        Some((num_bits, q1)) => Some((OSRCNode::BitwiseSplit { num_bits }, q1)),
                    }
                } else if tag == 10 {
                    match dec_usize(b, j2) {
                        None => None,
                        Some((num_bits, q1)) => Some((OSRCNode::BitwiseJoin { num_bits }, q1)),
                    }
                } else if tag == 11 {
                    match dec_usize(b, j2) {
                        None => None,
                        Some((cycles, q1)) => match dec_bool(b, q1) {
                            None => None,
                            Some((rising_edge, q2)) => match dec_bool(b, q2) {
                                None => None,
                                Some((falling_edge, q3)) => Some(
                                    (
                                        OSRCNode::EdgeDelay { cycles, rising_edge, falling_edge },
                                        q3,
                                    ),
                                ),
                            },
                        },
                    }
                } else if tag == 12 {
                    match dec_usize(b, j2) {
                        None => None,
                        Some((cycles, q1)) => match dec_pin(b, q1) {
                            None => None,
                            Some((itype, q2)) => Some((OSRCNode::CycleDelay { cycles, itype }, q2)),
                        },
                    }
                } else if tag == 13 {
                    dec_node_converter(b, j2)
                } else if tag == 14 {
                    dec_node_serial_device(b, j2)
                } else if tag == 15 {
                    dec_node_serial_rw(b, j2, false)
                } else if tag == 16 {
                    dec_node_serial_rw(b, j2, true)
                } else if tag == 17 {
                    match dec_str(b, j2) {
                        None => None,
                        Some((name, q1)) => Some((OSRCNode::GlobalVariableInput { name }, q1)),
                    }
                } else if tag == 18 {
                    match dec_str(b, j2) {
                        None => None,
                        Some((name, q1)) => Some((OSRCNode::GlobalVariableOutput { name }, q1)),
                    }
                } else if tag == 19 {
                    Some((OSRCNode::Invalid, j2))
                } else {
                    if plen <= (n - j2) as u64 {
                        proof {
                            assert(b@.skip(j2 as int).skip(plen as int) =~= b@.skip(
                                j2 + plen as usize,
                            ));
                        }
                        Some((OSRCNode::Invalid, j2 + plen as usize))
                    } else {
                        None
                    }
                }
            },
        },
    }
}

/// Reads a connection.
fn dec_conn(b: &Vec<u8>, i: usize) -> (r: Option<(Connection, usize)>)
    requires
        i <= b@.len(),
    ensures
        match r {
            Some(p) => i <= p.1 <= b@.len() && spec_dec_conn(b@.skip(i as int)) == Some(
                (p.0, b@.skip(p.1 as int)),
            ),
            None => spec_dec_conn(b@.skip(i as int)) is None,
        },
{
    match dec_u64(b, i) {
        None => None,
        Some((from_node, j1)) => match dec_usize(b, j1) {
            None => None,
            Some((from_pin, j2)) => match dec_u64(b, j2) {
                None => None,
                Some((to_node, j3)) => match dec_usize(b, j3) {
                    None => None,
                    Some((to_pin, j4)) => Some(
                        (Connection { from_node, from_pin, to_node, to_pin }, j4),
                    ),
                },
            },
        },
    }
}

/// Reads a node instance.
fn dec_inst(b: &Vec<u8>, i: usize) -> (r: Option<(NodeInstance, usize)>)
    requires
        i <= b@.len(),
    ensures
        match r {
            Some(p) => i <= p.1 <= b@.len() && spec_dec_inst(b@.skip(i as int)) == Some(
                (p.0@, b@.skip(p.1 as int)),
            ),
            None => spec_dec_inst(b@.skip(i as int)) is None,
        },
{
    match dec_u64(b, i) {
        None => None,
        Some((id, j1)) => match dec_u32(b, j1) {
            None => None,
            Some((pos_x, j2)) => match dec_u32(b, j2) {
                None => None,
                Some((pos_y, j3)) => match dec_node(b, j3) {
                    None => None,
                    Some((kind, j4)) => Some((NodeInstance { id, pos_x, pos_y, kind }, j4)),
                },
            },
        },
    }
}

/// The views of a run of node instances.
pub open spec fn insts_view(v: Seq<NodeInstance>) -> Seq<NodeInstanceV> {
    v.map_values(|x: NodeInstance| x@)
}

/// The views of a run of global variables.
pub open spec fn gvars_view(v: Seq<GlobalVariable>) -> Seq<GlobalVariableV> {
    v.map_values(|x: GlobalVariable| x@)
}

/// The views of a run of networks.
pub open spec fn networks_view(v: Seq<Network>) -> Seq<NetworkV> {
    v.map_values(|x: Network| x@)
}

/// Reads `n` node instances.
fn dec_insts(b: &Vec<u8>, i: usize, n: u64) -> (r: Option<(Vec<NodeInstance>, usize)>)
    requires
        i <= b@.len(),
    ensures
        match r {
            Some(p) => i <= p.1 <= b@.len() && spec_dec_insts(b@.skip(i as int), n) == Some(
                (insts_view(p.0@), b@.skip(p.1 as int)),
            ),
            None => spec_dec_insts(b@.skip(i as int), n) is None,
        },
{
    let mut acc: Vec<NodeInstance> = Vec::new();
    let mut cur: usize = i;
    let mut k: u64 = 0;
    proof {
        assert(insts_view(acc@) =~= Seq::<NodeInstanceV>::empty());
    }
    while k < n
        invariant
            i <= cur <= b@.len(),
            0 <= k <= n,
            spec_dec_insts(b@.skip(i as int), n) == (match spec_dec_insts(
                b@.skip(cur as int),
                (n - k) as u64,
            ) {
                Some(q) => Some((insts_view(acc@) + q.0, q.1)),
                None => None::<(Seq<NodeInstanceV>, Seq<u8>)>,
            }),
        decreases n - k,
    {
        match dec_inst(b, cur) {
            None => {
                return None;
            },
            Some((x, j2)) => {
                proof {
                    assert(insts_view(acc@.push(x)) =~= insts_view(acc@).push(x@));
                    if spec_dec_insts(b@.skip(j2 as int), (n - k - 1) as u64) is Some {
                        let q = spec_dec_insts(b@.skip(j2 as int), (n - k - 1) as u64)->Some_0;
                        assert(insts_view(acc@) + (seq![x@] + q.0) =~= insts_view(acc@).push(x@)
                            + q.0);
                    }
                }
                acc.push(x);
                cur = j2;
                k = k + 1;
            },
        }
    }
    proof {
        assert(insts_view(acc@) + Seq::<NodeInstanceV>::empty() =~= insts_view(acc@));
    }
    Some((acc, cur))
}

/// Reads `n` connections.
fn dec_conns(b: &Vec<u8>, i: usize, n: u64) -> (r: Option<(Vec<Connection>, usize)>)
    requires
        i <= b@.len(),
    ensures
        match r {
            Some(p) => i <= p.1 <= b@.len() && spec_dec_conns(b@.skip(i as int), n) == Some(
                (p.0@, b@.skip(p.1 as int)),
            ),
            None => spec_dec_conns(b@.skip(i as int), n) is None,
        },
{
    let mut acc: Vec<Connection> = Vec::new();
    let mut cur: usize = i;
    let mut k: u64 = 0;
    while k < n
        invariant
            i <= cur <= b@.len(),
            0 <= k <= n,
            spec_dec_conns(b@.skip(i as int), n) == (match spec_dec_conns(
                b@.skip(cur as int),
                (n - k) as u64,
            ) {
                Some(q) => Some((acc@ + q.0, q.1)),
                None => None::<(Seq<Connection>, Seq<u8>)>,
            }),
        decreases n - k,
    {
        match dec_conn(b, cur) {
            None => {
                return None;
            },
            Some((x, j2)) => {
                proof {
                    if spec_dec_conns(b@.skip(j2 as int), (n - k - 1) as u64) is Some {
                        let q = spec_dec_conns(b@.skip(j2 as int), (n - k - 1) as u64)->Some_0;
                        assert(acc@ + (seq![x] + q.0) =~= acc@.push(x) + q.0);
                    }
                }
                acc.push(x);
                cur = j2;
                k = k + 1;
            },
        }
    }
    proof {
        assert(acc@ + Seq::<Connection>::empty() =~= acc@);
    }
    Some((acc, cur))
}

/// Reads a graph.
fn dec_graph(b: &Vec<u8>, i: usize) -> (r: Option<(Graph, usize)>)
    requires
        i <= b@.len(),
    ensures
        match r {
            Some(p) => i <= p.1 <= b@.len() && spec_dec_graph(b@.skip(i as int)) == Some(
                (p.0@, b@.skip(p.1 as int)),
            ),
            None => spec_dec_graph(b@.skip(i as int)) is None,
        },
{
    match dec_u64(b, i) {
        None => None,
        Some((next_id, j1)) => match dec_u64(b, j1) {
            None => None,
            Some((ncount, j2)) => match dec_insts(b, j2, ncount) {
                None => None,
                Some((nodes, j3)) => match dec_u64(b, j3) {
                    None => None,
                    Some((ccount, j4)) => match dec_conns(b, j4, ccount) {
                        None => None,
                        Some((conns, j5)) => {
                            let g = Graph { next_id, nodes, conns };
                            proof {
                                assert(g@.nodes =~= insts_view(g.nodes@));
                            }
                            Some((g, j5))
                        },
                    },
                },
            },
        },
    }
}

/// Reads a global variable.
fn dec_gvar(b: &Vec<u8>, i: usize) -> (r: Option<(GlobalVariable, usize)>)
    requires
        i <= b@.len(),
    ensures
        match r {
            Some(p) => i <= p.1 <= b@.len() && spec_dec_gvar(b@.skip(i as int)) == Some(
                (p.0@, b@.skip(p.1 as int)),
            ),
            None => spec_dec_gvar(b@.skip(i as int)) is None,
        },
{
    match dec_str(b, i) {
        None => None,
        Some((name, j1)) => match dec_pin(b, j1) {
            None => None,
            Some((pin_type, j2)) => Some((GlobalVariable { name, pin_type }, j2)),
        },
    }
}

/// Reads `n` global variables.
fn dec_gvars(b: &Vec<u8>, i: usize, n: u64) -> (r: Option<(Vec<GlobalVariable>, usize)>)
    requires
        i <= b@.len(),
    ensures
        match r {
            Some(p) => i <= p.1 <= b@.len() && spec_dec_gvars(b@.skip(i as int), n) == Some(
                (gvars_view(p.0@), b@.skip(p.1 as int)),
            ),
            None => spec_dec_gvars(b@.skip(i as int), n) is None,
        },
{
    let mut acc: Vec<GlobalVariable> = Vec::new();
    let mut cur: usize = i;
    let mut k: u64 = 0;
    proof {
        assert(gvars_view(acc@) =~= Seq::<GlobalVariableV>::empty());
    }
    while k < n
        invariant
            i <= cur <= b@.len(),
            0 <= k <= n,
            spec_dec_gvars(b@.skip(i as int), n) == (match spec_dec_gvars(
                b@.skip(cur as int),
                (n - k) as u64,
            ) {
                Some(q) => Some((gvars_view(acc@) + q.0, q.1)),
                None => None::<(Seq<GlobalVariableV>, Seq<u8>)>,
            }),
        decreases n - k,
    {
        match dec_gvar(b, cur) {
            None => {
                return None;
            },
            Some((x, j2)) => {
                proof {
                    assert(gvars_view(acc@.push(x)) =~= gvars_view(acc@).push(x@));
                    if spec_dec_gvars(b@.skip(j2 as int), (n - k - 1) as u64) is Some {
                        let q = spec_dec_gvars(b@.skip(j2 as int), (n - k - 1) as u64)->Some_0;
                        assert(gvars_view(acc@) + (seq![x@] + q.0) =~= gvars_view(acc@).push(x@)
                            + q.0);
                    }
                }
                acc.push(x);
                cur = j2;
                k = k + 1;
            },
        }
    }
    proof {
        assert(gvars_view(acc@) + Seq::<GlobalVariableV>::empty() =~= gvars_view(acc@));
    }
    Some((acc, cur))
}

/// Reads a network.
fn dec_network(b: &Vec<u8>, i: usize) -> (r: Option<(Network, usize)>)
    requires
        i <= b@.len(),
    ensures
        match r {
            Some(p) => i <= p.1 <= b@.len() && spec_dec_network(b@.skip(i as int)) == Some(
                (p.0@, b@.skip(p.1 as int)),
            ),
            None => spec_dec_network(b@.skip(i as int)) is None,
        },
{
    match dec_str(b, i) {
        None => None,
        Some((name, j1)) => match dec_bool(b, j1) {
            None => None,
            Some((enabled, j2)) => match dec_nettype(b, j2) {
                None => None,
                Some((net_type, j3)) => match dec_u32(b, j3) {
                    None => None,
                    Some((timeout, j4)) => match dec_u32(b, j4) {
                        None => None,
                        Some((update_cycle_trigger_count, j5)) => match dec_u32(b, j5) {
                            None => None,
                            Some((execution_index, j6)) => match dec_graph(b, j6) {
                                None => None,
                                Some((nodes, j7)) => Some(
                                    (
                                        Network {
                                            name,
                                            enabled,
                                            net_type,
                                            timeout,
                                            update_cycle_trigger_count,
                                            execution_index,
                                            nodes,
                                        },
                                        j7,
                                    ),
                                ),
                            },
                        },
                    },
                },
            },
        },
    }
}

/// Reads `n` networks.
fn dec_networks(b: &Vec<u8>, i: usize, n: u64) -> (r: Option<(Vec<Network>, usize)>)
    requires
        i <= b@.len(),
    ensures
        match r {
            Some(p) => i <= p.1 <= b@.len() && spec_dec_networks(b@.skip(i as int), n) == Some(
                (networks_view(p.0@), b@.skip(p.1 as int)),
            ),
            None => spec_dec_networks(b@.skip(i as int), n) is None,
        },
{
    let mut acc: Vec<Network> = Vec::new();
    let mut cur: usize = i;
    let mut k: u64 = 0;
    proof {
        assert(networks_view(acc@) =~= Seq::<NetworkV>::empty());
    }
    while k < n
        invariant
            i <= cur <= b@.len(),
            0 <= k <= n,
            spec_dec_networks(b@.skip(i as int), n) == (match spec_dec_networks(
                b@.skip(cur as int),
                (n - k) as u64,
            ) {
                Some(q) => Some((networks_view(acc@) + q.0, q.1)),
                None => None::<(Seq<NetworkV>, Seq<u8>)>,
            }),
        decreases n - k,
    {
        match dec_network(b, cur) {
            None => {
                return None;
            },
            Some((x, j2)) => {
                proof {
                    assert(networks_view(acc@.push(x)) =~= networks_view(acc@).push(x@));
                    if spec_dec_networks(b@.skip(j2 as int), (n - k - 1) as u64) is Some {
                        let q = spec_dec_networks(b@.skip(j2 as int), (n - k - 1) as u64)->Some_0;
                        assert(networks_view(acc@) + (seq![x@] + q.0) =~= networks_view(
                            acc@,
                        ).push(x@) + q.0);
                    }
                }
                acc.push(x);
                cur = j2;
                k = k + 1;
            },
        }
    }
    proof {
        assert(networks_view(acc@) + Seq::<NetworkV>::empty() =~= networks_view(acc@));
    }
    Some((acc, cur))
}

/// Reads the file metadata.
fn dec_info(b: &Vec<u8>, i: usize) -> (r: Option<(FileInfo, usize)>)
    requires
        i <= b@.len(),
    ensures
        match r {
            Some(p) => i <= p.1 <= b@.len() && spec_dec_info(b@.skip(i as int)) == Some(
                (p.0@, b@.skip(p.1 as int)),
            ),
            None => spec_dec_info(b@.skip(i as int)) is None,
        },
{
    match dec_i32(b, i) {
        None => None,
        Some((year, j1)) => match dec_u8(b, j1) {
            None => None,
            Some((month, j2)) => match dec_u8(b, j2) {
                None => None,
                Some((day, j3)) => match dec_u8(b, j3) {
                    None => None,
                    Some((hour, j4)) => match dec_u8(b, j4) {
                        None => None,
                        Some((minute, j5)) => match dec_u8(b, j5) {
                            None => None,
                            Some((second, j6)) => match dec_str(b, j6) {
                                None => None,
                                Some((fpga_config, j7)) => match dec_bool(b, j7) {
                                    None => None,
                                    Some((write_protected, j8)) => Some(
                                        (
                                            FileInfo {
                                                date: Date { year, month, day },
                                                time: Time { hour, minute, second },
                                                fpga_config,
                                                write_protected,
                                            },
                                            j8,
                                        ),
                                    ),
                                },
                            },
                        },
                    },
                },
            },
        },
    }
}

/// Decodes a document into a program. Succeeds on exactly the
/// well-formed documents; a malformed document is refused, and the
/// caller keeps whatever program it had.
pub fn decode(b: &Vec<u8>) -> (r: Option<FPGAProgram>)
    ensures
        match spec_dec_program(b@) {
            Some(q) => r matches Some(p) && p@ == q.0,
            None => r is None,
        },
{
    proof {
        assert(b@.skip(0) =~= b@);
    }
    match dec_u64(b, 0) {
        None => None,
        Some((version, j0)) => {
            if version != 1 {
                return None;
            }
            match dec_info(b, j0) {
                None => None,
                Some((info, j1)) => match dec_u64(b, j1) {
                    None => None,
                    Some((gcount, j2)) => match dec_gvars(b, j2, gcount) {
                        None => None,
                        Some((set_node_vars, j3)) => match dec_u64(b, j3) {
                            None => None,
                            Some((ncount, j4)) => match dec_networks(b, j4, ncount) {
                                None => None,
                                Some((networks, j5)) => {
                                    let p = FPGAProgram { info, set_node_vars, networks };
                                    proof {
                                        assert(p@.set_node_vars =~= gvars_view(p.set_node_vars@));
                                        assert(p@.networks =~= networks_view(p.networks@));
                                    }
                                    Some(p)
                                },
                            },
                        },
                    },
                },
            }
        },
    }
}

} // verus!
