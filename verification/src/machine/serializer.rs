use vstd::prelude::*;

use vstd::utf8::{decode_utf8, encode_utf8, valid_utf8};

use crate::io::protocol_v1::{i16_bits, u128_le, u16_le, u64_le};
use crate::io::protocol_v1::{
    read_bool, read_i16, read_string, read_u128, read_u16, read_u64, read_u8, write_bool,
    write_i16, write_string, write_u128, write_u16, write_u64, write_u8,
};
use crate::machine::memory::{
    Instruction, InstructionArg, PairModel, ValueModel, VmPair, VmValue, VmValueType,
    lemma_models_of, lemma_pair_models_of,
};
use crate::machine::opcode::OpCode;
use crate::machine::vm_state::VmState;

verus! {

/// The byte tag of an opcode, in declaration order.
pub open spec fn opcode_tag(op: OpCode) -> u8 {
    match op {
        OpCode::NoOp => 0u8,
        OpCode::Exit => 1u8,
        OpCode::PushValueU16 => 2u8,
        OpCode::PushTrue => 3u8,
        OpCode::PushFalse => 4u8,
        OpCode::PushNull => 5u8,
        OpCode::PushEmptyArray => 6u8,
        OpCode::PushEmptyObject => 7u8,
        OpCode::GetVariable => 8u8,
        OpCode::GetVariableOfType => 9u8,
        OpCode::Await => 10u8,
        OpCode::Abort => 11u8,
        OpCode::AbortAll => 12u8,
        OpCode::AwaitAny => 13u8,
        OpCode::AwaitAll => 14u8,
        OpCode::Call => 15u8,
        OpCode::CallNoArg => 16u8,
        OpCode::AppendArrayPush => 17u8,
        OpCode::AppendPropertyPush => 18u8,
        OpCode::Assign => 19u8,
        OpCode::Pop => 20u8,
        OpCode::Jump => 21u8,
        OpCode::JumpIfFalse => 22u8,
        OpCode::JumpIfTrue => 23u8,
        OpCode::JumpIterate => 24u8,
        OpCode::Swap2 => 25u8,
        OpCode::PrintToConsole => 26u8,
    }
}

/// The opcode of a byte tag; the inverse of [`opcode_tag`].
pub open spec fn opcode_of_tag(tag: u8) -> Option<OpCode> {
    if tag == 0 {
        Some(OpCode::NoOp)
    } else if tag == 1 {
        Some(OpCode::Exit)
    } else if tag == 2 {
        Some(OpCode::PushValueU16)
    } else if tag == 3 {
        Some(OpCode::PushTrue)
    } else if tag == 4 {
        Some(OpCode::PushFalse)
    } else if tag == 5 {
        Some(OpCode::PushNull)
    } else if tag == 6 {
        Some(OpCode::PushEmptyArray)
    } else if tag == 7 {
        Some(OpCode::PushEmptyObject)
    } else if tag == 8 {
        Some(OpCode::GetVariable)
    } else if tag == 9 {
        Some(OpCode::GetVariableOfType)
    } else if tag == 10 {
        Some(OpCode::Await)
    } else if tag == 11 {
        Some(OpCode::Abort)
    } else if tag == 12 {
        Some(OpCode::AbortAll)
    } else if tag == 13 {
        Some(OpCode::AwaitAny)
    } else if tag == 14 {
        Some(OpCode::AwaitAll)
    } else if tag == 15 {
        Some(OpCode::Call)
    } else if tag == 16 {
        Some(OpCode::CallNoArg)
    } else if tag == 17 {
        Some(OpCode::AppendArrayPush)
    } else if tag == 18 {
        Some(OpCode::AppendPropertyPush)
    } else if tag == 19 {
        Some(OpCode::Assign)
    } else if tag == 20 {
        Some(OpCode::Pop)
    } else if tag == 21 {
        Some(OpCode::Jump)
    } else if tag == 22 {
        Some(OpCode::JumpIfFalse)
    } else if tag == 23 {
        Some(OpCode::JumpIfTrue)
    } else if tag == 24 {
        Some(OpCode::JumpIterate)
    } else if tag == 25 {
        Some(OpCode::Swap2)
    } else if tag == 26 {
        Some(OpCode::PrintToConsole)
    } else {
        None
    }
}

/// The byte tag of a coarse value type.
pub open spec fn type_tag(t: VmValueType) -> u8 {
    match t {
        VmValueType::Null => 0u8,
        VmValueType::Array => 1u8,
        VmValueType::ArrayOfJobs => 2u8,
        VmValueType::Job => 3u8,
    }
}

/// The coarse value type of a byte tag; the inverse of [`type_tag`].
pub open spec fn type_of_tag(tag: u8) -> Option<VmValueType> {
    if tag == 0 {
        Some(VmValueType::Null)
    } else if tag == 1 {
        Some(VmValueType::Array)
    } else if tag == 2 {
        Some(VmValueType::ArrayOfJobs)
    } else if tag == 3 {
        Some(VmValueType::Job)
    } else {
        None
    }
}

/// The transport encoding of one value: a variant tag, then for a string its
/// length-prefixed UTF-8 bytes, for a number its eight raw bits bytes, for a
/// boolean one byte, for containers a count followed by the entries, and for
/// a job its sixteen handle bytes.
pub open spec fn encode_value(m: ValueModel) -> Seq<u8>
    decreases m, 1int,
{
    match m {
        ValueModel::Null => seq![0u8],
        ValueModel::String(s) => seq![1u8] + u64_le(encode_utf8(s).len() as u64) + encode_utf8(s),
        ValueModel::Number(bits) => seq![2u8] + u64_le(bits),
        ValueModel::Boolean(b) => seq![3u8] + seq![if b { 1u8 } else { 0u8 }],
        ValueModel::Array(es) => seq![4u8] + u64_le(es.len() as u64) + encode_values(es),
        ValueModel::Object(ps) => seq![5u8] + u64_le(ps.len() as u64) + encode_pairs(ps),
        ValueModel::Job(j) => seq![6u8] + u128_le(j),
    }
}

/// The concatenated encodings of a sequence of values.
pub open spec fn encode_values(es: Seq<ValueModel>) -> Seq<u8>
    decreases es, 0int,
{
    if es.len() == 0 {
        Seq::empty()
    } else {
        encode_value(es[0]) + encode_values(es.drop_first())
    }
}

/// The concatenated encodings of a sequence of properties: for each, the
/// length-prefixed UTF-8 key, then the value.
pub open spec fn encode_pairs(ps: Seq<PairModel>) -> Seq<u8>
    decreases ps, 0int,
{
    if ps.len() == 0 {
        Seq::empty()
    } else {
        u64_le(encode_utf8(ps[0].key).len() as u64) + encode_utf8(ps[0].key) + encode_value(
            ps[0].value,
        ) + encode_pairs(ps.drop_first())
    }
}

/// The transport encoding of one instruction: an opcode tag, an argument
/// kind tag, then the argument payload.
pub open spec fn encode_instruction(inst: Instruction) -> Seq<u8> {
    seq![opcode_tag(inst.opcode)] + match inst.arg {
        InstructionArg::Empty => seq![0u8],
        InstructionArg::Unsigned(u) => seq![1u8] + u16_le(u),
        InstructionArg::Signed(s) => seq![2u8] + u16_le(i16_bits(s)),
        InstructionArg::Type(t) => seq![3u8] + seq![type_tag(t)],
    }
}

/// The concatenated encodings of an instruction stream.
pub open spec fn encode_instructions(code: Seq<Instruction>) -> Seq<u8>
    decreases code.len(),
{
    if code.len() == 0 {
        Seq::empty()
    } else {
        encode_instruction(code[0]) + encode_instructions(code.drop_first())
    }
}

/// The transport encoding of a whole program: the counted value pool, the
/// counted instruction stream, then the instruction pointer.
pub open spec fn encode_program(pool: Seq<ValueModel>, code: Seq<Instruction>, ip: int) -> Seq<
    u8,
> {
    u64_le(pool.len() as u64) + encode_values(pool) + u64_le(code.len() as u64)
        + encode_instructions(code) + u64_le(ip as u64)
}

/// Bounds under which a value encodes faithfully: every container count and
/// string byte length fits the length prefix.
pub open spec fn value_wf(m: ValueModel) -> bool
    decreases m, 1int,
{
    match m {
        ValueModel::String(s) => encode_utf8(s).len() <= u64::MAX,
        ValueModel::Array(es) => es.len() <= u64::MAX && values_wf(es),
        ValueModel::Object(ps) => ps.len() <= u64::MAX && pairs_wf(ps),
        _ => true,
    }
}

/// [`value_wf`], elementwise.
pub open spec fn values_wf(es: Seq<ValueModel>) -> bool
    decreases es, 0int,
{
    forall|i: int| 0 <= i < es.len() ==> value_wf(#[trigger] es[i])
}

/// [`value_wf`] over properties: keys bounded, values well-formed.
pub open spec fn pairs_wf(ps: Seq<PairModel>) -> bool
    decreases ps, 0int,
{
    forall|i: int|
        0 <= i < ps.len() ==> encode_utf8((#[trigger] ps[i]).key).len() <= u64::MAX && value_wf(
            ps[i].value,
        )
}


/// The signed 16-bit integer of a two's-complement pattern; the inverse of
/// [`i16_bits`].
pub open spec fn i16_of_bits(b: u16) -> i16 {
    if b < 0x8000 {
        b as i16
    } else {
        (b - 0x1_0000) as i16
    }
}

/// Decode a little-endian 16-bit unsigned integer.
pub open spec fn decode_u16(bytes: Seq<u8>, pos: int) -> Option<u16> {
    if 0 <= pos && pos + 2 <= bytes.len() {
        Some((bytes[pos] + bytes[pos + 1] * 0x100) as u16)
    } else {
        None
    }
}

/// Decode a little-endian 64-bit unsigned integer.
pub open spec fn decode_u64(bytes: Seq<u8>, pos: int) -> Option<u64> {
    if 0 <= pos && pos + 8 <= bytes.len() {
        Some(
            (bytes[pos] + bytes[pos + 1] * 0x100 + bytes[pos + 2] * 0x1_0000 + bytes[pos + 3]
                * 0x100_0000 + bytes[pos + 4] * 0x1_0000_0000 + bytes[pos + 5] * 0x100_0000_0000
                + bytes[pos + 6] * 0x1_0000_0000_0000 + bytes[pos + 7]
                * 0x100_0000_0000_0000) as u64,
        )
    } else {
        None
    }
}

/// Decode a little-endian 128-bit unsigned integer.
pub open spec fn decode_u128(bytes: Seq<u8>, pos: int) -> Option<u128> {
    if 0 <= pos && pos + 16 <= bytes.len() {
        match (decode_u64(bytes, pos), decode_u64(bytes, pos + 8)) {
            (Some(lo), Some(hi)) => Some((lo + hi * 0x1_0000_0000_0000_0000) as u128),
            _ => None,
        }
    } else {
        None
    }
}

/// Decode one value at `pos`; the position after it is returned beside it.
pub open spec fn decode_value(bytes: Seq<u8>, pos: int) -> Option<(ValueModel, int)>
    decreases bytes.len() - pos, 0int,
{
    if pos < 0 || pos >= bytes.len() {
        None
    } else {
        let tag = bytes[pos];
        if tag == 0 {
            Some((ValueModel::Null, pos + 1))
        } else if tag == 1 {
            match decode_u64(bytes, pos + 1) {
                Some(n) => {
                    let start = pos + 9;
                    if start + n <= bytes.len() {
                        let bs = bytes.subrange(start, start + n);
                        if valid_utf8(bs) && encode_utf8(decode_utf8(bs)) == bs {
                            Some((ValueModel::String(decode_utf8(bs)), start + n))
                        } else {
                            None
                        }
                    } else {
                        None
                    }
                },
                None => None,
            }
        } else if tag == 2 {
            match decode_u64(bytes, pos + 1) {
                Some(v) => Some((ValueModel::Number(v), pos + 9)),
                None => None,
            }
        } else if tag == 3 {
            if pos + 2 <= bytes.len() {
                Some((ValueModel::Boolean(bytes[pos + 1] != 0), pos + 2))
            } else {
                None
            }
        } else if tag == 4 {
            match decode_u64(bytes, pos + 1) {
                Some(n) => match decode_values(bytes, pos + 9, n as int) {
                    Some((es, end)) => Some((ValueModel::Array(es), end)),
                    None => None,
                },
                None => None,
            }
        } else if tag == 5 {
            match decode_u64(bytes, pos + 1) {
                Some(n) => match decode_pairs(bytes, pos + 9, n as int) {
                    Some((ps, end)) => Some((ValueModel::Object(ps), end)),
                    None => None,
                },
                None => None,
            }
        } else if tag == 6 {
            match decode_u128(bytes, pos + 1) {
                Some(j) => Some((ValueModel::Job(j), pos + 17)),
                None => None,
            }
        } else {
            None
        }
    }
}

/// Decode `count` values in sequence.
pub open spec fn decode_values(bytes: Seq<u8>, pos: int, count: int) -> Option<
    (Seq<ValueModel>, int),
>
    decreases bytes.len() - pos, count,
{
    if count <= 0 {
        Some((Seq::empty(), pos))
    } else if pos < 0 || pos > bytes.len() {
        None
    } else {
        match decode_value(bytes, pos) {
            Some((m, next)) => {
                if next <= pos || next > bytes.len() {
                    None
                } else {
                    match decode_values(bytes, next, count - 1) {
                        Some((rest, end)) => Some((seq![m] + rest, end)),
                        None => None,
                    }
                }
            },
            None => None,
        }
    }
}

/// Decode `count` properties in sequence: each a length-prefixed UTF-8 key,
/// then a value.
pub open spec fn decode_pairs(bytes: Seq<u8>, pos: int, count: int) -> Option<
    (Seq<PairModel>, int),
>
    decreases bytes.len() - pos, count,
{
    if count <= 0 {
        Some((Seq::empty(), pos))
    } else if pos < 0 || pos > bytes.len() {
        None
    } else {
        match decode_u64(bytes, pos) {
            Some(klen) => {
                let kstart = pos + 8;
                if kstart + klen <= bytes.len() {
                    let ks = bytes.subrange(kstart, kstart + klen);
                    if valid_utf8(ks) && encode_utf8(decode_utf8(ks)) == ks {
                        match decode_value(bytes, kstart + klen) {
                            Some((m, next)) => {
                                if next <= pos || next > bytes.len() {
                                    None
                                } else {
                                    match decode_pairs(bytes, next, count - 1) {
                                        Some((rest, end)) => Some(
                                            (
                                                seq![
                                                    PairModel {
                                                        key: decode_utf8(ks),
                                                        value: m,
                                                    },
                                                ] + rest,
                                                end,
                                            ),
                                        ),
                                        None => None,
                                    }
                                }
                            },
                            None => None,
                        }
                    } else {
                        None
                    }
                } else {
                    None
                }
            },
            None => None,
        }
    }
}

/// Decode one instruction at `pos`.
pub open spec fn decode_instruction(bytes: Seq<u8>, pos: int) -> Option<(Instruction, int)> {
    if pos < 0 || pos + 2 > bytes.len() {
        None
    } else {
        match opcode_of_tag(bytes[pos]) {
            Some(opcode) => {
                let kind = bytes[pos + 1];
                if kind == 0 {
                    Some((Instruction { opcode, arg: InstructionArg::Empty }, pos + 2))
                } else if kind == 1 {
                    match decode_u16(bytes, pos + 2) {
                        Some(u) => Some(
                            (Instruction { opcode, arg: InstructionArg::Unsigned(u) }, pos + 4),
                        ),
                        None => None,
                    }
                } else if kind == 2 {
                    match decode_u16(bytes, pos + 2) {
                        Some(u) => Some(
                            (
                                Instruction {
                                    opcode,
                                    arg: InstructionArg::Signed(i16_of_bits(u)),
                                },
                                pos + 4,
                            ),
                        ),
                        None => None,
                    }
                } else if kind == 3 {
                    if pos + 3 <= bytes.len() {
                        match type_of_tag(bytes[pos + 2]) {
                            Some(t) => Some(
                                (Instruction { opcode, arg: InstructionArg::Type(t) }, pos + 3),
                            ),
                            None => None,
                        }
                    } else {
                        None
                    }
                } else {
                    None
                }
            },
            None => None,
        }
    }
}

/// Decode `count` instructions in sequence.
pub open spec fn decode_instructions(bytes: Seq<u8>, pos: int, count: int) -> Option<
    (Seq<Instruction>, int),
>
    decreases count,
{
    if count <= 0 {
        Some((Seq::empty(), pos))
    } else {
        match decode_instruction(bytes, pos) {
            Some((inst, next)) => match decode_instructions(bytes, next, count - 1) {
                Some((rest, end)) => Some((seq![inst] + rest, end)),
                None => None,
            },
            None => None,
        }
    }
}

/// Decode a whole program from exactly the given bytes.
pub open spec fn decode_program(bytes: Seq<u8>) -> Option<
    (Seq<ValueModel>, Seq<Instruction>, int),
> {
    match decode_u64(bytes, 0) {
        Some(n) => match decode_values(bytes, 8, n as int) {
            Some((pool, p1)) => match decode_u64(bytes, p1) {
                Some(k) => match decode_instructions(bytes, p1 + 8, k as int) {
                    Some((code, p2)) => match decode_u64(bytes, p2) {
                        Some(ip) => {
                            if p2 + 8 == bytes.len() && ip <= usize::MAX {
                                Some((pool, code, ip as int))
                            } else {
                                None
                            }
                        },
                        None => None,
                    },
                    None => None,
                },
                None => None,
            },
            None => None,
        },
        None => None,
    }
}

/// Bounds under which a whole program encodes faithfully.
pub open spec fn program_wf(pool: Seq<ValueModel>, code: Seq<Instruction>, ip: int) -> bool {
    &&& pool.len() <= u64::MAX
    &&& values_wf(pool)
    &&& code.len() <= u64::MAX
    &&& 0 <= ip <= usize::MAX
}



/// A subrange of `bytes` known to equal `enc` has `enc`'s subranges at the
/// shifted positions.
proof fn lemma_subrange_shift(bytes: Seq<u8>, pos: int, enc: Seq<u8>, a: int, b: int)
    requires
        0 <= pos,
        pos + enc.len() <= bytes.len(),
        bytes.subrange(pos, pos + enc.len() as int) == enc,
        0 <= a <= b <= enc.len(),
    ensures
        bytes.subrange(pos + a, pos + b) == enc.subrange(a, b),
{
    assert(bytes.subrange(pos + a, pos + b) =~= enc.subrange(a, b)) by {
        assert forall|k: int| 0 <= k < b - a implies bytes.subrange(pos + a, pos + b)[k]
            == enc.subrange(a, b)[k] by {
            assert(bytes.subrange(pos, pos + enc.len() as int)[a + k] == bytes[pos + (a + k)]);
            assert(bytes.subrange(pos + a, pos + b)[k] == bytes[pos + a + k]);
            assert(enc.subrange(a, b)[k] == enc[a + k]);
        }
    }
}

/// The pieces of a two-part concatenation, as subranges.
proof fn lemma_cat2(a: Seq<u8>, b: Seq<u8>)
    ensures
        (a + b).subrange(0, a.len() as int) == a,
        (a + b).subrange(a.len() as int, (a.len() + b.len()) as int) == b,
{
    let s = a + b;
    assert(s.subrange(0, a.len() as int) =~= a);
    assert(s.subrange(a.len() as int, (a.len() + b.len()) as int) =~= b);
}

/// The pieces of a three-part concatenation, as subranges.
proof fn lemma_cat3(a: Seq<u8>, b: Seq<u8>, c: Seq<u8>)
    ensures
        (a + b + c).subrange(0, a.len() as int) == a,
        (a + b + c).subrange(a.len() as int, (a.len() + b.len()) as int) == b,
        (a + b + c).subrange((a.len() + b.len()) as int, (a.len() + b.len() + c.len()) as int)
            == c,
{
    let s = a + b + c;
    assert(s.subrange(0, a.len() as int) =~= a);
    assert(s.subrange(a.len() as int, (a.len() + b.len()) as int) =~= b);
    assert(s.subrange((a.len() + b.len()) as int, (a.len() + b.len() + c.len()) as int) =~= c);
}

/// The pieces of a four-part concatenation, as subranges.
proof fn lemma_cat4(a: Seq<u8>, b: Seq<u8>, c: Seq<u8>, d: Seq<u8>)
    ensures
        (a + b + c + d).subrange(0, a.len() as int) == a,
        (a + b + c + d).subrange(a.len() as int, (a.len() + b.len()) as int) == b,
        (a + b + c + d).subrange(
            (a.len() + b.len()) as int,
            (a.len() + b.len() + c.len()) as int,
        ) == c,
        (a + b + c + d).subrange(
            (a.len() + b.len() + c.len()) as int,
            (a.len() + b.len() + c.len() + d.len()) as int,
        ) == d,
{
    let s = a + b + c + d;
    assert(s.subrange(0, a.len() as int) =~= a);
    assert(s.subrange(a.len() as int, (a.len() + b.len()) as int) =~= b);
    assert(s.subrange((a.len() + b.len()) as int, (a.len() + b.len() + c.len()) as int) =~= c);
    assert(s.subrange(
        (a.len() + b.len() + c.len()) as int,
        (a.len() + b.len() + c.len() + d.len()) as int,
    ) =~= d);
}

/// The pieces of a five-part concatenation, as subranges.
proof fn lemma_cat5(a: Seq<u8>, b: Seq<u8>, c: Seq<u8>, d: Seq<u8>, e: Seq<u8>)
    ensures
        (a + b + c + d + e).subrange(0, a.len() as int) == a,
        (a + b + c + d + e).subrange(a.len() as int, (a.len() + b.len()) as int) == b,
        (a + b + c + d + e).subrange(
            (a.len() + b.len()) as int,
            (a.len() + b.len() + c.len()) as int,
        ) == c,
        (a + b + c + d + e).subrange(
            (a.len() + b.len() + c.len()) as int,
            (a.len() + b.len() + c.len() + d.len()) as int,
        ) == d,
        (a + b + c + d + e).subrange(
            (a.len() + b.len() + c.len() + d.len()) as int,
            (a.len() + b.len() + c.len() + d.len() + e.len()) as int,
        ) == e,
{
    let s = a + b + c + d + e;
    assert(s.subrange(0, a.len() as int) =~= a);
    assert(s.subrange(a.len() as int, (a.len() + b.len()) as int) =~= b);
    assert(s.subrange((a.len() + b.len()) as int, (a.len() + b.len() + c.len()) as int) =~= c);
    assert(s.subrange(
        (a.len() + b.len() + c.len()) as int,
        (a.len() + b.len() + c.len() + d.len()) as int,
    ) =~= d);
    assert(s.subrange(
        (a.len() + b.len() + c.len() + d.len()) as int,
        (a.len() + b.len() + c.len() + d.len() + e.len()) as int,
    ) =~= e);
}

/// Every value encoding starts with its tag byte.
proof fn lemma_encode_value_min_len(m: ValueModel)
    ensures
        encode_value(m).len() >= 1,
{
    match m {
        ValueModel::Null => {},
        ValueModel::String(_) => {},
        ValueModel::Number(_) => {},
        ValueModel::Boolean(_) => {},
        ValueModel::Array(_) => {},
        ValueModel::Object(_) => {},
        ValueModel::Job(_) => {},
    }
}

/// Reading back little-endian bytes gives the written 16-bit integer.
proof fn lemma_decode_u16_le(bytes: Seq<u8>, pos: int, v: u16)
    requires
        0 <= pos,
        pos + 2 <= bytes.len(),
        bytes.subrange(pos, pos + 2) == u16_le(v),
    ensures
        decode_u16(bytes, pos) == Some(v),
{
    assert(bytes[pos] == u16_le(v)[0] && bytes[pos + 1] == u16_le(v)[1]) by {
        assert(bytes.subrange(pos, pos + 2)[0] == bytes[pos]);
        assert(bytes.subrange(pos, pos + 2)[1] == bytes[pos + 1]);
    }
    let b0 = (v & 0xff) as u8;
    let b1 = ((v >> 8) & 0xff) as u8;
    assert((b0 as u16) + (b1 as u16) * 0x100 == v) by (bit_vector)
        requires
            b0 == (v & 0xff) as u8 && b1 == ((v >> 8) & 0xff) as u8,
    ;
}

/// Reading back little-endian bytes gives the written 64-bit integer.
proof fn lemma_decode_u64_le(bytes: Seq<u8>, pos: int, v: u64)
    requires
        0 <= pos,
        pos + 8 <= bytes.len(),
        bytes.subrange(pos, pos + 8) == u64_le(v),
    ensures
        decode_u64(bytes, pos) == Some(v),
{
    assert forall|i: int| 0 <= i < 8 implies bytes[pos + i] == u64_le(v)[i] by {
        assert(bytes.subrange(pos, pos + 8)[i] == bytes[pos + i]);
    }
    let b0 = (v & 0xff) as u8;
    let b1 = ((v >> 8) & 0xff) as u8;
    let b2 = ((v >> 16) & 0xff) as u8;
    let b3 = ((v >> 24) & 0xff) as u8;
    let b4 = ((v >> 32) & 0xff) as u8;
    let b5 = ((v >> 40) & 0xff) as u8;
    let b6 = ((v >> 48) & 0xff) as u8;
    let b7 = ((v >> 56) & 0xff) as u8;
    assert((b0 as u64) + (b1 as u64) * 0x100 + (b2 as u64) * 0x1_0000 + (b3 as u64) * 0x100_0000
        + (b4 as u64) * 0x1_0000_0000 + (b5 as u64) * 0x100_0000_0000 + (b6 as u64)
        * 0x1_0000_0000_0000 + (b7 as u64) * 0x100_0000_0000_0000 == v) by (bit_vector)
        requires
            b0 == (v & 0xff) as u8 && b1 == ((v >> 8) & 0xff) as u8 && b2 == ((v >> 16)
                & 0xff) as u8 && b3 == ((v >> 24) & 0xff) as u8 && b4 == ((v >> 32) & 0xff) as u8
                && b5 == ((v >> 40) & 0xff) as u8 && b6 == ((v >> 48) & 0xff) as u8 && b7 == ((v
                >> 56) & 0xff) as u8,
    ;
}

/// Reading back little-endian bytes gives the written 128-bit integer.
proof fn lemma_decode_u128_le(bytes: Seq<u8>, pos: int, v: u128)
    requires
        0 <= pos,
        pos + 16 <= bytes.len(),
        bytes.subrange(pos, pos + 16) == u128_le(v),
    ensures
        decode_u128(bytes, pos) == Some(v),
{
    let lo = (v & 0xffff_ffff_ffff_ffff) as u64;
    let hi = (v >> 64) as u64;
    assert(bytes.subrange(pos, pos + 8) =~= u64_le(lo)) by {
        assert forall|i: int| 0 <= i < 8 implies bytes[pos + i] == u64_le(lo)[i] by {
            assert(bytes.subrange(pos, pos + 16)[i] == bytes[pos + i]);
            assert(u128_le(v)[i] == u64_le(lo)[i]);
        }
    }
    assert(bytes.subrange(pos + 8, pos + 16) =~= u64_le(hi)) by {
        assert forall|i: int| 0 <= i < 8 implies bytes[pos + 8 + i] == u64_le(hi)[i] by {
            assert(bytes.subrange(pos, pos + 16)[8 + i] == bytes[pos + 8 + i]);
            assert(u128_le(v)[8 + i] == u64_le(hi)[i]);
        }
    }
    lemma_decode_u64_le(bytes, pos, lo);
    lemma_decode_u64_le(bytes, pos + 8, hi);
    assert((lo as u128) + (hi as u128) * 0x1_0000_0000_0000_0000 == v) by (bit_vector)
        requires
            lo == (v & 0xffff_ffff_ffff_ffff) as u64 && hi == (v >> 64) as u64,
    ;
}

/// Decoding the encoding of one well-formed value gives the value back and
/// stops right after it.
proof fn lemma_decode_value_encode(bytes: Seq<u8>, pos: int, m: ValueModel)
    requires
        value_wf(m),
        0 <= pos,
        pos + encode_value(m).len() <= bytes.len(),
        bytes.subrange(pos, pos + encode_value(m).len() as int) == encode_value(m),
    ensures
        decode_value(bytes, pos) == Some((m, pos + encode_value(m).len())),
    decreases m, 1int,
{
    let enc = encode_value(m);
    assert(bytes[pos] == enc[0]) by {
        assert(bytes.subrange(pos, pos + enc.len() as int)[0] == bytes[pos]);
    }
    match m {
        ValueModel::Null => {},
        ValueModel::String(str_chars) => {
            let eu = encode_utf8(str_chars);
            let n = eu.len() as u64;
            lemma_cat3(seq![1u8], u64_le(n), eu);
            lemma_subrange_shift(bytes, pos, enc, 1, 9);
            lemma_decode_u64_le(bytes, pos + 1, n);
            lemma_subrange_shift(bytes, pos, enc, 9, 9 + eu.len() as int);
            vstd::utf8::encode_utf8_valid_utf8(str_chars);
            vstd::utf8::encode_utf8_decode_utf8(str_chars);
        },
        ValueModel::Number(bits) => {
            lemma_cat2(seq![2u8], u64_le(bits));
            lemma_subrange_shift(bytes, pos, enc, 1, 9);
            lemma_decode_u64_le(bytes, pos + 1, bits);
        },
        ValueModel::Boolean(b) => {
            assert(bytes[pos + 1] == enc[1]) by {
                assert(bytes.subrange(pos, pos + enc.len() as int)[1] == bytes[pos + 1]);
            }
        },
        ValueModel::Array(es) => {
            let n = es.len() as u64;
            let ev = encode_values(es);
            lemma_cat3(seq![4u8], u64_le(n), ev);
            lemma_subrange_shift(bytes, pos, enc, 1, 9);
            lemma_decode_u64_le(bytes, pos + 1, n);
            lemma_subrange_shift(bytes, pos, enc, 9, 9 + ev.len() as int);
            lemma_decode_values_encode(bytes, pos + 9, es);
        },
        ValueModel::Object(ps) => {
            let n = ps.len() as u64;
            let ep = encode_pairs(ps);
            lemma_cat3(seq![5u8], u64_le(n), ep);
            lemma_subrange_shift(bytes, pos, enc, 1, 9);
            lemma_decode_u64_le(bytes, pos + 1, n);
            lemma_subrange_shift(bytes, pos, enc, 9, 9 + ep.len() as int);
            lemma_decode_pairs_encode(bytes, pos + 9, ps);
        },
        ValueModel::Job(j) => {
            lemma_cat2(seq![6u8], u128_le(j));
            lemma_subrange_shift(bytes, pos, enc, 1, 17);
            lemma_decode_u128_le(bytes, pos + 1, j);
        },
    }
}

/// Decoding the encodings of a well-formed value sequence gives it back.
proof fn lemma_decode_values_encode(bytes: Seq<u8>, pos: int, es: Seq<ValueModel>)
    requires
        values_wf(es),
        0 <= pos,
        pos + encode_values(es).len() <= bytes.len(),
        bytes.subrange(pos, pos + encode_values(es).len() as int) == encode_values(es),
    ensures
        decode_values(bytes, pos, es.len() as int) == Some((es, pos + encode_values(es).len())),
    decreases es, 0int,
{
    if es.len() == 0 {
        assert(es =~= Seq::<ValueModel>::empty());
    } else {
        let enc = encode_values(es);
        let head = encode_value(es[0]);
        let tail = encode_values(es.drop_first());
        lemma_cat2(head, tail);
        lemma_subrange_shift(bytes, pos, enc, 0, head.len() as int);
        lemma_decode_value_encode(bytes, pos, es[0]);
        lemma_encode_value_min_len(es[0]);
        lemma_subrange_shift(bytes, pos, enc, head.len() as int, enc.len() as int);
        lemma_decode_values_encode(bytes, pos + head.len() as int, es.drop_first());
        assert(seq![es[0]] + es.drop_first() =~= es);
    }
}

/// Decoding the encodings of a well-formed property sequence gives it back.
proof fn lemma_decode_pairs_encode(bytes: Seq<u8>, pos: int, ps: Seq<PairModel>)
    requires
        pairs_wf(ps),
        0 <= pos,
        pos + encode_pairs(ps).len() <= bytes.len(),
        bytes.subrange(pos, pos + encode_pairs(ps).len() as int) == encode_pairs(ps),
    ensures
        decode_pairs(bytes, pos, ps.len() as int) == Some((ps, pos + encode_pairs(ps).len())),
    decreases ps, 0int,
{
    if ps.len() == 0 {
        assert(ps =~= Seq::<PairModel>::empty());
    } else {
        let enc = encode_pairs(ps);
        let ek = encode_utf8(ps[0].key);
        let n = ek.len() as u64;
        let ev = encode_value(ps[0].value);
        let tail = encode_pairs(ps.drop_first());
        lemma_cat4(u64_le(n), ek, ev, tail);
        lemma_subrange_shift(bytes, pos, enc, 0, 8);
        lemma_decode_u64_le(bytes, pos, n);
        let kstart = pos + 8;
        lemma_subrange_shift(bytes, pos, enc, 8, 8 + ek.len() as int);
        vstd::utf8::encode_utf8_valid_utf8(ps[0].key);
        vstd::utf8::encode_utf8_decode_utf8(ps[0].key);
        let vstart = kstart + ek.len() as int;
        lemma_subrange_shift(
            bytes,
            pos,
            enc,
            8 + ek.len() as int,
            8 + ek.len() + ev.len() as int,
        );
        lemma_decode_value_encode(bytes, vstart, ps[0].value);
        lemma_encode_value_min_len(ps[0].value);
        let tstart = vstart + ev.len() as int;
        lemma_subrange_shift(bytes, pos, enc, 8 + ek.len() + ev.len() as int, enc.len() as int);
        lemma_decode_pairs_encode(bytes, tstart, ps.drop_first());
        assert(seq![PairModel { key: ps[0].key, value: ps[0].value }] + ps.drop_first() =~= ps);
    }
}

/// The opcode tag mapping is invertible.
proof fn lemma_opcode_tag(op: OpCode)
    ensures
        opcode_of_tag(opcode_tag(op)) == Some(op),
{
}

/// The two's-complement pattern mapping is invertible.
proof fn lemma_i16_bits(v: i16)
    ensures
        i16_of_bits(i16_bits(v)) == v,
{
}

/// Decoding the encoding of one instruction gives it back.
proof fn lemma_decode_instruction_encode(bytes: Seq<u8>, pos: int, inst: Instruction)
    requires
        0 <= pos,
        pos + encode_instruction(inst).len() <= bytes.len(),
        bytes.subrange(pos, pos + encode_instruction(inst).len() as int) == encode_instruction(
            inst,
        ),
    ensures
        decode_instruction(bytes, pos) == Some((inst, pos + encode_instruction(inst).len())),
{
    let enc = encode_instruction(inst);
    lemma_opcode_tag(inst.opcode);
    assert(bytes[pos] == enc[0] && bytes[pos + 1] == enc[1]) by {
        assert(bytes.subrange(pos, pos + enc.len() as int)[0] == bytes[pos]);
        assert(bytes.subrange(pos, pos + enc.len() as int)[1] == bytes[pos + 1]);
    }
    match inst.arg {
        InstructionArg::Empty => {},
        InstructionArg::Unsigned(u) => {
            assert(enc.subrange(2, 4) =~= u16_le(u));
            lemma_subrange_shift(bytes, pos, enc, 2, 4);
            lemma_decode_u16_le(bytes, pos + 2, u);
        },
        InstructionArg::Signed(v) => {
            assert(enc.subrange(2, 4) =~= u16_le(i16_bits(v)));
            lemma_subrange_shift(bytes, pos, enc, 2, 4);
            lemma_decode_u16_le(bytes, pos + 2, i16_bits(v));
            lemma_i16_bits(v);
        },
        InstructionArg::Type(t) => {
            assert(bytes[pos + 2] == enc[2]) by {
                assert(bytes.subrange(pos, pos + enc.len() as int)[2] == bytes[pos + 2]);
            }
        },
    }
}

/// Decoding the encodings of an instruction stream gives it back.
proof fn lemma_decode_instructions_encode(bytes: Seq<u8>, pos: int, code: Seq<Instruction>)
    requires
        0 <= pos,
        pos + encode_instructions(code).len() <= bytes.len(),
        bytes.subrange(pos, pos + encode_instructions(code).len() as int) == encode_instructions(
            code,
        ),
    ensures
        decode_instructions(bytes, pos, code.len() as int) == Some(
            (code, pos + encode_instructions(code).len()),
        ),
    decreases code.len(),
{
    if code.len() == 0 {
        assert(code =~= Seq::<Instruction>::empty());
    } else {
        let enc = encode_instructions(code);
        let head = encode_instruction(code[0]);
        let tail = encode_instructions(code.drop_first());
        lemma_cat2(head, tail);
        lemma_subrange_shift(bytes, pos, enc, 0, head.len() as int);
        lemma_decode_instruction_encode(bytes, pos, code[0]);
        lemma_subrange_shift(bytes, pos, enc, head.len() as int, enc.len() as int);
        lemma_decode_instructions_encode(bytes, pos + head.len() as int, code.drop_first());
        assert(seq![code[0]] + code.drop_first() =~= code);
    }
}

/// Decoding the encoding of a well-formed program reproduces an equal value
/// pool, instruction stream and instruction pointer.
pub proof fn lemma_program_roundtrip(pool: Seq<ValueModel>, code: Seq<Instruction>, ip: int)
    requires
        program_wf(pool, code, ip),
    ensures
        decode_program(encode_program(pool, code, ip)) == Some((pool, code, ip)),
{
    let bytes = encode_program(pool, code, ip);
    let ev = encode_values(pool);
    let ec = encode_instructions(code);
    lemma_cat5(u64_le(pool.len() as u64), ev, u64_le(code.len() as u64), ec, u64_le(ip as u64));
    assert(bytes.subrange(0, bytes.len() as int) =~= bytes);
    lemma_subrange_shift(bytes, 0, bytes, 0, 8);
    lemma_decode_u64_le(bytes, 0, pool.len() as u64);
    lemma_subrange_shift(bytes, 0, bytes, 8, 8 + ev.len() as int);
    lemma_decode_values_encode(bytes, 8, pool);
    let p1 = 8 + ev.len() as int;
    lemma_subrange_shift(bytes, 0, bytes, p1, p1 + 8);
    lemma_decode_u64_le(bytes, p1, code.len() as u64);
    lemma_subrange_shift(bytes, 0, bytes, p1 + 8, p1 + 8 + ec.len() as int);
    lemma_decode_instructions_encode(bytes, p1 + 8, code);
    let p2 = p1 + 8 + ec.len() as int;
    lemma_subrange_shift(bytes, 0, bytes, p2, p2 + 8);
    lemma_decode_u64_le(bytes, p2, ip as u64);
}


/// The byte tag of an opcode, executably.
fn opcode_byte(op: OpCode) -> (r: u8)
    ensures
        r == opcode_tag(op),
{
    match op {
        OpCode::NoOp => 0,
        OpCode::Exit => 1,
        OpCode::PushValueU16 => 2,
        OpCode::PushTrue => 3,
        OpCode::PushFalse => 4,
        OpCode::PushNull => 5,
        OpCode::PushEmptyArray => 6,
        OpCode::PushEmptyObject => 7,
        OpCode::GetVariable => 8,
        OpCode::GetVariableOfType => 9,
        OpCode::Await => 10,
        OpCode::Abort => 11,
        OpCode::AbortAll => 12,
        OpCode::AwaitAny => 13,
        OpCode::AwaitAll => 14,
        OpCode::Call => 15,
        OpCode::CallNoArg => 16,
        OpCode::AppendArrayPush => 17,
        OpCode::AppendPropertyPush => 18,
        OpCode::Assign => 19,
        OpCode::Pop => 20,
        OpCode::Jump => 21,
        OpCode::JumpIfFalse => 22,
        OpCode::JumpIfTrue => 23,
        OpCode::JumpIterate => 24,
        OpCode::Swap2 => 25,
        OpCode::PrintToConsole => 26,
    }
}

/// The opcode of a byte tag, executably.
fn byte_opcode(tag: u8) -> (r: Option<OpCode>)
    ensures
        r == opcode_of_tag(tag),
{
    if tag == 0 {
        Some(OpCode::NoOp)
    } else if tag == 1 {
        Some(OpCode::Exit)
    } else if tag == 2 {
        Some(OpCode::PushValueU16)
    } else if tag == 3 {
        Some(OpCode::PushTrue)
    } else if tag == 4 {
        Some(OpCode::PushFalse)
    } else if tag == 5 {
        Some(OpCode::PushNull)
    } else if tag == 6 {
        Some(OpCode::PushEmptyArray)
    } else if tag == 7 {
        Some(OpCode::PushEmptyObject)
    } else if tag == 8 {
        Some(OpCode::GetVariable)
    } else if tag == 9 {
        Some(OpCode::GetVariableOfType)
    } else if tag == 10 {
        Some(OpCode::Await)
    } else if tag == 11 {
        Some(OpCode::Abort)
    } else if tag == 12 {
        Some(OpCode::AbortAll)
    } else if tag == 13 {
        Some(OpCode::AwaitAny)
    } else if tag == 14 {
        Some(OpCode::AwaitAll)
    } else if tag == 15 {
        Some(OpCode::Call)
    } else if tag == 16 {
        Some(OpCode::CallNoArg)
    } else if tag == 17 {
        Some(OpCode::AppendArrayPush)
    } else if tag == 18 {
        Some(OpCode::AppendPropertyPush)
    } else if tag == 19 {
        Some(OpCode::Assign)
    } else if tag == 20 {
        Some(OpCode::Pop)
    } else if tag == 21 {
        Some(OpCode::Jump)
    } else if tag == 22 {
        Some(OpCode::JumpIfFalse)
    } else if tag == 23 {
        Some(OpCode::JumpIfTrue)
    } else if tag == 24 {
        Some(OpCode::JumpIterate)
    } else if tag == 25 {
        Some(OpCode::Swap2)
    } else if tag == 26 {
        Some(OpCode::PrintToConsole)
    } else {
        None
    }
}

/// The byte tag of a coarse value type, executably.
fn type_byte(t: VmValueType) -> (r: u8)
    ensures
        r == type_tag(t),
{
    match t {
        VmValueType::Null => 0,
        VmValueType::Array => 1,
        VmValueType::ArrayOfJobs => 2,
        VmValueType::Job => 3,
    }
}

/// The coarse value type of a byte tag, executably.
fn byte_type(tag: u8) -> (r: Option<VmValueType>)
    ensures
        r == type_of_tag(tag),
{
    if tag == 0 {
        Some(VmValueType::Null)
    } else if tag == 1 {
        Some(VmValueType::Array)
    } else if tag == 2 {
        Some(VmValueType::ArrayOfJobs)
    } else if tag == 3 {
        Some(VmValueType::Job)
    } else {
        None
    }
}

/// Append the transport encoding of one value.
#[verifier::loop_isolation(false)]
pub fn serialize_value(value: &VmValue, writer: &mut Vec<u8>)
    ensures
        final(writer)@ == old(writer)@ + encode_value(value.model()),
        value_wf(value.model()),
    decreases *value, 1int,
{
    match value {
        VmValue::Null => {
            write_u8(writer, 0);
        },
        VmValue::String(text) => {
            write_u8(writer, 1);
            let byte_len = text.as_str().as_bytes().len();
            write_u64(writer, byte_len as u64);
            write_string(writer, text, 0, byte_len);
            proof {
                assert(encode_utf8(text@).subrange(0, byte_len as int) =~= encode_utf8(text@));
                assert(writer@ =~= old(writer)@ + encode_value(value.model()));
            }
        },
        VmValue::Number(bits) => {
            write_u8(writer, 2);
            write_u64(writer, *bits);
            proof {
                assert(writer@ =~= old(writer)@ + encode_value(value.model()));
            }
        },
        VmValue::Boolean(flag) => {
            write_u8(writer, 3);
            write_bool(writer, *flag);
            proof {
                assert(writer@ =~= old(writer)@ + encode_value(value.model()));
            }
        },
        VmValue::Array(elements) => {
            proof {
                lemma_models_of(elements@);
            }
            let ghost es = VmValue::models_of(elements@);
            write_u8(writer, 4);
            write_u64(writer, elements.len() as u64);
            let ghost base = writer@;
            let mut i: usize = 0;
            proof {
                assert(es.subrange(0, es.len() as int) =~= es);
            }
            while i < elements.len()
                invariant
                    0 <= i <= elements@.len(),
                    es.len() == elements@.len(),
                    writer@ + encode_values(es.subrange(i as int, es.len() as int)) == base
                        + encode_values(es),
                    forall|j: int| 0 <= j < i ==> value_wf(#[trigger] es[j]),
                decreases elements@.len() - i,
            {
                proof {
                    assert(decreases_to!(*elements => elements@));
                    assert(decreases_to!(elements@ => elements@[i as int]));
                    assert(es.subrange(i as int, es.len() as int).drop_first() =~= es.subrange(
                        i + 1,
                        es.len() as int,
                    ));
                }
                let ghost before = writer@;
                serialize_value(&elements[i], writer);
                proof {
                    assert(writer@ + encode_values(es.subrange(i + 1, es.len() as int)) =~= before
                        + encode_values(es.subrange(i as int, es.len() as int)));
                }
                i = i + 1;
            }
            proof {
                assert(writer@ =~= base + encode_values(es));
                assert(writer@ =~= old(writer)@ + encode_value(value.model()));
            }
        },
        VmValue::Object(properties) => {
            proof {
                lemma_pair_models_of(properties@);
            }
            let ghost ps = VmValue::pair_models_of(properties@);
            write_u8(writer, 5);
            write_u64(writer, properties.len() as u64);
            let ghost base = writer@;
            let mut i: usize = 0;
            proof {
                assert(ps.subrange(0, ps.len() as int) =~= ps);
            }
            while i < properties.len()
                invariant
                    0 <= i <= properties@.len(),
                    ps.len() == properties@.len(),
                    writer@ + encode_pairs(ps.subrange(i as int, ps.len() as int)) == base
                        + encode_pairs(ps),
                    forall|j: int|
                        0 <= j < i ==> encode_utf8((#[trigger] ps[j]).key).len() <= u64::MAX
                            && value_wf(ps[j].value),
                decreases properties@.len() - i,
            {
                proof {
                    assert(decreases_to!(*properties => properties@));
                    assert(decreases_to!(properties@ => properties@[i as int]));
                    assert(ps.subrange(i as int, ps.len() as int).drop_first() =~= ps.subrange(
                        i + 1,
                        ps.len() as int,
                    ));
                }
                let ghost before = writer@;
                let key_len = properties[i].key.as_str().as_bytes().len();
                write_u64(writer, key_len as u64);
                write_string(writer, &properties[i].key, 0, key_len);
                proof {
                    assert(encode_utf8(properties@[i as int].key@).subrange(0, key_len as int)
                        =~= encode_utf8(properties@[i as int].key@));
                }
                serialize_value(&properties[i].value, writer);
                proof {
                    assert(writer@ + encode_pairs(ps.subrange(i + 1, ps.len() as int)) =~= before
                        + encode_pairs(ps.subrange(i as int, ps.len() as int)));
                }
                i = i + 1;
            }
            proof {
                assert(writer@ =~= base + encode_pairs(ps));
                assert(writer@ =~= old(writer)@ + encode_value(value.model()));
            }
        },
        VmValue::Job(id) => {
            write_u8(writer, 6);
            write_u128(writer, *id);
            proof {
                assert(writer@ =~= old(writer)@ + encode_value(value.model()));
            }
        },
    }
}

/// Append the transport encoding of one instruction.
pub fn serialize_instruction(inst: &Instruction, writer: &mut Vec<u8>)
    ensures
        final(writer)@ == old(writer)@ + encode_instruction(*inst),
{
    write_u8(writer, opcode_byte(inst.opcode));
    match inst.arg {
        InstructionArg::Empty => {
            write_u8(writer, 0);
        },
        InstructionArg::Unsigned(u) => {
            write_u8(writer, 1);
            write_u16(writer, u);
        },
        InstructionArg::Signed(v) => {
            write_u8(writer, 2);
            write_i16(writer, v);
        },
        InstructionArg::Type(t) => {
            write_u8(writer, 3);
            write_u8(writer, type_byte(t));
        },
    }
    proof {
        assert(writer@ =~= old(writer)@ + encode_instruction(*inst));
    }
}

/// Encode a whole program into its transport bytes: the counted value pool,
/// the counted instruction stream, then the instruction pointer.
#[verifier::loop_isolation(false)]
pub fn serialize_vm_state(state: &VmState) -> (r: Vec<u8>)
    ensures
        r@ == encode_program(state.pool_models(), state.code(), state.ip()),
        program_wf(state.pool_models(), state.code(), state.ip()),
{
    proof {
        lemma_models_of(state.value_list@);
    }
    let ghost pool = state.pool_models();
    let ghost code = state.code();
    let mut writer: Vec<u8> = Vec::new();
    write_u64(&mut writer, state.value_list.len() as u64);
    let ghost base = writer@;
    let mut i: usize = 0;
    proof {
        assert(pool.subrange(0, pool.len() as int) =~= pool);
    }
    while i < state.value_list.len()
        invariant
            0 <= i <= state.value_list@.len(),
            pool.len() == state.value_list@.len(),
            writer@ + encode_values(pool.subrange(i as int, pool.len() as int)) == base
                + encode_values(pool),
            forall|j: int| 0 <= j < i ==> value_wf(#[trigger] pool[j]),
        decreases state.value_list@.len() - i,
    {
        proof {
            assert(pool.subrange(i as int, pool.len() as int).drop_first() =~= pool.subrange(
                i + 1,
                pool.len() as int,
            ));
        }
        let ghost before = writer@;
        serialize_value(&state.value_list[i], &mut writer);
        proof {
            assert(writer@ + encode_values(pool.subrange(i + 1, pool.len() as int)) =~= before
                + encode_values(pool.subrange(i as int, pool.len() as int)));
        }
        i = i + 1;
    }
    proof {
        assert(writer@ =~= base + encode_values(pool));
    }
    write_u64(&mut writer, state.instructions.len() as u64);
    let ghost base2 = writer@;
    let mut k: usize = 0;
    proof {
        assert(code.subrange(0, code.len() as int) =~= code);
    }
    while k < state.instructions.len()
        invariant
            0 <= k <= state.instructions@.len(),
            code == state.instructions@,
            writer@ + encode_instructions(code.subrange(k as int, code.len() as int)) == base2
                + encode_instructions(code),
        decreases state.instructions@.len() - k,
    {
        proof {
            assert(code.subrange(k as int, code.len() as int).drop_first() =~= code.subrange(
                k + 1,
                code.len() as int,
            ));
        }
        let ghost before = writer@;
        serialize_instruction(&state.instructions[k], &mut writer);
        proof {
            assert(writer@ + encode_instructions(code.subrange(k + 1, code.len() as int))
                =~= before + encode_instructions(code.subrange(k as int, code.len() as int)));
        }
        k = k + 1;
    }
    proof {
        assert(writer@ =~= base2 + encode_instructions(code));
    }
    write_u64(&mut writer, state.instruction_index as u64);
    proof {
        assert(writer@ =~= encode_program(pool, code, state.ip()));
    }
    writer
}


/// Decode one value from the bytes at the position, mirroring
/// [`decode_value`].
#[verifier::loop_isolation(false)]
pub fn deserialize_value(reader: &[u8], position: &mut usize) -> (r: Option<VmValue>)
    ensures
        match decode_value(reader@, *old(position) as int) {
            Some((m, p)) => {
                &&& r is Some
                &&& r->0.model() == m
                &&& *final(position) == p
                &&& *old(position) < *final(position) <= reader@.len()
            },
            None => r is None,
        },
    decreases reader@.len() - *position, 0int,
{
    let ghost p0 = *position as int;
    let tag = match read_u8(reader, position) {
        Some(t) => t,
        None => {
            return None;
        },
    };
    if tag == 0 {
        Some(VmValue::Null)
    } else if tag == 1 {
        let n = read_u64(reader, position)?;
        proof {
            lemma_decode_u64_le(reader@, p0 + 1, n);
        }
        if n > reader.len() as u64 {
            proof {
                assert(decode_value(reader@, p0) is None);
            }
            return None;
        }
        let text = read_string(reader, position, n as usize)?;
        proof {
            vstd::utf8::encode_utf8_valid_utf8(text@);
            vstd::utf8::encode_utf8_decode_utf8(text@);
        }
        Some(VmValue::String(text))
    } else if tag == 2 {
        let bits = read_u64(reader, position)?;
        proof {
            lemma_decode_u64_le(reader@, p0 + 1, bits);
        }
        Some(VmValue::Number(bits))
    } else if tag == 3 {
        let flag = read_bool(reader, position)?;
        Some(VmValue::Boolean(flag))
    } else if tag == 4 {
        let n = read_u64(reader, position)?;
        proof {
            lemma_decode_u64_le(reader@, p0 + 1, n);
        }
        let elements = deserialize_values(reader, position, n)?;
        Some(VmValue::Array(elements))
    } else if tag == 5 {
        let n = read_u64(reader, position)?;
        proof {
            lemma_decode_u64_le(reader@, p0 + 1, n);
        }
        let properties = deserialize_pairs(reader, position, n)?;
        Some(VmValue::Object(properties))
    } else if tag == 6 {
        let id = read_u128(reader, position)?;
        proof {
            lemma_decode_u128_le(reader@, p0 + 1, id);
        }
        Some(VmValue::Job(id))
    } else {
        None
    }
}

/// Decode `count` values in sequence, mirroring [`decode_values`].
#[verifier::loop_isolation(false)]
pub fn deserialize_values(reader: &[u8], position: &mut usize, count: u64) -> (r: Option<
    Vec<VmValue>,
>)
    ensures
        match decode_values(reader@, *old(position) as int, count as int) {
            Some((es, p)) => {
                &&& r is Some
                &&& VmValue::models_of(r->0@) == es
                &&& *final(position) == p
                &&& *old(position) <= *final(position)
                &&& count > 0 ==> *final(position) <= reader@.len()
            },
            None => r is None,
        },
    decreases reader@.len() - *position, count,
{
    let ghost p0 = *position as int;
    if count == 0 {
        let out: Vec<VmValue> = Vec::new();
        proof {
            lemma_models_of(out@);
            assert(VmValue::models_of(out@) =~= Seq::<ValueModel>::empty());
        }
        return Some(out);
    }
    if *position > reader.len() {
        return None;
    }
    let mut out: Vec<VmValue> = Vec::new();
    let mut i: u64 = 0;
    proof {
        lemma_models_of(out@);
    }
    while i < count
        invariant
            0 <= i <= count,
            p0 <= *position <= reader@.len(),
            out@.len() == i,
            i > 0 ==> p0 < *position,
            ({
                let full = decode_values(reader@, p0, count as int);
                let rest = decode_values(reader@, *position as int, (count - i) as int);
                match rest {
                    Some((es, p)) => full == Some(
                        (VmValue::models_of(out@) + es, p),
                    ),
                    None => full is None,
                }
            }),
        decreases count - i,
    {
        let ghost before_pos = *position as int;
        let ghost before_out = out@;
        let element = match deserialize_value(reader, position) {
            Some(v) => v,
            None => {
                return None;
            },
        };
        out.push(element);
        proof {
            lemma_models_of(before_out);
            lemma_models_of(out@);
            assert(out@.drop_last() =~= before_out);
            assert(VmValue::models_of(out@) =~= VmValue::models_of(before_out).push(
                out@.last().model(),
            ));
            let m = out@.last().model();
            assert(VmValue::models_of(before_out) + (seq![m] + decode_values(
                reader@,
                *position as int,
                (count - i - 1) as int,
            )->Some_0.0) =~= VmValue::models_of(out@) + decode_values(
                reader@,
                *position as int,
                (count - i - 1) as int,
            )->Some_0.0);
        }
        i = i + 1;
    }
    proof {
        assert(decode_values(reader@, *position as int, 0) == Some(
            (Seq::<ValueModel>::empty(), *position as int),
        ));
        assert(VmValue::models_of(out@) + Seq::<ValueModel>::empty() =~= VmValue::models_of(
            out@,
        ));
    }
    Some(out)
}

/// Decode `count` properties in sequence, mirroring [`decode_pairs`].
#[verifier::loop_isolation(false)]
pub fn deserialize_pairs(reader: &[u8], position: &mut usize, count: u64) -> (r: Option<
    Vec<VmPair>,
>)
    ensures
        match decode_pairs(reader@, *old(position) as int, count as int) {
            Some((ps, p)) => {
                &&& r is Some
                &&& VmValue::pair_models_of(r->0@) == ps
                &&& *final(position) == p
                &&& *old(position) <= *final(position)
                &&& count > 0 ==> *final(position) <= reader@.len()
            },
            None => r is None,
        },
    decreases reader@.len() - *position, count,
{
    let ghost p0 = *position as int;
    if count == 0 {
        let out: Vec<VmPair> = Vec::new();
        proof {
            lemma_pair_models_of(out@);
            assert(VmValue::pair_models_of(out@) =~= Seq::<PairModel>::empty());
        }
        return Some(out);
    }
    if *position > reader.len() {
        return None;
    }
    let mut out: Vec<VmPair> = Vec::new();
    let mut i: u64 = 0;
    proof {
        lemma_pair_models_of(out@);
    }
    while i < count
        invariant
            0 <= i <= count,
            p0 <= *position <= reader@.len(),
            out@.len() == i,
            ({
                let full = decode_pairs(reader@, p0, count as int);
                let rest = decode_pairs(reader@, *position as int, (count - i) as int);
                match rest {
                    Some((ps, p)) => full == Some(
                        (VmValue::pair_models_of(out@) + ps, p),
                    ),
                    None => full is None,
                }
            }),
        decreases count - i,
    {
        let ghost before_pos = *position as int;
        let ghost before_out = out@;
        let klen = match read_u64(reader, position) {
            Some(n) => n,
            None => {
                return None;
            },
        };
        proof {
            lemma_decode_u64_le(reader@, before_pos, klen);
        }
        if klen > reader.len() as u64 {
            proof {
                assert(decode_pairs(reader@, before_pos, (count - i) as int) is None);
            }
            return None;
        }
        let key = match read_string(reader, position, klen as usize) {
            Some(k) => k,
            None => {
                return None;
            },
        };
        proof {
            vstd::utf8::encode_utf8_valid_utf8(key@);
            vstd::utf8::encode_utf8_decode_utf8(key@);
        }
        let value = match deserialize_value(reader, position) {
            Some(v) => v,
            None => {
                return None;
            },
        };
        out.push(VmPair { key, value });
        proof {
            lemma_pair_models_of(before_out);
            lemma_pair_models_of(out@);
            assert(out@.drop_last() =~= before_out);
            assert(VmValue::pair_models_of(out@) =~= VmValue::pair_models_of(before_out).push(
                out@.last().model(),
            ));
            let m = out@.last().model();
            assert(VmValue::pair_models_of(before_out) + (seq![m] + decode_pairs(
                reader@,
                *position as int,
                (count - i - 1) as int,
            )->Some_0.0) =~= VmValue::pair_models_of(out@) + decode_pairs(
                reader@,
                *position as int,
                (count - i - 1) as int,
            )->Some_0.0);
        }
        i = i + 1;
    }
    proof {
        assert(decode_pairs(reader@, *position as int, 0) == Some(
            (Seq::<PairModel>::empty(), *position as int),
        ));
        assert(VmValue::pair_models_of(out@) + Seq::<PairModel>::empty()
            =~= VmValue::pair_models_of(out@));
    }
    Some(out)
}

/// Decode one instruction, mirroring [`decode_instruction`].
pub fn deserialize_instruction(reader: &[u8], position: &mut usize) -> (r: Option<Instruction>)
    ensures
        match decode_instruction(reader@, *old(position) as int) {
            Some((inst, p)) => {
                &&& r == Some(inst)
                &&& *final(position) == p
                &&& *old(position) < *final(position) <= reader@.len()
            },
            None => r is None,
        },
{
    let ghost p0 = *position as int;
    if reader.len() < 2 || *position > reader.len() - 2 {
        return None;
    }
    let tag = read_u8(reader, position)?;
    let opcode = match byte_opcode(tag) {
        Some(op) => op,
        None => {
            return None;
        },
    };
    let kind = read_u8(reader, position)?;
    if kind == 0 {
        Some(Instruction { opcode, arg: InstructionArg::Empty })
    } else if kind == 1 {
        let u = read_u16(reader, position)?;
        proof {
            lemma_decode_u16_le(reader@, p0 + 2, u);
        }
        Some(Instruction { opcode, arg: InstructionArg::Unsigned(u) })
    } else if kind == 2 {
        let v = read_i16(reader, position)?;
        proof {
            lemma_decode_u16_le(reader@, p0 + 2, i16_bits(v));
            lemma_i16_bits(v);
        }
        Some(Instruction { opcode, arg: InstructionArg::Signed(v) })
    } else if kind == 3 {
        let tb = read_u8(reader, position)?;
        match byte_type(tb) {
            Some(t) => Some(Instruction { opcode, arg: InstructionArg::Type(t) }),
            None => None,
        }
    } else {
        None
    }
}

/// Decode `count` instructions in sequence, mirroring
/// [`decode_instructions`].
#[verifier::loop_isolation(false)]
pub fn deserialize_instructions(reader: &[u8], position: &mut usize, count: u64) -> (r: Option<
    Vec<Instruction>,
>)
    ensures
        match decode_instructions(reader@, *old(position) as int, count as int) {
            Some((code, p)) => {
                &&& r is Some
                &&& r->0@ == code
                &&& *final(position) == p
                &&& *old(position) <= *final(position)
                &&& count > 0 ==> *final(position) <= reader@.len()
            },
            None => r is None,
        },
{
    let ghost p0 = *position as int;
    if count == 0 {
        let out: Vec<Instruction> = Vec::new();
        proof {
            assert(out@ =~= Seq::<Instruction>::empty());
        }
        return Some(out);
    }
    if reader.len() < 2 || *position > reader.len() - 2 {
        return None;
    }
    let mut out: Vec<Instruction> = Vec::new();
    let mut i: u64 = 0;
    while i < count
        invariant
            0 <= i <= count,
            p0 <= *position <= reader@.len(),
            out@.len() == i,
            ({
                let full = decode_instructions(reader@, p0, count as int);
                let rest = decode_instructions(
                    reader@,
                    *position as int,
                    (count - i) as int,
                );
                match rest {
                    Some((code, p)) => full == Some((out@ + code, p)),
                    None => full is None,
                }
            }),
        decreases count - i,
    {
        let ghost before_out = out@;
        let inst = match deserialize_instruction(reader, position) {
            Some(x) => x,
            None => {
                return None;
            },
        };
        out.push(inst);
        proof {
            assert(before_out + (seq![inst] + decode_instructions(
                reader@,
                *position as int,
                (count - i - 1) as int,
            )->Some_0.0) =~= out@ + decode_instructions(
                reader@,
                *position as int,
                (count - i - 1) as int,
            )->Some_0.0);
        }
        i = i + 1;
    }
    proof {
        assert(decode_instructions(reader@, *position as int, 0) == Some(
            (Seq::<Instruction>::empty(), *position as int),
        ));
        assert(out@ + Seq::<Instruction>::empty() =~= out@);
    }
    Some(out)
}

/// Decode a whole program from exactly the given bytes, mirroring
/// [`decode_program`].
pub fn deserialize_vm_state(reader: &[u8]) -> (r: Option<VmState>)
    ensures
        match decode_program(reader@) {
            Some((pool, code, ip)) => {
                &&& r is Some
                &&& r->0.pool_models() == pool
                &&& r->0.code() == code
                &&& r->0.ip() == ip
            },
            None => r is None,
        },
{
    let mut position: usize = 0;
    let n = read_u64(reader, &mut position)?;
    proof {
        lemma_decode_u64_le(reader@, 0, n);
    }
    let value_list = deserialize_values(reader, &mut position, n)?;
    let ghost p1 = position as int;
    let k = read_u64(reader, &mut position)?;
    proof {
        lemma_decode_u64_le(reader@, p1, k);
    }
    let instructions = deserialize_instructions(reader, &mut position, k)?;
    let ghost p2 = position as int;
    let ip = read_u64(reader, &mut position)?;
    proof {
        lemma_decode_u64_le(reader@, p2, ip);
    }
    if position != reader.len() {
        return None;
    }
    if ip > usize::MAX as u64 {
        proof {
            assert(decode_program(reader@) is None);
        }
        return None;
    }
    Some(
        VmState {
            value_list,
            instructions,
            instruction_index: ip as usize,
        },
    )
}

} // verus!
