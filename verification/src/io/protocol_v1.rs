//! The byte-level primitives of the first transport version: little-endian
//! integers, booleans and length-delimited UTF-8 strings, written to and
//! read from plain byte buffers.  The framing that carries host-function
//! messages over a connection sits on these primitives, outside this core.

use vstd::prelude::*;

use vstd::utf8::encode_utf8;

verus! {

/// The little-endian bytes of a 16-bit unsigned integer.
pub open spec fn u16_le(value: u16) -> Seq<u8> {
    seq![(value & 0xff) as u8, ((value >> 8) & 0xff) as u8]
}

/// The little-endian bytes of a 32-bit unsigned integer.
pub open spec fn u32_le(value: u32) -> Seq<u8> {
    seq![
        (value & 0xff) as u8,
        ((value >> 8) & 0xff) as u8,
        ((value >> 16) & 0xff) as u8,
        ((value >> 24) & 0xff) as u8,
    ]
}

/// The little-endian bytes of a 64-bit unsigned integer.
pub open spec fn u64_le(value: u64) -> Seq<u8> {
    seq![
        (value & 0xff) as u8,
        ((value >> 8) & 0xff) as u8,
        ((value >> 16) & 0xff) as u8,
        ((value >> 24) & 0xff) as u8,
        ((value >> 32) & 0xff) as u8,
        ((value >> 40) & 0xff) as u8,
        ((value >> 48) & 0xff) as u8,
        ((value >> 56) & 0xff) as u8,
    ]
}

/// The little-endian bytes of a 128-bit unsigned integer.
pub open spec fn u128_le(value: u128) -> Seq<u8> {
    u64_le((value & 0xffff_ffff_ffff_ffff) as u64) + u64_le((value >> 64) as u64)
}


/// The 8-bit two's-complement pattern of a signed byte.
pub open spec fn i8_bits(value: i8) -> u8 {
    if value >= 0 {
        value as u8
    } else {
        (value + 0x100) as u8
    }
}

/// The 16-bit two's-complement pattern of a signed 16-bit integer.
pub open spec fn i16_bits(value: i16) -> u16 {
    if value >= 0 {
        value as u16
    } else {
        (value + 0x1_0000) as u16
    }
}

/// The 32-bit two's-complement pattern of a signed 32-bit integer.
pub open spec fn i32_bits(value: i32) -> u32 {
    if value >= 0 {
        value as u32
    } else {
        (value + 0x1_0000_0000) as u32
    }
}

/// The 64-bit two's-complement pattern of a signed 64-bit integer.
pub open spec fn i64_bits(value: i64) -> u64 {
    if value >= 0 {
        value as u64
    } else {
        (value + 0x1_0000_0000_0000_0000) as u64
    }
}

/// Write one boolean as a single byte, one for true.
pub fn write_bool(writer: &mut Vec<u8>, value: bool)
    ensures
        value ==> final(writer)@ == old(writer)@ + seq![1u8],
        !value ==> final(writer)@ == old(writer)@ + seq![0u8],
{
    if value {
        write_u8(writer, 1)
    } else {
        write_u8(writer, 0)
    }
}

/// Append one byte.
pub fn write_u8(writer: &mut Vec<u8>, value: u8)
    ensures
        final(writer)@ == old(writer)@ + seq![value],
{
    writer.push(value);
    proof {
        assert(writer@ =~= old(writer)@ + seq![value]);
    }
}

/// Append the little-endian bytes of a 16-bit unsigned integer.
pub fn write_u16(writer: &mut Vec<u8>, value: u16)
    ensures
        final(writer)@ == old(writer)@ + u16_le(value),
{
    writer.push((value & 0xff) as u8);
    writer.push(((value >> 8) & 0xff) as u8);
    proof {
        assert(writer@ =~= old(writer)@ + u16_le(value));
    }
}

/// Append the little-endian bytes of a 32-bit unsigned integer.
pub fn write_u32(writer: &mut Vec<u8>, value: u32)
    ensures
        final(writer)@ == old(writer)@ + u32_le(value),
{
    writer.push((value & 0xff) as u8);
    writer.push(((value >> 8) & 0xff) as u8);
    writer.push(((value >> 16) & 0xff) as u8);
    writer.push(((value >> 24) & 0xff) as u8);
    proof {
        assert(writer@ =~= old(writer)@ + u32_le(value));
    }
}

/// Append the little-endian bytes of a 64-bit unsigned integer.
pub fn write_u64(writer: &mut Vec<u8>, value: u64)
    ensures
        final(writer)@ == old(writer)@ + u64_le(value),
{
    writer.push((value & 0xff) as u8);
    writer.push(((value >> 8) & 0xff) as u8);
    writer.push(((value >> 16) & 0xff) as u8);
    writer.push(((value >> 24) & 0xff) as u8);
    writer.push(((value >> 32) & 0xff) as u8);
    writer.push(((value >> 40) & 0xff) as u8);
    writer.push(((value >> 48) & 0xff) as u8);
    writer.push(((value >> 56) & 0xff) as u8);
    proof {
        assert(writer@ =~= old(writer)@ + u64_le(value));
    }
}

/// Append the little-endian bytes of a 128-bit unsigned integer.
pub fn write_u128(writer: &mut Vec<u8>, value: u128)
    ensures
        final(writer)@ == old(writer)@ + u128_le(value),
{
    write_u64(writer, (value & 0xffff_ffff_ffff_ffff) as u64);
    write_u64(writer, (value >> 64) as u64);
    proof {
        assert(writer@ =~= old(writer)@ + u128_le(value));
    }
}

/// Append one signed byte, two's complement.
pub fn write_i8(writer: &mut Vec<u8>, value: i8)
    ensures
        final(writer)@ == old(writer)@ + seq![i8_bits(value)],
{
    let pattern: u8 = if value >= 0 {
        value as u8
    } else {
        ((value as i16) + 0x100) as u8
    };
    write_u8(writer, pattern);
}

/// Append the little-endian bytes of a 16-bit signed integer.
pub fn write_i16(writer: &mut Vec<u8>, value: i16)
    ensures
        final(writer)@ == old(writer)@ + u16_le(i16_bits(value)),
{
    let pattern: u16 = if value >= 0 {
        value as u16
    } else {
        ((value as i32) + 0x1_0000) as u16
    };
    write_u16(writer, pattern);
}

/// Append the little-endian bytes of a 32-bit signed integer.
pub fn write_i32(writer: &mut Vec<u8>, value: i32)
    ensures
        final(writer)@ == old(writer)@ + u32_le(i32_bits(value)),
{
    let pattern: u32 = if value >= 0 {
        value as u32
    } else {
        ((value as i64) + 0x1_0000_0000) as u32
    };
    write_u32(writer, pattern);
}

/// Append the little-endian bytes of a 64-bit signed integer.
pub fn write_i64(writer: &mut Vec<u8>, value: i64)
    ensures
        final(writer)@ == old(writer)@ + u64_le(i64_bits(value)),
{
    let pattern: u64 = if value >= 0 {
        value as u64
    } else {
        ((value as i128) + 0x1_0000_0000_0000_0000) as u64
    };
    write_u64(writer, pattern);
}

/// Append the UTF-8 bytes of `text` between byte positions `index`
/// (inclusive) and `length` (exclusive).
#[verifier::loop_isolation(false)]
pub fn write_string(writer: &mut Vec<u8>, text: &String, index: usize, length: usize)
    requires
        index <= length <= encode_utf8(text@).len(),
    ensures
        final(writer)@ == old(writer)@ + encode_utf8(text@).subrange(index as int, length as int),
{
    let bytes = text.as_str().as_bytes();
    let mut i: usize = index;
    while i < length
        invariant
            index <= i <= length,
            writer@ == old(writer)@ + encode_utf8(text@).subrange(index as int, i as int),
        decreases length - i,
    {
        let ghost before = writer@;
        writer.push(bytes[i]);
        proof {
            assert(writer@ =~= old(writer)@ + encode_utf8(text@).subrange(
                index as int,
                i + 1 as int,
            ));
        }
        i = i + 1;
    }
    proof {
        assert(writer@ =~= old(writer)@ + encode_utf8(text@).subrange(
            index as int,
            length as int,
        ));
    }
}

/// Read one boolean: any non-zero byte is true.
pub fn read_bool(reader: &[u8], position: &mut usize) -> (r: Option<bool>)
    ensures
        match r {
            Some(v) => {
                &&& *old(position) + 1 <= reader@.len()
                &&& *final(position) == *old(position) + 1
                &&& v == (reader@[*old(position) as int] != 0)
            },
            None => *old(position) + 1 > reader@.len() && *final(position) == *old(position),
        },
{
    let b = read_u8(reader, position)?;
    Some(b > 0)
}

/// Read one byte.
pub fn read_u8(reader: &[u8], position: &mut usize) -> (r: Option<u8>)
    ensures
        match r {
            Some(v) => {
                &&& *old(position) + 1 <= reader@.len()
                &&& *final(position) == *old(position) + 1
                &&& v == reader@[*old(position) as int]
            },
            None => *old(position) + 1 > reader@.len() && *final(position) == *old(position),
        },
{
    if *position < reader.len() {
        let v = reader[*position];
        *position = *position + 1;
        Some(v)
    } else {
        None
    }
}

/// Read a 16-bit unsigned integer, little endian.
pub fn read_u16(reader: &[u8], position: &mut usize) -> (r: Option<u16>)
    ensures
        match r {
            Some(v) => {
                &&& *old(position) + 2 <= reader@.len()
                &&& *final(position) == *old(position) + 2
                &&& u16_le(v) == reader@.subrange(*old(position) as int, *final(position) as int)
            },
            None => *old(position) + 2 > reader@.len() && *final(position) == *old(position),
        },
{
    if reader.len() >= 2 && *position <= reader.len() - 2 {
        let b0 = reader[*position];
        let b1 = reader[*position + 1];
        let v = (b0 as u16) | ((b1 as u16) << 8);
        proof {
            assert((v & 0xff) as u8 == b0 && ((v >> 8) & 0xff) as u8 == b1) by (bit_vector)
                requires
                    v == (b0 as u16) | ((b1 as u16) << 8),
            ;
            assert(u16_le(v) =~= reader@.subrange(*old(position) as int, *position + 2 as int));
        }
        *position = *position + 2;
        Some(v)
    } else {
        None
    }
}

/// Read a 32-bit unsigned integer, little endian.
pub fn read_u32(reader: &[u8], position: &mut usize) -> (r: Option<u32>)
    ensures
        match r {
            Some(v) => {
                &&& *old(position) + 4 <= reader@.len()
                &&& *final(position) == *old(position) + 4
                &&& u32_le(v) == reader@.subrange(*old(position) as int, *final(position) as int)
            },
            None => *old(position) + 4 > reader@.len() && *final(position) == *old(position),
        },
{
    if reader.len() >= 4 && *position <= reader.len() - 4 {
        let b0 = reader[*position];
        let b1 = reader[*position + 1];
        let b2 = reader[*position + 2];
        let b3 = reader[*position + 3];
        let v = (b0 as u32) | ((b1 as u32) << 8) | ((b2 as u32) << 16) | ((b3 as u32) << 24);
        proof {
            assert((v & 0xff) as u8 == b0 && ((v >> 8) & 0xff) as u8 == b1 && ((v >> 16)
                & 0xff) as u8 == b2 && ((v >> 24) & 0xff) as u8 == b3) by (bit_vector)
                requires
                    v == (b0 as u32) | ((b1 as u32) << 8) | ((b2 as u32) << 16) | ((b3
                        as u32) << 24),
            ;
            assert(u32_le(v) =~= reader@.subrange(*old(position) as int, *position + 4 as int));
        }
        *position = *position + 4;
        Some(v)
    } else {
        None
    }
}

/// Read a 64-bit unsigned integer, little endian.
pub fn read_u64(reader: &[u8], position: &mut usize) -> (r: Option<u64>)
    ensures
        match r {
            Some(v) => {
                &&& *old(position) + 8 <= reader@.len()
                &&& *final(position) == *old(position) + 8
                &&& u64_le(v) == reader@.subrange(*old(position) as int, *final(position) as int)
            },
            None => *old(position) + 8 > reader@.len() && *final(position) == *old(position),
        },
{
    if reader.len() >= 8 && *position <= reader.len() - 8 {
        let b0 = reader[*position];
        let b1 = reader[*position + 1];
        let b2 = reader[*position + 2];
        let b3 = reader[*position + 3];
        let b4 = reader[*position + 4];
        let b5 = reader[*position + 5];
        let b6 = reader[*position + 6];
        let b7 = reader[*position + 7];
        let v = (b0 as u64) | ((b1 as u64) << 8) | ((b2 as u64) << 16) | ((b3 as u64) << 24) | ((
        b4 as u64) << 32) | ((b5 as u64) << 40) | ((b6 as u64) << 48) | ((b7 as u64) << 56);
        proof {
            assert((v & 0xff) as u8 == b0 && ((v >> 8) & 0xff) as u8 == b1 && ((v >> 16)
                & 0xff) as u8 == b2 && ((v >> 24) & 0xff) as u8 == b3 && ((v >> 32) & 0xff) as u8
                == b4 && ((v >> 40) & 0xff) as u8 == b5 && ((v >> 48) & 0xff) as u8 == b6 && ((v
                >> 56) & 0xff) as u8 == b7) by (bit_vector)
                requires
                    v == (b0 as u64) | ((b1 as u64) << 8) | ((b2 as u64) << 16) | ((b3
                        as u64) << 24) | ((b4 as u64) << 32) | ((b5 as u64) << 40) | ((b6
                        as u64) << 48) | ((b7 as u64) << 56),
            ;
            assert(u64_le(v) =~= reader@.subrange(*old(position) as int, *position + 8 as int));
        }
        *position = *position + 8;
        Some(v)
    } else {
        None
    }
}

/// Read a 128-bit unsigned integer, little endian.
pub fn read_u128(reader: &[u8], position: &mut usize) -> (r: Option<u128>)
    ensures
        match r {
            Some(v) => {
                &&& *old(position) + 16 <= reader@.len()
                &&& *final(position) == *old(position) + 16
                &&& u128_le(v) == reader@.subrange(*old(position) as int, *final(position) as int)
            },
            None => *old(position) + 16 > reader@.len() && *final(position) == *old(position),
        },
{
    let ghost p0 = *position;
    if reader.len() >= 16 && *position <= reader.len() - 16 {
        let lo = read_u64(reader, position).unwrap();
        let hi = read_u64(reader, position).unwrap();
        let v = (lo as u128) | ((hi as u128) << 64);
        proof {
            assert((v & 0xffff_ffff_ffff_ffff) as u64 == lo && (v >> 64) as u64 == hi)
                by (bit_vector)
                requires
                    v == (lo as u128) | ((hi as u128) << 64),
            ;
            assert(u128_le(v) =~= reader@.subrange(p0 as int, p0 + 16 as int));
        }
        Some(v)
    } else {
        None
    }
}

/// Read one signed byte, two's complement.
pub fn read_i8(reader: &[u8], position: &mut usize) -> (r: Option<i8>)
    ensures
        match r {
            Some(v) => {
                &&& *old(position) + 1 <= reader@.len()
                &&& *final(position) == *old(position) + 1
                &&& i8_bits(v) == reader@[*old(position) as int]
            },
            None => *old(position) + 1 > reader@.len() && *final(position) == *old(position),
        },
{
    let b = read_u8(reader, position)?;
    let v: i8 = if b < 0x80 {
        b as i8
    } else {
        ((b as i16) - 0x100) as i8
    };
    Some(v)
}

/// Read a 16-bit signed integer, little endian.
pub fn read_i16(reader: &[u8], position: &mut usize) -> (r: Option<i16>)
    ensures
        match r {
            Some(v) => {
                &&& *old(position) + 2 <= reader@.len()
                &&& *final(position) == *old(position) + 2
                &&& u16_le(i16_bits(v)) == reader@.subrange(
                    *old(position) as int,
                    *final(position) as int,
                )
            },
            None => *old(position) + 2 > reader@.len() && *final(position) == *old(position),
        },
{
    let b = read_u16(reader, position)?;
    let v: i16 = if b < 0x8000 {
        b as i16
    } else {
        ((b as i32) - 0x1_0000) as i16
    };
    Some(v)
}

/// Read a 32-bit signed integer, little endian.
pub fn read_i32(reader: &[u8], position: &mut usize) -> (r: Option<i32>)
    ensures
        match r {
            Some(v) => {
                &&& *old(position) + 4 <= reader@.len()
                &&& *final(position) == *old(position) + 4
                &&& u32_le(i32_bits(v)) == reader@.subrange(
                    *old(position) as int,
                    *final(position) as int,
                )
            },
            None => *old(position) + 4 > reader@.len() && *final(position) == *old(position),
        },
{
    let b = read_u32(reader, position)?;
    let v: i32 = if b < 0x8000_0000 {
        b as i32
    } else {
        ((b as i64) - 0x1_0000_0000) as i32
    };
    Some(v)
}

/// Read a 64-bit signed integer, little endian.
pub fn read_i64(reader: &[u8], position: &mut usize) -> (r: Option<i64>)
    ensures
        match r {
            Some(v) => {
                &&& *old(position) + 8 <= reader@.len()
                &&& *final(position) == *old(position) + 8
                &&& u64_le(i64_bits(v)) == reader@.subrange(
                    *old(position) as int,
                    *final(position) as int,
                )
            },
            None => *old(position) + 8 > reader@.len() && *final(position) == *old(position),
        },
{
    let b = read_u64(reader, position)?;
    let v: i64 = if b < 0x8000_0000_0000_0000 {
        b as i64
    } else {
        ((b as i128) - 0x1_0000_0000_0000_0000) as i64
    };
    Some(v)
}

/// Relies on String::from_utf8: decodes exactly the valid UTF-8 byte
/// sequences, to the character sequence whose encoding they are.
#[verifier::external_body]
fn string_from_utf8(bytes: Vec<u8>) -> (r: Option<String>)
    ensures
        match r {
            Some(s) => vstd::utf8::valid_utf8(bytes@) && s@ == vstd::utf8::decode_utf8(bytes@),
            None => !vstd::utf8::valid_utf8(bytes@),
        },
{
    String::from_utf8(bytes).ok()
}

/// Read `length` bytes and decode them as a UTF-8 string; nothing when the
/// input is short or the bytes are not valid UTF-8.
#[verifier::loop_isolation(false)]
pub fn read_string(reader: &[u8], position: &mut usize, length: usize) -> (r: Option<String>)
    ensures
        match r {
            Some(s) => {
                &&& *old(position) + length <= reader@.len()
                &&& *final(position) == *old(position) + length
                &&& encode_utf8(s@) == reader@.subrange(
                    *old(position) as int,
                    *final(position) as int,
                )
            },
            None => {
                &&& *final(position) == *old(position)
                &&& (*old(position) + length > reader@.len() || !vstd::utf8::valid_utf8(
                    reader@.subrange(
                        *old(position) as int,
                        *old(position) + length as int,
                    ),
                ))
            },
        },
{
    if length > reader.len() || *position > reader.len() - length {
        return None;
    }
    let mut bytes: Vec<u8> = Vec::new();
    let mut i: usize = 0;
    while i < length
        invariant
            0 <= i <= length,
            *position + length <= reader@.len(),
            bytes@ == reader@.subrange(*position as int, *position + i as int),
        decreases length - i,
    {
        bytes.push(reader[*position + i]);
        proof {
            assert(bytes@ =~= reader@.subrange(*position as int, *position + (i + 1) as int));
        }
        i = i + 1;
    }
    match string_from_utf8(bytes) {
        Some(s) => {
            proof {
                vstd::utf8::decode_utf8_encode_utf8(
                    reader@.subrange(*position as int, *position + length as int),
                );
            }
            *position = *position + length;
            Some(s)
        },
        None => None,
    }
}

} // verus!
