use x39vm::io::protocol_v1::{
    read_bool, read_i16, read_i64, read_string, read_u128, read_u16, read_u32, read_u64, read_u8,
    write_bool, write_i16, write_i64, write_string, write_u128, write_u16, write_u32, write_u64,
    write_u8,
};

#[test]
fn unsigned_round_trips() {
    let mut buffer: Vec<u8> = Vec::new();
    write_u8(&mut buffer, 0xab);
    write_u16(&mut buffer, 0xbeef);
    write_u32(&mut buffer, 0xdead_beef);
    write_u64(&mut buffer, 0x0123_4567_89ab_cdef);
    write_u128(&mut buffer, 0x1122_3344_5566_7788_99aa_bbcc_ddee_ff00);
    let mut position: usize = 0;
    assert_eq!(read_u8(&buffer, &mut position), Some(0xab));
    assert_eq!(read_u16(&buffer, &mut position), Some(0xbeef));
    assert_eq!(read_u32(&buffer, &mut position), Some(0xdead_beef));
    assert_eq!(read_u64(&buffer, &mut position), Some(0x0123_4567_89ab_cdef));
    assert_eq!(
        read_u128(&buffer, &mut position),
        Some(0x1122_3344_5566_7788_99aa_bbcc_ddee_ff00)
    );
    assert_eq!(position, buffer.len());
}

#[test]
fn little_endian_layout() {
    let mut buffer: Vec<u8> = Vec::new();
    write_u16(&mut buffer, 0x1234);
    assert_eq!(buffer, vec![0x34, 0x12]);
}

#[test]
fn signed_round_trips() {
    let mut buffer: Vec<u8> = Vec::new();
    write_i16(&mut buffer, -2);
    write_i16(&mut buffer, 32767);
    write_i16(&mut buffer, -32768);
    write_i64(&mut buffer, -1234567890123);
    let mut position: usize = 0;
    assert_eq!(read_i16(&buffer, &mut position), Some(-2));
    assert_eq!(read_i16(&buffer, &mut position), Some(32767));
    assert_eq!(read_i16(&buffer, &mut position), Some(-32768));
    assert_eq!(read_i64(&buffer, &mut position), Some(-1234567890123));
}

#[test]
fn bool_round_trips() {
    let mut buffer: Vec<u8> = Vec::new();
    write_bool(&mut buffer, true);
    write_bool(&mut buffer, false);
    let mut position: usize = 0;
    assert_eq!(read_bool(&buffer, &mut position), Some(true));
    assert_eq!(read_bool(&buffer, &mut position), Some(false));
}

#[test]
fn string_round_trips_utf8() {
    let text = "gr\u{00fc}n \u{2713}".to_string();
    let mut buffer: Vec<u8> = Vec::new();
    write_string(&mut buffer, &text, 0, text.len());
    let mut position: usize = 0;
    let back = read_string(&buffer, &mut position, buffer.len()).unwrap();
    assert_eq!(back, text);
}

#[test]
fn string_rejects_invalid_utf8() {
    let buffer: Vec<u8> = vec![0xff, 0xfe, 0xfd];
    let mut position: usize = 0;
    assert!(read_string(&buffer, &mut position, 3).is_none());
    assert_eq!(position, 0);
}

#[test]
fn reads_fail_on_short_input() {
    let buffer: Vec<u8> = vec![1];
    let mut position: usize = 0;
    assert_eq!(read_u16(&buffer, &mut position), None);
    assert_eq!(read_u32(&buffer, &mut position), None);
    assert_eq!(read_u64(&buffer, &mut position), None);
    assert_eq!(position, 0);
    assert_eq!(read_u8(&buffer, &mut position), Some(1));
    assert_eq!(read_u8(&buffer, &mut position), None);
}
