use mhrice::cursor::ByteCursor;
use mhrice::error::ErrorKind;

#[test]
fn u8_then_u32_skips_three_padding_bytes() {
    let mut c = ByteCursor::new(vec![0xAA, 1, 2, 3, 0x78, 0x56, 0x34, 0x12]);
    assert_eq!(c.read_u8().unwrap(), 0xAA);
    assert_eq!(c.position(), 1);
    assert_eq!(c.read_u32().unwrap(), 0x1234_5678);
    assert_eq!(c.position(), 8);
}

#[test]
fn unsigned_reads_are_little_endian() {
    let mut c = ByteCursor::new(vec![0x34, 0x12, 0, 0, 0x78, 0x56, 0x34, 0x12, 8, 7, 6, 5, 4, 3, 2, 1]);
    assert_eq!(c.read_u16().unwrap(), 0x1234);
    assert_eq!(c.read_u32().unwrap(), 0x1234_5678);
    assert_eq!(c.read_u64().unwrap(), 0x0102_0304_0506_0708);
    assert_eq!(c.position(), 16);
}

#[test]
fn signed_reads_are_twos_complement() {
    let mut c = ByteCursor::new(vec![0xFF]);
    assert_eq!(c.read_i8().unwrap(), -1);
    let mut c = ByteCursor::new(vec![0x80]);
    assert_eq!(c.read_i8().unwrap(), i8::MIN);
    let mut c = ByteCursor::new(vec![0x7F]);
    assert_eq!(c.read_i8().unwrap(), i8::MAX);
    let mut c = ByteCursor::new(vec![0xFE, 0xFF]);
    assert_eq!(c.read_i16().unwrap(), -2);
    let mut c = ByteCursor::new(vec![0x00, 0x00, 0x00, 0x80]);
    assert_eq!(c.read_i32().unwrap(), i32::MIN);
    let mut c = ByteCursor::new(vec![0xFD, 0xFF, 0xFF, 0xFF]);
    assert_eq!(c.read_i32().unwrap(), -3);
    let mut c = ByteCursor::new(vec![0xFC, 0xFF, 0xFF, 0xFF, 0xFF, 0xFF, 0xFF, 0xFF]);
    assert_eq!(c.read_i64().unwrap(), -4);
    let mut c = ByteCursor::new(vec![0, 0, 0, 0, 0, 0, 0, 0x80]);
    assert_eq!(c.read_i64().unwrap(), i64::MIN);
}

#[test]
fn float_read_keeps_the_bit_pattern() {
    let bits = 1.5f32.to_bits();
    let mut c = ByteCursor::new(bits.to_le_bytes().to_vec());
    let got = c.read_f32().unwrap();
    assert_eq!(got, bits);
    assert_eq!(f32::from_bits(got), 1.5f32);
}

#[test]
fn sixty_four_bit_read_aligns_to_eight() {
    let mut bytes = vec![9u8; 8];
    bytes.extend_from_slice(&0x1122_3344_5566_7788u64.to_le_bytes());
    let mut c = ByteCursor::new(bytes);
    assert_eq!(c.read_u8().unwrap(), 9);
    assert_eq!(c.read_u64().unwrap(), 0x1122_3344_5566_7788);
    assert_eq!(c.position(), 16);
}

#[test]
fn truncated_reads_fail_with_eof_and_do_not_move() {
    let mut c = ByteCursor::new(vec![]);
    assert_eq!(c.read_u8().unwrap_err().kind, ErrorKind::UnexpectedEof);
    let mut c = ByteCursor::new(vec![1]);
    assert_eq!(c.read_u16().unwrap_err().kind, ErrorKind::UnexpectedEof);
    assert_eq!(c.read_i16().unwrap_err().kind, ErrorKind::UnexpectedEof);
    assert_eq!(c.position(), 0);
    let mut c = ByteCursor::new(vec![1, 2, 3]);
    assert_eq!(c.read_u32().unwrap_err().kind, ErrorKind::UnexpectedEof);
    assert_eq!(c.read_i32().unwrap_err().kind, ErrorKind::UnexpectedEof);
    assert_eq!(c.read_f32().unwrap_err().kind, ErrorKind::UnexpectedEof);
    assert_eq!(c.position(), 0);
    let mut c = ByteCursor::new(vec![1, 2, 3, 4, 5, 6, 7]);
    assert_eq!(c.read_u64().unwrap_err().kind, ErrorKind::UnexpectedEof);
    assert_eq!(c.read_i64().unwrap_err().kind, ErrorKind::UnexpectedEof);
    assert_eq!(c.position(), 0);
    assert_eq!(c.read_exact(8).unwrap_err().kind, ErrorKind::UnexpectedEof);
    assert_eq!(c.position(), 0);
}

#[test]
fn read_that_fails_after_padding_leaves_the_cursor_before_the_padding() {
    let mut c = ByteCursor::new(vec![1, 2, 3, 4, 5, 6]);
    assert_eq!(c.read_u8().unwrap(), 1);
    let e = c.read_u32().unwrap_err();
    assert_eq!(e.kind, ErrorKind::UnexpectedEof);
    assert!(e.path.is_empty());
    assert_eq!(c.position(), 1);
    assert_eq!(c.read_u8().unwrap(), 2);
}

#[test]
fn seek_align_up_rounds_to_the_next_multiple() {
    let mut c = ByteCursor::new(vec![0; 40]);
    c.seek_align_up(16).unwrap();
    assert_eq!(c.position(), 0);
    c.seek(1).unwrap();
    c.seek_align_up(16).unwrap();
    assert_eq!(c.position(), 16);
    c.seek_align_up(16).unwrap();
    assert_eq!(c.position(), 16);
    c.seek(17).unwrap();
    c.seek_align_up(4).unwrap();
    assert_eq!(c.position(), 20);
    c.seek_align_up(1).unwrap();
    assert_eq!(c.position(), 20);
    c.seek(33).unwrap();
    c.seek_align_up(8).unwrap();
    assert_eq!(c.position(), 40);
}

#[test]
fn seek_align_up_beyond_the_buffer_is_eof() {
    let mut c = ByteCursor::new(vec![0; 10]);
    c.seek(9).unwrap();
    assert_eq!(c.seek_align_up(4).unwrap_err().kind, ErrorKind::UnexpectedEof);
    assert_eq!(c.position(), 9);
    assert_eq!(c.seek_align_up(u64::MAX).unwrap_err().kind, ErrorKind::UnexpectedEof);
    assert_eq!(c.position(), 9);
}

#[test]
fn alignment_zero_has_no_multiple_past_the_start() {
    let mut c = ByteCursor::new(vec![0; 10]);
    c.seek_align_up(0).unwrap();
    assert_eq!(c.position(), 0);
    c.seek(3).unwrap();
    assert_eq!(c.seek_align_up(0).unwrap_err().kind, ErrorKind::AlignmentOverflow);
    assert_eq!(c.position(), 3);
}

#[test]
fn seek_moves_within_the_buffer_only() {
    let mut c = ByteCursor::new(vec![0; 4]);
    c.seek(4).unwrap();
    assert_eq!(c.position(), 4);
    assert_eq!(c.len(), 4);
    assert_eq!(c.seek(5).unwrap_err().kind, ErrorKind::UnexpectedEof);
    assert_eq!(c.position(), 4);
    assert_eq!(c.read_u8().unwrap_err().kind, ErrorKind::UnexpectedEof);
}

#[test]
fn read_exact_takes_raw_bytes_without_alignment() {
    let mut c = ByteCursor::new(vec![1, 2, 3, 4, 5]);
    assert_eq!(c.read_u8().unwrap(), 1);
    assert_eq!(c.read_exact(3).unwrap(), vec![2, 3, 4]);
    assert_eq!(c.position(), 4);
    assert_eq!(c.read_exact(0).unwrap(), Vec::<u8>::new());
    assert_eq!(c.read_exact(2).unwrap_err().kind, ErrorKind::UnexpectedEof);
    assert_eq!(c.position(), 4);
}

#[test]
fn reads_agree_with_the_standard_conversions() {
    let mut seed: u64 = 0x9E37_79B9_7F4A_7C15;
    let mut bytes = Vec::new();
    for _ in 0..256 {
        seed = seed.wrapping_mul(6364136223846793005).wrapping_add(1442695040888963407);
        bytes.push((seed >> 33) as u8);
    }
    for start in 0..64usize {
        let mut c = ByteCursor::new(bytes.clone());
        c.seek(start).unwrap();
        let at = (start + 1) / 2 * 2;
        assert_eq!(c.read_u16().unwrap(), u16::from_le_bytes([bytes[at], bytes[at + 1]]));
        assert_eq!(c.position(), at + 2);
        c.seek(start).unwrap();
        assert_eq!(c.read_i16().unwrap(), i16::from_le_bytes([bytes[at], bytes[at + 1]]));
        c.seek(start).unwrap();
        let at = (start + 3) / 4 * 4;
        let word: [u8; 4] = bytes[at..at + 4].try_into().unwrap();
        assert_eq!(c.read_u32().unwrap(), u32::from_le_bytes(word));
        assert_eq!(c.position(), at + 4);
        c.seek(start).unwrap();
        assert_eq!(c.read_i32().unwrap(), i32::from_le_bytes(word));
        c.seek(start).unwrap();
        let at = (start + 7) / 8 * 8;
        let long: [u8; 8] = bytes[at..at + 8].try_into().unwrap();
        assert_eq!(c.read_u64().unwrap(), u64::from_le_bytes(long));
        assert_eq!(c.position(), at + 8);
        c.seek(start).unwrap();
        assert_eq!(c.read_i64().unwrap(), i64::from_le_bytes(long));
        c.seek(start).unwrap();
        assert_eq!(c.read_i8().unwrap(), bytes[start] as i8);
        assert_eq!(c.position(), start + 1);
    }
}
