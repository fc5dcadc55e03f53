use sd_spi::response::{
    block_is_decodable, find_data_token, find_start_bit, four_u8_to_u32, mask_zeros_from_lsb_u8,
    mask_zeros_from_msb_u8, parse_r1, parse_r3r7, parse_single_block, parse_stop_response,
    r3r7_is_decodable, stop_response_is_decodable, BLOCK_SIZE, ONE_BLOCK_READ_SIZE,
};

#[test]
fn msb_masks() {
    assert_eq!(mask_zeros_from_msb_u8(1), 0x7f);
    assert_eq!(mask_zeros_from_msb_u8(3), 0x1f);
    assert_eq!(mask_zeros_from_msb_u8(7), 0x01);
    assert_eq!(mask_zeros_from_msb_u8(8), 0x00);
}

#[test]
fn lsb_masks() {
    assert_eq!(mask_zeros_from_lsb_u8(0), 0xff);
    assert_eq!(mask_zeros_from_lsb_u8(1), 0xfe);
    assert_eq!(mask_zeros_from_lsb_u8(4), 0xf0);
    assert_eq!(mask_zeros_from_lsb_u8(7), 0x80);
}

#[test]
fn split_masks_are_complementary() {
    for k in 1u8..8 {
        let hi = mask_zeros_from_msb_u8(k);
        let lo = mask_zeros_from_lsb_u8(8 - k);
        assert_eq!(hi | lo, 0xff);
        assert_eq!(hi & lo, 0x00);
    }
}

#[test]
fn four_bytes_join_big_endian() {
    assert_eq!(four_u8_to_u32(0x12, 0x34, 0x56, 0x78), 0x1234_5678);
    assert_eq!(four_u8_to_u32(0x00, 0x00, 0x01, 0xaa), 0x1aa);
    assert_eq!(four_u8_to_u32(0xff, 0xff, 0xff, 0xff), u32::MAX);
    assert_eq!(four_u8_to_u32(0, 0, 0, 0), 0);
}

#[test]
fn four_bytes_round_trip() {
    for x in [0u32, 1, 0x1aa, 0x4000_0000, 0xdead_beef, u32::MAX] {
        let b = x.to_be_bytes();
        assert_eq!(four_u8_to_u32(b[0], b[1], b[2], b[3]), x);
    }
}

#[test]
fn start_bit_search() {
    let buf = [0xff, 0xff, 0xf7, 0x00];
    assert_eq!(find_start_bit(&buf, 0, 4), Some((2, 4)));
    assert_eq!(find_start_bit(&buf, 0, 2), None);
    assert_eq!(find_start_bit(&buf, 3, 4), Some((3, 0)));
    assert_eq!(find_start_bit(&buf, 2, 2), None);
}

#[test]
fn data_token_search() {
    let buf = [0xfe, 0x01, 0xfe, 0xff];
    assert_eq!(find_data_token(&buf, 0, 4), Some(0));
    assert_eq!(find_data_token(&buf, 1, 4), Some(2));
    assert_eq!(find_data_token(&buf, 3, 4), None);
}

#[test]
fn r1_idle_line() {
    assert_eq!(parse_r1(&[0xff; 10]), 0xff);
}

#[test]
fn r1_aligned_after_idle_bytes() {
    let buf = [0xff, 0xff, 0x01, 0xff, 0xff, 0xff, 0xff, 0xff, 0xff, 0xff];
    assert_eq!(parse_r1(&buf), 0x01);
    let buf = [0x00, 0xff, 0xff, 0xff, 0xff, 0xff, 0xff, 0xff, 0xff, 0xff];
    assert_eq!(parse_r1(&buf), 0x00);
}

#[test]
fn r1_straddling_two_bytes() {
    // idle for twelve bits, then 0000_0001
    let buf = [0xff, 0xf0, 0x1f, 0xff, 0xff, 0xff, 0xff, 0xff, 0xff, 0xff];
    assert_eq!(parse_r1(&buf), 0x01);
    // idle for one bit, then 0000_0101
    let buf = [0x82, 0xff, 0xff, 0xff, 0xff, 0xff, 0xff, 0xff, 0xff, 0xff];
    assert_eq!(parse_r1(&buf), 0x05);
}

#[test]
fn r1_straddling_last_scanned_byte() {
    // the start bit is the last bit of byte 8; the response reaches into byte 9
    let mut buf = [0xff; 10];
    buf[8] = 0xfe;
    buf[9] = 0x00;
    assert_eq!(parse_r1(&buf), 0x00);
    buf[9] = 0x7f;
    assert_eq!(parse_r1(&buf), 0x3f);
    buf[9] = 0xff;
    assert_eq!(parse_r1(&buf), 0x7f);
}

#[test]
fn r1_last_byte_is_not_scanned() {
    let mut buf = [0xff; 10];
    buf[9] = 0x00;
    assert_eq!(parse_r1(&buf), 0xff);
}

#[test]
fn r7_after_idle() {
    let mut buf = [0xff; 16];
    buf[1] = 0x01;
    buf[2] = 0x00;
    buf[3] = 0x00;
    buf[4] = 0x01;
    buf[5] = 0xaa;
    assert!(r3r7_is_decodable(&buf));
    assert_eq!(parse_r3r7(&buf), (0x01, 0x1aa));
}

#[test]
fn r3r7_idle_line() {
    let buf = [0xff; 16];
    assert!(r3r7_is_decodable(&buf));
    assert_eq!(parse_r3r7(&buf), (0xff, 0xff));
}

#[test]
fn r3r7_not_decodable() {
    // a response that straddles two bytes
    let mut buf = [0xff; 16];
    buf[2] = 0xf0;
    assert!(!r3r7_is_decodable(&buf));
    // a response too close to the end for its four data bytes
    let mut buf = [0xff; 16];
    buf[12] = 0x00;
    assert!(!r3r7_is_decodable(&buf));
    buf[12] = 0xff;
    buf[11] = 0x00;
    assert!(r3r7_is_decodable(&buf));
    assert_eq!(parse_r3r7(&buf), (0x00, 0xffff_ffff));
}

fn block_buffer(r1_at: usize, token_at: usize) -> [u8; ONE_BLOCK_READ_SIZE] {
    let mut buf = [0xff; ONE_BLOCK_READ_SIZE];
    buf[r1_at] = 0x00;
    buf[token_at] = 0xfe;
    for m in 0..BLOCK_SIZE {
        if token_at + 1 + m < ONE_BLOCK_READ_SIZE {
            buf[token_at + 1 + m] = (m % 251) as u8;
        }
    }
    buf
}

#[test]
fn single_block_after_token() {
    let buf = block_buffer(2, 5);
    assert!(block_is_decodable(&buf));
    let (r1, data) = parse_single_block(&buf);
    assert_eq!(r1, 0x00);
    for m in 0..BLOCK_SIZE {
        assert_eq!(data[m], (m % 251) as u8);
    }
}

#[test]
fn single_block_last_token_position() {
    let buf = block_buffer(0, 387);
    assert!(block_is_decodable(&buf));
    let (_, data) = parse_single_block(&buf);
    assert_eq!(data[511], (511 % 251) as u8);
    let buf = block_buffer(0, 388);
    assert!(!block_is_decodable(&buf));
}

#[test]
fn single_block_without_token() {
    let mut buf = [0xff; ONE_BLOCK_READ_SIZE];
    buf[3] = 0x05;
    assert!(block_is_decodable(&buf));
    assert_eq!(parse_single_block(&buf), (0xff, [0xff; BLOCK_SIZE]));
    let buf = [0xff; ONE_BLOCK_READ_SIZE];
    assert_eq!(parse_single_block(&buf), (0xff, [0xff; BLOCK_SIZE]));
}

#[test]
fn single_block_straddling_response_is_not_decodable() {
    let mut buf = block_buffer(2, 5);
    buf[2] = 0xff;
    buf[1] = 0xfc;
    assert!(!block_is_decodable(&buf));
}

#[test]
fn data_token_alone_reads_as_a_straddling_response() {
    // the token 0xfe holds a zero bit, so it is taken as a response start
    let mut buf = [0xff; ONE_BLOCK_READ_SIZE];
    buf[1] = 0xfe;
    assert!(!block_is_decodable(&buf));
}

#[test]
fn stop_response_skips_first_byte() {
    let mut buf = [0xff; 11];
    buf[0] = 0x00;
    buf[3] = 0x04;
    assert!(stop_response_is_decodable(&buf));
    assert_eq!(parse_stop_response(&buf), 0x04);
}

#[test]
fn stop_response_idle_and_misaligned() {
    let buf = [0xff; 11];
    assert!(stop_response_is_decodable(&buf));
    assert_eq!(parse_stop_response(&buf), 0xff);
    let mut buf = [0xff; 11];
    buf[4] = 0xef;
    assert!(!stop_response_is_decodable(&buf));
    let mut buf = [0xff; 11];
    buf[10] = 0x00;
    assert_eq!(parse_stop_response(&buf), 0xff);
}
