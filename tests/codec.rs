use steganography::grid::{decode_secret, encode_secret, StegError};
use steganography::header::{read_length_header, write_length_header};
use steganography::triple::{read_triple, write_triple};

fn header_round_trip(len: u64) -> u64 {
    let mut grid = vec![0u8; 3 * 22];
    write_length_header(&mut grid, len);
    read_length_header(&grid)
}

#[test]
fn write_triple_sets_only_low_bits() {
    let mut grid = vec![0xFFu8, 0x00, 0x10, 0x42, 0x42, 0x42];
    write_triple(&mut grid, 0, 0b1010_0000);
    assert_eq!(grid, vec![0xFF, 0x00, 0x11, 0x42, 0x42, 0x42]);
    assert_eq!(read_triple(&grid, 0), 5);
    write_triple(&mut grid, 1, 0b0101_1111);
    assert_eq!(grid, vec![0xFF, 0x00, 0x11, 0x42, 0x43, 0x42]);
    assert_eq!(read_triple(&grid, 1), 2);
}

#[test]
fn header_round_trips_small_lengths() {
    for len in [0u64, 1, 3, 255, (1u64 << 32) - 1, (1u64 << 59) - 1] {
        assert_eq!(header_round_trip(len), len);
    }
}

#[test]
fn header_keeps_low_59_bits() {
    assert_eq!(header_round_trip(u64::MAX), (1u64 << 59) - 1);
    assert_eq!(header_round_trip(1u64 << 59), 0);
}

#[test]
fn header_layout_for_three() {
    let mut grid = vec![0u8; 3 * 22];
    write_length_header(&mut grid, 3);
    let mut expected = vec![0u8; 3 * 22];
    expected[3 * 19 + 2] = 1;
    expected[3 * 20] = 1;
    assert_eq!(grid, expected);
}

#[test]
fn foo_into_zero_grid() {
    let mut grid = vec![0u8; 3 * 31];
    assert_eq!(encode_secret("foo", &mut grid), Ok(()));
    let mut expected = vec![0u8; 3 * 31];
    expected[3 * 19 + 2] = 1;
    expected[3 * 20] = 1;
    // 'f' = 011 001 10(0), 'o' = 011 011 11(0)
    let payload = [0, 1, 1, 0, 0, 1, 1, 0, 0, 0, 1, 1, 0, 1, 1, 1, 1, 0, 0, 1, 1, 0, 1, 1, 1, 1, 0];
    for (i, bit) in payload.iter().enumerate() {
        expected[3 * 22 + i] = *bit;
    }
    assert_eq!(grid, expected);
    assert_eq!(decode_secret(&grid), Ok("foo".to_string()));
}

#[test]
fn round_trip_keeps_high_bits_of_cover() {
    let cover: Vec<u8> = (0..3 * 64).map(|i| (i * 37 % 256) as u8).collect();
    let mut grid = cover.clone();
    assert_eq!(encode_secret("héllo ✓", &mut grid), Ok(()));
    for (a, b) in cover.iter().zip(grid.iter()) {
        assert_eq!(a >> 1, b >> 1);
    }
    assert_ne!(grid, cover);
    assert_eq!(decode_secret(&grid), Ok("héllo ✓".to_string()));
}

#[test]
fn capacity_boundary() {
    // 40 pixels: (40 - 22) / 3 = 6 bytes fit.
    let mut grid = vec![7u8; 3 * 40];
    assert_eq!(encode_secret("sixsix", &mut grid), Ok(()));
    assert_eq!(decode_secret(&grid), Ok("sixsix".to_string()));
    let mut grid = vec![7u8; 3 * 40];
    assert_eq!(encode_secret("seven77", &mut grid), Err(StegError::CapacityExceeded));
    assert_eq!(grid, vec![7u8; 3 * 40]);
}

#[test]
fn too_small_grid_is_left_unchanged() {
    let mut grid = vec![9u8; 3 * 30];
    assert_eq!(encode_secret("foo", &mut grid), Err(StegError::CapacityExceeded));
    assert_eq!(grid, vec![9u8; 3 * 30]);
    let mut tiny = vec![1u8; 10];
    assert_eq!(encode_secret("", &mut tiny), Err(StegError::CapacityExceeded));
}

#[test]
fn empty_secret_uses_only_header() {
    let mut grid = vec![0xAAu8; 3 * 22];
    assert_eq!(encode_secret("", &mut grid), Ok(()));
    assert_eq!(decode_secret(&grid), Ok(String::new()));
}

#[test]
fn decode_saturated_grid_fails_for_capacity() {
    let grid = vec![0xFFu8; 3 * 100];
    assert_eq!(decode_secret(&grid), Err(StegError::CapacityExceeded));
}

#[test]
fn decode_zero_grid_reads_empty_secret() {
    let grid = vec![0u8; 3 * 100];
    assert_eq!(decode_secret(&grid), Ok(String::new()));
}

#[test]
fn decode_short_grid_fails_for_capacity() {
    let grid = vec![0u8; 3 * 21 + 2];
    assert_eq!(decode_secret(&grid), Err(StegError::CapacityExceeded));
}

#[test]
fn decode_invalid_utf8_payload() {
    let mut grid = vec![0u8; 3 * 25];
    write_length_header(&mut grid, 1);
    write_triple(&mut grid, 22, 0xFF);
    write_triple(&mut grid, 23, 0xFF << 3);
    write_triple(&mut grid, 24, 0xFF << 6);
    assert_eq!(decode_secret(&grid), Err(StegError::InvalidUtf8));
}
