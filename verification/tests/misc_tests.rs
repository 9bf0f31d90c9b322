use ch347_core::bits::{compute_parity, load_le_u32, load_le_u64, popcount};
use ch347_core::command::CommandBuilder;
use ch347_core::format_u8_array;
use ch347_core::transport::{is_ch34x_id, Error};
use ch347_core::Delay;

#[test]
fn command_builder_collects_bytes() {
    let mut b = CommandBuilder::new();
    b.with_byte(0xD0);
    b.with_bytes(&[0x06, 0x00]);
    assert_eq!(b.take(), Some(vec![0xD0, 0x06, 0x00]));
    // Taking empties the builder.
    assert_eq!(b.take(), None);
}

#[test]
fn command_builder_bytes_first() {
    let mut b = CommandBuilder::new();
    b.with_bytes(&[1, 2, 3]);
    b.with_byte(4);
    assert_eq!(b.take(), Some(vec![1, 2, 3, 4]));
}

#[test]
fn format_u8_array_rendering() {
    assert_eq!(format_u8_array(&[]), "[]");
    assert_eq!(format_u8_array(&[0xFF]), "[0xff]");
    assert_eq!(format_u8_array(&[0x01, 0xAB]), "[0x01, 0xab]");
    assert_eq!(format_u8_array(&[0x00, 0x10, 0x9E]), "[0x00, 0x10, 0x9e]");
}

#[test]
fn ch34x_id_table() {
    assert!(is_ch34x_id(0x1A86, 0x55DE));
    assert!(is_ch34x_id(0x1A86, 0x55DD));
    assert!(is_ch34x_id(0x1A86, 0x55E8));
    assert!(!is_ch34x_id(0x1A86, 0x55E9));
    assert!(!is_ch34x_id(0x0483, 0x55DD));
}

#[test]
fn transport_error_is_plain_data() {
    assert_eq!(Error::Tx, Error::Tx);
    assert_ne!(Error::Tx, Error::Rx);
    let _ = Delay::new();
}

#[test]
fn load_le_values() {
    let bits: Vec<bool> = vec![true, false, true, true];
    // LSB-first: 1 + 4 + 8.
    assert_eq!(load_le_u64(&bits), 13);
    assert_eq!(load_le_u32(&bits), 13);
    assert_eq!(load_le_u64(&Vec::new()), 0);
    let ones: Vec<bool> = vec![true; 32];
    assert_eq!(load_le_u32(&ones), 0xFFFF_FFFF);
}

#[test]
fn popcount_and_parity() {
    assert_eq!(popcount(0), 0);
    assert_eq!(popcount(0xFFFF_FFFF), 32);
    assert_eq!(popcount(0x8000_0001), 2);
    assert_eq!(compute_parity(0), 0);
    assert_eq!(compute_parity(0xFFFF_FFFF), 0);
    assert_eq!(compute_parity(0x0000_0100), 1);
}
