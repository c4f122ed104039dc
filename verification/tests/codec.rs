//! The arbitrary-precision values and the typed byte codec on concrete
//! inputs: round trips, truncation, two's complement, and both
//! endianness choices.

use pcode::bignum::{BigSigned, BigUnsigned};
use pcode::space::Space;
use pcode::codec::{Read, Write};
use pcode::pcode::{Opcode, SpaceType};
use pcode::shared::{shared_slice_len, slice_len, Shared};

#[test]
fn unsigned_round_trip_le() {
    let bytes = [0xEFu8, 0xBE, 0xAD, 0xDE];
    let value = BigUnsigned::from_le_bytes(&bytes);
    assert_eq!(value.encode_le(4), vec![0xEF, 0xBE, 0xAD, 0xDE]);
    assert_eq!(value.to_u64(), Some(0xDEAD_BEEF));
}

#[test]
fn unsigned_round_trip_be() {
    let bytes = [0xDEu8, 0xAD, 0xBE, 0xEF];
    let value = BigUnsigned::from_be_bytes(&bytes);
    assert_eq!(value.to_u64(), Some(0xDEAD_BEEF));
    assert_eq!(value.encode_be(4), vec![0xDE, 0xAD, 0xBE, 0xEF]);
}

#[test]
fn unsigned_write_pads_and_truncates() {
    let value = BigUnsigned::from_u64(0x1_0234);
    // Padded above the value's bytes.
    assert_eq!(value.encode_le(4), vec![0x34, 0x02, 0x01, 0x00]);
    // Truncated to the low-order bytes where it does not fit.
    assert_eq!(value.encode_le(2), vec![0x34, 0x02]);
    assert_eq!(value.encode_be(2), vec![0x02, 0x34]);
}

#[test]
fn signed_decode_two_complement() {
    let minus_one = BigSigned::decode_le(&[0xFF, 0xFF]);
    assert!(minus_one.negative);
    assert_eq!(minus_one.encode_le(2), vec![0xFF, 0xFF]);
    assert_eq!(minus_one.encode_le(4), vec![0xFF, 0xFF, 0xFF, 0xFF]);
    let minus_256 = BigSigned::decode_le(&[0x00, 0xFF]);
    assert!(minus_256.negative);
    assert_eq!(minus_256.encode_le(2), vec![0x00, 0xFF]);
    let plus = BigSigned::decode_le(&[0x7F, 0x00]);
    assert!(!plus.negative);
    assert_eq!(plus.encode_le(1), vec![0x7F]);
}

#[test]
fn signed_decode_big_endian() {
    let minus_two = BigSigned::decode_be(&[0xFF, 0xFE]);
    assert!(minus_two.negative);
    assert_eq!(minus_two.encode_be(2), vec![0xFF, 0xFE]);
    assert_eq!(minus_two.encode_le(2), vec![0xFE, 0xFF]);
}

#[test]
fn signed_arithmetic_through_num() {
    let a = BigSigned::from_i128(-5);
    let b = BigSigned::from_i128(3);
    let sum = a.add(&b);
    assert!(sum.negative);
    assert_eq!(sum.encode_le(1), vec![0xFE]);
    let diff = b.sub(&a);
    assert!(!diff.negative);
    assert_eq!(diff.encode_le(1), vec![8]);
}

#[test]
fn unsigned_arithmetic_through_num() {
    let a = BigUnsigned::from_u64(u64::MAX);
    let b = BigUnsigned::from_u64(1);
    let sum = a.add(&b);
    assert_eq!(sum.to_u64(), None);
    assert_eq!(sum.to_u128(), Some(0x1_0000_0000_0000_0000));
    assert_eq!(sum.low_u64(), 0);
}

#[test]
fn comparisons_ignore_trailing_zero_bytes() {
    let short = BigUnsigned::from_le_bytes(&[7]);
    let long = BigUnsigned::from_le_bytes(&[7, 0, 0, 0]);
    assert!(short.equals(&long));
    assert!(!short.less_than(&long));
    let eight = BigUnsigned::from_le_bytes(&[8]);
    assert!(short.less_than(&eight));
    assert!(!eight.less_than(&short));
}

#[test]
fn count_ones_over_the_value() {
    assert_eq!(BigUnsigned::from_u64(0).count_ones(), 0);
    assert_eq!(BigUnsigned::from_u64(0xFF00_FF).count_ones(), 16);
    assert_eq!(BigUnsigned::from_u64(u64::MAX).count_ones(), 64);
}

#[test]
fn typed_reads() {
    let le = [0x78u8, 0x56, 0x34, 0x12];
    let as_u32 = <u32 as Read>::read(false, &le);
    assert_eq!(as_u32, 0x1234_5678);
    let as_be = <u32 as Read>::read(true, &le);
    assert_eq!(as_be, 0x7856_3412);
    let minus_one = <i32 as Read>::read(false, &[0xFF, 0xFF, 0xFF, 0xFF]);
    assert_eq!(minus_one, -1);
    let narrow = <i8 as Read>::read(false, &[0x80]);
    assert_eq!(narrow, -128);
    let truthy = <bool as Read>::read(false, &[0, 2, 0]);
    assert!(truthy);
    let falsy = <bool as Read>::read(true, &[0, 0]);
    assert!(!falsy);
    let wide = <u128 as Read>::read(false, &[0xFF; 16]);
    assert_eq!(wide, u128::MAX);
    let wide_signed = <i128 as Read>::read(false, &[0xFF; 16]);
    assert_eq!(wide_signed, -1);
}

#[test]
fn typed_writes() {
    let mut buffer = vec![0u8; 4];
    0x1234_5678u32.write(false, &mut buffer);
    assert_eq!(buffer, vec![0x78, 0x56, 0x34, 0x12]);
    0x1234_5678u32.write(true, &mut buffer);
    assert_eq!(buffer, vec![0x12, 0x34, 0x56, 0x78]);
    (-1i32).write(false, &mut buffer);
    assert_eq!(buffer, vec![0xFF, 0xFF, 0xFF, 0xFF]);
    (-2i16).write(false, &mut buffer);
    assert_eq!(buffer, vec![0xFE, 0xFF, 0xFF, 0xFF]);
    true.write(false, &mut buffer);
    assert_eq!(buffer, vec![1, 0, 0, 0]);
    let mut narrow = vec![0u8; 2];
    0xDEAD_BEEFu32.write(false, &mut narrow);
    assert_eq!(narrow, vec![0xEF, 0xBE]);
}

#[test]
fn opcode_tags_follow_the_translator_numbering() {
    assert_eq!(Opcode::from_u32(1), Some(Opcode::Copy));
    assert_eq!(Opcode::from_u32(19), Some(Opcode::IntAdd));
    assert_eq!(Opcode::from_u32(45), None);
    assert_eq!(Opcode::from_u32(72), Some(Opcode::PopCount));
    assert_eq!(Opcode::from_u32(74), None);
    assert_eq!(SpaceType::from_u32(0), Some(SpaceType::Constant));
    assert_eq!(SpaceType::from_u32(7), None);
}

#[test]
fn shared_cell() {
    let mut cell = Shared::new(3u32);
    assert_eq!(*cell.read(), 3);
    *cell.write() = 4;
    assert_eq!(cell.replace(9), 4);
    assert_eq!(cell.read_in_place(|v: &u32| v + 1), 10);
    let mut holder = Shared::new(Some(5u32));
    assert_eq!(holder.take(), Some(5));
    assert_eq!(holder.take(), None);
    assert!(slice_len(&[1, 2], &[3, 4]));
    assert!(!shared_slice_len(&Shared::new(vec![1]), &Shared::new(vec![1, 2])));
}

#[test]
fn space_returns_what_was_set() {
    let mut space = Space::new(false);
    space.set_bytes(0x4000, &[1, 2, 3, 4]);
    assert_eq!(space.get_bytes(0x4000, 4), vec![1, 2, 3, 4]);
    // Overlapping writes overwrite byte by byte.
    space.set_bytes(0x4002, &[9, 9]);
    assert_eq!(space.get_bytes(0x4000, 4), vec![1, 2, 9, 9]);
}

#[test]
fn space_reads_zero_where_nothing_was_written() {
    let mut space = Space::new(false);
    assert_eq!(space.get_bytes(0x8000, 3), vec![0, 0, 0]);
    space.set_bytes(0x8004, &[7]);
    // The untouched range on either side still reads as zero.
    assert_eq!(space.get_bytes(0x8000, 8), vec![0, 0, 0, 0, 7, 0, 0, 0]);
}

#[test]
fn empty_buffers_decode_to_zero() {
    let nothing = BigUnsigned::from_le_bytes(&[]);
    assert!(nothing.equals(&BigUnsigned::zero()));
    assert_eq!(nothing.encode_le(2), vec![0, 0]);
    let signed_nothing = BigSigned::decode_le(&[]);
    assert!(!signed_nothing.negative);
    assert_eq!(signed_nothing.encode_le(0), Vec::<u8>::new());
}
