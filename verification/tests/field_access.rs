use diavolo_format::field::{Bytes, I64, U16, U32, U64};

#[test]
fn u16_reads_little_endian() {
    let rec = [0x34u8, 0x12, 0xff];
    assert_eq!(U16(0).get(&rec), Some(0x1234));
    assert_eq!(U16(1).get(&rec), Some(0xff12));
    assert_eq!(U16(2).get(&rec), None);
}

#[test]
fn u32_reads_little_endian() {
    let rec = [0x78u8, 0x56, 0x34, 0x12];
    assert_eq!(U32(0).get(&rec), Some(0x1234_5678));
    assert_eq!(U32(1).get(&rec), None);
}

#[test]
fn u64_reads_little_endian() {
    let rec = [1u8, 2, 3, 4, 5, 6, 7, 8, 9];
    assert_eq!(U64(1).get(&rec), Some(0x0908_0706_0504_0302));
    assert_eq!(U64(2).get(&rec), None);
}

#[test]
fn i64_reads_twos_complement() {
    let rec = [0xffu8; 8];
    assert_eq!(I64(0).get(&rec), Some(-1));
    let mut rec2 = [0u8; 8];
    rec2[7] = 0x80;
    assert_eq!(I64(0).get(&rec2), Some(i64::MIN));
}

#[test]
fn truncated_record_gives_none() {
    let rec: [u8; 0] = [];
    assert_eq!(U16(0).get(&rec), None);
    assert_eq!(U64(usize::MAX).get(&[0u8; 16]), None);
    assert_eq!(U32(usize::MAX - 1).get(&[0u8; 16]), None);
    assert_eq!(Bytes::<4>(usize::MAX).get(&[0u8; 16]), None);
}

#[test]
fn put_then_get_round_trips() {
    let mut rec = [0xaau8; 24];
    U16(0).put(&mut rec, 0xbeef);
    U32(2).put(&mut rec, 0xdead_beef);
    U64(6).put(&mut rec, 0x0102_0304_0506_0708);
    I64(14).put(&mut rec, -2);
    assert_eq!(U16(0).get(&rec), Some(0xbeef));
    assert_eq!(U32(2).get(&rec), Some(0xdead_beef));
    assert_eq!(U64(6).get(&rec), Some(0x0102_0304_0506_0708));
    assert_eq!(I64(14).get(&rec), Some(-2));
    assert_eq!(&rec[0..2], &[0xef, 0xbe]);
    assert_eq!(rec[22], 0xaa);
    assert_eq!(rec[23], 0xaa);
}

#[test]
fn put_leaves_other_bytes() {
    let mut rec = [7u8; 6];
    U16(2).put(&mut rec, 0x0102);
    assert_eq!(rec, [7, 7, 2, 1, 7, 7]);
}

#[test]
fn bytes_field_get_and_put() {
    let mut rec = [0u8; 10];
    Bytes::<3>(4).put(&mut rec, &[9, 8, 7]);
    assert_eq!(rec, [0, 0, 0, 0, 9, 8, 7, 0, 0, 0]);
    assert_eq!(Bytes::<3>(4).get(&rec), Some([9, 8, 7]));
    assert_eq!(Bytes::<3>(8).get(&rec), None);
    assert_eq!(Bytes::<0>(10).get(&rec), Some([]));
}

#[test]
fn field_widths() {
    assert_eq!(U16::LEN, 2);
    assert_eq!(U32::LEN, 4);
    assert_eq!(U64::LEN, 8);
    assert_eq!(I64::LEN, 8);
}
