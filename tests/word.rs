use rc5::{Word, W16, W32, W64, W8};

#[test]
fn rotations_reduce_the_count_modulo_the_width() {
    assert_eq!(<W8 as Word>::rotl_w(0x81, 1), 0x03);
    assert_eq!(<W8 as Word>::rotl_w(0x81, 9), 0x03);
    assert_eq!(<W16 as Word>::rotr_w(0x0001, 1), 0x8000);
    assert_eq!(<W32 as Word>::rotl_w(0x8000_0001, 32), 0x8000_0001);
    assert_eq!(<W64 as Word>::rotr_w(0x10, 68), 0x01);
}

#[test]
fn arithmetic_wraps() {
    assert_eq!(<W8 as Word>::add_w(0xFF, 0x02), 0x01);
    assert_eq!(<W16 as Word>::sub_w(0x0001, 0x0002), 0xFFFF);
    assert_eq!(<W32 as Word>::xor_w(0xF0F0_F0F0, 0xFFFF_0000), 0x0F0F_F0F0);
}

#[test]
fn little_endian_bytes() {
    let mut out = Vec::new();
    <W32 as Word>::append_le(&mut out, 0x0403_0201);
    assert_eq!(out, vec![1, 2, 3, 4]);
    assert_eq!(<W64 as Word>::read_le(&[1, 0, 0, 0, 0, 0, 0, 0x80]), 0x8000_0000_0000_0001);
}

#[test]
fn magic_constants() {
    assert_eq!(<W8 as Word>::p(), 0xB7);
    assert_eq!(<W16 as Word>::q(), 0x9E37);
    assert_eq!(<W32 as Word>::p(), 0xB7E1_5163);
    assert_eq!(<W64 as Word>::q(), 0x9E37_79B9_7F4A_7C15);
}
