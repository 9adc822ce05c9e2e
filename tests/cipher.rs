use rc5::{rc5_w32, rc5_w64, rc5_w8, Key, Rc5, Rc5Error, WordError};

fn key_of(bytes: &[u8]) -> Key {
    Key::try_from(bytes).unwrap()
}

fn sixteen_byte_key() -> Key {
    let key: Vec<u8> = (0u8..16).collect();
    key_of(&key)
}

#[test]
fn w8_reference_vector() {
    let pt = vec![
        0x00, 0x01, 0x00, 0x01, 0x00, 0x01, 0x00, 0x01, 0x00, 0x01, 0x00, 0x01, 0x00, 0x01,
    ];
    let ct = vec![
        0x21, 0x2A, 0x21, 0x2A, 0x21, 0x2A, 0x21, 0x2A, 0x21, 0x2A, 0x21, 0x2A, 0x21, 0x2A,
    ];
    let rc5 = rc5_w8(key_of(&[0x00, 0x01, 0x02, 0x03]), 12).unwrap();

    assert_eq!(rc5.encode(&pt).unwrap(), ct);
    assert_eq!(rc5.decode(&ct).unwrap(), pt);
}

#[test]
fn w32_reference_vector() {
    let pt = vec![0x00, 0x11, 0x22, 0x33, 0x44, 0x55, 0x66, 0x77];
    let ct = vec![0x2D, 0xDC, 0x14, 0x9B, 0xCF, 0x08, 0x8B, 0x9E];
    let rc5 = rc5_w32(sixteen_byte_key(), 12).unwrap();

    assert_eq!(rc5.encode(&pt).unwrap(), ct);
    assert_eq!(rc5.decode(&ct).unwrap(), pt);
}

#[test]
fn w64_reference_vector() {
    let key: Vec<u8> = (0u8..24).collect();
    let pt: Vec<u8> = (0u8..16).collect();
    let ct = vec![
        0xA4, 0x67, 0x72, 0x82, 0x0E, 0xDB, 0xCE, 0x02, 0x35, 0xAB, 0xEA, 0x32, 0xAE, 0x71,
        0x78, 0xDA,
    ];
    let rc5 = rc5_w64(key_of(&key), 24).unwrap();

    assert_eq!(rc5.encode(&pt).unwrap(), ct);
    assert_eq!(rc5.decode(&ct).unwrap(), pt);
}

#[test]
fn w32_multi_block_round_trip() {
    let pt: Vec<u8> = (0u8..64).map(|i| i.wrapping_mul(37).wrapping_add(5)).collect();
    let rc5 = rc5_w32(sixteen_byte_key(), 12).unwrap();

    let ct = rc5.encode(&pt).unwrap();
    assert_eq!(ct.len(), pt.len());
    assert_ne!(ct, pt);
    assert_eq!(rc5.decode(&ct).unwrap(), pt);
}

#[test]
fn w32_blocks_are_independent() {
    let block = vec![0x00, 0x11, 0x22, 0x33, 0x44, 0x55, 0x66, 0x77];
    let mut pt = block.clone();
    pt.extend_from_slice(&block);
    let rc5 = rc5_w32(sixteen_byte_key(), 12).unwrap();

    let ct = rc5.encode(&pt).unwrap();
    let expected = vec![0x2D, 0xDC, 0x14, 0x9B, 0xCF, 0x08, 0x8B, 0x9E];
    assert_eq!(&ct[..8], &expected[..]);
    assert_eq!(&ct[8..], &expected[..]);
}

#[test]
fn w32_misaligned_input() {
    let pt = vec![0x00, 0x11, 0x22, 0x33, 0x44, 0x55, 0x66];
    let rc5 = rc5_w32(sixteen_byte_key(), 12).unwrap();

    assert_eq!(
        rc5.encode(&pt),
        Err(Rc5Error::WordError(WordError::InputCanNotBeSplittedByBlocks(7, 8)))
    );
    assert_eq!(
        rc5.decode(&pt),
        Err(Rc5Error::WordError(WordError::InputCanNotBeSplittedByBlocks(7, 8)))
    );
}

#[test]
fn empty_input_gives_empty_output() {
    let rc5 = rc5_w32(sixteen_byte_key(), 12).unwrap();

    assert_eq!(rc5.encode(&[]).unwrap(), Vec::<u8>::new());
    assert_eq!(rc5.decode(&[]).unwrap(), Vec::<u8>::new());
}

#[test]
fn key_not_word_aligned() {
    let result = rc5_w32(key_of(&[1, 2, 3, 4, 5]), 12);

    assert!(matches!(
        result,
        Err(Rc5Error::WordError(WordError::InputCanNotBeSplittedByWords(5, 4)))
    ));
}

#[test]
fn w64_key_shorter_than_a_word() {
    let result = rc5_w64(key_of(&[1, 2, 3, 4]), 20);

    assert!(matches!(
        result,
        Err(Rc5Error::WordError(WordError::InputCanNotBeSplittedByWords(4, 8)))
    ));
}

#[test]
fn zero_rounds_round_trip() {
    let pt = vec![0x00, 0x11, 0x22, 0x33, 0x44, 0x55, 0x66, 0x77];
    let rc5 = rc5_w32(sixteen_byte_key(), 0).unwrap();

    let ct = rc5.encode(&pt).unwrap();
    assert_ne!(ct, pt);
    assert_eq!(rc5.decode(&ct).unwrap(), pt);
}

#[test]
fn equal_setups_agree() {
    let pt = vec![9, 8, 7, 6, 5, 4, 3, 2, 1, 0, 1, 2, 3, 4, 5, 6];
    let first = rc5_w32(sixteen_byte_key(), 12).unwrap();
    let second = rc5_w32(sixteen_byte_key(), 12).unwrap();

    assert_eq!(first.encode(&pt).unwrap(), second.encode(&pt).unwrap());
    assert_eq!(first.decode(&pt).unwrap(), second.decode(&pt).unwrap());
}

#[test]
fn repeated_calls_agree() {
    let pt = vec![1, 2, 3, 4, 5, 6, 7, 8];
    let rc5 = rc5_w32(sixteen_byte_key(), 12).unwrap();

    let once = rc5.encode(&pt).unwrap();
    assert_eq!(rc5.encode(&pt).unwrap(), once);
    let back = rc5.decode(&once).unwrap();
    assert_eq!(rc5.decode(&once).unwrap(), back);
}

#[test]
fn single_byte_key_w8_round_trip() {
    let pt = vec![0xFF, 0x00, 0x7F, 0x80];
    let rc5 = rc5_w8(key_of(&[0xAB]), 12).unwrap();

    let ct = rc5.encode(&pt).unwrap();
    assert_eq!(ct.len(), 4);
    assert_eq!(rc5.decode(&ct).unwrap(), pt);
}

#[test]
fn largest_key_round_trip() {
    let key: Vec<u8> = (0..256).map(|i| i as u8).collect();
    let pt: Vec<u8> = (0u8..32).collect();
    let rc5 = rc5_w64(key_of(&key), 20).unwrap();

    let ct = rc5.encode(&pt).unwrap();
    assert_eq!(rc5.decode(&ct).unwrap(), pt);
}
