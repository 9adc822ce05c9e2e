use rc5::{BlocksIterator, WordError, WordsIterator, W16, W32, W8};

#[test]
fn blocks_iterator_invalid_bytes_input() {
    let bytes = vec![0x00, 0x11, 0x22, 0x33, 0x44, 0x55, 0x66];

    assert!(matches!(
        BlocksIterator::<W32>::try_from(bytes.as_ref()),
        Err(WordError::InputCanNotBeSplittedByBlocks(7, 8))
    ));
}

#[test]
fn blocks_iterator_correct_bytes_input() {
    let bytes = vec![0x00, 0x11, 0x22, 0x33, 0x44, 0x55, 0x66, 0x77];

    let mut iterator = BlocksIterator::<W32>::try_from(bytes.as_ref()).unwrap();

    assert_eq!(iterator.next(), Some((857870592, 2003195204)));
    assert_eq!(iterator.next(), None);
}

#[test]
fn words_iterator_invalid_bytes_input() {
    let bytes = vec![0x00, 0x11, 0x22, 0x33, 0x44, 0x55, 0x66];

    assert_eq!(
        WordsIterator::<W32>::try_from(bytes.as_ref())
            .err()
            .unwrap(),
        WordError::InputCanNotBeSplittedByWords(7, 4)
    );
}

#[test]
fn words_iterator_correct_bytes_input() {
    let bytes = vec![0x00, 0x11, 0x22, 0x33, 0x44, 0x55, 0x66, 0x77];

    let mut iterator = WordsIterator::<W32>::try_from(bytes.as_ref()).unwrap();

    assert_eq!(iterator.next(), Some(857870592));
    assert_eq!(iterator.next(), Some(2003195204));
    assert_eq!(iterator.next(), None);
}

#[test]
fn words_iterator_reads_little_endian_u16() {
    let bytes = vec![0x01, 0x02, 0xFF, 0x00];

    let mut iterator = WordsIterator::<W16>::try_from(bytes.as_ref()).unwrap();

    assert_eq!(iterator.next(), Some(0x0201));
    assert_eq!(iterator.next(), Some(0x00FF));
    assert_eq!(iterator.next(), None);
}

#[test]
fn blocks_iterator_empty_input() {
    let bytes: Vec<u8> = vec![];

    let mut iterator = BlocksIterator::<W8>::try_from(bytes.as_ref()).unwrap();

    assert_eq!(iterator.next(), None);
}
