use rc5::{Key, KeyError};

#[test]
fn zero_size_key() {
    let key = vec![];

    assert_eq!(
        Key::try_from(key.as_ref()).unwrap_err(),
        KeyError::InvalidLength(0)
    );
}

#[test]
fn one_byte_key() {
    let key = vec![0x00];

    assert!(Key::try_from(key.as_ref()).is_ok());
}

#[test]
fn largest_key() {
    let key = vec![0; 256];

    assert!(Key::try_from(key.as_ref()).is_ok());
}

#[test]
fn too_long_key() {
    let key = vec![0; 257];

    assert_eq!(
        Key::try_from(key.as_ref()).unwrap_err(),
        KeyError::InvalidLength(257)
    );
}

#[test]
fn correct_key() {
    let key = vec![0x00, 0x01, 0x02, 0x03, 0x04, 0x05, 0x06, 0x07];

    assert!(Key::try_from(key.as_ref()).is_ok());
}

#[test]
fn key_keeps_its_bytes() {
    let key = vec![0x10, 0x20, 0x30];

    assert_eq!(Key::try_from(key.as_ref()).unwrap().raw(), &key[..]);
}
