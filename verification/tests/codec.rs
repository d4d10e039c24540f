use kv_storage::capability::{Deserializer, Serializer};
use kv_storage::codec::Bincode;

fn number(bytes: &[u8]) -> Result<u128, Box<bincode::ErrorKind>> {
    <Bincode as Deserializer<u128>>::deserialize(bytes.to_vec())
}

fn text(bytes: &[u8]) -> Result<String, Box<bincode::ErrorKind>> {
    <Bincode as Deserializer<String>>::deserialize(bytes.to_vec())
}

#[test]
fn number_is_sixteen_little_endian_bytes() {
    let mut serde = Bincode::new();
    assert_eq!(
        serde.serialize(&500u128).unwrap(),
        &[0xf4, 1, 0, 0, 0, 0, 0, 0, 0, 0, 0, 0, 0, 0, 0, 0]
    );
    assert_eq!(serde.serialize(&u128::MAX).unwrap(), &[0xff; 16]);
    assert_eq!(
        serde.serialize(&(1u128 << 120)).unwrap(),
        &[0, 0, 0, 0, 0, 0, 0, 0, 0, 0, 0, 0, 0, 0, 0, 1]
    );
}

#[test]
fn text_is_length_then_utf8() {
    let mut serde = Bincode::new();
    assert_eq!(
        serde.serialize(&"hello".to_owned()).unwrap(),
        &[5, 0, 0, 0, 0, 0, 0, 0, b'h', b'e', b'l', b'l', b'o']
    );
    assert_eq!(
        serde.serialize(&"".to_owned()).unwrap(),
        &[0, 0, 0, 0, 0, 0, 0, 0]
    );
    assert_eq!(
        serde.serialize(&"\u{e9}".to_owned()).unwrap(),
        &[2, 0, 0, 0, 0, 0, 0, 0, 0xc3, 0xa9]
    );
}

#[test]
fn buffer_is_reused_not_appended_to() {
    let mut serde = Bincode::new_with_buffer(vec![9, 9, 9]);
    assert_eq!(serde.serialize(&"abc".to_owned()).unwrap().len(), 11);
    assert_eq!(serde.serialize(&1u128).unwrap().len(), 16);
    assert_eq!(serde.serialize(&"".to_owned()).unwrap().len(), 8);
    let mut roomy = Bincode::new_with_capacity(128);
    assert_eq!(roomy.serialize(&2u128).unwrap(), &2u128.to_le_bytes());
    let mut plain = Bincode::default();
    assert_eq!(plain.serialize(&3u128).unwrap(), &3u128.to_le_bytes());
}

#[test]
fn number_decodes_from_the_front() {
    assert_eq!(number(&500u128.to_le_bytes()).unwrap(), 500);
    let mut trailing = 77u128.to_le_bytes().to_vec();
    trailing.extend_from_slice(&[1, 2, 3]);
    assert_eq!(number(&trailing).unwrap(), 77);
    assert_eq!(
        number(&[1, 2, 3, 4, 5, 6, 7, 8, 9, 10, 11, 12, 13, 14, 15, 16]).unwrap(),
        0x100f0e0d0c0b0a090807060504030201
    );
}

#[test]
fn short_number_fails() {
    assert!(number(&[]).is_err());
    assert!(number(&[0; 15]).is_err());
}

#[test]
fn text_decodes_from_the_front() {
    assert_eq!(text(&[0, 0, 0, 0, 0, 0, 0, 0]).unwrap(), "");
    assert_eq!(
        text(&[2, 0, 0, 0, 0, 0, 0, 0, b'h', b'i']).unwrap(),
        "hi"
    );
    assert_eq!(
        text(&[2, 0, 0, 0, 0, 0, 0, 0, b'h', b'i', b'!', 0xff]).unwrap(),
        "hi"
    );
    assert_eq!(
        text(&[2, 0, 0, 0, 0, 0, 0, 0, 0xc3, 0xa9]).unwrap(),
        "\u{e9}"
    );
}

#[test]
fn malformed_text_fails() {
    // no room for the count
    assert!(text(&[]).is_err());
    assert!(text(&[0; 7]).is_err());
    // fewer bytes than counted
    assert!(text(&[3, 0, 0, 0, 0, 0, 0, 0, b'h', b'i']).is_err());
    assert!(text(&[0xff; 8]).is_err());
    // not UTF-8
    assert!(text(&[1, 0, 0, 0, 0, 0, 0, 0, 0xff]).is_err());
    assert!(text(&[1, 0, 0, 0, 0, 0, 0, 0, 0xc3, 0xa9]).is_err());
}

#[test]
fn encoding_then_decoding_gives_the_item() {
    let mut serde = Bincode::new();
    for value in [0u128, 1, 500, 1 << 64, u128::MAX] {
        let bytes = serde.serialize(&value).unwrap().to_vec();
        assert_eq!(number(&bytes).unwrap(), value);
    }
    for value in ["", "hello", "h\u{e9}llo", "\u{1f980}"] {
        let bytes = serde.serialize(&value.to_owned()).unwrap().to_vec();
        assert_eq!(text(&bytes).unwrap(), value);
    }
}
