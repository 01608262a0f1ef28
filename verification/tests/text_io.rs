use blobstore::error::StoreError;
use blobstore::store::Store;
use blobstore::text::{decode_text, encode_text};

#[test]
fn text_round_trip() {
    let mut store = Store::new();
    store.write_text("note", "hello world");
    assert_eq!(store.read_text("note").unwrap(), "hello world".to_string());

    store.write_text("unicode", "caff\u{e8} \u{2615} \u{1f680}");
    assert_eq!(
        store.read_text("unicode").unwrap(),
        "caff\u{e8} \u{2615} \u{1f680}".to_string()
    );

    store.write_text("empty", "");
    assert_eq!(store.read_text("empty").unwrap(), String::new());
}

#[test]
fn text_round_trip_by_id() {
    let mut store = Store::new();
    let id = store.write_text("note", "by identifier");
    assert_eq!(store.read_text_by_id(id).unwrap(), "by identifier".to_string());
}

#[test]
fn written_text_reads_back_as_utf8_bytes() {
    let mut store = Store::new();
    store.write_text("mixed", "caf\u{e9}");
    assert_eq!(store.read_bytes("mixed").unwrap(), "caf\u{e9}".as_bytes().to_vec());
}

#[test]
fn invalid_encoding_yields_decode_error() {
    let mut store = Store::new();
    store.write_bytes("binary", &[0xffu8, 0xfe, 0xfd]);
    assert_eq!(store.read_text("binary"), Err(StoreError::DecodeError));
    let id = store.resolve("binary").unwrap();
    assert_eq!(store.read_text_by_id(id), Err(StoreError::DecodeError));
    // The same bytes still read fine as bytes.
    assert_eq!(store.read_bytes("binary").unwrap(), vec![0xffu8, 0xfe, 0xfd]);
}

#[test]
fn truncated_multibyte_sequence_is_rejected() {
    let mut store = Store::new();
    let mut bytes = "\u{2615}".as_bytes().to_vec();
    bytes.pop();
    store.write_bytes("cut", &bytes);
    assert_eq!(store.read_text("cut"), Err(StoreError::DecodeError));
}

#[test]
fn encode_and_decode_helpers() {
    assert_eq!(encode_text("hello"), b"hello".to_vec());
    assert_eq!(encode_text("\u{2615}"), vec![0xe2u8, 0x98, 0x95]);
    assert_eq!(decode_text(b"hello".to_vec()).unwrap(), "hello".to_string());
    assert_eq!(decode_text(vec![0xe2u8, 0x98, 0x95]).unwrap(), "\u{2615}".to_string());
    assert_eq!(decode_text(vec![0x80u8]), Err(StoreError::DecodeError));
}
