use blobstore::chunk::checksum;
use blobstore::error::StoreError;
use blobstore::store::Store;

#[test]
fn basic_example() {
    let mut store = Store::new();
    store.write_bytes("a.txt", b"hello");
    let bytes = store.read_bytes("a.txt").unwrap();
    assert_eq!(bytes, b"hello".to_vec());
    assert_eq!(bytes.len(), 5);
    assert!(store.name_exists("a.txt"));
    assert!(!store.name_exists("b.txt"));
}

#[test]
fn round_trip_bytes() {
    let cases: Vec<Vec<u8>> = vec![
        Vec::new(),
        vec![0u8],
        vec![255u8, 0u8, 127u8, 128u8],
        (0..1000u32).map(|i| (i % 251) as u8).collect(),
    ];
    for (k, content) in cases.iter().enumerate() {
        let mut store = Store::new();
        let name = format!("object-{}", k);
        store.write_bytes(&name, content);
        let back = store.read_bytes(&name).unwrap();
        assert_eq!(&back, content);
    }
}

#[test]
fn empty_content_is_not_an_error() {
    let mut store = Store::new();
    let id = store.write_bytes("empty", b"");
    assert_eq!(store.read_bytes("empty").unwrap(), Vec::<u8>::new());
    assert_eq!(store.read_bytes_by_id(id).unwrap(), Vec::<u8>::new());
    assert!(store.name_exists("empty"));
}

#[test]
fn unwritten_name_not_found() {
    let mut store = Store::new();
    store.write_bytes("present", b"data");
    assert_eq!(store.resolve("absent"), Err(StoreError::NotFound));
    assert_eq!(store.read_bytes("absent"), Err(StoreError::NotFound));
    assert_eq!(store.read_text("absent"), Err(StoreError::NotFound));
    assert_eq!(store.read_bytes_by_id(999), Err(StoreError::NotFound));
    assert_eq!(store.read_text_by_id(999), Err(StoreError::NotFound));
    assert!(store.describe(999).is_err());
}

#[test]
fn exists_lifecycle() {
    let mut store = Store::new();
    assert!(!store.name_exists("thing"));
    store.write_bytes("thing", b"content");
    assert!(store.name_exists("thing"));
    assert!(!store.name_exists("never-written"));
}

#[test]
fn overwrite_resolves_to_most_recent() {
    let mut store = Store::new();
    let first = store.write_bytes("doc", b"one");
    let second = store.write_bytes("doc", b"two");
    assert_ne!(first, second);
    assert_eq!(store.resolve("doc").unwrap(), second);
    assert_eq!(store.read_bytes("doc").unwrap(), b"two".to_vec());
    // The old record is shadowed, not destroyed: its identifier still reads.
    assert_eq!(store.read_bytes_by_id(first).unwrap(), b"one".to_vec());
}

#[test]
fn identifiers_grow_in_publication_order() {
    let mut store = Store::new();
    let a = store.write_bytes("a", b"1");
    let b = store.write_bytes("b", b"22");
    let c = store.write_bytes("a", b"333");
    assert!(a < b && b < c);
}

#[test]
fn describe_reports_metadata() {
    let mut store = Store::new();
    let id = store.write_bytes("greeting", b"hello");
    let rec = store.describe(id).unwrap();
    assert_eq!(rec.id, id);
    assert_eq!(rec.name, "greeting".to_string());
    assert_eq!(rec.length, 5);
    assert_eq!(rec.checksum, 0xa430d84680aabd0b);
    assert!(matches!(store.describe(id + 1), Err(StoreError::NotFound)));
}

#[test]
fn checksum_known_values() {
    assert_eq!(checksum(b""), 0xcbf29ce484222325);
    assert_eq!(checksum(b"a"), 0xaf63dc4c8601ec8c);
    assert_eq!(checksum(b"hello"), 0xa430d84680aabd0b);
}

#[test]
fn checksum_matches_describe() {
    let mut store = Store::new();
    let payload: Vec<u8> = (0..5000u32).map(|i| (i * 7 % 256) as u8).collect();
    let id = store.write_bytes("blob", &payload);
    let rec = store.describe(id).unwrap();
    assert_eq!(rec.length as usize, payload.len());
    assert_eq!(rec.checksum, checksum(&payload));
}
