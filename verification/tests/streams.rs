use blobstore::chunk::CHUNK_CAPACITY;
use blobstore::error::StoreError;
use blobstore::store::{ChunkSink, Store};

fn pattern(len: usize) -> Vec<u8> {
    (0..len).map(|i| ((i * 31 + 7) % 256) as u8).collect()
}

#[test]
fn sink_commit_publishes_pushed_chunks() {
    let mut store = Store::new();
    let mut sink = ChunkSink::open_write("streamed");
    sink.push_chunk(b"first,");
    sink.push_chunk(b"second,");
    sink.push_chunk(b"third");
    let id = sink.commit(&mut store);
    assert_eq!(store.resolve("streamed").unwrap(), id);
    assert_eq!(store.read_bytes("streamed").unwrap(), b"first,second,third".to_vec());
}

#[test]
fn partial_write_publishes_nothing() {
    let mut store = Store::new();
    let mut sink = ChunkSink::open_write("halfway");
    sink.push_chunk(b"some bytes that never complete");
    sink.abort();
    assert!(!store.name_exists("halfway"));
    assert_eq!(store.resolve("halfway"), Err(StoreError::NotFound));
}

#[test]
fn partial_overwrite_keeps_prior_record() {
    let mut store = Store::new();
    let prior = store.write_bytes("doc", b"complete");
    let mut sink = ChunkSink::open_write("doc");
    sink.push_chunk(b"incomp");
    drop(sink);
    // The interrupted write left no record: the name still resolves to the
    // prior complete one.
    assert_eq!(store.resolve("doc").unwrap(), prior);
    assert_eq!(store.read_bytes("doc").unwrap(), b"complete".to_vec());
}

#[test]
fn reader_yields_chunks_in_stored_order() {
    let mut store = Store::new();
    let content = pattern(2 * CHUNK_CAPACITY + 1234);
    let id = store.write_bytes("big", &content);
    let mut reader = store.open_read(id).unwrap();
    let mut collected: Vec<u8> = Vec::new();
    let mut sizes: Vec<usize> = Vec::new();
    while let Some(chunk) = reader.next_chunk() {
        sizes.push(chunk.len());
        collected.extend_from_slice(&chunk);
    }
    assert_eq!(sizes, vec![CHUNK_CAPACITY, CHUNK_CAPACITY, 1234]);
    assert_eq!(collected, content);
    // The stream is drained; it does not restart.
    assert!(reader.next_chunk().is_none());
    assert!(!reader.has_next());
}

#[test]
fn reader_on_unknown_identifier_fails() {
    let store = Store::new();
    assert!(matches!(store.open_read(0), Err(StoreError::NotFound)));
}

#[test]
fn empty_object_has_no_chunks() {
    let mut store = Store::new();
    let id = store.write_bytes("empty", b"");
    let mut reader = store.open_read(id).unwrap();
    assert!(!reader.has_next());
    assert!(reader.next_chunk().is_none());
}

#[test]
fn chunk_helpers_split_and_rejoin() {
    let data = pattern(CHUNK_CAPACITY + 57);
    let chunks = blobstore::chunk::split_into_chunks(&data);
    assert_eq!(chunks.len(), 2);
    assert_eq!(chunks[0].len(), CHUNK_CAPACITY);
    assert_eq!(chunks[1].len(), 57);
    let rejoined = blobstore::chunk::concat_bytes(&chunks);
    assert_eq!(rejoined, data);
}
