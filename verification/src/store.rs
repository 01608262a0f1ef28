//! The blob store facade: stored objects, the append-only record index,
//! and read/write/exists operations keyed by name or identifier.
//!
//! Writes are atomic at record granularity: an object's chunks are stored
//! first and a record is published last, so no record ever points at an
//! incomplete chunk set.  Overwriting a name publishes a new record and
//! leaves the old object's chunks in place as reclaimable orphans.

use vstd::prelude::*;
use vstd::utf8::{decode_utf8, encode_utf8, valid_utf8};

use crate::chunk::{append_bytes, checksum, checksum_of, chunks_wf, concat_bytes, concat_of,
    copy_chunks, split_into_chunks};
use crate::error::StoreError;
use crate::index::{content_live, has_id, has_name, id_index, lemma_id_index_props,
    lemma_live_index_props, live_index, RecordModel};
use crate::text::{decode_text, encode_text};

verus! {

/// One stored object: the ordered chunk list holding its bytes.
pub struct StoredObject {
    chunks: Vec<Vec<u8>>,
}

impl StoredObject {
    /// The bytes this object reconstructs.
    pub closed spec fn content(self) -> Seq<u8> {
        concat_of(self.chunks.deep_view())
    }

    /// A well-formed object: its chunk list is well formed and its length
    /// fits a machine word, as every stored object was once one buffer.
    pub closed spec fn wf(self) -> bool {
        &&& chunks_wf(self.chunks.deep_view())
        &&& self.content().len() <= usize::MAX
    }
}

/// Metadata of one published record: the identifier assigned at creation,
/// the name it was published under, its byte length and content checksum.
pub struct ObjectRecord {
    pub id: u64,
    pub name: String,
    pub length: u64,
    pub checksum: u64,
}

/// The chunked blob store: stored objects and the append-only record
/// index over them.
pub struct Store {
    objects: Vec<StoredObject>,
    records: Vec<ObjectRecord>,
}

impl View for Store {
    type V = Seq<RecordModel>;

    /// The store models the sequence of its published records, oldest
    /// first, each with the content its object reconstructs.
    closed spec fn view(&self) -> Seq<RecordModel> {
        Seq::new(
            self.records@.len(),
            |i: int|
                RecordModel {
                    id: self.records@[i].id as int,
                    name: self.records@[i].name@,
                    content: self.objects@[self.records@[i].id as int].content(),
                },
        )
    }
}

impl Store {
    /// The identifier the next published record will carry.
    pub closed spec fn next_id(&self) -> int {
        self.objects@.len() as int
    }

    /// A well-formed store: every record points below `next_id` at an
    /// object matching its length and checksum, identifiers grow in
    /// publication order, and every object is well formed.
    pub closed spec fn wf(&self) -> bool {
        &&& forall|i: int|
            0 <= i < self.records@.len() ==> {
                let r = #[trigger] self.records@[i];
                &&& (r.id as int) < self.objects@.len()
                &&& r.length as nat == self.objects@[r.id as int].content().len()
                &&& r.checksum == checksum_of(self.objects@[r.id as int].content())
            }
        &&& forall|i: int, j: int|
            0 <= i < j < self.records@.len() ==> (#[trigger] self.records@[i]).id < (
            #[trigger] self.records@[j]).id
        &&& forall|k: int| 0 <= k < self.objects@.len() ==> (#[trigger] self.objects@[k]).wf()
    }

    /// Every published identifier lies below `next_id`, and identifiers
    /// are distinct across records, growing in publication order.
    pub proof fn lemma_ids_increasing(&self)
        requires
            self.wf(),
        ensures
            forall|i: int| 0 <= i < self@.len() ==> (#[trigger] self@[i]).id < self.next_id(),
            forall|i: int, j: int|
                0 <= i < j < self@.len() ==> (#[trigger] self@[i]).id < (#[trigger] self@[j]).id,
    {
    }

    /// A fresh store publishes nothing.
    pub fn new() -> (s: Store)
        ensures
            s.wf(),
            s@ == Seq::<RecordModel>::empty(),
    {
        let s = Store { objects: Vec::new(), records: Vec::new() };
        proof {
            assert(s@ =~= Seq::<RecordModel>::empty());
        }
        s
    }

    /// Find the index, in publication order, of the live record for
    /// `name`: the most recent record carrying it.
    fn find_live(&self, name: &str) -> (r: Option<usize>)
        ensures
            match r {
                Some(i) => i < self@.len() && live_index(self@, name@) == i as int,
                None => !has_name(self@, name@),
            },
    {
        let wanted: String = name.to_owned();
        let mut i: usize = self.records.len();
        while i > 0
            invariant
                i <= self.records@.len(),
                wanted@ == name@,
                forall|j: int| i <= j < self@.len() ==> (#[trigger] self@[j]).name != name@,
            decreases i,
        {
            i = i - 1;
            if self.records[i].name == wanted {
                proof {
                    lemma_live_index_props(self@, name@);
                    assert(self@[i as int].name == name@);
                }
                return Some(i);
            }
            proof {
                assert(self@[i as int].name != name@);
            }
        }
        proof {
            lemma_live_index_props(self@, name@);
        }
        None
    }

    /// Find the index, in publication order, of the record carrying
    /// identifier `id`.
    fn find_id(&self, id: u64) -> (r: Option<usize>)
        ensures
            match r {
                Some(i) => i < self@.len() && id_index(self@, id as int) == i as int,
                None => !has_id(self@, id as int),
            },
    {
        let mut i: usize = self.records.len();
        while i > 0
            invariant
                i <= self.records@.len(),
                forall|j: int| i <= j < self@.len() ==> (#[trigger] self@[j]).id != id as int,
            decreases i,
        {
            i = i - 1;
            if self.records[i].id == id {
                proof {
                    lemma_id_index_props(self@, id as int);
                    assert(self@[i as int].id == id as int);
                }
                return Some(i);
            }
            proof {
                assert(self@[i as int].id != id as int);
            }
        }
        proof {
            lemma_id_index_props(self@, id as int);
        }
        None
    }

    /// Whether a live record carries `name`.  Never fails: a missing name
    /// answers `false` instead of surfacing a lookup error.
    pub fn name_exists(&self, name: &str) -> (r: bool)
        ensures
            r == has_name(self@, name@),
    {
        match self.find_live(name) {
            Some(_) => true,
            None => false,
        }
    }

    /// Resolve `name` to the identifier of its live record: the most
    /// recently published record carrying that name.  Fails with
    /// `NotFound` exactly when no live record matches.
    pub fn resolve(&self, name: &str) -> (r: Result<u64, StoreError>)
        ensures
            match r {
                Ok(id) => has_name(self@, name@) && id as int == self@[live_index(
                    self@,
                    name@,
                )].id,
                Err(e) => !has_name(self@, name@) && e == StoreError::NotFound,
            },
    {
        match self.find_live(name) {
            Some(i) => Ok(self.records[i].id),
            None => Err(StoreError::NotFound),
        }
    }

    /// Write `content` under `name`: store its chunks as a fresh object,
    /// then atomically publish a new record for it, returning the
    /// record's identifier.  An existing record under `name` is left in
    /// place; the new record shadows it and its chunks become orphans.
    pub fn write_bytes(&mut self, name: &str, content: &[u8]) -> (id: u64)
        requires
            old(self).wf(),
        ensures
            final(self).wf(),
            id as int == old(self).next_id(),
            final(self)@ == old(self)@.push(
                RecordModel { id: id as int, name: name@, content: content@ },
            ),
    {
        let chunks = split_into_chunks(content);
        let sum = checksum(content);
        let id = self.objects.len() as u64;
        let length = content.len() as u64;
        let obj = StoredObject { chunks };
        proof {
            assert(obj.content() == content@);
            assert(obj.wf());
        }
        self.objects.push(obj);
        self.records.push(ObjectRecord { id, name: name.to_owned(), length, checksum: sum });
        proof {
            assert forall|i: int| 0 <= i < old(self)@.len() implies self@[i] == old(self)@[i] by {
                assert(old(self).records@[i].id < old(self).objects@.len());
                assert(self.objects@[old(self).records@[i].id as int] == old(
                    self,
                ).objects@[old(self).records@[i].id as int]);
            };
            assert(self@ =~= old(self)@.push(
                RecordModel { id: id as int, name: name@, content: content@ },
            ));
            assert forall|i: int| 0 <= i < self.records@.len() implies {
                let r = #[trigger] self.records@[i];
                &&& (r.id as int) < self.objects@.len()
                &&& r.length as nat == self.objects@[r.id as int].content().len()
                &&& r.checksum == checksum_of(self.objects@[r.id as int].content())
            } by {
                if i < old(self).records@.len() {
                    assert(old(self).records@[i].id < old(self).objects@.len());
                    assert(self.records@[i] == old(self).records@[i]);
                } else {
                    assert(self.records@[i].id as int == self.objects@.len() - 1);
                }
            };
        }
        id
    }

    /// Write `content` under `name` as its UTF-8 encoding.
    pub fn write_text(&mut self, name: &str, content: &str) -> (id: u64)
        requires
            old(self).wf(),
        ensures
            final(self).wf(),
            id as int == old(self).next_id(),
            final(self)@ == old(self)@.push(
                RecordModel { id: id as int, name: name@, content: encode_utf8(content@) },
            ),
    {
        let bytes = encode_text(content);
        self.write_bytes(name, bytes.as_slice())
    }

    /// Reassemble the content of the object that the record at record
    /// index `i` points to.
    fn object_bytes(&self, i: usize) -> (out: Vec<u8>)
        requires
            self.wf(),
            i < self.records@.len(),
        ensures
            out@ == self@[i as int].content,
    {
        let id = self.records[i].id;
        proof {
            assert((self.records@[i as int].id as int) < self.objects@.len() as int);
            assert(vstd::std_specs::vec::spec_vec_len(&self.objects) == self.objects@.len());
            assert(self.objects@[id as int].wf());
        }
        concat_bytes(&self.objects[id as usize].chunks)
    }

    /// Read the live content under `name` into one contiguous buffer.
    /// Empty content is a valid result, not an error; `NotFound` comes
    /// exactly when no live record carries `name`.
    pub fn read_bytes(&self, name: &str) -> (r: Result<Vec<u8>, StoreError>)
        requires
            self.wf(),
        ensures
            match r {
                Ok(bytes) => has_name(self@, name@) && bytes@ == content_live(self@, name@),
                Err(e) => !has_name(self@, name@) && e == StoreError::NotFound,
            },
    {
        match self.find_live(name) {
            Some(i) => Ok(self.object_bytes(i)),
            None => Err(StoreError::NotFound),
        }
    }

    /// Read the content of the record carrying identifier `id`.
    pub fn read_bytes_by_id(&self, id: u64) -> (r: Result<Vec<u8>, StoreError>)
        requires
            self.wf(),
        ensures
            match r {
                Ok(bytes) => has_id(self@, id as int) && bytes@ == self@[id_index(
                    self@,
                    id as int,
                )].content,
                Err(e) => !has_id(self@, id as int) && e == StoreError::NotFound,
            },
    {
        match self.find_id(id) {
            Some(i) => Ok(self.object_bytes(i)),
            None => Err(StoreError::NotFound),
        }
    }

    /// Read the live content under `name` as UTF-8 text.  `NotFound`
    /// comes exactly when no live record carries `name`; `DecodeError`
    /// exactly when the live content is not valid UTF-8.
    pub fn read_text(&self, name: &str) -> (r: Result<String, StoreError>)
        requires
            self.wf(),
        ensures
            match r {
                Ok(s) => has_name(self@, name@) && valid_utf8(content_live(self@, name@))
                    && s@ == decode_utf8(content_live(self@, name@)),
                Err(e) => if has_name(self@, name@) {
                    !valid_utf8(content_live(self@, name@)) && e == StoreError::DecodeError
                } else {
                    e == StoreError::NotFound
                },
            },
    {
        match self.read_bytes(name) {
            Ok(bytes) => decode_text(bytes),
            Err(e) => Err(e),
        }
    }

    /// Read the content of the record carrying identifier `id` as UTF-8
    /// text, with the same error contract as `read_text`.
    pub fn read_text_by_id(&self, id: u64) -> (r: Result<String, StoreError>)
        requires
            self.wf(),
        ensures
            match r {
                Ok(s) => has_id(self@, id as int) && valid_utf8(
                    self@[id_index(self@, id as int)].content,
                ) && s@ == decode_utf8(self@[id_index(self@, id as int)].content),
                Err(e) => if has_id(self@, id as int) {
                    !valid_utf8(self@[id_index(self@, id as int)].content) && e
                        == StoreError::DecodeError
                } else {
                    e == StoreError::NotFound
                },
            },
    {
        match self.read_bytes_by_id(id) {
            Ok(bytes) => decode_text(bytes),
            Err(e) => Err(e),
        }
    }

    /// Record metadata for `id`: the name it was published under, its
    /// byte length, and its content checksum.
    pub fn describe(&self, id: u64) -> (r: Result<ObjectRecord, StoreError>)
        requires
            self.wf(),
        ensures
            match r {
                Ok(rec) => has_id(self@, id as int) && rec.id == id && rec.name@ == self@[id_index(
                    self@,
                    id as int,
                )].name && rec.length as nat == self@[id_index(self@, id as int)].content.len()
                    && rec.checksum == checksum_of(self@[id_index(self@, id as int)].content),
                Err(e) => !has_id(self@, id as int) && e == StoreError::NotFound,
            },
    {
        match self.find_id(id) {
            Some(i) => {
                proof {
                    assert((self.records@[i as int].id as int) < self.objects@.len() as int);
                    lemma_id_index_props(self@, id as int);
                    assert(self@[i as int].id == self.records@[i as int].id as int);
                }
                let rec = ObjectRecord {
                    id: self.records[i].id,
                    name: self.records[i].name.clone(),
                    length: self.records[i].length,
                    checksum: self.records[i].checksum,
                };
                Ok(rec)
            },
            None => Err(StoreError::NotFound),
        }
    }

    /// Open a chunk stream over the object of the record carrying `id`,
    /// positioned at its first chunk.  A stream is not restartable: a
    /// fresh call reopens it from the start.
    pub fn open_read(&self, id: u64) -> (r: Result<ChunkReader, StoreError>)
        requires
            self.wf(),
        ensures
            match r {
                Ok(reader) => has_id(self@, id as int) && reader.wf() && reader.position() == 0
                    && concat_of(reader.all_chunks()) == self@[id_index(self@, id as int)].content
                    && chunks_wf(reader.all_chunks()),
                Err(e) => !has_id(self@, id as int) && e == StoreError::NotFound,
            },
    {
        match self.find_id(id) {
            Some(i) => {
                proof {
                    assert((self.records@[i as int].id as int) < self.objects@.len() as int);
                    assert(vstd::std_specs::vec::spec_vec_len(&self.objects)
                        == self.objects@.len());
                    assert(self.objects@[self.records@[i as int].id as int].wf());
                }
                let oid = self.records[i].id;
                let reader = ChunkReader {
                    chunks: copy_chunks(&self.objects[oid as usize].chunks),
                    pos: 0,
                };
                Ok(reader)
            },
            None => Err(StoreError::NotFound),
        }
    }
}

/// An open write stream: buffers caller-supplied chunks for one name and
/// publishes nothing until `commit`.  Abandoning the sink, by `abort` or
/// by dropping it, leaves the store exactly as it was after every push:
/// no record ever points at a partial write.
pub struct ChunkSink {
    name: String,
    data: Vec<u8>,
}

impl ChunkSink {
    /// The name the sink will publish under.
    pub closed spec fn name_spec(&self) -> Seq<char> {
        self.name@
    }

    /// The bytes buffered so far: the pushed chunks in order.
    pub closed spec fn buffered(&self) -> Seq<u8> {
        self.data@
    }

    /// Open a write stream for `name`.
    pub fn open_write(name: &str) -> (sink: ChunkSink)
        ensures
            sink.name_spec() == name@,
            sink.buffered() == Seq::<u8>::empty(),
    {
        ChunkSink { name: name.to_owned(), data: Vec::new() }
    }

    /// Append one chunk, in caller-supplied order.
    pub fn push_chunk(&mut self, piece: &[u8])
        ensures
            final(self).name_spec() == old(self).name_spec(),
            final(self).buffered() == old(self).buffered() + piece@,
    {
        append_bytes(&mut self.data, piece);
    }

    /// Complete the stream: atomically publish one record holding
    /// exactly the buffered bytes, and return its identifier.  This is
    /// the only sink operation that touches the store.
    pub fn commit(self, store: &mut Store) -> (id: u64)
        requires
            old(store).wf(),
        ensures
            final(store).wf(),
            id as int == old(store).next_id(),
            final(store)@ == old(store)@.push(
                RecordModel { id: id as int, name: self.name_spec(), content: self.buffered() },
            ),
    {
        store.write_bytes(self.name.as_str(), self.data.as_slice())
    }

    /// Abandon the stream: the buffered bytes are discarded and the
    /// store is untouched.
    pub fn abort(self) {
    }
}

/// A chunk stream over one stored object: yields its chunks in sequence
/// order, once.
pub struct ChunkReader {
    chunks: Vec<Vec<u8>>,
    pos: usize,
}

impl ChunkReader {
    /// All chunks of the stream, in stored order.
    pub closed spec fn all_chunks(&self) -> Seq<Seq<u8>> {
        self.chunks.deep_view()
    }

    /// How many chunks were already yielded.
    pub closed spec fn position(&self) -> int {
        self.pos as int
    }

    /// The stream never stands past its end.
    pub closed spec fn wf(&self) -> bool {
        self.pos <= self.chunks@.len()
    }

    /// Whether the stream still holds chunks to yield.
    pub fn has_next(&self) -> (b: bool)
        ensures
            b == (self.position() < self.all_chunks().len()),
    {
        self.pos < self.chunks.len()
    }

    /// The next chunk in stored order, or `None` once the stream is
    /// drained.
    pub fn next_chunk(&mut self) -> (r: Option<Vec<u8>>)
        requires
            old(self).wf(),
        ensures
            final(self).wf(),
            final(self).all_chunks() == old(self).all_chunks(),
            match r {
                Some(c) => old(self).position() < old(self).all_chunks().len()
                    && c@ == old(self).all_chunks()[old(self).position()]
                    && final(self).position() == old(self).position() + 1,
                None => old(self).position() == old(self).all_chunks().len()
                    && final(self).position() == old(self).position(),
            },
    {
        if self.pos < self.chunks.len() {
            let mut c: Vec<u8> = Vec::new();
            append_bytes(&mut c, self.chunks[self.pos].as_slice());
            self.pos = self.pos + 1;
            proof {
                let ghost p = old(self).pos as int;
                assert(old(self).chunks@[p].deep_view() =~= old(self).chunks@[p]@);
            }
            Some(c)
        } else {
            None
        }
    }
}

} // verus!
