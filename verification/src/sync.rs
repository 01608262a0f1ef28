//! Local sync adapter: bridges the store facade to a local file image for
//! download and upload.  The core manipulates the image as bytes; the
//! surrounding program maps the image onto a real file on disk and keeps
//! local I/O failures (`LocalIoError`) distinct from store failures.

use vstd::prelude::*;

use crate::chunk::{append_bytes, concat_of, lemma_concat_split};
use crate::error::StoreError;
use crate::index::{content_live, has_id, has_name, id_index, lemma_id_index_props,
    lemma_live_index_props, live_index, RecordModel};
use crate::store::{ChunkSink, Store};

verus! {

/// A local file image: the byte content that a download produces or an
/// upload consumes.
pub struct LocalFile {
    data: Vec<u8>,
}

impl View for LocalFile {
    type V = Seq<u8>;

    closed spec fn view(&self) -> Seq<u8> {
        self.data@
    }
}

impl LocalFile {
    /// Create an empty file image.
    pub fn create() -> (f: LocalFile)
        ensures
            f@ == Seq::<u8>::empty(),
    {
        LocalFile { data: Vec::new() }
    }

    /// A file image holding the given bytes.
    pub fn from_bytes(data: Vec<u8>) -> (f: LocalFile)
        ensures
            f@ == data@,
    {
        LocalFile { data }
    }

    /// The byte length of the image.
    pub fn len(&self) -> (n: usize)
        ensures
            n == self@.len(),
    {
        self.data.len()
    }

    /// Append `piece`, as one chunk arriving from a download stream.
    pub fn write_all(&mut self, piece: &[u8])
        ensures
            final(self)@ == old(self)@ + piece@,
    {
        append_bytes(&mut self.data, piece)
    }

    /// Truncate the image to empty, as creating the file anew would.
    pub fn truncate(&mut self)
        ensures
            final(self)@ == Seq::<u8>::empty(),
    {
        self.data.clear()
    }

    /// The whole content of the image.
    pub fn bytes(&self) -> (b: &Vec<u8>)
        ensures
            b@ == self@,
    {
        &self.data
    }
}

impl Store {
    /// Resolve `name` and stream its chunks, in order, into `dest`,
    /// returning the live record's identifier.
    ///
    /// `dest` is truncated first, as creating the destination file anew
    /// would.  If `name` is unknown, the error surfaces before anything
    /// is written and `dest` is untouched.  Once the stream is open a
    /// chunk read cannot fail in this core; an adapter that maps `dest`
    /// onto a real file keeps the matching policy, documented here: on a
    /// failure while writing, the partial file is left as written and
    /// the error surfaces — it is never passed off as complete.
    pub fn download_to(&self, name: &str, dest: &mut LocalFile) -> (r: Result<u64, StoreError>)
        requires
            self.wf(),
        ensures
            match r {
                Ok(id) => has_name(self@, name@) && id as int == self@[live_index(
                    self@,
                    name@,
                )].id && final(dest)@ == content_live(self@, name@),
                Err(e) => !has_name(self@, name@) && e == StoreError::NotFound && *final(dest)
                    == *old(dest),
            },
    {
        let id = match self.resolve(name) {
            Ok(id) => id,
            Err(e) => {
                return Err(e);
            },
        };
        proof {
            lemma_live_index_props(self@, name@);
            lemma_id_index_props(self@, id as int);
            self.lemma_ids_increasing();
            assert(self@[live_index(self@, name@)].id == id as int);
            assert(has_id(self@, id as int));
            assert(id_index(self@, id as int) == live_index(self@, name@));
        }
        let mut reader = match self.open_read(id) {
            Ok(reader) => reader,
            Err(e) => {
                proof {
                    assert(false);
                }
                return Err(e);
            },
        };
        dest.truncate();
        let ghost all = reader.all_chunks();
        proof {
            assert(all.subrange(0, 0) =~= Seq::<Seq<u8>>::empty());
        }
        while reader.has_next()
            invariant
                reader.wf(),
                reader.all_chunks() == all,
                0 <= reader.position() <= all.len(),
                dest@ == concat_of(all.subrange(0, reader.position())),
            decreases all.len() - reader.position(),
        {
            let c = match reader.next_chunk() {
                Some(c) => c,
                None => {
                    proof {
                        assert(false);
                    }
                    return Err(StoreError::NotFound);
                },
            };
            dest.write_all(c.as_slice());
            proof {
                let p = reader.position();
                assert(all.subrange(0, p).drop_last() =~= all.subrange(0, p - 1));
                assert(all.subrange(0, p).last() == all[p - 1]);
            }
        }
        proof {
            assert(all.subrange(0, all.len() as int) =~= all);
        }
        Ok(id)
    }

    /// Stream the bytes of the local file image `src` to a write stream
    /// for `name` and complete it, returning the new record's
    /// identifier.  Reading the real file into `src` belongs to the
    /// adapter, where a local failure surfaces as `LocalIoError` before
    /// the store is touched.
    pub fn upload_from(&mut self, name: &str, src: &LocalFile) -> (id: u64)
        requires
            old(self).wf(),
        ensures
            final(self).wf(),
            id as int == old(self).next_id(),
            final(self)@ == old(self)@.push(
                RecordModel { id: id as int, name: name@, content: src@ },
            ),
    {
        let mut sink = ChunkSink::open_write(name);
        sink.push_chunk(src.bytes().as_slice());
        proof {
            assert(Seq::<u8>::empty() + src@ =~= src@);
        }
        sink.commit(self)
    }
}

} // verus!
