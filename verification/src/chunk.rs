//! Chunk stream layer: objects are stored as ordered lists of bounded-size
//! byte chunks, and the concatenation of the chunks in sequence order must
//! reconstruct the object's bytes exactly — no gaps, no overlaps.

use vstd::prelude::*;
use vstd::slice::{slice_subrange, slice_to_vec};

verus! {

/// Upper bound on the byte length of a single stored chunk.
pub const CHUNK_CAPACITY: usize = 255 * 1024;

/// Seed of the content checksum fold.
pub const CHECKSUM_SEED: u64 = 0xcbf29ce484222325;

/// Multiplier of the content checksum fold.
pub const CHECKSUM_PRIME: u64 = 0x100000001b3;

/// The bytes that a chunk list reconstructs: the concatenation of its
/// chunks in sequence order.
pub open spec fn concat_of(chunks: Seq<Seq<u8>>) -> Seq<u8>
    decreases chunks.len(),
{
    if chunks.len() == 0 {
        Seq::empty()
    } else {
        concat_of(chunks.drop_last()) + chunks.last()
    }
}

/// A well-formed chunk list: every chunk is nonempty and within capacity.
pub open spec fn chunks_wf(chunks: Seq<Seq<u8>>) -> bool {
    forall|i: int| 0 <= i < chunks.len() ==> 0 < (#[trigger] chunks[i]).len() <= CHUNK_CAPACITY
}

/// Appending one chunk extends the reconstruction by exactly that chunk.
pub proof fn lemma_concat_push(chunks: Seq<Seq<u8>>, c: Seq<u8>)
    ensures
        concat_of(chunks.push(c)) == concat_of(chunks) + c,
{
    assert(chunks.push(c).drop_last() =~= chunks);
    assert(chunks.push(c).last() == c);
}

/// A chunk list reconstructs the same bytes as its first `k` chunks
/// followed by the rest.
pub proof fn lemma_concat_split(chunks: Seq<Seq<u8>>, k: int)
    requires
        0 <= k <= chunks.len(),
    ensures
        concat_of(chunks) == concat_of(chunks.subrange(0, k)) + concat_of(
            chunks.subrange(k, chunks.len() as int),
        ),
    decreases chunks.len(),
{
    if k == chunks.len() {
        assert(chunks.subrange(0, k) =~= chunks);
        assert(concat_of(chunks.subrange(k, chunks.len() as int)) =~= Seq::empty());
        assert(concat_of(chunks) =~= concat_of(chunks.subrange(0, k)) + concat_of(
            chunks.subrange(k, chunks.len() as int),
        ));
    } else {
        let prev = chunks.drop_last();
        lemma_concat_split(prev, k);
        assert(chunks.subrange(0, k) =~= prev.subrange(0, k));
        assert(chunks.subrange(k, chunks.len() as int) =~= prev.subrange(
            k,
            prev.len() as int,
        ).push(chunks.last()));
        lemma_concat_push(prev.subrange(k, prev.len() as int), chunks.last());
        assert(concat_of(chunks) =~= concat_of(chunks.subrange(0, k)) + concat_of(
            chunks.subrange(k, chunks.len() as int),
        ));
    }
}

/// One step of the content checksum fold.
pub open spec fn checksum_step(h: u64, b: u8) -> u64 {
    vstd::wrapping::u64_specs::wrapping_mul(h ^ (b as u64), CHECKSUM_PRIME)
}

/// The content checksum: a 64-bit xor-and-multiply fold over the bytes.
pub open spec fn checksum_of(bytes: Seq<u8>) -> u64
    decreases bytes.len(),
{
    if bytes.len() == 0 {
        CHECKSUM_SEED
    } else {
        checksum_step(checksum_of(bytes.drop_last()), bytes.last())
    }
}

/// Compute the content checksum of `bytes`.
pub fn checksum(bytes: &[u8]) -> (h: u64)
    ensures
        h == checksum_of(bytes@),
{
    let mut h: u64 = CHECKSUM_SEED;
    let mut i: usize = 0;
    proof {
        assert(bytes@.subrange(0, 0) =~= Seq::empty());
    }
    while i < bytes.len()
        invariant
            i <= bytes@.len(),
            h == checksum_of(bytes@.subrange(0, i as int)),
        decreases bytes@.len() - i,
    {
        let b = bytes[i];
        h = (h ^ (b as u64)).wrapping_mul(CHECKSUM_PRIME);
        proof {
            assert(bytes@.subrange(0, i + 1).drop_last() =~= bytes@.subrange(0, i as int));
            assert(bytes@.subrange(0, i + 1).last() == bytes@[i as int]);
        }
        i = i + 1;
    }
    proof {
        assert(bytes@.subrange(0, bytes@.len() as int) =~= bytes@);
    }
    h
}

/// Append `piece` to `out`, extending its bytes by exactly `piece`.
pub fn append_bytes(out: &mut Vec<u8>, piece: &[u8])
    ensures
        final(out)@ == old(out)@ + piece@,
{
    let mut i: usize = 0;
    while i < piece.len()
        invariant
            i <= piece@.len(),
            out@ == old(out)@ + piece@.subrange(0, i as int),
        decreases piece@.len() - i,
    {
        out.push(piece[i]);
        proof {
            assert(old(out)@ + piece@.subrange(0, i + 1) =~= (old(out)@ + piece@.subrange(
                0,
                i as int,
            )).push(piece@[i as int]));
        }
        i = i + 1;
    }
    proof {
        assert(out@ =~= old(out)@ + piece@);
    }
}

/// Split `data` into a well-formed chunk list that reconstructs exactly
/// `data`: chunks of `CHUNK_CAPACITY` bytes, with a shorter final chunk
/// when the length is not a multiple, and no chunks at all when `data`
/// is empty.
pub fn split_into_chunks(data: &[u8]) -> (chunks: Vec<Vec<u8>>)
    ensures
        concat_of(chunks.deep_view()) == data@,
        chunks_wf(chunks.deep_view()),
{
    let mut chunks: Vec<Vec<u8>> = Vec::new();
    let mut pos: usize = 0;
    proof {
        assert(chunks.deep_view() =~= Seq::<Seq<u8>>::empty());
        assert(data@.subrange(0, 0) =~= Seq::empty());
    }
    while pos < data.len()
        invariant
            pos <= data@.len(),
            concat_of(chunks.deep_view()) == data@.subrange(0, pos as int),
            chunks_wf(chunks.deep_view()),
        decreases data@.len() - pos,
    {
        let end = if data.len() - pos > CHUNK_CAPACITY {
            pos + CHUNK_CAPACITY
        } else {
            data.len()
        };
        let piece: Vec<u8> = slice_to_vec(slice_subrange(data, pos, end));
        let ghost prev = chunks.deep_view();
        chunks.push(piece);
        proof {
            assert(chunks@.last().deep_view() =~= data@.subrange(pos as int, end as int));
            assert(chunks.deep_view() =~= prev.push(data@.subrange(pos as int, end as int)));
            lemma_concat_push(prev, data@.subrange(pos as int, end as int));
            assert(data@.subrange(0, pos as int) + data@.subrange(pos as int, end as int)
                =~= data@.subrange(0, end as int));
        }
        pos = end;
    }
    proof {
        assert(data@.subrange(0, data@.len() as int) =~= data@);
    }
    chunks
}

/// Copy a chunk list, chunk by chunk.
pub fn copy_chunks(chunks: &Vec<Vec<u8>>) -> (r: Vec<Vec<u8>>)
    ensures
        r.deep_view() == chunks.deep_view(),
{
    let mut r: Vec<Vec<u8>> = Vec::new();
    let mut i: usize = 0;
    while i < chunks.len()
        invariant
            i <= chunks@.len(),
            r@.len() == i,
            forall|j: int| 0 <= j < i ==> (#[trigger] r@[j])@ == chunks@[j]@,
        decreases chunks@.len() - i,
    {
        let mut c: Vec<u8> = Vec::new();
        append_bytes(&mut c, chunks[i].as_slice());
        r.push(c);
        i = i + 1;
    }
    proof {
        assert(r.deep_view() =~~= chunks.deep_view());
    }
    r
}

/// Reassemble a chunk list into one contiguous byte buffer.
pub fn concat_bytes(chunks: &Vec<Vec<u8>>) -> (out: Vec<u8>)
    requires
        concat_of(chunks.deep_view()).len() <= usize::MAX,
    ensures
        out@ == concat_of(chunks.deep_view()),
{
    let mut out: Vec<u8> = Vec::new();
    let mut i: usize = 0;
    proof {
        assert(chunks.deep_view().subrange(0, 0) =~= Seq::<Seq<u8>>::empty());
    }
    while i < chunks.len()
        invariant
            i <= chunks@.len(),
            chunks.deep_view().len() == chunks@.len(),
            out@ == concat_of(chunks.deep_view().subrange(0, i as int)),
        decreases chunks@.len() - i,
    {
        append_bytes(&mut out, chunks[i].as_slice());
        proof {
            let dv = chunks.deep_view();
            assert(dv.subrange(0, i + 1).drop_last() =~= dv.subrange(0, i as int));
            assert(dv.subrange(0, i + 1).last() == dv[i as int]);
        }
        i = i + 1;
    }
    proof {
        assert(chunks.deep_view().subrange(0, chunks.deep_view().len() as int)
            =~= chunks.deep_view());
    }
    out
}

} // verus!
