//! Text layer: stored bytes read as text must be valid UTF-8, and text is
//! always written as its UTF-8 encoding.

use vstd::prelude::*;
use vstd::utf8::{decode_utf8, encode_utf8, encode_utf8_decode_utf8, encode_utf8_valid_utf8,
    valid_utf8};

use crate::error::StoreError;
use crate::index::{lemma_write_then_read, lookup, RecordModel};

verus! {

/// Relies on `String::from_utf8`: it returns the string decoded from the
/// bytes exactly when they are valid UTF-8, and fails otherwise.
#[verifier::external_body]
fn bytes_to_string(bytes: Vec<u8>) -> (r: Option<String>)
    ensures
        match r {
            Some(s) => valid_utf8(bytes@) && s@ == decode_utf8(bytes@),
            None => !valid_utf8(bytes@),
        },
{
    String::from_utf8(bytes).ok()
}

/// Decode stored bytes as UTF-8 text; invalid encodings are rejected with
/// `DecodeError`.
pub fn decode_text(bytes: Vec<u8>) -> (r: Result<String, StoreError>)
    ensures
        match r {
            Ok(s) => valid_utf8(bytes@) && s@ == decode_utf8(bytes@),
            Err(e) => !valid_utf8(bytes@) && e == StoreError::DecodeError,
        },
{
    match bytes_to_string(bytes) {
        Some(s) => Ok(s),
        None => Err(StoreError::DecodeError),
    }
}

/// Encode text as its UTF-8 bytes.
pub fn encode_text(s: &str) -> (r: Vec<u8>)
    ensures
        r@ == encode_utf8(s@),
{
    s.as_bytes_vec()
}

/// Text round trip: a record whose content is the UTF-8 encoding of `s`
/// makes its name resolve to bytes that are valid UTF-8 and decode back to
/// exactly `s`.
pub proof fn lemma_text_round_trip(recs: Seq<RecordModel>, r: RecordModel, s: Seq<char>)
    requires
        r.content == encode_utf8(s),
    ensures
        lookup(recs.push(r), r.name) == Some(r.content),
        valid_utf8(r.content),
        decode_utf8(r.content) == s,
{
    lemma_write_then_read(recs, r);
    encode_utf8_valid_utf8(s);
    encode_utf8_decode_utf8(s);
}

} // verus!
