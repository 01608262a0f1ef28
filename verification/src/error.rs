use vstd::prelude::*;

verus! {

/// The error taxonomy of the blob store client core.
///
/// * `NotFound`: the name or identifier has no live record.
/// * `DecodeError`: stored bytes are not valid UTF-8 text.
/// * `RemoteError`: the underlying store failed; surfaced to the caller,
///   never retried at this layer.
/// * `LocalIoError`: a local filesystem failure during a sync operation,
///   kept distinct from `RemoteError` so a caller can tell its own disk
///   from the store.
///
/// Errors are always returned, never swallowed, with one exception:
/// `Store::name_exists` answers `false` for a missing name instead of
/// failing.
#[derive(Clone, Copy, Debug, PartialEq, Eq, Structural)]
pub enum StoreError {
    NotFound,
    DecodeError,
    RemoteError,
    LocalIoError,
}

} // verus!
