//! A chunked blob store client core.
//!
//! Objects are named byte blobs, stored as ordered chunk lists and indexed
//! by an append-only record sequence mapping names to identifiers.  The
//! facade offers byte and text reads and writes keyed by name or identifier,
//! chunk streams for incremental transfer, and adapters that synchronize a
//! blob with a local file image.

pub mod chunk;
pub mod error;
pub mod index;
pub mod store;
pub mod sync;
pub mod text;
