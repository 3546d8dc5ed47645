//! Read and verify path of a content-addressed chunk store.
//!
//! Chunks are addressed by their digest. A chunk whose content is too large to
//! be referenced directly is reached through index chunks, whose plaintext is a
//! concatenation of child digests. A `DataAddress` carries the number of index
//! levels to unwind before application data is reached.
pub mod accessor;
pub mod context;
pub mod digest_set;
pub mod translator;
pub mod types;

pub use types::{DataAddress, DataType, Digest, ReadError, VerifyResults, DIGEST_SIZE};
