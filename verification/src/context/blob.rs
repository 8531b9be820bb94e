//! Binary payloads, kept apart from the messages that refer to them.

use vstd::prelude::*;
use std::sync::Arc;

verus! {

/// A reference to a stored payload.
#[derive(Clone, Copy, Debug, Eq, PartialEq, Hash, Structural)]
pub struct BlobRef(pub u64);

/// A stored payload and, if known, its media type.
#[derive(Clone, Debug)]
pub struct Blob {
    pub bytes: Arc<[u8]>,
    pub mime: Option<&'static str>,
}

} // verus!
