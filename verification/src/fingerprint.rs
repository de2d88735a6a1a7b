//! Fingerprint: a cheap, deterministic proxy for "did this file's content
//! change".  Below a size threshold it is a seeded hash of the file's text;
//! at or above the threshold it is the raw byte size, trading precision for
//! bounded per-poll cost.  A file whose content could not be read gets the
//! sentinel fingerprint 0, so two unreadable files never falsely differ.

use vstd::prelude::*;

verus! {

/// Files at or above this many bytes are fingerprinted by size alone.
pub const FILE_SIZE_THRESHOLD: u64 = 20000000;

/// What the fingerprint is, once the content hash (if any) is known:
/// the size for large files, the sentinel 0 for unreadable content, the
/// content hash otherwise.
pub open spec fn fingerprint_of(size: u64, content_hash: Option<u64>) -> u64 {
    if size >= FILE_SIZE_THRESHOLD {
        size
    } else {
        match content_hash {
            Option::None => 0u64,
            Option::Some(h) => h,
        }
    }
}

/// The fingerprint component.  The hash seed is an explicit configuration
/// value fixed for the lifetime of one watch session, so fingerprints are
/// stable across polls within one run; nothing is promised across process
/// restarts.
pub struct Fingerprint {
    pub seed: usize,
}

impl Fingerprint {
    pub fn new(seed: usize) -> (fp: Fingerprint)
        ensures
            fp.seed == seed,
    {
        Fingerprint { seed }
    }

    /// Relies on `ahash::RandomState::with_seed` and `hash_one`: hashing a
    /// string with a fixed seed.  Within one process the result depends only
    /// on the seed and the characters, but ahash folds a per-process random
    /// value into `with_seed`, so nothing is stated about the value: callers
    /// take the result as an opaque word.
    #[verifier::external_body]
    fn hash_content(&self, content: &str) -> u64 {
        ahash::RandomState::with_seed(self.seed).hash_one(content)
    }

    /// Combines a size and an already-computed content hash into the
    /// fingerprint, exactly as `fingerprint_of` says.
    pub fn of_parts(size: u64, content_hash: Option<u64>) -> (fp: u64)
        ensures
            fp == fingerprint_of(size, content_hash),
    {
        if size >= FILE_SIZE_THRESHOLD {
            size
        } else {
            match content_hash {
                Option::None => 0,
                Option::Some(h) => h,
            }
        }
    }

    /// The fingerprint of one file, from its byte size and its text content
    /// (`None` when the content could not be read).  Large files are
    /// fingerprinted by size alone — their content is never hashed — and an
    /// unreadable small file gets the sentinel 0.
    pub fn get_hash_with_size(&self, size: u64, content: Option<&String>) -> (fp: u64)
        ensures
            size >= FILE_SIZE_THRESHOLD ==> fp == size,
            size < FILE_SIZE_THRESHOLD && content is None ==> fp == 0,
    {
        if size >= FILE_SIZE_THRESHOLD {
            Self::of_parts(size, None)
        } else {
            match content {
                None => Self::of_parts(size, None),
                Some(c) => {
                    let h = self.hash_content(c.as_str());
                    Self::of_parts(size, Some(h))
                },
            }
        }
    }
}

} // verus!
