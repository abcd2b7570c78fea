//! Subrecords: the leaf-level data containers of a plugin record.

use vstd::prelude::*;

use crate::signature::Signature;

verus! {

/// A subrecord within a plugin record.
///
/// The raw bytes are always preserved for lossless roundtrip.
#[derive(Debug)]
pub struct Subrecord {
    /// 4-byte type signature (e.g. EDID, DATA, NAME)
    pub signature: Signature,
    /// Raw data bytes, interpreted according to game definitions.
    pub raw_data: Vec<u8>,
    /// Cached data size in bytes.
    pub size: u32,
    /// Byte offset of the subrecord header within its record payload.
    pub source_offset: Option<u64>,
    /// Whether this subrecord has been modified since loading.
    pub modified: bool,
}

impl Clone for Subrecord {
    fn clone(&self) -> (c: Self)
        ensures
            c.signature == self.signature,
            c.raw_data@ == self.raw_data@,
            c.size == self.size,
            c.source_offset == self.source_offset,
            c.modified == self.modified,
    {
        Subrecord {
            signature: self.signature,
            raw_data: self.raw_data.clone(),
            size: self.size,
            source_offset: self.source_offset,
            modified: self.modified,
        }
    }
}

impl Subrecord {
    /// Create a new, unmodified subrecord holding `raw_data`.
    pub fn new(signature: Signature, raw_data: Vec<u8>) -> (s: Subrecord)
        ensures
            s.signature == signature,
            s.raw_data@ == raw_data@,
            s.size == raw_data@.len() as u32,
            s.source_offset is None,
            !s.modified,
    {
        let size = raw_data.len() as u32;
        Subrecord { signature, raw_data, size, source_offset: None, modified: false }
    }

    /// Size of the subrecord data (not including its header).
    pub fn data_size(&self) -> (n: usize)
        ensures
            n == self.raw_data@.len(),
    {
        self.raw_data.len()
    }

    /// Total size on disk of a TES4+ subrecord: 6 header bytes (4 signature
    /// + 2 size) plus the data.
    pub fn total_size(&self) -> (n: usize)
        requires
            self.raw_data@.len() + 6 <= usize::MAX,
        ensures
            n == self.raw_data@.len() + 6,
    {
        6 + self.raw_data.len()
    }
}

} // verus!
