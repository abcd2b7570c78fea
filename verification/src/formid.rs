//! FormIDs: the 32-bit identifiers of records within a plugin or load order.

use vstd::prelude::*;

verus! {

/// A FormID identifying a record within a plugin or load order.
///
/// For TES4+ games the upper byte is the master index and the lower three
/// bytes are the local ID.
#[derive(Clone, Copy, PartialEq, Eq, Hash, Debug, Structural)]
pub struct FormId(pub u32);

/// The master index of a raw FormID value (its upper byte).
pub open spec fn spec_master_index(raw: u32) -> u8 {
    (raw / 0x0100_0000) as u8
}

/// The local part of a raw FormID value (its lower three bytes).
pub open spec fn spec_local_id(raw: u32) -> u32 {
    raw % 0x0100_0000
}

impl FormId {
    /// The null FormID (0).
    #[allow(non_snake_case)]
    pub fn NULL() -> (f: FormId)
        ensures
            f.0 == 0,
    {
        FormId(0)
    }

    /// Create a new FormID from a raw u32 value.
    pub fn new(raw: u32) -> (f: FormId)
        ensures
            f.0 == raw,
    {
        FormId(raw)
    }

    /// The master index (upper byte).
    pub fn master_index(&self) -> (m: u8)
        ensures
            m == spec_master_index(self.0),
    {
        (self.0 / 0x0100_0000) as u8
    }

    /// The local form ID (lower 3 bytes).
    pub fn local_id(&self) -> (l: u32)
        ensures
            l == spec_local_id(self.0),
    {
        self.0 % 0x0100_0000
    }

    /// The raw u32 value.
    pub fn raw(&self) -> (r: u32)
        ensures
            r == self.0,
    {
        self.0
    }

    /// Whether this is the null FormID.
    pub fn is_null(&self) -> (b: bool)
        ensures
            b == (self.0 == 0),
    {
        self.0 == 0
    }
}

} // verus!
