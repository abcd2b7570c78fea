//! Integer widths used by field definitions.

use vstd::prelude::*;

verus! {

/// Integer sizes supported by the format.
#[derive(Debug, Clone, Copy, PartialEq, Eq, Structural)]
pub enum IntegerSize {
    U8,
    S8,
    U16,
    S16,
    U32,
    S32,
    U64,
    S64,
}

/// Width in bytes of an integer size.
pub open spec fn spec_byte_size(s: IntegerSize) -> usize {
    match s {
        IntegerSize::U8 | IntegerSize::S8 => 1,
        IntegerSize::U16 | IntegerSize::S16 => 2,
        IntegerSize::U32 | IntegerSize::S32 => 4,
        IntegerSize::U64 | IntegerSize::S64 => 8,
    }
}

impl IntegerSize {
    /// Size in bytes.
    pub fn byte_size(&self) -> (n: usize)
        ensures
            n == spec_byte_size(*self),
    {
        match self {
            IntegerSize::U8 | IntegerSize::S8 => 1,
            IntegerSize::U16 | IntegerSize::S16 => 2,
            IntegerSize::U32 | IntegerSize::S32 => 4,
            IntegerSize::U64 | IntegerSize::S64 => 8,
        }
    }
}

} // verus!
