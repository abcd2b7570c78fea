//! Four-byte record and subrecord type signatures.

use vstd::prelude::*;

verus! {

broadcast use vstd::array::group_array_axioms;

/// A 4-byte record/subrecord type signature (e.g. TES4, GRUP, WEAP, EDID).
///
/// Stored as raw bytes to preserve the exact binary representation.
#[derive(Clone, Copy, Debug, Hash)]
pub struct Signature(pub [u8; 4]);

impl PartialEq for Signature {
    fn eq(&self, other: &Self) -> (r: bool) {
        let r = self.0[0] == other.0[0] && self.0[1] == other.0[1] && self.0[2] == other.0[2]
            && self.0[3] == other.0[3];
        proof {
            if r {
                assert(self.0 =~= other.0);
            }
        }
        r
    }
}

impl vstd::std_specs::cmp::PartialEqSpecImpl for Signature {
    open spec fn obeys_eq_spec() -> bool {
        true
    }

    open spec fn eq_spec(&self, other: &Self) -> bool {
        *self == *other
    }
}

impl Eq for Signature {}

/// The signature whose bytes are the given four-byte sequence.
pub open spec fn sig_of(b: Seq<u8>) -> Signature
    recommends
        b.len() == 4,
{
    Signature([b[0], b[1], b[2], b[3]])
}

/// Two signatures are equal exactly when their byte views are equal.
pub proof fn lemma_sig_eq_view(a: Signature, b: Signature)
    ensures
        (a == b) <==> (a.0@ == b.0@),
{
    if a.0@ == b.0@ {
        assert(a.0 =~= b.0) by {
            assert forall|i: int| 0 <= i < 4 implies a.0[i] == b.0[i] by {
                assert(a.0@[i] == b.0@[i]);
            }
        }
    }
}

/// The character shown for a signature byte: printable ASCII and space as
/// themselves, everything else as `?`.
pub open spec fn display_char(b: u8) -> char {
    if 0x21 <= b <= 0x7E || b == 0x20 {
        b as char
    } else {
        '?'
    }
}

impl Signature {
    /// The `TES3` signature.
    #[allow(non_snake_case)]
    pub fn TES3() -> (s: Signature)
        ensures
            s == Signature([0x54, 0x45, 0x53, 0x33]),
            s.0@ == seq![0x54, 0x45, 0x53, 0x33u8],
    {
        Signature([0x54, 0x45, 0x53, 0x33])
    }

    /// The `TES4` signature.
    #[allow(non_snake_case)]
    pub fn TES4() -> (s: Signature)
        ensures
            s == Signature([0x54, 0x45, 0x53, 0x34]),
            s.0@ == seq![0x54, 0x45, 0x53, 0x34u8],
    {
        Signature([0x54, 0x45, 0x53, 0x34])
    }

    /// The `GRUP` signature.
    #[allow(non_snake_case)]
    pub fn GRUP() -> (s: Signature)
        ensures
            s == Signature([0x47, 0x52, 0x55, 0x50]),
            s.0@ == seq![0x47, 0x52, 0x55, 0x50u8],
    {
        Signature([0x47, 0x52, 0x55, 0x50])
    }

    /// The `AACT` signature.
    #[allow(non_snake_case)]
    pub fn AACT() -> (s: Signature)
        ensures
            s == Signature([0x41, 0x41, 0x43, 0x54]),
            s.0@ == seq![0x41, 0x41, 0x43, 0x54u8],
    {
        Signature([0x41, 0x41, 0x43, 0x54])
    }

    /// The `ACHR` signature.
    #[allow(non_snake_case)]
    pub fn ACHR() -> (s: Signature)
        ensures
            s == Signature([0x41, 0x43, 0x48, 0x52]),
            s.0@ == seq![0x41, 0x43, 0x48, 0x52u8],
    {
        Signature([0x41, 0x43, 0x48, 0x52])
    }

    /// The `ARMO` signature.
    #[allow(non_snake_case)]
    pub fn ARMO() -> (s: Signature)
        ensures
            s == Signature([0x41, 0x52, 0x4D, 0x4F]),
            s.0@ == seq![0x41, 0x52, 0x4D, 0x4Fu8],
    {
        Signature([0x41, 0x52, 0x4D, 0x4F])
    }

    /// The `BOOK` signature.
    #[allow(non_snake_case)]
    pub fn BOOK() -> (s: Signature)
        ensures
            s == Signature([0x42, 0x4F, 0x4F, 0x4B]),
            s.0@ == seq![0x42, 0x4F, 0x4F, 0x4Bu8],
    {
        Signature([0x42, 0x4F, 0x4F, 0x4B])
    }

    /// The `CELL` signature.
    #[allow(non_snake_case)]
    pub fn CELL() -> (s: Signature)
        ensures
            s == Signature([0x43, 0x45, 0x4C, 0x4C]),
            s.0@ == seq![0x43, 0x45, 0x4C, 0x4Cu8],
    {
        Signature([0x43, 0x45, 0x4C, 0x4C])
    }

    /// The `DIAL` signature.
    #[allow(non_snake_case)]
    pub fn DIAL() -> (s: Signature)
        ensures
            s == Signature([0x44, 0x49, 0x41, 0x4C]),
            s.0@ == seq![0x44, 0x49, 0x41, 0x4Cu8],
    {
        Signature([0x44, 0x49, 0x41, 0x4C])
    }

    /// The `FACT` signature.
    #[allow(non_snake_case)]
    pub fn FACT() -> (s: Signature)
        ensures
            s == Signature([0x46, 0x41, 0x43, 0x54]),
            s.0@ == seq![0x46, 0x41, 0x43, 0x54u8],
    {
        Signature([0x46, 0x41, 0x43, 0x54])
    }

    /// The `FLST` signature.
    #[allow(non_snake_case)]
    pub fn FLST() -> (s: Signature)
        ensures
            s == Signature([0x46, 0x4C, 0x53, 0x54]),
            s.0@ == seq![0x46, 0x4C, 0x53, 0x54u8],
    {
        Signature([0x46, 0x4C, 0x53, 0x54])
    }

    /// The `GLOB` signature.
    #[allow(non_snake_case)]
    pub fn GLOB() -> (s: Signature)
        ensures
            s == Signature([0x47, 0x4C, 0x4F, 0x42]),
            s.0@ == seq![0x47, 0x4C, 0x4F, 0x42u8],
    {
        Signature([0x47, 0x4C, 0x4F, 0x42])
    }

    /// The `GMST` signature.
    #[allow(non_snake_case)]
    pub fn GMST() -> (s: Signature)
        ensures
            s == Signature([0x47, 0x4D, 0x53, 0x54]),
            s.0@ == seq![0x47, 0x4D, 0x53, 0x54u8],
    {
        Signature([0x47, 0x4D, 0x53, 0x54])
    }

    /// The `IDLE` signature.
    #[allow(non_snake_case)]
    pub fn IDLE() -> (s: Signature)
        ensures
            s == Signature([0x49, 0x44, 0x4C, 0x45]),
            s.0@ == seq![0x49, 0x44, 0x4C, 0x45u8],
    {
        Signature([0x49, 0x44, 0x4C, 0x45])
    }

    /// The `INFO` signature.
    #[allow(non_snake_case)]
    pub fn INFO() -> (s: Signature)
        ensures
            s == Signature([0x49, 0x4E, 0x46, 0x4F]),
            s.0@ == seq![0x49, 0x4E, 0x46, 0x4Fu8],
    {
        Signature([0x49, 0x4E, 0x46, 0x4F])
    }

    /// The `KYWD` signature.
    #[allow(non_snake_case)]
    pub fn KYWD() -> (s: Signature)
        ensures
            s == Signature([0x4B, 0x59, 0x57, 0x44]),
            s.0@ == seq![0x4B, 0x59, 0x57, 0x44u8],
    {
        Signature([0x4B, 0x59, 0x57, 0x44])
    }

    /// The `LCRT` signature.
    #[allow(non_snake_case)]
    pub fn LCRT() -> (s: Signature)
        ensures
            s == Signature([0x4C, 0x43, 0x52, 0x54]),
            s.0@ == seq![0x4C, 0x43, 0x52, 0x54u8],
    {
        Signature([0x4C, 0x43, 0x52, 0x54])
    }

    /// The `MGEF` signature.
    #[allow(non_snake_case)]
    pub fn MGEF() -> (s: Signature)
        ensures
            s == Signature([0x4D, 0x47, 0x45, 0x46]),
            s.0@ == seq![0x4D, 0x47, 0x45, 0x46u8],
    {
        Signature([0x4D, 0x47, 0x45, 0x46])
    }

    /// The `MISC` signature.
    #[allow(non_snake_case)]
    pub fn MISC() -> (s: Signature)
        ensures
            s == Signature([0x4D, 0x49, 0x53, 0x43]),
            s.0@ == seq![0x4D, 0x49, 0x53, 0x43u8],
    {
        Signature([0x4D, 0x49, 0x53, 0x43])
    }

    /// The `NPC_` signature.
    #[allow(non_snake_case)]
    pub fn NPC_() -> (s: Signature)
        ensures
            s == Signature([0x4E, 0x50, 0x43, 0x5F]),
            s.0@ == seq![0x4E, 0x50, 0x43, 0x5Fu8],
    {
        Signature([0x4E, 0x50, 0x43, 0x5F])
    }

    /// The `PERK` signature.
    #[allow(non_snake_case)]
    pub fn PERK() -> (s: Signature)
        ensures
            s == Signature([0x50, 0x45, 0x52, 0x4B]),
            s.0@ == seq![0x50, 0x45, 0x52, 0x4Bu8],
    {
        Signature([0x50, 0x45, 0x52, 0x4B])
    }

    /// The `QUST` signature.
    #[allow(non_snake_case)]
    pub fn QUST() -> (s: Signature)
        ensures
            s == Signature([0x51, 0x55, 0x53, 0x54]),
            s.0@ == seq![0x51, 0x55, 0x53, 0x54u8],
    {
        Signature([0x51, 0x55, 0x53, 0x54])
    }

    /// The `RACE` signature.
    #[allow(non_snake_case)]
    pub fn RACE() -> (s: Signature)
        ensures
            s == Signature([0x52, 0x41, 0x43, 0x45]),
            s.0@ == seq![0x52, 0x41, 0x43, 0x45u8],
    {
        Signature([0x52, 0x41, 0x43, 0x45])
    }

    /// The `REFR` signature.
    #[allow(non_snake_case)]
    pub fn REFR() -> (s: Signature)
        ensures
            s == Signature([0x52, 0x45, 0x46, 0x52]),
            s.0@ == seq![0x52, 0x45, 0x46, 0x52u8],
    {
        Signature([0x52, 0x45, 0x46, 0x52])
    }

    /// The `SPEL` signature.
    #[allow(non_snake_case)]
    pub fn SPEL() -> (s: Signature)
        ensures
            s == Signature([0x53, 0x50, 0x45, 0x4C]),
            s.0@ == seq![0x53, 0x50, 0x45, 0x4Cu8],
    {
        Signature([0x53, 0x50, 0x45, 0x4C])
    }

    /// The `STAT` signature.
    #[allow(non_snake_case)]
    pub fn STAT() -> (s: Signature)
        ensures
            s == Signature([0x53, 0x54, 0x41, 0x54]),
            s.0@ == seq![0x53, 0x54, 0x41, 0x54u8],
    {
        Signature([0x53, 0x54, 0x41, 0x54])
    }

    /// The `WEAP` signature.
    #[allow(non_snake_case)]
    pub fn WEAP() -> (s: Signature)
        ensures
            s == Signature([0x57, 0x45, 0x41, 0x50]),
            s.0@ == seq![0x57, 0x45, 0x41, 0x50u8],
    {
        Signature([0x57, 0x45, 0x41, 0x50])
    }

    /// The `WRLD` signature.
    #[allow(non_snake_case)]
    pub fn WRLD() -> (s: Signature)
        ensures
            s == Signature([0x57, 0x52, 0x4C, 0x44]),
            s.0@ == seq![0x57, 0x52, 0x4C, 0x44u8],
    {
        Signature([0x57, 0x52, 0x4C, 0x44])
    }

    /// The `EDID` signature.
    #[allow(non_snake_case)]
    pub fn EDID() -> (s: Signature)
        ensures
            s == Signature([0x45, 0x44, 0x49, 0x44]),
            s.0@ == seq![0x45, 0x44, 0x49, 0x44u8],
    {
        Signature([0x45, 0x44, 0x49, 0x44])
    }

    /// The `FULL` signature.
    #[allow(non_snake_case)]
    pub fn FULL() -> (s: Signature)
        ensures
            s == Signature([0x46, 0x55, 0x4C, 0x4C]),
            s.0@ == seq![0x46, 0x55, 0x4C, 0x4Cu8],
    {
        Signature([0x46, 0x55, 0x4C, 0x4C])
    }

    /// The `DATA` signature.
    #[allow(non_snake_case)]
    pub fn DATA() -> (s: Signature)
        ensures
            s == Signature([0x44, 0x41, 0x54, 0x41]),
            s.0@ == seq![0x44, 0x41, 0x54, 0x41u8],
    {
        Signature([0x44, 0x41, 0x54, 0x41])
    }

    /// The `NAME` signature.
    #[allow(non_snake_case)]
    pub fn NAME() -> (s: Signature)
        ensures
            s == Signature([0x4E, 0x41, 0x4D, 0x45]),
            s.0@ == seq![0x4E, 0x41, 0x4D, 0x45u8],
    {
        Signature([0x4E, 0x41, 0x4D, 0x45])
    }

    /// The `MODL` signature.
    #[allow(non_snake_case)]
    pub fn MODL() -> (s: Signature)
        ensures
            s == Signature([0x4D, 0x4F, 0x44, 0x4C]),
            s.0@ == seq![0x4D, 0x4F, 0x44, 0x4Cu8],
    {
        Signature([0x4D, 0x4F, 0x44, 0x4C])
    }

    /// The `OBND` signature.
    #[allow(non_snake_case)]
    pub fn OBND() -> (s: Signature)
        ensures
            s == Signature([0x4F, 0x42, 0x4E, 0x44]),
            s.0@ == seq![0x4F, 0x42, 0x4E, 0x44u8],
    {
        Signature([0x4F, 0x42, 0x4E, 0x44])
    }

    /// The `VMAD` signature.
    #[allow(non_snake_case)]
    pub fn VMAD() -> (s: Signature)
        ensures
            s == Signature([0x56, 0x4D, 0x41, 0x44]),
            s.0@ == seq![0x56, 0x4D, 0x41, 0x44u8],
    {
        Signature([0x56, 0x4D, 0x41, 0x44])
    }

    /// Create a signature from four bytes.
    pub fn from_bytes(bytes: &[u8; 4]) -> (s: Signature)
        ensures
            s.0 == *bytes,
    {
        Signature(*bytes)
    }

    /// The raw bytes.
    pub fn as_bytes(&self) -> (b: &[u8; 4])
        ensures
            *b == self.0,
    {
        &self.0
    }

    /// Display as an ASCII string, replacing non-printable bytes with `?`.
    pub fn as_str(&self) -> (s: String)
        ensures
            s@ == self.0@.map_values(|b: u8| display_char(b)),
    {
        let mut out = String::new();
        let mut i: usize = 0;
        while i < 4
            invariant
                i <= 4,
                out@ == self.0@.take(i as int).map_values(|b: u8| display_char(b)),
            decreases 4 - i,
        {
            let b = self.0[i];
            let c: char = if (0x21 <= b && b <= 0x7E) || b == 0x20 {
                b as char
            } else {
                '?'
            };
            crate::text::push_char(&mut out, c);
            assert(self.0@.take(i + 1) =~= self.0@.take(i as int).push(b));
            i = i + 1;
        }
        assert(self.0@.take(4) =~= self.0@);
        out
    }
}

} // verus!
