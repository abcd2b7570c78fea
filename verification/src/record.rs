//! Records (e.g. WEAP, NPC_, CELL) and their header flags.

use vstd::prelude::*;

use crate::formid::FormId;
use crate::signature::Signature;
use crate::subrecord::Subrecord;
use crate::text::{nul_prefix, find_nul, str_from_utf8};

verus! {

/// Flags on a record header.
#[derive(Debug, Clone, Copy, PartialEq, Eq, Structural)]
pub struct RecordFlags(pub u32);

impl RecordFlags {
    pub const ESM: u32 = 0x0000_0001;
    pub const DELETED: u32 = 0x0000_0020;
    pub const LOCALIZED: u32 = 0x0000_0080;
    pub const COMPRESSED: u32 = 0x0004_0000;
    pub const ESL: u32 = 0x0000_0200;

    /// No flags set.
    #[allow(non_snake_case)]
    pub fn NONE() -> (f: RecordFlags)
        ensures
            f.0 == 0,
    {
        RecordFlags(0)
    }

    pub fn is_compressed(&self) -> (b: bool)
        ensures
            b == (self.0 & 0x0004_0000 != 0),
    {
        self.0 & Self::COMPRESSED != 0
    }

    pub fn is_deleted(&self) -> (b: bool)
        ensures
            b == (self.0 & 0x0000_0020 != 0),
    {
        self.0 & Self::DELETED != 0
    }

    pub fn is_esm(&self) -> (b: bool)
        ensures
            b == (self.0 & 0x0000_0001 != 0),
    {
        self.0 & Self::ESM != 0
    }

    pub fn is_esl(&self) -> (b: bool)
        ensures
            b == (self.0 & 0x0000_0200 != 0),
    {
        self.0 & Self::ESL != 0
    }

    pub fn is_localized(&self) -> (b: bool)
        ensures
            b == (self.0 & 0x0000_0080 != 0),
    {
        self.0 & Self::LOCALIZED != 0
    }
}

/// A record in a plugin file (e.g. a WEAP, NPC_ or CELL record).
///
/// The raw header and payload bytes of unmodified records are preserved for
/// lossless roundtrip.
#[derive(Debug, Clone)]
pub struct Record {
    /// 4-byte type signature
    pub signature: Signature,
    /// Record flags
    pub flags: RecordFlags,
    /// Form ID
    pub form_id: FormId,
    /// Version control info (game-specific)
    pub vc_info: u32,
    /// Internal version (game-specific)
    pub version: u16,
    /// Unknown field from header
    pub unknown: u16,
    /// Subrecords belonging to this record
    pub subrecords: Vec<Subrecord>,
    /// Original raw header bytes for lossless roundtrip
    pub raw_header: Option<Vec<u8>>,
    /// For a compressed record, the original payload (size prefix + zlib bytes)
    pub raw_compressed_data: Option<Vec<u8>>,
    /// For an uncompressed record, the original payload bytes
    pub raw_data: Option<Vec<u8>>,
    /// Original byte offset in the source file
    pub source_offset: Option<u64>,
    /// Whether the record itself has been modified since loading
    pub modified: bool,
}

/// Index of the first subrecord of `subs` with signature `sig`.
pub open spec fn first_with_sig(subs: Seq<Subrecord>, sig: Signature) -> Option<int>
    decreases subs.len(),
{
    if subs.len() == 0 {
        None
    } else if subs[0].signature == sig {
        Some(0)
    } else {
        match first_with_sig(subs.drop_first(), sig) {
            Some(i) => Some(i + 1),
            None => None,
        }
    }
}

pub proof fn lemma_first_with_sig(subs: Seq<Subrecord>, sig: Signature)
    ensures
        first_with_sig(subs, sig) matches Some(i) ==> 0 <= i < subs.len() && subs[i].signature
            == sig && forall|j: int| 0 <= j < i ==> subs[j].signature != sig,
        first_with_sig(subs, sig) is None ==> forall|j: int|
            0 <= j < subs.len() ==> subs[j].signature != sig,
    decreases subs.len(),
{
    if subs.len() > 0 && subs[0].signature != sig {
        lemma_first_with_sig(subs.drop_first(), sig);
        assert forall|j: int| 0 < j < subs.len() implies subs[j] == subs.drop_first()[j - 1] by {}
    }
}

/// The signature `EDID`.
pub open spec fn edid_sig() -> Signature {
    Signature([0x45, 0x44, 0x49, 0x44])
}

/// The Editor ID of a record: the first EDID subrecord's bytes up to the
/// first zero byte, decoded as UTF-8 (`None` when absent or not UTF-8).
pub open spec fn spec_editor_id(subs: Seq<Subrecord>) -> Option<Seq<char>> {
    match first_with_sig(subs, edid_sig()) {
        None => None,
        Some(i) => {
            let b = nul_prefix(subs[i].raw_data@);
            if vstd::utf8::valid_utf8(b) {
                Some(vstd::utf8::decode_utf8(b))
            } else {
                None
            }
        },
    }
}

/// Whether the record or any of its subrecords has been modified.
pub open spec fn spec_is_modified(r: Record) -> bool {
    r.modified || exists|i: int| 0 <= i < r.subrecords@.len() && r.subrecords@[i].modified
}

impl Record {
    /// The Editor ID (EDID subrecord), if present and valid UTF-8.
    pub fn editor_id(&self) -> (e: Option<&str>)
        ensures
            e matches Some(s) ==> spec_editor_id(self.subrecords@) == Some(s@),
            e is None ==> spec_editor_id(self.subrecords@) is None,
    {
        proof {
            lemma_first_with_sig(self.subrecords@, edid_sig());
        }
        let edid = Signature::EDID();
        let mut i: usize = 0;
        while i < self.subrecords.len()
            invariant
                i <= self.subrecords@.len(),
                edid == edid_sig(),
                forall|j: int| 0 <= j < i ==> self.subrecords@[j].signature != edid_sig(),
                first_with_sig(self.subrecords@, edid_sig()) matches Some(k) ==> 0 <= k
                    < self.subrecords@.len() && self.subrecords@[k].signature == edid_sig()
                    && forall|j: int| 0 <= j < k ==> self.subrecords@[j].signature != edid_sig(),
                first_with_sig(self.subrecords@, edid_sig()) is None ==> forall|j: int|
                    0 <= j < self.subrecords@.len() ==> self.subrecords@[j].signature
                        != edid_sig(),
            decreases self.subrecords.len() - i,
        {
            if self.subrecords[i].signature == edid {
                let data = &self.subrecords[i].raw_data;
                let n = find_nul(data.as_slice());
                let prefix = vstd::slice::slice_subrange(data.as_slice(), 0, n);
                assert(prefix@ == nul_prefix(data@));
                return str_from_utf8(prefix);
            }
            i = i + 1;
        }
        None
    }

    /// All subrecords with a given signature, in order.
    pub fn subrecords_by_sig(&self, sig: Signature) -> (v: Vec<&Subrecord>)
        ensures
            v@.map_values(|s: &Subrecord| *s) == self.subrecords@.filter(
                |s: Subrecord| s.signature == sig,
            ),
    {
        let mut v: Vec<&Subrecord> = Vec::new();
        let mut i: usize = 0;
        while i < self.subrecords.len()
            invariant
                i <= self.subrecords@.len(),
                v@.map_values(|s: &Subrecord| *s) == self.subrecords@.take(i as int).filter(
                    |s: Subrecord| s.signature == sig,
                ),
            decreases self.subrecords.len() - i,
        {
            let sr = &self.subrecords[i];
            proof {
                reveal_with_fuel(Seq::filter, 1);
                assert(self.subrecords@.take(i + 1).drop_last() =~= self.subrecords@.take(
                    i as int,
                ));
            }
            if sr.signature == sig {
                v.push(sr);
                assert(v@.map_values(|s: &Subrecord| *s) =~= self.subrecords@.take(
                    i as int,
                ).filter(|s: Subrecord| s.signature == sig).push(*sr));
            }
            i = i + 1;
        }
        assert(self.subrecords@.take(i as int) =~= self.subrecords@);
        v
    }

    /// Whether the record or any of its subrecords has been modified.
    pub fn is_modified(&self) -> (b: bool)
        ensures
            b == spec_is_modified(*self),
    {
        if self.modified {
            return true;
        }
        let mut i: usize = 0;
        while i < self.subrecords.len()
            invariant
                i <= self.subrecords@.len(),
                !self.modified,
                forall|j: int| 0 <= j < i ==> !self.subrecords@[j].modified,
            decreases self.subrecords.len() - i,
        {
            if self.subrecords[i].modified {
                return true;
            }
            i = i + 1;
        }
        false
    }
}

} // verus!
