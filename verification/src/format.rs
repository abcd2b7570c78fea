//! The plugin file format: what a well-formed byte sequence is, and which
//! DOM values describe it.
//!
//! Record header: signature, payload size, flags, FormID, then (Oblivion
//! and later) version-control info, and (after Oblivion) version and an
//! unknown u16. Group header: `GRUP`, total size including the header,
//! label, group type, stamp and (after Oblivion) an unknown u32.

use vstd::prelude::*;

use crate::bytes::{le16, le32};
use crate::compress::{spec_deflate_inflate, spec_zlib_inflate};
use crate::dialect::{spec_family, spec_header_sig, DialectFamily, GameId};
use crate::group::{Group, GroupChild, GroupType};
use crate::plugin::Plugin;
use crate::record::Record;
use crate::signature::{sig_of, Signature};
use crate::subrecord::Subrecord;
use crate::text::nul_prefix;

verus! {

/// Why a byte sequence is not a well-formed plugin.
#[derive(Debug, Clone, Copy, PartialEq, Eq)]
pub enum DomError {
    /// A header or payload extends past the end of the data
    UnexpectedEof,
    /// The file header signature is not the game's (TES3 / TES4); holds the four bytes found
    InvalidMagic([u8; 4]),
    /// A group was expected but the signature is not `GRUP`
    InvalidSignature,
    /// The group type field is not one of the known types (0..=10)
    InvalidGroupType(u32),
    /// An `XXXX` marker whose size is not 4 or whose value is truncated
    InvalidExtendedSize,
    /// A subrecord's data extends past the end of its record
    SubrecordOverrun,
    /// An `XXXX` marker with no subrecord after it
    DanglingExtendedSize,
    /// A compressed record payload shorter than its 4-byte size prefix
    CompressedTooShort,
    /// Neither zlib nor raw deflate could decode a compressed payload
    DecompressionFailed,
}

/// Record header length per game.
pub open spec fn rec_hl(g: GameId) -> int {
    match g {
        GameId::Morrowind => 16,
        GameId::Oblivion => 20,
        _ => 24,
    }
}

/// Group header length per game.
pub open spec fn grp_hl(g: GameId) -> int {
    match g {
        GameId::Oblivion => 20,
        _ => 24,
    }
}

/// Subrecord header length per dialect family.
pub open spec fn sub_hl(f: DialectFamily) -> int {
    match f {
        DialectFamily::TES3 => 8,
        DialectFamily::TES4Plus => 6,
    }
}

/// Whether the four bytes at `p` are `GRUP`.
pub open spec fn is_grup_at(d: Seq<u8>, p: int) -> bool {
    d.subrange(p, p + 4) == seq![0x47u8, 0x52, 0x55, 0x50]
}

/// Whether the four bytes at `p` are `XXXX`.
pub open spec fn is_xxxx_at(d: Seq<u8>, p: int) -> bool {
    d.subrange(p, p + 4) == seq![0x58u8, 0x58, 0x58, 0x58]
}

/// Whether a flags value has the compressed bit.
pub open spec fn flags_compressed(f: int) -> bool {
    (f as u32) & 0x0004_0000 != 0
}

/// A parsed subrecord: signature, data, offset of its header in the payload.
pub type SubModel = (Signature, Seq<u8>, int);

/// The subrecords of a record body, from offset `pos`, with a pending
/// extended size from an `XXXX` marker.
pub open spec fn spec_subrecords(f: DialectFamily, b: Seq<u8>, pos: int, ext: Option<nat>) -> Result<
    Seq<SubModel>,
    DomError,
>
    decreases b.len() - pos,
{
    let hs = sub_hl(f);
    if pos < 0 || pos + hs > b.len() {
        if ext is Some {
            Err(DomError::DanglingExtendedSize)
        } else {
            Ok(seq![])
        }
    } else {
        let short = match f {
            DialectFamily::TES3 => le32(b, pos + 4),
            DialectFamily::TES4Plus => le16(b, pos + 4),
        };
        let p2 = pos + hs;
        if f == DialectFamily::TES4Plus && is_xxxx_at(b, pos) {
            if short == 4 && p2 + 4 <= b.len() {
                spec_subrecords(f, b, p2 + 4, Some(le32(b, p2) as nat))
            } else {
                Err(DomError::InvalidExtendedSize)
            }
        } else {
            let size: int = match ext {
                Some(x) => x as int,
                None => short,
            };
            if p2 + size > b.len() {
                Err(DomError::SubrecordOverrun)
            } else {
                match spec_subrecords(f, b, p2 + size, None) {
                    Ok(rest) => Ok(
                        seq![(sig_of(b.subrange(pos, pos + 4)), b.subrange(p2, p2 + size), pos)]
                            + rest,
                    ),
                    Err(e) => Err(e),
                }
            }
        }
    }
}

/// The body of a compressed payload: a 4-byte size prefix, then a zlib
/// stream; when zlib fails, a raw deflate stream (after the 2-byte zlib
/// header when the stream starts with 0x78).
pub open spec fn spec_decompress(payload: Seq<u8>) -> Result<Seq<u8>, DomError> {
    if payload.len() < 4 {
        Err(DomError::CompressedTooShort)
    } else {
        let c = payload.subrange(4, payload.len() as int);
        match spec_zlib_inflate(c) {
            Some(o) => Ok(o),
            None => {
                let raw = if c.len() >= 2 && c[0] == 0x78 {
                    c.subrange(2, c.len() as int)
                } else {
                    c
                };
                match spec_deflate_inflate(raw) {
                    Some(o) => Ok(o),
                    None => Err(DomError::DecompressionFailed),
                }
            },
        }
    }
}

/// The subrecord body of a record payload with the given flags.
pub open spec fn spec_body(g: GameId, flags: int, payload: Seq<u8>) -> Result<Seq<u8>, DomError> {
    if flags_compressed(flags) {
        spec_decompress(payload)
    } else {
        Ok(payload)
    }
}

/// Where the record starting at `pos` ends, or why it is malformed.
pub open spec fn spec_record_end(g: GameId, d: Seq<u8>, pos: int) -> Result<int, DomError> {
    let hl = rec_hl(g);
    if pos < 0 || pos + hl > d.len() {
        Err(DomError::UnexpectedEof)
    } else {
        let end = pos + hl + le32(d, pos + 4);
        if end > d.len() {
            Err(DomError::UnexpectedEof)
        } else {
            match spec_body(g, le32(d, pos + 8), d.subrange(pos + hl, end)) {
                Err(e) => Err(e),
                Ok(b) => match spec_subrecords(spec_family(g), b, 0, None) {
                    Err(e) => Err(e),
                    Ok(_) => Ok(end),
                },
            }
        }
    }
}

/// The group type encoded by a raw type field and label.
pub open spec fn spec_group_type(t: int, l: Seq<u8>) -> Option<GroupType> {
    if t == 0 {
        Some(GroupType::Top(sig_of(l)))
    } else if t == 1 {
        Some(GroupType::WorldChildren(le32(l, 0) as u32))
    } else if t == 2 {
        Some(GroupType::InteriorCellBlock((le32(l, 0) as u32) as i32))
    } else if t == 3 {
        Some(GroupType::InteriorCellSubBlock((le32(l, 0) as u32) as i32))
    } else if t == 4 {
        Some(
            GroupType::ExteriorCellBlock {
                y: (le16(l, 0) as u16) as i16,
                x: (le16(l, 2) as u16) as i16,
            },
        )
    } else if t == 5 {
        Some(
            GroupType::ExteriorCellSubBlock {
                y: (le16(l, 0) as u16) as i16,
                x: (le16(l, 2) as u16) as i16,
            },
        )
    } else if t == 6 {
        Some(GroupType::CellChildren(le32(l, 0) as u32))
    } else if t == 7 {
        Some(GroupType::TopicChildren(le32(l, 0) as u32))
    } else if t == 8 {
        Some(GroupType::CellPersistentChildren(le32(l, 0) as u32))
    } else if t == 9 {
        Some(GroupType::CellTemporaryChildren(le32(l, 0) as u32))
    } else if t == 10 {
        Some(GroupType::CellVisibleDistantChildren(le32(l, 0) as u32))
    } else {
        None
    }
}

/// Where the group starting at `pos` ends, or why it is malformed.
pub open spec fn spec_group_end(g: GameId, d: Seq<u8>, pos: int) -> Result<int, DomError>
    decreases d.len() - pos, 0int,
{
    let hl = grp_hl(g);
    if pos < 0 || pos + hl > d.len() {
        Err(DomError::UnexpectedEof)
    } else if !is_grup_at(d, pos) {
        Err(DomError::InvalidSignature)
    } else if spec_group_type(le32(d, pos + 12), d.subrange(pos + 8, pos + 12)) is None {
        Err(DomError::InvalidGroupType(le32(d, pos + 12) as u32))
    } else {
        spec_children_end(g, d, pos + hl, pos + le32(d, pos + 4))
    }
}

/// Where the group child (group or record) starting at `pos` ends.
pub open spec fn spec_child_end(g: GameId, d: Seq<u8>, pos: int) -> Result<int, DomError>
    decreases d.len() - pos, 1int,
{
    if pos < 0 || pos + 4 > d.len() {
        Err(DomError::UnexpectedEof)
    } else if is_grup_at(d, pos) {
        spec_group_end(g, d, pos)
    } else {
        spec_record_end(g, d, pos)
    }
}

/// Where the children of a group, starting at `pos`, end: children are
/// read while the position is before `cend` (the group's declared end).
pub open spec fn spec_children_end(g: GameId, d: Seq<u8>, pos: int, cend: int) -> Result<
    int,
    DomError,
>
    decreases d.len() - pos, 2int,
{
    if pos < 0 || pos > d.len() {
        Err(DomError::UnexpectedEof)
    } else if pos >= cend {
        Ok(pos)
    } else {
        match spec_child_end(g, d, pos) {
            Ok(e) => if pos < e <= d.len() {
                spec_children_end(g, d, e, cend)
            } else {
                Err(DomError::UnexpectedEof)
            },
            Err(x) => Err(x),
        }
    }
}

/// Whether the items after the file header, from `pos` to the end of the
/// data, are well formed (records for TES3, groups for TES4+).
pub open spec fn spec_top_ok(g: GameId, d: Seq<u8>, pos: int) -> Result<(), DomError>
    decreases d.len() - pos,
{
    if pos < 0 || pos >= d.len() {
        Ok(())
    } else {
        let r = match spec_family(g) {
            DialectFamily::TES3 => spec_record_end(g, d, pos),
            DialectFamily::TES4Plus => spec_group_end(g, d, pos),
        };
        match r {
            Ok(e) => if pos < e <= d.len() {
                spec_top_ok(g, d, e)
            } else {
                Err(DomError::UnexpectedEof)
            },
            Err(x) => Err(x),
        }
    }
}

/// Whether `d` is a well-formed plugin of game `g`, or why not.
pub open spec fn spec_read(g: GameId, d: Seq<u8>) -> Result<(), DomError> {
    match spec_record_end(g, d, 0) {
        Err(e) => Err(e),
        Ok(e0) => if d.subrange(0, 4) != spec_header_sig(g) {
            Err(DomError::InvalidMagic([d[0], d[1], d[2], d[3]]))
        } else {
            spec_top_ok(g, d, e0)
        },
    }
}

// ---------------------------------------------------------------------------
// Which DOM values describe well-formed bytes
// ---------------------------------------------------------------------------
/// The subrecord vector holds exactly the parsed subrecords, unmodified.
pub open spec fn subrecords_match(v: Seq<Subrecord>, m: Seq<SubModel>) -> bool {
    &&& v.len() == m.len()
    &&& forall|i: int|
        0 <= i < v.len() ==> {
            &&& #[trigger] v[i].signature == m[i].0
            &&& v[i].raw_data@ == m[i].1
            &&& v[i].size == m[i].1.len() as u32
            &&& v[i].source_offset == Some(m[i].2 as u64)
            &&& !v[i].modified
        }
}

/// The record value `r` is the one read from `d[pos..end]`.
pub open spec fn record_matches(g: GameId, r: Record, d: Seq<u8>, pos: int, end: int) -> bool {
    let hl = rec_hl(g);
    let payload = d.subrange(pos + hl, end);
    &&& 0 <= pos && pos + hl <= end <= d.len()
    &&& r.raw_header matches Some(h) && h@ == d.subrange(pos, pos + hl)
    &&& r.signature == sig_of(d.subrange(pos, pos + 4))
    &&& r.flags.0 == le32(d, pos + 8)
    &&& r.form_id.0 == le32(d, pos + 12)
    &&& r.vc_info == (if hl >= 20 {
        le32(d, pos + 16)
    } else {
        0
    })
    &&& r.version == (if hl >= 24 {
        le16(d, pos + 20)
    } else {
        0
    })
    &&& r.unknown == (if hl >= 24 {
        le16(d, pos + 22)
    } else {
        0
    })
    &&& r.source_offset == Some(pos as u64)
    &&& !r.modified
    &&& if flags_compressed(r.flags.0 as int) {
        &&& r.raw_compressed_data matches Some(c) && c@ == payload
        &&& r.raw_data is None
    } else {
        &&& r.raw_data matches Some(c) && c@ == payload
        &&& r.raw_compressed_data is None
    }
    &&& spec_body(g, r.flags.0 as int, payload) matches Ok(b)
    &&& spec_subrecords(spec_family(g), b, 0, None) matches Ok(m)
    &&& subrecords_match(r.subrecords@, m)
}

/// The group value `grp` is the one read from `d[pos..end]`.
pub open spec fn group_matches(g: GameId, grp: Group, d: Seq<u8>, pos: int, end: int) -> bool
    decreases grp,
{
    let hl = grp_hl(g);
    &&& 0 <= pos && pos + hl <= end <= d.len()
    &&& grp.raw_header matches Some(h) && h@ == d.subrange(pos, pos + hl)
    &&& is_grup_at(d, pos)
    &&& spec_group_type(le32(d, pos + 12), d.subrange(pos + 8, pos + 12)) == Some(grp.group_type)
    &&& grp.stamp == le32(d, pos + 16)
    &&& grp.unknown == (if hl >= 24 {
        le32(d, pos + 20)
    } else {
        0
    })
    &&& grp.source_offset == Some(pos as u64)
    &&& children_match(g, grp.children@, d, pos + hl, pos + le32(d, pos + 4), end)
}

/// The child value `c` is the one read from `d[pos..end]`.
pub open spec fn child_matches(g: GameId, c: GroupChild, d: Seq<u8>, pos: int, end: int) -> bool
    decreases c,
{
    match c {
        GroupChild::Group(x) => is_grup_at(d, pos) && group_matches(g, x, d, pos, end),
        GroupChild::Record(r) => !is_grup_at(d, pos) && record_matches(g, r, d, pos, end),
    }
}

/// The children `s` are those read from `pos` (children are read while
/// the position is before `cend`), ending at `end`.
pub open spec fn children_match(
    g: GameId,
    s: Seq<GroupChild>,
    d: Seq<u8>,
    pos: int,
    cend: int,
    end: int,
) -> bool
    decreases s,
{
    if pos >= cend {
        s.len() == 0 && end == pos
    } else {
        &&& s.len() > 0
        &&& spec_child_end(g, d, pos) matches Ok(e)
        &&& pos < e
        &&& child_matches(g, s[0], d, pos, e)
        &&& children_match(g, s.drop_first(), d, e, cend, end)
    }
}

/// A prefix of the children, read from `pos` up to `cur`.
pub open spec fn children_prefix(
    g: GameId,
    s: Seq<GroupChild>,
    d: Seq<u8>,
    pos: int,
    cend: int,
    cur: int,
) -> bool
    decreases s,
{
    if s.len() == 0 {
        pos == cur
    } else {
        &&& pos < cend
        &&& spec_child_end(g, d, pos) matches Ok(e)
        &&& pos < e <= d.len()
        &&& child_matches(g, s[0], d, pos, e)
        &&& children_prefix(g, s.drop_first(), d, e, cend, cur)
    }
}

/// The top-level groups `s` are those read from `pos` to the end of `d`.
pub open spec fn tops_match(g: GameId, s: Seq<Group>, d: Seq<u8>, pos: int) -> bool
    decreases s.len(),
{
    if pos >= d.len() {
        s.len() == 0
    } else {
        &&& s.len() > 0
        &&& spec_group_end(g, d, pos) matches Ok(e)
        &&& pos < e
        &&& group_matches(g, s[0], d, pos, e)
        &&& tops_match(g, s.drop_first(), d, e)
    }
}

/// The TES3 records `s` are those read from `pos` to the end of `d`.
pub open spec fn recs_match(g: GameId, s: Seq<Record>, d: Seq<u8>, pos: int) -> bool
    decreases s.len(),
{
    if pos >= d.len() {
        s.len() == 0
    } else {
        &&& s.len() > 0
        &&& spec_record_end(g, d, pos) matches Ok(e)
        &&& pos < e
        &&& record_matches(g, s[0], d, pos, e)
        &&& recs_match(g, s.drop_first(), d, e)
    }
}

/// The signature `MAST`.
pub open spec fn mast_sig() -> Signature {
    Signature([0x4D, 0x41, 0x53, 0x54])
}

/// The master names of a file header: each MAST subrecord's bytes up to the
/// first zero byte, decoded as UTF-8; ones that are not UTF-8 are skipped.
pub open spec fn spec_masters(subs: Seq<Subrecord>) -> Seq<Seq<char>>
    decreases subs.len(),
{
    if subs.len() == 0 {
        seq![]
    } else {
        let rest = spec_masters(subs.drop_first());
        let b = nul_prefix(subs[0].raw_data@);
        if subs[0].signature == mast_sig() && vstd::utf8::valid_utf8(b) {
            seq![vstd::utf8::decode_utf8(b)] + rest
        } else {
            rest
        }
    }
}

/// The plugin value `p` is the one read from `d` for game `g`.
pub open spec fn plugin_matches(g: GameId, p: Plugin, d: Seq<u8>) -> bool {
    &&& p.game_id == g
    &&& spec_record_end(g, d, 0) matches Ok(e0)
    &&& record_matches(g, p.header, d, 0, e0)
    &&& p.masters@.map_values(|s: String| s@) == spec_masters(p.header.subrecords@)
    &&& match spec_family(g) {
        DialectFamily::TES3 => p.groups@.len() == 0 && recs_match(g, p.tes3_records@, d, e0),
        DialectFamily::TES4Plus => p.tes3_records@.len() == 0 && tops_match(
            g,
            p.groups@,
            d,
            e0,
        ),
    }
    &&& p.description is None
    &&& p.author is None
    &&& !p.modified
}

/// Record headers are 16 bytes in Morrowind, 20 in Oblivion and 24 in every
/// later game: a record read at `pos` whose header does not fit is cut
/// short, and one that is read well ends right after its header and the
/// data size that the header gives.
pub proof fn lemma_record_header_length(g: GameId, d: Seq<u8>, pos: int)
    requires
        0 <= pos,
    ensures
        ({
            let h = if g == GameId::Morrowind {
                16int
            } else if g == GameId::Oblivion {
                20int
            } else {
                24int
            };
            &&& pos + h > d.len() ==> spec_record_end(g, d, pos) == Err::<int, DomError>(
                DomError::UnexpectedEof,
            )
            &&& spec_record_end(g, d, pos) is Ok ==> spec_record_end(g, d, pos) == Ok::<
                int,
                DomError,
            >(pos + h + le32(d, pos + 4))
        }),
{
}

/// Group headers are 20 bytes in Oblivion and 24 in every other game: the
/// children of a well-formed group header at `pos` are read from right
/// after it up to the end the header gives.
pub proof fn lemma_group_header_length(g: GameId, d: Seq<u8>, pos: int)
    requires
        0 <= pos,
        pos + 24 <= d.len(),
        is_grup_at(d, pos),
        spec_group_type(le32(d, pos + 12), d.subrange(pos + 8, pos + 12)) is Some,
    ensures
        spec_group_end(g, d, pos) == spec_children_end(
            g,
            d,
            pos + if g == GameId::Oblivion {
                20int
            } else {
                24int
            },
            pos + le32(d, pos + 4),
        ),
{
}

/// A record payload is decompressed exactly when its flags have the
/// compressed bit 0x0004_0000.
pub proof fn lemma_compressed_flag(g: GameId, f: u32, payload: Seq<u8>)
    ensures
        spec_body(g, f as int, payload) == if f & 0x0004_0000 != 0 {
            spec_decompress(payload)
        } else {
            Ok::<Seq<u8>, DomError>(payload)
        },
{
    assert((f as int) as u32 == f);
}

/// A plugin file starts with its header record, whose signature is `TES3`
/// for Morrowind and `TES4` for every other game: with another signature
/// the file is refused with those four bytes; with it, what follows the
/// header decides.
pub proof fn lemma_header_magic(g: GameId, d: Seq<u8>, e0: int)
    requires
        spec_record_end(g, d, 0) == Ok::<int, DomError>(e0),
    ensures
        ({
            let magic = if g == GameId::Morrowind {
                seq![0x54u8, 0x45, 0x53, 0x33]
            } else {
                seq![0x54u8, 0x45, 0x53, 0x34]
            };
            &&& d.subrange(0, 4) != magic ==> spec_read(g, d) == Err::<(), DomError>(
                DomError::InvalidMagic([d[0], d[1], d[2], d[3]]),
            )
            &&& d.subrange(0, 4) == magic ==> spec_read(g, d) == spec_top_ok(g, d, e0)
        }),
{
}

/// After the header, a Morrowind plugin is a flat list of records and the
/// plugin of every other game a list of groups: each top-level item must
/// read as such.
pub proof fn lemma_top_items(g: GameId, d: Seq<u8>, pos: int)
    requires
        0 <= pos < d.len(),
        spec_top_ok(g, d, pos) is Ok,
    ensures
        g == GameId::Morrowind ==> spec_record_end(g, d, pos) is Ok,
        g != GameId::Morrowind ==> spec_group_end(g, d, pos) is Ok,
{
}

/// Subrecord headers are 8 bytes in Morrowind (signature, 32-bit size) and
/// 6 bytes in every later game (signature, 16-bit size): a body holding
/// exactly one such subrecord (not an `XXXX` marker) reads as that one
/// subrecord, with the data that follows its header.
pub proof fn lemma_subrecord_header_length(f: DialectFamily, b: Seq<u8>)
    requires
        b.len() >= if f == DialectFamily::TES3 {
            8int
        } else {
            6int
        },
        b.len() == if f == DialectFamily::TES3 {
            8 + le32(b, 4)
        } else {
            6 + le16(b, 4)
        },
        f == DialectFamily::TES4Plus ==> !is_xxxx_at(b, 0),
    ensures
        spec_subrecords(f, b, 0, None) == Ok::<Seq<SubModel>, DomError>(
            seq![
                (
                    sig_of(b.subrange(0, 4)),
                    b.subrange(
                        if f == DialectFamily::TES3 {
                            8int
                        } else {
                            6int
                        },
                        b.len() as int,
                    ),
                    0int,
                ),
            ],
        ),
{
    let h = sub_hl(f);
    assert(spec_subrecords(f, b, b.len() as int, None) == Ok::<Seq<SubModel>, DomError>(seq![]));
    let one = seq![(sig_of(b.subrange(0, 4)), b.subrange(h, b.len() as int), 0int)];
    assert(one + seq![] =~= one);
}

} // verus!
