//! Plugin reader: parses ESP/ESM/ESL bytes into the lossless DOM.

use vstd::prelude::*;

use crate::bytes::{copy_range, le16, le32, read_u16, read_u32};
use crate::compress::{deflate_inflate, zlib_inflate};
use crate::dialect::{spec_family, spec_header_sig, DialectFamily, GameId};
use crate::format::{
    children_match, children_prefix, child_matches, group_matches, grp_hl, is_grup_at, is_xxxx_at,
    plugin_matches, rec_hl, recs_match, record_matches, spec_body, spec_child_end,
    spec_children_end, spec_decompress, spec_group_end, spec_group_type, spec_masters, spec_read,
    spec_record_end, spec_subrecords, spec_top_ok, sub_hl, subrecords_match, tops_match, DomError,
    SubModel, flags_compressed, mast_sig,
};
use crate::formid::FormId;
use crate::group::{Group, GroupChild, GroupType};
use crate::plugin::Plugin;
use crate::record::{Record, RecordFlags};
use crate::signature::{sig_of, Signature};
use crate::subrecord::Subrecord;
use crate::text::{find_nul, nul_prefix, str_from_utf8};

verus! {

broadcast use vstd::array::group_array_axioms;

/// Reads Bethesda plugin files into the lossless DOM.
pub struct PluginReader {
    game_id: GameId,
}

/// Record header length per game.
fn record_header_len(g: GameId) -> (n: usize)
    ensures
        n == rec_hl(g),
{
    match g {
        GameId::Morrowind => 16,
        GameId::Oblivion => 20,
        _ => 24,
    }
}

/// Group header length per game.
fn group_header_len(g: GameId) -> (n: usize)
    ensures
        n == grp_hl(g),
{
    match g {
        GameId::Oblivion => 20,
        _ => 24,
    }
}

/// The signature of the four bytes at `p`.
fn sig_at(d: &[u8], p: usize) -> (s: Signature)
    requires
        p + 4 <= d@.len(),
    ensures
        s == sig_of(d@.subrange(p as int, p + 4)),
{
    Signature([d[p], d[p + 1], d[p + 2], d[p + 3]])
}

/// Whether the four bytes at `p` are `GRUP`.
fn grup_at(d: &[u8], p: usize) -> (b: bool)
    requires
        p + 4 <= d@.len(),
    ensures
        b == is_grup_at(d@, p as int),
{
    let b = d[p] == 0x47 && d[p + 1] == 0x52 && d[p + 2] == 0x55 && d[p + 3] == 0x50;
    proof {
        let w = d@.subrange(p as int, p + 4);
        if b {
            assert(w =~= seq![0x47u8, 0x52, 0x55, 0x50]);
        } else {
            if w == seq![0x47u8, 0x52, 0x55, 0x50] {
                assert(w[0] == d@[p as int] && w[1] == d@[p + 1] && w[2] == d@[p + 2] && w[3]
                    == d@[p + 3]);
            }
        }
    }
    b
}

/// Whether the four bytes at `p` are `XXXX`.
fn xxxx_at(d: &[u8], p: usize) -> (b: bool)
    requires
        p + 4 <= d@.len(),
    ensures
        b == is_xxxx_at(d@, p as int),
{
    let b = d[p] == 0x58 && d[p + 1] == 0x58 && d[p + 2] == 0x58 && d[p + 3] == 0x58;
    proof {
        let w = d@.subrange(p as int, p + 4);
        if b {
            assert(w =~= seq![0x58u8, 0x58, 0x58, 0x58]);
        } else {
            if w == seq![0x58u8, 0x58, 0x58, 0x58] {
                assert(w[0] == d@[p as int] && w[1] == d@[p + 1] && w[2] == d@[p + 2] && w[3]
                    == d@[p + 3]);
            }
        }
    }
    b
}

/// Parse the subrecords of a record body.
///
/// TES3 uses 8-byte subrecord headers (4-byte signature + u32 size); TES4+
/// uses 6-byte headers (4-byte signature + u16 size), with `XXXX` markers
/// giving the size of the next subrecord when it exceeds 65535 bytes.
/// Trailing bytes too short for a subrecord header are ignored.
fn parse_subrecords(f: DialectFamily, data: &[u8]) -> (r: Result<Vec<Subrecord>, DomError>)
    ensures
        match spec_subrecords(f, data@, 0, None) {
            Ok(m) => r matches Ok(v) && subrecords_match(v@, m),
            Err(e) => r == Err::<Vec<Subrecord>, DomError>(e),
        },
{
    let hs: usize = match f {
        DialectFamily::TES3 => 8,
        DialectFamily::TES4Plus => 6,
    };
    let mut subs: Vec<Subrecord> = Vec::new();
    let mut pos: usize = 0;
    let mut ext: Option<u32> = None;
    let ghost acc: Seq<SubModel> = seq![];
    while pos <= data.len() && hs <= data.len() - pos
        invariant
            hs == sub_hl(f),
            pos <= data@.len(),
            subrecords_match(subs@, acc),
            spec_subrecords(f, data@, 0, None) == match spec_subrecords(
                f,
                data@,
                pos as int,
                match ext {
                    Some(x) => Some(x as nat),
                    None => None,
                },
            ) {
                Ok(rest) => Ok(acc + rest),
                Err(e) => Err::<Seq<SubModel>, DomError>(e),
            },
        decreases data.len() - pos,
    {
        let ghost gext: Option<nat> = match ext {
            Some(x) => Some(x as nat),
            None => None,
        };
        let sig = sig_at(data, pos);
        let short: usize = match f {
            DialectFamily::TES3 => read_u32(data, pos + 4) as usize,
            DialectFamily::TES4Plus => read_u16(data, pos + 4) as usize,
        };
        let p2 = pos + hs;
        let is_x = match f {
            DialectFamily::TES3 => false,
            DialectFamily::TES4Plus => xxxx_at(data, pos),
        };
        if is_x {
            if short == 4 && data.len() - p2 >= 4 {
                let v = read_u32(data, p2);
                ext = Some(v);
                pos = p2 + 4;
                continue ;
            } else {
                return Err(DomError::InvalidExtendedSize);
            }
        }
        let size: usize = match ext {
            Some(x) => x as usize,
            None => short,
        };
        ext = None;
        if size > data.len() - p2 {
            return Err(DomError::SubrecordOverrun);
        }
        let raw = copy_range(data, p2, p2 + size);
        let mut sr = Subrecord::new(sig, raw);
        sr.source_offset = Some(pos as u64);
        let ghost item: SubModel = (
            sig_of(data@.subrange(pos as int, pos + 4)),
            data@.subrange(p2 as int, p2 + size),
            pos as int,
        );
        proof {
            assert(acc.push(item) + match spec_subrecords(f, data@, p2 + size, None) {
                Ok(rest) => rest,
                Err(_) => seq![],
            } =~= acc + (seq![item] + match spec_subrecords(f, data@, p2 + size, None) {
                Ok(rest) => rest,
                Err(_) => seq![],
            }));
        }
        subs.push(sr);
        proof {
            acc = acc.push(item);
        }
        pos = p2 + size;
    }
    if ext.is_some() {
        return Err(DomError::DanglingExtendedSize);
    }
    assert(acc + seq![] =~= acc);
    Ok(subs)
}


/// Decompress a compressed record payload (4-byte size prefix + zlib data,
/// falling back to raw deflate when the zlib stream does not decode).
fn decompress_record(data: &[u8]) -> (r: Result<Vec<u8>, DomError>)
    ensures
        match spec_decompress(data@) {
            Ok(b) => r matches Ok(v) && v@ == b,
            Err(e) => r == Err::<Vec<u8>, DomError>(e),
        },
{
    if data.len() < 4 {
        return Err(DomError::CompressedTooShort);
    }
    let compressed = vstd::slice::slice_subrange(data, 4, data.len());
    match zlib_inflate(compressed) {
        Some(v) => Ok(v),
        None => {
            let raw = if compressed.len() >= 2 && compressed[0] == 0x78 {
                vstd::slice::slice_subrange(compressed, 2, compressed.len())
            } else {
                compressed
            };
            match deflate_inflate(raw) {
                Some(v) => Ok(v),
                None => Err(DomError::DecompressionFailed),
            }
        },
    }
}

/// Decode a group type from its raw type field and label bytes.
fn parse_group_type(type_raw: u32, label: &[u8]) -> (r: Result<GroupType, DomError>)
    requires
        label@.len() == 4,
    ensures
        match spec_group_type(type_raw as int, label@) {
            Some(t) => r == Ok::<GroupType, DomError>(t),
            None => r == Err::<GroupType, DomError>(DomError::InvalidGroupType(type_raw)),
        },
{
    let w = read_u32(label, 0);
    let lo = read_u16(label, 0);
    let hi = read_u16(label, 2);
    if type_raw == 0 {
        let s = Signature([label[0], label[1], label[2], label[3]]);
        assert(s == sig_of(label@));
        Ok(GroupType::Top(s))
    } else if type_raw == 1 {
        Ok(GroupType::WorldChildren(w))
    } else if type_raw == 2 {
        Ok(GroupType::InteriorCellBlock(w as i32))
    } else if type_raw == 3 {
        Ok(GroupType::InteriorCellSubBlock(w as i32))
    } else if type_raw == 4 {
        Ok(GroupType::ExteriorCellBlock { y: lo as i16, x: hi as i16 })
    } else if type_raw == 5 {
        Ok(GroupType::ExteriorCellSubBlock { y: lo as i16, x: hi as i16 })
    } else if type_raw == 6 {
        Ok(GroupType::CellChildren(w))
    } else if type_raw == 7 {
        Ok(GroupType::TopicChildren(w))
    } else if type_raw == 8 {
        Ok(GroupType::CellPersistentChildren(w))
    } else if type_raw == 9 {
        Ok(GroupType::CellTemporaryChildren(w))
    } else if type_raw == 10 {
        Ok(GroupType::CellVisibleDistantChildren(w))
    } else {
        Err(DomError::InvalidGroupType(type_raw))
    }
}


/// Extending a prefix of group children by one more child.
proof fn lemma_children_prefix_push(
    g: GameId,
    s: Seq<GroupChild>,
    d: Seq<u8>,
    pos: int,
    cend: int,
    cur: int,
    c: GroupChild,
    e: int,
)
    requires
        children_prefix(g, s, d, pos, cend, cur),
        cur < cend,
        spec_child_end(g, d, cur) == Ok::<int, DomError>(e),
        cur < e <= d.len(),
        child_matches(g, c, d, cur, e),
    ensures
        children_prefix(g, s.push(c), d, pos, cend, e),
    decreases s.len(),
{
    if s.len() == 0 {
        assert(s.push(c).drop_first() =~= s);
        assert(s.push(c)[0] == c);
        assert(children_prefix(g, s.push(c).drop_first(), d, e, cend, e));
    } else {
        let e1 = spec_child_end(g, d, pos)->Ok_0;
        lemma_children_prefix_push(g, s.drop_first(), d, e1, cend, cur, c, e);
        assert(s.push(c).drop_first() =~= s.drop_first().push(c));
        assert(s.push(c)[0] == s[0]);
    }
}

/// A complete prefix (reaching the declared end) is the full child list.
proof fn lemma_children_prefix_done(
    g: GameId,
    s: Seq<GroupChild>,
    d: Seq<u8>,
    pos: int,
    cend: int,
    cur: int,
)
    requires
        children_prefix(g, s, d, pos, cend, cur),
        cur >= cend,
    ensures
        children_match(g, s, d, pos, cend, cur),
    decreases s.len(),
{
    if s.len() > 0 {
        let e1 = spec_child_end(g, d, pos)->Ok_0;
        lemma_children_prefix_done(g, s.drop_first(), d, e1, cend, cur);
    }
}

/// Reading the remaining children from a prefix's end gives the same
/// outcome as reading all children.
proof fn lemma_children_prefix_end(
    g: GameId,
    s: Seq<GroupChild>,
    d: Seq<u8>,
    pos: int,
    cend: int,
    cur: int,
)
    requires
        children_prefix(g, s, d, pos, cend, cur),
        0 <= pos <= d.len(),
    ensures
        spec_children_end(g, d, pos, cend) == spec_children_end(g, d, cur, cend),
    decreases s.len(),
{
    if s.len() > 0 {
        let e1 = spec_child_end(g, d, pos)->Ok_0;
        lemma_children_prefix_end(g, s.drop_first(), d, e1, cend, cur);
    }
}

/// A prefix of the top-level groups, read from `pos` up to `cur`.
pub open spec fn tops_prefix(g: GameId, s: Seq<Group>, d: Seq<u8>, pos: int, cur: int) -> bool
    decreases s.len(),
{
    if s.len() == 0 {
        pos == cur
    } else {
        &&& pos < d.len()
        &&& spec_group_end(g, d, pos) matches Ok(e)
        &&& pos < e <= d.len()
        &&& group_matches(g, s[0], d, pos, e)
        &&& tops_prefix(g, s.drop_first(), d, e, cur)
    }
}

/// A prefix of the TES3 top-level records, read from `pos` up to `cur`.
pub open spec fn recs_prefix(g: GameId, s: Seq<Record>, d: Seq<u8>, pos: int, cur: int) -> bool
    decreases s.len(),
{
    if s.len() == 0 {
        pos == cur
    } else {
        &&& pos < d.len()
        &&& spec_record_end(g, d, pos) matches Ok(e)
        &&& pos < e <= d.len()
        &&& record_matches(g, s[0], d, pos, e)
        &&& recs_prefix(g, s.drop_first(), d, e, cur)
    }
}

proof fn lemma_tops_prefix_push(g: GameId, s: Seq<Group>, d: Seq<u8>, pos: int, cur: int, x: Group, e: int)
    requires
        tops_prefix(g, s, d, pos, cur),
        cur < d.len(),
        spec_group_end(g, d, cur) == Ok::<int, DomError>(e),
        cur < e <= d.len(),
        group_matches(g, x, d, cur, e),
    ensures
        tops_prefix(g, s.push(x), d, pos, e),
    decreases s.len(),
{
    if s.len() == 0 {
        assert(s.push(x).drop_first() =~= s);
        assert(s.push(x)[0] == x);
        assert(tops_prefix(g, s.push(x).drop_first(), d, e, e));
    } else {
        let e1 = spec_group_end(g, d, pos)->Ok_0;
        lemma_tops_prefix_push(g, s.drop_first(), d, e1, cur, x, e);
        assert(s.push(x).drop_first() =~= s.drop_first().push(x));
        assert(s.push(x)[0] == s[0]);
    }
}

proof fn lemma_tops_prefix_done(g: GameId, s: Seq<Group>, d: Seq<u8>, pos: int, cur: int)
    requires
        tops_prefix(g, s, d, pos, cur),
        cur >= d.len(),
    ensures
        tops_match(g, s, d, pos),
    decreases s.len(),
{
    if s.len() > 0 {
        let e1 = spec_group_end(g, d, pos)->Ok_0;
        lemma_tops_prefix_done(g, s.drop_first(), d, e1, cur);
    }
}

proof fn lemma_recs_prefix_push(g: GameId, s: Seq<Record>, d: Seq<u8>, pos: int, cur: int, x: Record, e: int)
    requires
        recs_prefix(g, s, d, pos, cur),
        cur < d.len(),
        spec_record_end(g, d, cur) == Ok::<int, DomError>(e),
        cur < e <= d.len(),
        record_matches(g, x, d, cur, e),
    ensures
        recs_prefix(g, s.push(x), d, pos, e),
    decreases s.len(),
{
    if s.len() == 0 {
        assert(s.push(x).drop_first() =~= s);
        assert(s.push(x)[0] == x);
        assert(recs_prefix(g, s.push(x).drop_first(), d, e, e));
    } else {
        let e1 = spec_record_end(g, d, pos)->Ok_0;
        lemma_recs_prefix_push(g, s.drop_first(), d, e1, cur, x, e);
        assert(s.push(x).drop_first() =~= s.drop_first().push(x));
        assert(s.push(x)[0] == s[0]);
    }
}

proof fn lemma_recs_prefix_done(g: GameId, s: Seq<Record>, d: Seq<u8>, pos: int, cur: int)
    requires
        recs_prefix(g, s, d, pos, cur),
        cur >= d.len(),
    ensures
        recs_match(g, s, d, pos),
    decreases s.len(),
{
    if s.len() > 0 {
        let e1 = spec_record_end(g, d, pos)->Ok_0;
        lemma_recs_prefix_done(g, s.drop_first(), d, e1, cur);
    }
}

/// Appending one subrecord to the header extends the master list by its
/// name when it is a UTF-8 MAST subrecord.
proof fn lemma_masters_push(s: Seq<Subrecord>, x: Subrecord)
    ensures
        spec_masters(s.push(x)) == spec_masters(s) + if x.signature == mast_sig()
            && vstd::utf8::valid_utf8(nul_prefix(x.raw_data@)) {
            seq![vstd::utf8::decode_utf8(nul_prefix(x.raw_data@))]
        } else {
            seq![]
        },
    decreases s.len(),
{
    if s.len() == 0 {
        assert(s.push(x).drop_first() =~= s);
        assert(s.push(x)[0] == x);
    } else {
        lemma_masters_push(s.drop_first(), x);
        assert(s.push(x).drop_first() =~= s.drop_first().push(x));
        assert(s.push(x)[0] == s[0]);
    }
    let tail = if x.signature == mast_sig() && vstd::utf8::valid_utf8(nul_prefix(x.raw_data@)) {
        seq![vstd::utf8::decode_utf8(nul_prefix(x.raw_data@))]
    } else {
        seq![]
    };
    assert(spec_masters(s.push(x)) =~= spec_masters(s) + tail);
}

/// The master file names listed in a file header record.
fn extract_masters(header: &Record) -> (v: Vec<String>)
    ensures
        v@.map_values(|s: String| s@) == spec_masters(header.subrecords@),
{
    let mast = Signature([0x4D, 0x41, 0x53, 0x54]);
    let mut v: Vec<String> = Vec::new();
    let mut i: usize = 0;
    while i < header.subrecords.len()
        invariant
            i <= header.subrecords@.len(),
            mast == mast_sig(),
            v@.map_values(|s: String| s@) == spec_masters(header.subrecords@.take(i as int)),
        decreases header.subrecords.len() - i,
    {
        let sr = &header.subrecords[i];
        proof {
            lemma_masters_push(header.subrecords@.take(i as int), *sr);
            assert(header.subrecords@.take(i + 1) =~= header.subrecords@.take(i as int).push(
                *sr,
            ));
        }
        if sr.signature == mast {
            let n = find_nul(sr.raw_data.as_slice());
            let prefix = vstd::slice::slice_subrange(sr.raw_data.as_slice(), 0, n);
            match str_from_utf8(prefix) {
                Some(name) => {
                    let ghost prev = v@;
                    v.push(name.to_owned());
                    assert(v@.map_values(|s: String| s@) =~= prev.map_values(|s: String| s@).push(
                        name@,
                    ));
                },
                None => {},
            }
        }
        i = i + 1;
    }
    assert(header.subrecords@.take(i as int) =~= header.subrecords@);
    v
}

impl PluginReader {
    /// The game this reader parses plugins for.
    pub closed spec fn game(&self) -> GameId {
        self.game_id
    }

    /// Create a reader for a game.
    pub fn new(game_id: GameId) -> (r: PluginReader)
        ensures
            r.game() == game_id,
    {
        PluginReader { game_id }
    }

    /// Read the record starting at `pos`; returns it with its end position.
    fn read_record(&self, data: &[u8], pos: usize) -> (r: Result<(Record, usize), DomError>)
        requires
            pos <= data@.len(),
        ensures
            match spec_record_end(self.game_id, data@, pos as int) {
                Ok(e) => r matches Ok((rec, e2)) && e2 == e && pos < e && record_matches(
                    self.game_id,
                    rec,
                    data@,
                    pos as int,
                    e,
                ),
                Err(x) => r == Err::<(Record, usize), DomError>(x),
            },
    {
        let g = self.game_id;
        let hl = record_header_len(g);
        if data.len() - pos < hl {
            return Err(DomError::UnexpectedEof);
        }
        let header_bytes = copy_range(data, pos, pos + hl);
        let sig = sig_at(data, pos);
        let data_size = read_u32(data, pos + 4);
        let flags = RecordFlags(read_u32(data, pos + 8));
        let form_id = FormId::new(read_u32(data, pos + 12));
        let vc_info = if hl >= 20 {
            read_u32(data, pos + 16)
        } else {
            0
        };
        let version = if hl >= 24 {
            read_u16(data, pos + 20)
        } else {
            0
        };
        let unknown = if hl >= 24 {
            read_u16(data, pos + 22)
        } else {
            0
        };
        let p2 = pos + hl;
        if data_size as u64 > (data.len() - p2) as u64 {
            return Err(DomError::UnexpectedEof);
        }
        let end = p2 + data_size as usize;
        let raw_data = copy_range(data, p2, end);
        let family = g.dialect_family();
        assert(flags.0 & 0x0004_0000 != 0 <==> flags_compressed(le32(data@, pos + 8)));
        if flags.is_compressed() {
            let body = match decompress_record(raw_data.as_slice()) {
                Ok(b) => b,
                Err(e) => return Err(e),
            };
            let subs = match parse_subrecords(family, body.as_slice()) {
                Ok(v) => v,
                Err(e) => return Err(e),
            };
            Ok(
                (
                    Record {
                        signature: sig,
                        flags,
                        form_id,
                        vc_info,
                        version,
                        unknown,
                        subrecords: subs,
                        raw_header: Some(header_bytes),
                        raw_compressed_data: Some(raw_data),
                        raw_data: None,
                        source_offset: Some(pos as u64),
                        modified: false,
                    },
                    end,
                ),
            )
        } else {
            let subs = match parse_subrecords(family, raw_data.as_slice()) {
                Ok(v) => v,
                Err(e) => return Err(e),
            };
            Ok(
                (
                    Record {
                        signature: sig,
                        flags,
                        form_id,
                        vc_info,
                        version,
                        unknown,
                        subrecords: subs,
                        raw_header: Some(header_bytes),
                        raw_compressed_data: None,
                        raw_data: Some(raw_data),
                        source_offset: Some(pos as u64),
                        modified: false,
                    },
                    end,
                ),
            )
        }
    }

    /// Parse a plugin from its bytes.
    ///
    /// Succeeds exactly when `data` is a well-formed plugin of this reader's
    /// game; the result is the DOM that describes `data` exactly, keeping
    /// every header and payload byte for lossless writing.
    pub fn read_bytes(&self, data: &[u8], file_path: Option<String>) -> (r: Result<Plugin, DomError>)
        ensures
            match spec_read(self.game(), data@) {
                Ok(_) => r matches Ok(p) && plugin_matches(self.game(), p, data@) && p.file_path
                    == file_path,
                Err(e) => r == Err::<Plugin, DomError>(e),
            },
    {
        let g = self.game_id;
        let ghost d = data@;
        let (header, e0) = match self.read_record(data, 0) {
            Ok(x) => x,
            Err(e) => return Err(e),
        };
        let expected = g.header_signature();
        if !(data[0] == expected.0[0] && data[1] == expected.0[1] && data[2] == expected.0[2]
            && data[3] == expected.0[3]) {
            proof {
                if d.subrange(0, 4) == spec_header_sig(g) {
                    assert(d.subrange(0, 4)[0] == d[0] && d.subrange(0, 4)[1] == d[1]
                        && d.subrange(0, 4)[2] == d[2] && d.subrange(0, 4)[3] == d[3]);
                }
            }
            return Err(DomError::InvalidMagic([data[0], data[1], data[2], data[3]]));
        }
        assert(d.subrange(0, 4) =~= spec_header_sig(g));
        let masters = extract_masters(&header);
        match g.dialect_family() {
            DialectFamily::TES3 => {
                let records = match self.read_top_records(data, e0) {
                    Ok(v) => v,
                    Err(x) => return Err(x),
                };
                Ok(
                    Plugin {
                        game_id: g,
                        file_path,
                        header,
                        groups: Vec::new(),
                        tes3_records: records,
                        masters,
                        description: None,
                        author: None,
                        modified: false,
                    },
                )
            },
            DialectFamily::TES4Plus => {
                let groups = match self.read_top_groups(data, e0) {
                    Ok(v) => v,
                    Err(x) => return Err(x),
                };
                Ok(
                    Plugin {
                        game_id: g,
                        file_path,
                        header,
                        groups,
                        tes3_records: Vec::new(),
                        masters,
                        description: None,
                        author: None,
                        modified: false,
                    },
                )
            },
        }
    }

    /// Read the TES3 records after the file header, to the end of the data.
    fn read_top_records(&self, data: &[u8], e0: usize) -> (r: Result<Vec<Record>, DomError>)
        requires
            e0 <= data@.len(),
            spec_family(self.game_id) == DialectFamily::TES3,
        ensures
            match spec_top_ok(self.game_id, data@, e0 as int) {
                Ok(_) => r matches Ok(v) && recs_match(self.game_id, v@, data@, e0 as int),
                Err(e) => r == Err::<Vec<Record>, DomError>(e),
            },
    {
        let g = self.game_id;
        let ghost d = data@;
        let mut records: Vec<Record> = Vec::new();
        let mut cur = e0;
        while cur < data.len()
            invariant
                g == self.game_id,
                d == data@,
                e0 <= cur <= d.len(),
                spec_family(g) == DialectFamily::TES3,
                recs_prefix(g, records@, d, e0 as int, cur as int),
                spec_top_ok(g, d, e0 as int) == spec_top_ok(g, d, cur as int),
            decreases d.len() - cur,
        {
            match self.read_record(data, cur) {
                Ok((rec, e)) => {
                    proof {
                        lemma_recs_prefix_push(g, records@, d, e0 as int, cur as int, rec, e as int);
                        assert(spec_top_ok(g, d, cur as int) == spec_top_ok(g, d, e as int));
                    }
                    records.push(rec);
                    cur = e;
                },
                Err(x) => {
                    assert(spec_top_ok(g, d, cur as int) == Err::<(), DomError>(x));
                    return Err(x);
                },
            }
        }
        proof {
            lemma_recs_prefix_done(g, records@, d, e0 as int, cur as int);
        }
        Ok(records)
    }

    /// Read the TES4+ top-level groups after the file header, to the end.
    fn read_top_groups(&self, data: &[u8], e0: usize) -> (r: Result<Vec<Group>, DomError>)
        requires
            e0 <= data@.len(),
            spec_family(self.game_id) == DialectFamily::TES4Plus,
        ensures
            match spec_top_ok(self.game_id, data@, e0 as int) {
                Ok(_) => r matches Ok(v) && tops_match(self.game_id, v@, data@, e0 as int),
                Err(e) => r == Err::<Vec<Group>, DomError>(e),
            },
    {
        let g = self.game_id;
        let ghost d = data@;
        let mut groups: Vec<Group> = Vec::new();
        let mut cur = e0;
        while cur < data.len()
            invariant
                g == self.game_id,
                d == data@,
                e0 <= cur <= d.len(),
                spec_family(g) == DialectFamily::TES4Plus,
                tops_prefix(g, groups@, d, e0 as int, cur as int),
                spec_top_ok(g, d, e0 as int) == spec_top_ok(g, d, cur as int),
            decreases d.len() - cur,
        {
            match self.read_group(data, cur) {
                Ok((grp, e)) => {
                    proof {
                        lemma_tops_prefix_push(g, groups@, d, e0 as int, cur as int, grp, e as int);
                        assert(spec_top_ok(g, d, cur as int) == spec_top_ok(g, d, e as int));
                    }
                    groups.push(grp);
                    cur = e;
                },
                Err(x) => {
                    assert(spec_top_ok(g, d, cur as int) == Err::<(), DomError>(x));
                    return Err(x);
                },
            }
        }
        proof {
            lemma_tops_prefix_done(g, groups@, d, e0 as int, cur as int);
        }
        Ok(groups)
    }

    /// Read the group starting at `pos`; returns it with its end position.
    fn read_group(&self, data: &[u8], pos: usize) -> (r: Result<(Group, usize), DomError>)
        requires
            pos <= data@.len(),
        ensures
            match spec_group_end(self.game_id, data@, pos as int) {
                Ok(e) => r matches Ok((grp, e2)) && e2 == e && pos < e <= data@.len()
                    && group_matches(self.game_id, grp, data@, pos as int, e),
                Err(x) => r == Err::<(Group, usize), DomError>(x),
            },
        decreases data@.len() - pos,
    {
        let g = self.game_id;
        let hl = group_header_len(g);
        if data.len() - pos < hl {
            return Err(DomError::UnexpectedEof);
        }
        let header_bytes = copy_range(data, pos, pos + hl);
        if !grup_at(data, pos) {
            return Err(DomError::InvalidSignature);
        }
        let group_size = read_u32(data, pos + 4);
        let label = vstd::slice::slice_subrange(data, pos + 8, pos + 12);
        let group_type_raw = read_u32(data, pos + 12);
        let stamp = read_u32(data, pos + 16);
        let unknown = if hl >= 24 {
            read_u32(data, pos + 20)
        } else {
            0
        };
        let group_type = match parse_group_type(group_type_raw, label) {
            Ok(t) => t,
            Err(e) => return Err(e),
        };
        let ghost d = data@;
        let ghost cend: int = pos + le32(d, pos + 4);
        let ghost start: int = pos + hl;
        let mut children: Vec<GroupChild> = Vec::new();
        let mut cur: usize = pos + hl;
        assert(spec_group_end(g, d, pos as int) == spec_children_end(g, d, start, cend));
        while ((cur - pos) as u64) < (group_size as u64)
            invariant
                g == self.game_id,
                d == data@,
                pos + hl <= cur <= d.len(),
                start == pos + hl,
                cend == pos + group_size,
                hl == grp_hl(g),
                children_prefix(g, children@, d, start, cend, cur as int),
                spec_group_end(g, d, pos as int) == spec_children_end(g, d, start, cend),
                spec_children_end(g, d, start, cend) == spec_children_end(g, d, cur as int, cend),
            decreases d.len() - cur,
        {
            if data.len() - cur < 4 {
                assert(spec_child_end(g, d, cur as int) == Err::<int, DomError>(
                    DomError::UnexpectedEof,
                ));
                assert(spec_children_end(g, d, cur as int, cend) == Err::<int, DomError>(
                    DomError::UnexpectedEof,
                ));
                return Err(DomError::UnexpectedEof);
            }
            if grup_at(data, cur) {
                match self.read_group(data, cur) {
                    Ok((child, e)) => {
                        proof {
                            lemma_children_prefix_push(
                                g,
                                children@,
                                d,
                                start,
                                cend,
                                cur as int,
                                GroupChild::Group(child),
                                e as int,
                            );
                        }
                        children.push(GroupChild::Group(child));
                        cur = e;
                    },
                    Err(x) => return Err(x),
                }
            } else {
                match self.read_record(data, cur) {
                    Ok((child, e)) => {
                        proof {
                            lemma_children_prefix_push(
                                g,
                                children@,
                                d,
                                start,
                                cend,
                                cur as int,
                                GroupChild::Record(child),
                                e as int,
                            );
                        }
                        children.push(GroupChild::Record(child));
                        cur = e;
                    },
                    Err(x) => return Err(x),
                }
            }
        }
        proof {
            lemma_children_prefix_done(g, children@, d, start, cend, cur as int);
        }
        Ok(
            (
                Group {
                    group_type,
                    stamp,
                    unknown,
                    children,
                    raw_header: Some(header_bytes),
                    source_offset: Some(pos as u64),
                },
                cur,
            ),
        )
    }
}

} // verus!
