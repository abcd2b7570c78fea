//! What the C interface reports: records looked up by indices, group
//! names, plugin cache file names, and packed binary answers (the
//! subrecords of a record in one buffer; the records that reference a
//! record, with their metadata). Where a caller hands in the capacity of
//! its buffer, these functions decide what goes into it and what is
//! returned.

use vstd::prelude::*;

use crate::conflicts::ConflictSeverity;
use crate::bytes::{append_bytes, push_u16, push_u32, u16_bytes, u32_bytes};
use crate::group::{group_records, Group, GroupType};
use crate::plugin::{collect_records_from_group, Plugin};
use crate::record::{spec_editor_id, Record};
use crate::refby::RefEntry;
use crate::signature::display_char;
use crate::subrecord::Subrecord;
use crate::paths::{file_name, file_name_of};
use crate::text::{
    chars_of, decimal, hex_digits, idecimal, owned_string, push_decimal, push_hex, push_idecimal, push_str,
    spec_to_lowercase, str_to_lowercase, string_from_chars,
};

verus! {

/// Status code: a handle, index or buffer is missing or invalid.
pub const XEDIT_ERR_NULL_HANDLE: i32 = -1;

/// Status code: a text cannot be passed as a C string.
pub const XEDIT_ERR_INVALID_PATH: i32 = -2;

/// Status code: the data cannot be delivered.
pub const XEDIT_ERR_LOAD_FAILED: i32 = -3;

// ---------------------------------------------------------------------------
// Looking a record up by indices
// ---------------------------------------------------------------------------
/// The record at (`plugin_idx`, `group_idx`, `record_idx`): the plugin of
/// that index, its top-level group of that index, and the record of that
/// index among the group's records, depth-first.
pub open spec fn spec_record_at(ps: Seq<Plugin>, plugin_idx: int, group_idx: int, record_idx: int) -> Option<
    Record,
> {
    if 0 <= plugin_idx < ps.len() && 0 <= group_idx < ps[plugin_idx].groups@.len() {
        let recs = group_records(ps[plugin_idx].groups@[group_idx]);
        if 0 <= record_idx < recs.len() {
            Some(recs[record_idx])
        } else {
            None
        }
    } else {
        None
    }
}

/// The records of a group, depth-first (see [`group_records`]).
fn records_of(group: &Group) -> (v: Vec<&Record>)
    ensures
        v@.map_values(|r: &Record| *r) == group_records(*group),
{
    let mut v: Vec<&Record> = Vec::new();
    assert(v@.map_values(|r: &Record| *r) =~= Seq::<Record>::empty());
    collect_records_from_group(group, &mut v);
    assert(v@.map_values(|r: &Record| *r) =~= group_records(*group));
    v
}

/// The record at the given indices (see [`spec_record_at`]); `None` when
/// an index is out of range.
pub fn record_at(plugins: &[Plugin], plugin_idx: i32, group_idx: i32, record_idx: i32) -> (r: Option<
    &Record,
>)
    ensures
        match r {
            Some(rec) => spec_record_at(plugins@, plugin_idx as int, group_idx as int, record_idx as int)
                == Some(*rec),
            None => spec_record_at(plugins@, plugin_idx as int, group_idx as int, record_idx as int)
                is None,
        },
{
    if plugin_idx < 0 || plugin_idx as usize >= plugins.len() {
        return None;
    }
    let p = &plugins[plugin_idx as usize];
    if group_idx < 0 || group_idx as usize >= p.groups.len() {
        return None;
    }
    let recs = records_of(&p.groups[group_idx as usize]);
    if record_idx < 0 || record_idx as usize >= recs.len() {
        return None;
    }
    assert(recs@.map_values(|r: &Record| *r)[record_idx as int] == *recs@[record_idx as int]);
    Some(recs[record_idx as usize])
}

// ---------------------------------------------------------------------------
// The subrecords of a record in one buffer
// ---------------------------------------------------------------------------
/// A signature byte as the interface reports it: printable ASCII (space to
/// `~`) as is, any other byte as `?`.
pub open spec fn display_byte(b: u8) -> u8 {
    if 0x20 <= b <= 0x7E {
        b
    } else {
        0x3F
    }
}

/// The entry of a subrecord: its signature (see [`display_byte`]), its data
/// size (4 bytes, little-endian), then its data.
pub open spec fn sub_entry(s: Subrecord) -> Seq<u8> {
    s.signature.0@.map_values(|b: u8| display_byte(b)) + u32_bytes(s.raw_data@.len() as u32)
        + s.raw_data@
}

/// The entries of the subrecords `s`, in order.
pub open spec fn sub_entries(s: Seq<Subrecord>) -> Seq<u8>
    decreases s.len(),
{
    if s.len() == 0 {
        seq![]
    } else {
        sub_entries(s.drop_last()) + sub_entry(s.last())
    }
}

/// The size of the buffer holding the subrecords `s`: 4 bytes of count,
/// then 8 bytes and the data per subrecord.
pub open spec fn batch_len(s: Seq<Subrecord>) -> int
    decreases s.len(),
{
    if s.len() == 0 {
        4
    } else {
        batch_len(s.drop_last()) + 8 + s.last().raw_data@.len()
    }
}

/// The entries fill the buffer after the count.
proof fn lemma_batch_len(s: Seq<Subrecord>)
    ensures
        sub_entries(s).len() + 4 == batch_len(s),
        batch_len(s) >= 4 + 8 * s.len(),
    decreases s.len(),
{
    if s.len() > 0 {
        lemma_batch_len(s.drop_last());
    }
}

/// A longer list needs at least as large a buffer.
proof fn lemma_batch_len_mono(s: Seq<Subrecord>, i: int)
    requires
        0 <= i <= s.len(),
    ensures
        batch_len(s.take(i)) <= batch_len(s),
    decreases s.len() - i,
{
    if i < s.len() {
        lemma_batch_len_mono(s, i + 1);
        assert(s.take(i + 1).drop_last() =~= s.take(i));
    }
    assert(s.take(s.len() as int) =~= s);
}

/// The buffer holding all subrecords of a record: the subrecord count (4
/// bytes, little-endian), then each subrecord's entry (see [`sub_entry`]).
/// With a capacity `buf_len` that is not positive, the answer is
/// [`XEDIT_ERR_NULL_HANDLE`]; when the buffer would exceed `i32::MAX` bytes,
/// [`XEDIT_ERR_LOAD_FAILED`]; when it exceeds the capacity, its size,
/// negated; otherwise the bytes, whose length is the size.
pub fn subrecords_batch(subs: &[Subrecord], buf_len: i32) -> (r: Result<Vec<u8>, i32>)
    ensures
        buf_len <= 0 ==> r == Err::<Vec<u8>, i32>(XEDIT_ERR_NULL_HANDLE),
        buf_len > 0 && batch_len(subs@) > i32::MAX ==> r == Err::<Vec<u8>, i32>(
            XEDIT_ERR_LOAD_FAILED,
        ),
        buf_len > 0 && batch_len(subs@) <= i32::MAX && buf_len < batch_len(subs@) ==> r == Err::<
            Vec<u8>,
            i32,
        >((-batch_len(subs@)) as i32),
        buf_len > 0 && batch_len(subs@) <= buf_len ==> (r matches Ok(b) && b@ == u32_bytes(
            subs@.len() as u32,
        ) + sub_entries(subs@) && b@.len() == batch_len(subs@)),
{
    if buf_len <= 0 {
        return Err(XEDIT_ERR_NULL_HANDLE);
    }
    let ghost s = subs@;
    let mut needed: u64 = 4;
    let mut i: usize = 0;
    assert(s.take(0) =~= Seq::<Subrecord>::empty());
    while i < subs.len()
        invariant
            s == subs@,
            i <= s.len(),
            needed == batch_len(s.take(i as int)),
            needed <= 0x7fff_ffff,
            buf_len > 0,
        decreases subs.len() - i,
    {
        proof {
            assert(s.take(i + 1).drop_last() =~= s.take(i as int));
            assert(s.take(i + 1).last() == s[i as int]);
        }
        let n = subs[i].raw_data.len();
        if n as u64 > 0x7fff_ffff - needed || 8 > 0x7fff_ffff - needed - n as u64 {
            proof {
                lemma_batch_len_mono(s, i + 1);
            }
            return Err(XEDIT_ERR_LOAD_FAILED);
        }
        needed = needed + 8 + n as u64;
        i = i + 1;
    }
    assert(s.take(i as int) =~= s);
    let needed32 = needed as i32;
    if buf_len < needed32 {
        return Err(-needed32);
    }
    proof {
        lemma_batch_len(s);
    }
    let mut buf: Vec<u8> = Vec::new();
    push_u32(&mut buf, #[verifier::truncate] (subs.len() as u32));
    let ghost head = buf@;
    let mut k: usize = 0;
    assert(s.take(0) =~= Seq::<Subrecord>::empty());
    while k < subs.len()
        invariant
            s == subs@,
            k <= s.len(),
            head == u32_bytes(s.len() as u32),
            buf@ == head + sub_entries(s.take(k as int)),
        decreases subs.len() - k,
    {
        let sub = &subs[k];
        let ghost before = buf@;
        let mut j: usize = 0;
        while j < 4
            invariant
                j <= 4,
                buf@ == before + sub.signature.0@.map_values(|b: u8| display_byte(b)).take(j as int),
            decreases 4 - j,
        {
            let b = sub.signature.0[j];
            buf.push(if b >= 0x20 && b <= 0x7E {
                b
            } else {
                0x3F
            });
            assert(sub.signature.0@.map_values(|b: u8| display_byte(b)).take(j + 1) =~= sub.signature.0@.map_values(
                |b: u8| display_byte(b),
            ).take(j as int).push(display_byte(sub.signature.0@[j as int])));
            j = j + 1;
        }
        assert(sub.signature.0@.map_values(|b: u8| display_byte(b)).take(4) =~= sub.signature.0@.map_values(
            |b: u8| display_byte(b),
        ));
        push_u32(&mut buf, #[verifier::truncate] (sub.raw_data.len() as u32));
        append_bytes(&mut buf, sub.raw_data.as_slice());
        proof {
            assert(s.take(k + 1).drop_last() =~= s.take(k as int));
            assert(s.take(k + 1).last() == *sub);
            assert(buf@ =~= before + sub_entry(*sub));
        }
        k = k + 1;
    }
    assert(s.take(k as int) =~= s);
    Ok(buf)
}

// ---------------------------------------------------------------------------
// The records that reference a record
// ---------------------------------------------------------------------------
/// A record that references another, as the interface reports it.
#[derive(Debug, Clone)]
pub struct RefByRow {
    pub plugin_idx: i32,
    pub group_idx: i32,
    pub record_idx: i32,
    /// FormID of the referencing record (0 when its indices name none).
    pub form_id: u32,
    /// Its signature, printable (empty when its indices name none).
    pub signature: String,
    /// Its Editor ID (empty when it has none).
    pub editor_id: String,
    /// File name of its plugin (`(unknown)` when the plugin's path has none).
    pub filename: String,
}

/// The name the interface reports for a plugin: the file name of its path,
/// or `(unknown)`.
pub open spec fn plugin_display_name(p: Plugin) -> Seq<char> {
    match p.file_path {
        Some(s) => match file_name_of(s@) {
            Some(n) => n,
            None => "(unknown)"@,
        },
        None => "(unknown)"@,
    }
}

/// The index entries whose plugin index names a plugin (of `n`), in order.
pub open spec fn kept_entries(n: int, es: Seq<RefEntry>) -> Seq<RefEntry>
    decreases es.len(),
{
    if es.len() == 0 {
        seq![]
    } else {
        let prev = kept_entries(n, es.drop_last());
        if 0 <= es.last().1 < n {
            prev.push(es.last())
        } else {
            prev
        }
    }
}

/// `row` reports the referencing record of the index entry `e`.
pub open spec fn row_matches(row: RefByRow, ps: Seq<Plugin>, e: RefEntry) -> bool {
    &&& row.plugin_idx == e.1
    &&& row.group_idx == e.2
    &&& row.record_idx == e.3
    &&& row.filename@ == plugin_display_name(ps[e.1 as int])
    &&& match spec_record_at(ps, e.1 as int, e.2 as int, e.3 as int) {
        Some(r) => {
            &&& row.form_id == r.form_id.0
            &&& row.signature@ == r.signature.0@.map_values(|b: u8| display_char(b))
            &&& row.editor_id@ == match spec_editor_id(r.subrecords@) {
                Some(x) => x,
                None => seq![],
            }
        },
        None => row.form_id == 0 && row.signature@.len() == 0 && row.editor_id@.len() == 0,
    }
}

/// `rows` report, in order, the entries of `es` whose plugin exists.
pub open spec fn rows_match(rows: Seq<RefByRow>, ps: Seq<Plugin>, es: Seq<RefEntry>) -> bool {
    let k = kept_entries(ps.len() as int, es);
    &&& rows.len() == k.len()
    &&& forall|i: int| 0 <= i < rows.len() ==> row_matches(#[trigger] rows[i], ps, k[i])
}

/// The name the interface reports for a plugin (see [`plugin_display_name`]).
fn display_name(p: &Plugin) -> (s: String)
    ensures
        s@ == plugin_display_name(*p),
{
    match &p.file_path {
        Some(path) => match file_name(chars_of(path.as_str()).as_slice()) {
            Some(v) => string_from_chars(v.as_slice()),
            None => owned_string("(unknown)"),
        },
        None => owned_string("(unknown)"),
    }
}

/// The rows reporting the index entries `entries` (as [`build_refby_index`]
/// makes them) against the plugins they were built from: an entry whose
/// plugin index names no plugin is left out (see [`rows_match`]).
///
/// [`build_refby_index`]: crate::refby::build_refby_index
pub fn refby_rows(plugins: &[Plugin], entries: &[RefEntry]) -> (rows: Vec<RefByRow>)
    ensures
        rows_match(rows@, plugins@, entries@),
{
    let ghost n = plugins@.len() as int;
    let mut rows: Vec<RefByRow> = Vec::new();
    let mut i: usize = 0;
    while i < entries.len()
        invariant
            i <= entries@.len(),
            n == plugins@.len(),
            rows_match(rows@, plugins@, entries@.take(i as int)),
        decreases entries.len() - i,
    {
        let e = entries[i];
        let ghost k = kept_entries(n, entries@.take(i as int));
        assert(entries@.take(i + 1).drop_last() =~= entries@.take(i as int));
        assert(entries@.take(i + 1).last() == e);
        if e.1 >= 0 && (e.1 as usize) < plugins.len() {
            let p = &plugins[e.1 as usize];
            let filename = display_name(p);
            let row = match record_at(plugins, e.1, e.2, e.3) {
                Some(rec) => {
                    let sig = rec.signature.as_str();
                    assert(sig@ =~= rec.signature.0@.map_values(|b: u8| display_char(b)));
                    let editor_id = match rec.editor_id() {
                        Some(x) => owned_string(x),
                        None => String::new(),
                    };
                    RefByRow {
                        plugin_idx: e.1,
                        group_idx: e.2,
                        record_idx: e.3,
                        form_id: rec.form_id.0,
                        signature: sig,
                        editor_id,
                        filename,
                    }
                },
                None => RefByRow {
                    plugin_idx: e.1,
                    group_idx: e.2,
                    record_idx: e.3,
                    form_id: 0,
                    signature: String::new(),
                    editor_id: String::new(),
                    filename,
                },
            };
            rows.push(row);
            assert(kept_entries(n, entries@.take(i + 1)) =~= k.push(e));
        } else {
            assert(kept_entries(n, entries@.take(i + 1)) =~= k);
        }
        i = i + 1;
    }
    assert(entries@.take(i as int) =~= entries@);
    rows
}

/// A text field of a row: its UTF-8 length (2 bytes, little-endian,
/// truncated to 16 bits), then its UTF-8 bytes.
pub open spec fn text_field(s: Seq<char>) -> Seq<u8> {
    let b = vstd::utf8::encode_utf8(s);
    u16_bytes(b.len() as u16) + b
}

/// The packed bytes of a row: plugin, group and record index (i32), FormID
/// (u32), all little-endian, then the signature, Editor ID and file name
/// (see [`text_field`]).
pub open spec fn row_bytes(r: RefByRow) -> Seq<u8> {
    u32_bytes(r.plugin_idx as u32) + u32_bytes(r.group_idx as u32) + u32_bytes(r.record_idx as u32)
        + u32_bytes(r.form_id) + text_field(r.signature@) + text_field(r.editor_id@) + text_field(
        r.filename@,
    )
}

/// The packed bytes of rows, in order.
pub open spec fn rows_bytes(rs: Seq<RefByRow>) -> Seq<u8>
    decreases rs.len(),
{
    if rs.len() == 0 {
        seq![]
    } else {
        rows_bytes(rs.drop_last()) + row_bytes(rs.last())
    }
}

/// Append a text field (see [`text_field`]).
fn push_text_field(buf: &mut Vec<u8>, s: &String)
    ensures
        final(buf)@ == old(buf)@ + text_field(s@),
{
    let b = s.as_str().as_bytes();
    push_u16(buf, #[verifier::truncate] (b.len() as u16));
    append_bytes(buf, b);
}

/// The packed rows that fit in a buffer of `buf_len` bytes: rows are
/// written whole, in order, up to the first that does not fit. With a
/// capacity that is not positive, the answer is [`XEDIT_ERR_NULL_HANDLE`];
/// otherwise the bytes and the number of rows written.
pub fn refby_batch(rows: &[RefByRow], buf_len: i32) -> (r: Result<(Vec<u8>, i32), i32>)
    ensures
        buf_len <= 0 ==> r == Err::<(Vec<u8>, i32), i32>(XEDIT_ERR_NULL_HANDLE),
        buf_len > 0 ==> (r matches Ok((b, n)) && 0 <= n <= rows@.len() && b@ == rows_bytes(
            rows@.take(n as int),
        ) && b@.len() <= buf_len && (n == rows@.len() || rows_bytes(rows@.take(n + 1)).len()
            > buf_len)),
{
    if buf_len <= 0 {
        return Err(XEDIT_ERR_NULL_HANDLE);
    }
    let cap = buf_len as usize;
    let mut buf: Vec<u8> = Vec::new();
    let mut k: usize = 0;
    while k < rows.len()
        invariant_except_break
            k <= rows@.len(),
            cap == buf_len as usize,
            0 < buf_len,
            buf@ == rows_bytes(rows@.take(k as int)),
            buf@.len() <= cap,
            buf@.len() >= 22 * k,
        ensures
            k <= rows@.len(),
            buf@ == rows_bytes(rows@.take(k as int)),
            buf@.len() <= cap,
            buf@.len() >= 22 * k,
            k == rows@.len() || rows_bytes(rows@.take(k + 1)).len() > cap,
        decreases rows.len() - k,
    {
        let row = &rows[k];
        let sig = row.signature.as_str().as_bytes();
        let edid = row.editor_id.as_str().as_bytes();
        let fname = row.filename.as_str().as_bytes();
        let room = cap - buf.len();
        proof {
            assert(rows@.take(k + 1).drop_last() =~= rows@.take(k as int));
            assert(rows@.take(k + 1).last() == *row);
        }
        if room < 22 || sig.len() > room - 22 || edid.len() > room - 22 - sig.len() || fname.len()
            > room - 22 - sig.len() - edid.len() {
            break;
        }
        let ghost before = buf@;
        push_u32(&mut buf, #[verifier::truncate] (row.plugin_idx as u32));
        push_u32(&mut buf, #[verifier::truncate] (row.group_idx as u32));
        push_u32(&mut buf, #[verifier::truncate] (row.record_idx as u32));
        push_u32(&mut buf, row.form_id);
        push_text_field(&mut buf, &row.signature);
        push_text_field(&mut buf, &row.editor_id);
        push_text_field(&mut buf, &row.filename);
        assert(buf@ =~= before + row_bytes(*row));
        k = k + 1;
    }
    let n = k as i32;
    Ok((buf, n))
}

// ---------------------------------------------------------------------------
// Names
// ---------------------------------------------------------------------------
/// The display name of a group type: a top-level group's signature (see
/// [`display_char`]), otherwise a description with its label.
pub open spec fn spec_group_type_name(gt: GroupType) -> Seq<char> {
    match gt {
        GroupType::Top(sig) => sig.0@.map_values(|b: u8| display_char(b)),
        GroupType::WorldChildren(id) => "World Children ["@ + decimal(id as nat) + "]"@,
        GroupType::InteriorCellBlock(n) => "Interior Cell Block "@ + idecimal(n as int),
        GroupType::InteriorCellSubBlock(n) => "Interior Cell Sub-Block "@ + idecimal(n as int),
        GroupType::ExteriorCellBlock { x, y } => "Exterior Cell Block ("@ + idecimal(x as int) + ", "@
            + idecimal(y as int) + ")"@,
        GroupType::ExteriorCellSubBlock { x, y } => "Exterior Cell Sub-Block ("@ + idecimal(x as int)
            + ", "@ + idecimal(y as int) + ")"@,
        GroupType::CellChildren(id) => "Cell Children ["@ + decimal(id as nat) + "]"@,
        GroupType::TopicChildren(id) => "Topic Children ["@ + decimal(id as nat) + "]"@,
        GroupType::CellPersistentChildren(id) => "Cell Persistent Children ["@ + decimal(id as nat)
            + "]"@,
        GroupType::CellTemporaryChildren(id) => "Cell Temporary Children ["@ + decimal(id as nat)
            + "]"@,
        GroupType::CellVisibleDistantChildren(id) => "Cell Visible Distant Children ["@ + decimal(
            id as nat,
        ) + "]"@,
    }
}

/// Append `prefix`, the decimal `id` and `]`.
fn push_labelled(v: &mut Vec<char>, prefix: &str, id: u32)
    ensures
        final(v)@ == old(v)@ + prefix@ + decimal(id as nat) + "]"@,
{
    push_str(v, prefix);
    push_decimal(v, id as u64);
    push_str(v, "]");
}

/// Append `prefix`, then `(x, y)`.
fn push_coords(v: &mut Vec<char>, prefix: &str, x: i16, y: i16)
    ensures
        final(v)@ == old(v)@ + prefix@ + idecimal(x as int) + ", "@ + idecimal(y as int) + ")"@,
{
    push_str(v, prefix);
    push_idecimal(v, x as i32);
    push_str(v, ", ");
    push_idecimal(v, y as i32);
    push_str(v, ")");
}

/// The display name of a group type (see [`spec_group_type_name`]).
pub fn group_type_name(gt: &GroupType) -> (s: String)
    ensures
        s@ == spec_group_type_name(*gt),
{
    let mut v: Vec<char> = Vec::new();
    match gt {
        GroupType::Top(sig) => {
            let s = sig.as_str();
            assert(s@ =~= spec_group_type_name(*gt));
            return s;
        },
        GroupType::WorldChildren(id) => push_labelled(&mut v, "World Children [", *id),
        GroupType::InteriorCellBlock(n) => {
            push_str(&mut v, "Interior Cell Block ");
            push_idecimal(&mut v, *n);
        },
        GroupType::InteriorCellSubBlock(n) => {
            push_str(&mut v, "Interior Cell Sub-Block ");
            push_idecimal(&mut v, *n);
        },
        GroupType::ExteriorCellBlock { x, y } => push_coords(&mut v, "Exterior Cell Block (", *x, *y),
        GroupType::ExteriorCellSubBlock { x, y } => push_coords(
            &mut v,
            "Exterior Cell Sub-Block (",
            *x,
            *y,
        ),
        GroupType::CellChildren(id) => push_labelled(&mut v, "Cell Children [", *id),
        GroupType::TopicChildren(id) => push_labelled(&mut v, "Topic Children [", *id),
        GroupType::CellPersistentChildren(id) => push_labelled(
            &mut v,
            "Cell Persistent Children [",
            *id,
        ),
        GroupType::CellTemporaryChildren(id) => push_labelled(
            &mut v,
            "Cell Temporary Children [",
            *id,
        ),
        GroupType::CellVisibleDistantChildren(id) => push_labelled(
            &mut v,
            "Cell Visible Distant Children [",
            *id,
        ),
    }
    assert(v@ =~= spec_group_type_name(*gt));
    string_from_chars(v.as_slice())
}

/// The signature the interface reports for a group type: a top-level
/// group's record signature (see [`display_char`]), otherwise `GRUP`.
pub fn group_type_signature(gt: &GroupType) -> (s: String)
    ensures
        s@ == match *gt {
            GroupType::Top(sig) => sig.0@.map_values(|b: u8| display_char(b)),
            _ => "GRUP"@,
        },
{
    match gt {
        GroupType::Top(sig) => {
            let s = sig.as_str();
            assert(s@ =~= sig.0@.map_values(|b: u8| display_char(b)));
            s
        },
        _ => owned_string("GRUP"),
    }
}

/// Whether a character is kept in a cache file name: an ASCII letter or
/// digit, `.`, `-` or `_`.
pub open spec fn db_name_char(c: char) -> bool {
    ('a' <= c && c <= 'z') || ('A' <= c && c <= 'Z') || ('0' <= c && c <= '9') || c == '.' || c == '-'
        || c == '_'
}

/// The cache file name of a plugin: its name with every character that is
/// not kept (see [`db_name_char`]) replaced by `_`.
pub open spec fn spec_sanitize_db_name(name: Seq<char>) -> Seq<char> {
    name.map_values(|c: char| if db_name_char(c) { c } else { '_' })
}

/// The cache file name of a plugin (see [`spec_sanitize_db_name`]).
pub fn sanitize_plugin_db_filename(name: &str) -> (s: String)
    ensures
        s@ == spec_sanitize_db_name(name@),
{
    let cs = chars_of(name);
    let mut out: Vec<char> = Vec::new();
    let mut i: usize = 0;
    while i < cs.len()
        invariant
            i <= cs@.len(),
            cs@ == name@,
            out@ == spec_sanitize_db_name(cs@.take(i as int)),
        decreases cs.len() - i,
    {
        let c = cs[i];
        let keep = (c >= 'a' && c <= 'z') || (c >= 'A' && c <= 'Z') || (c >= '0' && c <= '9') || c
            == '.' || c == '-' || c == '_';
        out.push(if keep {
            c
        } else {
            '_'
        });
        assert(spec_sanitize_db_name(cs@.take(i + 1)) =~= spec_sanitize_db_name(cs@.take(i as int)).push(
            if db_name_char(c) {
                c
            } else {
                '_'
            },
        ));
        i = i + 1;
    }
    assert(cs@.take(i as int) =~= cs@);
    string_from_chars(out.as_slice())
}

// ---------------------------------------------------------------------------
// Searching a plugin
// ---------------------------------------------------------------------------
/// The position of the first record of the groups `gs` with FormID `id`:
/// its group index and its index among the group's records, groups in
/// order and each group's records depth-first.
pub open spec fn is_first_with_form_id(gs: Seq<Group>, id: u32, g: int, i: int) -> bool {
    &&& 0 <= g < gs.len()
    &&& 0 <= i < group_records(gs[g]).len()
    &&& group_records(gs[g])[i].form_id.0 == id
    &&& forall|h: int, j: int|
        0 <= h < g && 0 <= j < group_records(gs[h]).len() ==> #[trigger] group_records(gs[h])[j].form_id.0
            != id
    &&& forall|j: int| 0 <= j < i ==> #[trigger] group_records(gs[g])[j].form_id.0 != id
}

/// Whether some record of the groups `gs` has FormID `id`.
pub open spec fn has_form_id(gs: Seq<Group>, id: u32) -> bool {
    exists|g: int, i: int|
        0 <= g < gs.len() && 0 <= i < group_records(gs[g]).len() && #[trigger] group_records(
            gs[g],
        )[i].form_id.0 == id
}

/// Find the first record of plugin `plugin_idx` with FormID `form_id` (see
/// [`is_first_with_form_id`]): its group and record index;
/// `Err(`[`XEDIT_ERR_NULL_HANDLE`]`)` when the plugin index names no plugin
/// or no record has the FormID.
pub fn search_form_id(plugins: &[Plugin], plugin_idx: i32, form_id: u32) -> (r: Result<
    (usize, usize),
    i32,
>)
    ensures
        !(0 <= plugin_idx < plugins@.len()) ==> r == Err::<(usize, usize), i32>(XEDIT_ERR_NULL_HANDLE),
        0 <= plugin_idx < plugins@.len() ==> match r {
            Ok((g, i)) => is_first_with_form_id(plugins@[plugin_idx as int].groups@, form_id, g as int, i as int),
            Err(e) => e == XEDIT_ERR_NULL_HANDLE && !has_form_id(plugins@[plugin_idx as int].groups@, form_id),
        },
{
    if plugin_idx < 0 || plugin_idx as usize >= plugins.len() {
        return Err(XEDIT_ERR_NULL_HANDLE);
    }
    let p = &plugins[plugin_idx as usize];
    let ghost gs = p.groups@;
    let mut gi: usize = 0;
    while gi < p.groups.len()
        invariant
            0 <= plugin_idx < plugins@.len(),
            *p == plugins@[plugin_idx as int],
            gs == p.groups@,
            gi <= gs.len(),
            forall|h: int, j: int|
                0 <= h < gi && 0 <= j < group_records(gs[h]).len() ==> #[trigger] group_records(
                    gs[h],
                )[j].form_id.0 != form_id,
        decreases p.groups.len() - gi,
    {
        let recs = records_of(&p.groups[gi]);
        let ghost rs = group_records(gs[gi as int]);
        let mut ri: usize = 0;
        while ri < recs.len()
            invariant
                0 <= plugin_idx < plugins@.len(),
                *p == plugins@[plugin_idx as int],
                gs == p.groups@,
                gi < gs.len(),
                forall|h: int, j: int|
                    0 <= h < gi && 0 <= j < group_records(gs[h]).len() ==> #[trigger] group_records(
                        gs[h],
                    )[j].form_id.0 != form_id,
                rs == group_records(gs[gi as int]),
                recs@.map_values(|r: &Record| *r) == rs,
                ri <= rs.len(),
                forall|j: int| 0 <= j < ri ==> #[trigger] rs[j].form_id.0 != form_id,
            decreases recs.len() - ri,
        {
            assert(recs@.map_values(|r: &Record| *r)[ri as int] == *recs@[ri as int]);
            if recs[ri].form_id.0 == form_id {
                return Ok((gi, ri));
            }
            ri = ri + 1;
        }
        proof {
            assert forall|h: int, j: int|
                0 <= h < gi + 1 && 0 <= j < group_records(gs[h]).len() implies #[trigger] group_records(
                gs[h],
            )[j].form_id.0 != form_id by {
                if h == gi {
                    assert(rs[j].form_id.0 != form_id);
                }
            }
        }
        gi = gi + 1;
    }
    Err(XEDIT_ERR_NULL_HANDLE)
}

/// Whether `s` holds `t` as a contiguous part.
pub open spec fn has_infix(s: Seq<char>, t: Seq<char>) -> bool {
    exists|i: int| 0 <= i && i + t.len() <= s.len() && #[trigger] s.subrange(i, i + t.len()) == t
}

/// Whether `s` holds `t` as a contiguous part (see [`has_infix`]).
pub fn chars_contain(s: &[char], t: &[char]) -> (b: bool)
    ensures
        b == has_infix(s@, t@),
{
    assert(s@.len() == s.len() && t@.len() == t.len());
    if t.len() > s.len() {
        return false;
    }
    if t.len() == 0 {
        assert(s@.subrange(0, 0 + t@.len() as int) =~= t@);
        return true;
    }
    let last = s.len() - t.len();
    let mut i: usize = 0;
    while i <= last
        invariant
            s@.len() == s.len(),
            t@.len() == t.len(),
            0 < t@.len() <= s@.len(),
            last == s@.len() - t@.len(),
            i <= last + 1,
            forall|k: int| 0 <= k < i ==> #[trigger] s@.subrange(k, k + t@.len()) != t@,
        decreases last + 1 - i,
    {
        let mut j: usize = 0;
        let mut same = true;
        while j < t.len()
            invariant
                s@.len() == s.len(),
                t@.len() == t.len(),
                i <= last,
                last == s@.len() - t@.len(),
                j <= t@.len(),
                same ==> forall|m: int| 0 <= m < j ==> s@[i + m] == t@[m],
                !same ==> s@.subrange(i as int, i + t@.len()) != t@,
            decreases t.len() - j,
        {
            if s[i + j] != t[j] {
                assert(s@.subrange(i as int, i + t@.len())[j as int] == s@[i + j]);
                same = false;
            }
            j = j + 1;
        }
        if same {
            assert(s@.subrange(i as int, i + t@.len()) =~= t@);
            return true;
        }
        i = i + 1;
    }
    proof {
        assert forall|k: int| 0 <= k && k + t@.len() <= s@.len() implies #[trigger] s@.subrange(
            k,
            k + t@.len(),
        ) != t@ by {}
    }
    false
}

/// Whether a record's Editor ID, lower-cased, holds `query_lower`; a record
/// without an Editor ID never matches.
pub open spec fn edid_matches(r: Record, query_lower: Seq<char>) -> bool {
    match spec_editor_id(r.subrecords@) {
        Some(e) => has_infix(spec_to_lowercase(e), query_lower),
        None => false,
    }
}

/// The positions (group `g`, record index) of the records `recs` of group
/// `g` that match, in order.
pub open spec fn record_hits(recs: Seq<Record>, g: int, q: Seq<char>) -> Seq<(int, int)>
    decreases recs.len(),
{
    if recs.len() == 0 {
        seq![]
    } else {
        let prev = record_hits(recs.drop_last(), g, q);
        if edid_matches(recs.last(), q) {
            prev.push((g, recs.len() - 1))
        } else {
            prev
        }
    }
}

/// The positions of the matching records of the groups `gs`, groups in
/// order and each group's records depth-first.
pub open spec fn group_hits(gs: Seq<Group>, q: Seq<char>) -> Seq<(int, int)>
    decreases gs.len(),
{
    if gs.len() == 0 {
        seq![]
    } else {
        group_hits(gs.drop_last(), q) + record_hits(group_records(gs.last()), gs.len() - 1, q)
    }
}

/// Positions as integers.
pub open spec fn positions(v: Seq<(usize, usize)>) -> Seq<(int, int)> {
    v.map_values(|p: (usize, usize)| (p.0 as int, p.1 as int))
}

/// The first `n` of `h`, or all of it when it is shorter.
pub open spec fn first_n(h: Seq<(int, int)>, n: int) -> Seq<(int, int)> {
    if h.len() <= n {
        h
    } else {
        h.take(n)
    }
}

/// Search plugin `plugin_idx` for records whose Editor ID, lower-cased,
/// holds the lower-cased `query`: the positions of the first `max_results`
/// of them, in order (see [`group_hits`]). A `max_results` that is not
/// positive, or a plugin index that names no plugin, gives
/// `Err(`[`XEDIT_ERR_NULL_HANDLE`]`)`.
pub fn search_editor_id(plugins: &[Plugin], plugin_idx: i32, query: &str, max_results: i32) -> (r:
    Result<Vec<(usize, usize)>, i32>)
    ensures
        max_results <= 0 || !(0 <= plugin_idx < plugins@.len()) ==> r == Err::<
            Vec<(usize, usize)>,
            i32,
        >(XEDIT_ERR_NULL_HANDLE),
        max_results > 0 && 0 <= plugin_idx < plugins@.len() ==> (r matches Ok(v) && positions(v@)
            == first_n(
            group_hits(plugins@[plugin_idx as int].groups@, spec_to_lowercase(query@)),
            max_results as int,
        )),
{
    if max_results <= 0 || plugin_idx < 0 || plugin_idx as usize >= plugins.len() {
        return Err(XEDIT_ERR_NULL_HANDLE);
    }
    let q = chars_of(str_to_lowercase(query).as_str());
    let ghost ql = spec_to_lowercase(query@);
    let max = max_results as usize;
    let p = &plugins[plugin_idx as usize];
    let ghost gs = p.groups@;
    let mut out: Vec<(usize, usize)> = Vec::new();
    let mut gi: usize = 0;
    assert(gs.take(0) =~= Seq::<Group>::empty());
    while gi < p.groups.len()
        invariant
            gs == p.groups@,
            gi <= gs.len(),
            q@ == ql,
            max == max_results as int,
            max > 0,
            positions(out@) == first_n(group_hits(gs.take(gi as int), ql), max as int),
        decreases p.groups.len() - gi,
    {
        let recs = records_of(&p.groups[gi]);
        let ghost rs = group_records(gs[gi as int]);
        let ghost before = group_hits(gs.take(gi as int), ql);
        let mut ri: usize = 0;
        assert(rs.take(0) =~= Seq::<Record>::empty());
        while ri < recs.len()
            invariant
                gs == p.groups@,
                gi < gs.len(),
                q@ == ql,
                max > 0,
                rs == group_records(gs[gi as int]),
                recs@.map_values(|r: &Record| *r) == rs,
                ri <= rs.len(),
                positions(out@) == first_n(before + record_hits(rs.take(ri as int), gi as int, ql), max as int),
            decreases recs.len() - ri,
        {
            assert(recs@.map_values(|r: &Record| *r)[ri as int] == *recs@[ri as int]);
            let ghost hh = before + record_hits(rs.take(ri as int), gi as int, ql);
            assert(rs.take(ri + 1).drop_last() =~= rs.take(ri as int));
            assert(rs.take(ri + 1).last() == *recs@[ri as int]);
            let hit = match recs[ri].editor_id() {
                Some(e) => {
                    let el = chars_of(str_to_lowercase(e).as_str());
                    chars_contain(el.as_slice(), q.as_slice())
                },
                None => false,
            };
            if hit {
                assert(before + record_hits(rs.take(ri + 1), gi as int, ql) =~= hh.push(
                    (gi as int, ri as int),
                ));
                if out.len() < max {
                    let ghost o = out@;
                    out.push((gi, ri));
                    assert(positions(out@) =~= positions(o).push((gi as int, ri as int)));
                    assert(first_n(hh.push((gi as int, ri as int)), max as int) =~= hh.push(
                        (gi as int, ri as int),
                    ));
                } else {
                    assert(first_n(hh.push((gi as int, ri as int)), max as int) =~= first_n(hh, max as int));
                }
            } else {
                assert(before + record_hits(rs.take(ri + 1), gi as int, ql) =~= hh);
            }
            ri = ri + 1;
        }
        assert(rs.take(ri as int) =~= rs);
        assert(gs.take(gi + 1).drop_last() =~= gs.take(gi as int));
        assert(gs.take(gi + 1).last() == gs[gi as int]);
        gi = gi + 1;
    }
    assert(gs.take(gi as int) =~= gs);
    Ok(out)
}

// ---------------------------------------------------------------------------
// Text replies
// ---------------------------------------------------------------------------
/// The bytes as the interface shows them: two upper-case hexadecimal digits
/// per byte, separated by spaces.
pub open spec fn hex_dump(d: Seq<u8>) -> Seq<char>
    decreases d.len(),
{
    if d.len() == 0 {
        seq![]
    } else if d.len() == 1 {
        hex_digits(d[0] as nat, 2)
    } else {
        hex_dump(d.drop_last()) + seq![' '] + hex_digits(d.last() as nat, 2)
    }
}

/// The bytes as the interface shows them (see [`hex_dump`]).
pub fn hex_string(data: &[u8]) -> (s: String)
    ensures
        s@ == hex_dump(data@),
{
    let mut v: Vec<char> = Vec::new();
    let mut i: usize = 0;
    while i < data.len()
        invariant
            i <= data@.len(),
            v@ == hex_dump(data@.take(i as int)),
        decreases data.len() - i,
    {
        if i > 0 {
            v.push(' ');
        }
        push_hex(&mut v, data[i] as u32, 2);
        proof {
            assert(data@.take(i + 1).drop_last() =~= data@.take(i as int));
            assert(data@.take(i + 1).last() == data@[i as int]);
            if i == 0 {
                assert(v@ =~= hex_dump(data@.take(1)));
            }
        }
        i = i + 1;
    }
    assert(data@.take(i as int) =~= data@);
    string_from_chars(v.as_slice())
}

/// The bytes of a text reply in a caller's buffer of `buf_len` bytes: the
/// text's UTF-8 bytes, cut to leave room, then a zero byte.
pub open spec fn c_reply(s: Seq<char>, buf_len: int) -> Seq<u8> {
    let b = vstd::utf8::encode_utf8(s);
    let n: int = if b.len() + 1 <= buf_len {
        b.len() + 1int
    } else {
        buf_len
    };
    b.take(n - 1).push(0u8)
}

/// A text reply for a caller's buffer of `buf_len` bytes (see [`c_reply`]);
/// the interface returns its length less the final zero byte. A capacity
/// that is not positive gives `Err(`[`XEDIT_ERR_NULL_HANDLE`]`)`, a text
/// holding a zero byte `Err(`[`XEDIT_ERR_INVALID_PATH`]`)`.
pub fn c_string_reply(s: &str, buf_len: i32) -> (r: Result<Vec<u8>, i32>)
    ensures
        buf_len <= 0 ==> r == Err::<Vec<u8>, i32>(XEDIT_ERR_NULL_HANDLE),
        buf_len > 0 && vstd::utf8::encode_utf8(s@).contains(0u8) ==> r == Err::<Vec<u8>, i32>(
            XEDIT_ERR_INVALID_PATH,
        ),
        buf_len > 0 && !vstd::utf8::encode_utf8(s@).contains(0u8) ==> (r matches Ok(b) && b@
            == c_reply(s@, buf_len as int)),
{
    if buf_len <= 0 {
        return Err(XEDIT_ERR_NULL_HANDLE);
    }
    let b = s.as_bytes();
    let ghost e = vstd::utf8::encode_utf8(s@);
    assert(b@ == e);
    let mut i: usize = 0;
    while i < b.len()
        invariant
            b@ == e,
            e == vstd::utf8::encode_utf8(s@),
            buf_len > 0,
            i <= b@.len(),
            forall|j: int| 0 <= j < i ==> b@[j] != 0u8,
        decreases b.len() - i,
    {
        if b[i] == 0 {
            assert(e[i as int] == 0u8);
            return Err(XEDIT_ERR_INVALID_PATH);
        }
        i = i + 1;
    }
    assert(!e.contains(0u8));
    let cap = buf_len as usize;
    let n: usize = if b.len() < cap {
        b.len() + 1
    } else {
        cap
    };
    let mut out: Vec<u8> = Vec::new();
    let mut k: usize = 0;
    while k + 1 < n
        invariant
            b@ == e,
            e == vstd::utf8::encode_utf8(s@),
            n as int == (if e.len() + 1 <= buf_len {
                e.len() + 1int
            } else {
                buf_len as int
            }),
            1 <= n <= b@.len() + 1,
            k + 1 <= n,
            out@ == e.take(k as int),
        decreases n - k,
    {
        out.push(b[k]);
        assert(e.take(k + 1) =~= e.take(k as int).push(e[k as int]));
        k = k + 1;
    }
    out.push(0);
    assert(out@ =~= c_reply(s@, buf_len as int));
    Ok(out)
}


/// The number the interface reports for a conflict severity: its position
/// among Critical, Override, Benign and ITM, from 0.
pub fn severity_code(s: ConflictSeverity) -> (c: i32)
    ensures
        c == match s {
            ConflictSeverity::Critical => 0i32,
            ConflictSeverity::Override => 1i32,
            ConflictSeverity::Benign => 2i32,
            ConflictSeverity::ITM => 3i32,
        },
{
    match s {
        ConflictSeverity::Critical => 0,
        ConflictSeverity::Override => 1,
        ConflictSeverity::Benign => 2,
        ConflictSeverity::ITM => 3,
    }
}

} // verus!
