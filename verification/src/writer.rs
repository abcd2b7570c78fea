//! Surgical plugin writer: unmodified records and groups are written from
//! their original bytes; only modified ones are re-serialized.

use vstd::prelude::*;

use crate::bytes::{append_bytes, le32, push_u16, push_u32, read_u32, u16_bytes, u32_bytes};
use crate::dialect::{spec_family, DialectFamily};
use crate::group::{Group, GroupChild, GroupType};
use crate::plugin::Plugin;
use crate::record::{spec_is_modified, Record};
use crate::signature::Signature;
use crate::subrecord::Subrecord;

verus! {

/// The bytes of one subrecord: signature, size (u32 for TES3, u16 for TES4+,
/// truncated to that width), data.
pub open spec fn sub_bytes(f: DialectFamily, sr: Subrecord) -> Seq<u8> {
    sr.signature.0@ + match f {
        DialectFamily::TES3 => u32_bytes(sr.raw_data@.len() as u32),
        DialectFamily::TES4Plus => u16_bytes(sr.raw_data@.len() as u16),
    } + sr.raw_data@
}

/// The bytes of a sequence of subrecords.
pub open spec fn subs_bytes(f: DialectFamily, s: Seq<Subrecord>) -> Seq<u8>
    decreases s.len(),
{
    if s.len() == 0 {
        seq![]
    } else {
        subs_bytes(f, s.drop_last()) + sub_bytes(f, s.last())
    }
}

/// The bytes written for a record: its original header and payload when
/// it is unmodified and has a stored header, else a re-serialized 24-byte
/// header followed by its subrecords.
pub open spec fn record_bytes(f: DialectFamily, r: Record) -> Seq<u8> {
    if !spec_is_modified(r) && r.raw_header is Some {
        r.raw_header->Some_0@ + match r.raw_data {
            Some(d) => d@,
            None => match r.raw_compressed_data {
                Some(c) => c@,
                None => subs_bytes(f, r.subrecords@),
            },
        }
    } else {
        let body = subs_bytes(f, r.subrecords@);
        r.signature.0@ + u32_bytes(body.len() as u32) + u32_bytes(r.flags.0) + u32_bytes(
            r.form_id.0,
        ) + u32_bytes(r.vc_info) + u16_bytes(r.version) + u16_bytes(r.unknown) + body
    }
}

/// The label and type fields of a group header.
pub open spec fn label_bytes(t: GroupType) -> Seq<u8> {
    match t {
        GroupType::Top(s) => s.0@ + u32_bytes(0),
        GroupType::WorldChildren(id) => u32_bytes(id) + u32_bytes(1),
        GroupType::InteriorCellBlock(n) => u32_bytes(n as u32) + u32_bytes(2),
        GroupType::InteriorCellSubBlock(n) => u32_bytes(n as u32) + u32_bytes(3),
        GroupType::ExteriorCellBlock { x, y } => u16_bytes(y as u16) + u16_bytes(x as u16)
            + u32_bytes(4),
        GroupType::ExteriorCellSubBlock { x, y } => u16_bytes(y as u16) + u16_bytes(x as u16)
            + u32_bytes(5),
        GroupType::CellChildren(id) => u32_bytes(id) + u32_bytes(6),
        GroupType::TopicChildren(id) => u32_bytes(id) + u32_bytes(7),
        GroupType::CellPersistentChildren(id) => u32_bytes(id) + u32_bytes(8),
        GroupType::CellTemporaryChildren(id) => u32_bytes(id) + u32_bytes(9),
        GroupType::CellVisibleDistantChildren(id) => u32_bytes(id) + u32_bytes(10),
    }
}

/// The `GRUP` signature bytes.
pub open spec fn grup_bytes() -> Seq<u8> {
    seq![0x47u8, 0x52, 0x55, 0x50]
}

/// The header length used when a group header is rebuilt.
pub open spec fn rebuilt_header_len(grp: Group) -> int {
    match grp.raw_header {
        Some(h) => h@.len() as int,
        None => 24,
    }
}

/// Whether a group is written from its stored header: it has one, and the
/// size field stored in it equals the header length plus the length of
/// the children as written.
pub open spec fn keeps_header(raw: Option<Vec<u8>>, children_len: int) -> bool {
    raw matches Some(h) && le32(h@, 4) == h@.len() + children_len
}

/// The bytes written for a group: its stored header followed by its
/// children when the stored size still fits, else a rebuilt header.
pub open spec fn group_bytes(f: DialectFamily, grp: Group) -> Seq<u8>
    decreases grp,
{
    let cb = children_bytes(f, grp.children@);
    if keeps_header(grp.raw_header, cb.len() as int) {
        grp.raw_header->Some_0@ + cb
    } else {
        let hl = rebuilt_header_len(grp);
        grup_bytes() + u32_bytes((hl + (cb.len() as u32)) as u32) + label_bytes(grp.group_type)
            + u32_bytes(grp.stamp) + (if hl >= 24 {
            u32_bytes(grp.unknown)
        } else {
            seq![]
        }) + cb
    }
}

/// The bytes written for one group child.
pub open spec fn child_bytes(f: DialectFamily, c: GroupChild) -> Seq<u8>
    decreases c,
{
    match c {
        GroupChild::Record(r) => record_bytes(f, r),
        GroupChild::Group(g) => group_bytes(f, g),
    }
}

/// The bytes written for a sequence of group children.
pub open spec fn children_bytes(f: DialectFamily, s: Seq<GroupChild>) -> Seq<u8>
    decreases s,
{
    if s.len() == 0 {
        seq![]
    } else {
        child_bytes(f, s[0]) + children_bytes(f, s.drop_first())
    }
}

/// Whether a group can be written without arithmetic overflow: stored
/// headers hold a size field, and the sizes computed fit their types.
pub open spec fn group_writable(f: DialectFamily, grp: Group) -> bool
    decreases grp,
{
    let cb = children_bytes(f, grp.children@);
    &&& grp.raw_header matches Some(h) ==> h@.len() >= 8 && h@.len() + cb.len() <= usize::MAX
    &&& keeps_header(grp.raw_header, cb.len() as int) || rebuilt_header_len(
        grp,
    ) + (cb.len() as u32) <= u32::MAX
    &&& children_writable(f, grp.children@)
}

/// Whether every group among the children can be written.
pub open spec fn children_writable(f: DialectFamily, s: Seq<GroupChild>) -> bool
    decreases s,
{
    if s.len() == 0 {
        true
    } else {
        &&& match s[0] {
            GroupChild::Record(_) => true,
            GroupChild::Group(g) => group_writable(f, g),
        }
        &&& children_writable(f, s.drop_first())
    }
}

/// The bytes of a sequence of top-level groups.
pub open spec fn groups_bytes(f: DialectFamily, s: Seq<Group>) -> Seq<u8>
    decreases s.len(),
{
    if s.len() == 0 {
        seq![]
    } else {
        groups_bytes(f, s.drop_last()) + group_bytes(f, s.last())
    }
}

/// The bytes of a sequence of TES3 records.
pub open spec fn records_bytes(f: DialectFamily, s: Seq<Record>) -> Seq<u8>
    decreases s.len(),
{
    if s.len() == 0 {
        seq![]
    } else {
        records_bytes(f, s.drop_last()) + record_bytes(f, s.last())
    }
}

/// The bytes written for a plugin.
pub open spec fn plugin_bytes(p: Plugin) -> Seq<u8> {
    let f = spec_family(p.game_id);
    record_bytes(f, p.header) + match f {
        DialectFamily::TES3 => records_bytes(f, p.tes3_records@),
        DialectFamily::TES4Plus => groups_bytes(f, p.groups@),
    }
}

/// Whether every group of a plugin can be written.
pub open spec fn plugin_writable(p: Plugin) -> bool {
    spec_family(p.game_id) == DialectFamily::TES4Plus ==> forall|i: int|
        0 <= i < p.groups@.len() ==> #[trigger] group_writable(DialectFamily::TES4Plus, p.groups@[i])
}

proof fn lemma_children_bytes_push(f: DialectFamily, s: Seq<GroupChild>, c: GroupChild)
    ensures
        children_bytes(f, s.push(c)) == children_bytes(f, s) + child_bytes(f, c),
    decreases s.len(),
{
    if s.len() == 0 {
        assert(s.push(c).drop_first() =~= s);
        assert(s.push(c)[0] == c);
        assert(children_bytes(f, s.push(c)) =~= children_bytes(f, s) + child_bytes(f, c));
    } else {
        lemma_children_bytes_push(f, s.drop_first(), c);
        assert(s.push(c).drop_first() =~= s.drop_first().push(c));
        assert(s.push(c)[0] == s[0]);
        assert(children_bytes(f, s.push(c)) =~= children_bytes(f, s) + child_bytes(f, c));
    }
}

proof fn lemma_children_writable_take(f: DialectFamily, s: Seq<GroupChild>, i: int)
    requires
        children_writable(f, s),
        0 <= i < s.len(),
    ensures
        match s[i] {
            GroupChild::Record(_) => true,
            GroupChild::Group(g) => group_writable(f, g),
        },
    decreases s.len(),
{
    if i > 0 {
        lemma_children_writable_take(f, s.drop_first(), i - 1);
        assert(s.drop_first()[i - 1] == s[i]);
    }
}

/// Writes plugins back to bytes with surgical patching.
pub struct PluginWriter;

impl PluginWriter {
    /// Serialize a plugin to bytes.
    pub fn write_bytes(plugin: &Plugin) -> (out: Vec<u8>)
        requires
            plugin_writable(*plugin),
        ensures
            out@ == plugin_bytes(*plugin),
    {
        let mut buf: Vec<u8> = Vec::new();
        let family = plugin.game_id.dialect_family();
        write_record(&plugin.header, &mut buf, family);
        let ghost head = buf@;
        match family {
            DialectFamily::TES3 => {
                let mut i: usize = 0;
                while i < plugin.tes3_records.len()
                    invariant
                        i <= plugin.tes3_records@.len(),
                        buf@ == head + records_bytes(family, plugin.tes3_records@.take(i as int)),
                    decreases plugin.tes3_records.len() - i,
                {
                    assert(plugin.tes3_records@.take(i + 1).drop_last() =~= plugin.tes3_records@.take(i as int));
                    write_record(&plugin.tes3_records[i], &mut buf, family);
                    i = i + 1;
                }
                assert(plugin.tes3_records@.take(i as int) =~= plugin.tes3_records@);
            },
            DialectFamily::TES4Plus => {
                let mut i: usize = 0;
                while i < plugin.groups.len()
                    invariant
                        i <= plugin.groups@.len(),
                        family == DialectFamily::TES4Plus,
                        spec_family(plugin.game_id) == family,
                        plugin_writable(*plugin),
                        buf@ == head + groups_bytes(family, plugin.groups@.take(i as int)),
                    decreases plugin.groups.len() - i,
                {
                    assert(plugin.groups@.take(i + 1).drop_last() =~= plugin.groups@.take(i as int));
                    assert(group_writable(family, plugin.groups@[i as int]));
                    write_group(&plugin.groups[i], &mut buf, family);
                    i = i + 1;
                }
                assert(plugin.groups@.take(i as int) =~= plugin.groups@);
            },
        }
        buf
    }

    /// Serialize a plugin to bytes when it can be written (see
    /// [`plugin_writable`]); `None` when a group's stored header is too
    /// short or a rebuilt group size does not fit 32 bits, where
    /// [`PluginWriter::write_bytes`] is not defined.
    pub fn try_write_bytes(plugin: &Plugin) -> (out: Option<Vec<u8>>)
        ensures
            out is Some <==> plugin_writable(*plugin),
            out matches Some(v) ==> v@ == plugin_bytes(*plugin),
    {
        let family = plugin.game_id.dialect_family();
        if family == DialectFamily::TES3 {
            return Some(Self::write_bytes(plugin));
        }
        let mut buf: Vec<u8> = Vec::new();
        write_record(&plugin.header, &mut buf, family);
        let ghost head = buf@;
        let mut i: usize = 0;
        while i < plugin.groups.len()
            invariant
                i <= plugin.groups@.len(),
                family == DialectFamily::TES4Plus,
                spec_family(plugin.game_id) == family,
                forall|j: int| 0 <= j < i ==> #[trigger] group_writable(family, plugin.groups@[j]),
                buf@ == head + groups_bytes(family, plugin.groups@.take(i as int)),
            decreases plugin.groups.len() - i,
        {
            assert(plugin.groups@.take(i + 1).drop_last() =~= plugin.groups@.take(i as int));
            if !try_write_group(&plugin.groups[i], &mut buf, family) {
                assert(!group_writable(family, plugin.groups@[i as int]));
                return None;
            }
            i = i + 1;
        }
        assert(plugin.groups@.take(i as int) =~= plugin.groups@);
        Some(buf)
    }
}

/// Write one subrecord.
fn write_subrecord(sr: &Subrecord, buf: &mut Vec<u8>, f: DialectFamily)
    ensures
        final(buf)@ == old(buf)@ + sub_bytes(f, *sr),
{
    append_bytes(buf, sr.signature.0.as_slice());
    match f {
        DialectFamily::TES3 => push_u32(buf, sr.raw_data.len() as u32),
        DialectFamily::TES4Plus => push_u16(buf, sr.raw_data.len() as u16),
    }
    append_bytes(buf, sr.raw_data.as_slice());
}

/// Serialize all subrecords to a new buffer.
fn serialize_subrecords(subs: &Vec<Subrecord>, f: DialectFamily) -> (out: Vec<u8>)
    ensures
        out@ == subs_bytes(f, subs@),
{
    let mut buf: Vec<u8> = Vec::new();
    let mut i: usize = 0;
    while i < subs.len()
        invariant
            i <= subs@.len(),
            buf@ == subs_bytes(f, subs@.take(i as int)),
        decreases subs.len() - i,
    {
        assert(subs@.take(i + 1).drop_last() =~= subs@.take(i as int));
        write_subrecord(&subs[i], &mut buf, f);
        i = i + 1;
    }
    assert(subs@.take(i as int) =~= subs@);
    buf
}

/// Write a record, from its raw bytes when unmodified.
fn write_record(record: &Record, buf: &mut Vec<u8>, f: DialectFamily)
    ensures
        final(buf)@ == old(buf)@ + record_bytes(f, *record),
{
    if !record.is_modified() {
        if let Some(raw_header) = &record.raw_header {
            append_bytes(buf, raw_header.as_slice());
            if let Some(raw_data) = &record.raw_data {
                append_bytes(buf, raw_data.as_slice());
            } else if let Some(compressed) = &record.raw_compressed_data {
                append_bytes(buf, compressed.as_slice());
            } else {
                let body = serialize_subrecords(&record.subrecords, f);
                append_bytes(buf, body.as_slice());
            }
            return ;
        }
    }
    let body = serialize_subrecords(&record.subrecords, f);
    append_bytes(buf, record.signature.0.as_slice());
    push_u32(buf, body.len() as u32);
    push_u32(buf, record.flags.0);
    push_u32(buf, record.form_id.0);
    push_u32(buf, record.vc_info);
    push_u16(buf, record.version);
    push_u16(buf, record.unknown);
    append_bytes(buf, body.as_slice());
}

/// Write the label and type fields of a group header.
fn write_group_label(t: &GroupType, buf: &mut Vec<u8>)
    ensures
        final(buf)@ == old(buf)@ + label_bytes(*t),
{
    match t {
        GroupType::Top(sig) => {
            append_bytes(buf, sig.0.as_slice());
            push_u32(buf, 0);
        },
        GroupType::WorldChildren(id) => {
            push_u32(buf, *id);
            push_u32(buf, 1);
        },
        GroupType::InteriorCellBlock(n) => {
            push_u32(buf, *n as u32);
            push_u32(buf, 2);
        },
        GroupType::InteriorCellSubBlock(n) => {
            push_u32(buf, *n as u32);
            push_u32(buf, 3);
        },
        GroupType::ExteriorCellBlock { x, y } => {
            push_u16(buf, *y as u16);
            push_u16(buf, *x as u16);
            push_u32(buf, 4);
        },
        GroupType::ExteriorCellSubBlock { x, y } => {
            push_u16(buf, *y as u16);
            push_u16(buf, *x as u16);
            push_u32(buf, 5);
        },
        GroupType::CellChildren(id) => {
            push_u32(buf, *id);
            push_u32(buf, 6);
        },
        GroupType::TopicChildren(id) => {
            push_u32(buf, *id);
            push_u32(buf, 7);
        },
        GroupType::CellPersistentChildren(id) => {
            push_u32(buf, *id);
            push_u32(buf, 8);
        },
        GroupType::CellTemporaryChildren(id) => {
            push_u32(buf, *id);
            push_u32(buf, 9);
        },
        GroupType::CellVisibleDistantChildren(id) => {
            push_u32(buf, *id);
            push_u32(buf, 10);
        },
    }
}

/// Write a group, keeping its stored header when the size still fits.
fn write_group(group: &Group, buf: &mut Vec<u8>, f: DialectFamily)
    requires
        group_writable(f, *group),
    ensures
        final(buf)@ == old(buf)@ + group_bytes(f, *group),
    decreases group,
{
    let mut children_buf: Vec<u8> = Vec::new();
    let mut i: usize = 0;
    while i < group.children.len()
        invariant
            i <= group.children@.len(),
            children_writable(f, group.children@),
            children_buf@ == children_bytes(f, group.children@.take(i as int)),
        decreases group.children.len() - i,
    {
        proof {
            lemma_children_bytes_push(f, group.children@.take(i as int), group.children@[i as int]);
            assert(group.children@.take(i + 1) =~= group.children@.take(i as int).push(
                group.children@[i as int],
            ));
            lemma_children_writable_take(f, group.children@, i as int);
        }
        match &group.children[i] {
            GroupChild::Record(r) => write_record(r, &mut children_buf, f),
            GroupChild::Group(g) => write_group(g, &mut children_buf, f),
        }
        i = i + 1;
    }
    assert(group.children@.take(i as int) =~= group.children@);
    if let Some(raw_header) = &group.raw_header {
        let stored_size = read_u32(raw_header.as_slice(), 4) as usize;
        let expected_size = raw_header.len() + children_buf.len();
        if stored_size == expected_size {
            append_bytes(buf, raw_header.as_slice());
            append_bytes(buf, children_buf.as_slice());
            return ;
        }
    }
    let header_len: usize = match &group.raw_header {
        Some(h) => h.len(),
        None => 24,
    };
    let total_size = header_len as u32 + children_buf.len() as u32;
    append_bytes(buf, &[0x47u8, 0x52, 0x55, 0x50]);
    push_u32(buf, total_size);
    write_group_label(&group.group_type, buf);
    push_u32(buf, group.stamp);
    if header_len >= 24 {
        push_u32(buf, group.unknown);
    }
    append_bytes(buf, children_buf.as_slice());
}

/// Whether one group child can be written.
pub open spec fn child_writable(f: DialectFamily, c: GroupChild) -> bool {
    match c {
        GroupChild::Record(_) => true,
        GroupChild::Group(g) => group_writable(f, g),
    }
}

/// The children can be written exactly when each of them can.
proof fn lemma_children_writable_all(f: DialectFamily, s: Seq<GroupChild>)
    ensures
        children_writable(f, s) <==> forall|i: int| 0 <= i < s.len() ==> #[trigger] child_writable(f, s[i]),
    decreases s.len(),
{
    if s.len() > 0 {
        lemma_children_writable_all(f, s.drop_first());
        if children_writable(f, s) {
            assert forall|i: int| 0 <= i < s.len() implies #[trigger] child_writable(f, s[i]) by {
                if i > 0 {
                    assert(s[i] == s.drop_first()[i - 1]);
                }
            }
        }
        if forall|i: int| 0 <= i < s.len() ==> #[trigger] child_writable(f, s[i]) {
            assert forall|i: int| 0 <= i < s.drop_first().len() implies #[trigger] child_writable(
                f,
                s.drop_first()[i],
            ) by {
                assert(s.drop_first()[i] == s[i + 1]);
            }
            assert(child_writable(f, s[0]));
        }
    }
}

/// Write a group when it can be written (see [`group_writable`]), and say
/// whether it could.
fn try_write_group(group: &Group, buf: &mut Vec<u8>, f: DialectFamily) -> (ok: bool)
    ensures
        ok == group_writable(f, *group),
        ok ==> final(buf)@ == old(buf)@ + group_bytes(f, *group),
    decreases group,
{
    let ghost cs = group.children@;
    proof {
        lemma_children_writable_all(f, cs);
    }
    let mut children_buf: Vec<u8> = Vec::new();
    let mut i: usize = 0;
    while i < group.children.len()
        invariant
            i <= cs.len(),
            cs == group.children@,
            children_writable(f, cs) <==> forall|j: int| 0 <= j < cs.len() ==> #[trigger] child_writable(f, cs[j]),
            forall|j: int| 0 <= j < i ==> #[trigger] child_writable(f, cs[j]),
            children_buf@ == children_bytes(f, cs.take(i as int)),
        decreases group.children.len() - i,
    {
        proof {
            lemma_children_bytes_push(f, cs.take(i as int), cs[i as int]);
            assert(cs.take(i + 1) =~= cs.take(i as int).push(cs[i as int]));
        }
        match &group.children[i] {
            GroupChild::Record(r) => write_record(r, &mut children_buf, f),
            GroupChild::Group(g) => {
                if !try_write_group(g, &mut children_buf, f) {
                    assert(!child_writable(f, cs[i as int]));
                    return false;
                }
            },
        }
        i = i + 1;
    }
    assert(cs.take(i as int) =~= cs);
    assert(children_writable(f, cs));
    if let Some(raw_header) = &group.raw_header {
        if raw_header.len() < 8 || raw_header.len() > usize::MAX - children_buf.len() {
            return false;
        }
        let stored_size = read_u32(raw_header.as_slice(), 4) as usize;
        let expected_size = raw_header.len() + children_buf.len();
        if stored_size == expected_size {
            append_bytes(buf, raw_header.as_slice());
            append_bytes(buf, children_buf.as_slice());
            return true;
        }
    }
    let header_len: usize = match &group.raw_header {
        Some(h) => h.len(),
        None => 24,
    };
    let cl: u32 = #[verifier::truncate] (children_buf.len() as u32);
    if header_len as u64 + cl as u64 > 0xffff_ffff {
        return false;
    }
    let total_size = header_len as u32 + cl;
    append_bytes(buf, &[0x47u8, 0x52, 0x55, 0x50]);
    push_u32(buf, total_size);
    write_group_label(&group.group_type, buf);
    push_u32(buf, group.stamp);
    if header_len >= 24 {
        push_u32(buf, group.unknown);
    }
    append_bytes(buf, children_buf.as_slice());
    true
}

} // verus!
