//! Plugin cleaning: remove ITM records and undelete deleted references.
//!
//! - ITM (Identical to Master) records, identified by the conflict
//!   detector, are removed from the plugin's group tree.
//! - Deleted references are "undeleted": the DELETED flag is cleared, the
//!   initially-disabled flag set, and the subrecords replaced by the base
//!   object (NAME) and a DATA subrecord that moves the reference to
//!   (0, 0, -30000), safely underground.

use vstd::prelude::*;

use crate::formid::FormId;
use crate::group::{children_records, group_records, groups_records, Group, GroupChild};
use crate::load_order::lemma_filter_push;
use crate::plugin::{lemma_children_records_push, lemma_groups_records_push, Plugin};
use crate::record::{first_with_sig, lemma_first_with_sig, Record, RecordFlags};
use crate::signature::Signature;
use crate::subrecord::Subrecord;

verus! {

broadcast use vstd::seq_lib::group_filter_ensures;

/// Record flag for the initially-disabled state.
pub const INITIALLY_DISABLED: u32 = 0x0000_0800;

/// The result of a cleaning operation on a plugin.
#[derive(Debug, Clone)]
pub struct CleanResult {
    /// Number of ITM records removed.
    pub itm_removed: usize,
    /// FormIDs of the ITM records that were removed.
    pub itm_form_ids: Vec<FormId>,
    /// Number of deleted references that were undeleted.
    pub deleted_cleaned: usize,
    /// FormIDs of the deleted references that were cleaned.
    pub deleted_form_ids: Vec<FormId>,
}

impl Default for CleanResult {
    fn default() -> (r: Self)
        ensures
            r.itm_removed == 0,
            r.itm_form_ids@ == Seq::<FormId>::empty(),
            r.deleted_cleaned == 0,
            r.deleted_form_ids@ == Seq::<FormId>::empty(),
    {
        CleanResult {
            itm_removed: 0,
            itm_form_ids: Vec::new(),
            deleted_cleaned: 0,
            deleted_form_ids: Vec::new(),
        }
    }
}

/// Whether some FormID of `ids` has the raw value `raw`.
pub open spec fn in_ids(ids: Seq<FormId>, raw: u32) -> bool {
    exists|i: int| 0 <= i < ids.len() && ids[i].0 == raw
}

/// Whether some FormID of `ids` has the raw value `raw`.
fn contains_id(ids: &[FormId], raw: u32) -> (r: bool)
    ensures
        r == in_ids(ids@, raw),
{
    let mut i: usize = 0;
    while i < ids.len()
        invariant
            i <= ids@.len(),
            forall|j: int| 0 <= j < i ==> ids@[j].0 != raw,
        decreases ids.len() - i,
    {
        if ids[i].0 == raw {
            return true;
        }
        i = i + 1;
    }
    false
}

/// The records of `s` whose FormID is (`keep` false) or is not (`keep`
/// true) among `ids`.
pub open spec fn select(s: Seq<Record>, ids: Seq<FormId>, keep: bool) -> Seq<Record> {
    s.filter(|r: Record| in_ids(ids, r.form_id.0) != keep)
}

/// `new` is `old` with every record whose FormID is among `ids` removed,
/// at every depth; groups are kept (even when emptied) with their fields.
pub open spec fn pruned_group(old: Group, new: Group, ids: Seq<FormId>) -> bool
    decreases old,
{
    &&& new.group_type == old.group_type
    &&& new.stamp == old.stamp
    &&& new.unknown == old.unknown
    &&& new.raw_header == old.raw_header
    &&& new.source_offset == old.source_offset
    &&& pruned_children(old.children@, new.children@, ids)
}

/// `new` is the children `old` with the records among `ids` removed and
/// each group pruned.
pub open spec fn pruned_children(old: Seq<GroupChild>, new: Seq<GroupChild>, ids: Seq<FormId>) -> bool
    decreases old,
{
    if old.len() == 0 {
        new.len() == 0
    } else {
        match old.last() {
            GroupChild::Record(r) => if in_ids(ids, r.form_id.0) {
                pruned_children(old.drop_last(), new, ids)
            } else {
                &&& new.len() > 0
                &&& new.last() == GroupChild::Record(r)
                &&& pruned_children(old.drop_last(), new.drop_last(), ids)
            },
            GroupChild::Group(g) => {
                &&& new.len() > 0
                &&& new.last() matches GroupChild::Group(g2)
                &&& pruned_group(g, g2, ids)
                &&& pruned_children(old.drop_last(), new.drop_last(), ids)
            },
        }
    }
}

/// The records of one group child: itself, or its group's records.
pub open spec fn child_records(c: GroupChild) -> Seq<Record> {
    match c {
        GroupChild::Record(r) => seq![r],
        GroupChild::Group(g) => group_records(g),
    }
}

/// The records of a prefix of a child sequence are no more than those of
/// the whole.
proof fn lemma_children_records_prefix(s: Seq<GroupChild>, k: int)
    requires
        0 <= k <= s.len(),
    ensures
        children_records(s.take(k)).len() <= children_records(s).len(),
    decreases s.len() - k,
{
    if k < s.len() {
        lemma_children_records_prefix(s, k + 1);
        lemma_children_records_push(s.take(k), s[k]);
        assert(s.take(k + 1) =~= s.take(k).push(s[k]));
    } else {
        assert(s.take(k) =~= s);
    }
}

/// The records of a prefix of a group sequence are no more than those of
/// the whole.
proof fn lemma_groups_records_prefix(s: Seq<Group>, k: int)
    requires
        0 <= k <= s.len(),
    ensures
        groups_records(s.take(k)).len() <= groups_records(s).len(),
    decreases s.len() - k,
{
    if k < s.len() {
        lemma_groups_records_prefix(s, k + 1);
        lemma_groups_records_push(s.take(k), s[k]);
        assert(s.take(k + 1) =~= s.take(k).push(s[k]));
    } else {
        assert(s.take(k) =~= s);
    }
}

/// Selecting records distributes over appending one record.
proof fn lemma_select_one(prefix: Seq<Record>, r: Record, ids: Seq<FormId>, keep: bool)
    ensures
        select(prefix + seq![r], ids, keep) == select(prefix, ids, keep) + if in_ids(
            ids,
            r.form_id.0,
        ) != keep {
            seq![r]
        } else {
            seq![]
        },
{
    let p = |x: Record| in_ids(ids, x.form_id.0) != keep;
    assert(prefix + seq![r] =~= prefix.push(r));
    lemma_filter_push(prefix, r, p);
}

/// Remove the records whose FormID is among `ids` from a group tree;
/// returns the pruned group and the number of records removed.
fn prune_group(group: Group, ids: &[FormId]) -> (res: (Group, usize))
    requires
        group_records(group).len() <= usize::MAX,
    ensures
        pruned_group(group, res.0, ids@),
        group_records(res.0) == select(group_records(group), ids@, true),
        res.1 == select(group_records(group), ids@, false).len(),
    decreases group,
{
    let ghost old_group = group;
    let Group { group_type, stamp, unknown, children, raw_header, source_offset } = group;
    let ghost old_children = children@;
    let mut kept: Vec<GroupChild> = Vec::new();
    let mut removed: usize = 0;
    for child in it: children
        invariant
            it.seq() == old_children,
            old_group == group,
            old_children == old_group.children@,
            children_records(old_children).len() <= usize::MAX,
            pruned_children(old_children.take(it.index() as int), kept@, ids@),
            children_records(kept@) == select(
                children_records(old_children.take(it.index() as int)),
                ids@,
                true,
            ),
            removed == select(
                children_records(old_children.take(it.index() as int)),
                ids@,
                false,
            ).len(),
    {
        let ghost k = it.index() as int;
        let ghost pre = old_children.take(k);
        proof {
            assert(old_children.take(k + 1) =~= pre.push(child));
            assert(old_children.take(k + 1).drop_last() =~= pre);
            assert(old_children.take(k + 1).last() == child);
            lemma_children_records_push(pre, child);
            lemma_children_records_prefix(old_children, k + 1);
            Seq::filter_distributes_over_add(
                children_records(pre),
                child_records(child),
                |r: Record| in_ids(ids@, r.form_id.0) != false,
            );
            Seq::filter_distributes_over_add(
                children_records(pre),
                child_records(child),
                |r: Record| in_ids(ids@, r.form_id.0) != true,
            );
        }
        let ghost kept_before = kept@;
        match child {
            GroupChild::Record(r) => {
                proof {
                    lemma_select_one(children_records(pre), r, ids@, true);
                    lemma_select_one(children_records(pre), r, ids@, false);
                }
                if contains_id(ids, r.form_id.0) {
                    removed = removed + 1;
                } else {
                    kept.push(GroupChild::Record(r));
                    proof {
                        assert(kept@ =~= kept_before.push(GroupChild::Record(r)));
                        assert(kept@.drop_last() =~= kept_before);
                        lemma_children_records_push(kept_before, GroupChild::Record(r));
                    }
                }
            },
            GroupChild::Group(g) => {
                proof {
                    assert(group_records(g).len() <= children_records(old_children).len());
                    assert(old_group.children@[k] == child);
                    assert(decreases_to!(old_group => old_group.children));
                    assert(decreases_to!(old_group.children => old_group.children@));
                    assert(decreases_to!(old_group.children@ => old_group.children@[k]));
                    assert(decreases_to!(old_group => g));
                }
                let (g2, n) = prune_group(g, ids);
                removed = removed + n;
                kept.push(GroupChild::Group(g2));
                proof {
                    assert(kept@ =~= kept_before.push(GroupChild::Group(g2)));
                    assert(kept@.drop_last() =~= kept_before);
                    lemma_children_records_push(kept_before, GroupChild::Group(g2));
                }
            },
        }
    }
    assert(old_children.take(old_children.len() as int) =~= old_children);
    (Group { group_type, stamp, unknown, children: kept, raw_header, source_offset }, removed)
}

/// Remove ITM (Identical to Master) records from a plugin: every record of
/// its group tree whose FormID is among `itm_form_ids`. Returns the number
/// of records removed; the plugin is marked modified when some were.
pub fn remove_itm_records(plugin: &mut Plugin, itm_form_ids: &[FormId]) -> (removed: usize)
    requires
        groups_records(old(plugin).groups@).len() <= usize::MAX,
    ensures
        final(plugin).groups@.len() == old(plugin).groups@.len(),
        forall|i: int|
            0 <= i < old(plugin).groups@.len() ==> pruned_group(
                #[trigger] old(plugin).groups@[i],
                final(plugin).groups@[i],
                itm_form_ids@,
            ),
        groups_records(final(plugin).groups@) == select(
            groups_records(old(plugin).groups@),
            itm_form_ids@,
            true,
        ),
        removed == select(groups_records(old(plugin).groups@), itm_form_ids@, false).len(),
        final(plugin).modified == (old(plugin).modified || removed > 0),
        final(plugin).game_id == old(plugin).game_id,
        final(plugin).file_path == old(plugin).file_path,
        final(plugin).header == old(plugin).header,
        final(plugin).tes3_records == old(plugin).tes3_records,
        final(plugin).masters == old(plugin).masters,
        final(plugin).description == old(plugin).description,
        final(plugin).author == old(plugin).author,
{
    let mut groups: Vec<Group> = Vec::new();
    std::mem::swap(&mut groups, &mut plugin.groups);
    let ghost old_groups = groups@;
    let mut new_groups: Vec<Group> = Vec::new();
    let mut removed: usize = 0;
    for group in it: groups
        invariant
            it.seq() == old_groups,
            groups_records(old_groups).len() <= usize::MAX,
            new_groups@.len() == it.index(),
            forall|i: int|
                0 <= i < it.index() ==> pruned_group(
                    #[trigger] old_groups[i],
                    new_groups@[i],
                    itm_form_ids@,
                ),
            groups_records(new_groups@) == select(
                groups_records(old_groups.take(it.index() as int)),
                itm_form_ids@,
                true,
            ),
            removed == select(
                groups_records(old_groups.take(it.index() as int)),
                itm_form_ids@,
                false,
            ).len(),
    {
        let ghost k = it.index() as int;
        let ghost pre = old_groups.take(k);
        proof {
            assert(old_groups.take(k + 1) =~= pre.push(group));
            lemma_groups_records_push(pre, group);
            lemma_groups_records_prefix(old_groups, k + 1);
            Seq::filter_distributes_over_add(
                groups_records(pre),
                group_records(group),
                |r: Record| in_ids(itm_form_ids@, r.form_id.0) != false,
            );
            Seq::filter_distributes_over_add(
                groups_records(pre),
                group_records(group),
                |r: Record| in_ids(itm_form_ids@, r.form_id.0) != true,
            );
        }
        let ghost before = new_groups@;
        let (g2, n) = prune_group(group, itm_form_ids);
        removed = removed + n;
        new_groups.push(g2);
        proof {
            lemma_groups_records_push(before, g2);
            assert(new_groups@ =~= before.push(g2));
        }
    }
    assert(old_groups.take(old_groups.len() as int) =~= old_groups);
    plugin.groups = new_groups;
    if removed > 0 {
        plugin.modified = true;
    }
    removed
}

/// Whether a signature is a reference type that can be meaningfully
/// undeleted: REFR, ACHR, ACRE, PGRE, PMIS, PHZD, PARW, PBAR, PBEA, PCON,
/// PFLA.
pub open spec fn is_reference_sig(s: Signature) -> bool {
    ||| s == Signature([0x52, 0x45, 0x46, 0x52])
    ||| s == Signature([0x41, 0x43, 0x48, 0x52])
    ||| s == Signature([0x41, 0x43, 0x52, 0x45])
    ||| s == Signature([0x50, 0x47, 0x52, 0x45])
    ||| s == Signature([0x50, 0x4D, 0x49, 0x53])
    ||| s == Signature([0x50, 0x48, 0x5A, 0x44])
    ||| s == Signature([0x50, 0x41, 0x52, 0x57])
    ||| s == Signature([0x50, 0x42, 0x41, 0x52])
    ||| s == Signature([0x50, 0x42, 0x45, 0x41])
    ||| s == Signature([0x50, 0x43, 0x4F, 0x4E])
    ||| s == Signature([0x50, 0x46, 0x4C, 0x41])
}

/// Whether a record is cleaned by [`undelete_references`]: its FormID is
/// among `ids`, it has the DELETED flag, and it is a reference.
pub open spec fn should_undelete(r: Record, ids: Seq<FormId>) -> bool {
    &&& in_ids(ids, r.form_id.0)
    &&& r.flags.0 & 0x0000_0020 != 0
    &&& is_reference_sig(r.signature)
}

/// The DATA payload of an undeleted reference: position (0, 0, -30000) and
/// zero rotation, six little-endian IEEE-754 single-precision values.
pub open spec fn undeleted_data() -> Seq<u8> {
    seq![
        0x00u8, 0x00, 0x00, 0x00, 0x00, 0x00, 0x00, 0x00, 0x00, 0x60, 0xEA, 0xC6,
        0x00, 0x00, 0x00, 0x00, 0x00, 0x00, 0x00, 0x00, 0x00, 0x00, 0x00, 0x00,
    ]
}

/// The signature `NAME`.
pub open spec fn name_sig() -> Signature {
    Signature([0x4E, 0x41, 0x4D, 0x45])
}

/// A new, unmodified DATA subrecord holding [`undeleted_data`].
pub open spec fn is_undeleted_data(s: Subrecord) -> bool {
    &&& s.signature == Signature([0x44, 0x41, 0x54, 0x41])
    &&& s.raw_data@ == undeleted_data()
    &&& s.size == 24
    &&& s.source_offset is None
    &&& !s.modified
}

/// Two subrecords agree in every field.
pub open spec fn same_fields(a: Subrecord, b: Subrecord) -> bool {
    &&& a.signature == b.signature
    &&& a.raw_data@ == b.raw_data@
    &&& a.size == b.size
    &&& a.source_offset == b.source_offset
    &&& a.modified == b.modified
}

/// `new` is the deleted reference `old` undeleted: DELETED cleared and
/// initially-disabled set, the subrecords replaced by a copy of the first
/// NAME subrecord (when there is one) and the underground DATA subrecord,
/// marked modified, its raw caches dropped; other fields kept.
pub open spec fn undeleted(old: Record, new: Record) -> bool {
    &&& new.signature == old.signature
    &&& new.form_id == old.form_id
    &&& new.vc_info == old.vc_info
    &&& new.version == old.version
    &&& new.unknown == old.unknown
    &&& new.source_offset == old.source_offset
    &&& new.flags.0 == (old.flags.0 & !0x0000_0020u32) | 0x0000_0800u32
    &&& new.modified
    &&& new.raw_header is None
    &&& new.raw_compressed_data is None
    &&& new.raw_data is None
    &&& match first_with_sig(old.subrecords@, name_sig()) {
        Some(k) => {
            &&& new.subrecords@.len() == 2
            &&& same_fields(new.subrecords@[0], old.subrecords@[k])
            &&& is_undeleted_data(new.subrecords@[1])
        },
        None => new.subrecords@.len() == 1 && is_undeleted_data(new.subrecords@[0]),
    }
}

/// `new` is `old` with every record that [`should_undelete`] undeleted, at
/// every depth; everything else kept.
pub open spec fn undeleted_group(old: Group, new: Group, ids: Seq<FormId>) -> bool
    decreases old,
{
    &&& new.group_type == old.group_type
    &&& new.stamp == old.stamp
    &&& new.unknown == old.unknown
    &&& new.raw_header == old.raw_header
    &&& new.source_offset == old.source_offset
    &&& undeleted_children(old.children@, new.children@, ids)
}

/// `new` is the children `old` with each deleted reference undeleted.
pub open spec fn undeleted_children(old: Seq<GroupChild>, new: Seq<GroupChild>, ids: Seq<FormId>) -> bool
    decreases old,
{
    if old.len() == 0 {
        new.len() == 0
    } else {
        &&& new.len() > 0
        &&& match old.last() {
            GroupChild::Record(r) => new.last() matches GroupChild::Record(r2) && if should_undelete(
                r,
                ids,
            ) {
                undeleted(r, r2)
            } else {
                r2 == r
            },
            GroupChild::Group(g) => new.last() matches GroupChild::Group(g2) && undeleted_group(
                g,
                g2,
                ids,
            ),
        }
        &&& undeleted_children(old.drop_last(), new.drop_last(), ids)
    }
}

/// Whether a signature is a reference type (see [`is_reference_sig`]).
fn is_reference_record(sig: &Signature) -> (b: bool)
    ensures
        b == is_reference_sig(*sig),
{
    *sig == Signature([0x52, 0x45, 0x46, 0x52]) || *sig == Signature([0x41, 0x43, 0x48, 0x52])
        || *sig == Signature([0x41, 0x43, 0x52, 0x45]) || *sig == Signature(
        [0x50, 0x47, 0x52, 0x45],
    ) || *sig == Signature([0x50, 0x4D, 0x49, 0x53]) || *sig == Signature(
        [0x50, 0x48, 0x5A, 0x44],
    ) || *sig == Signature([0x50, 0x41, 0x52, 0x57]) || *sig == Signature(
        [0x50, 0x42, 0x41, 0x52],
    ) || *sig == Signature([0x50, 0x42, 0x45, 0x41]) || *sig == Signature(
        [0x50, 0x43, 0x4F, 0x4E],
    ) || *sig == Signature([0x50, 0x46, 0x4C, 0x41])
}

/// The index of the first subrecord with signature `sig`.
pub(crate) fn first_index_of_sig(subs: &Vec<Subrecord>, sig: Signature) -> (r: Option<usize>)
    ensures
        match r {
            Some(k) => first_with_sig(subs@, sig) == Some(k as int),
            None => first_with_sig(subs@, sig) is None,
        },
{
    proof {
        lemma_first_with_sig(subs@, sig);
    }
    let mut i: usize = 0;
    while i < subs.len()
        invariant
            i <= subs@.len(),
            forall|j: int| 0 <= j < i ==> subs@[j].signature != sig,
            first_with_sig(subs@, sig) matches Some(k) ==> 0 <= k < subs@.len()
                && subs@[k].signature == sig && forall|j: int|
                0 <= j < k ==> subs@[j].signature != sig,
            first_with_sig(subs@, sig) is None ==> forall|j: int|
                0 <= j < subs@.len() ==> subs@[j].signature != sig,
        decreases subs.len() - i,
    {
        if subs[i].signature == sig {
            proof {
                if let Some(k) = first_with_sig(subs@, sig) {
                    if k > i {
                        assert(subs@[i as int].signature != sig);
                    }
                } else {
                    assert(subs@[i as int].signature != sig);
                }
            }
            return Some(i);
        }
        i = i + 1;
    }
    None
}

/// Transform a deleted record into an undeleted, initially-disabled
/// reference (see [`undeleted`]).
fn undelete_record(record: &mut Record)
    ensures
        undeleted(*old(record), *final(record)),
{
    record.flags = RecordFlags((record.flags.0 & !RecordFlags::DELETED) | INITIALLY_DISABLED);
    let data: Vec<u8> = vec![
        0x00u8, 0x00, 0x00, 0x00, 0x00, 0x00, 0x00, 0x00, 0x00, 0x60, 0xEA, 0xC6,
        0x00, 0x00, 0x00, 0x00, 0x00, 0x00, 0x00, 0x00, 0x00, 0x00, 0x00, 0x00,
    ];
    proof {
        lemma_first_with_sig(record.subrecords@, name_sig());
    }
    let name_sub: Option<Subrecord> = match first_index_of_sig(&record.subrecords, Signature::NAME()) {
        Some(k) => Some(record.subrecords[k].clone()),
        None => None,
    };
    let mut subs: Vec<Subrecord> = Vec::new();
    if let Some(n) = name_sub {
        subs.push(n);
    }
    subs.push(Subrecord::new(Signature::DATA(), data));
    record.subrecords = subs;
    record.modified = true;
    record.raw_header = None;
    record.raw_compressed_data = None;
    record.raw_data = None;
}

/// The records of `s` that [`should_undelete`].
pub open spec fn to_undelete(s: Seq<Record>, ids: Seq<FormId>) -> Seq<Record> {
    s.filter(|r: Record| should_undelete(r, ids))
}

/// Undelete the deleted references of a group tree; returns the new group
/// and the number of references cleaned.
fn undelete_group(group: Group, ids: &[FormId]) -> (res: (Group, usize))
    requires
        group_records(group).len() <= usize::MAX,
    ensures
        undeleted_group(group, res.0, ids@),
        res.1 == to_undelete(group_records(group), ids@).len(),
    decreases group,
{
    let ghost old_group = group;
    let Group { group_type, stamp, unknown, children, raw_header, source_offset } = group;
    let ghost old_children = children@;
    let ghost p = |r: Record| should_undelete(r, ids@);
    let mut out: Vec<GroupChild> = Vec::new();
    let mut cleaned: usize = 0;
    for child in it: children
        invariant
            it.seq() == old_children,
            old_group == group,
            old_children == old_group.children@,
            p == (|r: Record| should_undelete(r, ids@)),
            children_records(old_children).len() <= usize::MAX,
            undeleted_children(old_children.take(it.index() as int), out@, ids@),
            cleaned == children_records(old_children.take(it.index() as int)).filter(p).len(),
    {
        let ghost k = it.index() as int;
        let ghost pre = old_children.take(k);
        proof {
            assert(old_children.take(k + 1) =~= pre.push(child));
            assert(old_children.take(k + 1).drop_last() =~= pre);
            assert(old_children.take(k + 1).last() == child);
            lemma_children_records_push(pre, child);
            lemma_children_records_prefix(old_children, k + 1);
            Seq::filter_distributes_over_add(children_records(pre), child_records(child), p);
        }
        let ghost before = out@;
        match child {
            GroupChild::Record(mut r) => {
                proof {
                    assert(seq![r] =~= seq![].push(r));
                    lemma_filter_push(seq![], r, p);
                }
                if contains_id(ids, r.form_id.0) && r.flags.is_deleted() && is_reference_record(
                    &r.signature,
                ) {
                    undelete_record(&mut r);
                    cleaned = cleaned + 1;
                }
                out.push(GroupChild::Record(r));
            },
            GroupChild::Group(g) => {
                proof {
                    assert(group_records(g).len() <= children_records(old_children).len());
                    assert(old_group.children@[k] == child);
                    assert(decreases_to!(old_group => old_group.children));
                    assert(decreases_to!(old_group.children => old_group.children@));
                    assert(decreases_to!(old_group.children@ => old_group.children@[k]));
                    assert(decreases_to!(old_group => g));
                }
                let (g2, n) = undelete_group(g, ids);
                cleaned = cleaned + n;
                out.push(GroupChild::Group(g2));
            },
        }
        proof {
            assert(out@.drop_last() =~= before);
        }
    }
    assert(old_children.take(old_children.len() as int) =~= old_children);
    (Group { group_type, stamp, unknown, children: out, raw_header, source_offset }, cleaned)
}

/// "Undelete" deleted references in a plugin: every record of its group
/// tree whose FormID is among `deleted_form_ids`, that has the DELETED flag
/// and is a reference, is transformed as [`undeleted`] says. Returns the
/// number of references cleaned; the plugin is marked modified when some
/// were.
pub fn undelete_references(plugin: &mut Plugin, deleted_form_ids: &[FormId]) -> (cleaned: usize)
    requires
        groups_records(old(plugin).groups@).len() <= usize::MAX,
    ensures
        final(plugin).groups@.len() == old(plugin).groups@.len(),
        forall|i: int|
            0 <= i < old(plugin).groups@.len() ==> undeleted_group(
                #[trigger] old(plugin).groups@[i],
                final(plugin).groups@[i],
                deleted_form_ids@,
            ),
        cleaned == to_undelete(groups_records(old(plugin).groups@), deleted_form_ids@).len(),
        final(plugin).modified == (old(plugin).modified || cleaned > 0),
        final(plugin).game_id == old(plugin).game_id,
        final(plugin).file_path == old(plugin).file_path,
        final(plugin).header == old(plugin).header,
        final(plugin).tes3_records == old(plugin).tes3_records,
        final(plugin).masters == old(plugin).masters,
        final(plugin).description == old(plugin).description,
        final(plugin).author == old(plugin).author,
{
    let mut groups: Vec<Group> = Vec::new();
    std::mem::swap(&mut groups, &mut plugin.groups);
    let ghost old_groups = groups@;
    let ghost p = |r: Record| should_undelete(r, deleted_form_ids@);
    let mut new_groups: Vec<Group> = Vec::new();
    let mut cleaned: usize = 0;
    for group in it: groups
        invariant
            it.seq() == old_groups,
            p == (|r: Record| should_undelete(r, deleted_form_ids@)),
            groups_records(old_groups).len() <= usize::MAX,
            new_groups@.len() == it.index(),
            forall|i: int|
                0 <= i < it.index() ==> undeleted_group(
                    #[trigger] old_groups[i],
                    new_groups@[i],
                    deleted_form_ids@,
                ),
            cleaned == groups_records(old_groups.take(it.index() as int)).filter(p).len(),
    {
        let ghost k = it.index() as int;
        let ghost pre = old_groups.take(k);
        proof {
            assert(old_groups.take(k + 1) =~= pre.push(group));
            lemma_groups_records_push(pre, group);
            lemma_groups_records_prefix(old_groups, k + 1);
            Seq::filter_distributes_over_add(groups_records(pre), group_records(group), p);
        }
        let (g2, n) = undelete_group(group, deleted_form_ids);
        cleaned = cleaned + n;
        new_groups.push(g2);
    }
    assert(old_groups.take(old_groups.len() as int) =~= old_groups);
    plugin.groups = new_groups;
    if cleaned > 0 {
        plugin.modified = true;
    }
    cleaned
}

/// The placed-object references REFR, ACHR, ACRE, PGRE, PMIS, PHZD, PARW,
/// PBAR, PBEA, PCON and PFLA, and no other record type, are undeleted: a
/// record whose FormID is listed and that has the DELETED flag is cleaned
/// exactly when its signature is one of these eleven.
pub proof fn lemma_reference_kinds_undeleted(r: Record, ids: Seq<FormId>)
    requires
        in_ids(ids, r.form_id.0),
        r.flags.0 & 0x0000_0020 != 0,
    ensures
        should_undelete(r, ids) <==> {
            ||| r.signature.0 == [0x52u8, 0x45, 0x46, 0x52]
            ||| r.signature.0 == [0x41u8, 0x43, 0x48, 0x52]
            ||| r.signature.0 == [0x41u8, 0x43, 0x52, 0x45]
            ||| r.signature.0 == [0x50u8, 0x47, 0x52, 0x45]
            ||| r.signature.0 == [0x50u8, 0x4D, 0x49, 0x53]
            ||| r.signature.0 == [0x50u8, 0x48, 0x5A, 0x44]
            ||| r.signature.0 == [0x50u8, 0x41, 0x52, 0x57]
            ||| r.signature.0 == [0x50u8, 0x42, 0x41, 0x52]
            ||| r.signature.0 == [0x50u8, 0x42, 0x45, 0x41]
            ||| r.signature.0 == [0x50u8, 0x43, 0x4F, 0x4E]
            ||| r.signature.0 == [0x50u8, 0x46, 0x4C, 0x41]
        },
{
}

/// A deleted placed-object reference (REFR, ACHR, ACRE, PGRE, PMIS, PHZD,
/// PARW, PBAR, PBEA, PCON or PFLA) whose FormID is listed comes out of
/// [`undelete_references`] with the same FormID, DELETED cleared,
/// INITIALLY_DISABLED set, and the underground DATA subrecord last.
pub proof fn lemma_deleted_reference_restored(g: Group, g2: Group, ids: Seq<FormId>, r: Record)
    requires
        g.children@ == seq![GroupChild::Record(r)],
        undeleted_group(g, g2, ids),
        in_ids(ids, r.form_id.0),
        r.flags.0 & 0x0000_0020 != 0,
        ({
            ||| r.signature.0 == [0x52u8, 0x45, 0x46, 0x52]
            ||| r.signature.0 == [0x41u8, 0x43, 0x48, 0x52]
            ||| r.signature.0 == [0x41u8, 0x43, 0x52, 0x45]
            ||| r.signature.0 == [0x50u8, 0x47, 0x52, 0x45]
            ||| r.signature.0 == [0x50u8, 0x4D, 0x49, 0x53]
            ||| r.signature.0 == [0x50u8, 0x48, 0x5A, 0x44]
            ||| r.signature.0 == [0x50u8, 0x41, 0x52, 0x57]
            ||| r.signature.0 == [0x50u8, 0x42, 0x41, 0x52]
            ||| r.signature.0 == [0x50u8, 0x42, 0x45, 0x41]
            ||| r.signature.0 == [0x50u8, 0x43, 0x4F, 0x4E]
            ||| r.signature.0 == [0x50u8, 0x46, 0x4C, 0x41]
        }),
    ensures
        g2.children@.len() == 1,
        g2.children@[0] matches GroupChild::Record(r2) && {
            &&& r2.form_id == r.form_id
            &&& r2.signature == r.signature
            &&& r2.flags.0 & 0x0000_0020 == 0
            &&& r2.flags.0 & 0x0000_0800 != 0
            &&& r2.subrecords@.len() > 0
            &&& r2.subrecords@.last().raw_data@ == undeleted_data()
        },
{
    lemma_reference_kinds_undeleted(r, ids);
    let old_c = g.children@;
    let new_c = g2.children@;
    assert(old_c.drop_last() =~= Seq::<GroupChild>::empty());
    assert(undeleted_children(old_c.drop_last(), new_c.drop_last(), ids));
    assert(new_c.drop_last().len() == 0);
    assert(new_c.len() == 1);
    assert(old_c.last() == GroupChild::Record(r));
    if let GroupChild::Record(r2) = new_c.last() {
        assert(undeleted(r, r2));
        let f = r.flags.0;
        assert(((f & !0x0000_0020u32) | 0x0000_0800u32) & 0x0000_0020 == 0) by (bit_vector);
        assert(((f & !0x0000_0020u32) | 0x0000_0800u32) & 0x0000_0800 != 0) by (bit_vector);
    }
}

} // verus!
