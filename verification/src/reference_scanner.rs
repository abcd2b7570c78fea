//! Object LOD base records: STAT records with the HasDistantLOD flag and
//! their MNAM model paths.

use vstd::prelude::*;

use std::collections::HashMap;

use crate::bytes::{le16, le32, read_u16, read_u32};
use crate::cleaner::first_index_of_sig;
use crate::group::{Group, GroupChild, GroupType};
use crate::plugin::Plugin;
use crate::record::{first_with_sig, lemma_first_with_sig, spec_editor_id, Record};
use crate::signature::Signature;
use crate::subrecord::Subrecord;
use crate::terrain::{is_worldspace, is_worldspace_record, plugin_filename, plugin_filename_of};
use crate::text::{
    chars_of, find_nul, lower_chars, lower_seq, nul_prefix, owned_string, spec_utf8_lossy, utf8_lossy,
};

verus! {

broadcast use vstd::std_specs::hash::group_hash_axioms;

/// A base record that can have object LOD.
#[derive(Debug, Clone)]
pub struct ObjectBaseInfo {
    pub form_id: u32,
    pub editor_id: String,
    /// LOD mesh paths from MNAM (up to 4 levels).
    pub lod_models: Vec<String>,
    /// Has distant LOD flag.
    pub has_distant_lod: bool,
    /// Has tree LOD flag (for 3D tree LOD fallback).
    pub has_tree_lod: bool,
}

/// The signature `STAT`.
pub open spec fn stat_sig() -> Signature {
    Signature([0x53, 0x54, 0x41, 0x54])
}

/// The signature `MNAM`.
pub open spec fn mnam_sig() -> Signature {
    Signature([0x4D, 0x4E, 0x41, 0x4D])
}

/// Whether a record is an object LOD base: not deleted, with the
/// HasDistantLOD flag (0x8000) and at least one LOD model (see
/// [`mnam_models`]).
pub open spec fn is_object_base(r: Record) -> bool {
    r.flags.0 & 0x0000_0020 == 0 && r.flags.0 & 0x0000_8000 != 0 && mnam_models(r.subrecords@).len()
        > 0
}

/// The records among a sequence of group children (not those of nested
/// groups), in order.
pub open spec fn direct_records(s: Seq<GroupChild>) -> Seq<Record>
    decreases s.len(),
{
    if s.len() == 0 {
        seq![]
    } else {
        let prev = direct_records(s.drop_last());
        match s.last() {
            GroupChild::Record(r) => if is_object_base(r) {
                prev.push(r)
            } else {
                prev
            },
            GroupChild::Group(_) => prev,
        }
    }
}

/// The object LOD bases of a top-level group: its direct records when it
/// is the STAT group.
pub open spec fn group_bases(g: Group) -> Seq<Record> {
    if g.group_type == GroupType::Top(stat_sig()) {
        direct_records(g.children@)
    } else {
        seq![]
    }
}

/// The object LOD bases of a sequence of top-level groups.
pub open spec fn groups_bases(gs: Seq<Group>) -> Seq<Record>
    decreases gs.len(),
{
    if gs.len() == 0 {
        seq![]
    } else {
        groups_bases(gs.drop_last()) + group_bases(gs.last())
    }
}

/// The object LOD bases of a list of plugins, in order.
pub open spec fn plugins_bases(ps: Seq<Plugin>) -> Seq<Record>
    decreases ps.len(),
{
    if ps.len() == 0 {
        seq![]
    } else {
        plugins_bases(ps.drop_last()) + groups_bases(ps.last().groups@)
    }
}

/// The model paths of the MNAM subrecords of `subs`: each one's bytes up
/// to the first zero byte, decoded lossily; empty ones are skipped.
pub open spec fn mnam_models(subs: Seq<Subrecord>) -> Seq<Seq<char>>
    decreases subs.len(),
{
    if subs.len() == 0 {
        seq![]
    } else {
        let prev = mnam_models(subs.drop_last());
        let s = subs.last();
        let m = spec_utf8_lossy(nul_prefix(s.raw_data@));
        if s.signature == mnam_sig() && m.len() > 0 {
            prev.push(m)
        } else {
            prev
        }
    }
}

/// `info` describes the base record `r`.
pub open spec fn info_matches(info: ObjectBaseInfo, r: Record) -> bool {
    &&& info.form_id == r.form_id.0
    &&& info.editor_id@ == match spec_editor_id(r.subrecords@) {
        Some(e) => e,
        None => seq![],
    }
    &&& info.lod_models@.map_values(|s: String| s@) == mnam_models(r.subrecords@)
    &&& info.has_distant_lod == (r.flags.0 & 0x0000_8000 != 0)
    &&& info.has_tree_lod == (r.flags.0 & 0x0000_0040 != 0)
}

/// The index of the last record of `q` with FormID `id`.
pub open spec fn last_with_id(q: Seq<Record>, id: u32) -> Option<int>
    decreases q.len(),
{
    if q.len() == 0 {
        None
    } else if q.last().form_id.0 == id {
        Some(q.len() - 1)
    } else {
        last_with_id(q.drop_last(), id)
    }
}

/// `m` maps each FormID of the records `q` to the last of them with it.
pub open spec fn map_of_bases(m: Map<u32, ObjectBaseInfo>, q: Seq<Record>) -> bool {
    forall|id: u32|
        match #[trigger] last_with_id(q, id) {
            Some(i) => 0 <= i < q.len() && m.contains_key(id) && info_matches(m[id], q[i]),
            None => !m.contains_key(id),
        }
}

/// The MNAM model paths of a record (see [`mnam_models`]).
fn extract_mnam_models(record: &Record) -> (v: Vec<String>)
    ensures
        v@.map_values(|s: String| s@) == mnam_models(record.subrecords@),
{
    let mnam = Signature([0x4D, 0x4E, 0x41, 0x4D]);
    let mut models: Vec<String> = Vec::new();
    let mut i: usize = 0;
    while i < record.subrecords.len()
        invariant
            i <= record.subrecords@.len(),
            mnam == mnam_sig(),
            models@.map_values(|s: String| s@) == mnam_models(record.subrecords@.take(i as int)),
        decreases record.subrecords.len() - i,
    {
        let sr = &record.subrecords[i];
        assert(record.subrecords@.take(i + 1).drop_last() =~= record.subrecords@.take(i as int));
        if sr.signature == mnam {
            let n = find_nul(sr.raw_data.as_slice());
            let prefix = vstd::slice::slice_subrange(sr.raw_data.as_slice(), 0, n);
            assert(prefix@ == nul_prefix(sr.raw_data@));
            let s = utf8_lossy(prefix);
            if !s.as_str().is_empty() {
                let ghost before = models@;
                models.push(s);
                assert(models@.map_values(|s: String| s@) =~= before.map_values(|s: String| s@).push(
                    s@,
                ));
            }
        }
        i = i + 1;
    }
    assert(record.subrecords@.take(i as int) =~= record.subrecords@);
    models
}

/// The description of an object LOD base record.
fn base_info(record: &Record) -> (info: ObjectBaseInfo)
    ensures
        info_matches(info, *record),
{
    let editor_id = match record.editor_id() {
        Some(e) => owned_string(e),
        None => String::new(),
    };
    ObjectBaseInfo {
        form_id: record.form_id.raw(),
        editor_id,
        lod_models: extract_mnam_models(record),
        has_distant_lod: record.flags.0 & 0x0000_8000 != 0,
        has_tree_lod: record.flags.0 & 0x0000_0040 != 0,
    }
}

/// Recording one more base record keeps the map describing them.
proof fn lemma_insert_base(m: Map<u32, ObjectBaseInfo>, q: Seq<Record>, r: Record, info: ObjectBaseInfo)
    requires
        map_of_bases(m, q),
        info_matches(info, r),
    ensures
        map_of_bases(m.insert(r.form_id.0, info), q.push(r)),
{
    let q2 = q.push(r);
    assert(q2.drop_last() =~= q);
    assert forall|id: u32| match #[trigger] last_with_id(q2, id) {
        Some(i) => 0 <= i < q2.len() && m.insert(r.form_id.0, info).contains_key(id) && info_matches(
            m.insert(r.form_id.0, info)[id],
            q2[i],
        ),
        None => !m.insert(r.form_id.0, info).contains_key(id),
    } by {
        if id != r.form_id.0 {
            assert(last_with_id(q2, id) == last_with_id(q, id));
            match last_with_id(q, id) {
                Some(i) => {
                    assert(q2[i] == q[i]);
                },
                None => {},
            }
        }
    }
}

/// Scan a list of plugins for object base records with LOD models: the
/// non-deleted records with the HasDistantLOD flag and at least one
/// non-empty MNAM model path directly in each
/// plugin's top-level STAT group, keyed by FormID (a later record
/// replaces an earlier one with the same FormID).
pub fn scan_object_bases(plugins: &[Plugin]) -> (result: HashMap<u32, ObjectBaseInfo>)
    ensures
        map_of_bases(result@, plugins_bases(plugins@)),
{
    let mut result: HashMap<u32, ObjectBaseInfo> = HashMap::new();
    let ghost mut q: Seq<Record> = seq![];
    let stat = Signature::STAT();
    let mut pi: usize = 0;
    while pi < plugins.len()
        invariant
            pi <= plugins@.len(),
            stat == stat_sig(),
            q == plugins_bases(plugins@.take(pi as int)),
            map_of_bases(result@, q),
        decreases plugins.len() - pi,
    {
        let plugin = &plugins[pi];
        assert(plugins@.take(pi + 1).drop_last() =~= plugins@.take(pi as int));
        let ghost q0 = q;
        let mut gi: usize = 0;
        while gi < plugin.groups.len()
            invariant
                gi <= plugin.groups@.len(),
                stat == stat_sig(),
                q == q0 + groups_bases(plugin.groups@.take(gi as int)),
                map_of_bases(result@, q),
            decreases plugin.groups.len() - gi,
        {
            let group = &plugin.groups[gi];
            assert(plugin.groups@.take(gi + 1).drop_last() =~= plugin.groups@.take(gi as int));
            let ghost q1 = q;
            let is_stat = match &group.group_type {
                GroupType::Top(sig) => *sig == stat,
                _ => false,
            };
            if is_stat {
                let mut ci: usize = 0;
                while ci < group.children.len()
                    invariant
                        ci <= group.children@.len(),
                        group.group_type == GroupType::Top(stat_sig()),
                        q == q1 + direct_records(group.children@.take(ci as int)),
                        map_of_bases(result@, q),
                    decreases group.children.len() - ci,
                {
                    assert(group.children@.take(ci + 1).drop_last() =~= group.children@.take(
                        ci as int,
                    ));
                    if let GroupChild::Record(record) = &group.children[ci] {
                        if !record.flags.is_deleted() && record.flags.0 & 0x0000_8000 != 0 {
                            let info = base_info(record);
                            if info.lod_models.len() > 0 {
                                let form_id = record.form_id.raw();
                                proof {
                                    lemma_insert_base(result@, q, *record, info);
                                    q = q.push(*record);
                                }
                                result.insert(form_id, info);
                            }
                        }
                    }
                    ci = ci + 1;
                }
                assert(group.children@.take(ci as int) =~= group.children@);
            }
            gi = gi + 1;
        }
        assert(plugin.groups@.take(gi as int) =~= plugin.groups@);
        pi = pi + 1;
    }
    assert(plugins@.take(pi as int) =~= plugins@);
    result
}

// ---------------------------------------------------------------------------
// Tree LOD bases
// ---------------------------------------------------------------------------
/// A base record that can have tree LOD.
#[derive(Debug, Clone)]
pub struct TreeBaseInfo {
    /// FormID of the base record.
    pub form_id: u32,
    /// Editor ID.
    pub editor_id: String,
    /// Model path (MODL subrecord).
    pub model_path: String,
    /// Source plugin filename.
    pub plugin_filename: String,
    /// Object bounds (X1, Y1, Z1, X2, Y2, Z2) from OBND.
    pub bounds: Option<[i16; 6]>,
    /// Width from OBND (X2 - X1); zero without bounds.
    pub width: i32,
    /// Height from OBND (Z2 - Z1); zero without bounds.
    pub height: i32,
}

/// The signature `ACTI`.
pub open spec fn acti_sig() -> Signature {
    Signature([0x41, 0x43, 0x54, 0x49])
}

/// The signature `TREE`.
pub open spec fn tree_sig() -> Signature {
    Signature([0x54, 0x52, 0x45, 0x45])
}

/// The signature `MODL`.
pub open spec fn modl_sig() -> Signature {
    Signature([0x4D, 0x4F, 0x44, 0x4C])
}

/// The signature `OBND`.
pub open spec fn obnd_sig() -> Signature {
    Signature([0x4F, 0x42, 0x4E, 0x44])
}

/// Whether a record is a tree LOD base: with the HasTreeLOD flag (0x0040)
/// and not deleted.
pub open spec fn is_tree_base(r: Record) -> bool {
    r.flags.0 & 0x0000_0040 != 0 && r.flags.0 & 0x0000_0020 == 0
}

/// Whether a top-level group holds tree LOD bases: the STAT, ACTI and TREE
/// groups.
pub open spec fn is_tree_group(t: GroupType) -> bool {
    ||| t == GroupType::Top(stat_sig())
    ||| t == GroupType::Top(acti_sig())
    ||| t == GroupType::Top(tree_sig())
}

/// The tree LOD bases among a sequence of group children (not those of
/// nested groups), in order.
pub open spec fn tree_records(s: Seq<GroupChild>) -> Seq<Record>
    decreases s.len(),
{
    if s.len() == 0 {
        seq![]
    } else {
        let prev = tree_records(s.drop_last());
        match s.last() {
            GroupChild::Record(r) => if is_tree_base(r) {
                prev.push(r)
            } else {
                prev
            },
            GroupChild::Group(_) => prev,
        }
    }
}

/// The tree LOD bases of a sequence of top-level groups.
pub open spec fn groups_tree_bases(gs: Seq<Group>) -> Seq<Record>
    decreases gs.len(),
{
    if gs.len() == 0 {
        seq![]
    } else {
        groups_tree_bases(gs.drop_last()) + if is_tree_group(gs.last().group_type) {
            tree_records(gs.last().children@)
        } else {
            seq![]
        }
    }
}

/// Records, each paired with the file name `n`.
pub open spec fn with_name(rs: Seq<Record>, n: Seq<char>) -> Seq<(Record, Seq<char>)> {
    rs.map_values(|r: Record| (r, n))
}

/// The tree LOD bases of a list of plugins, each with its plugin's file
/// name, in order.
pub open spec fn plugins_tree_bases(ps: Seq<Plugin>) -> Seq<(Record, Seq<char>)>
    decreases ps.len(),
{
    if ps.len() == 0 {
        seq![]
    } else {
        plugins_tree_bases(ps.drop_last()) + with_name(
            groups_tree_bases(ps.last().groups@),
            plugin_filename(ps.last()),
        )
    }
}

/// The model path of a record: the first MODL subrecord's bytes up to the
/// first zero byte, decoded lossily (empty without MODL).
pub open spec fn model_path(subs: Seq<Subrecord>) -> Seq<char> {
    match first_with_sig(subs, modl_sig()) {
        Some(i) => spec_utf8_lossy(nul_prefix(subs[i].raw_data@)),
        None => seq![],
    }
}

/// The object bounds of a record: six little-endian `i16` from the first
/// OBND subrecord, when it has at least 12 bytes.
pub open spec fn obnd_bounds(subs: Seq<Subrecord>) -> Option<Seq<i16>> {
    match first_with_sig(subs, obnd_sig()) {
        Some(i) => {
            let d = subs[i].raw_data@;
            if d.len() >= 12 {
                Some(Seq::new(6, |k: int| (le16(d, 2 * k) as u16) as i16))
            } else {
                None
            }
        },
        None => None,
    }
}

/// `info` describes the tree base record `r` of the plugin named `fname`.
pub open spec fn tree_info_matches(info: TreeBaseInfo, r: Record, fname: Seq<char>) -> bool {
    &&& info.form_id == r.form_id.0
    &&& info.editor_id@ == match spec_editor_id(r.subrecords@) {
        Some(e) => e,
        None => seq![],
    }
    &&& info.model_path@ == model_path(r.subrecords@)
    &&& info.plugin_filename@ == fname
    &&& match obnd_bounds(r.subrecords@) {
        Some(b) => info.bounds matches Some(a) && a@ == b && info.width == b[3] - b[0]
            && info.height == b[5] - b[2],
        None => info.bounds is None && info.width == 0 && info.height == 0,
    }
}

/// The index of the last entry of `q` whose record has FormID `id`.
pub open spec fn last_tree_with_id(q: Seq<(Record, Seq<char>)>, id: u32) -> Option<int>
    decreases q.len(),
{
    if q.len() == 0 {
        None
    } else if q.last().0.form_id.0 == id {
        Some(q.len() - 1)
    } else {
        last_tree_with_id(q.drop_last(), id)
    }
}

/// `m` maps each FormID of the records of `q` to the last of them with it.
pub open spec fn map_of_tree_bases(m: Map<u32, TreeBaseInfo>, q: Seq<(Record, Seq<char>)>) -> bool {
    forall|id: u32|
        match #[trigger] last_tree_with_id(q, id) {
            Some(i) => 0 <= i < q.len() && m.contains_key(id) && tree_info_matches(
                m[id],
                q[i].0,
                q[i].1,
            ),
            None => !m.contains_key(id),
        }
}

/// The model path of a record (see [`model_path`]).
fn extract_model_path(record: &Record) -> (s: String)
    ensures
        s@ == model_path(record.subrecords@),
{
    proof {
        lemma_first_with_sig(record.subrecords@, modl_sig());
    }
    match first_index_of_sig(&record.subrecords, Signature([0x4D, 0x4F, 0x44, 0x4C])) {
        Some(i) => {
            let d = record.subrecords[i].raw_data.as_slice();
            let n = find_nul(d);
            let prefix = vstd::slice::slice_subrange(d, 0, n);
            assert(prefix@ == nul_prefix(d@));
            utf8_lossy(prefix)
        },
        None => String::new(),
    }
}

/// The object bounds of a record (see [`obnd_bounds`]).
fn extract_obnd(record: &Record) -> (b: Option<[i16; 6]>)
    ensures
        match obnd_bounds(record.subrecords@) {
            Some(s) => b matches Some(a) && a@ == s,
            None => b is None,
        },
{
    proof {
        lemma_first_with_sig(record.subrecords@, obnd_sig());
    }
    match first_index_of_sig(&record.subrecords, Signature([0x4F, 0x42, 0x4E, 0x44])) {
        Some(i) => {
            let d = record.subrecords[i].raw_data.as_slice();
            if d.len() < 12 {
                return None;
            }
            let a: [i16; 6] = [
                #[verifier::truncate] (read_u16(d, 0) as i16),
                #[verifier::truncate] (read_u16(d, 2) as i16),
                #[verifier::truncate] (read_u16(d, 4) as i16),
                #[verifier::truncate] (read_u16(d, 6) as i16),
                #[verifier::truncate] (read_u16(d, 8) as i16),
                #[verifier::truncate] (read_u16(d, 10) as i16),
            ];
            proof {
                let ghost s = Seq::new(6, |k: int| (le16(d@, 2 * k) as u16) as i16);
                assert(a@ =~= s);
            }
            Some(a)
        },
        None => None,
    }
}

/// The description of a tree base record of the plugin named `fname`.
fn tree_info(record: &Record, fname: &String) -> (info: TreeBaseInfo)
    ensures
        tree_info_matches(info, *record, fname@),
{
    let editor_id = match record.editor_id() {
        Some(e) => owned_string(e),
        None => String::new(),
    };
    let bounds = extract_obnd(record);
    let (width, height) = match &bounds {
        Some(b) => ((b[3] as i32) - (b[0] as i32), (b[5] as i32) - (b[2] as i32)),
        None => (0, 0),
    };
    TreeBaseInfo {
        form_id: record.form_id.raw(),
        editor_id,
        model_path: extract_model_path(record),
        plugin_filename: fname.clone(),
        bounds,
        width,
        height,
    }
}

/// Recording one more tree base keeps the map describing them.
proof fn lemma_insert_tree(
    m: Map<u32, TreeBaseInfo>,
    q: Seq<(Record, Seq<char>)>,
    r: Record,
    n: Seq<char>,
    info: TreeBaseInfo,
)
    requires
        map_of_tree_bases(m, q),
        tree_info_matches(info, r, n),
    ensures
        map_of_tree_bases(m.insert(r.form_id.0, info), q.push((r, n))),
{
    let q2 = q.push((r, n));
    assert(q2.drop_last() =~= q);
    assert forall|id: u32| match #[trigger] last_tree_with_id(q2, id) {
        Some(i) => 0 <= i < q2.len() && m.insert(r.form_id.0, info).contains_key(id)
            && tree_info_matches(m.insert(r.form_id.0, info)[id], q2[i].0, q2[i].1),
        None => !m.insert(r.form_id.0, info).contains_key(id),
    } by {
        if id != r.form_id.0 {
            assert(last_tree_with_id(q2, id) == last_tree_with_id(q, id));
            match last_tree_with_id(q, id) {
                Some(i) => {
                    assert(q2[i] == q[i]);
                },
                None => {},
            }
        }
    }
}

/// Scan a list of plugins for tree base records: the records with the
/// HasTreeLOD flag that are not deleted, directly in each plugin's
/// top-level STAT, ACTI and TREE groups, keyed by FormID (a later record
/// replaces an earlier one with the same FormID), each with its plugin's
/// file name.
pub fn scan_tree_bases(plugins: &[Plugin]) -> (result: HashMap<u32, TreeBaseInfo>)
    ensures
        map_of_tree_bases(result@, plugins_tree_bases(plugins@)),
{
    let mut result: HashMap<u32, TreeBaseInfo> = HashMap::new();
    let ghost mut q: Seq<(Record, Seq<char>)> = seq![];
    let mut pi: usize = 0;
    while pi < plugins.len()
        invariant
            pi <= plugins@.len(),
            q == plugins_tree_bases(plugins@.take(pi as int)),
            map_of_tree_bases(result@, q),
        decreases plugins.len() - pi,
    {
        let plugin = &plugins[pi];
        assert(plugins@.take(pi + 1).drop_last() =~= plugins@.take(pi as int));
        let filename = plugin_filename_of(plugin);
        let ghost q0 = q;
        let mut gi: usize = 0;
        while gi < plugin.groups.len()
            invariant
                gi <= plugin.groups@.len(),
                filename@ == plugin_filename(*plugin),
                q == q0 + with_name(groups_tree_bases(plugin.groups@.take(gi as int)), filename@),
                map_of_tree_bases(result@, q),
            decreases plugin.groups.len() - gi,
        {
            let group = &plugin.groups[gi];
            assert(plugin.groups@.take(gi + 1).drop_last() =~= plugin.groups@.take(gi as int));
            let ghost q1 = q;
            let ghost before = groups_tree_bases(plugin.groups@.take(gi as int));
            let wanted = match &group.group_type {
                GroupType::Top(sig) => *sig == Signature([0x53, 0x54, 0x41, 0x54]) || *sig == Signature(
                    [0x41, 0x43, 0x54, 0x49],
                ) || *sig == Signature([0x54, 0x52, 0x45, 0x45]),
                _ => false,
            };
            if wanted {
                let mut ci: usize = 0;
                while ci < group.children.len()
                    invariant
                        ci <= group.children@.len(),
                        is_tree_group(group.group_type),
                        filename@ == plugin_filename(*plugin),
                        q == q1 + with_name(tree_records(group.children@.take(ci as int)), filename@),
                        map_of_tree_bases(result@, q),
                    decreases group.children.len() - ci,
                {
                    assert(group.children@.take(ci + 1).drop_last() =~= group.children@.take(
                        ci as int,
                    ));
                    if let GroupChild::Record(record) = &group.children[ci] {
                        if record.flags.0 & 0x0000_0040 != 0 && !record.flags.is_deleted() {
                            let info = tree_info(record, &filename);
                            let form_id = record.form_id.raw();
                            proof {
                                lemma_insert_tree(result@, q, *record, filename@, info);
                                assert(with_name(
                                    tree_records(group.children@.take(ci + 1)),
                                    filename@,
                                ) =~= with_name(
                                    tree_records(group.children@.take(ci as int)),
                                    filename@,
                                ).push((*record, filename@)));
                                q = q.push((*record, filename@));
                            }
                            result.insert(form_id, info);
                        } else {
                            assert(with_name(tree_records(group.children@.take(ci + 1)), filename@)
                                =~= with_name(tree_records(group.children@.take(ci as int)), filename@));
                        }
                    } else {
                        assert(with_name(tree_records(group.children@.take(ci + 1)), filename@)
                            =~= with_name(tree_records(group.children@.take(ci as int)), filename@));
                    }
                    ci = ci + 1;
                }
                assert(group.children@.take(ci as int) =~= group.children@);
                assert(with_name(groups_tree_bases(plugin.groups@.take(gi + 1)), filename@) =~= with_name(
                    before,
                    filename@,
                ) + with_name(tree_records(group.children@), filename@));
            } else {
                assert(with_name(groups_tree_bases(plugin.groups@.take(gi + 1)), filename@) =~= with_name(
                    before,
                    filename@,
                ));
            }
            gi = gi + 1;
        }
        assert(plugin.groups@.take(gi as int) =~= plugin.groups@);
        pi = pi + 1;
    }
    assert(plugins@.take(pi as int) =~= plugins@);
    result
}

// ---------------------------------------------------------------------------
// Placed references of a worldspace
// ---------------------------------------------------------------------------
/// A placed reference (REFR) in a worldspace. Positions, rotations and the
/// scale are held as the record stores them: IEEE-754 `f32` bit patterns,
/// rotations in radians.
#[derive(Debug, Clone)]
pub struct RefInfo {
    /// FormID of the REFR record.
    pub ref_form_id: u32,
    /// FormID of the base object (NAME subrecord).
    pub base_form_id: u32,
    /// World position (X, Y, Z) from the DATA subrecord (`f32` bits).
    pub position: [u32; 3],
    /// Rotation (X, Y, Z) in radians from the DATA subrecord (`f32` bits).
    pub rotation: [u32; 3],
    /// Scale from the XSCL subrecord (`f32` bits; 1.0 when absent).
    pub scale: u32,
    /// Whether the REFR is initially disabled (flag 0x0800).
    pub is_disabled: bool,
    /// Whether the REFR is deleted (flag 0x0020).
    pub is_deleted: bool,
    /// Whether the REFR has an enable parent (XESP).
    pub has_enable_parent: bool,
    /// Whether the REFR is persistent (flag 0x0400).
    pub is_persistent: bool,
}

/// The bits of the `f32` value 1.0.
pub const ONE_F32_BITS: u32 = 0x3F80_0000;

/// The signature `NAME`.
pub open spec fn name_sig() -> Signature {
    Signature([0x4E, 0x41, 0x4D, 0x45])
}

/// The signature `DATA`.
pub open spec fn data_sig() -> Signature {
    Signature([0x44, 0x41, 0x54, 0x41])
}

/// The signature `XSCL`.
pub open spec fn xscl_sig() -> Signature {
    Signature([0x58, 0x53, 0x43, 0x4C])
}

/// The signature `XESP`.
pub open spec fn xesp_sig() -> Signature {
    Signature([0x58, 0x45, 0x53, 0x50])
}

/// The signature `REFR`.
pub open spec fn refr_sig() -> Signature {
    Signature([0x52, 0x45, 0x46, 0x52])
}

/// The signature `WRLD`.
pub open spec fn wrld_sig() -> Signature {
    Signature([0x57, 0x52, 0x4C, 0x44])
}

/// Whether a REFR record can be read: its first NAME subrecord has at least
/// 4 bytes and its first DATA subrecord at least 24.
pub open spec fn refr_readable(subs: Seq<Subrecord>) -> bool {
    &&& first_with_sig(subs, name_sig()) matches Some(i) && subs[i].raw_data@.len() >= 4
    &&& first_with_sig(subs, data_sig()) matches Some(j) && subs[j].raw_data@.len() >= 24
}

/// The scale of a reference: the first XSCL subrecord's value when it has
/// 4 bytes, else 1.0.
pub open spec fn ref_scale(subs: Seq<Subrecord>) -> u32 {
    match first_with_sig(subs, xscl_sig()) {
        Some(i) => if subs[i].raw_data@.len() >= 4 {
            le32(subs[i].raw_data@, 0) as u32
        } else {
            ONE_F32_BITS
        },
        None => ONE_F32_BITS,
    }
}

/// `info` describes the readable REFR record `r`: base FormID from NAME,
/// position and rotation from DATA (six little-endian `f32`), scale (see
/// [`ref_scale`]), enable parent when any XESP subrecord is present, and
/// the flags.
pub open spec fn ref_matches(info: RefInfo, r: Record) -> bool {
    let subs = r.subrecords@;
    let n = subs[first_with_sig(subs, name_sig())->0].raw_data@;
    let d = subs[first_with_sig(subs, data_sig())->0].raw_data@;
    &&& info.ref_form_id == r.form_id.0
    &&& info.base_form_id == le32(n, 0) as u32
    &&& info.position@ == seq![le32(d, 0) as u32, le32(d, 4) as u32, le32(d, 8) as u32]
    &&& info.rotation@ == seq![le32(d, 12) as u32, le32(d, 16) as u32, le32(d, 20) as u32]
    &&& info.scale == ref_scale(subs)
    &&& info.is_disabled == (r.flags.0 & 0x0000_0800 != 0)
    &&& info.is_deleted == (r.flags.0 & 0x0000_0020 != 0)
    &&& info.has_enable_parent == exists|i: int| 0 <= i < subs.len() && subs[i].signature == xesp_sig()
    &&& info.is_persistent == (r.flags.0 & 0x0000_0400 != 0)
}

/// `v` describes, in order, the records `q`.
pub open spec fn refs_match(v: Seq<RefInfo>, q: Seq<Record>) -> bool {
    &&& v.len() == q.len()
    &&& forall|i: int| 0 <= i < v.len() ==> ref_matches(#[trigger] v[i], q[i])
}

/// The record of `r` as a reference, when it is a readable REFR.
pub open spec fn ref_record(r: Record) -> Seq<Record> {
    if r.signature == refr_sig() && refr_readable(r.subrecords@) {
        seq![r]
    } else {
        seq![]
    }
}

/// The readable REFR records below a world children group's children `s`,
/// at any depth, in order.
pub open spec fn children_refs(s: Seq<GroupChild>) -> Seq<Record>
    decreases s,
{
    if s.len() == 0 {
        seq![]
    } else {
        let rest = children_refs(s.drop_first());
        match s[0] {
            GroupChild::Record(r) => ref_record(r) + rest,
            GroupChild::Group(g) => group_refs(g) + rest,
        }
    }
}

/// The readable REFR records below a group, at any depth, in order.
pub open spec fn group_refs(g: Group) -> Seq<Record>
    decreases g,
{
    children_refs(g.children@)
}

/// The references of worldspace `ws` among the children `s` of a WRLD
/// group, in state `st` (whether the worldspace was met, and the FormID of
/// its record): a WRLD record whose Editor ID equals `ws` ignoring ASCII
/// case starts reading; while reading, readable REFR records are taken;
/// the world children group of the worldspace (or any, once it was met) is
/// read whole; other groups are scanned as WRLD groups of their own.
pub open spec fn wrld_refs(s: Seq<GroupChild>, ws: Seq<char>, st: (bool, Option<u32>)) -> Seq<Record>
    decreases s,
{
    if s.len() == 0 {
        seq![]
    } else {
        let rest = s.drop_first();
        match s[0] {
            GroupChild::Record(r) => if r.signature == wrld_sig() {
                wrld_refs(
                    rest,
                    ws,
                    if is_worldspace(r, ws) {
                        (true, Some(r.form_id.0))
                    } else {
                        st
                    },
                )
            } else if r.signature == refr_sig() && st.0 {
                ref_record(r) + wrld_refs(rest, ws, st)
            } else {
                wrld_refs(rest, ws, st)
            },
            GroupChild::Group(g) => match g.group_type {
                GroupType::WorldChildren(fid) => if st.1 == Some(fid) || st.0 {
                    group_refs(g) + wrld_refs(rest, ws, st)
                } else {
                    wrld_refs(rest, ws, st)
                },
                _ => wrld_group_refs(g, ws) + wrld_refs(rest, ws, st),
            },
        }
    }
}

/// The references of worldspace `ws` in a WRLD group (see [`wrld_refs`]).
pub open spec fn wrld_group_refs(g: Group, ws: Seq<char>) -> Seq<Record>
    decreases g,
{
    wrld_refs(g.children@, ws, (false, None))
}

/// The references of worldspace `ws` in a sequence of top-level groups:
/// those of each WRLD group.
pub open spec fn groups_refs(gs: Seq<Group>, ws: Seq<char>) -> Seq<Record>
    decreases gs.len(),
{
    if gs.len() == 0 {
        seq![]
    } else {
        groups_refs(gs.drop_last(), ws) + if gs.last().group_type == GroupType::Top(wrld_sig()) {
            wrld_group_refs(gs.last(), ws)
        } else {
            seq![]
        }
    }
}

/// The references of worldspace `ws` in a list of plugins, in order.
pub open spec fn plugins_refs(ps: Seq<Plugin>, ws: Seq<char>) -> Seq<Record>
    decreases ps.len(),
{
    if ps.len() == 0 {
        seq![]
    } else {
        plugins_refs(ps.drop_last(), ws) + groups_refs(ps.last().groups@, ws)
    }
}

/// Read a REFR record (see [`ref_matches`]); `None` when it is not
/// readable.
fn parse_refr(record: &Record) -> (r: Option<RefInfo>)
    ensures
        match r {
            Some(info) => refr_readable(record.subrecords@) && ref_matches(info, *record),
            None => !refr_readable(record.subrecords@),
        },
{
    let subs = &record.subrecords;
    proof {
        lemma_first_with_sig(subs@, name_sig());
        lemma_first_with_sig(subs@, data_sig());
        lemma_first_with_sig(subs@, xscl_sig());
    }
    let ni = match first_index_of_sig(subs, Signature([0x4E, 0x41, 0x4D, 0x45])) {
        Some(i) => i,
        None => return None,
    };
    let n = subs[ni].raw_data.as_slice();
    if n.len() < 4 {
        return None;
    }
    let base_form_id = read_u32(n, 0);
    let di = match first_index_of_sig(subs, Signature([0x44, 0x41, 0x54, 0x41])) {
        Some(i) => i,
        None => return None,
    };
    let d = subs[di].raw_data.as_slice();
    if d.len() < 24 {
        return None;
    }
    let position: [u32; 3] = [read_u32(d, 0), read_u32(d, 4), read_u32(d, 8)];
    let rotation: [u32; 3] = [read_u32(d, 12), read_u32(d, 16), read_u32(d, 20)];
    assert(position@ =~= seq![le32(d@, 0) as u32, le32(d@, 4) as u32, le32(d@, 8) as u32]);
    assert(rotation@ =~= seq![le32(d@, 12) as u32, le32(d@, 16) as u32, le32(d@, 20) as u32]);
    let scale = match first_index_of_sig(subs, Signature([0x58, 0x53, 0x43, 0x4C])) {
        Some(i) => {
            let x = subs[i].raw_data.as_slice();
            if x.len() >= 4 {
                read_u32(x, 0)
            } else {
                ONE_F32_BITS
            }
        },
        None => ONE_F32_BITS,
    };
    let mut has_enable_parent = false;
    let mut k: usize = 0;
    while k < subs.len()
        invariant
            k <= subs@.len(),
            has_enable_parent == exists|j: int| 0 <= j < k && subs@[j].signature == xesp_sig(),
        decreases subs.len() - k,
    {
        if subs[k].signature == Signature([0x58, 0x45, 0x53, 0x50]) {
            has_enable_parent = true;
        }
        k = k + 1;
    }
    Some(
        RefInfo {
            ref_form_id: record.form_id.raw(),
            base_form_id,
            position,
            rotation,
            scale,
            is_disabled: record.flags.0 & 0x0000_0800 != 0,
            is_deleted: record.flags.is_deleted(),
            has_enable_parent,
            is_persistent: record.flags.0 & 0x0000_0400 != 0,
        },
    )
}

/// `after` is `before` followed by the descriptions of the records `q`.
pub open spec fn appended(before: Seq<RefInfo>, after: Seq<RefInfo>, q: Seq<Record>) -> bool {
    &&& after.len() == before.len() + q.len()
    &&& after.take(before.len() as int) == before
    &&& refs_match(after.skip(before.len() as int), q)
}

/// Append the reference a record gives (see [`ref_record`]).
fn push_ref(record: &Record, refs: &mut Vec<RefInfo>)
    ensures
        appended(old(refs)@, final(refs)@, ref_record(*record)),
{
    let ghost q = ref_record(*record);
    if record.signature == Signature([0x52, 0x45, 0x46, 0x52]) {
        match parse_refr(record) {
            Some(info) => {
                refs.push(info);
                assert(refs@.take(old(refs)@.len() as int) =~= old(refs)@);
                assert(refs@.skip(old(refs)@.len() as int) =~= seq![info]);
            },
            None => {
                assert(refs@.take(old(refs)@.len() as int) =~= old(refs)@);
                assert(refs@.skip(old(refs)@.len() as int) =~= Seq::<RefInfo>::empty());
            },
        }
    } else {
        assert(refs@.take(old(refs)@.len() as int) =~= old(refs)@);
        assert(refs@.skip(old(refs)@.len() as int) =~= Seq::<RefInfo>::empty());
    }
}

/// Appending in two steps appends the records of both.
proof fn lemma_appended_trans(a: Seq<RefInfo>, b: Seq<RefInfo>, c: Seq<RefInfo>, q1: Seq<Record>, q2: Seq<Record>)
    requires
        appended(a, b, q1),
        appended(b, c, q2),
    ensures
        appended(a, c, q1 + q2),
{
    assert(c.take(a.len() as int) =~= a) by {
        assert forall|i: int| 0 <= i < a.len() implies c.take(a.len() as int)[i] == a[i] by {
            assert(c.take(b.len() as int)[i] == b[i]);
            assert(b.take(a.len() as int)[i] == a[i]);
        }
    }
    let t = c.skip(a.len() as int);
    let q = q1 + q2;
    assert forall|i: int| 0 <= i < t.len() implies ref_matches(#[trigger] t[i], q[i]) by {
        if i < q1.len() {
            assert(c.take(b.len() as int)[a.len() + i] == b[a.len() + i]);
            assert(b.skip(a.len() as int)[i] == b[a.len() + i]);
        } else {
            assert(c.skip(b.len() as int)[i - q1.len()] == c[a.len() + i]);
        }
    }
}

/// The state of a WRLD group scan: whether the worldspace was met, and the
/// FormID of its record.
type ScanState = (bool, Option<u32>);

/// Collect the references below a group, at any depth (see [`group_refs`]).
fn scan_world_children(group: &Group, refs: &mut Vec<RefInfo>)
    ensures
        appended(old(refs)@, final(refs)@, group_refs(*group)),
    decreases group,
{
    let ghost s = group.children@;
    let ghost mut done: Seq<Record> = seq![];
    let mut i: usize = 0;
    assert(s.skip(0) =~= s);
    assert(refs@.take(refs@.len() as int) =~= refs@);
    assert(refs@.skip(refs@.len() as int) =~= Seq::<RefInfo>::empty());
    while i < group.children.len()
        invariant
            i <= s.len(),
            s == group.children@,
            group_refs(*group) == done + children_refs(s.skip(i as int)),
            appended(old(refs)@, refs@, done),
        decreases group.children.len() - i,
    {
        assert(s.skip(i as int)[0] == s[i as int]);
        assert(s.skip(i as int).drop_first() =~= s.skip(i + 1));
        let ghost mid = refs@;
        match &group.children[i] {
            GroupChild::Record(r) => {
                push_ref(r, refs);
                proof {
                    lemma_appended_trans(old(refs)@, mid, refs@, done, ref_record(*r));
                    assert(done + (ref_record(*r) + children_refs(s.skip(i + 1))) =~= (done + ref_record(
                        *r,
                    )) + children_refs(s.skip(i + 1)));
                    done = done + ref_record(*r);
                }
            },
            GroupChild::Group(g) => {
                scan_world_children(g, refs);
                proof {
                    lemma_appended_trans(old(refs)@, mid, refs@, done, group_refs(*g));
                    assert(done + (group_refs(*g) + children_refs(s.skip(i + 1))) =~= (done + group_refs(
                        *g,
                    )) + children_refs(s.skip(i + 1)));
                    done = done + group_refs(*g);
                }
            },
        }
        i = i + 1;
    }
    assert(s.skip(i as int) =~= seq![]);
    assert(done + children_refs(s.skip(i as int)) =~= done);
}

/// Collect the references of worldspace `ws` in a WRLD group (see
/// [`wrld_group_refs`]); `ws_lower` is `ws` ASCII lower-cased.
fn scan_wrld_group(group: &Group, ws: &str, ws_lower: &Vec<char>, refs: &mut Vec<RefInfo>)
    requires
        ws_lower@ == lower_seq(ws@),
    ensures
        appended(old(refs)@, final(refs)@, wrld_group_refs(*group, ws@)),
    decreases group,
{
    let ghost s = group.children@;
    let ghost mut done: Seq<Record> = seq![];
    let mut found = false;
    let mut ws_fid: Option<u32> = None;
    let mut i: usize = 0;
    assert(s.skip(0) =~= s);
    assert(refs@.take(refs@.len() as int) =~= refs@);
    assert(refs@.skip(refs@.len() as int) =~= Seq::<RefInfo>::empty());
    while i < group.children.len()
        invariant
            i <= s.len(),
            s == group.children@,
            ws_lower@ == lower_seq(ws@),
            wrld_group_refs(*group, ws@) == done + wrld_refs(s.skip(i as int), ws@, (found, ws_fid)),
            appended(old(refs)@, refs@, done),
        decreases group.children.len() - i,
    {
        assert(s.skip(i as int)[0] == s[i as int]);
        assert(s.skip(i as int).drop_first() =~= s.skip(i + 1));
        let ghost mid = refs@;
        let ghost st: ScanState = (found, ws_fid);
        match &group.children[i] {
            GroupChild::Record(r) => {
                if r.signature == Signature([0x57, 0x52, 0x4C, 0x44]) {
                    if is_worldspace_record(r, ws_lower) {
                        found = true;
                        ws_fid = Some(r.form_id.0);
                    }
                } else if r.signature == Signature([0x52, 0x45, 0x46, 0x52]) && found {
                    push_ref(r, refs);
                    proof {
                        lemma_appended_trans(old(refs)@, mid, refs@, done, ref_record(*r));
                        assert(done + (ref_record(*r) + wrld_refs(s.skip(i + 1), ws@, st)) =~= (done
                            + ref_record(*r)) + wrld_refs(s.skip(i + 1), ws@, st));
                        done = done + ref_record(*r);
                    }
                }
            },
            GroupChild::Group(g) => {
                match g.group_type {
                    GroupType::WorldChildren(fid) => {
                        let matches = match ws_fid {
                            Some(f) => f == fid,
                            None => false,
                        };
                        if matches || found {
                            scan_world_children(g, refs);
                            proof {
                                lemma_appended_trans(old(refs)@, mid, refs@, done, group_refs(*g));
                                assert(done + (group_refs(*g) + wrld_refs(s.skip(i + 1), ws@, st)) =~= (
                                done + group_refs(*g)) + wrld_refs(s.skip(i + 1), ws@, st));
                                done = done + group_refs(*g);
                            }
                        }
                    },
                    _ => {
                        scan_wrld_group(g, ws, ws_lower, refs);
                        proof {
                            lemma_appended_trans(old(refs)@, mid, refs@, done, wrld_group_refs(*g, ws@));
                            assert(done + (wrld_group_refs(*g, ws@) + wrld_refs(s.skip(i + 1), ws@, st))
                                =~= (done + wrld_group_refs(*g, ws@)) + wrld_refs(s.skip(i + 1), ws@, st));
                            done = done + wrld_group_refs(*g, ws@);
                        }
                    },
                }
            },
        }
        i = i + 1;
    }
    assert(s.skip(i as int) =~= seq![]);
    assert(done + wrld_refs(s.skip(i as int), ws@, (found, ws_fid)) =~= done);
}

/// Scan a list of plugins for the placed references of worldspace
/// `worldspace_editor_id` (see [`plugins_refs`]): the readable REFR records
/// of the worldspace in each plugin's top-level WRLD groups, in order.
pub fn scan_worldspace_refs(plugins: &[Plugin], worldspace_editor_id: &str) -> (refs: Vec<RefInfo>)
    ensures
        refs_match(refs@, plugins_refs(plugins@, worldspace_editor_id@)),
{
    let ghost ws = worldspace_editor_id@;
    let ws_lower = lower_chars(chars_of(worldspace_editor_id).as_slice());
    let mut refs: Vec<RefInfo> = Vec::new();
    let mut pi: usize = 0;
    assert(refs@.skip(0) =~= refs@);
    while pi < plugins.len()
        invariant
            pi <= plugins@.len(),
            ws == worldspace_editor_id@,
            ws_lower@ == lower_seq(ws),
            appended(Seq::<RefInfo>::empty(), refs@, plugins_refs(plugins@.take(pi as int), ws)),
        decreases plugins.len() - pi,
    {
        let plugin = &plugins[pi];
        assert(plugins@.take(pi + 1).drop_last() =~= plugins@.take(pi as int));
        let ghost before = plugins_refs(plugins@.take(pi as int), ws);
        let mut gi: usize = 0;
        while gi < plugin.groups.len()
            invariant
                gi <= plugin.groups@.len(),
                ws == worldspace_editor_id@,
                ws_lower@ == lower_seq(ws),
                appended(
                    Seq::<RefInfo>::empty(),
                    refs@,
                    before + groups_refs(plugin.groups@.take(gi as int), ws),
                ),
            decreases plugin.groups.len() - gi,
        {
            let g = &plugin.groups[gi];
            assert(plugin.groups@.take(gi + 1).drop_last() =~= plugin.groups@.take(gi as int));
            let ghost q = before + groups_refs(plugin.groups@.take(gi as int), ws);
            let ghost mid = refs@;
            if g.group_type == GroupType::Top(Signature([0x57, 0x52, 0x4C, 0x44])) {
                scan_wrld_group(g, worldspace_editor_id, &ws_lower, &mut refs);
                proof {
                    lemma_appended_trans(Seq::<RefInfo>::empty(), mid, refs@, q, wrld_group_refs(*g, ws));
                    assert(before + groups_refs(plugin.groups@.take(gi + 1), ws) =~= q + wrld_group_refs(
                        *g,
                        ws,
                    ));
                }
            } else {
                assert(before + groups_refs(plugin.groups@.take(gi + 1), ws) =~= q);
            }
            gi = gi + 1;
        }
        assert(plugin.groups@.take(gi as int) =~= plugin.groups@);
        pi = pi + 1;
    }
    assert(plugins@.take(pi as int) =~= plugins@);
    assert(refs@.skip(0) =~= refs@);
    refs
}

/// Tree LOD bases are taken from the top-level STAT, ACTI and TREE groups
/// only: appending a top-level group adds its tree bases exactly when its
/// label is one of those three signatures.
pub proof fn lemma_tree_groups(gs: Seq<Group>, g: Group)
    ensures
        groups_tree_bases(gs.push(g)) == groups_tree_bases(gs) + if ({
            ||| g.group_type == GroupType::Top(Signature([0x53u8, 0x54, 0x41, 0x54]))
            ||| g.group_type == GroupType::Top(Signature([0x41u8, 0x43, 0x54, 0x49]))
            ||| g.group_type == GroupType::Top(Signature([0x54u8, 0x52, 0x45, 0x45]))
        }) {
            tree_records(g.children@)
        } else {
            seq![]
        },
{
    assert(gs.push(g).drop_last() =~= gs);
}

/// A record directly in a tree group is a tree LOD base exactly when it has
/// the HasTreeLOD flag (0x0040) and not the DELETED flag (0x0020).
pub proof fn lemma_tree_base_flags(s: Seq<GroupChild>, r: Record)
    ensures
        tree_records(s.push(GroupChild::Record(r))) == if r.flags.0 & 0x0000_0040 != 0 && r.flags.0
            & 0x0000_0020 == 0 {
            tree_records(s).push(r)
        } else {
            tree_records(s)
        },
{
    assert(s.push(GroupChild::Record(r)).drop_last() =~= s);
}

/// Object LOD bases come from the top-level STAT group only, and a record
/// there is one exactly when it is not DELETED (0x0020), has the
/// HasDistantLOD flag (0x8000) and names at least one LOD model.
pub proof fn lemma_object_bases(gs: Seq<Group>, g: Group, s: Seq<GroupChild>, r: Record)
    ensures
        groups_bases(gs.push(g)) == groups_bases(gs) + if g.group_type == GroupType::Top(
            Signature([0x53u8, 0x54, 0x41, 0x54]),
        ) {
            direct_records(g.children@)
        } else {
            seq![]
        },
        direct_records(s.push(GroupChild::Record(r))) == if r.flags.0 & 0x0000_0020 == 0
            && r.flags.0 & 0x0000_8000 != 0 && mnam_models(r.subrecords@).len() > 0 {
            direct_records(s).push(r)
        } else {
            direct_records(s)
        },
{
    assert(gs.push(g).drop_last() =~= gs);
    assert(s.push(GroupChild::Record(r)).drop_last() =~= s);
}

} // verus!
