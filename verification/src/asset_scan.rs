//! Scan plugin records for asset references (texture, mesh and sound paths).
//!
//! Many record types embed file paths to external assets in subrecords such
//! as MODL (model path), MOD2..MOD5 (alternative models), ICON/MICO (icons),
//! TX00..TX07 (texture sets) and various sound subrecords. This module walks
//! all records of a plugin and extracts those path strings.

use vstd::prelude::*;

use crate::plugin::{plugin_records, Plugin};
use crate::record::{spec_editor_id, Record};
use crate::signature::Signature;
use crate::subrecord::Subrecord;
use crate::text::{
    chars_of, find_nul, insert_unique_sorted, nul_prefix, owned_string, spec_to_lowercase,
    spec_utf8_lossy, str_from_utf8, str_to_lowercase, string_from_chars, strictly_sorted,
    utf8_lossy,
};

verus! {

/// The subrecord signatures known to contain asset file paths: MODL, MOD2,
/// MOD3, MOD4, MOD5, ICON, MICO, ICO2, MIC2, NAM0, NAM1, DNAM, ANAM, BNAM,
/// CNAM, ENAM, FNAM and TX00 to TX07.
pub open spec fn asset_sig_list() -> Seq<Signature> {
    seq![
        Signature([0x4D, 0x4F, 0x44, 0x4C]),
        Signature([0x4D, 0x4F, 0x44, 0x32]),
        Signature([0x4D, 0x4F, 0x44, 0x33]),
        Signature([0x4D, 0x4F, 0x44, 0x34]),
        Signature([0x4D, 0x4F, 0x44, 0x35]),
        Signature([0x49, 0x43, 0x4F, 0x4E]),
        Signature([0x4D, 0x49, 0x43, 0x4F]),
        Signature([0x49, 0x43, 0x4F, 0x32]),
        Signature([0x4D, 0x49, 0x43, 0x32]),
        Signature([0x4E, 0x41, 0x4D, 0x30]),
        Signature([0x4E, 0x41, 0x4D, 0x31]),
        Signature([0x44, 0x4E, 0x41, 0x4D]),
        Signature([0x41, 0x4E, 0x41, 0x4D]),
        Signature([0x42, 0x4E, 0x41, 0x4D]),
        Signature([0x43, 0x4E, 0x41, 0x4D]),
        Signature([0x45, 0x4E, 0x41, 0x4D]),
        Signature([0x46, 0x4E, 0x41, 0x4D]),
        Signature([0x54, 0x58, 0x30, 0x30]),
        Signature([0x54, 0x58, 0x30, 0x31]),
        Signature([0x54, 0x58, 0x30, 0x32]),
        Signature([0x54, 0x58, 0x30, 0x33]),
        Signature([0x54, 0x58, 0x30, 0x34]),
        Signature([0x54, 0x58, 0x30, 0x35]),
        Signature([0x54, 0x58, 0x30, 0x36]),
        Signature([0x54, 0x58, 0x30, 0x37]),
    ]
}

/// The signatures of [`asset_sig_list`].
fn asset_sigs() -> (v: Vec<Signature>)
    ensures
        v@ == asset_sig_list(),
{
    let v = vec![
        Signature([0x4D, 0x4F, 0x44, 0x4C]),
        Signature([0x4D, 0x4F, 0x44, 0x32]),
        Signature([0x4D, 0x4F, 0x44, 0x33]),
        Signature([0x4D, 0x4F, 0x44, 0x34]),
        Signature([0x4D, 0x4F, 0x44, 0x35]),
        Signature([0x49, 0x43, 0x4F, 0x4E]),
        Signature([0x4D, 0x49, 0x43, 0x4F]),
        Signature([0x49, 0x43, 0x4F, 0x32]),
        Signature([0x4D, 0x49, 0x43, 0x32]),
        Signature([0x4E, 0x41, 0x4D, 0x30]),
        Signature([0x4E, 0x41, 0x4D, 0x31]),
        Signature([0x44, 0x4E, 0x41, 0x4D]),
        Signature([0x41, 0x4E, 0x41, 0x4D]),
        Signature([0x42, 0x4E, 0x41, 0x4D]),
        Signature([0x43, 0x4E, 0x41, 0x4D]),
        Signature([0x45, 0x4E, 0x41, 0x4D]),
        Signature([0x46, 0x4E, 0x41, 0x4D]),
        Signature([0x54, 0x58, 0x30, 0x30]),
        Signature([0x54, 0x58, 0x30, 0x31]),
        Signature([0x54, 0x58, 0x30, 0x32]),
        Signature([0x54, 0x58, 0x30, 0x33]),
        Signature([0x54, 0x58, 0x30, 0x34]),
        Signature([0x54, 0x58, 0x30, 0x35]),
        Signature([0x54, 0x58, 0x30, 0x36]),
        Signature([0x54, 0x58, 0x30, 0x37]),
    ];
    assert(v@ =~= asset_sig_list());
    v
}

/// A discovered asset reference within a plugin.
#[derive(Debug, Clone, PartialEq, Eq)]
pub struct AssetReference {
    /// The record type signature (e.g. WEAP, NPC_, ARMO).
    pub record_signature: Signature,
    /// The FormID of the record containing the reference.
    pub form_id: u32,
    /// The Editor ID of the record, if present.
    pub editor_id: Option<String>,
    /// The subrecord signature where the path was found (e.g. MODL, ICON).
    pub subrecord_signature: Signature,
    /// The asset path string extracted from the subrecord.
    pub asset_path: String,
}

/// The value of an asset reference: record signature, FormID, Editor ID,
/// subrecord signature, path.
pub type AssetView = (Signature, u32, Option<Seq<char>>, Signature, Seq<char>);

/// The value of an optional string.
pub open spec fn opt_string_view(s: Option<String>) -> Option<Seq<char>> {
    match s {
        Some(x) => Some(x@),
        None => None,
    }
}

impl View for AssetReference {
    type V = AssetView;

    open spec fn view(&self) -> AssetView {
        (
            self.record_signature,
            self.form_id,
            opt_string_view(self.editor_id),
            self.subrecord_signature,
            self.asset_path@,
        )
    }
}

/// The path string of a subrecord's data: the bytes before the first zero
/// byte, decoded as UTF-8, or lossily when they are not valid UTF-8; none
/// when those bytes are empty.
pub open spec fn spec_extract_path(data: Seq<u8>) -> Option<Seq<char>> {
    let b = nul_prefix(data);
    if b.len() == 0 {
        None
    } else if vstd::utf8::valid_utf8(b) {
        Some(vstd::utf8::decode_utf8(b))
    } else {
        Some(spec_utf8_lossy(b))
    }
}

/// The asset references of the subrecords `subs` of record `r`: one for
/// each asset-bearing subrecord with a non-empty path, in order.
pub open spec fn subrecord_assets(r: Record, subs: Seq<Subrecord>) -> Seq<AssetView>
    decreases subs.len(),
{
    if subs.len() == 0 {
        seq![]
    } else {
        let prev = subrecord_assets(r, subs.drop_last());
        let s = subs.last();
        match spec_extract_path(s.raw_data@) {
            Some(p) => if asset_sig_list().contains(s.signature) && p.len() > 0 {
                prev.push(
                    (r.signature, r.form_id.0, spec_editor_id(r.subrecords@), s.signature, p),
                )
            } else {
                prev
            },
            None => prev,
        }
    }
}

/// The asset references of a sequence of records, in order.
pub open spec fn records_assets(rs: Seq<Record>) -> Seq<AssetView>
    decreases rs.len(),
{
    if rs.len() == 0 {
        seq![]
    } else {
        records_assets(rs.drop_last()) + subrecord_assets(rs.last(), rs.last().subrecords@)
    }
}

/// The asset references of a plugin, record by record (groups flattened).
pub open spec fn spec_plugin_assets(p: Plugin) -> Seq<AssetView> {
    records_assets(plugin_records(p))
}

/// Whether a subrecord signature is one of the known asset-path types.
fn is_asset_subrecord(sig: &Signature) -> (b: bool)
    ensures
        b == asset_sig_list().contains(*sig),
{
    let sigs = asset_sigs();
    let mut i: usize = 0;
    while i < sigs.len()
        invariant
            i <= sigs@.len(),
            sigs@ == asset_sig_list(),
            forall|j: int| 0 <= j < i ==> sigs@[j] != *sig,
        decreases sigs.len() - i,
    {
        if sigs[i] == *sig {
            assert(sigs@[i as int] == *sig);
            return true;
        }
        i = i + 1;
    }
    false
}

/// Extract the path string of subrecord data (see [`spec_extract_path`]).
fn extract_path_string(data: &[u8]) -> (r: Option<String>)
    ensures
        match r {
            Some(s) => spec_extract_path(data@) == Some(s@),
            None => spec_extract_path(data@) is None,
        },
{
    if data.len() == 0 {
        return None;
    }
    let len = find_nul(data);
    if len == 0 {
        return None;
    }
    let prefix = vstd::slice::slice_subrange(data, 0, len);
    assert(prefix@ == nul_prefix(data@));
    match str_from_utf8(prefix) {
        Some(s) => Some(owned_string(s)),
        None => Some(utf8_lossy(prefix)),
    }
}

/// Append the asset references of one record.
fn scan_record(record: &Record, out: &mut Vec<AssetReference>)
    ensures
        final(out)@.map_values(|a: AssetReference| a@) == old(out)@.map_values(
            |a: AssetReference| a@,
        ) + subrecord_assets(*record, record.subrecords@),
{
    let editor_id: Option<String> = match record.editor_id() {
        Some(s) => Some(owned_string(s)),
        None => None,
    };
    let ghost start = old(out)@.map_values(|a: AssetReference| a@);
    let mut i: usize = 0;
    while i < record.subrecords.len()
        invariant
            i <= record.subrecords@.len(),
            opt_string_view(editor_id) == spec_editor_id(record.subrecords@),
            start == old(out)@.map_values(|a: AssetReference| a@),
            out@.map_values(|a: AssetReference| a@) == start + subrecord_assets(
                *record,
                record.subrecords@.take(i as int),
            ),
        decreases record.subrecords.len() - i,
    {
        let sub = &record.subrecords[i];
        assert(record.subrecords@.take(i + 1).drop_last() =~= record.subrecords@.take(i as int));
        let ghost before = out@;
        if is_asset_subrecord(&sub.signature) {
            if let Some(path) = extract_path_string(sub.raw_data.as_slice()) {
                if !path.as_str().is_empty() {
                    let eid = match &editor_id {
                        Some(s) => Some(s.clone()),
                        None => None,
                    };
                    let a = AssetReference {
                        record_signature: record.signature,
                        form_id: record.form_id.raw(),
                        editor_id: eid,
                        subrecord_signature: sub.signature,
                        asset_path: path,
                    };
                    out.push(a);
                    assert(out@.map_values(|a: AssetReference| a@) =~= before.map_values(
                        |a: AssetReference| a@,
                    ).push(a@));
                }
            }
        }
        i = i + 1;
    }
    assert(record.subrecords@.take(i as int) =~= record.subrecords@);
}

/// Scan all records of a plugin (including those in nested groups) for
/// asset path references.
pub fn scan_plugin_assets(plugin: &Plugin) -> (v: Vec<AssetReference>)
    ensures
        v@.map_values(|a: AssetReference| a@) == spec_plugin_assets(*plugin),
{
    let recs = plugin.all_records();
    let ghost all = plugin_records(*plugin);
    let mut results: Vec<AssetReference> = Vec::new();
    let mut i: usize = 0;
    while i < recs.len()
        invariant
            i <= recs@.len(),
            recs@.map_values(|r: &Record| *r) == all,
            results@.map_values(|a: AssetReference| a@) == records_assets(all.take(i as int)),
        decreases recs.len() - i,
    {
        let r = recs[i];
        assert(all[i as int] == *r);
        assert(all.take(i + 1).drop_last() =~= all.take(i as int));
        scan_record(r, &mut results);
        i = i + 1;
    }
    assert(all.take(i as int) =~= all);
    results
}

/// Backslashes turned into forward slashes.
pub open spec fn forward_slashes(p: Seq<char>) -> Seq<char> {
    p.map_values(|c: char| if c == '\\' { '/' } else { c })
}

/// The normalized form of an asset path: lower-cased, with forward slashes.
pub open spec fn normalize_asset_path(p: Seq<char>) -> Seq<char> {
    forward_slashes(spec_to_lowercase(p))
}

/// The normalized paths of a sequence of asset references.
pub open spec fn normalized_paths(refs: Seq<AssetView>) -> Seq<Seq<char>> {
    refs.map_values(|a: AssetView| normalize_asset_path(a.4))
}

/// The normalized form of an asset path (see [`normalize_asset_path`]).
fn normalize_path_chars(path: &String) -> (v: Vec<char>)
    ensures
        v@ == normalize_asset_path(path@),
{
    let lower = str_to_lowercase(path.as_str());
    let cs = chars_of(lower.as_str());
    let mut v: Vec<char> = Vec::new();
    let mut i: usize = 0;
    while i < cs.len()
        invariant
            i <= cs@.len(),
            cs@ == spec_to_lowercase(path@),
            v@ == forward_slashes(cs@.take(i as int)),
        decreases cs.len() - i,
    {
        let c = cs[i];
        v.push(if c == '\\' { '/' } else { c });
        assert(forward_slashes(cs@.take(i + 1)) =~= forward_slashes(cs@.take(i as int)).push(
            if c == '\\' { '/' } else { c },
        ));
        i = i + 1;
    }
    assert(cs@.take(i as int) =~= cs@);
    v
}

/// Strings holding the given character lists.
fn strings_of(keys: &Vec<Vec<char>>) -> (out: Vec<String>)
    ensures
        out@.len() == keys@.len(),
        forall|k: int| 0 <= k < keys@.len() ==> (#[trigger] out@[k])@ == keys@[k]@,
{
    let mut out: Vec<String> = Vec::new();
    let mut j: usize = 0;
    while j < keys.len()
        invariant
            j <= keys@.len(),
            out@.len() == j,
            forall|k: int| 0 <= k < j ==> (#[trigger] out@[k])@ == keys@[k]@,
        decreases keys.len() - j,
    {
        let st = string_from_chars(keys[j].as_slice());
        out.push(st);
        j = j + 1;
    }
    out
}

/// The distinct normalized asset paths of a plugin (lower-cased, forward
/// slashes), sorted.
pub fn scan_unique_asset_paths(plugin: &Plugin) -> (v: Vec<String>)
    ensures
        strictly_sorted(v@.map_values(|s: String| s@)),
        v@.map_values(|s: String| s@).to_set() == normalized_paths(
            spec_plugin_assets(*plugin),
        ).to_set(),
{
    let refs = scan_plugin_assets(plugin);
    let ghost rv = refs@.map_values(|a: AssetReference| a@);
    let mut keys: Vec<Vec<char>> = Vec::new();
    let mut i: usize = 0;
    assert(normalized_paths(rv.take(0)).to_set() =~= Set::<Seq<char>>::empty());
    assert(keys@.map_values(|v: Vec<char>| v@).to_set() =~= Set::<Seq<char>>::empty());
    while i < refs.len()
        invariant
            i <= refs@.len(),
            rv == refs@.map_values(|a: AssetReference| a@),
            strictly_sorted(keys@.map_values(|v: Vec<char>| v@)),
            keys@.map_values(|v: Vec<char>| v@).to_set() == normalized_paths(
                rv.take(i as int),
            ).to_set(),
        decreases refs.len() - i,
    {
        let k = normalize_path_chars(&refs[i].asset_path);
        let ghost before = normalized_paths(rv.take(i as int));
        insert_unique_sorted(&mut keys, k);
        proof {
            let x = normalize_asset_path(rv[i as int].4);
            let b2 = before.push(x);
            assert(normalized_paths(rv.take(i + 1)) =~= b2);
            assert forall|y: Seq<char>| #[trigger] b2.contains(y) <==> (before.contains(y) || y == x) by {
                if b2.contains(y) {
                    let q = choose|q: int| 0 <= q < b2.len() && b2[q] == y;
                    if q < before.len() {
                        assert(before[q] == y);
                    }
                }
                if before.contains(y) {
                    let q = choose|q: int| 0 <= q < before.len() && before[q] == y;
                    assert(b2[q] == y);
                }
                if y == x {
                    assert(b2[before.len() as int] == y);
                }
            }
            assert(b2.to_set() =~= before.to_set().insert(x));
        }
        i = i + 1;
    }
    assert(rv.take(i as int) =~= rv);
    let out = strings_of(&keys);
    assert(out@.map_values(|s: String| s@) =~= keys@.map_values(|v: Vec<char>| v@));
    out
}


/// The distinct normalized asset paths are one list: any two strictly
/// sorted lists holding exactly the normalized paths of a plugin's assets
/// are equal, so [`scan_unique_asset_paths`] gives that list.
pub proof fn lemma_unique_paths_determined(p: Plugin, v: Seq<Seq<char>>, w: Seq<Seq<char>>)
    requires
        strictly_sorted(v),
        strictly_sorted(w),
        v.to_set() == normalized_paths(spec_plugin_assets(p)).to_set(),
        w.to_set() == normalized_paths(spec_plugin_assets(p)).to_set(),
    ensures
        v == w,
{
    crate::text::lemma_sorted_unique(v, w);
}

/// Every subrecord of the asset-path kinds MODL, MOD2, MOD3, MOD4, MOD5,
/// ICON, MICO, ICO2, MIC2, NAM0, NAM1, DNAM, ANAM, BNAM, CNAM, ENAM, FNAM
/// and TX00 to TX07 whose data holds a non-empty path is reported, after
/// the references of the subrecords before it, with the record's signature,
/// FormID and Editor ID.
pub proof fn lemma_asset_kinds_reported(r: Record, before: Seq<Subrecord>, s: Subrecord, p: Seq<char>)
    requires
        spec_extract_path(s.raw_data@) == Some(p),
        p.len() > 0,
        ({
            let b = s.signature.0;
            ||| b == [0x4Du8, 0x4F, 0x44, 0x4C]
            ||| b == [0x4Du8, 0x4F, 0x44, 0x32]
            ||| b == [0x4Du8, 0x4F, 0x44, 0x33]
            ||| b == [0x4Du8, 0x4F, 0x44, 0x34]
            ||| b == [0x4Du8, 0x4F, 0x44, 0x35]
            ||| b == [0x49u8, 0x43, 0x4F, 0x4E]
            ||| b == [0x4Du8, 0x49, 0x43, 0x4F]
            ||| b == [0x49u8, 0x43, 0x4F, 0x32]
            ||| b == [0x4Du8, 0x49, 0x43, 0x32]
            ||| b == [0x4Eu8, 0x41, 0x4D, 0x30]
            ||| b == [0x4Eu8, 0x41, 0x4D, 0x31]
            ||| b == [0x44u8, 0x4E, 0x41, 0x4D]
            ||| b == [0x41u8, 0x4E, 0x41, 0x4D]
            ||| b == [0x42u8, 0x4E, 0x41, 0x4D]
            ||| b == [0x43u8, 0x4E, 0x41, 0x4D]
            ||| b == [0x45u8, 0x4E, 0x41, 0x4D]
            ||| b == [0x46u8, 0x4E, 0x41, 0x4D]
            ||| b == [0x54u8, 0x58, 0x30, 0x30]
            ||| b == [0x54u8, 0x58, 0x30, 0x31]
            ||| b == [0x54u8, 0x58, 0x30, 0x32]
            ||| b == [0x54u8, 0x58, 0x30, 0x33]
            ||| b == [0x54u8, 0x58, 0x30, 0x34]
            ||| b == [0x54u8, 0x58, 0x30, 0x35]
            ||| b == [0x54u8, 0x58, 0x30, 0x36]
            ||| b == [0x54u8, 0x58, 0x30, 0x37]
        }),
    ensures
        subrecord_assets(r, before.push(s)) == subrecord_assets(r, before).push(
            (r.signature, r.form_id.0, spec_editor_id(r.subrecords@), s.signature, p),
        ),
{
    let l = asset_sig_list();
    assert(l.contains(s.signature));
    assert(before.push(s).drop_last() =~= before);
}

} // verus!
