//! Conflict detection between plugins.
//!
//! Multi-plugin conflict detection, ITM (Identical to Master) detection,
//! deleted reference detection and subrecord-level diffing.

use vstd::prelude::*;

use crate::bytes::{append_bytes, bytes_equal};
use crate::formid::{spec_local_id, FormId};
use crate::load_order::{
    entries_view, first_with_local, lemma_filter_push, lemma_first_with_local,
    lemma_matching_push, lemma_overrides_upto, lemma_resolve_in_range, matching_records,
    overrides_upto, spec_resolve, spec_resolve_record, LoadOrder, Resolved,
};
use crate::plugin::plugin_records;
use crate::record::Record;
use crate::signature::Signature;
use crate::subrecord::Subrecord;

verus! {

/// Severity of a conflict between records across plugins.
#[derive(Debug, Clone, Copy, PartialEq, Eq, Hash, Structural)]
pub enum ConflictSeverity {
    /// Records differ in actual subrecord data (gameplay-affecting).
    Critical,
    /// Record exists in multiple plugins with different data.
    Override,
    /// Records differ only in non-gameplay header fields (vc_info, version, unknown).
    Benign,
    /// Record is identical to its master version (Identical to Master).
    ITM,
}

/// A conflict detected for a single FormID across multiple plugins.
#[derive(Debug, Clone)]
pub struct RecordConflict {
    /// The FormID of the first record of the conflict, as written in its plugin.
    pub form_id: FormId,
    /// Record type signature (e.g. WEAP, NPC_).
    pub signature: Signature,
    /// Classified severity of this conflict.
    pub severity: ConflictSeverity,
    /// Entries from each plugin: (plugin_index, record's raw FormID in that
    /// plugin), in load order.
    pub entries: Vec<(usize, FormId)>,
}

/// A difference in a single subrecord between two records.
#[derive(Debug, Clone)]
pub struct SubrecordDiff {
    /// The subrecord signature that differs.
    pub signature: Signature,
    /// The data of each side: (plugin_index, concatenated raw data of all
    /// its subrecords with this signature).
    pub plugin_data: Vec<(usize, Vec<u8>)>,
}

/// Detects conflicts across plugins in a load order.
pub struct ConflictDetector<'a> {
    load_order: &'a LoadOrder,
}

/// Whether two subrecords have the same signature and data.
pub open spec fn same_subrecord(x: Subrecord, y: Subrecord) -> bool {
    x.signature == y.signature && x.raw_data@ == y.raw_data@
}

/// Whether two subrecord lists are byte-identical: same length, and the
/// same signature and data at each position.
pub open spec fn subrecords_identical(a: Seq<Subrecord>, b: Seq<Subrecord>) -> bool {
    &&& a.len() == b.len()
    &&& forall|i: int| 0 <= i < a.len() ==> same_subrecord(#[trigger] a[i], b[i])
}

/// Whether two records are identical in flags, header metadata (vc_info,
/// version, unknown) and subrecords.
pub open spec fn records_identical(a: Record, b: Record) -> bool {
    &&& a.flags == b.flags
    &&& a.vc_info == b.vc_info
    &&& a.version == b.version
    &&& a.unknown == b.unknown
    &&& subrecords_identical(a.subrecords@, b.subrecords@)
}

/// Whether two records are identical in flags and subrecords.
pub open spec fn records_gameplay_identical(a: Record, b: Record) -> bool {
    a.flags == b.flags && subrecords_identical(a.subrecords@, b.subrecords@)
}

/// The severity of a conflict among records, the first being the master:
/// fewer than two is Benign; every override identical to the master is
/// ITM; every override differing from it only in header metadata is
/// Benign; some override with different subrecords is Critical; else
/// (only flags differ) Override.
pub open spec fn spec_classify(rs: Seq<Record>) -> ConflictSeverity {
    if rs.len() < 2 {
        ConflictSeverity::Benign
    } else if forall|k: int| 1 <= k < rs.len() ==> records_identical(#[trigger] rs[k], rs[0]) {
        ConflictSeverity::ITM
    } else if forall|k: int|
        1 <= k < rs.len() ==> records_gameplay_identical(#[trigger] rs[k], rs[0]) {
        ConflictSeverity::Benign
    } else if exists|k: int|
        1 <= k < rs.len() && !subrecords_identical(
            (#[trigger] rs[k]).subrecords@,
            rs[0].subrecords@,
        ) {
        ConflictSeverity::Critical
    } else {
        ConflictSeverity::Override
    }
}

/// Whether `r`, a record of the plugin at `idx`, is identical to the master
/// record it overrides (a record of another plugin).
pub open spec fn is_itm(lo: LoadOrder, idx: int, r: Record) -> bool {
    match spec_resolve_record(lo, idx, r.form_id.0) {
        Some((m, mr)) => m != idx && records_identical(r, mr),
        None => false,
    }
}

/// The FormIDs of the records of the plugin at `idx` that are identical to
/// their master version.
pub open spec fn spec_itm(lo: LoadOrder, idx: int) -> Seq<FormId> {
    if 0 <= idx < lo.plugins@.len() {
        plugin_records(lo.plugins@[idx]).filter(|r: Record| is_itm(lo, idx, r)).map_values(
            |r: Record| r.form_id,
        )
    } else {
        seq![]
    }
}

/// The FormIDs of the records of the plugin at `idx` with the DELETED flag.
pub open spec fn spec_deleted(lo: LoadOrder, idx: int) -> Seq<FormId> {
    if 0 <= idx < lo.plugins@.len() {
        plugin_records(lo.plugins@[idx]).filter(|r: Record| r.flags.0 & 0x0000_0020 != 0).map_values(
            |r: Record| r.form_id,
        )
    } else {
        seq![]
    }
}

proof fn lemma_filter_map_push<A, B>(s: Seq<A>, x: A, p: spec_fn(A) -> bool, f: spec_fn(A) -> B)
    ensures
        s.push(x).filter(p).map_values(f) == if p(x) {
            s.filter(p).map_values(f).push(f(x))
        } else {
            s.filter(p).map_values(f)
        },
{
    reveal_with_fuel(Seq::filter, 1);
    assert(s.push(x).drop_last() =~= s);
    assert(s.push(x).filter(p).map_values(f) =~= if p(x) {
        s.filter(p).map_values(f).push(f(x))
    } else {
        s.filter(p).map_values(f)
    });
}

/// Whether two subrecord lists are byte-identical.
fn subrecords_are_identical(a: &Vec<Subrecord>, b: &Vec<Subrecord>) -> (r: bool)
    ensures
        r == subrecords_identical(a@, b@),
{
    if a.len() != b.len() {
        return false;
    }
    let mut i: usize = 0;
    while i < a.len()
        invariant
            i <= a@.len(),
            a@.len() == b@.len(),
            forall|j: int| 0 <= j < i ==> same_subrecord(#[trigger] a@[j], b@[j]),
        decreases a.len() - i,
    {
        if !(a[i].signature == b[i].signature) {
            return false;
        }
        if !bytes_equal(a[i].raw_data.as_slice(), b[i].raw_data.as_slice()) {
            return false;
        }
        assert(same_subrecord(a@[i as int], b@[i as int]));
        i = i + 1;
    }
    true
}

/// Whether two records are fully identical (flags, header metadata and
/// subrecords): the strict check used for ITM detection.
fn records_are_identical(a: &Record, b: &Record) -> (r: bool)
    ensures
        r == records_identical(*a, *b),
{
    a.flags == b.flags && a.vc_info == b.vc_info && a.version == b.version && a.unknown
        == b.unknown && subrecords_are_identical(&a.subrecords, &b.subrecords)
}

/// Whether two records are identical in flags and subrecords, ignoring
/// vc_info, version and unknown.
fn records_are_gameplay_identical(a: &Record, b: &Record) -> (r: bool)
    ensures
        r == records_gameplay_identical(*a, *b),
{
    a.flags == b.flags && subrecords_are_identical(&a.subrecords, &b.subrecords)
}

impl<'a> ConflictDetector<'a> {
    /// The load order this detector works on.
    pub closed spec fn spec_load_order(self) -> LoadOrder {
        *self.load_order
    }

    /// Create a new conflict detector for the given load order.
    pub fn new(load_order: &'a LoadOrder) -> (d: Self)
        ensures
            d.spec_load_order() == *load_order,
    {
        ConflictDetector { load_order }
    }

    /// Classify the severity of a conflict given its (plugin_index, record)
    /// entries, the first being the master (see [`spec_classify`]).
    pub fn classify_conflict(&self, entries: &[(usize, &Record)]) -> (s: ConflictSeverity)
        ensures
            s == spec_classify(entries_view(entries@).map_values(|e: (int, Record)| e.1)),
    {
        let ghost rs = entries_view(entries@).map_values(|e: (int, Record)| e.1);
        assert forall|k: int| 0 <= k < entries@.len() implies rs[k] == *entries@[k].1 by {}
        if entries.len() < 2 {
            return ConflictSeverity::Benign;
        }
        let master_record: &Record = entries[0].1;
        let mut all_identical = true;
        let mut only_benign = true;
        let mut has_subrecord_diffs = false;
        let mut k: usize = 1;
        while k < entries.len()
            invariant
                1 <= k <= entries@.len(),
                rs.len() == entries@.len(),
                *master_record == rs[0],
                forall|j: int| 0 <= j < entries@.len() ==> rs[j] == *entries@[j].1,
                all_identical == forall|j: int|
                    1 <= j < k ==> records_identical(#[trigger] rs[j], rs[0]),
                only_benign == forall|j: int|
                    1 <= j < k ==> records_gameplay_identical(#[trigger] rs[j], rs[0]),
                has_subrecord_diffs == exists|j: int|
                    1 <= j < k && !subrecords_identical(
                        (#[trigger] rs[j]).subrecords@,
                        rs[0].subrecords@,
                    ),
            decreases entries.len() - k,
        {
            let record: &Record = entries[k].1;
            assert(rs[k as int] == *record);
            if !records_are_identical(record, master_record) {
                all_identical = false;
            }
            if !records_are_gameplay_identical(record, master_record) {
                only_benign = false;
            }
            if !subrecords_are_identical(&record.subrecords, &master_record.subrecords) {
                has_subrecord_diffs = true;
            }
            k = k + 1;
        }
        if all_identical {
            return ConflictSeverity::ITM;
        }
        if only_benign {
            return ConflictSeverity::Benign;
        }
        if has_subrecord_diffs {
            return ConflictSeverity::Critical;
        }
        ConflictSeverity::Override
    }

    /// Find a record with the given local FormID in the specified plugin:
    /// the first whose local id equals it.
    fn find_record_in_plugin(&self, plugin_index: usize, local_form_id: FormId) -> (r: Option<
        &'a Record,
    >)
        ensures
            plugin_index < self.load_order.plugins@.len() ==> match first_with_local(
                plugin_records(self.load_order.plugins@[plugin_index as int]),
                local_form_id.0,
            ) {
                Some(k) => r == Some(
                    &plugin_records(self.load_order.plugins@[plugin_index as int])[k],
                ),
                None => r is None,
            },
    {
        let lo: &'a LoadOrder = self.load_order;
        if plugin_index >= lo.plugins.len() {
            return None;
        }
        let plugin = &lo.plugins[plugin_index];
        let recs = plugin.all_records();
        let ghost all = plugin_records(*plugin);
        proof {
            lemma_first_with_local(all, local_form_id.0);
        }
        let mut k: usize = 0;
        while k < recs.len()
            invariant
                k <= recs@.len(),
                recs@.map_values(|r: &Record| *r) == all,
                plugin_index < self.load_order.plugins@.len(),
                all == plugin_records(self.load_order.plugins@[plugin_index as int]),
                forall|j: int| 0 <= j < k ==> spec_local_id(all[j].form_id.0) != local_form_id.0,
                first_with_local(all, local_form_id.0) matches Some(m) ==> 0 <= m < all.len()
                    && spec_local_id(all[m].form_id.0) == local_form_id.0 && forall|j: int|
                    0 <= j < m ==> spec_local_id(all[j].form_id.0) != local_form_id.0,
                first_with_local(all, local_form_id.0) is None ==> forall|j: int|
                    0 <= j < all.len() ==> spec_local_id(all[j].form_id.0) != local_form_id.0,
            decreases recs.len() - k,
        {
            let record = recs[k];
            assert(all[k as int] == *record);
            if record.form_id.local_id() == local_form_id.raw() {
                proof {
                    let l = local_form_id.0;
                    match first_with_local(all, l) {
                        Some(m) => {
                            if m < k {
                                assert(spec_local_id(all[m].form_id.0) != l);
                            }
                            if m > k {
                                assert(spec_local_id(all[k as int].form_id.0) != l);
                            }
                        },
                        None => {
                            assert(spec_local_id(all[k as int].form_id.0) != l);
                        },
                    }
                }
                return Some(record);
            }
            k = k + 1;
        }
        proof {
            if let Some(m) = first_with_local(all, local_form_id.0) {
                assert(spec_local_id(all[m].form_id.0) != local_form_id.0);
            }
        }
        None
    }

    /// Find the records of the given plugin that are identical to their
    /// master version (flags, header metadata and every subrecord).
    pub fn detect_itm(&self, plugin_index: usize) -> (v: Vec<FormId>)
        ensures
            v@ == spec_itm(self.spec_load_order(), plugin_index as int),
    {
        let lo: &'a LoadOrder = self.load_order;
        if plugin_index >= lo.plugins.len() {
            return Vec::new();
        }
        let plugin = &lo.plugins[plugin_index];
        let recs = plugin.all_records();
        let ghost all = plugin_records(*plugin);
        let ghost p = |r: Record| is_itm(*lo, plugin_index as int, r);
        let ghost f = |r: Record| r.form_id;
        let mut itm: Vec<FormId> = Vec::new();
        let mut j: usize = 0;
        while j < recs.len()
            invariant
                j <= recs@.len(),
                plugin_index < lo.plugins@.len(),
                all == plugin_records(lo.plugins@[plugin_index as int]),
                recs@.map_values(|r: &Record| *r) == all,
                *lo == self.spec_load_order(),
                p == (|r: Record| is_itm(*lo, plugin_index as int, r)),
                f == (|r: Record| r.form_id),
                itm@ == all.take(j as int).filter(p).map_values(f),
            decreases recs.len() - j,
        {
            let record: &Record = recs[j];
            assert(all[j as int] == *record);
            proof {
                lemma_filter_map_push(all.take(j as int), *record, p, f);
                assert(all.take(j + 1) =~= all.take(j as int).push(*record));
                lemma_resolve_in_range(*lo, plugin_index as int, record.form_id.0);
            }
            let mut found = false;
            if let Some((master_plugin_index, master_local_id)) = lo.resolve_form_id(
                plugin_index,
                record.form_id,
            ) {
                if master_plugin_index != plugin_index {
                    if let Some(master_record) = self.find_record_in_plugin(
                        master_plugin_index,
                        master_local_id,
                    ) {
                        if records_are_identical(record, master_record) {
                            found = true;
                        }
                    }
                }
            }
            assert(found == p(*record));
            if found {
                itm.push(record.form_id);
            }
            j = j + 1;
        }
        assert(all.take(j as int) =~= all);
        itm
    }

    /// Find the records of the given plugin that have the DELETED flag set.
    pub fn detect_deleted_references(&self, plugin_index: usize) -> (v: Vec<FormId>)
        ensures
            v@ == spec_deleted(self.spec_load_order(), plugin_index as int),
    {
        let lo: &'a LoadOrder = self.load_order;
        if plugin_index >= lo.plugins.len() {
            return Vec::new();
        }
        let plugin = &lo.plugins[plugin_index];
        let recs = plugin.all_records();
        let ghost all = plugin_records(*plugin);
        let ghost p = |r: Record| r.flags.0 & 0x0000_0020 != 0;
        let ghost f = |r: Record| r.form_id;
        let mut out: Vec<FormId> = Vec::new();
        let mut j: usize = 0;
        while j < recs.len()
            invariant
                j <= recs@.len(),
                recs@.map_values(|r: &Record| *r) == all,
                p == (|r: Record| r.flags.0 & 0x0000_0020 != 0),
                f == (|r: Record| r.form_id),
                out@ == all.take(j as int).filter(p).map_values(f),
            decreases recs.len() - j,
        {
            let record: &Record = recs[j];
            assert(all[j as int] == *record);
            proof {
                lemma_filter_map_push(all.take(j as int), *record, p, f);
                assert(all.take(j + 1) =~= all.take(j as int).push(*record));
            }
            if record.flags.is_deleted() {
                out.push(record.form_id);
            }
            j = j + 1;
        }
        assert(all.take(j as int) =~= all);
        out
    }
}

/// The distinct signatures of `s`, in order of first appearance.
pub open spec fn distinct_sigs(s: Seq<Signature>) -> Seq<Signature>
    decreases s.len(),
{
    if s.len() == 0 {
        seq![]
    } else {
        let d = distinct_sigs(s.drop_last());
        if d.contains(s.last()) {
            d
        } else {
            d.push(s.last())
        }
    }
}

/// The signatures of a subrecord list, in order.
pub open spec fn sig_list(s: Seq<Subrecord>) -> Seq<Signature> {
    s.map_values(|x: Subrecord| x.signature)
}

/// The data of the subrecords of `s` with signature `sig`, in order.
pub open spec fn data_list(s: Seq<Subrecord>, sig: Signature) -> Seq<Seq<u8>> {
    s.filter(|x: Subrecord| x.signature == sig).map_values(|x: Subrecord| x.raw_data@)
}

/// The concatenation of a list of byte strings.
pub open spec fn concat_bytes(l: Seq<Seq<u8>>) -> Seq<u8>
    decreases l.len(),
{
    if l.len() == 0 {
        seq![]
    } else {
        concat_bytes(l.drop_last()) + l.last()
    }
}

/// The signatures on which two subrecord lists differ, in order of first
/// appearance (first in `a`, then in `b`): those whose lists of data are
/// not the same.
pub open spec fn diff_sigs(a: Seq<Subrecord>, b: Seq<Subrecord>) -> Seq<Signature> {
    distinct_sigs(sig_list(a) + sig_list(b)).filter(
        |sig: Signature| data_list(a, sig) != data_list(b, sig),
    )
}

/// The diff entry `d` reports signature `sig`: the concatenated data of
/// each side, `a` from plugin `ia` first, then `b` from plugin `ib`.
pub open spec fn diff_matches(
    d: SubrecordDiff,
    sig: Signature,
    ia: usize,
    a: Seq<Subrecord>,
    ib: usize,
    b: Seq<Subrecord>,
) -> bool {
    &&& d.signature == sig
    &&& d.plugin_data@.len() == 2
    &&& d.plugin_data@[0].0 == ia
    &&& d.plugin_data@[0].1@ == concat_bytes(data_list(a, sig))
    &&& d.plugin_data@[1].0 == ib
    &&& d.plugin_data@[1].1@ == concat_bytes(data_list(b, sig))
}

/// The data of the subrecords with signature `sig`.
fn data_of(subs: &Vec<Subrecord>, sig: Signature) -> (v: Vec<&Vec<u8>>)
    ensures
        v@.map_values(|x: &Vec<u8>| x@) == data_list(subs@, sig),
{
    let ghost p = |x: Subrecord| x.signature == sig;
    let ghost f = |x: Subrecord| x.raw_data@;
    let mut v: Vec<&Vec<u8>> = Vec::new();
    let mut i: usize = 0;
    while i < subs.len()
        invariant
            i <= subs@.len(),
            p == (|x: Subrecord| x.signature == sig),
            f == (|x: Subrecord| x.raw_data@),
            v@.map_values(|x: &Vec<u8>| x@) == subs@.take(i as int).filter(p).map_values(f),
        decreases subs.len() - i,
    {
        proof {
            lemma_filter_map_push(subs@.take(i as int), subs@[i as int], p, f);
            assert(subs@.take(i + 1) =~= subs@.take(i as int).push(subs@[i as int]));
        }
        if subs[i].signature == sig {
            v.push(&subs[i].raw_data);
            assert(v@.map_values(|x: &Vec<u8>| x@) =~= subs@.take(i as int).filter(p).map_values(
                f,
            ).push(f(subs@[i as int])));
        }
        i = i + 1;
    }
    assert(subs@.take(i as int) =~= subs@);
    v
}

/// Whether two lists of byte strings are equal.
fn data_lists_equal(x: &Vec<&Vec<u8>>, y: &Vec<&Vec<u8>>) -> (r: bool)
    ensures
        r == (x@.map_values(|d: &Vec<u8>| d@) == y@.map_values(|d: &Vec<u8>| d@)),
{
    let ghost xs = x@.map_values(|d: &Vec<u8>| d@);
    let ghost ys = y@.map_values(|d: &Vec<u8>| d@);
    if x.len() != y.len() {
        assert(xs.len() != ys.len());
        return false;
    }
    let mut i: usize = 0;
    while i < x.len()
        invariant
            i <= x@.len(),
            x@.len() == y@.len(),
            xs == x@.map_values(|d: &Vec<u8>| d@),
            ys == y@.map_values(|d: &Vec<u8>| d@),
            forall|j: int| 0 <= j < i ==> xs[j] == ys[j],
        decreases x.len() - i,
    {
        if !bytes_equal(x[i].as_slice(), y[i].as_slice()) {
            assert(xs[i as int] != ys[i as int]);
            return false;
        }
        i = i + 1;
    }
    assert(xs =~= ys);
    true
}

/// The concatenation of a list of byte strings.
fn concat_data(x: &Vec<&Vec<u8>>) -> (r: Vec<u8>)
    ensures
        r@ == concat_bytes(x@.map_values(|d: &Vec<u8>| d@)),
{
    let ghost xs = x@.map_values(|d: &Vec<u8>| d@);
    let mut r: Vec<u8> = Vec::new();
    let mut i: usize = 0;
    while i < x.len()
        invariant
            i <= x@.len(),
            xs == x@.map_values(|d: &Vec<u8>| d@),
            r@ == concat_bytes(xs.take(i as int)),
        decreases x.len() - i,
    {
        assert(xs.take(i + 1).drop_last() =~= xs.take(i as int));
        append_bytes(&mut r, x[i].as_slice());
        i = i + 1;
    }
    assert(xs.take(i as int) =~= xs);
    r
}

/// Whether `v` holds `sig`.
fn contains_sig(v: &Vec<Signature>, sig: Signature) -> (r: bool)
    ensures
        r == v@.contains(sig),
{
    let mut i: usize = 0;
    while i < v.len()
        invariant
            i <= v@.len(),
            forall|j: int| 0 <= j < i ==> v@[j] != sig,
        decreases v.len() - i,
    {
        if v[i] == sig {
            assert(v@[i as int] == sig);
            return true;
        }
        i = i + 1;
    }
    false
}

/// Build subrecord-level diffs between two records.
fn diff_subrecords_impl(
    plugin_a_index: usize,
    record_a: &Record,
    plugin_b_index: usize,
    record_b: &Record,
) -> (v: Vec<SubrecordDiff>)
    ensures
        v@.len() == diff_sigs(record_a.subrecords@, record_b.subrecords@).len(),
        forall|k: int|
            0 <= k < v@.len() ==> diff_matches(
                #[trigger] v@[k],
                diff_sigs(record_a.subrecords@, record_b.subrecords@)[k],
                plugin_a_index,
                record_a.subrecords@,
                plugin_b_index,
                record_b.subrecords@,
            ),
{
    let ghost sa = record_a.subrecords@;
    let ghost sb = record_b.subrecords@;
    // Every signature, of `a` then of `b`.
    let mut sigs: Vec<Signature> = Vec::new();
    let mut i: usize = 0;
    while i < record_a.subrecords.len()
        invariant
            i <= sa.len(),
            sa == record_a.subrecords@,
            sigs@ == sig_list(sa.take(i as int)),
        decreases record_a.subrecords.len() - i,
    {
        sigs.push(record_a.subrecords[i].signature);
        assert(sig_list(sa.take(i + 1)) =~= sig_list(sa.take(i as int)).push(sa[i as int].signature));
        i = i + 1;
    }
    assert(sa.take(i as int) =~= sa);
    let mut i: usize = 0;
    while i < record_b.subrecords.len()
        invariant
            i <= sb.len(),
            sb == record_b.subrecords@,
            sigs@ == sig_list(sa) + sig_list(sb.take(i as int)),
        decreases record_b.subrecords.len() - i,
    {
        sigs.push(record_b.subrecords[i].signature);
        assert(sig_list(sb.take(i + 1)) =~= sig_list(sb.take(i as int)).push(sb[i as int].signature));
        i = i + 1;
    }
    assert(sb.take(i as int) =~= sb);
    assert(sigs@ =~= sig_list(sa) + sig_list(sb));
    // The distinct signatures, in order of first appearance.
    let mut all_sigs: Vec<Signature> = Vec::new();
    let mut i: usize = 0;
    while i < sigs.len()
        invariant
            i <= sigs@.len(),
            all_sigs@ == distinct_sigs(sigs@.take(i as int)),
        decreases sigs.len() - i,
    {
        assert(sigs@.take(i + 1).drop_last() =~= sigs@.take(i as int));
        if !contains_sig(&all_sigs, sigs[i]) {
            all_sigs.push(sigs[i]);
        }
        i = i + 1;
    }
    assert(sigs@.take(i as int) =~= sigs@);
    let ghost ds = all_sigs@;
    let ghost pd = |sig: Signature| data_list(sa, sig) != data_list(sb, sig);
    assert(diff_sigs(sa, sb) == ds.filter(pd));
    let mut diffs: Vec<SubrecordDiff> = Vec::new();
    let mut k: usize = 0;
    while k < all_sigs.len()
        invariant
            k <= ds.len(),
            ds == all_sigs@,
            sa == record_a.subrecords@,
            sb == record_b.subrecords@,
            pd == (|sig: Signature| data_list(sa, sig) != data_list(sb, sig)),
            diffs@.len() == ds.take(k as int).filter(pd).len(),
            forall|m: int|
                0 <= m < diffs@.len() ==> diff_matches(
                    #[trigger] diffs@[m],
                    ds.take(k as int).filter(pd)[m],
                    plugin_a_index,
                    sa,
                    plugin_b_index,
                    sb,
                ),
        decreases all_sigs.len() - k,
    {
        let sig = all_sigs[k];
        proof {
            lemma_filter_push(ds.take(k as int), sig, pd);
            assert(ds.take(k + 1) =~= ds.take(k as int).push(sig));
        }
        let da = data_of(&record_a.subrecords, sig);
        let db = data_of(&record_b.subrecords, sig);
        if !data_lists_equal(&da, &db) {
            let ca = concat_data(&da);
            let cb = concat_data(&db);
            let ghost prev = diffs@;
            diffs.push(SubrecordDiff { signature: sig, plugin_data: vec![(plugin_a_index, ca), (plugin_b_index, cb)] });
            assert forall|m: int| 0 <= m < diffs@.len() implies diff_matches(
                #[trigger] diffs@[m],
                ds.take(k + 1).filter(pd)[m],
                plugin_a_index,
                sa,
                plugin_b_index,
                sb,
            ) by {
                if m < prev.len() {
                    assert(diffs@[m] == prev[m]);
                }
            }
        }
        k = k + 1;
    }
    assert(ds.take(k as int) =~= ds);
    diffs
}

impl<'a> ConflictDetector<'a> {
    /// A field-level diff between two records: one entry for each subrecord
    /// signature (in order of first appearance, in `record_a` then in
    /// `record_b`) whose data differs between them or that only one has.
    pub fn diff_subrecords(
        &self,
        plugin_a_index: usize,
        record_a: &Record,
        plugin_b_index: usize,
        record_b: &Record,
    ) -> (v: Vec<SubrecordDiff>)
        ensures
            v@.len() == diff_sigs(record_a.subrecords@, record_b.subrecords@).len(),
            forall|k: int|
                0 <= k < v@.len() ==> diff_matches(
                    #[trigger] v@[k],
                    diff_sigs(record_a.subrecords@, record_b.subrecords@)[k],
                    plugin_a_index,
                    record_a.subrecords@,
                    plugin_b_index,
                    record_b.subrecords@,
                ),
    {
        diff_subrecords_impl(plugin_a_index, record_a, plugin_b_index, record_b)
    }
}

/// The conflict entry `c` reports the records of the load order that
/// resolve to `t` (at least two): the first one's FormID and signature,
/// the severity of the group, and each record's plugin index and raw FormID
/// in load order.
#[verifier::opaque]
pub open spec fn conflict_matches(c: RecordConflict, lo: LoadOrder, t: Resolved) -> bool {
    let es = overrides_upto(lo, t, lo.plugins@.len() as int);
    &&& es.len() >= 2
    &&& c.form_id == es[0].1.form_id
    &&& c.signature == es[0].1.signature
    &&& c.severity == spec_classify(es.map_values(|e: (int, Record)| e.1))
    &&& c.entries@ == es.map_values(|e: (int, Record)| (e.0 as usize, e.1.form_id))
}

/// The conflict entry `c` reports some target.
pub open spec fn reports_some_target(c: RecordConflict, lo: LoadOrder) -> bool {
    exists|t: Resolved| #[trigger] conflict_matches(c, lo, t)
}

/// Conflicts sorted by the raw value of their FormID.
pub open spec fn sorted_by_form_id(s: Seq<RecordConflict>) -> bool {
    forall|k: int, m: int| 0 <= k < m < s.len() ==> (#[trigger] s[k]).form_id.0 <= (
    #[trigger] s[m]).form_id.0
}

/// A conflict entry reports one target only.
pub proof fn lemma_conflict_target_unique(c: RecordConflict, lo: LoadOrder, t1: Resolved, t2: Resolved)
    requires
        conflict_matches(c, lo, t1),
        conflict_matches(c, lo, t2),
    ensures
        t1 == t2,
{
    reveal(conflict_matches);
    let n = lo.plugins@.len() as int;
    assert(lo.plugins.len() == n);
    lemma_overrides_upto(lo, t1, n);
    lemma_overrides_upto(lo, t2, n);
    let e1 = overrides_upto(lo, t1, n)[0];
    let e2 = overrides_upto(lo, t2, n)[0];
    assert(c.entries@[0] == (e1.0 as usize, e1.1.form_id));
    assert(c.entries@[0] == (e2.0 as usize, e2.1.form_id));
    assert(e1.0 == e2.0);
}

/// Insert `c` into a list sorted by FormID, after the entries with an equal
/// FormID; returns the position.
fn insert_sorted(out: &mut Vec<RecordConflict>, c: RecordConflict) -> (p: usize)
    requires
        sorted_by_form_id(old(out)@),
    ensures
        p <= old(out)@.len(),
        final(out)@ == old(out)@.insert(p as int, c),
        sorted_by_form_id(final(out)@),
{
    let mut p: usize = 0;
    while p < out.len() && out[p].form_id.0 <= c.form_id.0
        invariant
            p <= out@.len(),
            forall|k: int| 0 <= k < p ==> (#[trigger] out@[k]).form_id.0 <= c.form_id.0,
        decreases out.len() - p,
    {
        p = p + 1;
    }
    let ghost prev = out@;
    out.insert(p, c);
    assert forall|k: int, m: int| 0 <= k < m < out@.len() implies (#[trigger] out@[k]).form_id.0
        <= (#[trigger] out@[m]).form_id.0 by {
        if m < p {
            assert(out@[k] == prev[k] && out@[m] == prev[m]);
        } else if m == p {
            assert(out@[k] == prev[k]);
        } else if k < p {
            assert(out@[k] == prev[k] && out@[m] == prev[m - 1]);
        } else if k == p {
            assert(out@[m] == prev[m - 1]);
            assert(prev[p as int].form_id.0 > c.form_id.0);
            if p < m - 1 {
                assert(prev[p as int].form_id.0 <= prev[m - 1].form_id.0);
            }
        } else {
            assert(out@[k] == prev[k - 1] && out@[m] == prev[m - 1]);
        }
    }
    p
}

/// Whether `v` holds the key `key`.
fn contains_key(v: &Vec<(usize, u32)>, key: (usize, u32)) -> (r: bool)
    ensures
        r == v@.contains(key),
{
    let mut i: usize = 0;
    while i < v.len()
        invariant
            i <= v@.len(),
            forall|j: int| 0 <= j < i ==> v@[j] != key,
        decreases v.len() - i,
    {
        if v[i].0 == key.0 && v[i].1 == key.1 {
            assert(v@[i as int] == key);
            return true;
        }
        i = i + 1;
    }
    false
}

/// The value of a list of keys.
pub open spec fn keys_view(v: Seq<(usize, u32)>) -> Seq<Resolved> {
    v.map_values(|e: (usize, u32)| (e.0 as int, e.1))
}

/// No two entries of `out` report the same target.
pub open spec fn unique_targets(out: Seq<RecordConflict>, lo: LoadOrder) -> bool {
    forall|k: int, m: int, t: Resolved|
        0 <= k < out.len() && 0 <= m < out.len() && #[trigger] conflict_matches(out[k], lo, t)
            && #[trigger] conflict_matches(out[m], lo, t) ==> k == m
}

/// `targets` lists the target that each entry of `out` reports: distinct
/// targets, all seen, and every seen target with at least two records.
pub open spec fn tracks(
    out: Seq<RecordConflict>,
    lo: LoadOrder,
    seen: Seq<Resolved>,
    targets: Seq<Resolved>,
) -> bool {
    &&& targets.len() == out.len()
    &&& forall|k: int|
        0 <= k < out.len() ==> seen.contains(#[trigger] targets[k]) && conflict_matches(
            out[k],
            lo,
            targets[k],
        )
    &&& forall|t: Resolved|
        #[trigger] seen.contains(t) && overrides_upto(lo, t, lo.plugins@.len() as int).len() >= 2
            ==> targets.contains(t)
    &&& targets.no_duplicates()
}

proof fn lemma_contains_push<A>(s: Seq<A>, x: A, y: A)
    ensures
        s.push(x).contains(y) <==> s.contains(y) || y == x,
{
    if s.contains(y) {
        let j = choose|j: int| 0 <= j < s.len() && s[j] == y;
        assert(s.push(x)[j] == y);
    }
    if y == x {
        assert(s.push(x)[s.len() as int] == x);
    }
    if s.push(x).contains(y) {
        let j = choose|j: int| 0 <= j < s.push(x).len() && s.push(x)[j] == y;
        if j < s.len() {
            assert(s[j] == y);
        }
    }
}

/// Recording a new target that has fewer than two records keeps the
/// tracking.
proof fn lemma_seen_push(
    out: Seq<RecordConflict>,
    lo: LoadOrder,
    seen: Seq<Resolved>,
    targets: Seq<Resolved>,
    t0: Resolved,
)
    requires
        overrides_upto(lo, t0, lo.plugins@.len() as int).len() < 2,
        tracks(out, lo, seen, targets),
    ensures
        tracks(out, lo, seen.push(t0), targets),
{
    assert forall|k: int| 0 <= k < out.len() implies seen.push(t0).contains(
        #[trigger] targets[k],
    ) by {
        lemma_contains_push(seen, t0, targets[k]);
    }
    assert forall|t: Resolved|
        #[trigger] seen.push(t0).contains(t) && overrides_upto(lo, t, lo.plugins@.len() as int).len()
            >= 2 implies targets.contains(t) by {
        lemma_contains_push(seen, t0, t);
    }
}

/// Recording a new target and inserting its conflict entry keeps the
/// tracking.
proof fn lemma_insert_conflict(
    out: Seq<RecordConflict>,
    lo: LoadOrder,
    seen: Seq<Resolved>,
    targets: Seq<Resolved>,
    c: RecordConflict,
    t0: Resolved,
    p: int,
)
    requires
        0 <= p <= out.len(),
        conflict_matches(c, lo, t0),
        !seen.contains(t0),
        tracks(out, lo, seen, targets),
    ensures
        tracks(out.insert(p, c), lo, seen.push(t0), targets.insert(p, t0)),
{
    let o2 = out.insert(p, c);
    let s2 = seen.push(t0);
    let g2 = targets.insert(p, t0);
    assert forall|k: int| 0 <= k < o2.len() implies s2.contains(#[trigger] g2[k])
        && conflict_matches(o2[k], lo, g2[k]) by {
        if k < p {
            assert(o2[k] == out[k] && g2[k] == targets[k]);
        } else if k > p {
            assert(o2[k] == out[k - 1] && g2[k] == targets[k - 1]);
        }
        lemma_contains_push(seen, t0, g2[k]);
    }
    assert forall|t: Resolved|
        #[trigger] s2.contains(t) && overrides_upto(lo, t, lo.plugins@.len() as int).len() >= 2
            implies g2.contains(t) by {
        lemma_contains_push(seen, t0, t);
        if t == t0 {
            assert(g2[p] == t0);
        } else {
            let j = choose|j: int| 0 <= j < targets.len() && targets[j] == t;
            if j < p {
                assert(g2[j] == t);
            } else {
                assert(g2[j + 1] == t);
            }
        }
    }
    assert forall|k: int, m: int| 0 <= k < g2.len() && 0 <= m < g2.len() && k != m implies g2[k]
        != g2[m] by {
        if k != p && m != p {
            let k0 = if k < p {
                k
            } else {
                k - 1
            };
            let m0 = if m < p {
                m
            } else {
                m - 1
            };
            assert(g2[k] == targets[k0] && g2[m] == targets[m0]);
        } else if k == p {
            let m0 = if m < p {
                m
            } else {
                m - 1
            };
            assert(g2[m] == targets[m0]);
            assert(seen.contains(targets[m0]));
        } else {
            let k0 = if k < p {
                k
            } else {
                k - 1
            };
            assert(g2[k] == targets[k0]);
            assert(seen.contains(targets[k0]));
        }
    }
}

/// The tracked entries report distinct targets.
proof fn lemma_tracks_unique(
    out: Seq<RecordConflict>,
    lo: LoadOrder,
    seen: Seq<Resolved>,
    targets: Seq<Resolved>,
)
    requires
        tracks(out, lo, seen, targets),
    ensures
        unique_targets(out, lo),
{
    assert forall|k: int, m: int, t: Resolved|
        0 <= k < out.len() && 0 <= m < out.len() && #[trigger] conflict_matches(out[k], lo, t)
            && #[trigger] conflict_matches(out[m], lo, t) implies k == m by {
        assert(seen.contains(targets[k]) && seen.contains(targets[m]));
        lemma_conflict_target_unique(out[k], lo, targets[k], t);
        lemma_conflict_target_unique(out[m], lo, targets[m], t);
    }
}

impl<'a> ConflictDetector<'a> {
    /// The conflict entry of the records `entries`, which are those that
    /// resolve to `key`.
    fn build_conflict(&self, key: (usize, FormId), entries: &Vec<(usize, &Record)>) -> (c: RecordConflict)
        requires
            entries_view(entries@) == overrides_upto(
                self.spec_load_order(),
                (key.0 as int, key.1.0),
                self.spec_load_order().plugins@.len() as int,
            ),
            entries@.len() >= 2,
        ensures
            conflict_matches(c, self.spec_load_order(), (key.0 as int, key.1.0)),
    {
        let ghost es = entries_view(entries@);
        let first: &Record = entries[0].1;
        assert(es[0].1 == *first);
        let severity = self.classify_conflict(entries.as_slice());
        let ghost g = |e: (int, Record)| (e.0 as usize, e.1.form_id);
        let mut list: Vec<(usize, FormId)> = Vec::new();
        let mut k: usize = 0;
        while k < entries.len()
            invariant
                k <= entries@.len(),
                es == entries_view(entries@),
                g == (|e: (int, Record)| (e.0 as usize, e.1.form_id)),
                list@ == es.take(k as int).map_values(g),
            decreases entries.len() - k,
        {
            let e = entries[k];
            assert(es[k as int] == (e.0 as int, *e.1));
            list.push((e.0, e.1.form_id));
            assert(list@ =~= es.take(k + 1).map_values(g));
            k = k + 1;
        }
        assert(es.take(k as int) =~= es);
        let c = RecordConflict {
            form_id: first.form_id,
            signature: first.signature,
            severity,
            entries: list,
        };
        proof {
            reveal(conflict_matches);
        }
        c
    }

    /// Scan the entire load order for FormIDs that more than one record
    /// resolves to: one entry per such FormID (see [`conflict_matches`]),
    /// sorted by the raw value of the entry's FormID.
    pub fn detect_all_conflicts(&self) -> (v: Vec<RecordConflict>)
        ensures
            forall|k: int|
                0 <= k < v@.len() ==> reports_some_target(#[trigger] v@[k], self.spec_load_order()),
            forall|t: Resolved|
                #[trigger] overrides_upto(
                    self.spec_load_order(),
                    t,
                    self.spec_load_order().plugins@.len() as int,
                ).len() >= 2 ==> exists|k: int|
                    0 <= k < v@.len() && conflict_matches(v@[k], self.spec_load_order(), t),
            unique_targets(v@, self.spec_load_order()),
            sorted_by_form_id(v@),
    {
        let lo: &'a LoadOrder = self.load_order;
        let ghost n = lo.plugins@.len() as int;
        let mut seen: Vec<(usize, u32)> = Vec::new();
        let mut out: Vec<RecordConflict> = Vec::new();
        let ghost mut targets: Seq<Resolved> = seq![];
        let mut i: usize = 0;
        while i < lo.plugins.len()
            invariant
                i <= n,
                n == lo.plugins@.len(),
                *lo == self.spec_load_order(),
                forall|t: Resolved|
                    #[trigger] overrides_upto(*lo, t, i as int).len() > 0 ==> keys_view(
                        seen@,
                    ).contains(t),
                tracks(out@, *lo, keys_view(seen@), targets),
                sorted_by_form_id(out@),
            decreases lo.plugins.len() - i,
        {
            let recs = lo.plugins[i].all_records();
            let ghost all = plugin_records(lo.plugins@[i as int]);
            let mut j: usize = 0;
            while j < recs.len()
                invariant
                    i < n,
                    n == lo.plugins@.len(),
                    j <= recs@.len(),
                    all == plugin_records(lo.plugins@[i as int]),
                    recs@.map_values(|r: &Record| *r) == all,
                    *lo == self.spec_load_order(),
                    forall|t: Resolved|
                        #[trigger] overrides_upto(*lo, t, i as int).len() + matching_records(
                            *lo,
                            t,
                            i as int,
                            all.take(j as int),
                        ).len() > 0 ==> keys_view(seen@).contains(t),
                    tracks(out@, *lo, keys_view(seen@), targets),
                    sorted_by_form_id(out@),
                decreases recs.len() - j,
            {
                let r = recs[j];
                assert(all[j as int] == *r);
                assert(all.take(j + 1) =~= all.take(j as int).push(*r));
                let res = lo.resolve_form_id(i, r.form_id);
                let ghost old_seen = keys_view(seen@);
                if let Some((target_plugin, target_local)) = res {
                    let key = (target_plugin, target_local.raw());
                    let ghost t0: Resolved = (key.0 as int, key.1);
                    let already = contains_key(&seen, key);
                    if !already {
                        assert(!old_seen.contains(t0)) by {
                            if old_seen.contains(t0) {
                                let q = choose|q: int| 0 <= q < old_seen.len() && old_seen[q] == t0;
                                assert(seen@[q] == key);
                            }
                        }
                        let entries = lo.overrides_of((target_plugin, target_local));
                        seen.push(key);
                        assert(keys_view(seen@) =~= old_seen.push(t0));
                        if entries.len() >= 2 {
                            let c = self.build_conflict((target_plugin, target_local), &entries);
                            let ghost prev = out@;
                            let p = insert_sorted(&mut out, c);
                            proof {
                                lemma_insert_conflict(prev, *lo, old_seen, targets, c, t0, p as int);
                                targets = targets.insert(p as int, t0);
                            }
                        } else {
                            proof {
                                lemma_seen_push(out@, *lo, old_seen, targets, t0);
                            }
                        }
                    }
                    assert(keys_view(seen@).contains(t0)) by {
                        if !already {
                            assert(seen@[seen@.len() - 1] == key);
                        }
                        assert(seen@.contains(key));
                        let q = choose|q: int| 0 <= q < seen@.len() && seen@[q] == key;
                        assert(keys_view(seen@)[q] == t0);
                    }
                }
                assert forall|t: Resolved|
                    #[trigger] overrides_upto(*lo, t, i as int).len() + matching_records(
                        *lo,
                        t,
                        i as int,
                        all.take(j + 1),
                    ).len() > 0 implies keys_view(seen@).contains(t) by {
                    lemma_matching_push(*lo, t, i as int, all.take(j as int), *r);
                    if old_seen.contains(t) {
                        let q = choose|q: int| 0 <= q < old_seen.len() && old_seen[q] == t;
                        assert(keys_view(seen@)[q] == t);
                    }
                }
                j = j + 1;
            }
            proof {
                assert(all.take(j as int) =~= all);
                assert forall|t: Resolved|
                    #[trigger] overrides_upto(*lo, t, i + 1).len() > 0 implies keys_view(
                        seen@,
                    ).contains(t) by {
                    assert(overrides_upto(*lo, t, i + 1) == overrides_upto(*lo, t, i as int)
                        + matching_records(*lo, t, i as int, all));
                }
            }
            i = i + 1;
        }
        proof {
            let seen_v = keys_view(seen@);
            let l = self.spec_load_order();
            assert(l == *lo);
            lemma_tracks_unique(out@, l, seen_v, targets);
            assert forall|k: int| 0 <= k < out@.len() implies reports_some_target(
                #[trigger] out@[k],
                l,
            ) by {
                assert(conflict_matches(out@[k], l, targets[k]));
            }
            assert forall|t: Resolved|
                #[trigger] overrides_upto(l, t, l.plugins@.len() as int).len() >= 2 implies exists|
                k: int,
            | 0 <= k < out@.len() && conflict_matches(out@[k], l, t) by {
                assert(overrides_upto(l, t, i as int).len() > 0);
                assert(seen_v.contains(t));
                assert(targets.contains(t));
                let k = choose|k: int| 0 <= k < targets.len() && targets[k] == t;
                assert(conflict_matches(out@[k], l, targets[k]));
            }
        }
        out
    }
}

/// A record that ITM detection reports matches the master record it
/// overrides in every header field it keeps (flags, version-control info,
/// form version, unknown field) and in every subrecord's signature and
/// data: an override whose form version (or any of these) differs is never
/// identical to master.
pub proof fn lemma_itm_matches_master(lo: LoadOrder, idx: int, r: Record)
    requires
        is_itm(lo, idx, r),
    ensures
        spec_resolve_record(lo, idx, r.form_id.0) matches Some((m, mr)) && {
            &&& m != idx
            &&& mr.flags == r.flags
            &&& mr.vc_info == r.vc_info
            &&& mr.version == r.version
            &&& mr.unknown == r.unknown
            &&& mr.subrecords@.len() == r.subrecords@.len()
            &&& forall|k: int|
                0 <= k < r.subrecords@.len() ==> (#[trigger] r.subrecords@[k]).signature
                    == mr.subrecords@[k].signature && r.subrecords@[k].raw_data@
                    == mr.subrecords@[k].raw_data@
        },
{
}

/// Records with an override that differs from the master in a header field
/// (flags, version-control info, form version or unknown field) are not
/// classified ITM; when every override keeps the master's flags and
/// subrecords, they are Benign.
pub proof fn lemma_header_difference_not_itm(rs: Seq<Record>, k: int)
    requires
        1 <= k < rs.len(),
        rs[k].flags != rs[0].flags || rs[k].vc_info != rs[0].vc_info || rs[k].version
            != rs[0].version || rs[k].unknown != rs[0].unknown,
    ensures
        spec_classify(rs) != ConflictSeverity::ITM,
        (forall|j: int|
            1 <= j < rs.len() ==> (#[trigger] rs[j]).flags == rs[0].flags && subrecords_identical(
                rs[j].subrecords@,
                rs[0].subrecords@,
            )) ==> spec_classify(rs) == ConflictSeverity::Benign,
{
    assert(!records_identical(rs[k], rs[0]));
}

} // verus!
