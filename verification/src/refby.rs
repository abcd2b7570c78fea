//! The "referenced by" index: for every record, the records whose data
//! mentions its FormID.
//!
//! A record refers to a FormID when a 4-byte-aligned little-endian word of
//! one of its (non-text) subrecords equals a FormID defined somewhere in the
//! loaded plugins.

use vstd::prelude::*;

use crate::bytes::{le32, read_u32};
use crate::group::{group_records, Group};
use crate::plugin::{collect_records_from_group, Plugin};
use crate::record::Record;
use crate::signature::Signature;
use crate::subrecord::Subrecord;

verus! {

broadcast use vstd::seq_lib::group_to_multiset_ensures;

/// An index entry: (referenced FormID, plugin index, group index, record
/// index within the flattened group) of the referring record.
pub type RefEntry = (u32, i32, i32, i32);

/// A record with its position: plugin index, top-level group index, and
/// index among the group's records (depth-first).
pub type Located = (int, int, int, Record);

/// The records of one group, with their positions.
pub open spec fn group_located(pi: int, gi: int, recs: Seq<Record>) -> Seq<Located> {
    Seq::new(recs.len(), |ri: int| (pi, gi, ri, recs[ri]))
}

/// The records of a plugin's top-level groups, with their positions.
pub open spec fn plugin_located(pi: int, gs: Seq<Group>) -> Seq<Located>
    decreases gs.len(),
{
    if gs.len() == 0 {
        seq![]
    } else {
        plugin_located(pi, gs.drop_last()) + group_located(
            pi,
            gs.len() - 1,
            group_records(gs.last()),
        )
    }
}

/// The records of all plugins' top-level groups, with their positions.
pub open spec fn all_located(ps: Seq<Plugin>) -> Seq<Located>
    decreases ps.len(),
{
    if ps.len() == 0 {
        seq![]
    } else {
        all_located(ps.drop_last()) + plugin_located(ps.len() - 1, ps.last().groups@)
    }
}

/// Whether `f` is the (non-null) FormID of some record of the plugins.
pub open spec fn is_known(ps: Seq<Plugin>, f: u32) -> bool {
    f != 0 && exists|k: int|
        0 <= k < all_located(ps).len() && (#[trigger] all_located(ps)[k]).3.form_id.0 == f
}

/// Whether a subrecord holds text and is never scanned for references:
/// EDID, FULL, DESC, MODL, ICON, MICO, TX00, TX01.
pub open spec fn is_text_sig(s: Signature) -> bool {
    let b = s.0@;
    b == seq![0x45u8, 0x44, 0x49, 0x44] || b == seq![0x46u8, 0x55, 0x4C, 0x4C] || b == seq![
        0x44u8,
        0x45,
        0x53,
        0x43,
    ] || b == seq![0x4Du8, 0x4F, 0x44, 0x4C] || b == seq![0x49u8, 0x43, 0x4F, 0x4E] || b == seq![
        0x4Du8,
        0x49,
        0x43,
        0x4F,
    ] || b == seq![0x54u8, 0x58, 0x30, 0x30] || b == seq![0x54u8, 0x58, 0x30, 0x31]
}

/// The first `n` little-endian words of `d`, at offsets 0, 4, 8, ...
pub open spec fn data_words(d: Seq<u8>, n: int) -> Seq<u32>
    decreases n,
{
    if n <= 0 {
        seq![]
    } else {
        data_words(d, n - 1).push(le32(d, 4 * (n - 1)) as u32)
    }
}

/// The words scanned in a record's subrecords, in order: every whole word
/// of each non-text subrecord.
pub open spec fn scanned_words(subs: Seq<Subrecord>) -> Seq<u32>
    decreases subs.len(),
{
    if subs.len() == 0 {
        seq![]
    } else {
        let s = subs.last();
        scanned_words(subs.drop_last()) + if is_text_sig(s.signature) {
            seq![]
        } else {
            data_words(s.raw_data@, s.raw_data@.len() as int / 4)
        }
    }
}

/// The FormIDs a record refers to, each once, in order of first mention:
/// the scanned words that are non-null, not the record's own FormID, and
/// known.
pub open spec fn new_refs(ws: Seq<u32>, src: u32, known: spec_fn(u32) -> bool) -> Seq<u32>
    decreases ws.len(),
{
    if ws.len() == 0 {
        seq![]
    } else {
        let prev = new_refs(ws.drop_last(), src, known);
        let w = ws.last();
        if w != 0 && w != src && known(w) && !prev.contains(w) {
            prev.push(w)
        } else {
            prev
        }
    }
}

/// The index entry for a reference to `t` by the located record `l`.
pub open spec fn entry_of(t: u32, l: Located) -> RefEntry {
    (t, l.0 as i32, l.1 as i32, l.2 as i32)
}

/// The index entries of one located record.
pub open spec fn located_refs(l: Located, known: spec_fn(u32) -> bool) -> Seq<RefEntry> {
    new_refs(scanned_words(l.3.subrecords@), l.3.form_id.0, known).map_values(
        |t: u32| entry_of(t, l),
    )
}

/// The index entries of a sequence of located records, in order.
pub open spec fn refs_of(ls: Seq<Located>, known: spec_fn(u32) -> bool) -> Seq<RefEntry>
    decreases ls.len(),
{
    if ls.len() == 0 {
        seq![]
    } else {
        refs_of(ls.drop_last(), known) + located_refs(ls.last(), known)
    }
}

/// All references between the records of the plugins.
pub open spec fn spec_refby(ps: Seq<Plugin>) -> Seq<RefEntry> {
    refs_of(all_located(ps), |f: u32| is_known(ps, f))
}

/// Whether index entries are sorted by referenced FormID.
pub open spec fn sorted_by_target(s: Seq<RefEntry>) -> bool {
    forall|i: int, j: int| 0 <= i <= j < s.len() ==> (#[trigger] s[i]).0 <= (#[trigger] s[j]).0
}

/// Whether a sequence of words is sorted.
pub open spec fn sorted_words(s: Seq<u32>) -> bool {
    forall|i: int, j: int| 0 <= i <= j < s.len() ==> #[trigger] s[i] <= #[trigger] s[j]
}

/// Sort words ascending with `slice::sort_unstable`, whose documentation
/// promises a sorted permutation of the input.
#[verifier::external_body]
fn sort_words(v: &mut Vec<u32>)
    ensures
        final(v)@.to_multiset() == old(v)@.to_multiset(),
        sorted_words(final(v)@),
{
    v.sort_unstable();
}

/// Sort index entries by referenced FormID with
/// `slice::sort_unstable_by_key`, whose documentation promises a
/// permutation of the input sorted by the key (equal keys in any order).
#[verifier::external_body]
fn sort_entries_by_target(v: &mut Vec<RefEntry>)
    ensures
        final(v)@.to_multiset() == old(v)@.to_multiset(),
        sorted_by_target(final(v)@),
{
    v.sort_unstable_by_key(|e| e.0);
}

/// Whether a sorted list of words holds `x` (binary search).
fn sorted_contains(v: &Vec<u32>, x: u32) -> (b: bool)
    requires
        sorted_words(v@),
    ensures
        b == v@.contains(x),
{
    let mut lo: usize = 0;
    let mut hi: usize = v.len();
    while lo < hi
        invariant
            lo <= hi <= v@.len(),
            sorted_words(v@),
            forall|k: int| 0 <= k < lo ==> #[trigger] v@[k] < x,
            forall|k: int| hi <= k < v@.len() ==> #[trigger] v@[k] > x,
        decreases hi - lo,
    {
        let mid = lo + (hi - lo) / 2;
        if v[mid] < x {
            lo = mid + 1;
        } else if v[mid] > x {
            hi = mid;
        } else {
            return true;
        }
    }
    proof {
        if v@.contains(x) {
            let k = choose|k: int| 0 <= k < v@.len() && v@[k] == x;
            assert(v@[k] == x);
        }
    }
    false
}

/// The position and record of a flattened entry.
pub open spec fn loc_view<'a>(t: (usize, usize, usize, &'a Record)) -> Located {
    (t.0 as int, t.1 as int, t.2 as int, *t.3)
}

/// Append the records of group `gi` of plugin `pi`, with their positions.
fn push_group_records<'a>(
    pi: usize,
    gi: usize,
    g: &'a Group,
    all: &mut Vec<(usize, usize, usize, &'a Record)>,
)
    ensures
        final(all)@.map_values(|t: (usize, usize, usize, &'a Record)| loc_view(t)) == old(
            all,
        )@.map_values(|t: (usize, usize, usize, &'a Record)| loc_view(t)) + group_located(
            pi as int,
            gi as int,
            group_records(*g),
        ),
{
    let mut recs: Vec<&'a Record> = Vec::new();
    collect_records_from_group(g, &mut recs);
    let ghost rv = recs@.map_values(|r: &Record| *r);
    assert(rv =~= group_records(*g));
    let ghost start = all@.map_values(|t: (usize, usize, usize, &'a Record)| loc_view(t));
    let mut ri: usize = 0;
    while ri < recs.len()
        invariant
            ri <= recs@.len(),
            rv == recs@.map_values(|r: &Record| *r),
            start == old(all)@.map_values(|t: (usize, usize, usize, &'a Record)| loc_view(t)),
            all@.map_values(|t: (usize, usize, usize, &'a Record)| loc_view(t)) == start
                + group_located(pi as int, gi as int, rv.take(ri as int)),
        decreases recs.len() - ri,
    {
        let ghost before = all@;
        all.push((pi, gi, ri, recs[ri]));
        assert(all@.map_values(|t: (usize, usize, usize, &'a Record)| loc_view(t)) =~= before.map_values(
            |t: (usize, usize, usize, &'a Record)| loc_view(t),
        ).push((pi as int, gi as int, ri as int, rv[ri as int])));
        assert(group_located(pi as int, gi as int, rv.take(ri + 1)) =~= group_located(
            pi as int,
            gi as int,
            rv.take(ri as int),
        ).push((pi as int, gi as int, ri as int, rv[ri as int])));
        ri = ri + 1;
    }
    assert(rv.take(ri as int) =~= rv);
}

/// Every record of the plugins' top-level groups, with its position (see
/// [`all_located`]).
fn flatten_plugins<'a>(plugins: &'a [Plugin]) -> (all: Vec<(usize, usize, usize, &'a Record)>)
    ensures
        all@.map_values(|t: (usize, usize, usize, &'a Record)| loc_view(t)) == all_located(
            plugins@,
        ),
{
    let mut all: Vec<(usize, usize, usize, &'a Record)> = Vec::new();
    let mut pi: usize = 0;
    assert(all@.map_values(|t: (usize, usize, usize, &'a Record)| loc_view(t)) =~= all_located(
        plugins@.take(0),
    ));
    while pi < plugins.len()
        invariant
            pi <= plugins@.len(),
            all@.map_values(|t: (usize, usize, usize, &'a Record)| loc_view(t)) == all_located(
                plugins@.take(pi as int),
            ),
        decreases plugins.len() - pi,
    {
        let p = &plugins[pi];
        let ghost base = all_located(plugins@.take(pi as int));
        let mut gi: usize = 0;
        assert(base + plugin_located(pi as int, p.groups@.take(0)) =~= base);
        while gi < p.groups.len()
            invariant
                gi <= p.groups@.len(),
                *p == plugins@[pi as int],
                pi < plugins@.len(),
                base == all_located(plugins@.take(pi as int)),
                all@.map_values(|t: (usize, usize, usize, &'a Record)| loc_view(t)) == base
                    + plugin_located(pi as int, p.groups@.take(gi as int)),
            decreases p.groups.len() - gi,
        {
            push_group_records(pi, gi, &p.groups[gi], &mut all);
            assert(p.groups@.take(gi + 1).drop_last() =~= p.groups@.take(gi as int));
            assert(base + plugin_located(pi as int, p.groups@.take(gi + 1)) =~= base
                + plugin_located(pi as int, p.groups@.take(gi as int)) + group_located(
                pi as int,
                gi as int,
                group_records(p.groups@[gi as int]),
            ));
            gi = gi + 1;
        }
        assert(p.groups@.take(gi as int) =~= p.groups@);
        assert(plugins@.take(pi + 1).drop_last() =~= plugins@.take(pi as int));
        assert(plugins@.take(pi + 1).last() == *p);
        pi = pi + 1;
    }
    assert(plugins@.take(pi as int) =~= plugins@);
    all
}

/// Whether a signature has the four given bytes.
fn sig_is(s: &Signature, a: u8, b: u8, c: u8, d: u8) -> (r: bool)
    ensures
        r == (s.0@ == seq![a, b, c, d]),
{
    let r = s.0[0] == a && s.0[1] == b && s.0[2] == c && s.0[3] == d;
    proof {
        if r {
            assert(s.0@ =~= seq![a, b, c, d]);
        } else if s.0@ == seq![a, b, c, d] {
            assert(s.0@[0] == a && s.0@[1] == b && s.0@[2] == c && s.0@[3] == d);
        }
    }
    r
}

/// Whether a subrecord signature is a text one (see [`is_text_sig`]).
fn is_text_signature(s: &Signature) -> (r: bool)
    ensures
        r == is_text_sig(*s),
{
    sig_is(s, 0x45, 0x44, 0x49, 0x44) || sig_is(s, 0x46, 0x55, 0x4C, 0x4C) || sig_is(
        s,
        0x44,
        0x45,
        0x53,
        0x43,
    ) || sig_is(s, 0x4D, 0x4F, 0x44, 0x4C) || sig_is(s, 0x49, 0x43, 0x4F, 0x4E) || sig_is(
        s,
        0x4D,
        0x49,
        0x43,
        0x4F,
    ) || sig_is(s, 0x54, 0x58, 0x30, 0x30) || sig_is(s, 0x54, 0x58, 0x30, 0x31)
}

/// Whether `v` holds `x` (linear search).
fn words_contain(v: &Vec<u32>, x: u32) -> (b: bool)
    ensures
        b == v@.contains(x),
{
    let mut i: usize = 0;
    while i < v.len()
        invariant
            i <= v@.len(),
            forall|k: int| 0 <= k < i ==> v@[k] != x,
        decreases v.len() - i,
    {
        if v[i] == x {
            return true;
        }
        i = i + 1;
    }
    false
}

/// Append the index entries of record `r`, located at (`pi`, `gi`, `ri`).
fn scan_record(
    r: &Record,
    pi: usize,
    gi: usize,
    ri: usize,
    ids: &Vec<u32>,
    out: &mut Vec<RefEntry>,
    Ghost(known): Ghost<spec_fn(u32) -> bool>,
)
    requires
        sorted_words(ids@),
        forall|f: u32| ids@.contains(f) == known(f),
    ensures
        final(out)@ == old(out)@ + located_refs((pi as int, gi as int, ri as int, *r), known),
{
    let ghost l: Located = (pi as int, gi as int, ri as int, *r);
    let ghost subs = r.subrecords@;
    let src = r.form_id.0;
    let mut seen: Vec<u32> = Vec::new();
    let mut j: usize = 0;
    assert(seen@ =~= new_refs(scanned_words(subs.take(0)), src, known));
    assert(out@ =~= old(out)@ + seen@.map_values(|t: u32| entry_of(t, l)));
    while j < r.subrecords.len()
        invariant
            j <= subs.len(),
            subs == r.subrecords@,
            l == (pi as int, gi as int, ri as int, *r),
            src == r.form_id.0,
            sorted_words(ids@),
            forall|f: u32| ids@.contains(f) == known(f),
            seen@ == new_refs(scanned_words(subs.take(j as int)), src, known),
            out@ == old(out)@ + seen@.map_values(|t: u32| entry_of(t, l)),
        decreases r.subrecords.len() - j,
    {
        let sr = &r.subrecords[j];
        assert(subs.take(j + 1).drop_last() =~= subs.take(j as int));
        assert(subs.take(j + 1).last() == subs[j as int]);
        if !is_text_signature(&sr.signature) {
            let d = sr.raw_data.as_slice();
            let ghost prefix = scanned_words(subs.take(j as int));
            let n4 = d.len() / 4;
            let mut m: usize = 0;
            assert(prefix + data_words(d@, 0) =~= prefix);
            while m < n4
                invariant
                    m <= n4,
                    n4 == d@.len() / 4,
                    prefix == scanned_words(subs.take(j as int)),
                    l == (pi as int, gi as int, ri as int, *r),
                    src == r.form_id.0,
                    sorted_words(ids@),
                    forall|f: u32| ids@.contains(f) == known(f),
                    seen@ == new_refs(prefix + data_words(d@, m as int), src, known),
                    out@ == old(out)@ + seen@.map_values(|t: u32| entry_of(t, l)),
                decreases n4 - m,
            {
                assert(4 * m + 4 <= d@.len()) by (nonlinear_arith)
                    requires
                        m < n4,
                        n4 == d@.len() / 4,
                ;
                assert(d@.len() == d.len());
                let off: usize = 4 * m;
                let w = read_u32(d, off);
                let ghost ws = prefix + data_words(d@, m as int);
                assert(prefix + data_words(d@, m + 1) =~= ws.push(w));
                assert(ws.push(w).drop_last() =~= ws);
                let fresh = w != 0 && w != src && sorted_contains(ids, w) && !words_contain(
                    &seen,
                    w,
                );
                if fresh {
                    let ghost before = seen@;
                    seen.push(w);
                    out.push(
                        (
                            w,
                            #[verifier::truncate]
                            (pi as i32),
                            #[verifier::truncate]
                            (gi as i32),
                            #[verifier::truncate]
                            (ri as i32),
                        ),
                    );
                    assert(seen@.map_values(|t: u32| entry_of(t, l)) =~= before.map_values(
                        |t: u32| entry_of(t, l),
                    ).push(entry_of(w, l)));
                }
                m = m + 1;
            }
        } else {
            assert(scanned_words(subs.take(j + 1)) =~= scanned_words(subs.take(j as int)));
        }
        j = j + 1;
    }
    assert(subs.take(j as int) =~= subs);
}

/// Build the "referenced by" index of the plugins: for every reference of
/// a record to a FormID defined in the plugins (see [`spec_refby`]), the
/// entry (FormID, plugin, group, record), sorted by FormID.
pub fn build_refby_index(plugins: &[Plugin]) -> (v: Vec<RefEntry>)
    ensures
        sorted_by_target(v@),
        v@.to_multiset() == spec_refby(plugins@).to_multiset(),
{
    let all = flatten_plugins(plugins);
    let ghost ls = all@.map_values(|t: (usize, usize, usize, &Record)| loc_view(t));
    let mut ids: Vec<u32> = Vec::new();
    let mut k: usize = 0;
    while k < all.len()
        invariant
            k <= all@.len(),
            ls == all@.map_values(|t: (usize, usize, usize, &Record)| loc_view(t)),
            forall|f: u32|
                ids@.contains(f) <==> (f != 0 && exists|j: int|
                    0 <= j < k && (#[trigger] ls[j]).3.form_id.0 == f),
        decreases all.len() - k,
    {
        let f = all[k].3.form_id.0;
        assert(ls[k as int].3.form_id.0 == f);
        let ghost before = ids@;
        if f != 0 {
            ids.push(f);
        }
        assert forall|g: u32|
            ids@.contains(g) <==> (g != 0 && exists|j: int|
                0 <= j < k + 1 && (#[trigger] ls[j]).3.form_id.0 == g) by {
            if ids@.contains(g) && !before.contains(g) {
                assert(g == f);
                assert(ls[k as int].3.form_id.0 == g);
            }
            if before.contains(g) {
                let q = choose|q: int| 0 <= q < before.len() && before[q] == g;
                assert(ids@[q] == g);
            }
            if g != 0 && exists|j: int| 0 <= j < k + 1 && (#[trigger] ls[j]).3.form_id.0 == g {
                let j = choose|j: int| 0 <= j < k + 1 && (#[trigger] ls[j]).3.form_id.0 == g;
                if j == k {
                    assert(ids@[ids@.len() - 1] == g);
                }
            }
        }
        k = k + 1;
    }
    let ghost unsorted = ids@;
    sort_words(&mut ids);
    let ghost known = |f: u32| is_known(plugins@, f);
    assert forall|f: u32| ids@.contains(f) == known(f) by {
        assert(ids@.to_multiset().count(f) == unsorted.to_multiset().count(f));
        assert(ids@.contains(f) == unsorted.contains(f));
    }
    let mut out: Vec<RefEntry> = Vec::new();
    let mut k: usize = 0;
    assert(out@ =~= refs_of(ls.take(0), known));
    while k < all.len()
        invariant
            k <= all@.len(),
            ls == all@.map_values(|t: (usize, usize, usize, &Record)| loc_view(t)),
            ls == all_located(plugins@),
            known == (|f: u32| is_known(plugins@, f)),
            sorted_words(ids@),
            forall|f: u32| ids@.contains(f) == known(f),
            out@ == refs_of(ls.take(k as int), known),
        decreases all.len() - k,
    {
        let (pi, gi, ri, r) = all[k];
        scan_record(r, pi, gi, ri, &ids, &mut out, Ghost(known));
        assert(ls.take(k + 1).drop_last() =~= ls.take(k as int));
        assert(ls.take(k + 1).last() == (pi as int, gi as int, ri as int, *r));
        k = k + 1;
    }
    assert(ls.take(k as int) =~= ls);
    sort_entries_by_target(&mut out);
    out
}

/// The first index whose entry refers to a FormID at or above `x` (`less`)
/// or above `x` (not `less`), in entries sorted by FormID.
fn partition_point(data: &[RefEntry], x: u32, less: bool) -> (i: usize)
    requires
        sorted_by_target(data@),
    ensures
        i <= data@.len(),
        forall|k: int|
            0 <= k < i ==> if less {
                (#[trigger] data@[k]).0 < x
            } else {
                data@[k].0 <= x
            },
        forall|k: int|
            i <= k < data@.len() ==> if less {
                (#[trigger] data@[k]).0 >= x
            } else {
                data@[k].0 > x
            },
{
    let mut lo: usize = 0;
    let mut hi: usize = data.len();
    while lo < hi
        invariant
            lo <= hi <= data@.len(),
            sorted_by_target(data@),
            forall|k: int|
                0 <= k < lo ==> if less {
                    (#[trigger] data@[k]).0 < x
                } else {
                    data@[k].0 <= x
                },
            forall|k: int|
                hi <= k < data@.len() ==> if less {
                    (#[trigger] data@[k]).0 >= x
                } else {
                    data@[k].0 > x
                },
        decreases hi - lo,
    {
        let mid = lo + (hi - lo) / 2;
        let below = if less {
            data[mid].0 < x
        } else {
            data[mid].0 <= x
        };
        if below {
            lo = mid + 1;
        } else {
            hi = mid;
        }
    }
    lo
}

/// The range `(start, end)` (end exclusive) of the entries of a sorted
/// index that refer to `formid`; `(0, 0)` when none does.
pub fn refby_range_for_formid(data: &[RefEntry], formid: u32) -> (r: (usize, usize))
    requires
        sorted_by_target(data@),
    ensures
        (exists|k: int| 0 <= k < data@.len() && (#[trigger] data@[k]).0 == formid) ==> {
            &&& r.0 < r.1 <= data@.len()
            &&& forall|k: int| 0 <= k < data@.len() ==> ((r.0 <= k < r.1) <==> (#[trigger] data@[k]).0 == formid)
        },
        !(exists|k: int| 0 <= k < data@.len() && (#[trigger] data@[k]).0 == formid) ==> r == (
            0usize,
            0usize,
        ),
{
    let start = partition_point(data, formid, true);
    if start >= data.len() || data[start].0 != formid {
        proof {
            if exists|k: int| 0 <= k < data@.len() && (#[trigger] data@[k]).0 == formid {
                let k = choose|k: int| 0 <= k < data@.len() && (#[trigger] data@[k]).0 == formid;
                if k >= start {
                    assert(data@[start as int].0 <= data@[k].0);
                }
            }
        }
        return (0, 0);
    }
    let end = partition_point(data, formid, false);
    (start, end)
}

/// The text subrecords EDID, FULL, DESC, MODL, ICON, MICO, TX00 and TX01,
/// and no others, are skipped when scanning for references; every other
/// subrecord contributes each of its whole little-endian words, in order.
pub proof fn lemma_text_subrecords_skipped(before: Seq<Subrecord>, s: Subrecord)
    ensures
        scanned_words(before.push(s)) == scanned_words(before) + if ({
            let b = s.signature.0@;
            ||| b == seq![0x45u8, 0x44, 0x49, 0x44]
            ||| b == seq![0x46u8, 0x55, 0x4C, 0x4C]
            ||| b == seq![0x44u8, 0x45, 0x53, 0x43]
            ||| b == seq![0x4Du8, 0x4F, 0x44, 0x4C]
            ||| b == seq![0x49u8, 0x43, 0x4F, 0x4E]
            ||| b == seq![0x4Du8, 0x49, 0x43, 0x4F]
            ||| b == seq![0x54u8, 0x58, 0x30, 0x30]
            ||| b == seq![0x54u8, 0x58, 0x30, 0x31]
        }) {
            seq![]
        } else {
            data_words(s.raw_data@, s.raw_data@.len() as int / 4)
        },
{
    assert(before.push(s).drop_last() =~= before);
}

} // verus!
