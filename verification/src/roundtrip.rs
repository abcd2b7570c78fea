//! The lossless-roundtrip law: writing back an unedited plugin reproduces
//! the bytes it was read from.

use vstd::prelude::*;

use crate::bytes::le32;
use crate::dialect::{spec_family, DialectFamily, GameId};
use crate::format::{
    child_matches, children_match, group_matches, grp_hl, plugin_matches, rec_hl, record_matches,
    recs_match, spec_child_end, spec_group_end, spec_record_end, subrecords_match, tops_match,
};
use crate::group::{Group, GroupChild};
use crate::plugin::Plugin;
use crate::record::{spec_is_modified, Record};
use crate::writer::{
    child_bytes, children_bytes, children_writable, group_bytes, group_writable, groups_bytes,
    keeps_header, plugin_bytes, plugin_writable, record_bytes, records_bytes,
};

verus! {

/// Every group of `grp` (read from `d[pos..end]`) declares its true size.
pub open spec fn group_exact(g: GameId, grp: Group, d: Seq<u8>, pos: int, end: int) -> bool
    decreases grp,
{
    &&& end == pos + le32(d, pos + 4)
    &&& children_exact(g, grp.children@, d, pos + grp_hl(g), end)
}

/// Every group of the child `c` (read from `d[pos..end]`) declares its true size.
pub open spec fn child_exact(g: GameId, c: GroupChild, d: Seq<u8>, pos: int, end: int) -> bool
    decreases c,
{
    match c {
        GroupChild::Record(_) => true,
        GroupChild::Group(x) => group_exact(g, x, d, pos, end),
    }
}

/// Every group among the children `s` (read from `pos`) declares its true size.
pub open spec fn children_exact(g: GameId, s: Seq<GroupChild>, d: Seq<u8>, pos: int, end: int) -> bool
    decreases s,
{
    if s.len() == 0 {
        true
    } else {
        match spec_child_end(g, d, pos) {
            Ok(e) => child_exact(g, s[0], d, pos, e) && children_exact(g, s.drop_first(), d, e, end),
            Err(_) => false,
        }
    }
}

/// Every group among the top-level groups `s` (read from `pos`) declares its true size.
pub open spec fn tops_exact(g: GameId, s: Seq<Group>, d: Seq<u8>, pos: int) -> bool
    decreases s.len(),
{
    if s.len() == 0 {
        true
    } else {
        match spec_group_end(g, d, pos) {
            Ok(e) => group_exact(g, s[0], d, pos, e) && tops_exact(g, s.drop_first(), d, e),
            Err(_) => false,
        }
    }
}

/// Every group of the plugin `p` read from `d` declares its true size.
pub open spec fn plugin_exact(g: GameId, p: Plugin, d: Seq<u8>) -> bool {
    match spec_family(g) {
        DialectFamily::TES3 => true,
        DialectFamily::TES4Plus => match spec_record_end(g, d, 0) {
            Ok(e0) => tops_exact(g, p.groups@, d, e0),
            Err(_) => false,
        },
    }
}

/// A record read from `d[pos..end]` is written back as exactly those bytes.
pub proof fn lemma_record_roundtrip(g: GameId, r: Record, d: Seq<u8>, pos: int, end: int)
    requires
        record_matches(g, r, d, pos, end),
    ensures
        record_bytes(spec_family(g), r) == d.subrange(pos, end),
{
    let hl = rec_hl(g);
    assert(!spec_is_modified(r)) by {
        assert forall|i: int| 0 <= i < r.subrecords@.len() implies !r.subrecords@[i].modified by {
            let b = crate::format::spec_body(g, r.flags.0 as int, d.subrange(pos + hl, end))->Ok_0;
            let mm = crate::format::spec_subrecords(spec_family(g), b, 0, None)->Ok_0;
            assert(subrecords_match(r.subrecords@, mm));
            assert(r.subrecords@[i].signature == mm[i].0);
        }
    }
    assert(d.subrange(pos, pos + hl) + d.subrange(pos + hl, end) =~= d.subrange(pos, end));
}

/// Groups and children read from `d` and declaring their true sizes are
/// written back as exactly the bytes they were read from.
pub proof fn lemma_group_roundtrip(g: GameId, grp: Group, d: Seq<u8>, pos: int, end: int)
    requires
        group_matches(g, grp, d, pos, end),
        group_exact(g, grp, d, pos, end),
        d.len() <= usize::MAX,
    ensures
        group_bytes(spec_family(g), grp) == d.subrange(pos, end),
        children_bytes(spec_family(g), grp.children@).len() == end - pos - grp_hl(g),
        keeps_header(grp.raw_header, children_bytes(spec_family(g), grp.children@).len() as int),
    decreases grp,
{
    let f = spec_family(g);
    let hl = grp_hl(g);
    lemma_children_roundtrip(g, grp.children@, d, pos + hl, pos + le32(d, pos + 4), end);
    let h = grp.raw_header->Some_0;
    assert(le32(h@, 4) == le32(d, pos + 4)) by {
        assert(h@[4] == d[pos + 4] && h@[5] == d[pos + 5] && h@[6] == d[pos + 6] && h@[7]
            == d[pos + 7]);
    }
    assert(keeps_header(grp.raw_header, children_bytes(f, grp.children@).len() as int));
    assert(d.subrange(pos, pos + hl) + d.subrange(pos + hl, end) =~= d.subrange(pos, end));
}

/// One child read from `d[pos..end]` and declaring its true sizes is
/// written back as exactly those bytes.
pub proof fn lemma_child_roundtrip(g: GameId, c: GroupChild, d: Seq<u8>, pos: int, end: int)
    requires
        child_matches(g, c, d, pos, end),
        child_exact(g, c, d, pos, end),
        d.len() <= usize::MAX,
    ensures
        child_bytes(spec_family(g), c) == d.subrange(pos, end),
        0 <= pos < end <= d.len(),
    decreases c,
{
    match c {
        GroupChild::Record(r) => {
            lemma_record_roundtrip(g, r, d, pos, end);
        },
        GroupChild::Group(x) => {
            lemma_group_roundtrip(g, x, d, pos, end);
        },
    }
}

/// The first child of a matched, exact, non-empty child sequence.
proof fn lemma_children_first(
    g: GameId,
    s: Seq<GroupChild>,
    d: Seq<u8>,
    pos: int,
    cend: int,
    end: int,
) -> (e: int)
    requires
        children_match(g, s, d, pos, cend, end),
        children_exact(g, s, d, pos, end),
        s.len() > 0,
    ensures
        child_matches(g, s[0], d, pos, e),
        child_exact(g, s[0], d, pos, e),
        children_match(g, s.drop_first(), d, e, cend, end),
        children_exact(g, s.drop_first(), d, e, end),
        pos < e,
{
    spec_child_end(g, d, pos)->Ok_0
}

/// Children read from `d[pos..end]` and declaring their true sizes are
/// written back as exactly those bytes.
#[verifier::spinoff_prover]
pub proof fn lemma_children_roundtrip(
    g: GameId,
    s: Seq<GroupChild>,
    d: Seq<u8>,
    pos: int,
    cend: int,
    end: int,
)
    requires
        children_match(g, s, d, pos, cend, end),
        children_exact(g, s, d, pos, end),
        d.len() <= usize::MAX,
        0 <= pos <= d.len(),
    ensures
        children_bytes(spec_family(g), s) == d.subrange(pos, end),
        pos <= end <= d.len(),
    decreases s,
{
    let f = spec_family(g);
    if s.len() == 0 {
        assert(d.subrange(pos, end) =~= seq![]);
    } else {
        let e = lemma_children_first(g, s, d, pos, cend, end);
        lemma_child_roundtrip(g, s[0], d, pos, e);
        lemma_children_roundtrip(g, s.drop_first(), d, e, cend, end);
        assert(children_bytes(f, s) == child_bytes(f, s[0]) + children_bytes(f, s.drop_first()));
        lemma_join_range(
            children_bytes(f, s),
            child_bytes(f, s[0]),
            children_bytes(f, s.drop_first()),
            d,
            pos,
            e,
            end,
        );
    }
}

/// A group read from `d` and declaring its true sizes can be written.
pub proof fn lemma_group_writable(g: GameId, grp: Group, d: Seq<u8>, pos: int, end: int)
    requires
        group_matches(g, grp, d, pos, end),
        group_exact(g, grp, d, pos, end),
        d.len() <= usize::MAX,
    ensures
        group_writable(spec_family(g), grp),
    decreases grp,
{
    lemma_group_roundtrip(g, grp, d, pos, end);
    lemma_children_writable(g, grp.children@, d, pos + grp_hl(g), pos + le32(d, pos + 4), end);
}

/// One child read from `d` and declaring its true sizes can be written.
pub proof fn lemma_child_writable(g: GameId, c: GroupChild, d: Seq<u8>, pos: int, end: int)
    requires
        child_matches(g, c, d, pos, end),
        child_exact(g, c, d, pos, end),
        d.len() <= usize::MAX,
    ensures
        match c {
            GroupChild::Record(_) => true,
            GroupChild::Group(x) => group_writable(spec_family(g), x),
        },
    decreases c,
{
    match c {
        GroupChild::Record(r) => {},
        GroupChild::Group(x) => {
            lemma_group_writable(g, x, d, pos, end);
        },
    }
}

/// Children read from `d` and declaring their true sizes can be written.
pub proof fn lemma_children_writable(
    g: GameId,
    s: Seq<GroupChild>,
    d: Seq<u8>,
    pos: int,
    cend: int,
    end: int,
)
    requires
        children_match(g, s, d, pos, cend, end),
        children_exact(g, s, d, pos, end),
        d.len() <= usize::MAX,
        0 <= pos <= d.len(),
    ensures
        children_writable(spec_family(g), s),
    decreases s,
{
    if s.len() > 0 {
        let e = lemma_children_first(g, s, d, pos, cend, end);
        lemma_child_roundtrip(g, s[0], d, pos, e);
        lemma_child_writable(g, s[0], d, pos, e);
        lemma_children_writable(g, s.drop_first(), d, e, cend, end);
    }
}

proof fn lemma_groups_bytes_cons(f: DialectFamily, s: Seq<Group>)
    requires
        s.len() > 0,
    ensures
        groups_bytes(f, s) == group_bytes(f, s[0]) + groups_bytes(f, s.drop_first()),
    decreases s.len(),
{
    if s.len() > 1 {
        lemma_groups_bytes_cons(f, s.drop_last());
        assert(s.drop_last().drop_first() =~= s.drop_first().drop_last());
        assert(s.drop_last()[0] == s[0]);
    } else {
        assert(s.drop_first() =~= seq![]);
        assert(s.drop_last() =~= seq![]);
    }
}

proof fn lemma_records_bytes_cons(f: DialectFamily, s: Seq<Record>)
    requires
        s.len() > 0,
    ensures
        records_bytes(f, s) == record_bytes(f, s[0]) + records_bytes(f, s.drop_first()),
    decreases s.len(),
{
    if s.len() > 1 {
        lemma_records_bytes_cons(f, s.drop_last());
        assert(s.drop_last().drop_first() =~= s.drop_first().drop_last());
        assert(s.drop_last()[0] == s[0]);
    } else {
        assert(s.drop_first() =~= seq![]);
        assert(s.drop_last() =~= seq![]);
    }
}

/// A byte string made of the two adjacent slices `d[pos..e]` and
/// `d[e..end]` is the slice `d[pos..end]`.
proof fn lemma_join_range(
    x: Seq<u8>,
    a: Seq<u8>,
    b: Seq<u8>,
    d: Seq<u8>,
    pos: int,
    e: int,
    end: int,
)
    requires
        x == a + b,
        a == d.subrange(pos, e),
        b == d.subrange(e, end),
        0 <= pos <= e <= end <= d.len(),
    ensures
        x == d.subrange(pos, end),
{
    assert(d.subrange(pos, e) + d.subrange(e, end) =~= d.subrange(pos, end));
}

/// A byte string made of the two adjacent slices `d[pos..e]` and
/// `d[e..]` is the slice `d[pos..]`.
proof fn lemma_join(x: Seq<u8>, a: Seq<u8>, b: Seq<u8>, d: Seq<u8>, pos: int, e: int)
    requires
        x == a + b,
        a == d.subrange(pos, e),
        b == d.subrange(e, d.len() as int),
        0 <= pos <= e <= d.len(),
    ensures
        x == d.subrange(pos, d.len() as int),
{
    assert(d.subrange(pos, e) + d.subrange(e, d.len() as int) =~= d.subrange(pos, d.len() as int));
}

/// The first group of a matched, exact, non-empty top-level sequence.
proof fn lemma_tops_first(g: GameId, s: Seq<Group>, d: Seq<u8>, pos: int) -> (e: int)
    requires
        tops_match(g, s, d, pos),
        tops_exact(g, s, d, pos),
        s.len() > 0,
    ensures
        group_matches(g, s[0], d, pos, e),
        group_exact(g, s[0], d, pos, e),
        tops_match(g, s.drop_first(), d, e),
        tops_exact(g, s.drop_first(), d, e),
        pos < e <= d.len(),
{
    let e = spec_group_end(g, d, pos)->Ok_0;
    assert(group_matches(g, s[0], d, pos, e));
    e
}

#[verifier::spinoff_prover]
proof fn lemma_tops_roundtrip(g: GameId, s: Seq<Group>, d: Seq<u8>, pos: int)
    requires
        tops_match(g, s, d, pos),
        tops_exact(g, s, d, pos),
        d.len() <= usize::MAX,
        0 <= pos <= d.len(),
    ensures
        groups_bytes(spec_family(g), s) == d.subrange(pos, d.len() as int),
    decreases s.len(),
{
    if s.len() == 0 {
        assert(d.subrange(pos, d.len() as int) =~= seq![]);
    } else {
        let f = spec_family(g);
        let t = s.drop_first();
        let e = lemma_tops_first(g, s, d, pos);
        lemma_group_roundtrip(g, s[0], d, pos, e);
        lemma_tops_roundtrip(g, t, d, e);
        lemma_groups_bytes_cons(f, s);
        lemma_join(groups_bytes(f, s), group_bytes(f, s[0]), groups_bytes(f, t), d, pos, e);
    }
}

proof fn lemma_tops_writable(g: GameId, s: Seq<Group>, d: Seq<u8>, pos: int)
    requires
        tops_match(g, s, d, pos),
        tops_exact(g, s, d, pos),
        d.len() <= usize::MAX,
        0 <= pos <= d.len(),
    ensures
        forall|i: int| 0 <= i < s.len() ==> #[trigger] group_writable(spec_family(g), s[i]),
    decreases s.len(),
{
    if s.len() > 0 {
        let e = lemma_tops_first(g, s, d, pos);
        lemma_group_roundtrip(g, s[0], d, pos, e);
        lemma_group_writable(g, s[0], d, pos, e);
        lemma_tops_writable(g, s.drop_first(), d, e);
        let f = spec_family(g);
        let t = s.drop_first();
        assert forall|i: int| 0 <= i < s.len() implies #[trigger] group_writable(f, s[i]) by {
            if i > 0 {
                assert(s[i] == t[i - 1]);
            }
        }
    }
}

proof fn lemma_recs_roundtrip(g: GameId, s: Seq<Record>, d: Seq<u8>, pos: int)
    requires
        recs_match(g, s, d, pos),
        0 <= pos <= d.len(),
    ensures
        records_bytes(spec_family(g), s) == d.subrange(pos, d.len() as int),
    decreases s.len(),
{
    if s.len() == 0 {
        assert(d.subrange(pos, d.len() as int) =~= seq![]);
    } else {
        let e = spec_record_end(g, d, pos)->Ok_0;
        lemma_record_roundtrip(g, s[0], d, pos, e);
        lemma_recs_roundtrip(g, s.drop_first(), d, e);
        lemma_records_bytes_cons(spec_family(g), s);
        assert(d.subrange(pos, e) + d.subrange(e, d.len() as int) =~= d.subrange(
            pos,
            d.len() as int,
        ));
    }
}

/// Lossless roundtrip: a plugin read from `d` and written back without
/// edits yields exactly `d`, whenever every group in `d` declares its true
/// size; such a plugin is always writable.
pub proof fn lemma_roundtrip(g: GameId, p: Plugin, d: Seq<u8>)
    requires
        plugin_matches(g, p, d),
        plugin_exact(g, p, d),
        d.len() <= usize::MAX,
    ensures
        plugin_writable(p),
        plugin_bytes(p) == d,
{
    let f = spec_family(g);
    let e0 = spec_record_end(g, d, 0)->Ok_0;
    lemma_record_roundtrip(g, p.header, d, 0, e0);
    assert(0 < e0 <= d.len());
    match f {
        DialectFamily::TES3 => {
            lemma_recs_roundtrip(g, p.tes3_records@, d, e0);
            lemma_join(plugin_bytes(p), record_bytes(f, p.header), records_bytes(f, p.tes3_records@), d, 0, e0);
        },
        DialectFamily::TES4Plus => {
            lemma_tops_roundtrip(g, p.groups@, d, e0);
            lemma_tops_writable(g, p.groups@, d, e0);
            lemma_join(plugin_bytes(p), record_bytes(f, p.header), groups_bytes(f, p.groups@), d, 0, e0);
        },
    }
    assert(d.subrange(0, d.len() as int) =~= d);
}

} // verus!
