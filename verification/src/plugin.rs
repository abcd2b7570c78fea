//! A loaded plugin: file header, top-level groups (TES4+) or a flat record
//! list (TES3), and the master list.

use vstd::prelude::*;

use crate::dialect::{spec_family, DialectFamily, GameId};
use crate::group::{children_records, group_records, groups_records, Group, GroupChild};
use crate::record::Record;
use crate::signature::Signature;

verus! {

/// A loaded Bethesda plugin file (ESP/ESM/ESL).
#[derive(Debug)]
pub struct Plugin {
    /// Which game this plugin belongs to
    pub game_id: GameId,
    /// Original file path
    pub file_path: Option<String>,
    /// The file header record (TES4 or TES3 signature)
    pub header: Record,
    /// Top-level groups (TES4+ only)
    pub groups: Vec<Group>,
    /// Flat record list (TES3 only)
    pub tes3_records: Vec<Record>,
    /// Master file list extracted from the header
    pub masters: Vec<String>,
    /// Plugin description from header
    pub description: Option<String>,
    /// Author from header
    pub author: Option<String>,
    /// Whether any record in this plugin has been modified
    pub modified: bool,
}

/// All records of a plugin: the flat list for TES3, the depth-first
/// flattening of the groups for TES4+.
pub open spec fn plugin_records(p: Plugin) -> Seq<Record> {
    match spec_family(p.game_id) {
        DialectFamily::TES3 => p.tes3_records@,
        DialectFamily::TES4Plus => groups_records(p.groups@),
    }
}

/// Push every record of `group` onto `out`, depth-first.
pub(crate) fn collect_records_from_group<'a>(group: &'a Group, out: &mut Vec<&'a Record>)
    ensures
        final(out)@.map_values(|r: &Record| *r) == old(out)@.map_values(|r: &Record| *r)
            + group_records(*group),
    decreases group,
{
    let ghost start = old(out)@.map_values(|r: &Record| *r);
    let mut i: usize = 0;
    while i < group.children.len()
        invariant
            i <= group.children@.len(),
            out@.map_values(|r: &Record| *r) == start + children_records(
                group.children@.take(i as int),
            ),
            start == old(out)@.map_values(|r: &Record| *r),
        decreases group.children.len() - i,
    {
        proof {
            lemma_children_records_push(group.children@.take(i as int), group.children@[i as int]);
            assert(group.children@.take(i + 1) =~= group.children@.take(i as int).push(
                group.children@[i as int],
            ));
        }
        match &group.children[i] {
            GroupChild::Record(r) => {
                out.push(r);
                assert(out@.map_values(|r: &Record| *r) =~= start + children_records(
                    group.children@.take(i as int),
                ) + seq![*r]);
            },
            GroupChild::Group(g) => {
                collect_records_from_group(g, out);
                assert(out@.map_values(|r: &Record| *r) =~= start + children_records(
                    group.children@.take(i as int),
                ) + group_records(*g));
            },
        }
        i = i + 1;
    }
    assert(group.children@.take(i as int) =~= group.children@);
}

/// Flattening distributes over appending one child.
pub proof fn lemma_children_records_push(s: Seq<GroupChild>, c: GroupChild)
    ensures
        children_records(s.push(c)) == children_records(s) + match c {
            GroupChild::Record(r) => seq![r],
            GroupChild::Group(g) => group_records(g),
        },
    decreases s.len(),
{
    if s.len() == 0 {
        assert(s.push(c).drop_first() =~= s);
        assert(children_records(s.push(c)) =~= children_records(s) + match c {
            GroupChild::Record(r) => seq![r],
            GroupChild::Group(g) => group_records(g),
        });
    } else {
        lemma_children_records_push(s.drop_first(), c);
        assert(s.push(c).drop_first() =~= s.drop_first().push(c));
        assert(children_records(s.push(c)) =~= children_records(s) + match c {
            GroupChild::Record(r) => seq![r],
            GroupChild::Group(g) => group_records(g),
        });
    }
}

/// Flattening a sequence of groups distributes over appending one group.
pub proof fn lemma_groups_records_push(s: Seq<Group>, g: Group)
    ensures
        groups_records(s.push(g)) == groups_records(s) + group_records(g),
    decreases s.len(),
{
    if s.len() == 0 {
        assert(s.push(g).drop_first() =~= s);
        assert(groups_records(s.push(g)) =~= groups_records(s) + group_records(g));
    } else {
        lemma_groups_records_push(s.drop_first(), g);
        assert(s.push(g).drop_first() =~= s.drop_first().push(g));
        assert(groups_records(s.push(g)) =~= groups_records(s) + group_records(g));
    }
}

impl Plugin {
    /// The plugin's file header signature.
    pub fn header_signature(&self) -> (s: Signature)
        ensures
            s == self.header.signature,
    {
        self.header.signature
    }

    /// Whether this is a master file (ESM flag set on the header).
    pub fn is_master(&self) -> (b: bool)
        ensures
            b == (self.header.flags.0 & 0x0000_0001 != 0),
    {
        self.header.flags.is_esm()
    }

    /// Whether this is a light master (ESL flag set on the header).
    pub fn is_light(&self) -> (b: bool)
        ensures
            b == (self.header.flags.0 & 0x0000_0200 != 0),
    {
        self.header.flags.is_esl()
    }

    /// Whether this plugin uses localized strings.
    pub fn is_localized(&self) -> (b: bool)
        ensures
            b == (self.header.flags.0 & 0x0000_0080 != 0),
    {
        self.header.flags.is_localized()
    }

    /// All records in the plugin (flattening groups for TES4+).
    pub fn all_records(&self) -> (v: Vec<&Record>)
        ensures
            v@.map_values(|r: &Record| *r) == plugin_records(*self),
    {
        match self.game_id.dialect_family() {
            DialectFamily::TES3 => {
                let mut v: Vec<&Record> = Vec::new();
                let mut i: usize = 0;
                while i < self.tes3_records.len()
                    invariant
                        i <= self.tes3_records@.len(),
                        v@.map_values(|r: &Record| *r) == self.tes3_records@.take(i as int),
                    decreases self.tes3_records.len() - i,
                {
                    let ghost prev = v@;
                    v.push(&self.tes3_records[i]);
                    assert(v@.map_values(|r: &Record| *r) =~= prev.map_values(|r: &Record| *r).push(
                        self.tes3_records@[i as int],
                    ));
                    assert(self.tes3_records@.take(i + 1) =~= self.tes3_records@.take(
                        i as int,
                    ).push(self.tes3_records@[i as int]));
                    i = i + 1;
                }
                assert(self.tes3_records@.take(i as int) =~= self.tes3_records@);
                v
            },
            DialectFamily::TES4Plus => {
                let mut v: Vec<&Record> = Vec::new();
                let mut i: usize = 0;
                assert(v@.map_values(|r: &Record| *r) =~= groups_records(
                    self.groups@.take(0),
                ));
                while i < self.groups.len()
                    invariant
                        i <= self.groups@.len(),
                        v@.map_values(|r: &Record| *r) == groups_records(
                            self.groups@.take(i as int),
                        ),
                    decreases self.groups.len() - i,
                {
                    proof {
                        lemma_groups_records_push(
                            self.groups@.take(i as int),
                            self.groups@[i as int],
                        );
                        assert(self.groups@.take(i + 1) =~= self.groups@.take(i as int).push(
                            self.groups@[i as int],
                        ));
                    }
                    collect_records_from_group(&self.groups[i], &mut v);
                    i = i + 1;
                }
                assert(self.groups@.take(i as int) =~= self.groups@);
                v
            },
        }
    }

    /// Number of top-level groups (TES4+) or records (TES3).
    pub fn top_level_count(&self) -> (n: usize)
        ensures
            n == match spec_family(self.game_id) {
                DialectFamily::TES3 => self.tes3_records@.len(),
                DialectFamily::TES4Plus => self.groups@.len(),
            },
    {
        match self.game_id.dialect_family() {
            DialectFamily::TES3 => self.tes3_records.len(),
            DialectFamily::TES4Plus => self.groups.len(),
        }
    }
}

} // verus!
