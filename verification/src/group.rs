//! GRUP containers: the hierarchical structure of TES4+ plugins.

use vstd::prelude::*;

use crate::record::Record;
use crate::signature::Signature;

verus! {

/// Type of a GRUP (group) in TES4+ plugins, with its decoded label.
#[derive(Debug, Clone, Copy)]
pub enum GroupType {
    /// Top-level group containing all records of a given type
    Top(Signature),
    /// World children
    WorldChildren(u32),
    /// Interior cell block
    InteriorCellBlock(i32),
    /// Interior cell sub-block
    InteriorCellSubBlock(i32),
    /// Exterior cell block
    ExteriorCellBlock { x: i16, y: i16 },
    /// Exterior cell sub-block
    ExteriorCellSubBlock { x: i16, y: i16 },
    /// Cell children
    CellChildren(u32),
    /// Topic children
    TopicChildren(u32),
    /// Cell persistent children
    CellPersistentChildren(u32),
    /// Cell temporary children
    CellTemporaryChildren(u32),
    /// Cell visible distant children (Oblivion/Fallout-era)
    CellVisibleDistantChildren(u32),
}

impl PartialEq for GroupType {
    fn eq(&self, other: &Self) -> (r: bool) {
        match (self, other) {
            (GroupType::Top(a), GroupType::Top(b)) => a == b,
            (GroupType::WorldChildren(a), GroupType::WorldChildren(b)) => a == b,
            (GroupType::InteriorCellBlock(a), GroupType::InteriorCellBlock(b)) => a == b,
            (GroupType::InteriorCellSubBlock(a), GroupType::InteriorCellSubBlock(b)) => a == b,
            (
                GroupType::ExteriorCellBlock { x: x1, y: y1 },
                GroupType::ExteriorCellBlock { x: x2, y: y2 },
            ) => x1 == x2 && y1 == y2,
            (
                GroupType::ExteriorCellSubBlock { x: x1, y: y1 },
                GroupType::ExteriorCellSubBlock { x: x2, y: y2 },
            ) => x1 == x2 && y1 == y2,
            (GroupType::CellChildren(a), GroupType::CellChildren(b)) => a == b,
            (GroupType::TopicChildren(a), GroupType::TopicChildren(b)) => a == b,
            (GroupType::CellPersistentChildren(a), GroupType::CellPersistentChildren(b)) => a
                == b,
            (GroupType::CellTemporaryChildren(a), GroupType::CellTemporaryChildren(b)) => a
                == b,
            (
                GroupType::CellVisibleDistantChildren(a),
                GroupType::CellVisibleDistantChildren(b),
            ) => a == b,
            _ => false,
        }
    }
}

impl vstd::std_specs::cmp::PartialEqSpecImpl for GroupType {
    open spec fn obeys_eq_spec() -> bool {
        true
    }

    open spec fn eq_spec(&self, other: &Self) -> bool {
        *self == *other
    }
}

impl Eq for GroupType {}

/// A GRUP (group) container in a TES4+ plugin: records and nested groups.
#[derive(Debug)]
pub struct Group {
    /// What type of group this is
    pub group_type: GroupType,
    /// Timestamp/version from header
    pub stamp: u32,
    /// Unknown field from header
    pub unknown: u32,
    /// Contents: records and nested groups
    pub children: Vec<GroupChild>,
    /// Original raw header bytes for lossless roundtrip
    pub raw_header: Option<Vec<u8>>,
    /// Original byte offset in the source file
    pub source_offset: Option<u64>,
}

/// A child item within a group: either a record or a nested group.
#[derive(Debug)]
pub enum GroupChild {
    Record(Record),
    Group(Group),
}

/// All records of a group tree, depth-first in order.
pub open spec fn group_records(g: Group) -> Seq<Record>
    decreases g,
{
    children_records(g.children@)
}

/// All records of a sequence of group children, depth-first in order.
pub open spec fn children_records(s: Seq<GroupChild>) -> Seq<Record>
    decreases s,
{
    if s.len() == 0 {
        seq![]
    } else {
        let first = match s[0] {
            GroupChild::Record(r) => seq![r],
            GroupChild::Group(g) => group_records(g),
        };
        first + children_records(s.drop_first())
    }
}

/// All records of a sequence of groups, depth-first in order.
pub open spec fn groups_records(s: Seq<Group>) -> Seq<Record>
    decreases s.len(),
{
    if s.len() == 0 {
        seq![]
    } else {
        group_records(s[0]) + groups_records(s.drop_first())
    }
}

} // verus!
