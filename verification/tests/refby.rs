use xedit::dialect::GameId;
use xedit::formid::FormId;
use xedit::group::{Group, GroupChild, GroupType};
use xedit::plugin::Plugin;
use xedit::record::{Record, RecordFlags};
use xedit::refby::{build_refby_index, refby_range_for_formid};
use xedit::signature::Signature;
use xedit::subrecord::Subrecord;

fn rec(sig: Signature, form_id: u32, subs: Vec<Subrecord>) -> Record {
    Record {
        signature: sig,
        flags: RecordFlags::NONE(),
        form_id: FormId::new(form_id),
        vc_info: 0,
        version: 0,
        unknown: 0,
        subrecords: subs,
        raw_header: None,
        raw_compressed_data: None,
        raw_data: None,
        source_offset: None,
        modified: false,
    }
}

fn group(sig: Signature, children: Vec<GroupChild>) -> Group {
    Group { group_type: GroupType::Top(sig), stamp: 0, unknown: 0, children, raw_header: None, source_offset: None }
}

fn plugin(groups: Vec<Group>) -> Plugin {
    Plugin {
        game_id: GameId::SkyrimSE,
        file_path: None,
        header: rec(Signature::TES4(), 0, vec![]),
        groups,
        tes3_records: vec![],
        masters: vec![],
        description: None,
        author: None,
        modified: false,
    }
}

fn words(ws: &[u32]) -> Vec<u8> {
    ws.iter().flat_map(|w| w.to_le_bytes()).collect()
}

#[test]
fn refby_index_finds_aligned_known_references() {
    let weap = rec(Signature::WEAP(), 0x100, vec![Subrecord::new(Signature::DATA(), words(&[7]))]);
    let misc = rec(Signature::MISC(), 0x200, vec![]);
    // A reference holding 0x100 twice, 0x200 once, an unknown id, itself and null.
    let refr = rec(
        Signature::REFR(),
        0x300,
        vec![
            Subrecord::new(Signature::NAME(), words(&[0x100, 0x999, 0x300, 0])),
            Subrecord::new(Signature::DATA(), words(&[0x200, 0x100])),
            // Text subrecords are never scanned.
            Subrecord::new(Signature::EDID(), words(&[0x200])),
        ],
    );
    let nested = Group {
        group_type: GroupType::CellChildren(0x300),
        stamp: 0,
        unknown: 0,
        children: vec![GroupChild::Record(rec(Signature::REFR(), 0x400, vec![Subrecord::new(Signature::NAME(), words(&[0x200]))]))],
        raw_header: None,
        source_offset: None,
    };
    let p0 = plugin(vec![
        group(Signature::WEAP(), vec![GroupChild::Record(weap), GroupChild::Record(misc)]),
        group(Signature::CELL(), vec![GroupChild::Record(refr), GroupChild::Group(nested)]),
    ]);
    let index = build_refby_index(&[p0]);
    assert_eq!(index.len(), 3);
    assert!(index.windows(2).all(|w| w[0].0 <= w[1].0));
    let mut sorted = index.clone();
    sorted.sort();
    assert_eq!(sorted, vec![(0x100, 0, 1, 0), (0x200, 0, 1, 0), (0x200, 0, 1, 1)]);

    assert_eq!(refby_range_for_formid(&index, 0x100), (0, 1));
    assert_eq!(refby_range_for_formid(&index, 0x200), (1, 3));
    assert_eq!(refby_range_for_formid(&index, 0x999), (0, 0));
    assert_eq!(refby_range_for_formid(&[], 0x1), (0, 0));
}

#[test]
fn refby_index_ignores_unaligned_and_short_data() {
    let a = rec(Signature::WEAP(), 0x0000_0101, vec![]);
    let mut unaligned = vec![0u8];
    unaligned.extend_from_slice(&0x0000_0101u32.to_le_bytes());
    let b = rec(
        Signature::MISC(),
        0x0000_0202,
        vec![Subrecord::new(Signature::DATA(), unaligned), Subrecord::new(Signature::NAME(), vec![1, 1, 0])],
    );
    let p = plugin(vec![group(Signature::WEAP(), vec![GroupChild::Record(a), GroupChild::Record(b)])]);
    assert!(build_refby_index(&[p]).is_empty());
}
