use xedit::cleaner::{remove_itm_records, undelete_references, CleanResult, INITIALLY_DISABLED};
use xedit::dialect::GameId;
use xedit::formid::FormId;
use xedit::group::{Group, GroupChild, GroupType};
use xedit::plugin::Plugin;
use xedit::record::{Record, RecordFlags};
use xedit::signature::Signature;
use xedit::subrecord::Subrecord;

fn record(signature: Signature, flags: RecordFlags, form_id: u32, subrecords: Vec<Subrecord>) -> Record {
    Record {
        signature,
        flags,
        form_id: FormId::new(form_id),
        vc_info: 0,
        version: 0,
        unknown: 0,
        subrecords,
        raw_header: None,
        raw_compressed_data: None,
        raw_data: None,
        source_offset: None,
        modified: false,
    }
}

fn make_plugin_with_records(records: Vec<Record>) -> Plugin {
    let group = Group {
        group_type: GroupType::Top(Signature::REFR()),
        stamp: 0,
        unknown: 0,
        children: records.into_iter().map(GroupChild::Record).collect(),
        raw_header: None,
        source_offset: None,
    };
    Plugin {
        game_id: GameId::SkyrimSE,
        file_path: Some("Test.esp".to_string()),
        header: Record {
            signature: Signature::TES4(),
            flags: RecordFlags::NONE(),
            form_id: FormId::NULL(),
            vc_info: 0,
            version: 0,
            unknown: 0,
            subrecords: vec![],
            raw_header: None,
            raw_compressed_data: None,
            raw_data: None,
            source_offset: None,
            modified: false,
        },
        groups: vec![group],
        tes3_records: Vec::new(),
        masters: vec![],
        description: None,
        author: None,
        modified: false,
    }
}

#[test]
fn test_remove_itm_records() {
    let records = vec![
        record(
            Signature::WEAP(),
            RecordFlags::NONE(),
            0x00001234,
            vec![Subrecord::new(Signature::EDID(), b"ITMRecord\0".to_vec())],
        ),
        record(
            Signature::WEAP(),
            RecordFlags::NONE(),
            0x00005678,
            vec![Subrecord::new(Signature::EDID(), b"KeepMe\0".to_vec())],
        ),
    ];

    let mut plugin = make_plugin_with_records(records);
    let itm_ids = vec![FormId::new(0x00001234)];
    let removed = remove_itm_records(&mut plugin, &itm_ids);

    assert_eq!(removed, 1);
    assert!(plugin.modified);

    let remaining: Vec<&Record> = plugin.all_records();
    assert_eq!(remaining.len(), 1);
    assert_eq!(remaining[0].form_id.raw(), 0x00005678);
}

#[test]
fn test_undelete_references() {
    let records = vec![record(
        Signature::REFR(),
        RecordFlags(RecordFlags::DELETED),
        0x00009ABC,
        vec![
            Subrecord::new(Signature::NAME(), vec![0x34, 0x12, 0x00, 0x00]),
            Subrecord::new(Signature::DATA(), vec![0; 24]),
        ],
    )];

    let mut plugin = make_plugin_with_records(records);
    let deleted_ids = vec![FormId::new(0x00009ABC)];
    let cleaned = undelete_references(&mut plugin, &deleted_ids);

    assert_eq!(cleaned, 1);
    assert!(plugin.modified);

    let all = plugin.all_records();
    assert_eq!(all.len(), 1);

    let record = all[0];
    assert!(!record.flags.is_deleted());
    assert_ne!(record.flags.0 & INITIALLY_DISABLED, 0);
    assert!(record.subrecords.iter().any(|sr| sr.signature == Signature::NAME()));
    let data_sub = record
        .subrecords
        .iter()
        .find(|sr| sr.signature == Signature::DATA())
        .expect("DATA subrecord should exist");
    assert_eq!(data_sub.raw_data.len(), 24);

    let z_bytes: [u8; 4] = data_sub.raw_data[8..12].try_into().unwrap();
    let z = f32::from_le_bytes(z_bytes);
    assert!((z - (-30000.0)).abs() < 0.01);
}

#[test]
fn test_remove_itm_empty_list() {
    let records = vec![record(Signature::WEAP(), RecordFlags::NONE(), 0x00001111, vec![])];

    let mut plugin = make_plugin_with_records(records);
    let removed = remove_itm_records(&mut plugin, &[]);

    assert_eq!(removed, 0);
    assert!(!plugin.modified);
    assert_eq!(plugin.all_records().len(), 1);
}

#[test]
fn undelete_skips_non_reference_and_non_deleted_records() {
    let records = vec![
        record(Signature::WEAP(), RecordFlags(RecordFlags::DELETED), 0x0000_0001, vec![]),
        record(Signature::REFR(), RecordFlags::NONE(), 0x0000_0002, vec![]),
        record(Signature::ACHR(), RecordFlags(RecordFlags::DELETED), 0x0000_0003, vec![]),
    ];
    let mut plugin = make_plugin_with_records(records);
    let ids = vec![FormId::new(1), FormId::new(2), FormId::new(3)];
    let cleaned = undelete_references(&mut plugin, &ids);
    assert_eq!(cleaned, 1);
    let all = plugin.all_records();
    assert!(all[0].flags.is_deleted());
    assert!(!all[2].flags.is_deleted());
    assert_eq!(all[2].flags.0, INITIALLY_DISABLED);
    // No NAME subrecord to keep: only the new DATA remains.
    assert_eq!(all[2].subrecords.len(), 1);
    assert_eq!(all[2].subrecords[0].raw_data[8..12], (-30000.0f32).to_le_bytes());
    assert!(all[2].modified);
}

#[test]
fn remove_itm_counts_every_matching_record() {
    let records = vec![
        record(Signature::WEAP(), RecordFlags::NONE(), 0x0000_0001, vec![]),
        record(Signature::WEAP(), RecordFlags::NONE(), 0x0000_0002, vec![]),
        record(Signature::WEAP(), RecordFlags::NONE(), 0x0000_0001, vec![]),
    ];
    let mut plugin = make_plugin_with_records(records);
    let removed = remove_itm_records(&mut plugin, &[FormId::new(1), FormId::new(7)]);
    assert_eq!(removed, 2);
    let all = plugin.all_records();
    assert_eq!(all.len(), 1);
    assert_eq!(all[0].form_id.raw(), 2);
}

#[test]
fn clean_result_default_is_empty() {
    let r = CleanResult::default();
    assert_eq!(r.itm_removed, 0);
    assert!(r.itm_form_ids.is_empty());
    assert_eq!(r.deleted_cleaned, 0);
    assert!(r.deleted_form_ids.is_empty());
}
