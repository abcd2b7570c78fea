use xedit::conflicts::{ConflictDetector, ConflictSeverity};
use xedit::dialect::GameId;
use xedit::formid::FormId;
use xedit::group::{Group, GroupChild, GroupType};
use xedit::load_order::LoadOrder;
use xedit::plugin::Plugin;
use xedit::record::{Record, RecordFlags};
use xedit::signature::Signature;
use xedit::subrecord::Subrecord;

fn make_record_with_subrecords(
    signature: Signature,
    form_id: u32,
    flags: u32,
    subrecords: Vec<Subrecord>,
) -> Record {
    Record {
        signature,
        flags: RecordFlags(flags),
        form_id: FormId::new(form_id),
        vc_info: 0,
        version: 0,
        unknown: 0,
        subrecords,
        raw_header: None,
        raw_compressed_data: None,
        raw_data: None,
        source_offset: None,
        modified: false,
    }
}

fn make_record(
    signature: Signature,
    form_id: u32,
    flags: u32,
    edid: Option<&str>,
    data: Option<Vec<u8>>,
) -> Record {
    let mut subrecords = Vec::new();
    if let Some(edid) = edid {
        let mut edid_data = edid.as_bytes().to_vec();
        edid_data.push(0);
        subrecords.push(Subrecord::new(Signature::EDID(), edid_data));
    }
    if let Some(data) = data {
        subrecords.push(Subrecord::new(Signature::DATA(), data));
    }
    make_record_with_subrecords(signature, form_id, flags, subrecords)
}

fn make_plugin(name: &str, header_flags: u32, masters: Vec<&str>, records: Vec<Record>) -> Plugin {
    let group = Group {
        group_type: GroupType::Top(Signature::WEAP()),
        stamp: 0,
        unknown: 0,
        children: records.into_iter().map(GroupChild::Record).collect(),
        raw_header: None,
        source_offset: None,
    };
    Plugin {
        game_id: GameId::SkyrimSE,
        file_path: Some(name.to_string()),
        header: make_record_with_subrecords(Signature::TES4(), 0, header_flags, vec![]),
        groups: vec![group],
        tes3_records: Vec::new(),
        masters: masters.into_iter().map(str::to_string).collect(),
        description: None,
        author: None,
        modified: false,
    }
}

#[test]
fn override_different_data_is_critical() {
    let mut lo = LoadOrder::new(GameId::SkyrimSE);
    lo.add_plugin(make_plugin(
        "Master.esm",
        RecordFlags::ESM,
        vec![],
        vec![make_record(Signature::WEAP(), 0x0000_1234, 0, Some("IronSword"), Some(vec![10, 0, 0, 0]))],
    ));
    lo.add_plugin(make_plugin(
        "Mod.esp",
        0,
        vec!["Master.esm"],
        vec![make_record(Signature::WEAP(), 0x0000_1234, 0, Some("IronSword"), Some(vec![20, 0, 0, 0]))],
    ));
    lo.sort_load_order();

    let detector = ConflictDetector::new(&lo);
    let conflicts = detector.detect_all_conflicts();

    assert_eq!(conflicts.len(), 1);
    assert_eq!(conflicts[0].severity, ConflictSeverity::Critical);
    assert_eq!(conflicts[0].entries.len(), 2);
}

#[test]
fn identical_to_master_detection() {
    let mut lo = LoadOrder::new(GameId::SkyrimSE);
    lo.add_plugin(make_plugin(
        "Master.esm",
        RecordFlags::ESM,
        vec![],
        vec![make_record(Signature::WEAP(), 0x0000_1234, 0, Some("IronSword"), Some(vec![10, 0, 0, 0]))],
    ));
    lo.add_plugin(make_plugin(
        "Clean.esp",
        0,
        vec!["Master.esm"],
        vec![make_record(Signature::WEAP(), 0x0000_1234, 0, Some("IronSword"), Some(vec![10, 0, 0, 0]))],
    ));
    lo.sort_load_order();

    let detector = ConflictDetector::new(&lo);
    let itm = detector.detect_itm(1);

    assert_eq!(itm.len(), 1);
    assert_eq!(itm[0].raw(), 0x0000_1234);
}

#[test]
fn deleted_reference_detection() {
    let mut lo = LoadOrder::new(GameId::SkyrimSE);
    lo.add_plugin(make_plugin(
        "Master.esm",
        RecordFlags::ESM,
        vec![],
        vec![make_record(Signature::REFR(), 0x0000_5678, 0, Some("SomeRef"), None)],
    ));
    lo.add_plugin(make_plugin(
        "Deleter.esp",
        0,
        vec!["Master.esm"],
        vec![make_record(Signature::REFR(), 0x0000_5678, RecordFlags::DELETED, None, None)],
    ));
    lo.sort_load_order();

    let detector = ConflictDetector::new(&lo);
    let deleted = detector.detect_deleted_references(1);

    assert_eq!(deleted.len(), 1);
    assert_eq!(deleted[0].raw(), 0x0000_5678);
}

#[test]
fn subrecord_diff_identifies_differences() {
    let record_a = make_record(Signature::WEAP(), 0x0000_1234, 0, Some("IronSword"), Some(vec![10, 0, 0, 0]));
    let record_b = make_record(Signature::WEAP(), 0x0000_1234, 0, Some("IronSword"), Some(vec![20, 0, 0, 0]));

    let lo = LoadOrder::new(GameId::SkyrimSE);
    let detector = ConflictDetector::new(&lo);
    let diffs = detector.diff_subrecords(0, &record_a, 1, &record_b);

    assert_eq!(diffs.len(), 1);
    assert_eq!(diffs[0].signature, Signature::DATA());
    assert_eq!(diffs[0].plugin_data.len(), 2);
    assert_eq!(diffs[0].plugin_data[0].1, vec![10, 0, 0, 0]);
    assert_eq!(diffs[0].plugin_data[1].1, vec![20, 0, 0, 0]);
}

#[test]
fn classify_conflict_multiple_plugins() {
    let mut lo = LoadOrder::new(GameId::SkyrimSE);

    let master_rec = make_record(Signature::WEAP(), 0x0000_1234, 0, Some("IronSword"), Some(vec![10, 0, 0, 0]));
    let override_a = make_record(Signature::WEAP(), 0x0000_1234, 0, Some("IronSword"), Some(vec![20, 0, 0, 0]));
    let override_b = make_record(Signature::WEAP(), 0x0000_1234, 0, Some("IronSword"), Some(vec![10, 0, 0, 0]));

    lo.add_plugin(make_plugin("Master.esm", RecordFlags::ESM, vec![], vec![master_rec.clone()]));
    lo.add_plugin(make_plugin("ModA.esp", 0, vec!["Master.esm"], vec![override_a.clone()]));
    lo.add_plugin(make_plugin("ModB.esp", 0, vec!["Master.esm"], vec![override_b.clone()]));
    lo.sort_load_order();

    let detector = ConflictDetector::new(&lo);

    let entries_critical: Vec<(usize, &Record)> = vec![(0, &master_rec), (1, &override_a)];
    assert_eq!(detector.classify_conflict(&entries_critical), ConflictSeverity::Critical);

    let entries_itm: Vec<(usize, &Record)> = vec![(0, &master_rec), (2, &override_b)];
    assert_eq!(detector.classify_conflict(&entries_itm), ConflictSeverity::ITM);

    let entries_mixed: Vec<(usize, &Record)> = vec![(0, &master_rec), (1, &override_a), (2, &override_b)];
    assert_eq!(detector.classify_conflict(&entries_mixed), ConflictSeverity::Critical);
}

#[test]
fn benign_conflict_header_only_diff() {
    let mut record_a = make_record(Signature::WEAP(), 0x0000_1234, 0, Some("IronSword"), Some(vec![10, 0, 0, 0]));
    record_a.vc_info = 0;
    record_a.version = 40;
    record_a.unknown = 0;

    let mut record_b = make_record(Signature::WEAP(), 0x0000_1234, 0, Some("IronSword"), Some(vec![10, 0, 0, 0]));
    record_b.vc_info = 12345;
    record_b.version = 44;
    record_b.unknown = 7;

    let lo = LoadOrder::new(GameId::SkyrimSE);
    let detector = ConflictDetector::new(&lo);

    let entries: Vec<(usize, &Record)> = vec![(0, &record_a), (1, &record_b)];
    assert_eq!(detector.classify_conflict(&entries), ConflictSeverity::Benign);
}

#[test]
fn subrecord_diff_missing_subrecord() {
    let record_a = make_record(Signature::WEAP(), 0x0000_1234, 0, Some("IronSword"), Some(vec![10, 0, 0, 0]));
    let record_b = make_record(Signature::WEAP(), 0x0000_1234, 0, Some("IronSword"), None);

    let lo = LoadOrder::new(GameId::SkyrimSE);
    let detector = ConflictDetector::new(&lo);
    let diffs = detector.diff_subrecords(0, &record_a, 1, &record_b);

    assert_eq!(diffs.len(), 1);
    assert_eq!(diffs[0].signature, Signature::DATA());
    assert_eq!(diffs[0].plugin_data[0].1, vec![10, 0, 0, 0]);
    assert!(diffs[0].plugin_data[1].1.is_empty());
}

#[test]
fn conflicts_single_plugin_has_none() {
    let mut lo = LoadOrder::new(GameId::SkyrimSE);
    lo.add_plugin(make_plugin(
        "Master.esm",
        RecordFlags::ESM,
        vec![],
        vec![make_record(Signature::WEAP(), 0x0000_1234, 0, Some("IronSword"), Some(vec![10, 0, 0, 0]))],
    ));
    let detector = ConflictDetector::new(&lo);
    assert!(detector.detect_all_conflicts().is_empty());
    assert!(detector.detect_itm(0).is_empty());
    assert!(detector.detect_deleted_references(0).is_empty());
}

#[test]
fn conflicts_are_sorted_by_form_id_and_unique() {
    let mut lo = LoadOrder::new(GameId::SkyrimSE);
    lo.add_plugin(make_plugin(
        "Master.esm",
        RecordFlags::ESM,
        vec![],
        vec![
            make_record(Signature::WEAP(), 0x0000_2000, 0, Some("B"), Some(vec![1])),
            make_record(Signature::WEAP(), 0x0000_1000, 0, Some("A"), Some(vec![1])),
        ],
    ));
    lo.add_plugin(make_plugin(
        "Mod.esp",
        0,
        vec!["Master.esm"],
        vec![
            make_record(Signature::WEAP(), 0x0000_1000, 0, Some("A"), Some(vec![2])),
            make_record(Signature::WEAP(), 0x0000_2000, 0, Some("B"), Some(vec![1])),
        ],
    ));
    let detector = ConflictDetector::new(&lo);
    let conflicts = detector.detect_all_conflicts();
    assert_eq!(conflicts.len(), 2);
    assert!(conflicts[0].form_id.raw() < conflicts[1].form_id.raw());
    assert_eq!(conflicts[0].severity, ConflictSeverity::Critical);
    assert_eq!(conflicts[1].severity, ConflictSeverity::ITM);
}
