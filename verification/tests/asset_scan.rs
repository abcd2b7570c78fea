use xedit::asset_scan::{scan_plugin_assets, scan_unique_asset_paths};
use xedit::dialect::GameId;
use xedit::formid::FormId;
use xedit::group::{Group, GroupChild, GroupType};
use xedit::plugin::Plugin;
use xedit::record::{Record, RecordFlags};
use xedit::signature::Signature;
use xedit::subrecord::Subrecord;

fn weapon(form_id: u32, subrecords: Vec<Subrecord>) -> Record {
    Record {
        signature: Signature::WEAP(),
        flags: RecordFlags::NONE(),
        form_id: FormId::new(form_id),
        vc_info: 0,
        version: 0,
        unknown: 0,
        subrecords,
        raw_header: None,
        raw_compressed_data: None,
        raw_data: None,
        source_offset: None,
        modified: false,
    }
}

fn make_plugin_with_records(records: Vec<Record>) -> Plugin {
    let group = Group {
        group_type: GroupType::Top(Signature::WEAP()),
        stamp: 0,
        unknown: 0,
        children: records.into_iter().map(GroupChild::Record).collect(),
        raw_header: None,
        source_offset: None,
    };
    Plugin {
        game_id: GameId::SkyrimSE,
        file_path: Some("Test.esp".to_string()),
        header: Record {
            signature: Signature::TES4(),
            flags: RecordFlags::NONE(),
            form_id: FormId::NULL(),
            vc_info: 0,
            version: 0,
            unknown: 0,
            subrecords: vec![],
            raw_header: None,
            raw_compressed_data: None,
            raw_data: None,
            source_offset: None,
            modified: false,
        },
        groups: vec![group],
        tes3_records: Vec::new(),
        masters: vec![],
        description: None,
        author: None,
        modified: false,
    }
}

#[test]
fn test_scan_finds_model_path() {
    let mut model_data = b"meshes/weapons/iron/ironsword.nif".to_vec();
    model_data.push(0);

    let record = weapon(
        0x00012345,
        vec![
            Subrecord::new(Signature::from_bytes(b"EDID"), b"IronSword\0".to_vec()),
            Subrecord::new(Signature::MODL(), model_data),
        ],
    );

    let plugin = make_plugin_with_records(vec![record]);
    let refs = scan_plugin_assets(&plugin);

    assert_eq!(refs.len(), 1);
    assert_eq!(refs[0].asset_path, "meshes/weapons/iron/ironsword.nif");
    assert_eq!(refs[0].subrecord_signature, Signature::MODL());
    assert_eq!(refs[0].editor_id.as_deref(), Some("IronSword"));
}

#[test]
fn test_scan_finds_multiple_asset_types() {
    let record = weapon(
        0x00012345,
        vec![
            Subrecord::new(Signature::MODL(), b"meshes/weapons/sword.nif\0".to_vec()),
            Subrecord::new(Signature::from_bytes(b"ICON"), b"textures/weapons/sword_icon.dds\0".to_vec()),
            Subrecord::new(Signature::from_bytes(b"MICO"), b"textures/weapons/sword_micon.dds\0".to_vec()),
        ],
    );

    let plugin = make_plugin_with_records(vec![record]);
    let refs = scan_plugin_assets(&plugin);

    assert_eq!(refs.len(), 3);

    let paths: Vec<&str> = refs.iter().map(|r| r.asset_path.as_str()).collect();
    assert!(paths.contains(&"meshes/weapons/sword.nif"));
    assert!(paths.contains(&"textures/weapons/sword_icon.dds"));
    assert!(paths.contains(&"textures/weapons/sword_micon.dds"));
}

#[test]
fn test_scan_unique_deduplicates() {
    let records = vec![
        weapon(0x00000001, vec![Subrecord::new(Signature::MODL(), b"Meshes\\Weapons\\Sword.nif\0".to_vec())]),
        weapon(0x00000002, vec![Subrecord::new(Signature::MODL(), b"meshes/weapons/sword.nif\0".to_vec())]),
    ];

    let plugin = make_plugin_with_records(records);
    let paths = scan_unique_asset_paths(&plugin);

    assert_eq!(paths.len(), 1);
    assert_eq!(paths[0], "meshes/weapons/sword.nif");
}

#[test]
fn scan_skips_empty_paths_and_other_subrecords() {
    let record = weapon(
        0x00000010,
        vec![
            Subrecord::new(Signature::MODL(), b"\0".to_vec()),
            Subrecord::new(Signature::DATA(), b"meshes/not_an_asset.nif\0".to_vec()),
            Subrecord::new(Signature::MODL(), b"Meshes\\A.nif".to_vec()),
        ],
    );
    let plugin = make_plugin_with_records(vec![record]);
    let refs = scan_plugin_assets(&plugin);
    assert_eq!(refs.len(), 1);
    assert_eq!(refs[0].asset_path, "Meshes\\A.nif");
    assert_eq!(refs[0].editor_id, None);
    assert_eq!(refs[0].form_id, 0x10);
}

#[test]
fn unique_paths_are_sorted() {
    let records = vec![weapon(
        1,
        vec![
            Subrecord::new(Signature::MODL(), b"Textures\\Z.dds\0".to_vec()),
            Subrecord::new(Signature::MODL(), b"meshes/b.nif\0".to_vec()),
            Subrecord::new(Signature::MODL(), b"meshes/a.nif\0".to_vec()),
        ],
    )];
    let plugin = make_plugin_with_records(records);
    let paths = scan_unique_asset_paths(&plugin);
    assert_eq!(paths, vec!["meshes/a.nif", "meshes/b.nif", "textures/z.dds"]);
}
