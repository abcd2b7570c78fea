use xedit::interface::{
    c_string_reply, chars_contain, group_type_name, hex_string, group_type_signature, record_at, refby_batch, refby_rows,
    sanitize_plugin_db_filename, search_editor_id, search_form_id, severity_code, subrecords_batch, RefByRow, XEDIT_ERR_INVALID_PATH, XEDIT_ERR_LOAD_FAILED,
    XEDIT_ERR_NULL_HANDLE,
};
use xedit::conflicts::ConflictSeverity;
use xedit::dialect::GameId;
use xedit::formid::FormId;
use xedit::group::{Group, GroupChild, GroupType};
use xedit::plugin::Plugin;
use xedit::record::{Record, RecordFlags};
use xedit::refby::build_refby_index;
use xedit::signature::Signature;
use xedit::subrecord::Subrecord;

fn rec(sig: &[u8; 4], form_id: u32, subs: Vec<Subrecord>) -> Record {
    Record {
        signature: Signature::from_bytes(sig),
        flags: RecordFlags(0),
        form_id: FormId::new(form_id),
        vc_info: 0,
        version: 0,
        unknown: 0,
        subrecords: subs,
        raw_header: None,
        raw_compressed_data: None,
        raw_data: None,
        source_offset: None,
        modified: false,
    }
}

fn grp(t: GroupType, children: Vec<GroupChild>) -> Group {
    Group { group_type: t, stamp: 0, unknown: 0, children, raw_header: None, source_offset: None }
}

fn plugin(path: Option<&str>, groups: Vec<Group>) -> Plugin {
    Plugin {
        game_id: GameId::SkyrimSE,
        file_path: path.map(|p| p.to_string()),
        header: rec(b"TES4", 0, vec![]),
        groups,
        tes3_records: vec![],
        masters: vec![],
        description: None,
        author: None,
        modified: false,
    }
}

fn sample() -> Vec<Plugin> {
    let weap = rec(
        b"WEAP",
        0x0000_0800,
        vec![Subrecord::new(Signature::EDID(), b"Sword\0".to_vec())],
    );
    let inner = grp(GroupType::CellChildren(1), vec![GroupChild::Record(rec(b"REFR", 0x0000_0900, vec![]))]);
    let npc = rec(
        b"NPC_",
        0x0000_0801,
        vec![
            Subrecord::new(Signature::EDID(), b"Guard\0".to_vec()),
            Subrecord::new(Signature::from_bytes(b"CNTO"), 0x0000_0800u32.to_le_bytes().to_vec()),
        ],
    );
    vec![plugin(
        Some("/data/Mod.esp"),
        vec![
            grp(GroupType::Top(Signature::from_bytes(b"WEAP")), vec![GroupChild::Record(weap)]),
            grp(
                GroupType::Top(Signature::from_bytes(b"NPC_")),
                vec![GroupChild::Group(inner), GroupChild::Record(npc)],
            ),
        ],
    )]
}

#[test]
fn record_at_follows_the_indices() {
    let ps = sample();
    assert_eq!(record_at(&ps, 0, 0, 0).unwrap().form_id.0, 0x800);
    // records of a group are counted depth-first
    assert_eq!(record_at(&ps, 0, 1, 0).unwrap().form_id.0, 0x900);
    assert_eq!(record_at(&ps, 0, 1, 1).unwrap().form_id.0, 0x801);
    assert!(record_at(&ps, 0, 1, 2).is_none());
    assert!(record_at(&ps, 1, 0, 0).is_none());
    assert!(record_at(&ps, -1, 0, 0).is_none());
    assert!(record_at(&ps, 0, 2, 0).is_none());
}

#[test]
fn subrecords_batch_layout_and_answers() {
    let subs = vec![
        Subrecord::new(Signature::EDID(), b"Hi\0".to_vec()),
        Subrecord::new(Signature::from_bytes(b"D\x00TA"), vec![7; 5]),
    ];
    let expected_len = 4 + (8 + 3) + (8 + 5);
    let b = subrecords_batch(&subs, 100).unwrap();
    assert_eq!(b.len(), expected_len);
    assert_eq!(&b[0..4], &2i32.to_le_bytes());
    assert_eq!(&b[4..8], b"EDID");
    assert_eq!(&b[8..12], &3i32.to_le_bytes());
    assert_eq!(&b[12..15], b"Hi\0");
    // a non-printable signature byte is reported as '?'
    assert_eq!(&b[15..19], b"D?TA");
    assert_eq!(&b[19..23], &5i32.to_le_bytes());
    assert_eq!(&b[23..28], &[7u8; 5]);

    assert_eq!(subrecords_batch(&subs, expected_len as i32).unwrap().len(), expected_len);
    assert_eq!(subrecords_batch(&subs, expected_len as i32 - 1), Err(-(expected_len as i32)));
    assert_eq!(subrecords_batch(&subs, 0), Err(XEDIT_ERR_NULL_HANDLE));
    assert_eq!(subrecords_batch(&[], 4).unwrap(), 0i32.to_le_bytes().to_vec());
    let _ = XEDIT_ERR_LOAD_FAILED;
}

#[test]
fn refby_rows_report_the_referencing_records() {
    let ps = sample();
    let index = build_refby_index(&ps);
    // the NPC (group 1, record 1) references the weapon
    assert_eq!(index, vec![(0x800, 0, 1, 1)]);
    let mut entries = index.clone();
    entries.push((0x800, 5, 0, 0)); // no such plugin: left out
    entries.push((0x800, 0, 9, 0)); // no such group: reported without metadata
    let rows = refby_rows(&ps, &entries);
    assert_eq!(rows.len(), 2);
    assert_eq!((rows[0].plugin_idx, rows[0].group_idx, rows[0].record_idx), (0, 1, 1));
    assert_eq!(rows[0].form_id, 0x801);
    assert_eq!(rows[0].signature, "NPC_");
    assert_eq!(rows[0].editor_id, "Guard");
    assert_eq!(rows[0].filename, "Mod.esp");
    assert_eq!(rows[1].form_id, 0);
    assert_eq!(rows[1].signature, "");
    assert_eq!(rows[1].filename, "Mod.esp");

    let unnamed = vec![plugin(None, vec![])];
    let rows = refby_rows(&unnamed, &[(1, 0, 0, 0)]);
    assert_eq!(rows[0].filename, "(unknown)");
}

fn row(edid: &str) -> RefByRow {
    RefByRow {
        plugin_idx: 1,
        group_idx: 2,
        record_idx: 3,
        form_id: 0xABCD,
        signature: "NPC_".to_string(),
        editor_id: edid.to_string(),
        filename: "a.esp".to_string(),
    }
}

#[test]
fn refby_batch_packs_whole_rows_that_fit() {
    let rows = vec![row("Guard"), row("X")];
    let first_len = 16 + 2 + 4 + 2 + 5 + 2 + 5;
    let (b, n) = refby_batch(&rows, 1000).unwrap();
    assert_eq!(n, 2);
    assert_eq!(&b[0..4], &1i32.to_le_bytes());
    assert_eq!(&b[4..8], &2i32.to_le_bytes());
    assert_eq!(&b[8..12], &3i32.to_le_bytes());
    assert_eq!(&b[12..16], &0xABCDu32.to_le_bytes());
    assert_eq!(&b[16..18], &4u16.to_le_bytes());
    assert_eq!(&b[18..22], b"NPC_");
    assert_eq!(&b[22..24], &5u16.to_le_bytes());
    assert_eq!(&b[24..29], b"Guard");
    assert_eq!(&b[29..31], &5u16.to_le_bytes());
    assert_eq!(&b[31..36], b"a.esp");
    assert_eq!(b.len(), first_len + first_len - 4);

    let (b, n) = refby_batch(&rows, first_len as i32).unwrap();
    assert_eq!((b.len(), n), (first_len, 1));
    let (b, n) = refby_batch(&rows, first_len as i32 - 1).unwrap();
    assert_eq!((b.len(), n), (0, 0));
    assert!(refby_batch(&rows, 0).is_err());
}

#[test]
fn group_type_names() {
    assert_eq!(group_type_name(&GroupType::Top(Signature::from_bytes(b"WEAP"))), "WEAP");
    assert_eq!(group_type_name(&GroupType::WorldChildren(60)), "World Children [60]");
    assert_eq!(group_type_name(&GroupType::InteriorCellBlock(-3)), "Interior Cell Block -3");
    assert_eq!(group_type_name(&GroupType::InteriorCellSubBlock(7)), "Interior Cell Sub-Block 7");
    assert_eq!(
        group_type_name(&GroupType::ExteriorCellBlock { x: -1, y: 2 }),
        "Exterior Cell Block (-1, 2)"
    );
    assert_eq!(
        group_type_name(&GroupType::ExteriorCellSubBlock { x: 0, y: -32768 }),
        "Exterior Cell Sub-Block (0, -32768)"
    );
    assert_eq!(group_type_name(&GroupType::CellChildren(0)), "Cell Children [0]");
    assert_eq!(group_type_name(&GroupType::TopicChildren(4294967295)), "Topic Children [4294967295]");
    assert_eq!(group_type_name(&GroupType::CellPersistentChildren(5)), "Cell Persistent Children [5]");
    assert_eq!(group_type_name(&GroupType::CellTemporaryChildren(6)), "Cell Temporary Children [6]");
    assert_eq!(
        group_type_name(&GroupType::CellVisibleDistantChildren(8)),
        "Cell Visible Distant Children [8]"
    );
    assert_eq!(group_type_signature(&GroupType::Top(Signature::from_bytes(b"NPC_"))), "NPC_");
    assert_eq!(group_type_signature(&GroupType::CellChildren(1)), "GRUP");
}

#[test]
fn plugin_db_file_names_are_sanitized() {
    assert_eq!(sanitize_plugin_db_filename("Skyrim.esm"), "Skyrim.esm");
    assert_eq!(sanitize_plugin_db_filename("My Mod (v2)-final_1.esp"), "My_Mod__v2_-final_1.esp");
    assert_eq!(sanitize_plugin_db_filename("Ünïcode.esp"), "_n_code.esp");
    assert_eq!(sanitize_plugin_db_filename(""), "");
}

#[test]
fn search_by_form_id_finds_the_first_record() {
    let ps = sample();
    assert_eq!(search_form_id(&ps, 0, 0x800), Ok((0, 0)));
    assert_eq!(search_form_id(&ps, 0, 0x900), Ok((1, 0)));
    assert_eq!(search_form_id(&ps, 0, 0x801), Ok((1, 1)));
    assert_eq!(search_form_id(&ps, 0, 0x123), Err(XEDIT_ERR_NULL_HANDLE));
    assert_eq!(search_form_id(&ps, 1, 0x800), Err(XEDIT_ERR_NULL_HANDLE));
}

#[test]
fn search_by_editor_id_ignores_case_and_stops_at_the_limit() {
    let ps = sample();
    assert_eq!(search_editor_id(&ps, 0, "UAR", 10), Ok(vec![(1, 1)]));
    assert_eq!(search_editor_id(&ps, 0, "", 10), Ok(vec![(0, 0), (1, 1)]));
    assert_eq!(search_editor_id(&ps, 0, "", 1), Ok(vec![(0, 0)]));
    assert_eq!(search_editor_id(&ps, 0, "axe", 10), Ok(vec![]));
    assert_eq!(search_editor_id(&ps, 0, "s", 0), Err(XEDIT_ERR_NULL_HANDLE));
    assert_eq!(search_editor_id(&ps, 3, "s", 5), Err(XEDIT_ERR_NULL_HANDLE));
}

#[test]
fn infix_search() {
    let c = |s: &str| s.chars().collect::<Vec<char>>();
    assert!(chars_contain(&c("guard"), &c("uar")));
    assert!(chars_contain(&c("guard"), &c("guard")));
    assert!(chars_contain(&c("guard"), &c("")));
    assert!(chars_contain(&c(""), &c("")));
    assert!(!chars_contain(&c("guard"), &c("guards")));
    assert!(!chars_contain(&c("guard"), &c("ua d")));
    assert!(chars_contain(&c("aab"), &c("ab")));
}

#[test]
fn hex_strings_of_subrecord_data() {
    assert_eq!(hex_string(&[0x0A, 0xFF, 0x12]), "0A FF 12");
    assert_eq!(hex_string(&[0]), "00");
    assert_eq!(hex_string(&[]), "");
}

#[test]
fn text_replies_fit_the_buffer() {
    assert_eq!(c_string_reply("abc", 10), Ok(b"abc\0".to_vec()));
    assert_eq!(c_string_reply("abc", 4), Ok(b"abc\0".to_vec()));
    // cut to leave room for the zero byte
    assert_eq!(c_string_reply("abc", 3), Ok(b"ab\0".to_vec()));
    assert_eq!(c_string_reply("abc", 1), Ok(b"\0".to_vec()));
    assert_eq!(c_string_reply("é", 10), Ok(vec![0xC3, 0xA9, 0]));
    assert_eq!(c_string_reply("abc", 0), Err(XEDIT_ERR_NULL_HANDLE));
    assert_eq!(c_string_reply("a\0b", 10), Err(XEDIT_ERR_INVALID_PATH));
}

#[test]
fn severity_numbers() {
    assert_eq!(severity_code(ConflictSeverity::Critical), 0);
    assert_eq!(severity_code(ConflictSeverity::Override), 1);
    assert_eq!(severity_code(ConflictSeverity::Benign), 2);
    assert_eq!(severity_code(ConflictSeverity::ITM), 3);
}
