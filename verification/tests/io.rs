use xedit::dialect::GameId;
use xedit::format::DomError;
use xedit::formid::FormId;
use xedit::group::{GroupChild, GroupType};
use xedit::reader::PluginReader;
use xedit::record::{Record, RecordFlags};
use xedit::signature::Signature;
use xedit::subrecord::Subrecord;
use xedit::writer::PluginWriter;

fn write_subrecord(buf: &mut Vec<u8>, sig: [u8; 4], data: &[u8]) {
    buf.extend_from_slice(&sig);
    buf.extend_from_slice(&(data.len() as u16).to_le_bytes());
    buf.extend_from_slice(data);
}

#[allow(clippy::too_many_arguments)]
fn write_record(
    buf: &mut Vec<u8>,
    sig: [u8; 4],
    flags: u32,
    form_id: u32,
    vc_info: u32,
    version: u16,
    unknown: u16,
    body: &[u8],
) {
    buf.extend_from_slice(&sig);
    buf.extend_from_slice(&(body.len() as u32).to_le_bytes());
    buf.extend_from_slice(&flags.to_le_bytes());
    buf.extend_from_slice(&form_id.to_le_bytes());
    buf.extend_from_slice(&vc_info.to_le_bytes());
    buf.extend_from_slice(&version.to_le_bytes());
    buf.extend_from_slice(&unknown.to_le_bytes());
    buf.extend_from_slice(body);
}

fn write_group(buf: &mut Vec<u8>, label: [u8; 4], group_type: u32, stamp: u32, unknown: u32, children: &[u8]) {
    buf.extend_from_slice(b"GRUP");
    buf.extend_from_slice(&((24 + children.len()) as u32).to_le_bytes());
    buf.extend_from_slice(&label);
    buf.extend_from_slice(&group_type.to_le_bytes());
    buf.extend_from_slice(&stamp.to_le_bytes());
    buf.extend_from_slice(&unknown.to_le_bytes());
    buf.extend_from_slice(children);
}

fn tes4_body(count: i32) -> Vec<u8> {
    let mut tes4_body = Vec::new();
    let mut hedr_data = Vec::new();
    hedr_data.extend_from_slice(&1.7f32.to_le_bytes());
    hedr_data.extend_from_slice(&count.to_le_bytes());
    hedr_data.extend_from_slice(&0x0000_0800u32.to_le_bytes());
    write_subrecord(&mut tes4_body, *b"HEDR", &hedr_data);
    write_subrecord(&mut tes4_body, *b"MAST", b"Skyrim.esm\0");
    write_subrecord(&mut tes4_body, *b"DATA", &0u64.to_le_bytes());
    tes4_body
}

fn build_minimal_sse_plugin() -> Vec<u8> {
    let tes4 = tes4_body(1);
    let mut gmst_body = Vec::new();
    write_subrecord(&mut gmst_body, *b"EDID", b"sTestSetting\0");
    write_subrecord(&mut gmst_body, *b"DATA", &1.0f32.to_le_bytes());

    let mut gmst_record = Vec::new();
    write_record(&mut gmst_record, *b"GMST", 0, 0x0000_0800, 0, 0, 0, &gmst_body);

    let mut top_group = Vec::new();
    write_group(&mut top_group, *b"GMST", 0, 0, 0, &gmst_record);

    let mut out = Vec::new();
    write_record(&mut out, *b"TES4", 0, 0, 0, 0, 0, &tes4);
    out.extend_from_slice(&top_group);
    out
}

fn build_multi_record_sse_plugin(count: usize) -> (Vec<u8>, Vec<u32>) {
    let tes4 = tes4_body(count as i32);
    let mut all_records = Vec::new();
    let mut form_ids = Vec::new();
    for i in 0..count {
        let form_id = 0x0000_0800 + i as u32;
        form_ids.push(form_id);
        let edid = format!("sTestSetting{}\0", i);
        let mut rec_body = Vec::new();
        write_subrecord(&mut rec_body, *b"EDID", edid.as_bytes());
        write_subrecord(&mut rec_body, *b"DATA", &((i + 1) as f32).to_le_bytes());
        write_record(&mut all_records, *b"GMST", 0, form_id, 0, 0, 0, &rec_body);
    }
    let mut top_group = Vec::new();
    write_group(&mut top_group, *b"GMST", 0, 0, 0, &all_records);
    let mut out = Vec::new();
    write_record(&mut out, *b"TES4", 0, 0, 0, 0, 0, &tes4);
    out.extend_from_slice(&top_group);
    (out, form_ids)
}

fn find_unique_subslice(haystack: &[u8], needle: &[u8]) -> usize {
    let mut matches = haystack
        .windows(needle.len())
        .enumerate()
        .filter_map(|(idx, window)| if window == needle { Some(idx) } else { None });
    let first = matches.next().expect("needle should exist");
    assert!(matches.next().is_none(), "needle should have exactly one occurrence");
    first
}

fn serialize_record_bytes(record: &Record) -> Vec<u8> {
    let mut buf = Vec::new();
    if let Some(ref raw_header) = record.raw_header {
        buf.extend_from_slice(raw_header);
        if let Some(ref raw_data) = record.raw_data {
            buf.extend_from_slice(raw_data);
        }
    }
    buf
}

fn extract_record_byte_ranges(plugin: &xedit::plugin::Plugin, group_idx: usize) -> Vec<(usize, usize)> {
    let group = &plugin.groups[group_idx];
    let mut ranges = Vec::new();
    for child in &group.children {
        if let GroupChild::Record(r) = child {
            if let Some(offset) = r.source_offset {
                let header_len = r.raw_header.as_ref().map_or(24, |h| h.len());
                let data_len = r.raw_data.as_ref().map_or(0, |d| d.len());
                ranges.push((offset as usize, offset as usize + header_len + data_len));
            }
        }
    }
    ranges
}

fn record_mut(plugin: &mut xedit::plugin::Plugin, index: usize) -> &mut Record {
    match plugin.groups.get_mut(0).unwrap().children.get_mut(index).unwrap() {
        GroupChild::Record(r) => r,
        GroupChild::Group(_) => panic!("expected record"),
    }
}

#[test]
fn minimal_sse_plugin_roundtrip_is_byte_identical() {
    let input = build_minimal_sse_plugin();
    let reader = PluginReader::new(GameId::SkyrimSE);
    let plugin = reader.read_bytes(&input, None).expect("plugin should parse");

    assert_eq!(plugin.header.signature, Signature::TES4());
    assert_eq!(plugin.groups.len(), 1);
    assert_eq!(plugin.masters, vec!["Skyrim.esm".to_string()]);
    assert_eq!(plugin.all_records().len(), 1);

    let hedr = plugin
        .header
        .subrecords_by_sig(Signature::from_bytes(b"HEDR"))
        .into_iter()
        .next()
        .expect("TES4 should contain HEDR");
    assert_eq!(hedr.raw_data.len(), 12);
    let num_records = i32::from_le_bytes([hedr.raw_data[4], hedr.raw_data[5], hedr.raw_data[6], hedr.raw_data[7]]);
    assert_eq!(num_records, 1);

    let group = &plugin.groups[0];
    assert_eq!(group.group_type, GroupType::Top(Signature::GMST()));
    let gmst = match &group.children[0] {
        GroupChild::Record(record) => record,
        GroupChild::Group(_) => panic!("expected GMST record"),
    };
    assert_eq!(gmst.signature, Signature::GMST());

    let output = PluginWriter::write_bytes(&plugin);
    assert_eq!(output, input);
}

#[test]
fn modifying_a_subrecord_changes_only_payload_bytes() {
    let input = build_minimal_sse_plugin();
    let old_payload = [0x00, 0x00, 0x80, 0x3F];
    let new_payload = [0x00, 0x00, 0x00, 0x40];
    let old_offset = find_unique_subslice(&input, &old_payload);

    let reader = PluginReader::new(GameId::SkyrimSE);
    let mut plugin = reader.read_bytes(&input, None).expect("plugin should parse");

    let record = record_mut(&mut plugin, 0);
    let data_subrecord = record
        .subrecords
        .iter_mut()
        .find(|sr| sr.signature == Signature::DATA())
        .expect("GMST should contain DATA");
    data_subrecord.raw_data = new_payload.to_vec();
    data_subrecord.modified = true;

    let output = PluginWriter::write_bytes(&plugin);
    assert_eq!(output.len(), input.len());

    let diffs: Vec<usize> = input
        .iter()
        .zip(output.iter())
        .enumerate()
        .filter_map(|(idx, (lhs, rhs))| if lhs != rhs { Some(idx) } else { None })
        .collect();
    let expected: Vec<usize> = old_payload
        .iter()
        .zip(new_payload.iter())
        .enumerate()
        .filter_map(|(idx, (old, new))| if old != new { Some(old_offset + idx) } else { None })
        .collect();
    assert_eq!(diffs, expected);
    assert_eq!(&output[old_offset..old_offset + 4], &new_payload);
}

#[test]
fn add_subrecord_changes_only_target_record() {
    let (input, _form_ids) = build_multi_record_sse_plugin(3);
    let reader = PluginReader::new(GameId::SkyrimSE);
    let mut plugin = reader.read_bytes(&input, None).expect("parse");

    let original_ranges = extract_record_byte_ranges(&plugin, 0);
    assert_eq!(original_ranges.len(), 3);

    let record = record_mut(&mut plugin, 1);
    record.subrecords.push(Subrecord::new(Signature::FULL(), b"Test Name\0".to_vec()));
    record.modified = true;
    record.raw_data = None;
    record.raw_header = None;

    let output = PluginWriter::write_bytes(&plugin);

    let orig_plugin = reader.read_bytes(&input, None).unwrap();
    let new_plugin = reader.read_bytes(&output, None).unwrap();
    let orig_records = orig_plugin.all_records();
    let new_records = new_plugin.all_records();
    assert_eq!(new_records.len(), 3);

    for idx in [0, 2] {
        assert_eq!(
            serialize_record_bytes(orig_records[idx]),
            serialize_record_bytes(new_records[idx]),
            "Record at index {} should be byte-identical after modifying record 1",
            idx
        );
    }

    assert_eq!(new_records[1].subrecords.len(), 3);
    let full_sr = new_records[1]
        .subrecords
        .iter()
        .find(|sr| sr.signature == Signature::FULL())
        .expect("modified record should have FULL subrecord");
    assert_eq!(full_sr.raw_data, b"Test Name\0");
}

#[test]
fn modify_subrecord_data_changes_only_target_record() {
    let (input, _form_ids) = build_multi_record_sse_plugin(4);
    let reader = PluginReader::new(GameId::SkyrimSE);
    let mut plugin = reader.read_bytes(&input, None).expect("parse");

    let record = record_mut(&mut plugin, 2);
    let data_sr = record.subrecords.iter_mut().find(|sr| sr.signature == Signature::DATA()).unwrap();
    data_sr.raw_data = 999.0f32.to_le_bytes().to_vec();
    data_sr.modified = true;

    let output = PluginWriter::write_bytes(&plugin);
    assert_eq!(output.len(), input.len());

    let orig_plugin = reader.read_bytes(&input, None).unwrap();
    let new_plugin = reader.read_bytes(&output, None).unwrap();
    let orig_records = orig_plugin.all_records();
    let new_records = new_plugin.all_records();

    for idx in [0, 1, 3] {
        assert_eq!(
            serialize_record_bytes(orig_records[idx]),
            serialize_record_bytes(new_records[idx]),
            "Record at index {} should be byte-identical",
            idx
        );
    }

    let modified_data = new_records[2].subrecords.iter().find(|sr| sr.signature == Signature::DATA()).unwrap();
    let val = f32::from_le_bytes([
        modified_data.raw_data[0],
        modified_data.raw_data[1],
        modified_data.raw_data[2],
        modified_data.raw_data[3],
    ]);
    assert!((val - 999.0).abs() < f32::EPSILON);

    assert_eq!(serialize_record_bytes(&orig_plugin.header), serialize_record_bytes(&new_plugin.header));
}

#[test]
fn delete_subrecord_shrinks_only_target_record() {
    let (input, _form_ids) = build_multi_record_sse_plugin(3);
    let reader = PluginReader::new(GameId::SkyrimSE);
    let mut plugin = reader.read_bytes(&input, None).expect("parse");

    let record = record_mut(&mut plugin, 0);
    assert_eq!(record.subrecords.len(), 2, "should have EDID + DATA");
    record.subrecords.retain(|sr| sr.signature != Signature::DATA());
    assert_eq!(record.subrecords.len(), 1);
    record.modified = true;
    record.raw_data = None;
    record.raw_header = None;

    let output = PluginWriter::write_bytes(&plugin);
    assert_eq!(output.len(), input.len() - 10);

    let orig_plugin = reader.read_bytes(&input, None).unwrap();
    let new_plugin = reader.read_bytes(&output, None).unwrap();
    let orig_records = orig_plugin.all_records();
    let new_records = new_plugin.all_records();

    assert_eq!(new_records[0].subrecords.len(), 1);
    assert_eq!(new_records[0].subrecords[0].signature, Signature::EDID());

    for idx in [1, 2] {
        assert_eq!(
            serialize_record_bytes(orig_records[idx]),
            serialize_record_bytes(new_records[idx]),
            "Record at index {} should be byte-identical after deleting subrecord from record 0",
            idx
        );
    }
}

#[test]
fn add_record_to_group_updates_group_size_preserves_existing() {
    let (input, _form_ids) = build_multi_record_sse_plugin(2);
    let reader = PluginReader::new(GameId::SkyrimSE);
    let mut plugin = reader.read_bytes(&input, None).expect("parse");

    let orig_records: Vec<Vec<u8>> = {
        let p = reader.read_bytes(&input, None).unwrap();
        p.all_records().iter().map(|r| serialize_record_bytes(r)).collect()
    };

    let new_record = Record {
        signature: Signature::GMST(),
        flags: RecordFlags::NONE(),
        form_id: FormId::new(0x0000_0900),
        vc_info: 0,
        version: 0,
        unknown: 0,
        subrecords: vec![
            Subrecord::new(Signature::EDID(), b"sNewSetting\0".to_vec()),
            Subrecord::new(Signature::DATA(), 42.0f32.to_le_bytes().to_vec()),
        ],
        raw_header: None,
        raw_compressed_data: None,
        raw_data: None,
        source_offset: None,
        modified: true,
    };
    plugin.groups[0].children.push(GroupChild::Record(new_record));

    let output = PluginWriter::write_bytes(&plugin);

    let new_plugin = reader.read_bytes(&output, None).unwrap();
    let new_records = new_plugin.all_records();
    assert_eq!(new_records.len(), 3, "should now have 3 records");

    for idx in 0..2 {
        assert_eq!(
            orig_records[idx],
            serialize_record_bytes(new_records[idx]),
            "Existing record {} should be byte-identical after adding new record",
            idx
        );
    }

    let total: usize = orig_records.iter().map(|r| r.len()).sum();
    let at = input.len() - total - 24 + 4;
    let orig_group_size = u32::from_le_bytes([input[at], input[at + 1], input[at + 2], input[at + 3]]);
    let grup_offset_out = output.windows(4).position(|w| w == b"GRUP").expect("should find GRUP");
    let new_group_size = u32::from_le_bytes([
        output[grup_offset_out + 4],
        output[grup_offset_out + 5],
        output[grup_offset_out + 6],
        output[grup_offset_out + 7],
    ]);
    assert!(
        new_group_size > orig_group_size,
        "Group size should increase: {} > {}",
        new_group_size,
        orig_group_size
    );

    assert_eq!(new_records[2].form_id.raw(), 0x0000_0900);
    assert_eq!(new_records[2].editor_id(), Some("sNewSetting"));
}

#[test]
fn multi_record_isolation_modify_index2_others_identical() {
    let (input, _form_ids) = build_multi_record_sse_plugin(4);
    let reader = PluginReader::new(GameId::SkyrimSE);

    let orig_plugin = reader.read_bytes(&input, None).unwrap();
    let orig_record_bytes: Vec<Vec<u8>> = orig_plugin.all_records().iter().map(|r| serialize_record_bytes(r)).collect();
    assert_eq!(orig_record_bytes.len(), 4);

    let mut plugin = reader.read_bytes(&input, None).unwrap();
    let record = record_mut(&mut plugin, 2);
    let edid_sr = record.subrecords.iter_mut().find(|sr| sr.signature == Signature::EDID()).unwrap();
    edid_sr.raw_data = b"sModifiedSetting\0".to_vec();
    edid_sr.modified = true;
    let data_sr = record.subrecords.iter_mut().find(|sr| sr.signature == Signature::DATA()).unwrap();
    data_sr.raw_data = 12345.0f32.to_le_bytes().to_vec();
    data_sr.modified = true;

    let output = PluginWriter::write_bytes(&plugin);

    let new_plugin = reader.read_bytes(&output, None).unwrap();
    let new_records = new_plugin.all_records();
    assert_eq!(new_records.len(), 4);

    for idx in [0usize, 1, 3] {
        assert_eq!(
            orig_record_bytes[idx],
            serialize_record_bytes(new_records[idx]),
            "Record at index {} must be byte-identical when only record 2 was modified",
            idx
        );
    }

    assert_eq!(new_records[2].editor_id(), Some("sModifiedSetting"));
    let data_sr = new_records[2].subrecords.iter().find(|sr| sr.signature == Signature::DATA()).unwrap();
    let val = f32::from_le_bytes([data_sr.raw_data[0], data_sr.raw_data[1], data_sr.raw_data[2], data_sr.raw_data[3]]);
    assert!((val - 12345.0).abs() < f32::EPSILON);

    assert_eq!(
        serialize_record_bytes(&orig_plugin.header),
        serialize_record_bytes(&new_plugin.header),
        "TES4 header must be preserved"
    );
}

#[test]
fn nested_groups_roundtrip_and_tes3_roundtrip() {
    // A CELL top group with a nested cell-children group.
    let mut refr_body = Vec::new();
    write_subrecord(&mut refr_body, *b"NAME", &7u32.to_le_bytes());
    let mut refr = Vec::new();
    write_record(&mut refr, *b"REFR", 0, 0x0000_0900, 3, 44, 1, &refr_body);
    let mut inner = Vec::new();
    write_group(&mut inner, 0x0000_0800u32.to_le_bytes(), 9, 5, 6, &refr);
    let mut cell = Vec::new();
    write_record(&mut cell, *b"CELL", 0, 0x0000_0800, 0, 0, 0, &[]);
    cell.extend_from_slice(&inner);
    let mut top = Vec::new();
    write_group(&mut top, *b"CELL", 0, 0, 0, &cell);
    let mut input = Vec::new();
    write_record(&mut input, *b"TES4", 1, 0, 0, 0, 0, &tes4_body(2));
    input.extend_from_slice(&top);

    let plugin = PluginReader::new(GameId::SkyrimSE).read_bytes(&input, Some("A.esm".to_string())).unwrap();
    assert!(plugin.is_master());
    assert_eq!(plugin.all_records().len(), 2);
    assert_eq!(plugin.top_level_count(), 1);
    assert_eq!(PluginWriter::write_bytes(&plugin), input);

    // Morrowind: 16-byte record headers, 8-byte subrecord headers.
    let mut tes3 = Vec::new();
    tes3.extend_from_slice(b"TES3");
    let mut body = Vec::new();
    body.extend_from_slice(b"HEDR");
    body.extend_from_slice(&4u32.to_le_bytes());
    body.extend_from_slice(&[1, 2, 3, 4]);
    tes3.extend_from_slice(&(body.len() as u32).to_le_bytes());
    tes3.extend_from_slice(&0u32.to_le_bytes());
    tes3.extend_from_slice(&0u32.to_le_bytes());
    tes3.extend_from_slice(&body);
    let p3 = PluginReader::new(GameId::Morrowind).read_bytes(&tes3, None).unwrap();
    assert!(p3.groups.is_empty());
    assert_eq!(PluginWriter::write_bytes(&p3), tes3);
}

fn try_parse(game_id: GameId, data: &[u8]) -> Result<(), String> {
    let reader = PluginReader::new(game_id);
    match reader.read_bytes(data, None) {
        Ok(_) => Ok(()),
        Err(e) => Err(format!("{e:?}")),
    }
}

fn try_parse_all_games(data: &[u8]) {
    let games = [
        GameId::SkyrimSE,
        GameId::Fallout4,
        GameId::FalloutNV,
        GameId::Fallout3,
        GameId::Oblivion,
        GameId::Morrowind,
    ];
    for game_id in &games {
        let reader = PluginReader::new(*game_id);
        let _ = reader.read_bytes(data, None);
    }
}

#[test]
fn fuzz_empty_input_does_not_panic() {
    try_parse_all_games(&[]);
}

#[test]
fn fuzz_empty_input_returns_error() {
    let result = try_parse(GameId::SkyrimSE, &[]);
    assert!(result.is_err(), "Empty input should produce an error, not a valid plugin");
}

#[test]
fn fuzz_truncated_header_does_not_panic() {
    let partial = b"TES4\x10\x00\x00\x00\x00\x00";
    try_parse_all_games(partial);
}

#[test]
fn fuzz_truncated_header_returns_error() {
    let partial = b"TES4\x10\x00\x00\x00\x00\x00";
    let result = try_parse(GameId::SkyrimSE, partial);
    assert!(result.is_err(), "Truncated header should produce an error");
}

#[test]
fn fuzz_invalid_magic_does_not_panic() {
    let mut data = vec![0u8; 64];
    data[0..4].copy_from_slice(b"XXXX");
    try_parse_all_games(&data);
}

#[test]
fn fuzz_invalid_magic_returns_error() {
    let mut data = vec![0u8; 64];
    data[0..4].copy_from_slice(b"XXXX");
    let result = try_parse(GameId::SkyrimSE, &data);
    assert!(result.is_err(), "Invalid magic signature should produce an error");
}

#[test]
fn fuzz_oversized_record_does_not_panic() {
    let mut data = vec![0u8; 24];
    data[0..4].copy_from_slice(b"TES4");
    data[4] = 0x00;
    data[5] = 0x00;
    data[6] = 0x10;
    data[7] = 0x00;
    try_parse_all_games(&data);
}

#[test]
fn fuzz_oversized_record_returns_error() {
    let mut data = vec![0u8; 24];
    data[0..4].copy_from_slice(b"TES4");
    data[4] = 0x00;
    data[5] = 0x00;
    data[6] = 0x10;
    data[7] = 0x00;
    let result = try_parse(GameId::SkyrimSE, &data);
    assert!(result.is_err(), "Oversized record with truncated data should produce an error");
}

#[test]
fn fuzz_corrupted_subrecord_does_not_panic() {
    let mut data = vec![0u8; 48];
    data[0..4].copy_from_slice(b"TES4");
    data[4] = 24;
    data[24..28].copy_from_slice(b"HEDR");
    data[28] = 0xFF;
    data[29] = 0xFF;
    try_parse_all_games(&data);
}

#[test]
fn fuzz_corrupted_subrecord_returns_error() {
    let mut data = vec![0u8; 48];
    data[0..4].copy_from_slice(b"TES4");
    data[4] = 24;
    data[24..28].copy_from_slice(b"HEDR");
    data[28] = 0xFF;
    data[29] = 0xFF;
    let result = try_parse(GameId::SkyrimSE, &data);
    let _ = result;
}

#[test]
fn fuzz_all_ff_bytes_does_not_panic() {
    let data = vec![0xFFu8; 256];
    try_parse_all_games(&data);
}

#[test]
fn fuzz_header_only_no_groups_does_not_panic() {
    let mut data = vec![0u8; 42];
    data[0..4].copy_from_slice(b"TES4");
    data[4] = 18;
    data[24..28].copy_from_slice(b"HEDR");
    data[28] = 12;
    try_parse_all_games(&data);
}

#[test]
fn fuzz_header_only_no_groups_parses_or_errors() {
    let mut data = vec![0u8; 42];
    data[0..4].copy_from_slice(b"TES4");
    data[4] = 18;
    data[24..28].copy_from_slice(b"HEDR");
    data[28] = 12;
    let reader = PluginReader::new(GameId::SkyrimSE);
    match reader.read_bytes(&data, None) {
        Ok(plugin) => assert_eq!(plugin.header.signature, Signature::TES4()),
        Err(_) => {}
    }
}

#[test]
fn fuzz_truncated_group_header_does_not_panic() {
    let mut data = vec![0u8; 32];
    data[0..4].copy_from_slice(b"TES4");
    data[24..28].copy_from_slice(b"GRUP");
    data[28] = 0xFF;
    try_parse_all_games(&data);
}

#[test]
fn fuzz_near_max_size_does_not_panic() {
    let mut data = vec![0u8; 24];
    data[0..4].copy_from_slice(b"TES4");
    data[4] = 0xFF;
    data[5] = 0xFF;
    data[6] = 0xFF;
    data[7] = 0xFF;
    try_parse_all_games(&data);
}

#[test]
fn fuzz_random_ish_with_tes4_prefix_does_not_panic() {
    let mut data = Vec::with_capacity(512);
    data.extend_from_slice(b"TES4");
    let mut x: u32 = 0xDEADBEEF;
    for _ in 4..512 {
        x = x.wrapping_mul(1103515245).wrapping_add(12345);
        data.push((x >> 16) as u8);
    }
    try_parse_all_games(&data);
}

#[test]
fn fuzz_tes3_garbage_body_does_not_panic() {
    let mut data = vec![0u8; 128];
    data[0..4].copy_from_slice(b"TES3");
    for i in 4..128 {
        data[i] = (i as u8).wrapping_mul(37);
    }
    let reader = PluginReader::new(GameId::Morrowind);
    let _ = reader.read_bytes(&data, None);
}

#[test]
fn invalid_magic_reports_found_bytes() {
    // A well-sized header record whose signature is not TES4.
    let mut data = Vec::new();
    write_record(&mut data, *b"ABCD", 0, 0, 0, 0, 0, &[]);
    let reader = PluginReader::new(GameId::SkyrimSE);
    let result = reader.read_bytes(&data, None);
    assert!(matches!(result, Err(DomError::InvalidMagic(b)) if &b == b"ABCD"));
}

#[test]
fn try_write_bytes_refuses_a_short_stored_group_header() {
    let data = build_minimal_sse_plugin();
    let reader = PluginReader::new(GameId::SkyrimSE);
    let mut plugin = reader.read_bytes(&data, None).unwrap();
    assert_eq!(PluginWriter::try_write_bytes(&plugin), Some(data.clone()));
    plugin.groups[0].raw_header = Some(vec![1, 2, 3]);
    assert_eq!(PluginWriter::try_write_bytes(&plugin), None);
}
