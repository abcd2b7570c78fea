use std::io::Write;

use xedit::compress::{deflate_inflate, zlib_inflate};
use xedit::dialect::GameId;
use xedit::formid::FormId;
use xedit::group::{Group, GroupChild, GroupType};
use xedit::paths::join_str;
use xedit::plugin::Plugin;
use xedit::reader::PluginReader;
use xedit::record::{Record, RecordFlags};
use xedit::reference_scanner::{scan_object_bases, scan_tree_bases, scan_worldspace_refs};
use xedit::signature::Signature;
use xedit::subrecord::Subrecord;
use xedit::text::{debug_str, str_from_utf8, str_to_lowercase, utf8_lossy};
use xedit::writer::PluginWriter;

fn zlib(data: &[u8]) -> Vec<u8> {
    let mut e = flate2::write::ZlibEncoder::new(Vec::new(), flate2::Compression::default());
    e.write_all(data).unwrap();
    e.finish().unwrap()
}

#[test]
fn zlib_and_deflate_inflate_decode() {
    let plain = b"hello hello hello hello".to_vec();
    let packed = zlib(&plain);
    assert_ne!(packed, plain);
    assert_eq!(zlib_inflate(&packed), Some(plain.clone()));
    assert_eq!(zlib_inflate(b"not zlib at all"), None);

    let mut e = flate2::write::DeflateEncoder::new(Vec::new(), flate2::Compression::default());
    e.write_all(&plain).unwrap();
    let raw = e.finish().unwrap();
    assert_eq!(deflate_inflate(&raw), Some(plain));
}

#[test]
fn compressed_record_is_decoded_and_written_back_unchanged() {
    let mut subs = Vec::new();
    subs.extend_from_slice(b"EDID");
    subs.extend_from_slice(&6u16.to_le_bytes());
    subs.extend_from_slice(b"Inner\0");
    let packed = zlib(&subs);
    let mut body = Vec::new();
    body.extend_from_slice(&(subs.len() as u32).to_le_bytes());
    body.extend_from_slice(&packed);

    let mut rec = Vec::new();
    rec.extend_from_slice(b"WEAP");
    rec.extend_from_slice(&(body.len() as u32).to_le_bytes());
    rec.extend_from_slice(&RecordFlags::COMPRESSED.to_le_bytes());
    rec.extend_from_slice(&0x0000_0800u32.to_le_bytes());
    rec.extend_from_slice(&[0u8; 8]);
    rec.extend_from_slice(&body);

    let mut input = Vec::new();
    input.extend_from_slice(b"TES4");
    input.extend_from_slice(&0u32.to_le_bytes());
    input.extend_from_slice(&[0u8; 16]);
    input.extend_from_slice(b"GRUP");
    input.extend_from_slice(&((24 + rec.len()) as u32).to_le_bytes());
    input.extend_from_slice(b"WEAP");
    input.extend_from_slice(&[0u8; 12]);
    input.extend_from_slice(&rec);

    let plugin = PluginReader::new(GameId::SkyrimSE).read_bytes(&input, None).expect("parse");
    let records = plugin.all_records();
    assert_eq!(records.len(), 1);
    assert!(records[0].flags.is_compressed());
    assert_eq!(records[0].editor_id(), Some("Inner"));
    assert_eq!(PluginWriter::write_bytes(&plugin), input);
}

#[test]
fn text_wrappers() {
    assert_eq!(str_from_utf8(b"abc"), Some("abc"));
    assert_eq!(str_from_utf8(&[0xff, 0x61]), None);
    assert_eq!(utf8_lossy(&[0x61, 0xff, 0x62]), "a\u{fffd}b");
    assert_eq!(str_to_lowercase("ÄBC"), "äbc");
    assert_eq!(debug_str("a\"b"), "\"a\\\"b\"");
    assert_eq!(join_str("/a/b", "c"), "/a/b/c");
    assert_eq!(join_str("/a/b", "/c"), "/c");
}

#[test]
fn signature_and_form_id_helpers() {
    let s = Signature::from_bytes(b"WE\x01P");
    assert_eq!(s.as_str(), "WE?P");
    assert_eq!(s.as_bytes(), b"WE\x01P");
    let f = FormId::new(0x0A00_1234);
    assert_eq!(f.master_index(), 0x0A);
    assert_eq!(f.local_id(), 0x1234);
    assert!(!f.is_null());
    assert!(FormId::NULL().is_null());
    let sub = Subrecord::new(Signature::EDID(), vec![1, 2, 3]);
    assert_eq!(sub.size, 3);
    assert_eq!(sub.data_size(), 3);
    assert_eq!(sub.total_size(), 9);
}

fn stat(form_id: u32, flags: u32, subs: Vec<Subrecord>) -> Record {
    Record {
        signature: Signature::STAT(),
        flags: RecordFlags(flags),
        form_id: FormId::new(form_id),
        vc_info: 0,
        version: 0,
        unknown: 0,
        subrecords: subs,
        raw_header: None,
        raw_compressed_data: None,
        raw_data: None,
        source_offset: None,
        modified: false,
    }
}

fn plugin_with(group_sig: Signature, records: Vec<Record>) -> Plugin {
    Plugin {
        game_id: GameId::FalloutNV,
        file_path: None,
        header: stat(0, 0, vec![]),
        groups: vec![Group {
            group_type: GroupType::Top(group_sig),
            stamp: 0,
            unknown: 0,
            children: records.into_iter().map(GroupChild::Record).collect(),
            raw_header: None,
            source_offset: None,
        }],
        tes3_records: vec![],
        masters: vec![],
        description: None,
        author: None,
        modified: false,
    }
}

#[test]
fn object_bases_are_collected_from_stat_groups() {
    let p1 = plugin_with(
        Signature::STAT(),
        vec![
            stat(
                0x10,
                0x8000,
                vec![
                    Subrecord::new(Signature::EDID(), b"Rock\0".to_vec()),
                    Subrecord::new(Signature::from_bytes(b"MNAM"), b"meshes/lod/rock.nif\0".to_vec()),
                    Subrecord::new(Signature::from_bytes(b"MNAM"), b"\0".to_vec()),
                ],
            ),
            stat(0x11, 0x8020, vec![]),
            stat(0x12, 0x0000, vec![]),
        ],
    );
    let p2 = plugin_with(
        Signature::STAT(),
        vec![stat(0x10, 0x8040, vec![Subrecord::new(Signature::from_bytes(b"MNAM"), b"lod2.nif".to_vec())])],
    );
    let p3 = plugin_with(Signature::WEAP(), vec![stat(0x20, 0x8000, vec![])]);
    let bases = scan_object_bases(&[p1, p2, p3]);
    assert_eq!(bases.len(), 1);
    let info = &bases[&0x10];
    assert_eq!(info.editor_id, "");
    assert!(info.has_tree_lod);
    assert_eq!(info.lod_models, vec!["lod2.nif".to_string()]);

    // a HasDistantLOD record without any LOD model is not an object base
    let p4 = plugin_with(
        Signature::STAT(),
        vec![
            stat(0x30, 0x8000, vec![]),
            stat(0x31, 0x8000, vec![Subrecord::new(Signature::from_bytes(b"MNAM"), b"\0".to_vec())]),
        ],
    );
    assert!(scan_object_bases(&[p4]).is_empty());

    let p1 = plugin_with(
        Signature::STAT(),
        vec![stat(
            0x10,
            0x8000,
            vec![
                Subrecord::new(Signature::EDID(), b"Rock\0".to_vec()),
                Subrecord::new(Signature::from_bytes(b"MNAM"), b"meshes/lod/rock.nif\0".to_vec()),
            ],
        )],
    );
    let bases = scan_object_bases(&[p1]);
    let info = &bases[&0x10];
    assert_eq!(info.editor_id, "Rock");
    assert_eq!(info.lod_models, vec!["meshes/lod/rock.nif".to_string()]);
    assert!(info.has_distant_lod);
    assert!(!info.has_tree_lod);
}

fn obnd(b: [i16; 6]) -> Subrecord {
    let mut d = Vec::new();
    for v in b {
        d.extend_from_slice(&v.to_le_bytes());
    }
    Subrecord::new(Signature::from_bytes(b"OBND"), d)
}

#[test]
fn tree_bases_are_collected_from_stat_acti_tree_groups() {
    let mut p1 = plugin_with(
        Signature::from_bytes(b"TREE"),
        vec![
            stat(
                0x0100_0abc,
                0x0040,
                vec![
                    Subrecord::new(Signature::EDID(), b"Pine\0".to_vec()),
                    Subrecord::new(Signature::from_bytes(b"MODL"), b"Trees\\Pine01.nif\0junk".to_vec()),
                    obnd([-100, -90, 0, 120, 95, 700]),
                ],
            ),
            // deleted
            stat(0x0100_0abd, 0x0060, vec![]),
            // no tree LOD flag
            stat(0x0100_0abe, 0x8000, vec![]),
        ],
    );
    p1.file_path = Some("/data/Trees.esp".to_string());
    let p2 = plugin_with(Signature::from_bytes(b"ACTI"), vec![stat(0x22, 0x0040, vec![obnd([0; 6])])]);
    let p3 = plugin_with(Signature::WEAP(), vec![stat(0x33, 0x0040, vec![])]);
    let bases = scan_tree_bases(&[p1, p2, p3]);
    assert_eq!(bases.len(), 2);

    let pine = &bases[&0x0100_0abc];
    assert_eq!(pine.editor_id, "Pine");
    assert_eq!(pine.model_path, "Trees\\Pine01.nif");
    assert_eq!(pine.plugin_filename, "Trees.esp");
    assert_eq!(pine.bounds, Some([-100, -90, 0, 120, 95, 700]));
    assert_eq!(pine.width, 220);
    assert_eq!(pine.height, 700);

    let acti = &bases[&0x22];
    assert_eq!(acti.plugin_filename, "");
    assert_eq!(acti.model_path, "");
    assert_eq!(acti.bounds, Some([0; 6]));
    assert_eq!(acti.width, 0);
}

#[test]
fn tree_base_with_short_obnd_has_no_bounds() {
    let p = plugin_with(
        Signature::STAT(),
        vec![stat(0x44, 0x0040, vec![Subrecord::new(Signature::from_bytes(b"OBND"), vec![1, 0, 2, 0])])],
    );
    let bases = scan_tree_bases(&[p]);
    let info = &bases[&0x44];
    assert_eq!(info.bounds, None);
    assert_eq!((info.width, info.height), (0, 0));
}

fn refr(form_id: u32, flags: u32, base: u32, pos: [f32; 3], rot: [f32; 3], extra: Vec<Subrecord>) -> Record {
    let mut data = Vec::new();
    for v in pos.iter().chain(rot.iter()) {
        data.extend_from_slice(&v.to_le_bytes());
    }
    let mut subs = vec![
        Subrecord::new(Signature::from_bytes(b"NAME"), base.to_le_bytes().to_vec()),
        Subrecord::new(Signature::DATA(), data),
    ];
    subs.extend(extra);
    let mut r = stat(form_id, flags, subs);
    r.signature = Signature::from_bytes(b"REFR");
    r
}

fn grp(t: GroupType, children: Vec<GroupChild>) -> Group {
    Group { group_type: t, stamp: 0, unknown: 0, children, raw_header: None, source_offset: None }
}

fn wrld(form_id: u32, edid: &[u8]) -> Record {
    let mut r = stat(form_id, 0, vec![Subrecord::new(Signature::EDID(), edid.to_vec())]);
    r.signature = Signature::from_bytes(b"WRLD");
    r
}

#[test]
fn worldspace_refs_are_read_from_the_named_worldspace() {
    let tree = refr(
        0x100,
        0x0800,
        0xABC,
        [4096.0, -10.0, 5.0],
        [0.1, 0.0, 3.0],
        vec![
            Subrecord::new(Signature::from_bytes(b"XSCL"), 2.5f32.to_le_bytes().to_vec()),
            Subrecord::new(Signature::from_bytes(b"XESP"), vec![0; 8]),
        ],
    );
    let rock = refr(0x101, 0x0420, 0xDEF, [1.0, 2.0, 3.0], [0.0; 3], vec![]);
    // too short a DATA subrecord: skipped
    let mut broken = refr(0x102, 0, 0x1, [0.0; 3], [0.0; 3], vec![]);
    broken.subrecords[1].raw_data.truncate(20);
    let elsewhere = refr(0x200, 0, 0x2, [0.0; 3], [0.0; 3], vec![]);

    let cell_children = grp(GroupType::CellTemporaryChildren(0x50), vec![GroupChild::Record(rock)]);
    let world_children = grp(
        GroupType::WorldChildren(0x3C),
        vec![GroupChild::Record(tree), GroupChild::Group(cell_children), GroupChild::Record(broken)],
    );
    let other_children = grp(GroupType::WorldChildren(0x99), vec![GroupChild::Record(elsewhere)]);
    let top = grp(
        GroupType::Top(Signature::from_bytes(b"WRLD")),
        vec![
            GroupChild::Record(wrld(0x99, b"Other\0")),
            GroupChild::Group(other_children),
            GroupChild::Record(wrld(0x3C, b"MyWorld\0")),
            GroupChild::Group(world_children),
        ],
    );
    let mut p = plugin_with(Signature::STAT(), vec![]);
    p.groups = vec![top];

    let refs = scan_worldspace_refs(&[p], "myworld");
    assert_eq!(refs.len(), 2);
    let t = &refs[0];
    assert_eq!(t.ref_form_id, 0x100);
    assert_eq!(t.base_form_id, 0xABC);
    assert_eq!(t.position, [4096.0f32.to_bits(), (-10.0f32).to_bits(), 5.0f32.to_bits()]);
    assert_eq!(t.rotation, [0.1f32.to_bits(), 0.0f32.to_bits(), 3.0f32.to_bits()]);
    assert_eq!(t.scale, 2.5f32.to_bits());
    assert!(t.is_disabled && t.has_enable_parent && !t.is_deleted && !t.is_persistent);
    let r = &refs[1];
    assert_eq!(r.base_form_id, 0xDEF);
    assert_eq!(r.scale, 1.0f32.to_bits());
    assert!(r.is_deleted && r.is_persistent && !r.is_disabled && !r.has_enable_parent);

    assert!(scan_worldspace_refs(&[], "myworld").is_empty());
}
