use xedit::dialect::GameId;
use xedit::formid::FormId;
use xedit::group::{Group, GroupChild, GroupType};
use xedit::plugin::Plugin;
use xedit::record::{Record, RecordFlags};
use xedit::signature::Signature;
use xedit::subrecord::Subrecord;
use xedit::terrain::{
    cell_range, parse_land_record, scan_terrain_cells, terrain_data_bytes, TerrainCell, TerrainCells,
    NO_WATER_HEIGHT,
};

fn sig(b: &[u8; 4]) -> Signature {
    Signature::from_bytes(b)
}

fn rec(s: &[u8; 4], form_id: u32, subs: Vec<Subrecord>) -> Record {
    Record {
        signature: sig(s),
        flags: RecordFlags::NONE(),
        form_id: FormId::new(form_id),
        vc_info: 0,
        version: 0,
        unknown: 0,
        subrecords: subs,
        raw_header: None,
        raw_compressed_data: None,
        raw_data: None,
        source_offset: None,
        modified: false,
    }
}

fn sub(s: &[u8; 4], data: Vec<u8>) -> Subrecord {
    Subrecord::new(sig(s), data)
}

fn group(t: GroupType, children: Vec<GroupChild>) -> Group {
    Group { group_type: t, stamp: 0, unknown: 0, children, raw_header: None, source_offset: None }
}

fn vhgt(offset: f32, delta: u8) -> Vec<u8> {
    let mut d = offset.to_le_bytes().to_vec();
    d.extend(std::iter::repeat(delta).take(1089));
    d.extend_from_slice(&[1, 2, 3]);
    d
}

fn btxt(fid: u32, quadrant: u8) -> Vec<u8> {
    let mut d = fid.to_le_bytes().to_vec();
    d.extend_from_slice(&[quadrant, 0, 0, 0]);
    d
}

fn cell(x: i32, y: i32, water: Option<f32>) -> Record {
    let mut xclc = x.to_le_bytes().to_vec();
    xclc.extend_from_slice(&y.to_le_bytes());
    let mut subs = vec![sub(b"XCLC", xclc)];
    if let Some(w) = water {
        subs.push(sub(b"XCLW", w.to_le_bytes().to_vec()));
    }
    rec(b"CELL", 0x0000_2000, subs)
}

fn world_plugin(name: &str, masters: Vec<&str>, land: Record, water: Option<f32>) -> Plugin {
    let wrld = rec(b"WRLD", 0x0000_1000, vec![sub(b"EDID", b"WastelandNV\0".to_vec())]);
    let cell_children = group(GroupType::CellTemporaryChildren(0x2000), vec![GroupChild::Record(land)]);
    let block = group(
        GroupType::ExteriorCellBlock { x: 0, y: 0 },
        vec![GroupChild::Record(cell(3, -2, water)), GroupChild::Group(cell_children)],
    );
    let children = group(GroupType::WorldChildren(0x0000_1000), vec![GroupChild::Group(block)]);
    let top = group(GroupType::Top(sig(b"WRLD")), vec![GroupChild::Record(wrld), GroupChild::Group(children)]);
    Plugin {
        game_id: GameId::FalloutNV,
        file_path: Some(format!("/data/{}", name)),
        header: rec(b"TES4", 0, vec![]),
        groups: vec![top],
        tes3_records: vec![],
        masters: masters.into_iter().map(String::from).collect(),
        description: None,
        author: None,
        modified: false,
    }
}

#[test]
fn parse_land_reads_heightmap_and_textures() {
    let mut atxt = 0x0100_0042u32.to_le_bytes().to_vec();
    atxt.extend_from_slice(&[2, 0, 5, 0]);
    let mut vtxt = 7u16.to_le_bytes().to_vec();
    vtxt.extend_from_slice(&[0, 0]);
    vtxt.extend_from_slice(&0.5f32.to_le_bytes());
    let land = rec(
        b"LAND",
        0x3000,
        vec![
            sub(b"VHGT", vhgt(2.0, 0xFF)),
            sub(b"VCLR", vec![9; 3267 + 5]),
            sub(b"VNML", vec![1; 10]),
            sub(b"BTXT", btxt(0x0000_0010, 1)),
            sub(b"BTXT", btxt(0x0000_0011, 1)),
            sub(b"BTXT", btxt(0x0000_0012, 7)),
            sub(b"ATXT", atxt),
            sub(b"VTXT", vtxt),
        ],
    );
    let masters = vec!["Master.esm".to_string()];
    let names = vec!["master.ESM".to_string(), "Mod.esp".to_string()];
    let c = parse_land_record(&land, 3, -2, 0.5f32.to_bits(), &masters, &names, 1).expect("cell");
    assert_eq!((c.cell_x, c.cell_y), (3, -2));
    assert_eq!(f32::from_bits(c.height_offset), 2.0);
    assert_eq!(c.height_deltas.len(), 1089);
    assert!(c.height_deltas.iter().all(|d| *d == -1));
    assert_eq!(c.vhgt_footer, [1, 2, 3]);
    assert_eq!(c.vertex_colors.as_ref().map(|v| v.len()), Some(3267));
    assert_eq!(c.vertex_normals, None);
    // Master byte 0 names Master.esm, the first plugin (case ignored); the
    // later BTXT for quadrant 1 wins and quadrant 7 is ignored.
    assert_eq!(c.base_textures, [None, Some(0x0000_0011), None, None]);
    // Master byte 1 is past the master list: the plugin itself (index 1).
    assert_eq!(c.additional_textures, vec![(0x0100_0042, 2, 5)]);
    assert_eq!(c.alpha_layers.len(), 1);
    assert_eq!(c.alpha_layers[0].0, 2);
    assert_eq!(c.alpha_layers[0].2, vec![(7, 0.5f32.to_bits())]);

    let short = rec(b"LAND", 0x3001, vec![sub(b"VHGT", vec![0; 100])]);
    assert!(parse_land_record(&short, 0, 0, 0, &masters, &names, 1).is_none());
    let none = rec(b"LAND", 0x3002, vec![]);
    assert!(parse_land_record(&none, 0, 0, 0, &masters, &names, 1).is_none());
}

#[test]
fn scan_terrain_merges_overrides() {
    let base_land = rec(
        b"LAND",
        0x3000,
        vec![sub(b"VHGT", vhgt(1.0, 1)), sub(b"VCLR", vec![5; 3267]), sub(b"BTXT", btxt(0x0000_0100, 0))],
    );
    let override_land = rec(b"LAND", 0x3000, vec![sub(b"VHGT", vhgt(8.0, 2))]);
    let p0 = world_plugin("FalloutNV.esm", vec![], base_land, Some(-100.0));
    let p1 = world_plugin("Patch.esp", vec!["FalloutNV.esm"], override_land, None);

    let cells = scan_terrain_cells(&[p0], "wastelandnv");
    assert_eq!(cells.len(), 1);
    let c = cells.get((3, -2)).expect("cell");
    assert_eq!(f32::from_bits(c.water_height), -100.0);
    assert_eq!(c.base_textures[0], Some(0x0000_0100));

    let p0 = world_plugin(
        "FalloutNV.esm",
        vec![],
        rec(
            b"LAND",
            0x3000,
            vec![sub(b"VHGT", vhgt(1.0, 1)), sub(b"VCLR", vec![5; 3267]), sub(b"BTXT", btxt(0x0000_0100, 0))],
        ),
        Some(-100.0),
    );
    let cells = scan_terrain_cells(&[p0, p1], "WastelandNV");
    assert_eq!(cells.len(), 1);
    let c = cells.get((3, -2)).expect("cell");
    // The override's heightmap wins; colors and base textures are kept.
    assert_eq!(f32::from_bits(c.height_offset), 8.0);
    assert_eq!(c.height_deltas[0], 2);
    assert_eq!(c.water_height, NO_WATER_HEIGHT);
    assert_eq!(c.vertex_colors.as_ref().map(|v| v[0]), Some(5));
    assert_eq!(c.base_textures[0], Some(0x0000_0100));

    assert_eq!(scan_terrain_cells(&[], "WastelandNV").len(), 0);
    let other = world_plugin("Other.esm", vec![], rec(b"LAND", 1, vec![sub(b"VHGT", vhgt(0.0, 0))]), None);
    assert_eq!(scan_terrain_cells(&[other], "Capital").len(), 0);
}

fn blank_cell(cell_x: i32, cell_y: i32) -> TerrainCell {
    TerrainCell {
        cell_x,
        cell_y,
        water_height: 0.0f32.to_bits(),
        land_flags: 0,
        height_offset: 0.0f32.to_bits(),
        height_deltas: vec![],
        vhgt_footer: [0; 3],
        vertex_normals: None,
        vertex_colors: None,
        base_textures: [None; 4],
        fallback_btxt: [None; 4],
        additional_textures: vec![],
        alpha_layers: vec![],
    }
}

#[test]
fn test_cell_range() {
    let mut cells = TerrainCells::new();
    cells.insert((-10, -20), blank_cell(-10, -20));
    cells.insert((30, 40), blank_cell(30, 40));

    let (min_x, max_x, min_y, max_y) = cell_range(&cells);
    assert_eq!(min_x, -10);
    assert_eq!(max_x, 30);
    assert_eq!(min_y, -20);
    assert_eq!(max_y, 40);
}

#[test]
fn cell_range_of_no_cells_is_inverted() {
    let cells = TerrainCells::new();
    assert_eq!(cell_range(&cells), (i32::MAX, i32::MIN, i32::MAX, i32::MIN));
}

#[test]
fn terrain_data_entry_layout() {
    let mut cell = blank_cell(-3, 7);
    cell.water_height = 1.5f32.to_bits();
    cell.land_flags = 1;
    cell.height_offset = (-2.0f32).to_bits();
    cell.height_deltas = vec![1, -1, 5];
    cell.vhgt_footer = [9, 8, 7];
    let mut cells = TerrainCells::new();
    cells.insert((-3, 7), cell);

    let data = terrain_data_bytes(&cells);
    assert_eq!(data.len(), 1112);
    assert_eq!(&data[0..4], &(-3i32).to_le_bytes());
    assert_eq!(&data[4..8], &7i32.to_le_bytes());
    assert_eq!(&data[8..12], &1.5f32.to_le_bytes());
    assert_eq!(&data[12..16], &1i32.to_le_bytes());
    assert_eq!(&data[16..20], &(-2.0f32).to_le_bytes());
    assert_eq!(&data[20..23], &[1u8, 0xff, 5]);
    assert!(data[23..1109].iter().all(|&b| b == 0));
    assert_eq!(&data[1109..1112], &[9u8, 8, 7]);
}

#[test]
fn terrain_data_holds_every_cell_once() {
    let mut cells = TerrainCells::new();
    cells.insert((0, 0), blank_cell(0, 0));
    cells.insert((1, 2), blank_cell(1, 2));
    cells.insert((0, 0), blank_cell(0, 0));
    let data = terrain_data_bytes(&cells);
    assert_eq!(data.len(), 2 * 1112);
    let mut coords: Vec<(i32, i32)> = data
        .chunks(1112)
        .map(|c| {
            (
                i32::from_le_bytes([c[0], c[1], c[2], c[3]]),
                i32::from_le_bytes([c[4], c[5], c[6], c[7]]),
            )
        })
        .collect();
    coords.sort();
    assert_eq!(coords, vec![(0, 0), (1, 2)]);
}
