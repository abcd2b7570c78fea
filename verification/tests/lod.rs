use xedit::bin_packer::{fit_with_growth, BinBlock, BinPacker};
use xedit::lod::{
    align_to_step, atlas_map_text, billboard_path, derive_texture_path, btt_bytes, btt_path, composite_rect, compute_grid_flags, create_canvas,
    dtl_path, lst_path_fnv, lst_path_sse, to_wine_path, tree_atlas_diffuse_path_fnv,
    tree_atlas_normal_path_fnv, AtlasMapEntry, BttEntry, DdsFormat, LodSettings, LodSettingsError,
};

fn block(index: usize, w: u32, h: u32) -> BinBlock {
    BinBlock { index, w, h, x: 0, y: 0, placed: false }
}

fn overlaps(a: &BinBlock, b: &BinBlock) -> bool {
    a.x < b.x + b.w && b.x < a.x + a.w && a.y < b.y + b.h && b.y < a.y + a.h
}

#[test]
fn test_single_block() {
    let mut blocks = vec![BinBlock { index: 0, w: 256, h: 256, x: 0, y: 0, placed: false }];
    let packer = BinPacker::new(1024, 1024);
    assert!(packer.fit(&mut blocks));
    assert_eq!(blocks[0].x, 0);
    assert_eq!(blocks[0].y, 0);
    assert!(blocks[0].placed);
}

#[test]
fn test_multiple_blocks() {
    let mut blocks = vec![block(0, 512, 512), block(1, 512, 512), block(2, 512, 512), block(3, 512, 512)];
    let packer = BinPacker::new(1024, 1024);
    assert!(packer.fit(&mut blocks));
    for b in &blocks {
        assert!(b.placed);
    }
}

#[test]
fn test_doesnt_fit() {
    let mut blocks = vec![block(0, 1024, 1024), block(1, 1024, 1024)];
    let packer = BinPacker::new(1024, 1024);
    assert!(!packer.fit(&mut blocks));
}

#[test]
fn test_fit_with_growth() {
    let mut blocks = vec![
        block(0, 512, 512),
        block(1, 512, 512),
        block(2, 512, 512),
        block(3, 512, 512),
        block(4, 512, 512),
    ];
    let result = fit_with_growth(&mut blocks, 512, 512, 4096, 4096, 0, 0);
    assert!(result.is_some());
    for b in &blocks {
        assert!(b.placed);
    }
}

#[test]
fn packed_blocks_do_not_overlap_and_stay_inside() {
    let mut blocks = vec![block(0, 300, 200), block(1, 100, 500), block(2, 250, 250), block(3, 64, 64)];
    let packer = BinPacker::new(1024, 1024).with_padding(2, 2);
    assert!(packer.fit(&mut blocks));
    for (i, a) in blocks.iter().enumerate() {
        assert!(a.x + a.w <= 1024 && a.y + a.h <= 1024);
        for b in blocks.iter().skip(i + 1) {
            assert!(!overlaps(a, b));
        }
    }
    // The blocks are sorted by height, tallest first.
    assert_eq!(blocks[0].index, 1);
}

#[test]
fn fit_with_growth_gives_up_at_the_limit() {
    let mut blocks = vec![block(0, 2048, 2048)];
    assert_eq!(fit_with_growth(&mut blocks, 256, 256, 1024, 1024, 0, 0), None);
    let mut blocks = vec![block(0, 600, 100)];
    assert_eq!(fit_with_growth(&mut blocks, 256, 256, 4096, 4096, 0, 0), Some((1024, 512)));
}

#[test]
fn test_block_for_cell() {
    assert_eq!(LodSettings::block_for_cell(5, 7, 4), (4, 4));
    assert_eq!(LodSettings::block_for_cell(0, 0, 4), (0, 0));
    assert_eq!(LodSettings::block_for_cell(-1, -1, 4), (-4, -4));
    assert_eq!(LodSettings::block_for_cell(-5, -5, 4), (-8, -8));
    assert_eq!(LodSettings::block_for_cell(15, 15, 8), (8, 8));
    assert_eq!(LodSettings::block_for_cell(16, 16, 8), (16, 16));
}

#[test]
fn test_parse_fo3() {
    let mut data = Vec::new();
    data.extend_from_slice(&4i32.to_le_bytes());
    data.extend_from_slice(&32i32.to_le_bytes());
    data.extend_from_slice(&128i32.to_le_bytes());
    data.extend_from_slice(&(-64i16).to_le_bytes());
    data.extend_from_slice(&(-64i16).to_le_bytes());
    data.extend_from_slice(&64i16.to_le_bytes());
    data.extend_from_slice(&64i16.to_le_bytes());
    data.extend_from_slice(&0i32.to_le_bytes());

    let settings = LodSettings::parse_fo3(&data).unwrap();
    assert_eq!(settings.lod_level_min, 4);
    assert_eq!(settings.lod_level_max, 32);
    assert_eq!(settings.stride, 128);
    assert_eq!(settings.sw_cell, (-64, -64));
    assert_eq!(settings.ne_cell, (64, 64));
}

#[test]
fn test_lod_levels() {
    let settings = LodSettings {
        sw_cell: (0, 0),
        ne_cell: (0, 0),
        stride: 0,
        lod_level_min: 4,
        lod_level_max: 32,
        object_level: 0,
    };
    assert_eq!(settings.lod_levels(), vec![4, 8, 16, 32]);
}

#[test]
fn lod_settings_errors_and_sse() {
    assert_eq!(LodSettings::parse_fo3(&[0u8; 10]).unwrap_err(), LodSettingsError::Fo3TooShort(10));
    assert_eq!(LodSettings::parse_sse(&[0u8; 3]).unwrap_err(), LodSettingsError::SseTooShort(3));
    assert_eq!(LodSettings::parse(&[0u8; 5], "bin").unwrap_err(), LodSettingsError::UnknownFormat(5));

    let mut data = Vec::new();
    data.extend_from_slice(&(-10i16).to_le_bytes());
    data.extend_from_slice(&(-20i16).to_le_bytes());
    data.extend_from_slice(&64i32.to_le_bytes());
    data.extend_from_slice(&4i32.to_le_bytes());
    data.extend_from_slice(&32i32.to_le_bytes());
    let s = LodSettings::parse(&data, "LOD").unwrap();
    assert_eq!(s.sw_cell, (-10, -20));
    assert_eq!(s.stride, 64);
    assert_eq!(s.get_size(), 64);
    assert_eq!(s.lod_level_min, 4);
    assert_eq!(s.lod_level_max, 32);

    let d = LodSettings::default_levels();
    assert_eq!(d.lod_levels(), vec![4, 8, 16, 32]);
}

#[test]
fn test_align_to_step() {
    assert_eq!(align_to_step(0, 4), 0);
    assert_eq!(align_to_step(3, 4), 0);
    assert_eq!(align_to_step(4, 4), 4);
    assert_eq!(align_to_step(-1, 4), -4);
    assert_eq!(align_to_step(-4, 4), -4);
    assert_eq!(align_to_step(-5, 4), -8);
    assert_eq!(align_to_step(0, 8), 0);
    assert_eq!(align_to_step(7, 8), 0);
    assert_eq!(align_to_step(-64, 32), -64);
}

#[test]
fn test_to_wine_path() {
    assert_eq!(to_wine_path("/home/luke/Games/data"), "Z:\\home\\luke\\Games\\data");
    assert_eq!(to_wine_path("relative/dir"), "relative\\dir");
}

#[test]
fn dds_format_codes() {
    assert_eq!(DdsFormat::from_code(200), Some(DdsFormat::Dxt1));
    assert_eq!(DdsFormat::from_code(202), Some(DdsFormat::Dxt5));
    assert_eq!(DdsFormat::from_code(205), Some(DdsFormat::Bc5));
    assert_eq!(DdsFormat::from_code(201), None);
    assert_eq!(DdsFormat::Bc5.code(), 205);
}

#[test]
fn grid_flags_encode_block_and_levels() {
    let f = compute_grid_flags(9, 5, true, false, 1, 1);
    assert_eq!(f, 0x0200 | (2 << 24) | (1 << 16));
    let g = compute_grid_flags(1, 1, false, true, 1, 1);
    assert_eq!(g, 0x8000);
}

#[test]
fn canvas_and_composite() {
    let mut canvas = create_canvas(4, 2);
    assert_eq!(canvas.len(), 32);
    assert!(canvas.iter().all(|b| *b == 0));
    let src = vec![9u8; 8];
    composite_rect(&mut canvas, 4, &src, 2, 1, 1, 1);
    // Row 1, columns 1..3 (bytes 20..28) are written.
    assert!(canvas[..20].iter().all(|b| *b == 0));
    assert!(canvas[20..28].iter().all(|b| *b == 9));
    assert!(canvas[28..].iter().all(|b| *b == 0));
    // A rectangle that runs past the canvas is skipped.
    composite_rect(&mut canvas, 4, &src, 2, 1, 3, 1);
    assert!(canvas[28..].iter().all(|b| *b == 0));
}

#[test]
fn tree_lod_paths() {
    assert_eq!(dtl_path("WastelandNV", 8, 0, -4), "meshes/landscape/lod/WastelandNV/Trees/WastelandNV.level8.x0.y-4.dtl");
    assert_eq!(btt_path("Tamriel", 4, -8, 12), "meshes/terrain/Tamriel/Trees/Tamriel.4.-8.12.btt");
    assert_eq!(lst_path_fnv("WastelandNV"), "meshes/landscape/lod/WastelandNV/Trees/TreeTypes.lst");
    assert_eq!(lst_path_sse("Tamriel"), "meshes/terrain/Tamriel/Trees/Tamriel.lst");
    assert_eq!(tree_atlas_diffuse_path_fnv("x"), "textures/landscape/Trees/TreeDeadLod.dds");
    assert_eq!(tree_atlas_normal_path_fnv("x"), "textures/landscape/Trees/TreeDeadLod_n.dds");
}

#[test]
fn test_billboard_path() {
    let path = billboard_path("FalloutNV.esm", "Architecture\\Goodsprings\\GSDeadTree01.nif", 0x000E3FAB);
    assert_eq!(path, "textures/terrain/lodgen/falloutnv.esm/gsdeadtree01_000e3fab.dds");
}

#[test]
fn test_billboard_path_with_subdir() {
    let path = billboard_path("SomePlugin.esp", "Trees\\TreeBranchless01.nif", 0x0100ABCD);
    assert_eq!(path, "textures/terrain/lodgen/someplugin.esp/treebranchless01_0000abcd.dds");
}

#[test]
fn atlas_map_lines_are_tab_separated() {
    let entries = vec![
        AtlasMapEntry {
            source_texture: "textures/a.dds".to_string(),
            src_width: 256,
            src_height: 128,
            atlas_x: 0,
            atlas_y: 1024,
            atlas_texture: "atlas0.dds".to_string(),
            atlas_width: 4096,
            atlas_height: 2048,
        },
        AtlasMapEntry {
            source_texture: "b".to_string(),
            src_width: 1,
            src_height: 2,
            atlas_x: 3,
            atlas_y: 4,
            atlas_texture: "c".to_string(),
            atlas_width: 5,
            atlas_height: 6,
        },
    ];
    assert_eq!(
        atlas_map_text(&entries),
        "textures/a.dds\t256\t128\t0\t1024\tatlas0.dds\t4096\t2048\nb\t1\t2\t3\t4\tc\t5\t6\n"
    );
    assert_eq!(atlas_map_text(&[]), "");
}

#[test]
fn btt_file_layout() {
    let e = BttEntry {
        x: 1.5f32.to_bits(),
        y: (-2.0f32).to_bits(),
        z: 0.25f32.to_bits(),
        rotation: 3.0f32.to_bits(),
        scale: 1.0f32.to_bits(),
        tree_type_index: 7,
    };
    let data = btt_bytes(&[e, e]);
    assert_eq!(data.len(), 4 + 2 * 24);
    assert_eq!(&data[0..4], &2u32.to_le_bytes());
    assert_eq!(&data[4..8], &1.5f32.to_le_bytes());
    assert_eq!(&data[8..12], &(-2.0f32).to_le_bytes());
    assert_eq!(&data[12..16], &0.25f32.to_le_bytes());
    assert_eq!(&data[16..20], &3.0f32.to_le_bytes());
    assert_eq!(&data[20..24], &1.0f32.to_le_bytes());
    assert_eq!(&data[24..28], &7u32.to_le_bytes());
    assert_eq!(&data[4..28], &data[28..52]);
    assert_eq!(btt_bytes(&[]), 0u32.to_le_bytes().to_vec());
}

#[test]
fn lod_texture_path_of_a_mesh() {
    assert_eq!(derive_texture_path("meshes/foo/bar_lod.nif"), "textures/foo/bar_lod.dds");
    assert_eq!(derive_texture_path("meshes\\foo\\bar.nif"), "textures\\foo\\bar.dds");
    assert_eq!(derive_texture_path("a/meshes/meshes/x.y.nif"), "a/textures/textures/x.y.dds");
    assert_eq!(derive_texture_path("meshes/noext"), "textures/noext.dds");
    assert_eq!(derive_texture_path(""), ".dds");
}

#[test]
fn parse_checked_refuses_only_an_overflowing_skyrim_ne_cell() {
    let mut data = vec![0u8; 24];
    data[0..2].copy_from_slice(&1i16.to_le_bytes());
    data[4..8].copy_from_slice(&i32::MAX.to_le_bytes());
    // read as FO3/FNV, the same bytes are fine
    let fo3 = LodSettings::parse_checked(&data, "DLODSettings").unwrap().unwrap();
    assert_eq!(fo3.stride, 0);
    assert_eq!(fo3.lod_level_max, i32::MAX);
    assert!(LodSettings::parse_checked(&data, "bin").unwrap().is_ok());
    // read as Skyrim settings, SW x + stride overflows
    assert!(LodSettings::parse_checked(&data, "lod").is_none());
    assert!(LodSettings::parse_checked(&data[..16], "bin").is_none());
    let ok = LodSettings::parse_checked(&[0u8; 16], "lod").unwrap().unwrap();
    assert_eq!(ok.ne_cell, (0, 0));
    assert!(matches!(
        LodSettings::parse_checked(&[0u8; 3], "x"),
        Some(Err(LodSettingsError::UnknownFormat(3)))
    ));
}

#[test]
fn fit_with_growth_gives_up_on_a_block_larger_than_the_maximum() {
    let mut blocks = vec![block(0, 8, 8)];
    assert_eq!(fit_with_growth(&mut blocks, 4, 4, 4, 4, 0, 0), None);
    assert!(!blocks[0].placed);
    assert_eq!((blocks[0].w, blocks[0].h, blocks[0].index), (8, 8, 0));
}
