use xedit::lod_options::{parse_i32, parse_u32, LodOptions};

fn chars(s: &str) -> Vec<char> {
    s.chars().collect()
}

#[test]
fn lod_options_defaults_for_empty_settings() {
    let o = LodOptions::from_settings_file("");
    assert!(!o.objects_lod);
    assert!(!o.build_atlas);
    assert_eq!(o.atlas_width, 4096);
    assert_eq!(o.atlas_height, 4096);
    assert_eq!(o.atlas_texture_size, 1024);
    assert_eq!(o.atlas_texture_uv_range, 10000);
    assert_eq!(o.atlas_diffuse_format, 202);
    assert_eq!(o.atlas_normal_format, 200);
    assert_eq!(o.atlas_specular_format, 205);
    assert_eq!(o.default_alpha_threshold, 128);
    assert_eq!(o.tree_atlas_diffuse_format, 202);
    assert_eq!(o.tree_atlas_normal_format, 202);
    assert_eq!(o.trees_brightness, 0);
    assert_eq!(o.terrain_quality, [10, 15, 20, 25]);
    assert_eq!(o.terrain_max_verts, [32767; 4]);
    assert_eq!(o.terrain_diffuse_size, [512; 4]);
    assert_eq!(o.terrain_diffuse_comp, [200; 4]);
    assert_eq!(o.terrain_normal_size, [512; 4]);
    assert_eq!(o.terrain_normal_comp, [200; 4]);
    assert_eq!(o.terrain_optimize_unseen, [false; 4]);
    assert_eq!(o.terrain_default_diffuse_size, 128);
    assert_eq!(o.terrain_default_normal_size, 128);
    assert!(o.terrain_gamma.iter().all(|g| g.is_empty()));
    assert!(o.terrain_vertex_color_multiplier.is_empty());
    assert!(o.worldspaces.is_empty());
}

#[test]
fn lod_options_read_settings() {
    let content = "[General]\nObjectsLOD=1\nBuildAtlas=0\n  AtlasWidth = 8192\nAtlasHeight=oops\n\
TreesBrightness=-12\nTerrainQualityLOD8=7\nTerrainDiffuseMipMapLOD32=1\n\
TerrainGammaLOD16= 1.25 \nTerrainVertexColorMultiplier=0.5\r\nTerrainContrastLOD4=+3\n\
AtlasTextureUVRange=12000\nAtlasTextureUVRange=5\n";
    let o = LodOptions::from_settings_file(content);
    assert!(o.objects_lod);
    assert!(!o.build_atlas);
    // the line is trimmed, but the key must be followed directly by `=`
    assert_eq!(o.atlas_width, 4096);
    assert_eq!(o.atlas_height, 4096);
    assert_eq!(o.trees_brightness, -12);
    assert_eq!(o.terrain_quality, [10, 7, 20, 25]);
    assert_eq!(o.terrain_diffuse_mipmap, [false, false, false, true]);
    assert_eq!(o.terrain_gamma[2], "1.25");
    assert_eq!(o.terrain_gamma[0], "");
    assert_eq!(o.terrain_vertex_color_multiplier, "0.5");
    assert_eq!(o.terrain_contrast, [3, 0, 0, 0]);
    // the first line that sets a key wins
    assert_eq!(o.atlas_texture_uv_range, 12000);
}

#[test]
fn lod_options_value_after_key_trimmed() {
    let o = LodOptions::from_settings_file("AtlasWidth=  2048  \n");
    assert_eq!(o.atlas_width, 2048);
}

#[test]
fn parse_u32_accepts_what_str_parse_accepts() {
    for s in ["0", "42", "+7", "4294967295", "", "+", "-1", "4294967296", " 1", "1a", "007"] {
        assert_eq!(parse_u32(&chars(s)), s.parse::<u32>().ok(), "{s:?}");
    }
}

#[test]
fn parse_i32_accepts_what_str_parse_accepts() {
    for s in ["0", "-0", "-2147483648", "2147483647", "2147483648", "-2147483649", "+5", "-", "--1", "12x"] {
        assert_eq!(parse_i32(&chars(s)), s.parse::<i32>().ok(), "{s:?}");
    }
}
