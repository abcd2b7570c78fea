//! LOD generation options, read from an xLODGen settings file: lines of
//! `Key=Value`, where a missing or malformed value takes the key's default.

use vstd::prelude::*;

use crate::lines::{
    chars_start_with, split_lines, split_lines_chars, starts_with, sub_chars, trim_chars, trim_seq,
};
use crate::text::{chars_of, string_from_chars};

verus! {

// ---------------------------------------------------------------------------
// Decimal integers, as `str::parse` reads them
// ---------------------------------------------------------------------------
/// Whether `c` is an ASCII decimal digit.
pub open spec fn is_digit(c: char) -> bool {
    '0' <= c && c <= '9'
}

/// Whether every character of `s` is a decimal digit.
pub open spec fn all_digits(s: Seq<char>) -> bool {
    forall|i: int| 0 <= i < s.len() ==> is_digit(#[trigger] s[i])
}

/// The number the decimal digits `s` spell (most significant first).
pub open spec fn digits_value(s: Seq<char>) -> nat
    decreases s.len(),
{
    if s.len() == 0 {
        0
    } else {
        digits_value(s.drop_last()) * 10 + ((s.last() as int - '0' as int) as nat)
    }
}

/// Whether `s` is one or more decimal digits whose value is at most `limit`.
pub open spec fn digits_within(s: Seq<char>, limit: int) -> bool {
    s.len() > 0 && all_digits(s) && digits_value(s) <= limit
}

/// The text after an optional leading `+`.
pub open spec fn unsigned_body(s: Seq<char>) -> Seq<char> {
    if s.len() > 0 && s[0] == '+' {
        s.drop_first()
    } else {
        s
    }
}

/// `str::parse::<u32>`: an optional `+`, then decimal digits whose value
/// fits in a `u32`; anything else (empty text, white space, a `-`) fails.
pub open spec fn spec_parse_u32(s: Seq<char>) -> Option<u32> {
    let b = unsigned_body(s);
    if digits_within(b, u32::MAX as int) {
        Some(digits_value(b) as u32)
    } else {
        None
    }
}

/// `str::parse::<i32>`: an optional `+` or `-`, then decimal digits whose
/// signed value fits in an `i32`.
pub open spec fn spec_parse_i32(s: Seq<char>) -> Option<i32> {
    if s.len() > 0 && s[0] == '-' {
        let b = s.drop_first();
        if digits_within(b, 0x8000_0000) {
            Some((0 - digits_value(b)) as i32)
        } else {
            None
        }
    } else {
        let b = unsigned_body(s);
        if digits_within(b, i32::MAX as int) {
            Some(digits_value(b) as i32)
        } else {
            None
        }
    }
}

/// The value of the digits `s[start..]`, if they are one or more digits
/// whose value is at most `limit`.
fn parse_digits(s: &[char], start: usize, limit: u64) -> (r: Option<u64>)
    requires
        start <= s@.len(),
        limit <= 0x1_0000_0000,
    ensures
        match r {
            Some(v) => digits_within(s@.skip(start as int), limit as int) && v == digits_value(
                s@.skip(start as int),
            ),
            None => !digits_within(s@.skip(start as int), limit as int),
        },
{
    let ghost whole = s@.skip(start as int);
    if start == s.len() {
        return None;
    }
    let mut acc: u64 = 0;
    let mut over = false;
    let mut i: usize = start;
    assert(s@.subrange(start as int, start as int) =~= Seq::<char>::empty());
    while i < s.len()
        invariant
            start <= i <= s@.len(),
            limit <= 0x1_0000_0000,
            whole == s@.skip(start as int),
            all_digits(s@.subrange(start as int, i as int)),
            over <==> digits_value(s@.subrange(start as int, i as int)) > limit,
            !over ==> acc == digits_value(s@.subrange(start as int, i as int)),
        decreases s.len() - i,
    {
        let c = s[i];
        let ghost b = s@.subrange(start as int, i as int);
        let ghost b2 = s@.subrange(start as int, i + 1);
        assert(b2.drop_last() =~= b);
        assert(b2.last() == c);
        if !(c >= '0' && c <= '9') {
            assert(whole[i - start] == c);
            return None;
        }
        let d = (c as u32 - '0' as u32) as u64;
        assert(d as int == c as int - '0' as int);
        if !over {
            let n = acc * 10 + d;
            if n > limit {
                over = true;
            } else {
                acc = n;
            }
        }
        i = i + 1;
        assert(all_digits(b2)) by {
            assert forall|j: int| 0 <= j < b2.len() implies is_digit(#[trigger] b2[j]) by {
                if j < b.len() {
                    assert(b2[j] == b[j]);
                }
            }
        }
    }
    assert(s@.subrange(start as int, i as int) =~= whole);
    if over {
        None
    } else {
        Some(acc)
    }
}

/// `str::parse::<u32>` (see [`spec_parse_u32`]).
pub fn parse_u32(s: &[char]) -> (r: Option<u32>)
    ensures
        r == spec_parse_u32(s@),
{
    let start: usize = if s.len() > 0 && s[0] == '+' {
        1
    } else {
        0
    };
    assert(unsigned_body(s@) =~= s@.skip(start as int));
    match parse_digits(s, start, 0xffff_ffff) {
        Some(v) => Some(v as u32),
        None => None,
    }
}

/// `str::parse::<i32>` (see [`spec_parse_i32`]).
pub fn parse_i32(s: &[char]) -> (r: Option<i32>)
    ensures
        r == spec_parse_i32(s@),
{
    if s.len() > 0 && s[0] == '-' {
        assert(s@.drop_first() =~= s@.skip(1));
        match parse_digits(s, 1, 0x8000_0000) {
            Some(v) => {
                if v == 0x8000_0000 {
                    Some(i32::MIN)
                } else {
                    Some(-(v as i32))
                }
            },
            None => None,
        }
    } else {
        let start: usize = if s.len() > 0 && s[0] == '+' {
            1
        } else {
            0
        };
        assert(unsigned_body(s@) =~= s@.skip(start as int));
        match parse_digits(s, start, 0x7fff_ffff) {
            Some(v) => Some(v as i32),
            None => None,
        }
    }
}

// ---------------------------------------------------------------------------
// Settings lookup
// ---------------------------------------------------------------------------
/// The value a settings line gives `key`: the trimmed line is `key`, then
/// `=`, then the value, which is trimmed.
pub open spec fn setting_value(line: Seq<char>, key: Seq<char>) -> Option<Seq<char>> {
    let t = trim_seq(line);
    if starts_with(t, key) && t.len() > key.len() && t[key.len() as int] == '=' {
        Some(trim_seq(t.subrange(key.len() + 1int, t.len() as int)))
    } else {
        None
    }
}

/// The value the first line that sets `key` gives it; empty text when no
/// line does.
pub open spec fn lookup_setting(lines: Seq<Seq<char>>, key: Seq<char>) -> Seq<char>
    decreases lines.len(),
{
    if lines.len() == 0 {
        Seq::empty()
    } else {
        match setting_value(lines[0], key) {
            Some(v) => v,
            None => lookup_setting(lines.drop_first(), key),
        }
    }
}

/// The text of setting `key` in a settings file.
pub open spec fn setting(content: Seq<char>, key: Seq<char>) -> Seq<char> {
    lookup_setting(split_lines(content), key)
}

/// Setting `key` as a `u32`, or `default` when it is missing or not one.
pub open spec fn setting_u32(content: Seq<char>, key: Seq<char>, default: u32) -> u32 {
    match spec_parse_u32(setting(content, key)) {
        Some(v) => v,
        None => default,
    }
}

/// Setting `key` as an `i32`, or `default` when it is missing or not one.
pub open spec fn setting_i32(content: Seq<char>, key: Seq<char>, default: i32) -> i32 {
    match spec_parse_i32(setting(content, key)) {
        Some(v) => v,
        None => default,
    }
}

/// Setting `key` as a flag: a nonzero `u32` (missing or malformed is off).
pub open spec fn setting_bool(content: Seq<char>, key: Seq<char>) -> bool {
    setting_u32(content, key, 0) != 0
}

/// The texts of a list of lines.
pub open spec fn lines_view(v: Seq<Vec<char>>) -> Seq<Seq<char>> {
    v.map_values(|l: Vec<char>| l@)
}

/// The text of setting `key` among `lines` (see [`lookup_setting`]).
fn setting_text(lines: &Vec<Vec<char>>, key: &str) -> (r: Vec<char>)
    ensures
        r@ == lookup_setting(lines_view(lines@), key@),
{
    let ghost ls = lines_view(lines@);
    let k = chars_of(key);
    let mut i: usize = 0;
    assert(ls.skip(0) =~= ls);
    while i < lines.len()
        invariant
            i <= lines@.len(),
            ls == lines_view(lines@),
            k@ == key@,
            lookup_setting(ls, key@) == lookup_setting(ls.skip(i as int), key@),
        decreases lines.len() - i,
    {
        let t = trim_chars(lines[i].as_slice());
        assert(ls.skip(i as int)[0] == lines@[i as int]@);
        assert(ls.skip(i as int).drop_first() =~= ls.skip(i + 1));
        if t.len() > k.len() && chars_start_with(t.as_slice(), k.as_slice()) && t[k.len()] == '=' {
            let v = sub_chars(t.as_slice(), k.len() + 1, t.len());
            return trim_chars(v.as_slice());
        }
        i = i + 1;
    }
    assert(ls.skip(i as int) =~= Seq::<Seq<char>>::empty());
    Vec::new()
}

/// Setting `key` among `lines` as a `u32`, or `default`.
fn get_u32(lines: &Vec<Vec<char>>, key: &str, default: u32) -> (r: u32)
    ensures
        r == match spec_parse_u32(lookup_setting(lines_view(lines@), key@)) {
            Some(v) => v,
            None => default,
        },
{
    let t = setting_text(lines, key);
    match parse_u32(t.as_slice()) {
        Some(v) => v,
        None => default,
    }
}

/// Setting `key` among `lines` as an `i32`, or `default`.
fn get_i32(lines: &Vec<Vec<char>>, key: &str, default: i32) -> (r: i32)
    ensures
        r == match spec_parse_i32(lookup_setting(lines_view(lines@), key@)) {
            Some(v) => v,
            None => default,
        },
{
    let t = setting_text(lines, key);
    match parse_i32(t.as_slice()) {
        Some(v) => v,
        None => default,
    }
}

/// Setting `key` among `lines` as a flag.
fn get_bool(lines: &Vec<Vec<char>>, key: &str) -> (r: bool)
    ensures
        r == (match spec_parse_u32(lookup_setting(lines_view(lines@), key@)) {
            Some(v) => v,
            None => 0,
        } != 0),
{
    get_u32(lines, key, 0) != 0
}

/// Setting `key` among `lines` as text.
fn get_text(lines: &Vec<Vec<char>>, key: &str) -> (r: String)
    ensures
        r@ == lookup_setting(lines_view(lines@), key@),
{
    let t = setting_text(lines, key);
    string_from_chars(t.as_slice())
}

// ---------------------------------------------------------------------------
// Options
// ---------------------------------------------------------------------------
/// Complete LOD generation options. Values that the generator reads as
/// floating point are held as the settings give them: the atlas UV range
/// in ten-thousandths, the gamma and vertex color multiplier as their text.
#[derive(Debug, Clone)]
pub struct LodOptions {
    // Objects LOD
    pub objects_lod: bool,
    pub build_atlas: bool,
    pub atlas_width: u32,
    pub atlas_height: u32,
    pub atlas_texture_size: u32,
    /// UV range of atlas textures in ten-thousandths (10000 is 1.0).
    pub atlas_texture_uv_range: u32,
    pub atlas_diffuse_format: u32,
    pub atlas_normal_format: u32,
    pub atlas_specular_format: u32,
    pub default_alpha_threshold: u32,
    pub objects_no_tangents: bool,
    pub objects_no_vertex_colors: bool,
    // Trees LOD
    pub trees_lod: bool,
    pub tree_atlas_diffuse_format: u32,
    pub tree_atlas_normal_format: u32,
    pub tree_normal_map: bool,
    pub trees_brightness: i32,
    // Terrain LOD
    pub terrain_lod: bool,
    pub terrain_build_meshes: bool,
    pub terrain_build_diffuse: bool,
    pub terrain_build_normal: bool,
    // Per-level terrain settings: LOD4, LOD8, LOD16, LOD32
    pub terrain_quality: [u32; 4],
    pub terrain_max_verts: [u32; 4],
    pub terrain_optimize_unseen: [bool; 4],
    pub terrain_diffuse_size: [u32; 4],
    pub terrain_diffuse_comp: [u32; 4],
    pub terrain_diffuse_mipmap: [bool; 4],
    pub terrain_normal_size: [u32; 4],
    pub terrain_normal_comp: [u32; 4],
    pub terrain_normal_mipmap: [bool; 4],
    /// Gamma per level, as the setting's text (a float; 1.0 when it is not one).
    pub terrain_gamma: [String; 4],
    pub terrain_brightness: [i32; 4],
    pub terrain_contrast: [i32; 4],
    pub terrain_default_diffuse_size: u32,
    pub terrain_default_normal_size: u32,
    /// Vertex color multiplier, as the setting's text (a float; 1.0 when it is not one).
    pub terrain_vertex_color_multiplier: String,
    // General
    pub worldspaces: Vec<String>,
    pub output_dir: String,
    pub data_dir: String,
}

impl LodOptions {
    /// Read the options from the text of an xLODGen settings file (such as
    /// `Plugins.fnvviewsettings`): each option is its key's setting (see
    /// [`setting`]), or the option's default where that is missing or
    /// malformed. Worldspaces and folders are left empty.
    #[verifier::rlimit(40)]
    pub fn from_settings_file(content: &str) -> (o: LodOptions)
        ensures
            o.objects_lod == setting_bool(content@, "ObjectsLOD"@),
            o.build_atlas == setting_bool(content@, "BuildAtlas"@),
            o.atlas_width == setting_u32(content@, "AtlasWidth"@, 4096),
            o.atlas_height == setting_u32(content@, "AtlasHeight"@, 4096),
            o.atlas_texture_size == setting_u32(content@, "AtlasTextureSize"@, 1024),
            o.atlas_texture_uv_range == setting_u32(content@, "AtlasTextureUVRange"@, 10000),
            o.atlas_diffuse_format == setting_u32(content@, "AtlasDiffuseFormat"@, 202),
            o.atlas_normal_format == setting_u32(content@, "AtlasNormalFormat"@, 200),
            o.atlas_specular_format == setting_u32(content@, "AtlasSpecularFormat"@, 205),
            o.default_alpha_threshold == setting_u32(content@, "DefaultAlphaThreshold"@, 128),
            o.objects_no_tangents == setting_bool(content@, "ObjectsNoTangents"@),
            o.objects_no_vertex_colors == setting_bool(content@, "ObjectsNoVertexColors"@),
            o.trees_lod == setting_bool(content@, "TreesLOD"@),
            o.tree_atlas_diffuse_format == setting_u32(content@, "TreeAtlasDiffuseFormat"@, 202),
            o.tree_atlas_normal_format == setting_u32(content@, "TreeAtlasNormalFormat"@, 202),
            o.tree_normal_map == setting_bool(content@, "TreeNormalMap"@),
            o.trees_brightness == setting_i32(content@, "TreesBrightness"@, 0),
            o.terrain_lod == setting_bool(content@, "TerrainLOD"@),
            o.terrain_build_meshes == setting_bool(content@, "TerrainBuildMeshes"@),
            o.terrain_build_diffuse == setting_bool(content@, "TerrainBuildDiffuseTextures"@),
            o.terrain_build_normal == setting_bool(content@, "TerrainBuildNormalTextures"@),
            o.terrain_quality@[0] == setting_u32(content@, "TerrainQualityLOD4"@, 10),
            o.terrain_quality@[1] == setting_u32(content@, "TerrainQualityLOD8"@, 15),
            o.terrain_quality@[2] == setting_u32(content@, "TerrainQualityLOD16"@, 20),
            o.terrain_quality@[3] == setting_u32(content@, "TerrainQualityLOD32"@, 25),
            o.terrain_max_verts@[0] == setting_u32(content@, "TerrainMaxVertsLOD4"@, 32767),
            o.terrain_max_verts@[1] == setting_u32(content@, "TerrainMaxVertsLOD8"@, 32767),
            o.terrain_max_verts@[2] == setting_u32(content@, "TerrainMaxVertsLOD16"@, 32767),
            o.terrain_max_verts@[3] == setting_u32(content@, "TerrainMaxVertsLOD32"@, 32767),
            o.terrain_optimize_unseen@[0] == setting_bool(content@, "TerrainWaterDeltaLOD4"@),
            o.terrain_optimize_unseen@[1] == setting_bool(content@, "TerrainWaterDeltaLOD8"@),
            o.terrain_optimize_unseen@[2] == setting_bool(content@, "TerrainWaterDeltaLOD16"@),
            o.terrain_optimize_unseen@[3] == setting_bool(content@, "TerrainWaterDeltaLOD32"@),
            o.terrain_diffuse_size@[0] == setting_u32(content@, "TerrainDiffuseSizeLOD4"@, 512),
            o.terrain_diffuse_size@[1] == setting_u32(content@, "TerrainDiffuseSizeLOD8"@, 512),
            o.terrain_diffuse_size@[2] == setting_u32(content@, "TerrainDiffuseSizeLOD16"@, 512),
            o.terrain_diffuse_size@[3] == setting_u32(content@, "TerrainDiffuseSizeLOD32"@, 512),
            o.terrain_diffuse_comp@[0] == setting_u32(content@, "TerrainDiffuseCompLOD4"@, 200),
            o.terrain_diffuse_comp@[1] == setting_u32(content@, "TerrainDiffuseCompLOD8"@, 200),
            o.terrain_diffuse_comp@[2] == setting_u32(content@, "TerrainDiffuseCompLOD16"@, 200),
            o.terrain_diffuse_comp@[3] == setting_u32(content@, "TerrainDiffuseCompLOD32"@, 200),
            o.terrain_diffuse_mipmap@[0] == setting_bool(content@, "TerrainDiffuseMipMapLOD4"@),
            o.terrain_diffuse_mipmap@[1] == setting_bool(content@, "TerrainDiffuseMipMapLOD8"@),
            o.terrain_diffuse_mipmap@[2] == setting_bool(content@, "TerrainDiffuseMipMapLOD16"@),
            o.terrain_diffuse_mipmap@[3] == setting_bool(content@, "TerrainDiffuseMipMapLOD32"@),
            o.terrain_normal_size@[0] == setting_u32(content@, "TerrainNormalSizeLOD4"@, 512),
            o.terrain_normal_size@[1] == setting_u32(content@, "TerrainNormalSizeLOD8"@, 512),
            o.terrain_normal_size@[2] == setting_u32(content@, "TerrainNormalSizeLOD16"@, 512),
            o.terrain_normal_size@[3] == setting_u32(content@, "TerrainNormalSizeLOD32"@, 512),
            o.terrain_normal_comp@[0] == setting_u32(content@, "TerrainNormalCompLOD4"@, 200),
            o.terrain_normal_comp@[1] == setting_u32(content@, "TerrainNormalCompLOD8"@, 200),
            o.terrain_normal_comp@[2] == setting_u32(content@, "TerrainNormalCompLOD16"@, 200),
            o.terrain_normal_comp@[3] == setting_u32(content@, "TerrainNormalCompLOD32"@, 200),
            o.terrain_normal_mipmap@[0] == setting_bool(content@, "TerrainNormalMipMapLOD4"@),
            o.terrain_normal_mipmap@[1] == setting_bool(content@, "TerrainNormalMipMapLOD8"@),
            o.terrain_normal_mipmap@[2] == setting_bool(content@, "TerrainNormalMipMapLOD16"@),
            o.terrain_normal_mipmap@[3] == setting_bool(content@, "TerrainNormalMipMapLOD32"@),
            o.terrain_gamma@[0]@ == setting(content@, "TerrainGammaLOD4"@),
            o.terrain_gamma@[1]@ == setting(content@, "TerrainGammaLOD8"@),
            o.terrain_gamma@[2]@ == setting(content@, "TerrainGammaLOD16"@),
            o.terrain_gamma@[3]@ == setting(content@, "TerrainGammaLOD32"@),
            o.terrain_brightness@[0] == setting_i32(content@, "TerrainBrightnessLOD4"@, 0),
            o.terrain_brightness@[1] == setting_i32(content@, "TerrainBrightnessLOD8"@, 0),
            o.terrain_brightness@[2] == setting_i32(content@, "TerrainBrightnessLOD16"@, 0),
            o.terrain_brightness@[3] == setting_i32(content@, "TerrainBrightnessLOD32"@, 0),
            o.terrain_contrast@[0] == setting_i32(content@, "TerrainContrastLOD4"@, 0),
            o.terrain_contrast@[1] == setting_i32(content@, "TerrainContrastLOD8"@, 0),
            o.terrain_contrast@[2] == setting_i32(content@, "TerrainContrastLOD16"@, 0),
            o.terrain_contrast@[3] == setting_i32(content@, "TerrainContrastLOD32"@, 0),
            o.terrain_default_diffuse_size == setting_u32(content@, "TerrainDefaultDiffuseSize"@, 128),
            o.terrain_default_normal_size == setting_u32(content@, "TerrainDefaultNormalSize"@, 128),
            o.terrain_vertex_color_multiplier@ == setting(content@, "TerrainVertexColorMultiplier"@),
            o.worldspaces@.len() == 0,
            o.output_dir@.len() == 0,
            o.data_dir@.len() == 0,
    {
        let cs = chars_of(content);
        let lines = split_lines_chars(cs.as_slice());
        assert(lines_view(lines@) =~= split_lines(content@));
        LodOptions {
            objects_lod: get_bool(&lines, "ObjectsLOD"),
            build_atlas: get_bool(&lines, "BuildAtlas"),
            atlas_width: get_u32(&lines, "AtlasWidth", 4096),
            atlas_height: get_u32(&lines, "AtlasHeight", 4096),
            atlas_texture_size: get_u32(&lines, "AtlasTextureSize", 1024),
            atlas_texture_uv_range: get_u32(&lines, "AtlasTextureUVRange", 10000),
            atlas_diffuse_format: get_u32(&lines, "AtlasDiffuseFormat", 202),
            atlas_normal_format: get_u32(&lines, "AtlasNormalFormat", 200),
            atlas_specular_format: get_u32(&lines, "AtlasSpecularFormat", 205),
            default_alpha_threshold: get_u32(&lines, "DefaultAlphaThreshold", 128),
            objects_no_tangents: get_bool(&lines, "ObjectsNoTangents"),
            objects_no_vertex_colors: get_bool(&lines, "ObjectsNoVertexColors"),
            trees_lod: get_bool(&lines, "TreesLOD"),
            tree_atlas_diffuse_format: get_u32(&lines, "TreeAtlasDiffuseFormat", 202),
            tree_atlas_normal_format: get_u32(&lines, "TreeAtlasNormalFormat", 202),
            tree_normal_map: get_bool(&lines, "TreeNormalMap"),
            trees_brightness: get_i32(&lines, "TreesBrightness", 0),
            terrain_lod: get_bool(&lines, "TerrainLOD"),
            terrain_build_meshes: get_bool(&lines, "TerrainBuildMeshes"),
            terrain_build_diffuse: get_bool(&lines, "TerrainBuildDiffuseTextures"),
            terrain_build_normal: get_bool(&lines, "TerrainBuildNormalTextures"),
            terrain_quality: [
                get_u32(&lines, "TerrainQualityLOD4", 10),
                get_u32(&lines, "TerrainQualityLOD8", 15),
                get_u32(&lines, "TerrainQualityLOD16", 20),
                get_u32(&lines, "TerrainQualityLOD32", 25),
            ],
            terrain_max_verts: [
                get_u32(&lines, "TerrainMaxVertsLOD4", 32767),
                get_u32(&lines, "TerrainMaxVertsLOD8", 32767),
                get_u32(&lines, "TerrainMaxVertsLOD16", 32767),
                get_u32(&lines, "TerrainMaxVertsLOD32", 32767),
            ],
            terrain_optimize_unseen: [
                get_bool(&lines, "TerrainWaterDeltaLOD4"),
                get_bool(&lines, "TerrainWaterDeltaLOD8"),
                get_bool(&lines, "TerrainWaterDeltaLOD16"),
                get_bool(&lines, "TerrainWaterDeltaLOD32"),
            ],
            terrain_diffuse_size: [
                get_u32(&lines, "TerrainDiffuseSizeLOD4", 512),
                get_u32(&lines, "TerrainDiffuseSizeLOD8", 512),
                get_u32(&lines, "TerrainDiffuseSizeLOD16", 512),
                get_u32(&lines, "TerrainDiffuseSizeLOD32", 512),
            ],
            terrain_diffuse_comp: [
                get_u32(&lines, "TerrainDiffuseCompLOD4", 200),
                get_u32(&lines, "TerrainDiffuseCompLOD8", 200),
                get_u32(&lines, "TerrainDiffuseCompLOD16", 200),
                get_u32(&lines, "TerrainDiffuseCompLOD32", 200),
            ],
            terrain_diffuse_mipmap: [
                get_bool(&lines, "TerrainDiffuseMipMapLOD4"),
                get_bool(&lines, "TerrainDiffuseMipMapLOD8"),
                get_bool(&lines, "TerrainDiffuseMipMapLOD16"),
                get_bool(&lines, "TerrainDiffuseMipMapLOD32"),
            ],
            terrain_normal_size: [
                get_u32(&lines, "TerrainNormalSizeLOD4", 512),
                get_u32(&lines, "TerrainNormalSizeLOD8", 512),
                get_u32(&lines, "TerrainNormalSizeLOD16", 512),
                get_u32(&lines, "TerrainNormalSizeLOD32", 512),
            ],
            terrain_normal_comp: [
                get_u32(&lines, "TerrainNormalCompLOD4", 200),
                get_u32(&lines, "TerrainNormalCompLOD8", 200),
                get_u32(&lines, "TerrainNormalCompLOD16", 200),
                get_u32(&lines, "TerrainNormalCompLOD32", 200),
            ],
            terrain_normal_mipmap: [
                get_bool(&lines, "TerrainNormalMipMapLOD4"),
                get_bool(&lines, "TerrainNormalMipMapLOD8"),
                get_bool(&lines, "TerrainNormalMipMapLOD16"),
                get_bool(&lines, "TerrainNormalMipMapLOD32"),
            ],
            terrain_gamma: [
                get_text(&lines, "TerrainGammaLOD4"),
                get_text(&lines, "TerrainGammaLOD8"),
                get_text(&lines, "TerrainGammaLOD16"),
                get_text(&lines, "TerrainGammaLOD32"),
            ],
            terrain_brightness: [
                get_i32(&lines, "TerrainBrightnessLOD4", 0),
                get_i32(&lines, "TerrainBrightnessLOD8", 0),
                get_i32(&lines, "TerrainBrightnessLOD16", 0),
                get_i32(&lines, "TerrainBrightnessLOD32", 0),
            ],
            terrain_contrast: [
                get_i32(&lines, "TerrainContrastLOD4", 0),
                get_i32(&lines, "TerrainContrastLOD8", 0),
                get_i32(&lines, "TerrainContrastLOD16", 0),
                get_i32(&lines, "TerrainContrastLOD32", 0),
            ],
            terrain_default_diffuse_size: get_u32(&lines, "TerrainDefaultDiffuseSize", 128),
            terrain_default_normal_size: get_u32(&lines, "TerrainDefaultNormalSize", 128),
            terrain_vertex_color_multiplier: get_text(&lines, "TerrainVertexColorMultiplier"),
            worldspaces: Vec::new(),
            output_dir: String::new(),
            data_dir: String::new(),
        }
    }
}

} // verus!
