//! LOD generation data: texture format codes, worldspace LOD settings,
//! block arithmetic, grid flags, RGBA canvases and output file names.

use vstd::prelude::*;

use crate::bytes::{le16, le32, push_u32, u32_bytes};
use crate::lines::sub_chars;
use crate::paths::file_name_of;
use crate::text::{
    chars_equal, chars_of, decimal, hex_digits, idecimal, push_decimal, push_hex, push_idecimal, push_str,
    spec_to_lowercase, str_to_lowercase, string_from_chars,
};

verus! {

/// DDS compression format codes (matching xLODGen settings file values:
/// 200, 202 and 205).
#[derive(Debug, Clone, Copy, PartialEq, Eq, Structural)]
pub enum DdsFormat {
    /// DXT1 / BC1 (code 200): 4bpp, no alpha or 1-bit alpha
    Dxt1,
    /// DXT5 / BC3 (code 202): 8bpp, full alpha
    Dxt5,
    /// BC5 / ATI2N (code 205): 8bpp, two-channel (normal/specular)
    Bc5,
}

/// The format of a settings file code.
pub open spec fn spec_dds_format(code: u32) -> Option<DdsFormat> {
    if code == 200 {
        Some(DdsFormat::Dxt1)
    } else if code == 202 {
        Some(DdsFormat::Dxt5)
    } else if code == 205 {
        Some(DdsFormat::Bc5)
    } else {
        None
    }
}

impl DdsFormat {
    /// The format of a settings file code, if it is one of 200, 202, 205.
    pub fn from_code(code: u32) -> (r: Option<Self>)
        ensures
            r == spec_dds_format(code),
    {
        match code {
            200 => Some(DdsFormat::Dxt1),
            202 => Some(DdsFormat::Dxt5),
            205 => Some(DdsFormat::Bc5),
            _ => None,
        }
    }

    /// The settings file code of this format.
    pub fn code(&self) -> (c: u32)
        ensures
            spec_dds_format(c) == Some(*self),
    {
        match self {
            DdsFormat::Dxt1 => 200,
            DdsFormat::Dxt5 => 202,
            DdsFormat::Bc5 => 205,
        }
    }
}

/// Why LOD settings data could not be parsed.
#[derive(Debug, Clone, Copy, PartialEq, Eq, Structural)]
pub enum LodSettingsError {
    /// FO3/FNV settings need 24 bytes; the data has this many.
    Fo3TooShort(usize),
    /// Skyrim settings need 16 bytes; the data has this many.
    SseTooShort(usize),
    /// The format cannot be told from the extension or the size.
    UnknownFormat(usize),
}

/// Parsed LOD settings for a worldspace.
#[derive(Debug, Clone, Copy)]
pub struct LodSettings {
    /// Southwest cell coordinates.
    pub sw_cell: (i32, i32),
    /// Northeast cell coordinates.
    pub ne_cell: (i32, i32),
    /// Grid stride (cell alignment).
    pub stride: i32,
    /// Minimum LOD level (e.g., 4).
    pub lod_level_min: i32,
    /// Maximum LOD level (e.g., 32).
    pub lod_level_max: i32,
    /// Object level (FO3/FNV only).
    pub object_level: i32,
}

/// The signed 16-bit little-endian value at `p`.
pub open spec fn le_i16(d: Seq<u8>, p: int) -> int {
    let u = le16(d, p);
    if u >= 0x8000 {
        u - 0x10000
    } else {
        u
    }
}

/// The signed 32-bit little-endian value at `p`.
pub open spec fn le_i32(d: Seq<u8>, p: int) -> int {
    let u = le32(d, p);
    if u >= 0x8000_0000 {
        u - 0x1_0000_0000
    } else {
        u
    }
}

/// `s` holds the FO3/FNV settings of `d`: LODmin(i32) LODmax(i32)
/// Stride(i32) SWx(i16) SWy(i16) NEx(i16) NEy(i16) ObjLevel(i32).
pub open spec fn fo3_settings(s: LodSettings, d: Seq<u8>) -> bool {
    &&& s.lod_level_min == le_i32(d, 0)
    &&& s.lod_level_max == le_i32(d, 4)
    &&& s.stride == le_i32(d, 8)
    &&& s.sw_cell == (le_i16(d, 12) as i32, le_i16(d, 14) as i32)
    &&& s.ne_cell == (le_i16(d, 16) as i32, le_i16(d, 18) as i32)
    &&& s.object_level == le_i32(d, 20)
}

/// `s` holds the Skyrim settings of `d`: SWx(i16) SWy(i16) Stride(i32)
/// LODmin(i32) LODmax(i32); the NE cell is the SW cell plus the stride.
pub open spec fn sse_settings(s: LodSettings, d: Seq<u8>) -> bool {
    &&& s.sw_cell == (le_i16(d, 0) as i32, le_i16(d, 2) as i32)
    &&& s.stride == le_i32(d, 4)
    &&& s.lod_level_min == le_i32(d, 8)
    &&& s.lod_level_max == le_i32(d, 12)
    &&& s.ne_cell.0 == le_i16(d, 0) + le_i32(d, 4)
    &&& s.ne_cell.1 == le_i16(d, 2) + le_i32(d, 4)
    &&& s.object_level == 0
}

/// Whether the Skyrim NE cell (SW cell plus stride) fits an `i32`.
pub open spec fn sse_in_range(d: Seq<u8>) -> bool {
    d.len() >= 16 ==> {
        &&& i32::MIN <= le_i16(d, 0) + le_i32(d, 4) <= i32::MAX
        &&& i32::MIN <= le_i16(d, 2) + le_i32(d, 4) <= i32::MAX
    }
}

/// The signed 16-bit little-endian value at `p`.
fn read_i16(d: &[u8], p: usize) -> (r: i32)
    requires
        p + 2 <= d@.len(),
    ensures
        r == le_i16(d@, p as int),
{
    let u: u32 = (d[p] as u32) + (d[p + 1] as u32) * 256;
    if u >= 0x8000 {
        (u as i32) - 0x10000
    } else {
        u as i32
    }
}

/// The signed 32-bit little-endian value at `p`.
fn read_i32(d: &[u8], p: usize) -> (r: i32)
    requires
        p + 4 <= d@.len(),
    ensures
        r == le_i32(d@, p as int),
{
    let u: u64 = (d[p] as u64) + (d[p + 1] as u64) * 256 + (d[p + 2] as u64) * 65536 + (d[p
        + 3] as u64) * 16777216;
    assert(u == le32(d@, p as int));
    if u >= 0x8000_0000 {
        (u as i64 - 0x1_0000_0000) as i32
    } else {
        u as i32
    }
}

/// Whether settings with extension `ext_lower` (lower-cased) are read as
/// Skyrim settings.
pub open spec fn reads_as_sse(d: Seq<u8>, ext_lower: Seq<char>) -> bool {
    ext_lower == "lod"@ || (ext_lower != "dlodsettings"@ && d.len() != 24 && d.len() >= 16)
}

/// The result of parsing settings `d` with extension `ext_lower`
/// (lower-cased): `dlodsettings` is FO3/FNV, `lod` is Skyrim; for another
/// extension 24 bytes are FO3/FNV, 16 or more Skyrim, fewer an unknown
/// format.
pub open spec fn parse_result(r: Result<LodSettings, LodSettingsError>, d: Seq<u8>, ext_lower: Seq<char>) -> bool {
    if ext_lower == "dlodsettings"@ {
        fo3_result(r, d)
    } else if ext_lower == "lod"@ {
        sse_result(r, d)
    } else if d.len() == 24 {
        fo3_result(r, d)
    } else if d.len() >= 16 {
        sse_result(r, d)
    } else {
        r == Err::<LodSettings, LodSettingsError>(LodSettingsError::UnknownFormat(d.len() as usize))
    }
}

/// The result of parsing settings in a known format.
pub open spec fn fo3_result(r: Result<LodSettings, LodSettingsError>, d: Seq<u8>) -> bool {
    match r {
        Ok(s) => d.len() >= 24 && fo3_settings(s, d),
        Err(e) => d.len() < 24 && e == LodSettingsError::Fo3TooShort(d.len() as usize),
    }
}

/// The result of parsing Skyrim settings.
pub open spec fn sse_result(r: Result<LodSettings, LodSettingsError>, d: Seq<u8>) -> bool {
    match r {
        Ok(s) => d.len() >= 16 && sse_settings(s, d),
        Err(e) => d.len() < 16 && e == LodSettingsError::SseTooShort(d.len() as usize),
    }
}

impl LodSettings {
    /// Settings with the default LOD level range (4 to 32) and zero cells.
    pub fn default_levels() -> (s: Self)
        ensures
            s.sw_cell == (0i32, 0i32),
            s.ne_cell == (0i32, 0i32),
            s.stride == 0,
            s.lod_level_min == 4,
            s.lod_level_max == 32,
            s.object_level == 0,
    {
        LodSettings {
            sw_cell: (0, 0),
            ne_cell: (0, 0),
            stride: 0,
            lod_level_min: 4,
            lod_level_max: 32,
            object_level: 0,
        }
    }

    /// Parse FO3/FNV settings (24 bytes, see [`fo3_settings`]).
    pub fn parse_fo3(data: &[u8]) -> (r: Result<Self, LodSettingsError>)
        ensures
            fo3_result(r, data@),
    {
        if data.len() < 24 {
            return Err(LodSettingsError::Fo3TooShort(data.len()));
        }
        let lod_level_min = read_i32(data, 0);
        let lod_level_max = read_i32(data, 4);
        let stride = read_i32(data, 8);
        let sw_x = read_i16(data, 12);
        let sw_y = read_i16(data, 14);
        let ne_x = read_i16(data, 16);
        let ne_y = read_i16(data, 18);
        let object_level = read_i32(data, 20);
        Ok(
            LodSettings {
                sw_cell: (sw_x, sw_y),
                ne_cell: (ne_x, ne_y),
                stride,
                lod_level_min,
                lod_level_max,
                object_level,
            },
        )
    }

    /// Parse Skyrim settings (16 bytes, see [`sse_settings`]).
    pub fn parse_sse(data: &[u8]) -> (r: Result<Self, LodSettingsError>)
        requires
            sse_in_range(data@),
        ensures
            sse_result(r, data@),
    {
        if data.len() < 16 {
            return Err(LodSettingsError::SseTooShort(data.len()));
        }
        let sw_x = read_i16(data, 0);
        let sw_y = read_i16(data, 2);
        let stride = read_i32(data, 4);
        let lod_level_min = read_i32(data, 8);
        let lod_level_max = read_i32(data, 12);
        let size = stride;
        Ok(
            LodSettings {
                sw_cell: (sw_x, sw_y),
                ne_cell: (sw_x + size, sw_y + size),
                stride,
                lod_level_min,
                lod_level_max,
                object_level: 0,
            },
        )
    }

    /// Parse settings, the format told by the file extension (any case):
    /// `dlodsettings` is FO3/FNV, `lod` is Skyrim; for another extension
    /// 24 bytes are FO3/FNV, 16 or more Skyrim (see [`parse_result`]).
    /// Read as Skyrim settings, the NE cell must fit an `i32`.
    pub fn parse(data: &[u8], ext: &str) -> (r: Result<Self, LodSettingsError>)
        requires
            reads_as_sse(data@, spec_to_lowercase(ext@)) ==> sse_in_range(data@),
        ensures
            parse_result(r, data@, spec_to_lowercase(ext@)),
    {
        let lower = str_to_lowercase(ext);
        let l = chars_of(lower.as_str());
        let dl = chars_of("dlodsettings");
        let lo = chars_of("lod");
        proof {
            reveal_strlit("dlodsettings");
            reveal_strlit("lod");
            assert("lod"@.len() == 3);
            assert("dlodsettings"@.len() == 12);
            assert("lod"@ != "dlodsettings"@);
        }
        if chars_equal(l.as_slice(), dl.as_slice()) {
            Self::parse_fo3(data)
        } else if chars_equal(l.as_slice(), lo.as_slice()) {
            Self::parse_sse(data)
        } else if data.len() == 24 {
            Self::parse_fo3(data)
        } else if data.len() >= 16 {
            Self::parse_sse(data)
        } else {
            Err(LodSettingsError::UnknownFormat(data.len()))
        }
    }

    /// [`LodSettings::parse`] where it is defined: `None` when the data
    /// would be read as Skyrim settings whose NE cell does not fit an `i32`.
    pub fn parse_checked(data: &[u8], ext: &str) -> (r: Option<Result<Self, LodSettingsError>>)
        ensures
            r is None <==> (reads_as_sse(data@, spec_to_lowercase(ext@)) && !sse_in_range(data@)),
            r matches Some(x) ==> parse_result(x, data@, spec_to_lowercase(ext@)),
    {
        let lower = str_to_lowercase(ext);
        let l = chars_of(lower.as_str());
        let dl = chars_of("dlodsettings");
        let lo = chars_of("lod");
        let is_lod = chars_equal(l.as_slice(), lo.as_slice());
        let is_dlod = chars_equal(l.as_slice(), dl.as_slice());
        let sse = is_lod || (!is_dlod && data.len() != 24 && data.len() >= 16);
        if sse && data.len() >= 16 {
            let sw_x = read_i16(data, 0) as i64;
            let sw_y = read_i16(data, 2) as i64;
            let stride = read_i32(data, 4) as i64;
            let lo_i: i64 = -0x8000_0000;
            let hi_i: i64 = 0x7fff_ffff;
            if sw_x + stride < lo_i || sw_x + stride > hi_i || sw_y + stride < lo_i || sw_y + stride > hi_i {
                return None;
            }
        }
        Some(Self::parse(data, ext))
    }
    /// Grid size from stride.
    pub fn get_size(&self) -> (s: i32)
        ensures
            s == self.stride,
    {
        self.stride
    }
}

/// Integer division rounding toward zero (Rust's `/` on integers).
pub open spec fn tdiv(a: int, b: int) -> int {
    if a >= 0 {
        if b > 0 {
            a / b
        } else {
            -(a / (-b))
        }
    } else {
        if b > 0 {
            -((-a) / b)
        } else {
            (-a) / (-b)
        }
    }
}

/// The LOD block origin of a cell coordinate: `(c / l) * l` for a
/// non-negative coordinate, `((c + 1) / l - 1) * l` for a negative one,
/// `/` rounding toward zero.
pub open spec fn block_origin(c: int, l: int) -> int {
    if c >= 0 {
        tdiv(c, l) * l
    } else {
        (tdiv(c + 1, l) - 1) * l
    }
}

/// Whether [`block_origin`] can be computed in `i32`: a non-zero level and
/// products that fit.
pub open spec fn block_in_range(c: int, l: int) -> bool {
    &&& l != 0
    &&& i32::MIN <= block_origin(c, l) <= i32::MAX
    &&& i32::MIN <= tdiv(c + 1, l) - 1
}

/// For a positive level, the block origin is the multiple of the level at
/// or below the coordinate.
pub proof fn lemma_block_origin(c: int, l: int)
    requires
        l > 0,
    ensures
        block_origin(c, l) <= c < block_origin(c, l) + l,
        block_origin(c, l) % l == 0,
{
    if c >= 0 {
        let q = c / l;
        assert(block_origin(c, l) == q * l);
        vstd::arithmetic::div_mod::lemma_fundamental_div_mod(c, l);
        assert(q * l == l * q) by (nonlinear_arith);
        vstd::arithmetic::div_mod::lemma_mod_multiples_basic(q, l);
    } else {
        let q = (-(c + 1)) / l;
        assert(block_origin(c, l) == (-q - 1) * l);
        vstd::arithmetic::div_mod::lemma_fundamental_div_mod(-(c + 1), l);
        assert((-q - 1) * l == -(l * q) - l) by (nonlinear_arith);
        vstd::arithmetic::div_mod::lemma_mod_multiples_basic(-q - 1, l);
    }
}

impl LodSettings {
    /// Map a cell coordinate to its LOD block origin (see
    /// [`block_origin`]).
    pub fn block_for_cell(x: i32, y: i32, lod_level: i32) -> (r: (i32, i32))
        requires
            block_in_range(x as int, lod_level as int),
            block_in_range(y as int, lod_level as int),
        ensures
            r.0 == block_origin(x as int, lod_level as int),
            r.1 == block_origin(y as int, lod_level as int),
    {
        let block_x = block_coord(x, lod_level);
        let block_y = block_coord(y, lod_level);
        (block_x, block_y)
    }
}

/// `a / b`, rounding toward zero.
fn tdiv_i32(a: i32, b: i32) -> (q: i64)
    requires
        b != 0,
    ensures
        q == tdiv(a as int, b as int),
        -0x8000_0000 <= q <= 0x8000_0000,
{
    let ua: u64 = if a >= 0 {
        a as u64
    } else {
        (-(a as i64)) as u64
    };
    let ub: u64 = if b >= 0 {
        b as u64
    } else {
        (-(b as i64)) as u64
    };
    let q: u64 = ua / ub;
    assert(q <= ua) by (nonlinear_arith)
        requires
            q == ua / ub,
            ub >= 1,
    ;
    if (a >= 0) == (b > 0) {
        q as i64
    } else {
        -(q as i64)
    }
}

/// The LOD block origin of one coordinate.
fn block_coord(c: i32, l: i32) -> (r: i32)
    requires
        block_in_range(c as int, l as int),
    ensures
        r == block_origin(c as int, l as int),
{
    if c >= 0 {
        let q = tdiv_i32(c, l);
        (q * (l as i64)) as i32
    } else {
        let q = tdiv_i32(c + 1, l);
        ((q - 1) * (l as i64)) as i32
    }
}

/// A coordinate aligned down to a multiple of `step`: `(v / step) * step`
/// for a non-negative `v`, `((v - step + 1) / step) * step` for a negative
/// one, `/` rounding toward zero.
pub open spec fn spec_align_to_step(v: int, step: int) -> int {
    if v >= 0 {
        tdiv(v, step) * step
    } else {
        tdiv(v - step + 1, step) * step
    }
}

/// Whether [`spec_align_to_step`] can be computed in `i32`.
pub open spec fn align_in_range(v: int, step: int) -> bool {
    &&& step != 0
    &&& v < 0 ==> i32::MIN <= v - step + 1 <= i32::MAX
    &&& i32::MIN <= spec_align_to_step(v, step) <= i32::MAX
}

/// For a positive step, the aligned value is the multiple of the step at or
/// below the value.
pub proof fn lemma_align_to_step(v: int, step: int)
    requires
        step > 0,
    ensures
        spec_align_to_step(v, step) <= v < spec_align_to_step(v, step) + step,
        spec_align_to_step(v, step) % step == 0,
{
    if v >= 0 {
        let q = v / step;
        vstd::arithmetic::div_mod::lemma_fundamental_div_mod(v, step);
        assert(q * step == step * q) by (nonlinear_arith);
        vstd::arithmetic::div_mod::lemma_mod_multiples_basic(q, step);
    } else {
        let n = -(v - step + 1);
        let q = n / step;
        assert(spec_align_to_step(v, step) == (-q) * step);
        vstd::arithmetic::div_mod::lemma_fundamental_div_mod(n, step);
        assert((-q) * step == -(step * q)) by (nonlinear_arith);
        vstd::arithmetic::div_mod::lemma_mod_multiples_basic(-q, step);
    }
}

/// Align a cell coordinate down to a block boundary (see
/// [`spec_align_to_step`]).
pub fn align_to_step(val: i32, step: i32) -> (r: i32)
    requires
        align_in_range(val as int, step as int),
    ensures
        r == spec_align_to_step(val as int, step as int),
        step > 0 ==> r <= val < r + step && r % step == 0,
{
    proof {
        if step > 0 {
            lemma_align_to_step(val as int, step as int);
        }
    }
    if val >= 0 {
        let q = tdiv_i32(val, step);
        (q * (step as i64)) as i32
    } else {
        let q = tdiv_i32((val + 1) - step, step);
        (q * (step as i64)) as i32
    }
}

/// A path with every `/` turned into `\`.
pub open spec fn backslashed(s: Seq<char>) -> Seq<char> {
    s.map_values(|c: char| if c == '/' { '\\' } else { c })
}

/// A native path in the Wine form: slashes turned into backslashes, and an
/// absolute path put on drive `Z:`.
pub open spec fn spec_to_wine_path(s: Seq<char>) -> Seq<char> {
    if s.len() > 0 && s[0] == '/' {
        "Z:"@ + backslashed(s)
    } else {
        backslashed(s)
    }
}

/// Convert a native path to its Wine form (see [`spec_to_wine_path`]).
pub fn to_wine_path(path: &str) -> (r: String)
    ensures
        r@ == spec_to_wine_path(path@),
{
    let cs = chars_of(path);
    let mut v: Vec<char> = Vec::new();
    let absolute = cs.len() > 0 && cs[0] == '/';
    if absolute {
        push_str(&mut v, "Z:");
    }
    let ghost start = v@;
    let mut i: usize = 0;
    while i < cs.len()
        invariant
            i <= cs@.len(),
            cs@ == path@,
            v@ == start + backslashed(cs@.take(i as int)),
        decreases cs.len() - i,
    {
        let c = cs[i];
        if c == '/' {
            v.push('\\');
        } else {
            v.push(c);
        }
        assert(backslashed(cs@.take(i as int + 1)) =~= backslashed(cs@.take(i as int)).push(
            if c == '/' { '\\' } else { c },
        ));
        i = i + 1;
    }
    proof {
        reveal_strlit("Z:");
        assert(cs@.take(cs@.len() as int) =~= cs@);
    }
    assert(v@ =~= spec_to_wine_path(path@));
    string_from_chars(v.as_slice())
}

/// How far a level is below `max` (0 beyond it).
pub open spec fn level_distance(level: int, max: int) -> nat {
    if level > max {
        0
    } else {
        (max - level + 1) as nat
    }
}

/// The LOD levels from `level` up to `max`, doubling.
pub open spec fn levels_from(level: int, max: int) -> Seq<i32>
    decreases level_distance(level, max),
{
    if level > max || level <= 0 {
        seq![]
    } else {
        seq![level as i32] + levels_from(2 * level, max)
    }
}

/// Whether doubling from `level` reaches beyond `max` without overflow:
/// the level is beyond `max`, or positive with a double that fits `i32`.
pub open spec fn levels_ok(level: int, max: int) -> bool
    decreases level_distance(level, max),
{
    level > max || (level > 0 && 2 * level <= i32::MAX && levels_ok(2 * level, max))
}

impl LodSettings {
    /// The LOD levels, from the minimum level doubling up to the maximum
    /// (e.g., 4, 8, 16, 32).
    pub fn lod_levels(&self) -> (v: Vec<i32>)
        requires
            levels_ok(self.lod_level_min as int, self.lod_level_max as int),
        ensures
            v@ == levels_from(self.lod_level_min as int, self.lod_level_max as int),
    {
        let mut levels: Vec<i32> = Vec::new();
        let mut level = self.lod_level_min;
        while level <= self.lod_level_max
            invariant
                levels_ok(level as int, self.lod_level_max as int),
                levels@ + levels_from(level as int, self.lod_level_max as int) == levels_from(
                    self.lod_level_min as int,
                    self.lod_level_max as int,
                ),
            decreases level_distance(level as int, self.lod_level_max as int),
        {
            let ghost before = levels@;
            levels.push(level);
            assert(before + levels_from(level as int, self.lod_level_max as int) =~= levels@
                + levels_from(2 * level, self.lod_level_max as int));
            level = level * 2;
        }
        assert(levels@ + levels_from(level as int, self.lod_level_max as int) =~= levels@);
        levels
    }
}

/// The grid flags of a reference: bit 9 when it is visible in LOD4, bit
/// 15 in LOD8, the low byte of its block column (cell offset from the
/// southwest cell, divided by 4 toward zero) in bits 24..31 and that of
/// its block row in bits 16..23.
pub open spec fn spec_grid_flags(
    cell_x: i32,
    cell_y: i32,
    has_lod4: bool,
    has_lod8: bool,
    sw_x: i32,
    sw_y: i32,
) -> u32 {
    let bx = (tdiv(cell_x - sw_x, 4) as i32) as u32;
    let by = (tdiv(cell_y - sw_y, 4) as i32) as u32;
    (if has_lod4 {
        0x0200u32
    } else {
        0u32
    }) | (if has_lod8 {
        0x8000u32
    } else {
        0u32
    }) | ((bx & 0xFF) << 24u32) | ((by & 0xFF) << 16u32)
}

/// Compute the grid flags of a reference from its cell and the
/// worldspace's southwest cell (see [`spec_grid_flags`]).
pub fn compute_grid_flags(
    cell_x: i32,
    cell_y: i32,
    has_lod4: bool,
    has_lod8: bool,
    sw_x: i32,
    sw_y: i32,
) -> (flags: u32)
    requires
        i32::MIN <= cell_x - sw_x <= i32::MAX,
        i32::MIN <= cell_y - sw_y <= i32::MAX,
    ensures
        flags == spec_grid_flags(cell_x, cell_y, has_lod4, has_lod8, sw_x, sw_y),
{
    let mut flags = 0u32;
    let block_x = (tdiv_i32(cell_x - sw_x, 4) as i32) as u32;
    let block_y = (tdiv_i32(cell_y - sw_y, 4) as i32) as u32;
    let f4: u32 = if has_lod4 {
        0x0200
    } else {
        0
    };
    let f8: u32 = if has_lod8 {
        0x8000
    } else {
        0
    };
    flags = flags | f4;
    flags = flags | f8;
    flags = flags | ((block_x & 0xFF) << 24u32);
    flags = flags | ((block_y & 0xFF) << 16u32);
    assert(flags == f4 | f8 | ((block_x & 0xFF) << 24u32) | ((block_y & 0xFF) << 16u32)) by (
    bit_vector)
        requires
            flags == ((((0u32 | f4) | f8) | ((block_x & 0xFF) << 24u32)) | ((block_y & 0xFF)
                << 16u32)),
    ;
    flags
}

/// A blank RGBA8 canvas: `width * height * 4` zero bytes.
pub fn create_canvas(width: u32, height: u32) -> (v: Vec<u8>)
    requires
        width * height * 4 <= u32::MAX,
    ensures
        v@.len() == width * height * 4,
        forall|i: int| 0 <= i < v@.len() ==> v@[i] == 0,
{
    let n: u32 = width * height * 4;
    let mut v: Vec<u8> = Vec::new();
    let mut i: u32 = 0;
    while i < n
        invariant
            i <= n,
            v@.len() == i,
            forall|j: int| 0 <= j < v@.len() ==> v@[j] == 0,
        decreases n - i,
    {
        v.push(0);
        i = i + 1;
    }
    v
}

/// The destination after the first `n` rows of a blit: row `r` of `src`
/// (`src_w * 4` bytes from `r * src_w * 4`) is copied to row `dst_y + r`
/// of `dst` at column `dst_x` (`dst_w * 4` bytes per row), when both
/// ranges lie within their buffers; otherwise the row is skipped.
pub open spec fn blit_rows(
    dst: Seq<u8>,
    dst_w: int,
    src: Seq<u8>,
    src_w: int,
    dst_x: int,
    dst_y: int,
    n: int,
) -> Seq<u8>
    decreases n,
{
    if n <= 0 {
        dst
    } else {
        let d = blit_rows(dst, dst_w, src, src_w, dst_x, dst_y, n - 1);
        let r = n - 1;
        let so = r * (src_w * 4);
        let se = so + src_w * 4;
        let dof = (dst_y + r) * (dst_w * 4) + dst_x * 4;
        let de = dof + src_w * 4;
        if se <= src.len() && de <= d.len() {
            d.take(dof) + src.subrange(so, se) + d.skip(de)
        } else {
            d
        }
    }
}

/// Composite (blit) a `src_w` by `src_h` RGBA8 rectangle onto `dst` at
/// (`dst_x`, `dst_y`) (see [`blit_rows`]).
pub fn composite_rect(
    dst: &mut Vec<u8>,
    dst_w: u32,
    src: &[u8],
    src_w: u32,
    src_h: u32,
    dst_x: u32,
    dst_y: u32,
)
    requires
        dst_w * 4 <= u32::MAX,
        src_w * 4 <= u32::MAX,
        dst_y + src_h <= u32::MAX,
        (dst_y + src_h) * (dst_w * 4) + dst_x * 4 + src_w * 4 <= usize::MAX,
        src_h * (src_w * 4) + src_w * 4 <= usize::MAX,
    ensures
        final(dst)@ == blit_rows(
            old(dst)@,
            dst_w as int,
            src@,
            src_w as int,
            dst_x as int,
            dst_y as int,
            src_h as int,
        ),
{
    let dst_stride = (dst_w * 4) as usize;
    let src_stride = (src_w * 4) as usize;
    let mut row: u32 = 0;
    while row < src_h
        invariant
            row <= src_h,
            dst_stride == dst_w * 4,
            src_stride == src_w * 4,
            dst_w * 4 <= u32::MAX,
            src_w * 4 <= u32::MAX,
            dst_y + src_h <= u32::MAX,
            (dst_y + src_h) * (dst_w * 4) + dst_x * 4 + src_w * 4 <= usize::MAX,
            src_h * (src_w * 4) + src_w * 4 <= usize::MAX,
            dst@ == blit_rows(
                old(dst)@,
                dst_w as int,
                src@,
                src_w as int,
                dst_x as int,
                dst_y as int,
                row as int,
            ),
        decreases src_h - row,
    {
        assert((row as int) * (src_stride as int) <= src_h * (src_w * 4)) by (nonlinear_arith)
            requires
                row < src_h,
                src_stride == src_w * 4,
        ;
        assert(((dst_y + row) as int) * (dst_stride as int) <= (dst_y + src_h) * (dst_w * 4)) by (
        nonlinear_arith)
            requires
                row < src_h,
                dst_stride == dst_w * 4,
        ;
        let src_offset = (row as usize) * src_stride;
        let dst_offset = ((dst_y + row) as usize) * dst_stride + (dst_x as usize) * 4;
        let src_end = src_offset + src_stride;
        let dst_end = dst_offset + src_stride;
        if src_end <= src.len() && dst_end <= dst.len() {
            let ghost before = dst@;
            let mut k: usize = 0;
            while k < src_stride
                invariant
                    k <= src_stride,
                    src_end == src_offset + src_stride,
                    dst_end == dst_offset + src_stride,
                    src_end <= src@.len(),
                    dst_end <= before.len(),
                    dst@.len() == before.len(),
                    forall|j: int| 0 <= j < dst_offset ==> dst@[j] == before[j],
                    forall|j: int| dst_end <= j < before.len() ==> dst@[j] == before[j],
                    forall|j: int|
                        dst_offset <= j < dst_offset + k ==> #[trigger] dst@[j] == src@[j
                            - dst_offset + src_offset],
                    forall|j: int|
                        dst_offset + k <= j < dst_end ==> #[trigger] dst@[j] == before[j],
                decreases src_stride - k,
            {
                dst.set(dst_offset + k, src[src_offset + k]);
                k = k + 1;
            }
            assert(dst@ =~= before.take(dst_offset as int) + src@.subrange(
                src_offset as int,
                src_end as int,
            ) + before.skip(dst_end as int));
        }
        row = row + 1;
    }
}

/// `meshes/landscape/lod/{ws}/Trees/{ws}.level{lod}.x{x}.y{y}.dtl`
pub open spec fn spec_dtl_path(ws: Seq<char>, lod: int, x: int, y: int) -> Seq<char> {
    "meshes/landscape/lod/"@ + ws + "/Trees/"@ + ws + ".level"@ + idecimal(lod) + ".x"@
        + idecimal(x) + ".y"@ + idecimal(y) + ".dtl"@
}

/// `meshes/terrain/{ws}/Trees/{ws}.{lod}.{x}.{y}.btt`
pub open spec fn spec_btt_path(ws: Seq<char>, lod: int, x: int, y: int) -> Seq<char> {
    "meshes/terrain/"@ + ws + "/Trees/"@ + ws + "."@ + idecimal(lod) + "."@ + idecimal(x) + "."@
        + idecimal(y) + ".btt"@
}

/// The DTL file path of a tree LOD block for FO3/FNV (see
/// [`spec_dtl_path`]).
pub fn dtl_path(worldspace: &str, lod_level: i32, cell_x: i32, cell_y: i32) -> (p: String)
    ensures
        p@ == spec_dtl_path(worldspace@, lod_level as int, cell_x as int, cell_y as int),
{
    let mut v: Vec<char> = Vec::new();
    push_str(&mut v, "meshes/landscape/lod/");
    push_str(&mut v, worldspace);
    push_str(&mut v, "/Trees/");
    push_str(&mut v, worldspace);
    push_str(&mut v, ".level");
    push_idecimal(&mut v, lod_level);
    push_str(&mut v, ".x");
    push_idecimal(&mut v, cell_x);
    push_str(&mut v, ".y");
    push_idecimal(&mut v, cell_y);
    push_str(&mut v, ".dtl");
    assert(v@ =~= spec_dtl_path(worldspace@, lod_level as int, cell_x as int, cell_y as int));
    string_from_chars(v.as_slice())
}

/// The BTT file path of a tree LOD block for Skyrim (see
/// [`spec_btt_path`]).
pub fn btt_path(worldspace: &str, lod_level: i32, cell_x: i32, cell_y: i32) -> (p: String)
    ensures
        p@ == spec_btt_path(worldspace@, lod_level as int, cell_x as int, cell_y as int),
{
    let mut v: Vec<char> = Vec::new();
    push_str(&mut v, "meshes/terrain/");
    push_str(&mut v, worldspace);
    push_str(&mut v, "/Trees/");
    push_str(&mut v, worldspace);
    push_str(&mut v, ".");
    push_idecimal(&mut v, lod_level);
    push_str(&mut v, ".");
    push_idecimal(&mut v, cell_x);
    push_str(&mut v, ".");
    push_idecimal(&mut v, cell_y);
    push_str(&mut v, ".btt");
    assert(v@ =~= spec_btt_path(worldspace@, lod_level as int, cell_x as int, cell_y as int));
    string_from_chars(v.as_slice())
}

/// The tree type list path for FO3/FNV:
/// `meshes/landscape/lod/{ws}/Trees/TreeTypes.lst`.
pub fn lst_path_fnv(worldspace: &str) -> (p: String)
    ensures
        p@ == "meshes/landscape/lod/"@ + worldspace@ + "/Trees/TreeTypes.lst"@,
{
    let mut v: Vec<char> = Vec::new();
    push_str(&mut v, "meshes/landscape/lod/");
    push_str(&mut v, worldspace);
    push_str(&mut v, "/Trees/TreeTypes.lst");
    string_from_chars(v.as_slice())
}

/// The tree type list path for Skyrim: `meshes/terrain/{ws}/Trees/{ws}.lst`.
pub fn lst_path_sse(worldspace: &str) -> (p: String)
    ensures
        p@ == "meshes/terrain/"@ + worldspace@ + "/Trees/"@ + worldspace@ + ".lst"@,
{
    let mut v: Vec<char> = Vec::new();
    push_str(&mut v, "meshes/terrain/");
    push_str(&mut v, worldspace);
    push_str(&mut v, "/Trees/");
    push_str(&mut v, worldspace);
    push_str(&mut v, ".lst");
    string_from_chars(v.as_slice())
}

/// The tree atlas diffuse texture path for FO3/FNV (the same for every
/// worldspace).
pub fn tree_atlas_diffuse_path_fnv(_worldspace: &str) -> (p: String)
    ensures
        p@ == "textures/landscape/Trees/TreeDeadLod.dds"@,
{
    let mut v: Vec<char> = Vec::new();
    push_str(&mut v, "textures/landscape/Trees/TreeDeadLod.dds");
    string_from_chars(v.as_slice())
}

/// The tree atlas normal texture path for FO3/FNV (the same for every
/// worldspace).
pub fn tree_atlas_normal_path_fnv(_worldspace: &str) -> (p: String)
    ensures
        p@ == "textures/landscape/Trees/TreeDeadLod_n.dds"@,
{
    let mut v: Vec<char> = Vec::new();
    push_str(&mut v, "textures/landscape/Trees/TreeDeadLod_n.dds");
    string_from_chars(v.as_slice())
}

/// The index of the last `.` in `s`, or -1.
pub open spec fn last_dot(s: Seq<char>) -> int
    decreases s.len(),
{
    if s.len() == 0 {
        -1
    } else if s.last() == '.' {
        s.len() - 1
    } else {
        last_dot(s.drop_last())
    }
}

/// The stem of a file name: the part before its last `.`, or the whole
/// name when it has no `.` or its only `.` is the first character
/// (`Path::file_stem`).
pub open spec fn stem(n: Seq<char>) -> Seq<char> {
    if last_dot(n) <= 0 {
        n
    } else {
        n.take(last_dot(n))
    }
}

proof fn lemma_last_dot(s: Seq<char>)
    ensures
        -1 <= last_dot(s) < s.len(),
        last_dot(s) >= 0 ==> s[last_dot(s)] == '.',
        forall|i: int| last_dot(s) < i < s.len() ==> s[i] != '.',
    decreases s.len(),
{
    if s.len() > 0 && s.last() != '.' {
        lemma_last_dot(s.drop_last());
        assert forall|i: int| last_dot(s) < i < s.len() implies s[i] != '.' by {
            if i < s.len() - 1 {
                assert(s[i] == s.drop_last()[i]);
            }
        }
    }
}

/// The stem of a file name (see [`stem`]).
fn file_stem_chars(n: &[char]) -> (r: Vec<char>)
    ensures
        r@ == stem(n@),
{
    proof {
        lemma_last_dot(n@);
    }
    let mut k: usize = n.len();
    while k > 0 && n[k - 1] != '.'
        invariant
            k <= n@.len(),
            forall|i: int| k <= i < n@.len() ==> n@[i] != '.',
            -1 <= last_dot(n@) < n@.len(),
            last_dot(n@) >= 0 ==> n@[last_dot(n@)] == '.',
            forall|i: int| last_dot(n@) < i < n@.len() ==> n@[i] != '.',
        decreases k,
    {
        k = k - 1;
    }
    assert(last_dot(n@) == k - 1) by {
        if last_dot(n@) > k - 1 {
            assert(n@[last_dot(n@)] == '.');
        }
        if last_dot(n@) < k - 1 {
            assert(n@[k - 1] == '.');
        }
    }
    if k <= 1 {
        sub_chars(n, 0, n.len())
    } else {
        sub_chars(n, 0, k - 1)
    }
}

/// The billboard texture name of a tree model:
/// `textures/terrain/lodgen/{plugin}/{model stem}_{local id}.dds`, the
/// model stem taken after turning backslashes into slashes, the local id
/// (FormID without its file index) as eight upper-case hex digits; the
/// whole text lower-cased.
pub open spec fn spec_billboard_path(plugin: Seq<char>, model: Seq<char>, form_id: u32) -> Seq<char> {
    let normalized = model.map_values(|c: char| if c == '\\' { '/' } else { c });
    let name = match file_name_of(normalized) {
        Some(n) => stem(n),
        None => seq![],
    };
    spec_to_lowercase(
        "textures/terrain/lodgen/"@ + plugin + "/"@ + name + "_"@ + hex_digits(
            (form_id % 0x0100_0000) as nat,
            8,
        ) + ".dds"@,
    )
}

/// Generate the billboard texture path for a tree base record (see
/// [`spec_billboard_path`]).
pub fn billboard_path(plugin_filename: &str, model_path: &str, form_id: u32) -> (p: String)
    ensures
        p@ == spec_billboard_path(plugin_filename@, model_path@, form_id),
{
    let m = chars_of(model_path);
    let mut normalized: Vec<char> = Vec::new();
    let mut i: usize = 0;
    while i < m.len()
        invariant
            i <= m@.len(),
            m@ == model_path@,
            normalized@ == m@.take(i as int).map_values(
                |c: char| if c == '\\' { '/' } else { c },
            ),
        decreases m.len() - i,
    {
        let c = m[i];
        normalized.push(if c == '\\' { '/' } else { c });
        assert(m@.take(i + 1).map_values(|c: char| if c == '\\' { '/' } else { c }) =~= m@.take(
            i as int,
        ).map_values(|c: char| if c == '\\' { '/' } else { c }).push(
            if c == '\\' { '/' } else { c },
        ));
        i = i + 1;
    }
    assert(m@.take(i as int) =~= m@);
    let name: Vec<char> = match crate::paths::file_name(normalized.as_slice()) {
        Some(n) => file_stem_chars(n.as_slice()),
        None => Vec::new(),
    };
    let local_id = form_id & 0x00FF_FFFF;
    assert(local_id == form_id % 0x0100_0000) by (bit_vector)
        requires
            local_id == form_id & 0x00FF_FFFF,
    ;
    let mut v: Vec<char> = Vec::new();
    push_str(&mut v, "textures/terrain/lodgen/");
    push_str(&mut v, plugin_filename);
    push_str(&mut v, "/");
    let ghost before_name = v@;
    let mut k: usize = 0;
    while k < name.len()
        invariant
            k <= name@.len(),
            v@ == before_name + name@.take(k as int),
        decreases name.len() - k,
    {
        v.push(name[k]);
        assert(name@.take(k + 1) =~= name@.take(k as int).push(name@[k as int]));
        k = k + 1;
    }
    assert(name@.take(k as int) =~= name@);
    push_str(&mut v, "_");
    push_hex(&mut v, local_id, 8);
    push_str(&mut v, ".dds");
    let s = string_from_chars(v.as_slice());
    assert(s@ =~= "textures/terrain/lodgen/"@ + plugin_filename@ + "/"@ + name@ + "_"@ + hex_digits(
        (form_id % 0x0100_0000) as nat,
        8,
    ) + ".dds"@);
    str_to_lowercase(s.as_str())
}

/// An entry in the texture atlas map.
#[derive(Debug, Clone)]
pub struct AtlasMapEntry {
    pub source_texture: String,
    pub src_width: u32,
    pub src_height: u32,
    pub atlas_x: u32,
    pub atlas_y: u32,
    pub atlas_texture: String,
    pub atlas_width: u32,
    pub atlas_height: u32,
}

/// A texture used by object LOD.
#[derive(Debug, Clone)]
pub struct LodTexture {
    /// Virtual path to the texture.
    pub path: String,
    /// Width in pixels.
    pub width: u32,
    /// Height in pixels.
    pub height: u32,
    /// Whether this texture has alpha.
    pub has_alpha: bool,
    /// CRC32 for dedup.
    pub crc32: u32,
}

/// The atlases built for object LOD.
#[derive(Debug, Clone)]
pub struct ObjectAtlasResult {
    /// Atlas DDS files: (atlas_name, diffuse_dds, normal_dds)
    pub atlases: Vec<(String, Vec<u8>, Option<Vec<u8>>)>,
    /// Atlas map entries for LODGen.txt.
    pub atlas_map: Vec<AtlasMapEntry>,
    /// Atlas dimensions.
    pub atlas_width: u32,
    pub atlas_height: u32,
}

/// What an object LOD run produced.
#[derive(Debug, Clone)]
pub struct ObjectLodOutput {
    pub ref_count: usize,
    pub atlas_count: usize,
    pub lodgen_path: Option<String>,
}

/// What a tree LOD run produced.
#[derive(Debug, Clone)]
pub struct TreeLodOutput {
    pub lst_path: String,
    pub dtl_count: usize,
    pub total_refs: usize,
    pub tree_type_count: usize,
}

/// Basic DDS file information.
#[derive(Debug, Clone)]
pub struct DdsInfo {
    pub width: u32,
    pub height: u32,
    pub format: String,
    pub mipmap_count: u32,
}

/// The line of an atlas map entry: source texture, its width and height,
/// its position in the atlas, the atlas texture and the atlas width and
/// height, separated by tabs, then a line feed.
pub open spec fn atlas_map_line(e: AtlasMapEntry) -> Seq<char> {
    e.source_texture@ + seq!['\t'] + decimal(e.src_width as nat) + seq!['\t'] + decimal(
        e.src_height as nat,
    ) + seq!['\t'] + decimal(e.atlas_x as nat) + seq!['\t'] + decimal(e.atlas_y as nat) + seq!['\t']
        + e.atlas_texture@ + seq!['\t'] + decimal(e.atlas_width as nat) + seq!['\t'] + decimal(
        e.atlas_height as nat,
    ) + seq!['\n']
}

/// The atlas map file: one line per entry (see [`atlas_map_line`]).
pub open spec fn atlas_map(es: Seq<AtlasMapEntry>) -> Seq<char>
    decreases es.len(),
{
    if es.len() == 0 {
        seq![]
    } else {
        atlas_map(es.drop_last()) + atlas_map_line(es.last())
    }
}

/// The text of the texture atlas map file (see [`atlas_map`]).
pub fn atlas_map_text(entries: &[AtlasMapEntry]) -> (s: String)
    ensures
        s@ == atlas_map(entries@),
{
    let mut v: Vec<char> = Vec::new();
    let mut i: usize = 0;
    while i < entries.len()
        invariant
            i <= entries@.len(),
            v@ == atlas_map(entries@.take(i as int)),
        decreases entries.len() - i,
    {
        let e = &entries[i];
        let ghost before = v@;
        push_str(&mut v, e.source_texture.as_str());
        v.push('\t');
        push_decimal(&mut v, e.src_width as u64);
        v.push('\t');
        push_decimal(&mut v, e.src_height as u64);
        v.push('\t');
        push_decimal(&mut v, e.atlas_x as u64);
        v.push('\t');
        push_decimal(&mut v, e.atlas_y as u64);
        v.push('\t');
        push_str(&mut v, e.atlas_texture.as_str());
        v.push('\t');
        push_decimal(&mut v, e.atlas_width as u64);
        v.push('\t');
        push_decimal(&mut v, e.atlas_height as u64);
        v.push('\n');
        assert(entries@.take(i + 1).drop_last() =~= entries@.take(i as int));
        assert(v@ =~= before + atlas_map_line(*e));
        i = i + 1;
    }
    assert(entries@.take(i as int) =~= entries@);
    string_from_chars(v.as_slice())
}

/// A tree placement in a `.btt` file. Coordinates, rotation and scale are
/// `f32` bit patterns.
#[derive(Debug, Clone, Copy)]
pub struct BttEntry {
    pub x: u32,
    pub y: u32,
    pub z: u32,
    pub rotation: u32,
    pub scale: u32,
    pub tree_type_index: u32,
}

/// The 24 bytes of a placement: x, y, z, rotation, scale, tree type index,
/// each 4 bytes little-endian.
pub open spec fn btt_entry_bytes(e: BttEntry) -> Seq<u8> {
    u32_bytes(e.x) + u32_bytes(e.y) + u32_bytes(e.z) + u32_bytes(e.rotation) + u32_bytes(e.scale)
        + u32_bytes(e.tree_type_index)
}

/// The placements' bytes, in order.
pub open spec fn btt_entries_bytes(es: Seq<BttEntry>) -> Seq<u8>
    decreases es.len(),
{
    if es.len() == 0 {
        seq![]
    } else {
        btt_entries_bytes(es.drop_last()) + btt_entry_bytes(es.last())
    }
}

/// A `.btt` file: the entry count (u32, little-endian, truncated to 32
/// bits), then each entry (see [`btt_entry_bytes`]).
pub fn btt_bytes(entries: &[BttEntry]) -> (r: Vec<u8>)
    ensures
        r@ == u32_bytes(entries@.len() as u32) + btt_entries_bytes(entries@),
{
    let mut buf: Vec<u8> = Vec::new();
    push_u32(&mut buf, #[verifier::truncate] (entries.len() as u32));
    let ghost head = buf@;
    let mut i: usize = 0;
    while i < entries.len()
        invariant
            i <= entries@.len(),
            head == u32_bytes(entries@.len() as u32),
            buf@ == head + btt_entries_bytes(entries@.take(i as int)),
        decreases entries.len() - i,
    {
        let e = entries[i];
        let ghost before = buf@;
        push_u32(&mut buf, e.x);
        push_u32(&mut buf, e.y);
        push_u32(&mut buf, e.z);
        push_u32(&mut buf, e.rotation);
        push_u32(&mut buf, e.scale);
        push_u32(&mut buf, e.tree_type_index);
        assert(entries@.take(i + 1).drop_last() =~= entries@.take(i as int));
        assert(buf@ =~= before + btt_entry_bytes(e));
        i = i + 1;
    }
    assert(entries@.take(i as int) =~= entries@);
    buf
}

/// `s` with each occurrence of `from` replaced by `to`, scanning from the
/// left and not overlapping (`str::replace`); `from` is not empty.
pub open spec fn replace_all(s: Seq<char>, from: Seq<char>, to: Seq<char>) -> Seq<char>
    decreases s.len(),
{
    if s.len() == 0 || from.len() == 0 {
        s
    } else if from.len() <= s.len() && s.take(from.len() as int) == from {
        to + replace_all(s.skip(from.len() as int), from, to)
    } else {
        seq![s[0]] + replace_all(s.drop_first(), from, to)
    }
}

/// `s` with each occurrence of `from` replaced by `to` (see
/// [`replace_all`]).
fn replace_chars(s: &[char], from: &[char], to: &[char]) -> (r: Vec<char>)
    requires
        from@.len() > 0,
    ensures
        r@ == replace_all(s@, from@, to@),
{
    let mut out: Vec<char> = Vec::new();
    let mut i: usize = 0;
    assert(s@.len() == s.len() && from@.len() == from.len());
    assert(s@.skip(0) =~= s@);
    while i < s.len()
        invariant
            i <= s@.len(),
            from@.len() > 0,
            out@ + replace_all(s@.skip(i as int), from@, to@) == replace_all(s@, from@, to@),
        decreases s.len() - i,
    {
        let ghost rest = s@.skip(i as int);
        let mut matched = from.len() <= s.len() - i;
        let mut j: usize = 0;
        while matched && j < from.len()
            invariant
                s@.len() == s.len(),
                from@.len() == from.len(),
                i < s@.len(),
                rest == s@.skip(i as int),
                j <= from@.len(),
                matched ==> from@.len() <= s@.len() - i && forall|m: int| 0 <= m < j ==> s@[i + m]
                    == from@[m],
                !matched ==> !(from@.len() <= rest.len() && rest.take(from@.len() as int) == from@),
            decreases from.len() - j,
        {
            if s[i + j] != from[j] {
                assert(rest.take(from@.len() as int)[j as int] == s@[i + j]);
                matched = false;
            }
            j = j + 1;
        }
        if matched {
            assert(rest.take(from@.len() as int) =~= from@);
            assert(rest.skip(from@.len() as int) =~= s@.skip(i + from@.len()));
            let ghost before = out@;
            let mut k: usize = 0;
            while k < to.len()
                invariant
                    k <= to@.len(),
                    out@ == before + to@.take(k as int),
                decreases to.len() - k,
            {
                out.push(to[k]);
                assert(to@.take(k + 1) =~= to@.take(k as int).push(to@[k as int]));
                k = k + 1;
            }
            assert(to@.take(k as int) =~= to@);
            assert(out@ + replace_all(s@.skip(i + from@.len()), from@, to@) =~= before + (to@
                + replace_all(rest.skip(from@.len() as int), from@, to@)));
            i = i + from.len();
        } else {
            assert(rest.drop_first() =~= s@.skip(i + 1));
            let ghost before = out@;
            out.push(s[i]);
            assert(out@ + replace_all(s@.skip(i + 1), from@, to@) =~= before + (seq![rest[0]]
                + replace_all(rest.drop_first(), from@, to@)));
            i = i + 1;
        }
    }
    assert(s@.skip(i as int) =~= Seq::<char>::empty());
    assert(out@ + Seq::<char>::empty() =~= out@);
    out
}

/// The texture path of a LOD mesh: `meshes/` (and `meshes\`) replaced by
/// `textures/` (and `textures\`) throughout, and the extension (from the
/// last `.`) replaced by `.dds`, which is appended when there is none.
pub open spec fn spec_derive_texture_path(mesh: Seq<char>) -> Seq<char> {
    let p = replace_all(replace_all(mesh, "meshes/"@, "textures/"@), "meshes\\"@, "textures\\"@);
    if last_dot(p) >= 0 {
        p.take(last_dot(p)) + ".dds"@
    } else {
        p + ".dds"@
    }
}

/// The texture path of a LOD mesh (see [`spec_derive_texture_path`]).
pub fn derive_texture_path(mesh_path: &str) -> (r: String)
    ensures
        r@ == spec_derive_texture_path(mesh_path@),
{
    let m1 = chars_of("meshes/");
    let t1 = chars_of("textures/");
    let m2 = chars_of("meshes\\");
    let t2 = chars_of("textures\\");
    proof {
        reveal_strlit("meshes/");
        reveal_strlit("meshes\\");
    }
    let a = replace_chars(chars_of(mesh_path).as_slice(), m1.as_slice(), t1.as_slice());
    let p = replace_chars(a.as_slice(), m2.as_slice(), t2.as_slice());
    let mut k: usize = p.len();
    assert(p@.take(k as int) =~= p@);
    while k > 0 && p[k - 1] != '.'
        invariant
            k <= p@.len(),
            last_dot(p@) == last_dot(p@.take(k as int)),
        decreases k,
    {
        assert(p@.take(k as int).drop_last() =~= p@.take(k - 1));
        k = k - 1;
    }
    let mut v: Vec<char> = if k > 0 {
        assert(p@.take(k as int).last() == '.');
        sub_chars(p.as_slice(), 0, k - 1)
    } else {
        assert(p@.take(0) =~= Seq::<char>::empty());
        p
    };
    push_str(&mut v, ".dds");
    string_from_chars(v.as_slice())
}

} // verus!
