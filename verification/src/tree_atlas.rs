//! The tree billboard atlas: billboards with the same texture (by CRC-32 of
//! their DDS data) share one block; the blocks are packed into an atlas
//! that grows from 512 by 512 up to 8192 by 8192 with 2 pixels of padding,
//! each billboard is composited at its block, and the brightness is
//! adjusted. Loading textures, DDS (de)compression and texture
//! coordinates (floating point) are left to the caller.

use vstd::prelude::*;

use crate::bin_packer::{fit_with_growth, lemma_growth_bounded, paddable, spec_growth, BinBlock};
use crate::lod::{blit_rows, composite_rect, create_canvas};

verus! {

/// Largest atlas side.
pub const MAX_ATLAS_SIZE: u32 = 8192;

/// Padding between billboards in the atlas.
pub const ATLAS_PADDING: u32 = 2;

/// Smallest atlas side tried first.
pub const INITIAL_ATLAS_SIZE: u32 = 512;

/// The CRC-32 (IEEE) of some bytes, as `crc32fast::hash` computes it.
pub uninterp spec fn spec_crc32(d: Seq<u8>) -> u32;

/// `crc32fast::hash`: the CRC-32 checksum of the bytes. The result is
/// named by [`spec_crc32`]: a function of the bytes alone; the polynomial
/// arithmetic is left unsaid.
#[verifier::external_body]
fn crc32(data: &[u8]) -> (c: u32)
    ensures
        c == spec_crc32(data@),
{
    crc32fast::hash(data)
}

/// A billboard texture, decoded: its DDS data's CRC-32 (which identifies
/// equal textures), its size and its RGBA8 pixels.
#[derive(Debug)]
pub struct Billboard {
    pub crc32: u32,
    pub width: u32,
    pub height: u32,
    pub rgba: Vec<u8>,
}

impl Billboard {
    /// The billboard whose DDS data is `dds`, decoded to `rgba` of the given
    /// size.
    pub fn from_dds(dds: &[u8], rgba: Vec<u8>, width: u32, height: u32) -> (b: Billboard)
        ensures
            b.crc32 == spec_crc32(dds@),
            b.rgba == rgba,
            b.width == width,
            b.height == height,
    {
        Billboard { crc32: crc32(dds), width, height, rgba }
    }
}

/// Why no atlas was built.
#[derive(Debug, Clone, Copy, PartialEq, Eq, Structural)]
pub enum AtlasError {
    /// No billboard texture could be loaded.
    NoValidBillboards,
    /// The billboards do not fit even in the largest atlas.
    NotEnoughSpace,
}

impl AtlasError {
    /// The message of the error.
    pub fn to_display_string(&self) -> (s: String)
        ensures
            *self == AtlasError::NoValidBillboards ==> s@ == "No valid billboard textures found"@,
            *self == AtlasError::NotEnoughSpace ==> s@ == "Can't fit billboards on atlas, not enough space"@,
    {
        match self {
            AtlasError::NoValidBillboards => crate::text::owned_string("No valid billboard textures found"),
            AtlasError::NotEnoughSpace => crate::text::owned_string(
                "Can't fit billboards on atlas, not enough space",
            ),
        }
    }
}

/// Every billboard leaves room for the padding in 32-bit sizes.
pub open spec fn sizes_ok(bs: Seq<Billboard>) -> bool {
    forall|i: int|
        0 <= i < bs.len() ==> (#[trigger] bs[i]).width + ATLAS_PADDING <= u32::MAX && bs[i].height
            + ATLAS_PADDING <= u32::MAX
}

/// Whether an earlier billboard than the `i`-th has the same CRC-32.
pub open spec fn seen_before(bs: Seq<Billboard>, i: int) -> bool {
    exists|j: int| 0 <= j < i && bs[j].crc32 == bs[i].crc32
}

/// The blocks to pack: one per distinct CRC-32, for its first billboard
/// (index: the billboard's position, size: the billboard's), in order.
pub open spec fn unique_blocks(bs: Seq<Billboard>) -> Seq<BinBlock>
    decreases bs.len(),
{
    if bs.len() == 0 {
        seq![]
    } else {
        let prev = unique_blocks(bs.drop_last());
        let i = bs.len() - 1;
        if seen_before(bs, i) {
            prev
        } else {
            prev.push(
                BinBlock {
                    index: i as usize,
                    w: bs[i].width,
                    h: bs[i].height,
                    x: 0,
                    y: 0,
                    placed: false,
                },
            )
        }
    }
}

/// `j` is the first billboard with CRC-32 `c`.
pub open spec fn is_first_crc(bs: Seq<Billboard>, j: int, c: u32) -> bool {
    &&& 0 <= j < bs.len()
    &&& bs[j].crc32 == c
    &&& forall|k: int| 0 <= k < j ==> #[trigger] bs[k].crc32 != c
}

/// The first billboard with CRC-32 `c`.
pub open spec fn first_crc(bs: Seq<Billboard>, c: u32) -> int {
    choose|j: int| is_first_crc(bs, j, c)
}

/// The first billboard with a CRC-32 is unique.
proof fn lemma_first_crc(bs: Seq<Billboard>, j: int, c: u32)
    requires
        is_first_crc(bs, j, c),
    ensures
        first_crc(bs, c) == j,
{
    let f = choose|f: int| is_first_crc(bs, f, c);
    assert(is_first_crc(bs, f, c));
    if f < j {
        assert(bs[f].crc32 != c);
    }
    if f > j {
        assert(bs[j].crc32 != c);
    }
}

/// `k` is the first of `blocks` with index `j`.
pub open spec fn is_first_index(blocks: Seq<BinBlock>, k: int, j: int) -> bool {
    &&& 0 <= k < blocks.len()
    &&& blocks[k].index == j
    &&& forall|m: int| 0 <= m < k ==> #[trigger] blocks[m].index != j
}

/// The position of the first of `blocks` with index `j`, if any.
pub open spec fn block_with_index(blocks: Seq<BinBlock>, j: int) -> Option<int> {
    if exists|k: int| is_first_index(blocks, k, j) {
        Some(choose|k: int| is_first_index(blocks, k, j))
    } else {
        None
    }
}

/// The position of the first block with index `j` (see
/// [`block_with_index`]).
fn find_block(blocks: &Vec<BinBlock>, j: usize) -> (r: Option<usize>)
    ensures
        match r {
            Some(k) => block_with_index(blocks@, j as int) == Some(k as int),
            None => block_with_index(blocks@, j as int) is None,
        },
{
    let mut k: usize = 0;
    while k < blocks.len()
        invariant
            k <= blocks@.len(),
            forall|m: int| 0 <= m < k ==> #[trigger] blocks@[m].index != j,
        decreases blocks.len() - k,
    {
        if blocks[k].index == j {
            proof {
                let f = choose|f: int| is_first_index(blocks@, f, j as int);
                assert(is_first_index(blocks@, k as int, j as int));
                assert(is_first_index(blocks@, f, j as int));
                if f < k {
                    assert(blocks@[f].index != j);
                }
                if f > k {
                    assert(blocks@[k as int].index != j);
                }
            }
            return Some(k);
        }
        k = k + 1;
    }
    proof {
        if exists|f: int| is_first_index(blocks@, f, j as int) {
            let f = choose|f: int| is_first_index(blocks@, f, j as int);
            assert(blocks@[f].index != j);
        }
    }
    None
}

/// Where billboard `i` is drawn: the block whose index is the first
/// billboard with the same CRC-32.
pub open spec fn billboard_block(bs: Seq<Billboard>, packed: Seq<BinBlock>, i: int) -> Option<int> {
    block_with_index(packed, first_crc(bs, bs[i].crc32))
}

/// The position of billboard `i` in the atlas (see [`billboard_block`]).
pub open spec fn spec_position(bs: Seq<Billboard>, packed: Seq<BinBlock>, i: int) -> Option<(u32, u32)> {
    match billboard_block(bs, packed, i) {
        Some(k) => Some((packed[k].x, packed[k].y)),
        None => None,
    }
}

/// Whether a `bw`-by-`bh` image can be composited at (`x`, `y`) on a
/// canvas `w` pixels wide without arithmetic overflow.
pub open spec fn blit_ok(w: u32, bw: u32, bh: u32, x: u32, y: u32) -> bool {
    &&& w * 4 <= u32::MAX
    &&& bw * 4 <= u32::MAX
    &&& y + bh <= u32::MAX
    &&& (y + bh) * (w * 4) + x * 4 + bw * 4 <= usize::MAX
    &&& bh * (bw * 4) + bw * 4 <= usize::MAX
}

/// The canvas after compositing the first `n` billboards, in order, each
/// at its block (see [`billboard_block`], [`blit_rows`]), from `base`.
pub open spec fn atlas_canvas(bs: Seq<Billboard>, packed: Seq<BinBlock>, w: u32, n: int, base: Seq<u8>) -> Seq<u8>
    decreases n,
{
    if n <= 0 {
        base
    } else {
        let c = atlas_canvas(bs, packed, w, n - 1, base);
        let b = bs[n - 1];
        match billboard_block(bs, packed, n - 1) {
            Some(k) => if blit_ok(w, b.width, b.height, packed[k].x, packed[k].y) {
                blit_rows(c, w as int, b.rgba@, b.width as int, packed[k].x as int, packed[k].y as int, b.height as int)
            } else {
                c
            },
            None => c,
        }
    }
}

/// A byte value clamped to 0..=255.
pub open spec fn clamp_byte(v: int) -> u8 {
    if v < 0 {
        0
    } else if v > 255 {
        255
    } else {
        v as u8
    }
}

/// RGBA8 pixels with `b` added to the red, green and blue channels of each
/// whole pixel (clamped); alpha is kept.
pub open spec fn brightened(c: Seq<u8>, b: int) -> Seq<u8> {
    Seq::new(c.len(), |i: int| if i % 4 < 3 && i - i % 4 + 4 <= c.len() { clamp_byte(c[i] + b) } else { c[i] })
}

/// Add `brightness` to the colour channels of each pixel (see
/// [`brightened`]).
fn apply_brightness(rgba: &mut Vec<u8>, brightness: i32)
    ensures
        final(rgba)@ == brightened(old(rgba)@, brightness as int),
{
    let ghost orig = rgba@;
    let n = rgba.len();
    let mut p: usize = 0;
    while 4 <= n - p
        invariant
            n == orig.len(),
            rgba@.len() == n,
            p % 4 == 0,
            p <= n,
            forall|i: int| 0 <= i < p ==> rgba@[i] == brightened(orig, brightness as int)[i],
            forall|i: int| p <= i < n ==> rgba@[i] == orig[i],
        decreases n - p,
    {
        let mut c: usize = 0;
        while c < 3
            invariant
                n == orig.len(),
                rgba@.len() == n,
                p % 4 == 0,
                p + 4 <= n,
                c <= 3,
                forall|i: int| 0 <= i < p + c ==> rgba@[i] == brightened(orig, brightness as int)[i],
                forall|i: int| p + c <= i < n ==> rgba@[i] == orig[i],
            decreases 3 - c,
        {
            let v: i64 = rgba[p + c] as i64 + brightness as i64;
            let nv: u8 = if v < 0 {
                0
            } else if v > 255 {
                255
            } else {
                v as u8
            };
            rgba.set(p + c, nv);
            assert((p + c) as int % 4 == c as int);
            c = c + 1;
        }
        assert((p + 3) as int % 4 == 3);
        p = p + 4;
    }
    assert forall|i: int| p <= i < n implies rgba@[i] == brightened(orig, brightness as int)[i] by {
        assert(i - i % 4 + 4 > n);
    }
    assert(rgba@ =~= brightened(orig, brightness as int));
}

/// The blocks of the billboards, found by their first billboard.
fn build_unique_blocks(bs: &[Billboard]) -> (v: Vec<BinBlock>)
    requires
        sizes_ok(bs@),
    ensures
        v@ == unique_blocks(bs@),
        paddable(v@, ATLAS_PADDING, ATLAS_PADDING),
{
    let mut v: Vec<BinBlock> = Vec::new();
    let mut i: usize = 0;
    while i < bs.len()
        invariant
            i <= bs@.len(),
            sizes_ok(bs@),
            paddable(v@, ATLAS_PADDING, ATLAS_PADDING),
            v@ == unique_blocks(bs@.take(i as int)),
        decreases bs.len() - i,
    {
        let c = bs[i].crc32;
        let mut j: usize = 0;
        let mut seen = false;
        while j < i
            invariant
                i < bs@.len(),
                j <= i,
                c == bs@[i as int].crc32,
                seen == exists|k: int| 0 <= k < j && bs@[k].crc32 == c,
            decreases i - j,
        {
            if bs[j].crc32 == c {
                seen = true;
            }
            j = j + 1;
        }
        let ghost t = bs@.take(i + 1);
        proof {
            assert(t.drop_last() =~= bs@.take(i as int));
            assert(seen == seen_before(t, i as int)) by {
                if seen {
                    let k = choose|k: int| 0 <= k < i && bs@[k].crc32 == c;
                    assert(t[k] == bs@[k]);
                }
                if seen_before(t, i as int) {
                    let k = choose|k: int| 0 <= k < i && t[k].crc32 == t[i as int].crc32;
                    assert(t[k] == bs@[k]);
                }
            }
        }
        if !seen {
            let ghost before = v@;
            v.push(BinBlock { index: i, w: bs[i].width, h: bs[i].height, x: 0, y: 0, placed: false });
            assert forall|k: int| 0 <= k < v@.len() implies (#[trigger] v@[k]).w + ATLAS_PADDING
                <= u32::MAX && v@[k].h + ATLAS_PADDING <= u32::MAX by {
                if k < before.len() {
                    assert(v@[k] == before[k]);
                }
            }
        }
        i = i + 1;
    }
    assert(bs@.take(i as int) =~= bs@);
    v
}


/// Whether a blit stays clear of overflow (see [`blit_ok`]).
fn blit_fits(w: u32, bw: u32, bh: u32, x: u32, y: u32) -> (ok: bool)
    ensures
        ok == blit_ok(w, bw, bh, x, y),
{
    let w4 = (w as u64) * 4;
    let bw4 = (bw as u64) * 4;
    let rows = (y as u64) + (bh as u64);
    if w4 > 0xffff_ffff || bw4 > 0xffff_ffff || rows > 0xffff_ffff {
        return false;
    }
    assert(rows * w4 <= 0xffff_ffff * 0xffff_ffff) by (nonlinear_arith)
        requires
            rows <= 0xffff_ffff,
            w4 <= 0xffff_ffff,
    ;
    let a = (rows as u128) * (w4 as u128);
    assert(bh * bw4 <= 0xffff_ffff * 0xffff_ffff) by (nonlinear_arith)
        requires
            bh <= 0xffff_ffff,
            bw4 <= 0xffff_ffff,
    ;
    let c = (bh as u128) * (bw4 as u128);
    a + (x as u128) * 4 + bw4 as u128 <= usize::MAX as u128 && c + bw4 as u128 <= usize::MAX as u128
}

/// A tree billboard atlas: its size, the packed blocks, where each
/// billboard is drawn, and the RGBA8 pixels.
#[derive(Debug)]
pub struct TreeAtlas {
    pub width: u32,
    pub height: u32,
    pub blocks: Vec<BinBlock>,
    /// Per billboard, the top-left corner of its block.
    pub positions: Vec<Option<(u32, u32)>>,
    pub canvas: Vec<u8>,
}

/// The atlas pixels: every billboard composited at its block on a blank
/// canvas (see [`atlas_canvas`]), then, with a nonzero brightness, the
/// brightness applied (see [`brightened`]).
pub open spec fn spec_atlas_pixels(bs: Seq<Billboard>, packed: Seq<BinBlock>, w: u32, h: u32, brightness: i32) -> Seq<u8> {
    let c = atlas_canvas(bs, packed, w, bs.len() as int, Seq::new((w * h * 4) as nat, |i: int| 0u8));
    if brightness != 0 {
        brightened(c, brightness as int)
    } else {
        c
    }
}

/// Lay out the tree billboard atlas. No billboards: `NoValidBillboards`.
/// Otherwise one block per distinct CRC-32 (see [`unique_blocks`]) is
/// packed with growth from 512 by 512 up to 8192 by 8192, padding 2 (see
/// [`spec_growth`]); when they do not fit, `NotEnoughSpace`; else the
/// atlas of that size, with each billboard's position (see
/// [`spec_position`]) and the pixels (see [`spec_atlas_pixels`]).
pub fn tree_atlas_layout(billboards: &[Billboard], brightness: i32) -> (r: Result<TreeAtlas, AtlasError>)
    requires
        sizes_ok(billboards@),
    ensures
        billboards@.len() == 0 ==> r == Err::<TreeAtlas, AtlasError>(AtlasError::NoValidBillboards),
        billboards@.len() > 0 ==> {
            let g = spec_growth(
                unique_blocks(billboards@),
                INITIAL_ATLAS_SIZE,
                INITIAL_ATLAS_SIZE,
                MAX_ATLAS_SIZE,
                MAX_ATLAS_SIZE,
                ATLAS_PADDING,
                ATLAS_PADDING,
            );
            match g.0 {
                None => r == Err::<TreeAtlas, AtlasError>(AtlasError::NotEnoughSpace),
                Some(size) => r matches Ok(a) && {
                    &&& a.width == size.0
                    &&& a.height == size.1
                    &&& a.blocks@ == g.1
                    &&& a.positions@.len() == billboards@.len()
                    &&& forall|i: int|
                        0 <= i < billboards@.len() ==> #[trigger] a.positions@[i] == spec_position(
                            billboards@,
                            g.1,
                            i,
                        )
                    &&& a.canvas@ == spec_atlas_pixels(billboards@, g.1, size.0, size.1, brightness)
                },
            }
        },
{
    if billboards.len() == 0 {
        return Err(AtlasError::NoValidBillboards);
    }
    let ghost bs = billboards@;
    let mut blocks = build_unique_blocks(billboards);
    let ghost g = spec_growth(
        unique_blocks(bs),
        INITIAL_ATLAS_SIZE,
        INITIAL_ATLAS_SIZE,
        MAX_ATLAS_SIZE,
        MAX_ATLAS_SIZE,
        ATLAS_PADDING,
        ATLAS_PADDING,
    );
    proof {
        lemma_growth_bounded(
            unique_blocks(bs),
            INITIAL_ATLAS_SIZE,
            INITIAL_ATLAS_SIZE,
            MAX_ATLAS_SIZE,
            MAX_ATLAS_SIZE,
            ATLAS_PADDING,
            ATLAS_PADDING,
        );
    }
    let (w, h) = match fit_with_growth(
        &mut blocks,
        INITIAL_ATLAS_SIZE,
        INITIAL_ATLAS_SIZE,
        MAX_ATLAS_SIZE,
        MAX_ATLAS_SIZE,
        ATLAS_PADDING,
        ATLAS_PADDING,
    ) {
        Some(size) => size,
        None => return Err(AtlasError::NotEnoughSpace),
    };
    assert(w <= 8192 && h <= 8192);
    assert(w * h * 4 <= 8192 * 8192 * 4) by (nonlinear_arith)
        requires
            w <= 8192,
            h <= 8192,
    ;
    let ghost packed = blocks@;
    let mut canvas = create_canvas(w, h);
    assert(canvas@ =~= Seq::new((w * h * 4) as nat, |i: int| 0u8));
    let ghost base = canvas@;
    let mut positions: Vec<Option<(u32, u32)>> = Vec::new();
    let mut i: usize = 0;
    while i < billboards.len()
        invariant
            i <= bs.len(),
            bs == billboards@,
            packed == blocks@,
            base == Seq::new((w * h * 4) as nat, |i: int| 0u8),
            positions@.len() == i,
            forall|j: int| 0 <= j < i ==> #[trigger] positions@[j] == spec_position(bs, packed, j),
            canvas@ == atlas_canvas(bs, packed, w, i as int, base),
        decreases billboards.len() - i,
    {
        let b = &billboards[i];
        let c = b.crc32;
        let mut j: usize = 0;
        while billboards[j].crc32 != c
            invariant
                i < bs.len(),
                bs == billboards@,
                j <= i,
                c == bs[i as int].crc32,
                forall|k: int| 0 <= k < j ==> #[trigger] bs[k].crc32 != c,
            decreases i - j,
        {
            j = j + 1;
        }
        proof {
            lemma_first_crc(bs, j as int, c);
        }
        let pos = match find_block(&blocks, j) {
            Some(k) => {
                let x = blocks[k].x;
                let y = blocks[k].y;
                let ok = blit_fits(w, b.width, b.height, x, y);
                assert(ok == blit_ok(w, b.width, b.height, x, y));
                if ok {
                    composite_rect(&mut canvas, w, b.rgba.as_slice(), b.width, b.height, x, y);
                }
                Some((x, y))
            },
            None => None,
        };
        positions.push(pos);
        i = i + 1;
    }
    if brightness != 0 {
        apply_brightness(&mut canvas, brightness);
    }
    Ok(TreeAtlas { width: w, height: h, blocks, positions, canvas })
}

} // verus!
