//! Binary space partition texture packer for atlas layout, with the
//! MaxSideSort heuristic: blocks are placed largest side first.
//!
//! Every free region of the partition tree is a rectangle; placing a block
//! in a free region at its top-left corner splits the rest of the region
//! into the space to the right of the block (as tall as the block) and the
//! space below it (as wide as the region).

use vstd::prelude::*;

verus! {

/// A block to be packed into the atlas.
#[derive(Debug, Clone)]
pub struct BinBlock {
    /// User-supplied index for identifying this block after packing.
    pub index: usize,
    /// Width of the block.
    pub w: u32,
    /// Height of the block.
    pub h: u32,
    /// Packed X position (filled by `fit()`).
    pub x: u32,
    /// Packed Y position (filled by `fit()`).
    pub y: u32,
    /// Whether this block was successfully placed.
    pub placed: bool,
}

/// BSP node for the packing tree.
struct BinNode {
    used: bool,
    x: u32,
    y: u32,
    w: u32,
    h: u32,
    down: Option<Box<BinNode>>,
    right: Option<Box<BinNode>>,
}

/// A rectangle: x, y, width, height.
pub type Rect = (int, int, int, int);

/// Whether two rectangles share an area: they overlap on both axes, and
/// neither is empty.
pub open spec fn overlap(a: Rect, b: Rect) -> bool {
    &&& a.0 < b.0 + b.2
    &&& b.0 < a.0 + a.2
    &&& a.1 < b.1 + b.3
    &&& b.1 < a.1 + a.3
    &&& a.2 > 0
    &&& b.2 > 0
    &&& a.3 > 0
    &&& b.3 > 0
}

/// Whether rectangle `a` lies within rectangle `b`.
pub open spec fn within(a: Rect, b: Rect) -> bool {
    &&& b.0 <= a.0
    &&& b.1 <= a.1
    &&& a.2 >= 0
    &&& a.3 >= 0
    &&& a.0 + a.2 <= b.0 + b.2
    &&& a.1 + a.3 <= b.1 + b.3
}

/// A rectangle within `a` shares no area with what `a` shares none with.
pub proof fn lemma_within_no_overlap(a: Rect, s: Rect, b: Rect)
    requires
        within(s, a),
        !overlap(a, b),
    ensures
        !overlap(s, b),
{
}

/// The rectangle of a node.
spec fn node_rect(n: BinNode) -> Rect {
    (n.x as int, n.y as int, n.w as int, n.h as int)
}

/// The free rectangles of a tree: its unused nodes, right before down.
spec fn free_rects(n: BinNode) -> Seq<Rect>
    decreases n,
{
    if !n.used {
        seq![node_rect(n)]
    } else {
        let r = match n.right {
            Some(b) => free_rects(*b),
            None => seq![],
        };
        let d = match n.down {
            Some(b) => free_rects(*b),
            None => seq![],
        };
        r + d
    }
}

/// The free rectangles of an optional subtree.
spec fn opt_free(o: Option<Box<BinNode>>) -> Seq<Rect> {
    match o {
        Some(b) => free_rects(*b),
        None => seq![],
    }
}

/// A tree whose unused nodes are leaves and whose coordinates can be
/// added without overflow.
spec fn tree_ok(n: BinNode) -> bool
    decreases n,
{
    &&& n.x + n.w <= u32::MAX
    &&& n.y + n.h <= u32::MAX
    &&& !n.used ==> n.right is None && n.down is None
    &&& match n.right {
        Some(b) => tree_ok(*b),
        None => true,
    }
    &&& match n.down {
        Some(b) => tree_ok(*b),
        None => true,
    }
}

/// The space to the right of a `w`-by-`h` block placed in the top-left
/// corner of `l`.
pub open spec fn right_of(l: Rect, w: int, h: int) -> Rect {
    (l.0 + w, l.1, l.2 - w, h)
}

/// The space below a `w`-by-`h` block placed in the top-left corner of `l`.
pub open spec fn below(l: Rect, h: int) -> Rect {
    (l.0, l.1 + h, l.2, l.3 - h)
}

/// What placing a `w`-by-`h` block does to the free rectangles `f`: the
/// `k`-th, which is large enough and whose corner is `pos`, is replaced by
/// the space to the right of the block and the space below it.
pub open spec fn split_at(f: Seq<Rect>, g: Seq<Rect>, k: int, w: int, h: int, pos: (u32, u32)) -> bool {
    &&& 0 <= k < f.len()
    &&& f[k].2 >= w
    &&& f[k].3 >= h
    &&& pos.0 == f[k].0
    &&& pos.1 == f[k].1
    &&& g == f.take(k) + seq![right_of(f[k], w, h), below(f[k], h)] + f.skip(k + 1)
}

/// Whether a `w`-by-`h` block fits in rectangle `r`.
pub open spec fn fits(r: Rect, w: int, h: int) -> bool {
    r.2 >= w && r.3 >= h
}

/// `k` is the first of the rectangles `f` that a `w`-by-`h` block fits in.
pub open spec fn is_first_fit(f: Seq<Rect>, k: int, w: int, h: int) -> bool {
    &&& 0 <= k < f.len()
    &&& fits(f[k], w, h)
    &&& forall|j: int| 0 <= j < k ==> !fits(#[trigger] f[j], w, h)
}

/// The first of the rectangles `f` that a `w`-by-`h` block fits in, if any.
pub open spec fn first_fit(f: Seq<Rect>, w: int, h: int) -> Option<int> {
    if exists|k: int| is_first_fit(f, k, w, h) {
        Some(choose|k: int| is_first_fit(f, k, w, h))
    } else {
        None
    }
}

/// The first fit is unique.
proof fn lemma_first_fit(f: Seq<Rect>, k: int, w: int, h: int)
    requires
        is_first_fit(f, k, w, h),
    ensures
        first_fit(f, w, h) == Some(k),
{
    let c = choose|c: int| is_first_fit(f, c, w, h);
    assert(is_first_fit(f, c, w, h));
    if c < k {
        assert(!fits(f[c], w, h));
    }
    if c > k {
        assert(!fits(f[k], w, h));
    }
}

/// With no rectangle large enough there is no first fit.
proof fn lemma_no_fit(f: Seq<Rect>, w: int, h: int)
    requires
        forall|j: int| 0 <= j < f.len() ==> !fits(#[trigger] f[j], w, h),
    ensures
        first_fit(f, w, h) is None,
{
    if exists|k: int| is_first_fit(f, k, w, h) {
        let c = choose|c: int| is_first_fit(f, c, w, h);
        assert(fits(f[c], w, h));
    }
}

/// The free rectangles after placing a `w`-by-`h` block in the `k`-th.
pub open spec fn split_free(f: Seq<Rect>, k: int, w: int, h: int) -> Seq<Rect> {
    f.take(k) + seq![right_of(f[k], w, h), below(f[k], h)] + f.skip(k + 1)
}

/// The packer's placement: each block in turn goes to the top-left corner
/// of the first free rectangle its padded size fits in (see
/// [`first_fit`]), which is split (see [`split_free`]); a block that fits
/// nowhere is left unplaced. Starts from the free rectangles `free`;
/// gives the blocks and the free rectangles left.
pub open spec fn spec_pack(free: Seq<Rect>, bs: Seq<BinBlock>, px: u32, py: u32) -> (Seq<BinBlock>, Seq<Rect>)
    decreases bs.len(),
{
    if bs.len() == 0 {
        (seq![], free)
    } else {
        let prev = spec_pack(free, bs.drop_last(), px, py);
        let f = prev.1;
        let b = bs.last();
        let w = b.w + px;
        let h = b.h + py;
        match first_fit(f, w, h) {
            Some(k) => (
                prev.0.push(
                    BinBlock {
                        index: b.index,
                        w: b.w,
                        h: b.h,
                        x: f[k].0 as u32,
                        y: f[k].1 as u32,
                        placed: true,
                    },
                ),
                split_free(f, k, w, h),
            ),
            None => (
                prev.0.push(BinBlock { index: b.index, w: b.w, h: b.h, x: b.x, y: b.y, placed: false }),
                f,
            ),
        }
    }
}

impl BinNode {
    fn new(x: u32, y: u32, w: u32, h: u32) -> (n: Self)
        ensures
            !n.used,
            n.x == x && n.y == y && n.w == w && n.h == h,
            n.down is None && n.right is None,
    {
        BinNode { used: false, x, y, w, h, down: None, right: None }
    }
}

/// Find a free node that can hold a `w`-by-`h` block, searching the right
/// child of a used node before its down child, and split it.
fn find_and_split(node: BinNode, w: u32, h: u32) -> (res: (BinNode, Option<(u32, u32)>, Ghost<int>))
    requires
        tree_ok(node),
    ensures
        tree_ok(res.0),
        res.1 is None ==> free_rects(res.0) == free_rects(node),
        res.1 is None ==> forall|j: int|
            0 <= j < free_rects(node).len() ==> !fits(#[trigger] free_rects(node)[j], w as int, h as int),
        res.1 matches Some(pos) ==> is_first_fit(free_rects(node), res.2@, w as int, h as int),
        res.1 matches Some(pos) ==> split_at(
            free_rects(node),
            free_rects(res.0),
            res.2@,
            w as int,
            h as int,
            pos,
        ),
    decreases node,
{
    let ghost old_node = node;
    let BinNode { used, x, y, w: nw, h: nh, down, right } = node;
    if used {
        let ghost fr = opt_free(right);
        let ghost fd = opt_free(down);
        assert(free_rects(old_node) == fr + fd);
        let mut right = right;
        if let Some(rb) = right.take() {
            let (r2, pos, gk) = find_and_split(*rb, w, h);
            match pos {
                Some(p) => {
                    let n2 = BinNode { used, x, y, w: nw, h: nh, down, right: Some(Box::new(r2)) };
                    let ghost k = gk@;
                    proof {
                        assert(free_rects(n2) == free_rects(r2) + fd);
                        assert(split_at(free_rects(old_node), free_rects(n2), k, w as int, h as int, p)) by {
                            assert((fr + fd)[k] == fr[k]);
                            assert(free_rects(n2) =~= (fr + fd).take(k) + seq![
                                right_of(fr[k], w as int, h as int),
                                below(fr[k], h as int),
                            ] + (fr + fd).skip(k + 1));
                        }
                        assert(old_node == node);
                    }
                    return (n2, Some(p), Ghost(k));
                },
                None => {
                    right = Some(Box::new(r2));
                },
            }
        }
        if let Some(db) = down {
            let (d2, pos, gk) = find_and_split(*db, w, h);
            let n2 = BinNode { used, x, y, w: nw, h: nh, down: Some(Box::new(d2)), right };
            let ghost k2 = fr.len() + gk@;
            proof {
                assert(free_rects(n2) == fr + free_rects(d2));
                if let Some(p) = pos {
                    let k = gk@;
                    assert(split_at(free_rects(old_node), free_rects(n2), k2, w as int, h as int, p)) by {
                        assert((fr + fd)[k2] == fd[k]);
                        assert(free_rects(n2) =~= (fr + fd).take(k2) + seq![
                            right_of(fd[k], w as int, h as int),
                            below(fd[k], h as int),
                        ] + (fr + fd).skip(k2 + 1));
                    }
                }
                assert(old_node == node);
            }
            return (n2, pos, Ghost(k2));
        }
        let n2 = BinNode { used, x, y, w: nw, h: nh, down: None, right };
        assert(free_rects(n2) =~= free_rects(old_node));
        (n2, None, Ghost(0))
    } else if w <= nw && h <= nh {
        let d = BinNode::new(x, y + h, nw, nh - h);
        let r = BinNode::new(x + w, y, nw - w, h);
        let n2 = BinNode {
            used: true,
            x,
            y,
            w: nw,
            h: nh,
            down: Some(Box::new(d)),
            right: Some(Box::new(r)),
        };
        proof {
            let l = node_rect(old_node);
            assert(free_rects(old_node) == seq![l]);
            assert(free_rects(r) == seq![node_rect(r)]);
            assert(free_rects(d) == seq![node_rect(d)]);
            assert(tree_ok(r));
            assert(tree_ok(d));
            assert(free_rects(n2) == seq![node_rect(r)] + seq![node_rect(d)]);
            assert(split_at(free_rects(old_node), free_rects(n2), 0, w as int, h as int, (x, y))) by {
                assert(free_rects(n2) =~= seq![l].take(0) + seq![
                    right_of(l, w as int, h as int),
                    below(l, h as int),
                ] + seq![l].skip(1));
            }
        }
        (n2, Some((x, y)), Ghost(0))
    } else {
        let n2 = BinNode { used, x, y, w: nw, h: nh, down, right };
        (n2, None, Ghost(0))
    }
}

/// The larger side of a block.
pub open spec fn max_side(b: BinBlock) -> u32 {
    if b.w >= b.h {
        b.w
    } else {
        b.h
    }
}

/// Where a block goes in a list sorted by decreasing larger side: before
/// the first block with a smaller larger side (after all equal ones).
pub open spec fn desc_pos(s: Seq<BinBlock>, b: BinBlock) -> int
    decreases s.len(),
{
    if s.len() == 0 {
        0
    } else if max_side(s[0]) < max_side(b) {
        0
    } else {
        1 + desc_pos(s.drop_first(), b)
    }
}

/// The blocks sorted by decreasing larger side, equal ones in their
/// original order (a stable sort).
pub open spec fn sort_desc(s: Seq<BinBlock>) -> Seq<BinBlock>
    decreases s.len(),
{
    if s.len() == 0 {
        seq![]
    } else {
        let t = sort_desc(s.drop_last());
        t.insert(desc_pos(t, s.last()), s.last())
    }
}

proof fn lemma_desc_pos(s: Seq<BinBlock>, b: BinBlock)
    ensures
        0 <= desc_pos(s, b) <= s.len(),
        forall|j: int| 0 <= j < desc_pos(s, b) ==> max_side(#[trigger] s[j]) >= max_side(b),
        desc_pos(s, b) < s.len() ==> max_side(s[desc_pos(s, b)]) < max_side(b),
    decreases s.len(),
{
    if s.len() > 0 && max_side(s[0]) >= max_side(b) {
        lemma_desc_pos(s.drop_first(), b);
        assert forall|j: int| 0 <= j < desc_pos(s, b) implies max_side(#[trigger] s[j]) >= max_side(
            b,
        ) by {
            if j > 0 {
                assert(s[j] == s.drop_first()[j - 1]);
            }
        }
    }
}

/// Sorting keeps the blocks: the sorted list has the same length, and each
/// of its blocks is one of the list's.
proof fn lemma_sort_desc_elems(s: Seq<BinBlock>)
    ensures
        sort_desc(s).len() == s.len(),
        forall|k: int| 0 <= k < s.len() ==> s.contains(#[trigger] sort_desc(s)[k]),
    decreases s.len(),
{
    if s.len() > 0 {
        let q = s.drop_last();
        let t = sort_desc(q);
        lemma_sort_desc_elems(q);
        lemma_desc_pos(t, s.last());
        let p = desc_pos(t, s.last());
        assert forall|k: int| 0 <= k < s.len() implies s.contains(#[trigger] sort_desc(s)[k]) by {
            let x = sort_desc(s)[k];
            if k < p {
                assert(x == t[k]);
                let j = choose|j: int| 0 <= j < q.len() && q[j] == t[k];
                assert(s[j] == x);
            } else if k == p {
                assert(x == s.last());
                assert(s[s.len() - 1] == x);
            } else {
                assert(x == t[k - 1]);
                let j = choose|j: int| 0 <= j < q.len() && q[j] == t[k - 1];
                assert(s[j] == x);
            }
        }
    }
}

/// The rectangle a placed block occupies with padding.
pub open spec fn padded(b: BinBlock, px: u32, py: u32) -> Rect {
    (b.x as int, b.y as int, b.w + px, b.h + py)
}

/// The atlas rectangle.
pub open spec fn atlas(w: u32, h: u32) -> Rect {
    (0, 0, w as int, h as int)
}

/// Free rectangles inside the atlas that share no area with each other.
pub open spec fn free_ok(fs: Seq<Rect>, aw: u32, ah: u32) -> bool {
    &&& forall|i: int| 0 <= i < fs.len() ==> within(#[trigger] fs[i], atlas(aw, ah))
    &&& forall|i: int, j: int|
        0 <= i < fs.len() && 0 <= j < fs.len() && i != j ==> !overlap(
            #[trigger] fs[i],
            #[trigger] fs[j],
        )
}

/// The placed blocks among `bs` lie in the atlas, share no area with each
/// other, nor with the free rectangles `fs`.
pub open spec fn placed_ok(bs: Seq<BinBlock>, fs: Seq<Rect>, aw: u32, ah: u32, px: u32, py: u32) -> bool {
    &&& forall|k: int|
        0 <= k < bs.len() && (#[trigger] bs[k]).placed ==> within(
            padded(bs[k], px, py),
            atlas(aw, ah),
        )
    &&& forall|k: int, m: int|
        0 <= k < bs.len() && 0 <= m < bs.len() && k != m && (#[trigger] bs[k]).placed && (
        #[trigger] bs[m]).placed ==> !overlap(padded(bs[k], px, py), padded(bs[m], px, py))
    &&& forall|k: int, j: int|
        0 <= k < bs.len() && 0 <= j < fs.len() && (#[trigger] bs[k]).placed ==> !overlap(
            padded(bs[k], px, py),
            #[trigger] fs[j],
        )
}

/// Placing a block in a free rectangle keeps the free rectangles and the
/// placed blocks apart and inside the atlas.
proof fn lemma_place(
    bs: Seq<BinBlock>,
    fs: Seq<Rect>,
    fs2: Seq<Rect>,
    k: int,
    nb: BinBlock,
    aw: u32,
    ah: u32,
    px: u32,
    py: u32,
)
    requires
        free_ok(fs, aw, ah),
        placed_ok(bs, fs, aw, ah, px, py),
        nb.placed,
        split_at(fs, fs2, k, nb.w + px, nb.h + py, (nb.x, nb.y)),
    ensures
        free_ok(fs2, aw, ah),
        placed_ok(bs.push(nb), fs2, aw, ah, px, py),
{
    let l = fs[k];
    let bw = nb.w + px;
    let bh = nb.h + py;
    let p = padded(nb, px, py);
    let r = right_of(l, bw, bh);
    let d = below(l, bh);
    assert(within(p, l));
    assert(within(r, l));
    assert(within(d, l));
    assert(within(l, atlas(aw, ah)));
    let n = fs.len();
    // Each new free rectangle is an old one, or lies within `l`.
    assert forall|j: int| 0 <= j < fs2.len() implies (j < k && fs2[j] == fs[j]) || (j == k
        && fs2[j] == r) || (j == k + 1 && fs2[j] == d) || (j > k + 1 && fs2[j] == fs[j - 1]) by {
        if j < k {
            assert(fs2[j] == fs.take(k)[j]);
        } else if j > k + 1 {
            assert(fs2[j] == fs.skip(k + 1)[j - k - 2]);
        }
    }
    assert(fs2.len() == n + 1);
    assert forall|i: int| 0 <= i < fs2.len() implies within(#[trigger] fs2[i], atlas(aw, ah)) by {
        if i < k {
        } else if i == k || i == k + 1 {
        } else {
            assert(fs2[i] == fs[i - 1]);
        }
    }
    assert forall|i: int, j: int|
        0 <= i < fs2.len() && 0 <= j < fs2.len() && i != j implies !overlap(
        #[trigger] fs2[i],
        #[trigger] fs2[j],
    ) by {
        let oi = if i < k {
            i
        } else {
            i - 1
        };
        let oj = if j < k {
            j
        } else {
            j - 1
        };
        if (i == k || i == k + 1) && (j == k || j == k + 1) {
        } else if i == k || i == k + 1 {
            assert(fs2[j] == fs[oj]);
            assert(!overlap(l, fs[oj]));
            lemma_within_no_overlap(l, fs2[i], fs[oj]);
        } else if j == k || j == k + 1 {
            assert(fs2[i] == fs[oi]);
            assert(!overlap(l, fs[oi]));
            lemma_within_no_overlap(l, fs2[j], fs[oi]);
        } else {
            assert(fs2[i] == fs[oi]);
            assert(fs2[j] == fs[oj]);
        }
    }
    let bs2 = bs.push(nb);
    assert(bs2[bs.len() as int] == nb);
    assert forall|m: int|
        0 <= m < bs2.len() && (#[trigger] bs2[m]).placed implies within(
        padded(bs2[m], px, py),
        atlas(aw, ah),
    ) by {
        if m < bs.len() {
            assert(bs2[m] == bs[m]);
        }
    }
    assert forall|a: int, b: int|
        0 <= a < bs2.len() && 0 <= b < bs2.len() && a != b && (#[trigger] bs2[a]).placed && (
        #[trigger] bs2[b]).placed implies !overlap(padded(bs2[a], px, py), padded(bs2[b], px, py)) by {
        if a < bs.len() && b < bs.len() {
            assert(bs2[a] == bs[a] && bs2[b] == bs[b]);
        } else if a < bs.len() {
            assert(bs2[a] == bs[a]);
            assert(!overlap(padded(bs[a], px, py), fs[k]));
            lemma_within_no_overlap(l, p, padded(bs[a], px, py));
        } else {
            assert(bs2[b] == bs[b]);
            assert(!overlap(padded(bs[b], px, py), fs[k]));
            lemma_within_no_overlap(l, p, padded(bs[b], px, py));
        }
    }
    assert forall|m: int, j: int|
        0 <= m < bs2.len() && 0 <= j < fs2.len() && (#[trigger] bs2[m]).placed implies !overlap(
        padded(bs2[m], px, py),
        #[trigger] fs2[j],
    ) by {
        let oj = if j < k {
            j
        } else {
            j - 1
        };
        if m < bs.len() {
            assert(bs2[m] == bs[m]);
            let q = padded(bs[m], px, py);
            if j == k || j == k + 1 {
                assert(!overlap(q, l));
                lemma_within_no_overlap(l, fs2[j], q);
            } else {
                assert(fs2[j] == fs[oj]);
            }
        } else {
            if j == k || j == k + 1 {
            } else {
                assert(fs2[j] == fs[oj]);
                assert(!overlap(l, fs[oj]));
                lemma_within_no_overlap(l, p, fs[oj]);
            }
        }
    }
}

/// Binary space partition packer for texture atlas layout.
pub struct BinPacker {
    pub width: u32,
    pub height: u32,
    pub padding_x: u32,
    pub padding_y: u32,
}

/// A block of `packed` is the block of `sorted` at the same position,
/// placed or not: placed blocks keep index and size, unplaced ones all
/// their fields.
pub open spec fn packed_from(packed: Seq<BinBlock>, sorted: Seq<BinBlock>) -> bool {
    &&& packed.len() == sorted.len()
    &&& forall|k: int|
        0 <= k < packed.len() ==> {
            let a = #[trigger] packed[k];
            let b = sorted[k];
            &&& a.index == b.index
            &&& a.w == b.w
            &&& a.h == b.h
            &&& !a.placed ==> a.x == b.x && a.y == b.y
        }
}

impl BinPacker {
    pub fn new(width: u32, height: u32) -> (p: Self)
        ensures
            p.width == width,
            p.height == height,
            p.padding_x == 0,
            p.padding_y == 0,
    {
        BinPacker { width, height, padding_x: 0, padding_y: 0 }
    }

    pub fn with_padding(self, px: u32, py: u32) -> (p: Self)
        ensures
            p.width == self.width,
            p.height == self.height,
            p.padding_x == px,
            p.padding_y == py,
    {
        BinPacker { width: self.width, height: self.height, padding_x: px, padding_y: py }
    }

    /// Pack blocks into the atlas: the blocks are sorted by decreasing
    /// larger side (stably), then each is placed in turn (see
    /// [`spec_pack`]). Returns whether all blocks were placed. Placed
    /// blocks, with their padding, lie in the atlas and share no area with
    /// each other.
    pub fn fit(&self, blocks: &mut Vec<BinBlock>) -> (all_fit: bool)
        requires
            forall|k: int|
                0 <= k < old(blocks)@.len() ==> (#[trigger] old(blocks)@[k]).w + self.padding_x
                    <= u32::MAX && old(blocks)@[k].h + self.padding_y <= u32::MAX,
        ensures
            final(blocks)@ == spec_pack(
                seq![atlas(self.width, self.height)],
                sort_desc(old(blocks)@),
                self.padding_x,
                self.padding_y,
            ).0,
            old(blocks)@.len() == 0 ==> final(blocks)@ == old(blocks)@,
            packed_from(final(blocks)@, sort_desc(old(blocks)@)),
            all_fit == forall|k: int| 0 <= k < final(blocks)@.len() ==> (#[trigger] final(blocks)@[k]).placed,
            placed_ok(final(blocks)@, seq![], self.width, self.height, self.padding_x, self.padding_y),
    {
        if blocks.len() == 0 {
            assert(old(blocks)@ =~= Seq::<BinBlock>::empty());
            return true;
        }
        // Sort by larger side, descending, keeping the order of equal ones.
        let mut src: Vec<BinBlock> = Vec::new();
        std::mem::swap(&mut src, blocks);
        let ghost orig = src@;
        for b in it: src
            invariant
                it.seq() == orig,
                blocks@ == sort_desc(orig.take(it.index() as int)),
        {
            let ghost t = blocks@;
            proof {
                lemma_desc_pos(t, b);
                assert(orig.take(it.index() + 1).drop_last() =~= orig.take(it.index() as int));
                assert(orig.take(it.index() + 1).last() == b);
            }
            let mut p: usize = 0;
            while p < blocks.len() && !(max_side_of(&blocks[p]) < max_side_of(&b))
                invariant
                    p <= blocks@.len(),
                    blocks@ == t,
                    forall|j: int| 0 <= j < p ==> max_side(#[trigger] t[j]) >= max_side(b),
                decreases blocks.len() - p,
            {
                p = p + 1;
            }
            proof {
                let q = desc_pos(t, b);
                if q < p {
                    assert(max_side(t[q]) >= max_side(b));
                }
                if q > p {
                    assert(max_side(t[p as int]) >= max_side(b));
                }
            }
            blocks.insert(p, b);
        }
        assert(orig.take(orig.len() as int) =~= orig);
        let ghost sorted = blocks@;
        proof {
            lemma_sort_desc_elems(orig);
            assert forall|k: int| 0 <= k < sorted.len() implies (#[trigger] sorted[k]).w
                + self.padding_x <= u32::MAX && sorted[k].h + self.padding_y <= u32::MAX by {
                assert(orig.contains(sorted[k]));
                let j = choose|j: int| 0 <= j < orig.len() && orig[j] == sorted[k];
                assert(old(blocks)@[j] == orig[j]);
            }
        }
        // Place each block in turn.
        let mut root = BinNode::new(0, 0, self.width, self.height);
        let mut all_fit = true;
        let mut i: usize = 0;
        assert(free_rects(root) == seq![node_rect(root)]);
        assert(sorted.take(0) =~= Seq::<BinBlock>::empty());
        assert(blocks@.take(0) =~= Seq::<BinBlock>::empty());
        while i < blocks.len()
            invariant
                i <= blocks@.len(),
                sorted == sort_desc(orig),
                blocks@.len() == sorted.len(),
                forall|k: int| i <= k < blocks@.len() ==> #[trigger] blocks@[k] == sorted[k],
                packed_from(blocks@.take(i as int), sorted.take(i as int)),
                forall|k: int|
                    0 <= k < sorted.len() ==> (#[trigger] sorted[k]).w + self.padding_x <= u32::MAX
                        && sorted[k].h + self.padding_y <= u32::MAX,
                all_fit == forall|k: int| 0 <= k < i ==> (#[trigger] blocks@[k]).placed,
                tree_ok(root),
                spec_pack(
                    seq![atlas(self.width, self.height)],
                    sorted.take(i as int),
                    self.padding_x,
                    self.padding_y,
                ) == (blocks@.take(i as int), free_rects(root)),
                free_ok(free_rects(root), self.width, self.height),
                placed_ok(
                    blocks@.take(i as int),
                    free_rects(root),
                    self.width,
                    self.height,
                    self.padding_x,
                    self.padding_y,
                ),
            decreases blocks.len() - i,
        {
            let b = &blocks[i];
            let index = b.index;
            let bw0 = b.w;
            let bh0 = b.h;
            let ox = b.x;
            let oy = b.y;
            assert(blocks@[i as int] == sorted[i as int]);
            let bw = bw0 + self.padding_x;
            let bh = bh0 + self.padding_y;
            let ghost fs = free_rects(root);
            let ghost done = blocks@.take(i as int);
            let ghost old_all = all_fit;
            let (root2, pos, gk) = find_and_split(root, bw, bh);
            root = root2;
            let nb = match pos {
                Some((x, y)) => BinBlock { index, w: bw0, h: bh0, x, y, placed: true },
                None => {
                    all_fit = false;
                    BinBlock { index, w: bw0, h: bh0, x: ox, y: oy, placed: false }
                },
            };
            let ghost before_set = blocks@;
            blocks.set(i, nb);
            proof {
                assert(blocks@.take(i + 1) =~= done.push(nb));
                let bsi = sorted[i as int];
                assert(sorted.take(i + 1).drop_last() =~= sorted.take(i as int));
                assert(sorted.take(i + 1).last() == bsi);
                if let Some(pp) = pos {
                    lemma_first_fit(fs, gk@, bw as int, bh as int);
                    assert(free_rects(root) =~= split_free(fs, gk@, bw as int, bh as int));
                } else {
                    lemma_no_fit(fs, bw as int, bh as int);
                }
                assert(spec_pack(
                    seq![atlas(self.width, self.height)],
                    sorted.take(i + 1),
                    self.padding_x,
                    self.padding_y,
                ) == (blocks@.take(i + 1), free_rects(root)));
                assert forall|k: int| 0 <= k < i implies blocks@[k] == before_set[k] by {}
                assert(blocks@[i as int] == nb);
                if all_fit {
                    assert forall|k: int| 0 <= k < i + 1 implies (#[trigger] blocks@[k]).placed by {
                        if k < i {
                            assert(before_set[k].placed);
                        }
                    }
                } else if pos is Some {
                    assert(!old_all);
                    let k0 = choose|k0: int| 0 <= k0 < i && !(#[trigger] before_set[k0]).placed;
                    assert(!blocks@[k0].placed);
                } else {
                    assert(!blocks@[i as int].placed);
                }
                if pos is Some {
                    lemma_place(done, fs, free_rects(root), gk@, nb, self.width, self.height, self.padding_x, self.padding_y);
                } else {
                    let d2 = done.push(nb);
                    assert forall|k: int| 0 <= k < d2.len() && (#[trigger] d2[k]).placed implies within(
                        padded(d2[k], self.padding_x, self.padding_y),
                        atlas(self.width, self.height),
                    ) by {
                        assert(d2[k] == done[k]);
                    }
                    assert forall|k: int, m: int|
                        0 <= k < d2.len() && 0 <= m < d2.len() && k != m && (#[trigger] d2[k]).placed
                            && (#[trigger] d2[m]).placed implies !overlap(
                        padded(d2[k], self.padding_x, self.padding_y),
                        padded(d2[m], self.padding_x, self.padding_y),
                    ) by {
                        assert(d2[k] == done[k] && d2[m] == done[m]);
                    }
                    assert forall|k: int, j: int|
                        0 <= k < d2.len() && 0 <= j < free_rects(root).len() && (
                        #[trigger] d2[k]).placed implies !overlap(
                        padded(d2[k], self.padding_x, self.padding_y),
                        #[trigger] free_rects(root)[j],
                    ) by {
                        assert(d2[k] == done[k]);
                    }
                }
                assert(packed_from(blocks@.take(i + 1), sorted.take(i + 1))) by {
                    assert forall|k: int| 0 <= k < i + 1 implies {
                        let a = #[trigger] blocks@.take(i + 1)[k];
                        let b = sorted.take(i + 1)[k];
                        &&& a.index == b.index
                        &&& a.w == b.w
                        &&& a.h == b.h
                        &&& !a.placed ==> a.x == b.x && a.y == b.y
                    } by {
                        if k < i {
                            assert(blocks@.take(i + 1)[k] == blocks@.take(i as int)[k]);
                            assert(sorted.take(i + 1)[k] == sorted.take(i as int)[k]);
                        }
                    }
                }
            }
            i = i + 1;
        }
        proof {
            assert(blocks@.take(i as int) =~= blocks@);
            assert(sorted.take(i as int) =~= sorted);
        }
        all_fit
    }
}

/// The larger side of a block.
fn max_side_of(b: &BinBlock) -> (m: u32)
    ensures
        m == max_side(*b),
{
    if b.w >= b.h {
        b.w
    } else {
        b.h
    }
}

/// How far a size is from the maximum size, in both dimensions.
pub open spec fn growth_distance(w: u32, h: u32, max_w: u32, max_h: u32) -> nat {
    let dw = if w >= max_w {
        w - max_w
    } else {
        max_w - w
    };
    let dh = if h >= max_h {
        h - max_h
    } else {
        max_h - h
    };
    (dw + dh) as nat
}

/// Every block is small enough to add its padding.
pub open spec fn paddable(bs: Seq<BinBlock>, px: u32, py: u32) -> bool {
    forall|k: int|
        0 <= k < bs.len() ==> (#[trigger] bs[k]).w + px <= u32::MAX && bs[k].h + py <= u32::MAX
}

/// Whether every block is placed.
pub open spec fn all_placed(bs: Seq<BinBlock>) -> bool {
    forall|k: int| 0 <= k < bs.len() ==> (#[trigger] bs[k]).placed
}

/// The atlas size after a failed attempt at `w` by `h`: the smaller side
/// (the width when they are equal) doubled, but at most its maximum.
pub open spec fn grown(w: u32, h: u32, max_w: u32, max_h: u32) -> (u32, u32) {
    if w <= h {
        (if 2 * w < max_w {
            (2 * w) as u32
        } else {
            max_w
        }, h)
    } else {
        (w, if 2 * h < max_h {
            (2 * h) as u32
        } else {
            max_h
        })
    }
}

/// A block made ready for another attempt: unplaced at the origin.
pub open spec fn reset_block(b: BinBlock) -> BinBlock {
    BinBlock { index: b.index, w: b.w, h: b.h, x: 0, y: 0, placed: false }
}

/// Blocks made ready for another attempt (see [`reset_block`]).
pub open spec fn reset_blocks(bs: Seq<BinBlock>) -> Seq<BinBlock> {
    bs.map_values(|b: BinBlock| reset_block(b))
}

/// Packing with growth: the blocks are packed at `w` by `h` (see
/// [`spec_pack`]); when all are placed the size is the answer, otherwise
/// the atlas grows (see [`grown`]) and the blocks, reset, are packed
/// again, until the size can no longer change. Gives the answer and the
/// blocks as the last attempt left them.
pub open spec fn spec_growth(
    bs: Seq<BinBlock>,
    w: u32,
    h: u32,
    max_w: u32,
    max_h: u32,
    px: u32,
    py: u32,
) -> (Option<(u32, u32)>, Seq<BinBlock>)
    decreases growth_distance(w, h, max_w, max_h),
{
    let packed = spec_pack(seq![atlas(w, h)], sort_desc(bs), px, py).0;
    if all_placed(packed) {
        (Some((w, h)), packed)
    } else {
        let n = grown(w, h, max_w, max_h);
        if (n.0 > max_w && n.1 > max_h) || (n.0 == w && n.1 == h) {
            (None, packed)
        } else {
            spec_growth(reset_blocks(packed), n.0, n.1, max_w, max_h, px, py)
        }
    }
}

/// Try to pack blocks, growing the atlas (its smaller side doubled, up to
/// the maximum) while they do not all fit (see [`spec_growth`]). Returns
/// the size used when all blocks fit; `None` when they cannot fit even at
/// the largest size reachable.
pub fn fit_with_growth(
    blocks: &mut Vec<BinBlock>,
    initial_w: u32,
    initial_h: u32,
    max_w: u32,
    max_h: u32,
    padding_x: u32,
    padding_y: u32,
) -> (r: Option<(u32, u32)>)
    requires
        paddable(old(blocks)@, padding_x, padding_y),
    ensures
        (r, final(blocks)@) == spec_growth(
            old(blocks)@,
            initial_w,
            initial_h,
            max_w,
            max_h,
            padding_x,
            padding_y,
        ),
        final(blocks)@.len() == old(blocks)@.len(),
        r matches Some(size) ==> (forall|k: int|
            0 <= k < final(blocks)@.len() ==> (#[trigger] final(blocks)@[k]).placed) && placed_ok(
            final(blocks)@,
            seq![],
            size.0,
            size.1,
            padding_x,
            padding_y,
        ),
        r is None ==> exists|k: int|
            0 <= k < final(blocks)@.len() && !(#[trigger] final(blocks)@[k]).placed,
{
    let mut w = initial_w;
    let mut h = initial_h;
    loop
        invariant
            blocks@.len() == old(blocks)@.len(),
            paddable(blocks@, padding_x, padding_y),
            spec_growth(old(blocks)@, initial_w, initial_h, max_w, max_h, padding_x, padding_y)
                == spec_growth(blocks@, w, h, max_w, max_h, padding_x, padding_y),
        decreases growth_distance(w, h, max_w, max_h),
    {
        let packer = BinPacker::new(w, h).with_padding(padding_x, padding_y);
        let ghost before = blocks@;
        let ok = packer.fit(blocks);
        proof {
            lemma_sort_desc_elems(before);
            assert forall|k: int| 0 <= k < blocks@.len() implies (#[trigger] blocks@[k]).w
                + padding_x <= u32::MAX && blocks@[k].h + padding_y <= u32::MAX by {
                let sk = sort_desc(before)[k];
                assert(before.contains(sk));
                let j = choose|j: int| 0 <= j < before.len() && before[j] == sk;
                assert(before[j].w + padding_x <= u32::MAX);
            }
        }
        let ghost packed = blocks@;
        assert(ok == all_placed(packed));
        if ok {
            return Some((w, h));
        }
        let (nw, nh): (u32, u32) = if w <= h {
            let d: u64 = (w as u64) * 2;
            (if d < max_w as u64 {
                d as u32
            } else {
                max_w
            }, h)
        } else {
            let d: u64 = (h as u64) * 2;
            (w, if d < max_h as u64 {
                d as u32
            } else {
                max_h
            })
        };
        if nw > max_w && nh > max_h {
            return None;
        }
        if nw == w && nh == h {
            // The atlas cannot grow any further.
            return None;
        }
        assert(grown(w, h, max_w, max_h) == (nw, nh));
        w = nw;
        h = nh;
        let mut k: usize = 0;
        while k < blocks.len()
            invariant
                k <= blocks@.len(),
                blocks@.len() == old(blocks)@.len(),
                packed.len() == blocks@.len(),
                paddable(blocks@, padding_x, padding_y),
                forall|j: int| 0 <= j < k ==> #[trigger] blocks@[j] == reset_block(packed[j]),
                forall|j: int| k <= j < blocks@.len() ==> #[trigger] blocks@[j] == packed[j],
            decreases blocks.len() - k,
        {
            let b = &blocks[k];
            let nb = BinBlock { index: b.index, w: b.w, h: b.h, x: 0, y: 0, placed: false };
            let ghost prev = blocks@;
            blocks.set(k, nb);
            assert(nb == reset_block(packed[k as int]));
            assert forall|j: int| 0 <= j < blocks@.len() implies (#[trigger] blocks@[j]).w
                + padding_x <= u32::MAX && blocks@[j].h + padding_y <= u32::MAX by {
                if j != k {
                    assert(blocks@[j] == prev[j]);
                }
            }
            k = k + 1;
        }
        assert(blocks@ =~= reset_blocks(packed));
    }
}


/// Growing from a size within the maximum stays within the maximum: a
/// size that packing with growth answers is at most the maximum.
pub proof fn lemma_growth_bounded(
    bs: Seq<BinBlock>,
    w: u32,
    h: u32,
    max_w: u32,
    max_h: u32,
    px: u32,
    py: u32,
)
    requires
        w <= max_w,
        h <= max_h,
    ensures
        spec_growth(bs, w, h, max_w, max_h, px, py).0 matches Some(s) ==> s.0 <= max_w && s.1 <= max_h,
    decreases growth_distance(w, h, max_w, max_h),
{
    let packed = spec_pack(seq![atlas(w, h)], sort_desc(bs), px, py).0;
    if !all_placed(packed) {
        let n = grown(w, h, max_w, max_h);
        if !((n.0 > max_w && n.1 > max_h) || (n.0 == w && n.1 == h)) {
            lemma_growth_bounded(reset_blocks(packed), n.0, n.1, max_w, max_h, px, py);
        }
    }
}

} // verus!
