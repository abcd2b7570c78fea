//! Tree LOD files: the tree type list (LST) and the tree blocks of a cell
//! (DTL for FO3/FNV, BTT for Skyrim).
//!
//! Both formats are sequences of little-endian 32-bit words. An LST file is
//! a count followed by that many 8-word tree types; a DTL/BTT file is a
//! count of type blocks, each a type index and a reference count followed
//! by that many 8-word tree references. Floating-point fields are held as
//! their IEEE-754 bit patterns, which is all the formats store.

use vstd::prelude::*;

use crate::bytes::{le32, lemma_le32_u32_bytes, push_u32, read_u32, u32_bytes};

verus! {

/// The whole little-endian words of `d`, in order (trailing bytes that do
/// not make a word are left out).
pub open spec fn dwords(d: Seq<u8>) -> Seq<u32> {
    Seq::new(d.len() / 4, |k: int| le32(d, 4 * k) as u32)
}

/// The little-endian encoding of a sequence of words.
pub open spec fn words_bytes(ws: Seq<u32>) -> Seq<u8>
    decreases ws.len(),
{
    if ws.len() == 0 {
        seq![]
    } else {
        words_bytes(ws.drop_last()) + u32_bytes(ws.last())
    }
}

/// The words of an encoding are the encoded words.
pub proof fn lemma_words_roundtrip(ws: Seq<u32>)
    ensures
        words_bytes(ws).len() == 4 * ws.len(),
        dwords(words_bytes(ws)) == ws,
    decreases ws.len(),
{
    if ws.len() > 0 {
        let q = ws.drop_last();
        lemma_words_roundtrip(q);
        let b = words_bytes(ws);
        let bq = words_bytes(q);
        lemma_le32_u32_bytes(ws.last());
        assert forall|k: int| 0 <= k < ws.len() implies dwords(b)[k] == ws[k] by {
            if k < q.len() {
                assert(b[4 * k] == bq[4 * k] && b[4 * k + 1] == bq[4 * k + 1] && b[4 * k + 2]
                    == bq[4 * k + 2] && b[4 * k + 3] == bq[4 * k + 3]);
                assert(dwords(bq)[k] == q[k]);
            } else {
                let u = u32_bytes(ws.last());
                assert(b[4 * k] == u[0] && b[4 * k + 1] == u[1] && b[4 * k + 2] == u[2] && b[4 * k
                    + 3] == u[3]);
            }
        }
        assert(dwords(b) =~= ws);
    } else {
        assert(dwords(words_bytes(ws)) =~= ws);
    }
}

/// A signed word read back from its unsigned form.
pub proof fn lemma_i32_word(v: i32)
    ensures
        (v as u32) as i32 == v,
{
    assert((v as u32) as i32 == v) by (bit_vector);
}

/// Append a word.
fn push_word(buf: &mut Vec<u8>, ws: Ghost<Seq<u32>>, w: u32)
    requires
        old(buf)@ == words_bytes(ws@),
    ensures
        final(buf)@ == words_bytes(ws@.push(w)),
{
    push_u32(buf, w);
    assert(ws@.push(w).drop_last() =~= ws@);
}

/// Read word `k` of `d`.
fn read_word(d: &[u8], k: usize) -> (w: u32)
    requires
        k < d@.len() / 4,
    ensures
        w == dwords(d@)[k as int],
{
    assert(4 * k + 4 <= d@.len()) by (nonlinear_arith)
        requires
            k < d@.len() / 4,
    ;
    assert(d@.len() == d.len());
    let p: usize = 4 * k;
    read_u32(d, p)
}

/// Why a tree LOD file could not be read.
#[derive(Debug, Clone, Copy, PartialEq, Eq, Structural)]
pub enum TreeFileError {
    /// The data ends inside a word that is needed.
    UnexpectedEnd,
    /// An LST file is shorter than its entry count requires: its length,
    /// the length required, and the count.
    TooShort { len: usize, expected: usize, count: usize },
}

/// A tree type entry in the LST file.
#[derive(Debug, Clone, Copy, PartialEq, Eq, Structural)]
pub struct TreeType {
    /// Index of this tree type in the atlas.
    pub index: i32,
    /// Billboard width in game units (`f32` bits).
    pub width: u32,
    /// Billboard height in game units (`f32` bits).
    pub height: u32,
    /// UV coordinates in the atlas texture (`f32` bits).
    pub uv_min_x: u32,
    pub uv_min_y: u32,
    pub uv_max_x: u32,
    pub uv_max_y: u32,
    /// Unknown field (always 0 in observed data).
    pub unknown: i32,
}

/// The eight words of a tree type.
pub open spec fn tree_type_words(t: TreeType) -> Seq<u32> {
    seq![
        t.index as u32,
        t.width,
        t.height,
        t.uv_min_x,
        t.uv_min_y,
        t.uv_max_x,
        t.uv_max_y,
        t.unknown as u32,
    ]
}

/// The tree type held by the eight words of `w` at `p`.
pub open spec fn tree_type_at(w: Seq<u32>, p: int) -> TreeType {
    TreeType {
        index: w[p] as i32,
        width: w[p + 1],
        height: w[p + 2],
        uv_min_x: w[p + 3],
        uv_min_y: w[p + 4],
        uv_max_x: w[p + 5],
        uv_max_y: w[p + 6],
        unknown: w[p + 7] as i32,
    }
}

impl TreeType {
    /// Size of one entry in bytes.
    pub const SIZE: usize = 32;
}

/// A tree type list (LST file).
#[derive(Debug, Clone)]
pub struct TreeTypeList {
    pub types: Vec<TreeType>,
}

/// The eight words of each type, in order.
pub open spec fn types_words(types: Seq<TreeType>) -> Seq<u32>
    decreases types.len(),
{
    if types.len() == 0 {
        seq![]
    } else {
        types_words(types.drop_last()) + tree_type_words(types.last())
    }
}

/// The words of an LST file: the count, then each type's eight words.
pub open spec fn lst_words(types: Seq<TreeType>) -> Seq<u32> {
    seq![(types.len() as i32) as u32] + types_words(types)
}

/// The bytes of an LST file.
pub open spec fn lst_bytes(types: Seq<TreeType>) -> Seq<u8> {
    words_bytes(lst_words(types))
}

/// The entry count an LST file declares.
pub open spec fn lst_count(d: Seq<u8>) -> int {
    dwords(d)[0] as i32 as int
}

/// Whether reading `d` as an LST file is defined: a declared count is not
/// negative and its byte size fits in `usize`.
pub open spec fn lst_readable(d: Seq<u8>) -> bool {
    d.len() >= 4 ==> 0 <= lst_count(d) && 4 + 32 * lst_count(d) <= usize::MAX
}

/// An LST file read from `d`: an error when it has no count word or is
/// shorter than the count requires, else the declared number of types.
pub open spec fn spec_parse_lst(d: Seq<u8>) -> Result<Seq<TreeType>, TreeFileError> {
    let w = dwords(d);
    if d.len() < 4 {
        Err(TreeFileError::UnexpectedEnd)
    } else if d.len() < 4 + 32 * lst_count(d) {
        Err(
            TreeFileError::TooShort {
                len: d.len() as usize,
                expected: (4 + 32 * lst_count(d)) as usize,
                count: lst_count(d) as usize,
            },
        )
    } else {
        Ok(Seq::new(lst_count(d) as nat, |k: int| tree_type_at(w, 1 + 8 * k)))
    }
}

/// The words of a type sequence hold each type at its place.
pub proof fn lemma_types_words(types: Seq<TreeType>)
    ensures
        types_words(types).len() == 8 * types.len(),
        forall|k: int|
            0 <= k < types.len() ==> types_words(types).subrange(8 * k, 8 * k + 8)
                == tree_type_words(#[trigger] types[k]),
    decreases types.len(),
{
    if types.len() > 0 {
        let q = types.drop_last();
        lemma_types_words(q);
        let w = types_words(types);
        assert forall|k: int| 0 <= k < types.len() implies w.subrange(8 * k, 8 * k + 8)
            == tree_type_words(#[trigger] types[k]) by {
            if k < q.len() {
                assert(w.subrange(8 * k, 8 * k + 8) =~= types_words(q).subrange(8 * k, 8 * k + 8));
                assert(q[k] == types[k]);
            } else {
                assert(w.subrange(8 * k, 8 * k + 8) =~= tree_type_words(types.last()));
            }
        }
    }
}

/// Reading the words of a tree type gives the tree type back.
pub proof fn lemma_tree_type_at(w: Seq<u32>, p: int, t: TreeType)
    requires
        0 <= p,
        p + 8 <= w.len(),
        w.subrange(p, p + 8) == tree_type_words(t),
    ensures
        tree_type_at(w, p) == t,
{
    assert(w[p] == w.subrange(p, p + 8)[0]);
    assert(w[p + 7] == w.subrange(p, p + 8)[7]);
    assert(w[p + 1] == w.subrange(p, p + 8)[1]);
    assert(w[p + 2] == w.subrange(p, p + 8)[2]);
    assert(w[p + 3] == w.subrange(p, p + 8)[3]);
    assert(w[p + 4] == w.subrange(p, p + 8)[4]);
    assert(w[p + 5] == w.subrange(p, p + 8)[5]);
    assert(w[p + 6] == w.subrange(p, p + 8)[6]);
    lemma_i32_word(t.index);
    lemma_i32_word(t.unknown);
}

/// An LST file written for a list of at most `i32::MAX` types (whose file
/// size fits in memory) reads back as that list.
pub proof fn lemma_lst_roundtrip(types: Seq<TreeType>)
    requires
        types.len() <= i32::MAX,
        4 + 32 * types.len() <= usize::MAX,
    ensures
        lst_readable(lst_bytes(types)),
        spec_parse_lst(lst_bytes(types)) == Ok::<Seq<TreeType>, TreeFileError>(types),
{
    let ws = lst_words(types);
    lemma_words_roundtrip(ws);
    lemma_types_words(types);
    let d = lst_bytes(types);
    assert(dwords(d) == ws);
    lemma_i32_word(types.len() as i32);
    assert(ws[0] == (types.len() as i32) as u32);
    assert(lst_count(d) == types.len());
    assert(d.len() == 4 + 32 * types.len());
    let parsed = Seq::new(types.len(), |k: int| tree_type_at(ws, 1 + 8 * k));
    assert forall|k: int| 0 <= k < types.len() implies parsed[k] == types[k] by {
        assert(ws.subrange(1 + 8 * k, 1 + 8 * k + 8) =~= types_words(types).subrange(
            8 * k,
            8 * k + 8,
        ));
        lemma_tree_type_at(ws, 1 + 8 * k, types[k]);
    }
    assert(parsed =~= types);
}

/// Encoding distributes over concatenation.
pub proof fn lemma_words_bytes_append(a: Seq<u32>, b: Seq<u32>)
    ensures
        words_bytes(a + b) == words_bytes(a) + words_bytes(b),
    decreases b.len(),
{
    if b.len() == 0 {
        assert(a + b =~= a);
        assert(words_bytes(a) + words_bytes(b) =~= words_bytes(a));
    } else {
        lemma_words_bytes_append(a, b.drop_last());
        assert((a + b).drop_last() =~= a + b.drop_last());
        assert((a + b).last() == b.last());
        assert(words_bytes(a + b) =~= words_bytes(a) + words_bytes(b));
    }
}

impl TreeType {
    /// The tree type held by the eight words of `data` starting at word
    /// `word` (byte offset `4 * word`); an error when the data ends first.
    pub fn read_from(data: &[u8], word: usize) -> (r: Result<TreeType, TreeFileError>)
        ensures
            word + 8 <= data@.len() / 4 ==> r == Ok::<TreeType, TreeFileError>(
                tree_type_at(dwords(data@), word as int),
            ),
            word + 8 > data@.len() / 4 ==> r == Err::<TreeType, TreeFileError>(
                TreeFileError::UnexpectedEnd,
            ),
    {
        if word > data.len() / 4 || data.len() / 4 - word < 8 {
            return Err(TreeFileError::UnexpectedEnd);
        }
        Ok(
            TreeType {
                index: #[verifier::truncate]
                (read_word(data, word) as i32),
                width: read_word(data, word + 1),
                height: read_word(data, word + 2),
                uv_min_x: read_word(data, word + 3),
                uv_min_y: read_word(data, word + 4),
                uv_max_x: read_word(data, word + 5),
                uv_max_y: read_word(data, word + 6),
                unknown: #[verifier::truncate]
                (read_word(data, word + 7) as i32),
            },
        )
    }

    /// Append the 32 bytes of this tree type.
    pub fn write_to(&self, buf: &mut Vec<u8>)
        ensures
            final(buf)@ == old(buf)@ + words_bytes(tree_type_words(*self)),
    {
        let ghost w = tree_type_words(*self);
        let ghost start = buf@;
        assert(words_bytes(w.take(0)) =~= seq![]);
        let words: [u32; 8] = [
            self.index as u32,
            self.width,
            self.height,
            self.uv_min_x,
            self.uv_min_y,
            self.uv_max_x,
            self.uv_max_y,
            self.unknown as u32,
        ];
        assert(words@ =~= w);
        let mut i: usize = 0;
        while i < 8
            invariant
                i <= 8,
                words@ == w,
                w.len() == 8,
                buf@ == start + words_bytes(w.take(i as int)),
            decreases 8 - i,
        {
            push_u32(buf, words[i]);
            assert(w.take(i + 1).drop_last() =~= w.take(i as int));
            assert(buf@ =~= start + words_bytes(w.take(i + 1)));
            i = i + 1;
        }
        assert(w.take(8) =~= w);
    }
}

impl TreeTypeList {
    /// Whether reading `data` as an LST file is defined (see
    /// [`lst_readable`]).
    pub fn is_readable(data: &[u8]) -> (b: bool)
        ensures
            b == lst_readable(data@),
    {
        if data.len() < 4 {
            return true;
        }
        let n = #[verifier::truncate]
        (read_word(data, 0) as i32);
        if n < 0 {
            return false;
        }
        let count = n as u64;
        4 + 32 * count <= usize::MAX as u64
    }

    /// Parse an LST file (see [`spec_parse_lst`]).
    pub fn parse(data: &[u8]) -> (r: Result<Self, TreeFileError>)
        requires
            lst_readable(data@),
        ensures
            match spec_parse_lst(data@) {
                Ok(ts) => r matches Ok(l) && l.types@ == ts,
                Err(e) => r matches Err(e2) && e2 == e,
            },
    {
        if data.len() < 4 {
            return Err(TreeFileError::UnexpectedEnd);
        }
        let n = #[verifier::truncate]
        (read_word(data, 0) as i32);
        let count = n as usize;
        let expected: usize = 4 + count * 32;
        if data.len() < expected {
            return Err(TreeFileError::TooShort { len: data.len(), expected, count });
        }
        let ghost w = dwords(data@);
        let mut types: Vec<TreeType> = Vec::new();
        let mut k: usize = 0;
        while k < count
            invariant
                k <= count,
                count == lst_count(data@),
                4 + 32 * count <= data@.len(),
                w == dwords(data@),
                types@ == Seq::new(k as nat, |j: int| tree_type_at(w, 1 + 8 * j)),
            decreases count - k,
        {
            assert(1 + 8 * k + 8 <= data@.len() / 4) by (nonlinear_arith)
                requires
                    k < count,
                    4 + 32 * count <= data@.len(),
            ;
            assert(data@.len() == data.len());
            let t = TreeType::read_from(data, 1 + 8 * k);
            match t {
                Ok(t) => {
                    types.push(t);
                },
                Err(_) => {
                    return Err(TreeFileError::UnexpectedEnd);
                },
            }
            assert(types@ =~= Seq::new((k + 1) as nat, |j: int| tree_type_at(w, 1 + 8 * j)));
            k = k + 1;
        }
        Ok(TreeTypeList { types })
    }

    /// Serialize to LST file bytes (see [`lst_bytes`]).
    pub fn write(&self) -> (r: Result<Vec<u8>, TreeFileError>)
        ensures
            r matches Ok(v) && v@ == lst_bytes(self.types@),
    {
        let mut buf: Vec<u8> = Vec::new();
        let count_word = (self.types.len() as i32) as u32;
        let ghost no_words: Seq<u32> = seq![];
        assert(buf@ =~= words_bytes(no_words));
        push_word(&mut buf, Ghost(no_words), count_word);
        let ghost ts = self.types@;
        let mut k: usize = 0;
        assert(seq![count_word] + types_words(ts.take(0)) =~= seq![].push(count_word));
        while k < self.types.len()
            invariant
                k <= ts.len(),
                ts == self.types@,
                count_word == (ts.len() as i32) as u32,
                buf@ == words_bytes(seq![count_word] + types_words(ts.take(k as int))),
            decreases self.types.len() - k,
        {
            let ghost before = seq![count_word] + types_words(ts.take(k as int));
            self.types[k].write_to(&mut buf);
            proof {
                lemma_words_bytes_append(before, tree_type_words(ts[k as int]));
                assert(ts.take(k + 1).drop_last() =~= ts.take(k as int));
                assert(seq![count_word] + types_words(ts.take(k + 1)) =~= before + tree_type_words(
                    ts[k as int],
                ));
            }
            k = k + 1;
        }
        assert(ts.take(k as int) =~= ts);
        Ok(buf)
    }
}

/// A tree reference (placed instance) in a DTL/BTT block.
#[derive(Debug, Clone, Copy, PartialEq, Eq, Structural)]
pub struct TreeRef {
    /// World position (`f32` bits).
    pub x: u32,
    pub y: u32,
    pub z: u32,
    /// Rotation in radians (`f32` bits).
    pub rotation: u32,
    /// Scale factor (`f32` bits).
    pub scale: u32,
    /// Reference FormID from the plugin.
    pub ref_form_id: u32,
    /// Unknown fields (always 0 in observed data).
    pub unknown1: i32,
    pub unknown2: i32,
}

impl TreeRef {
    /// Size of one reference in bytes.
    pub const SIZE: usize = 32;
}

/// The eight words of a tree reference.
pub open spec fn tree_ref_words(r: TreeRef) -> Seq<u32> {
    seq![r.x, r.y, r.z, r.rotation, r.scale, r.ref_form_id, r.unknown1 as u32, r.unknown2 as u32]
}

/// The tree reference held by the eight words of `w` at `p`.
pub open spec fn tree_ref_at(w: Seq<u32>, p: int) -> TreeRef {
    TreeRef {
        x: w[p],
        y: w[p + 1],
        z: w[p + 2],
        rotation: w[p + 3],
        scale: w[p + 4],
        ref_form_id: w[p + 5],
        unknown1: w[p + 6] as i32,
        unknown2: w[p + 7] as i32,
    }
}

/// The eight words of each reference, in order.
pub open spec fn refs_words(rs: Seq<TreeRef>) -> Seq<u32>
    decreases rs.len(),
{
    if rs.len() == 0 {
        seq![]
    } else {
        refs_words(rs.drop_last()) + tree_ref_words(rs.last())
    }
}

/// The words of a reference sequence hold each reference at its place.
pub proof fn lemma_refs_words(rs: Seq<TreeRef>)
    ensures
        refs_words(rs).len() == 8 * rs.len(),
        forall|k: int|
            0 <= k < rs.len() ==> refs_words(rs).subrange(8 * k, 8 * k + 8) == tree_ref_words(
                #[trigger] rs[k],
            ),
    decreases rs.len(),
{
    if rs.len() > 0 {
        let q = rs.drop_last();
        lemma_refs_words(q);
        let w = refs_words(rs);
        assert forall|k: int| 0 <= k < rs.len() implies w.subrange(8 * k, 8 * k + 8)
            == tree_ref_words(#[trigger] rs[k]) by {
            if k < q.len() {
                assert(w.subrange(8 * k, 8 * k + 8) =~= refs_words(q).subrange(8 * k, 8 * k + 8));
                assert(q[k] == rs[k]);
            } else {
                assert(w.subrange(8 * k, 8 * k + 8) =~= tree_ref_words(rs.last()));
            }
        }
    }
}

/// Reading the words of a tree reference gives the reference back.
pub proof fn lemma_tree_ref_at(w: Seq<u32>, p: int, r: TreeRef)
    requires
        0 <= p,
        p + 8 <= w.len(),
        w.subrange(p, p + 8) == tree_ref_words(r),
    ensures
        tree_ref_at(w, p) == r,
{
    assert(w[p] == w.subrange(p, p + 8)[0]);
    assert(w[p + 1] == w.subrange(p, p + 8)[1]);
    assert(w[p + 2] == w.subrange(p, p + 8)[2]);
    assert(w[p + 3] == w.subrange(p, p + 8)[3]);
    assert(w[p + 4] == w.subrange(p, p + 8)[4]);
    assert(w[p + 5] == w.subrange(p, p + 8)[5]);
    assert(w[p + 6] == w.subrange(p, p + 8)[6]);
    assert(w[p + 7] == w.subrange(p, p + 8)[7]);
    lemma_i32_word(r.unknown1);
    lemma_i32_word(r.unknown2);
}

/// A group of tree references of the same type within a cell block.
#[derive(Debug, Clone)]
pub struct TreeTypeBlock {
    /// Tree type index (corresponds to `TreeType::index` in the LST).
    pub type_index: i32,
    /// References of this type in this cell.
    pub refs: Vec<TreeRef>,
}

/// A DTL/BTT file: tree references for one cell at one LOD level.
#[derive(Debug, Clone)]
pub struct TreeBlock {
    /// Groups of references by tree type.
    pub type_blocks: Vec<TreeTypeBlock>,
}

/// The value of a type block: its type index and references.
pub type BlockView = (i32, Seq<TreeRef>);

/// The value of a sequence of type blocks.
pub open spec fn blocks_view(bs: Seq<TreeTypeBlock>) -> Seq<BlockView> {
    bs.map_values(|b: TreeTypeBlock| (b.type_index, b.refs@))
}

/// The words of a type block: type index, reference count, references.
pub open spec fn block_words(b: BlockView) -> Seq<u32> {
    seq![b.0 as u32, (b.1.len() as i32) as u32] + refs_words(b.1)
}

/// The words of each type block, in order.
pub open spec fn blocks_words(bs: Seq<BlockView>) -> Seq<u32>
    decreases bs.len(),
{
    if bs.len() == 0 {
        seq![]
    } else {
        block_words(bs[0]) + blocks_words(bs.drop_first())
    }
}

/// The words of a DTL/BTT file: the block count, then the blocks.
pub open spec fn dtl_words(bs: Seq<BlockView>) -> Seq<u32> {
    seq![(bs.len() as i32) as u32] + blocks_words(bs)
}

/// The bytes of a DTL/BTT file.
pub open spec fn dtl_bytes(bs: Seq<BlockView>) -> Seq<u8> {
    words_bytes(dtl_words(bs))
}

/// `n` references read from the words of `w` at `p`.
pub open spec fn refs_at(w: Seq<u32>, p: int, n: nat) -> Seq<TreeRef> {
    Seq::new(n, |k: int| tree_ref_at(w, p + 8 * k))
}

/// Reading `n` type blocks from the words `w` at `p`: `None` when a
/// negative reference count is met (reading such a file is undefined),
/// `Some(None)` when the words end first, else the blocks and the word
/// after them.
pub open spec fn parse_blocks(w: Seq<u32>, p: int, n: nat) -> Option<Option<(Seq<BlockView>, int)>>
    decreases n,
{
    if n == 0 {
        Some(Some((seq![], p)))
    } else if p + 2 > w.len() {
        Some(None)
    } else {
        let ti = w[p] as i32;
        let rc = w[p + 1] as i32;
        if rc < 0 {
            None
        } else if p + 2 + 8 * rc > w.len() {
            Some(None)
        } else {
            prepend_block((ti, refs_at(w, p + 2, rc as nat)), parse_blocks(w, p + 2 + 8 * rc, (n - 1) as nat))
        }
    }
}

/// A block put in front of a reading outcome.
pub open spec fn prepend_block(b: BlockView, r: Option<Option<(Seq<BlockView>, int)>>) -> Option<
    Option<(Seq<BlockView>, int)>,
> {
    match r {
        None => None,
        Some(None) => Some(None),
        Some(Some((bs, e))) => Some(Some((seq![b] + bs, e))),
    }
}

/// Reading `d` as a DTL/BTT file: `None` when a negative count is met
/// (reading such a file is undefined), an error when the data ends before
/// the counts are met, else the type blocks.
pub open spec fn spec_parse_dtl(d: Seq<u8>) -> Option<Result<Seq<BlockView>, TreeFileError>> {
    let w = dwords(d);
    if w.len() == 0 {
        Some(Err(TreeFileError::UnexpectedEnd))
    } else if (w[0] as i32) < 0 {
        None
    } else {
        match parse_blocks(w, 1, (w[0] as i32) as nat) {
            None => None,
            Some(None) => Some(Err(TreeFileError::UnexpectedEnd)),
            Some(Some((bs, _))) => Some(Ok(bs)),
        }
    }
}

/// Appending a block to a sequence appends its words.
pub proof fn lemma_blocks_words_push(bs: Seq<BlockView>, b: BlockView)
    ensures
        blocks_words(bs.push(b)) == blocks_words(bs) + block_words(b),
    decreases bs.len(),
{
    if bs.len() == 0 {
        assert(bs.push(b).drop_first() =~= bs);
        assert(blocks_words(bs.push(b)) =~= blocks_words(bs) + block_words(b));
    } else {
        lemma_blocks_words_push(bs.drop_first(), b);
        assert(bs.push(b).drop_first() =~= bs.drop_first().push(b));
        assert(blocks_words(bs.push(b)) =~= blocks_words(bs) + block_words(b));
    }
}

/// Whether every block has at most `i32::MAX` references.
pub open spec fn counts_fit(bs: Seq<BlockView>) -> bool {
    forall|k: int| 0 <= k < bs.len() ==> (#[trigger] bs[k]).1.len() <= i32::MAX
}

/// The words of blocks read back give the blocks.
pub proof fn lemma_parse_blocks(bs: Seq<BlockView>, w: Seq<u32>, p: int)
    requires
        counts_fit(bs),
        0 <= p,
        p + blocks_words(bs).len() <= w.len(),
        w.subrange(p, p + blocks_words(bs).len()) == blocks_words(bs),
    ensures
        parse_blocks(w, p, bs.len()) == Some(Some((bs, p + blocks_words(bs).len()))),
    decreases bs.len(),
{
    if bs.len() > 0 {
        let b = bs[0];
        let rest = bs.drop_first();
        let bw = block_words(b);
        let n = b.1.len();
        lemma_refs_words(b.1);
        assert(bw.len() == 2 + 8 * n);
        assert(blocks_words(bs) == bw + blocks_words(rest));
        assert(w.subrange(p, p + bw.len()) =~= bw) by {
            assert(w.subrange(p, p + bw.len()) =~= blocks_words(bs).subrange(0, bw.len() as int));
        }
        assert(w[p] == bw[0]);
        assert(w[p + 1] == bw[1]);
        lemma_i32_word(b.0);
        lemma_i32_word(n as i32);
        assert((w[p + 1] as i32) as int == n);
        assert(forall|k: int| 0 <= k < rest.len() ==> #[trigger] rest[k] == bs[k + 1]);
        assert(counts_fit(rest));
        assert(w.subrange(p + bw.len(), p + bw.len() + blocks_words(rest).len()) =~= blocks_words(
            rest,
        )) by {
            assert(w.subrange(p + bw.len(), p + bw.len() + blocks_words(rest).len())
                =~= blocks_words(bs).subrange(bw.len() as int, blocks_words(bs).len() as int));
        }
        lemma_parse_blocks(rest, w, p + bw.len());
        let parsed = refs_at(w, p + 2, n);
        assert forall|k: int| 0 <= k < n implies parsed[k] == b.1[k] by {
            assert(w.subrange(p + 2 + 8 * k, p + 2 + 8 * k + 8) =~= refs_words(b.1).subrange(
                8 * k,
                8 * k + 8,
            )) by {
                assert(w.subrange(p + 2 + 8 * k, p + 2 + 8 * k + 8) =~= bw.subrange(
                    2 + 8 * k,
                    2 + 8 * k + 8,
                ));
            }
            lemma_tree_ref_at(w, p + 2 + 8 * k, b.1[k]);
        }
        assert(parsed =~= b.1);
        assert(seq![(b.0, b.1)] + rest =~= bs);
    }
}

/// A DTL/BTT file written for blocks whose counts fit in `i32` reads back
/// as those blocks.
pub proof fn lemma_dtl_roundtrip(bs: Seq<BlockView>)
    requires
        bs.len() <= i32::MAX,
        counts_fit(bs),
    ensures
        spec_parse_dtl(dtl_bytes(bs)) == Some(Ok::<Seq<BlockView>, TreeFileError>(bs)),
{
    let ws = dtl_words(bs);
    lemma_words_roundtrip(ws);
    assert(dwords(dtl_bytes(bs)) == ws);
    lemma_i32_word(bs.len() as i32);
    assert(ws.subrange(1, 1 + blocks_words(bs).len() as int) =~= blocks_words(bs));
    lemma_parse_blocks(bs, ws, 1);
}

/// Append the given words.
fn push_words(buf: &mut Vec<u8>, words: &[u32])
    ensures
        final(buf)@ == old(buf)@ + words_bytes(words@),
{
    let ghost start = buf@;
    let ghost w = words@;
    assert(words_bytes(w.take(0)) =~= seq![]);
    let mut i: usize = 0;
    while i < words.len()
        invariant
            i <= w.len(),
            w == words@,
            buf@ == start + words_bytes(w.take(i as int)),
        decreases words.len() - i,
    {
        push_u32(buf, words[i]);
        assert(w.take(i + 1).drop_last() =~= w.take(i as int));
        assert(buf@ =~= start + words_bytes(w.take(i + 1)));
        i = i + 1;
    }
    assert(w.take(i as int) =~= w);
}

impl TreeRef {
    /// The tree reference held by the eight words of `data` starting at
    /// word `word` (byte offset `4 * word`); an error when the data ends
    /// first.
    pub fn read_from(data: &[u8], word: usize) -> (r: Result<TreeRef, TreeFileError>)
        ensures
            word + 8 <= data@.len() / 4 ==> r == Ok::<TreeRef, TreeFileError>(
                tree_ref_at(dwords(data@), word as int),
            ),
            word + 8 > data@.len() / 4 ==> r == Err::<TreeRef, TreeFileError>(
                TreeFileError::UnexpectedEnd,
            ),
    {
        if word > data.len() / 4 || data.len() / 4 - word < 8 {
            return Err(TreeFileError::UnexpectedEnd);
        }
        Ok(
            TreeRef {
                x: read_word(data, word),
                y: read_word(data, word + 1),
                z: read_word(data, word + 2),
                rotation: read_word(data, word + 3),
                scale: read_word(data, word + 4),
                ref_form_id: read_word(data, word + 5),
                unknown1: #[verifier::truncate]
                (read_word(data, word + 6) as i32),
                unknown2: #[verifier::truncate]
                (read_word(data, word + 7) as i32),
            },
        )
    }

    /// Append the 32 bytes of this reference.
    pub fn write_to(&self, buf: &mut Vec<u8>)
        ensures
            final(buf)@ == old(buf)@ + words_bytes(tree_ref_words(*self)),
    {
        let words: [u32; 8] = [
            self.x,
            self.y,
            self.z,
            self.rotation,
            self.scale,
            self.ref_form_id,
            self.unknown1 as u32,
            self.unknown2 as u32,
        ];
        assert(words@ =~= tree_ref_words(*self));
        push_words(buf, &words);
    }
}

impl TreeBlock {
    /// Parse a DTL/BTT file (see [`spec_parse_dtl`]), a file holding no
    /// negative count.
    pub fn parse(data: &[u8]) -> (r: Result<Self, TreeFileError>)
        requires
            spec_parse_dtl(data@) is Some,
        ensures
            match spec_parse_dtl(data@) {
                Some(Ok(bs)) => r matches Ok(b) && blocks_view(b.type_blocks@) == bs,
                Some(Err(e)) => r matches Err(e2) && e2 == e,
                None => true,
            },
    {
        match Self::try_parse(data) {
            Some(r) => r,
            None => Err(TreeFileError::UnexpectedEnd),
        }
    }

    /// Parse a DTL/BTT file (see [`spec_parse_dtl`]): `None` when a
    /// negative count is met.
    pub fn try_parse(data: &[u8]) -> (r: Option<Result<Self, TreeFileError>>)
        ensures
            match spec_parse_dtl(data@) {
                Some(Ok(bs)) => r matches Some(Ok(b)) && blocks_view(b.type_blocks@) == bs,
                Some(Err(e)) => r matches Some(Err(e2)) && e2 == e,
                None => r is None,
            },
    {
        let ghost w = dwords(data@);
        let nwords = data.len() / 4;
        if nwords == 0 {
            return Some(Err(TreeFileError::UnexpectedEnd));
        }
        let n = #[verifier::truncate]
        (read_word(data, 0) as i32);
        proof {
            assert(w.len() == nwords);
            assert(n == w[0] as i32);
        }
        if n < 0 {
            return None;
        }
        let type_count = n as usize;
        let ghost total = parse_blocks(w, 1, type_count as nat);
        assert(total == parse_blocks(w, 1, (w[0] as i32) as nat));
        assert(0 <= (w[0] as i32));
        let mut type_blocks: Vec<TreeTypeBlock> = Vec::new();
        let mut pos: usize = 1;
        let mut k: usize = 0;
        assert(blocks_view(type_blocks@) =~= seq![]);
        while k < type_count
            invariant
                k <= type_count,
                nwords == w.len(),
                w == dwords(data@),
                1 <= pos <= nwords,
                total == parse_blocks(w, 1, type_count as nat),
                total == parse_blocks(w, 1, (w[0] as i32) as nat),
                w.len() > 0,
                0 <= (w[0] as i32),
                total == prepend_all(
                    blocks_view(type_blocks@),
                    parse_blocks(w, pos as int, (type_count - k) as nat),
                ),
            decreases type_count - k,
        {
            let ghost m = (type_count - k) as nat;
            let ghost pre = blocks_view(type_blocks@);
            if nwords - pos < 2 {
                assert(parse_blocks(w, pos as int, m) == Some(
                    None::<(Seq<BlockView>, int)>,
                ));
                return Some(Err(TreeFileError::UnexpectedEnd));
            }
            let type_index = #[verifier::truncate]
            (read_word(data, pos) as i32);
            let rc = #[verifier::truncate]
            (read_word(data, pos + 1) as i32);
            if rc < 0 {
                return None;
            }
            let ref_count = rc as usize;
            if (nwords - pos - 2) / 8 < ref_count {
                assert(pos + 2 + 8 * ref_count > w.len()) by (nonlinear_arith)
                    requires
                        (nwords - pos - 2) / 8 < ref_count,
                        nwords == w.len(),
                        pos + 2 <= nwords,
                ;
                assert(parse_blocks(w, pos as int, m) == Some(
                    None::<(Seq<BlockView>, int)>,
                ));
                return Some(Err(TreeFileError::UnexpectedEnd));
            }
            assert(pos + 2 + 8 * ref_count <= w.len()) by (nonlinear_arith)
                requires
                    (nwords - pos - 2) / 8 >= ref_count,
                    nwords == w.len(),
                    pos + 2 <= nwords,
            ;
            let mut refs: Vec<TreeRef> = Vec::new();
            let mut j: usize = 0;
            while j < ref_count
                invariant
                    j <= ref_count,
                    pos + 2 + 8 * ref_count <= w.len(),
                    nwords == w.len(),
                    w == dwords(data@),
                    refs@ == refs_at(w, pos + 2, j as nat),
                decreases ref_count - j,
            {
                assert(pos + 2 + 8 * j + 8 <= nwords) by (nonlinear_arith)
                    requires
                        j < ref_count,
                        pos + 2 + 8 * ref_count <= nwords,
                ;
                match TreeRef::read_from(data, pos + 2 + 8 * j) {
                    Ok(r) => {
                        refs.push(r);
                    },
                    Err(e) => {
                        return Some(Err(e));
                    },
                }
                assert(refs@ =~= refs_at(w, pos + 2, (j + 1) as nat));
                j = j + 1;
            }
            let ghost blk = (type_index, refs@);
            type_blocks.push(TreeTypeBlock { type_index, refs });
            proof {
                assert(blocks_view(type_blocks@) =~= pre.push(blk));
                let tail = parse_blocks(w, pos + 2 + 8 * ref_count, (m - 1) as nat);
                assert(parse_blocks(w, pos as int, m) == prepend_block(blk, tail));
                lemma_prepend_all_block(pre, blk, tail);
            }
            pos = pos + 2 + 8 * ref_count;
            k = k + 1;
        }
        proof {
            assert(parse_blocks(w, pos as int, 0) == Some(Some((Seq::<BlockView>::empty(), pos as int))));
            assert(blocks_view(type_blocks@) + Seq::<BlockView>::empty() =~= blocks_view(type_blocks@));
        }
        Some(Ok(TreeBlock { type_blocks }))
    }

    /// Serialize to DTL/BTT file bytes (see [`dtl_bytes`]).
    pub fn write(&self) -> (r: Result<Vec<u8>, TreeFileError>)
        ensures
            r matches Ok(v) && v@ == dtl_bytes(blocks_view(self.type_blocks@)),
    {
        let ghost bs = blocks_view(self.type_blocks@);
        let mut buf: Vec<u8> = Vec::new();
        let count_word = (self.type_blocks.len() as i32) as u32;
        let ghost no_words: Seq<u32> = seq![];
        assert(buf@ =~= words_bytes(no_words));
        push_word(&mut buf, Ghost(no_words), count_word);
        let mut k: usize = 0;
        assert(seq![count_word] + blocks_words(bs.take(0)) =~= no_words.push(count_word));
        while k < self.type_blocks.len()
            invariant
                k <= bs.len(),
                bs == blocks_view(self.type_blocks@),
                count_word == (bs.len() as i32) as u32,
                buf@ == words_bytes(seq![count_word] + blocks_words(bs.take(k as int))),
            decreases self.type_blocks.len() - k,
        {
            let tb = &self.type_blocks[k];
            let ghost before = seq![count_word] + blocks_words(bs.take(k as int));
            let head: [u32; 2] = [tb.type_index as u32, (tb.refs.len() as i32) as u32];
            push_words(&mut buf, &head);
            let mut j: usize = 0;
            assert(head@ + refs_words(tb.refs@.take(0)) =~= head@);
            while j < tb.refs.len()
                invariant
                    j <= tb.refs@.len(),
                    buf@ == words_bytes(before) + words_bytes(head@ + refs_words(tb.refs@.take(j as int))),
                decreases tb.refs.len() - j,
            {
                let ghost prev = head@ + refs_words(tb.refs@.take(j as int));
                tb.refs[j].write_to(&mut buf);
                proof {
                    lemma_words_bytes_append(prev, tree_ref_words(tb.refs@[j as int]));
                    assert(tb.refs@.take(j + 1).drop_last() =~= tb.refs@.take(j as int));
                    assert(head@ + refs_words(tb.refs@.take(j + 1)) =~= prev + tree_ref_words(
                        tb.refs@[j as int],
                    ));
                }
                j = j + 1;
            }
            proof {
                assert(tb.refs@.take(j as int) =~= tb.refs@);
                assert(bs[k as int] == (tb.type_index, tb.refs@));
                assert(head@ + refs_words(tb.refs@) =~= block_words(bs[k as int]));
                lemma_words_bytes_append(before, block_words(bs[k as int]));
                lemma_blocks_words_push(bs.take(k as int), bs[k as int]);
                assert(bs.take(k + 1) =~= bs.take(k as int).push(bs[k as int]));
                assert(seq![count_word] + blocks_words(bs.take(k + 1)) =~= before + block_words(
                    bs[k as int],
                ));
            }
            k = k + 1;
        }
        assert(bs.take(k as int) =~= bs);
        Ok(buf)
    }
}

/// Blocks put in front of a reading outcome.
pub open spec fn prepend_all(pre: Seq<BlockView>, r: Option<Option<(Seq<BlockView>, int)>>) -> Option<
    Option<(Seq<BlockView>, int)>,
> {
    match r {
        None => None,
        Some(None) => Some(None),
        Some(Some((bs, e))) => Some(Some((pre + bs, e))),
    }
}

/// Putting blocks in front one at a time.
proof fn lemma_prepend_all_block(
    pre: Seq<BlockView>,
    b: BlockView,
    r: Option<Option<(Seq<BlockView>, int)>>,
)
    ensures
        prepend_all(pre, prepend_block(b, r)) == prepend_all(pre.push(b), r),
{
    match r {
        Some(Some((bs, e))) => {
            assert(pre + (seq![b] + bs) =~= pre.push(b) + bs);
        },
        _ => {},
    }
}

/// The total number of references of a sequence of blocks.
pub open spec fn total_refs_of(bs: Seq<BlockView>) -> int
    decreases bs.len(),
{
    if bs.len() == 0 {
        0
    } else {
        total_refs_of(bs.drop_last()) + bs.last().1.len()
    }
}

/// The index of the first block with type index `ti` (the number of
/// blocks when there is none).
pub open spec fn first_with_type(bs: Seq<BlockView>, ti: i32) -> int
    decreases bs.len(),
{
    if bs.len() == 0 {
        0
    } else if bs[0].0 == ti {
        0
    } else {
        1 + first_with_type(bs.drop_first(), ti)
    }
}

/// The blocks after adding reference `r` of type `ti`: appended to the
/// first block of that type, or in a new block at the end.
pub open spec fn spec_add_ref(bs: Seq<BlockView>, ti: i32, r: TreeRef) -> Seq<BlockView> {
    let i = first_with_type(bs, ti);
    if i < bs.len() {
        bs.update(i, (ti, bs[i].1.push(r)))
    } else {
        bs.push((ti, seq![r]))
    }
}

/// [`first_with_type`] is a position of the blocks, at a block of that
/// type when below the length, with no block of that type before it.
pub proof fn lemma_first_with_type(bs: Seq<BlockView>, ti: i32)
    ensures
        0 <= first_with_type(bs, ti) <= bs.len(),
        first_with_type(bs, ti) < bs.len() ==> bs[first_with_type(bs, ti)].0 == ti,
        forall|k: int| 0 <= k < first_with_type(bs, ti) ==> (#[trigger] bs[k]).0 != ti,
    decreases bs.len(),
{
    if bs.len() > 0 && bs[0].0 != ti {
        lemma_first_with_type(bs.drop_first(), ti);
        assert forall|k: int| 0 <= k < first_with_type(bs, ti) implies (#[trigger] bs[k]).0 != ti by {
            if k > 0 {
                assert(bs[k] == bs.drop_first()[k - 1]);
            }
        }
    }
}

impl TreeBlock {
    /// Total number of tree references across all types.
    pub fn total_refs(&self) -> (n: usize)
        requires
            total_refs_of(blocks_view(self.type_blocks@)) <= usize::MAX,
        ensures
            n == total_refs_of(blocks_view(self.type_blocks@)),
    {
        let ghost bs = blocks_view(self.type_blocks@);
        let mut n: usize = 0;
        let mut k: usize = 0;
        while k < self.type_blocks.len()
            invariant
                k <= bs.len(),
                bs == blocks_view(self.type_blocks@),
                total_refs_of(bs) <= usize::MAX,
                n == total_refs_of(bs.take(k as int)),
            decreases self.type_blocks.len() - k,
        {
            proof {
                lemma_total_refs_prefix(bs, k as int + 1);
                assert(bs.take(k + 1).drop_last() =~= bs.take(k as int));
            }
            n = n + self.type_blocks[k].refs.len();
            k = k + 1;
        }
        assert(bs.take(k as int) =~= bs);
        n
    }

    /// Add a reference to the first block of its type, creating the block
    /// at the end when there is none (see [`spec_add_ref`]).
    pub fn add_ref(&mut self, type_index: i32, tree_ref: TreeRef)
        ensures
            blocks_view(final(self).type_blocks@) == spec_add_ref(
                blocks_view(old(self).type_blocks@),
                type_index,
                tree_ref,
            ),
    {
        let ghost bs = blocks_view(self.type_blocks@);
        let mut i: usize = 0;
        assert(bs.skip(0) =~= bs);
        while i < self.type_blocks.len()
            invariant
                i <= bs.len(),
                bs == blocks_view(self.type_blocks@),
                first_with_type(bs, type_index) == i + first_with_type(bs.skip(i as int), type_index),
            ensures
                i <= bs.len(),
                bs == blocks_view(self.type_blocks@),
                first_with_type(bs, type_index) == i + first_with_type(bs.skip(i as int), type_index),
                i < bs.len() ==> bs[i as int].0 == type_index,
            decreases self.type_blocks.len() - i,
        {
            assert(bs.skip(i as int)[0] == bs[i as int]);
            if self.type_blocks[i].type_index == type_index {
                break;
            }
            assert(bs.skip(i as int).drop_first() =~= bs.skip(i + 1));
            i = i + 1;
        }
        if i < self.type_blocks.len() {
            assert(bs.skip(i as int)[0] == bs[i as int]);
            assert(first_with_type(bs, type_index) == i);
            self.type_blocks[i].refs.push(tree_ref);
            assert(blocks_view(self.type_blocks@) =~= bs.update(
                i as int,
                (type_index, bs[i as int].1.push(tree_ref)),
            ));
        } else {
            assert(bs.skip(i as int) =~= seq![]);
            assert(first_with_type(bs, type_index) == bs.len());
            let mut refs: Vec<TreeRef> = Vec::new();
            refs.push(tree_ref);
            self.type_blocks.push(TreeTypeBlock { type_index, refs });
            assert(blocks_view(self.type_blocks@) =~= bs.push((type_index, seq![tree_ref])));
        }
    }
}

/// The references of a prefix of the blocks are at most those of all
/// blocks.
proof fn lemma_total_refs_prefix(bs: Seq<BlockView>, n: int)
    requires
        0 <= n <= bs.len(),
    ensures
        total_refs_of(bs.take(n)) <= total_refs_of(bs),
    decreases bs.len() - n,
{
    if n < bs.len() {
        lemma_total_refs_prefix(bs, n + 1);
        assert(bs.take(n + 1).drop_last() =~= bs.take(n));
    } else {
        assert(bs.take(n) =~= bs);
    }
}

} // verus!
