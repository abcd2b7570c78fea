//! Terrain data of a worldspace: the LAND records of its exterior cells,
//! read from the plugins in load order.
//!
//! A LAND record follows its CELL record, whose XCLC subrecord gives the
//! cell's grid coordinates and XCLW its water height. Later plugins
//! override a cell's terrain; subrecords that an override lacks are kept
//! from the earlier version. Floating-point values (heights, opacities) are
//! held as their IEEE-754 bit patterns.

use vstd::prelude::*;

use crate::bytes::{append_bytes, copy_range, le16, le32, push_u32, read_u16, read_u32, u32_bytes};
use crate::formid::FormId;
use crate::group::{Group, GroupChild, GroupType};
use crate::paths::{file_name, file_name_of};
use crate::plugin::Plugin;
use crate::record::{first_with_sig, lemma_first_with_sig, spec_editor_id, Record};
use crate::signature::Signature;
use crate::subrecord::Subrecord;
use crate::text::{chars_equal, chars_of, lower_chars, lower_seq, strs};

verus! {

/// Terrain data of one exterior cell, taken from a LAND record.
#[derive(Debug)]
pub struct TerrainCell {
    /// Cell grid X coordinate.
    pub cell_x: i32,
    /// Cell grid Y coordinate.
    pub cell_y: i32,
    /// Water height of the cell (`f32` bits).
    pub water_height: u32,
    /// Land flags.
    pub land_flags: i32,
    /// Height offset from VHGT (`f32` bits).
    pub height_offset: u32,
    /// Height deltas: the 33x33 grid of signed byte deltas, row-major.
    pub height_deltas: Vec<i8>,
    /// The three trailing bytes of VHGT (zero when absent).
    pub vhgt_footer: [u8; 3],
    /// Vertex normals: 33x33 x 3 bytes, when present.
    pub vertex_normals: Option<Vec<u8>>,
    /// Vertex colors: 33x33 x 3 bytes, when present.
    pub vertex_colors: Option<Vec<u8>>,
    /// Base texture (LTEX FormID) per quadrant, from BTXT.
    pub base_textures: [Option<u32>; 4],
    /// Base textures of an earlier version of the cell, per quadrant.
    pub fallback_btxt: [Option<u32>; 4],
    /// Additional texture layers: (LTEX FormID, quadrant, layer), from ATXT.
    pub additional_textures: Vec<(u32, u8, u16)>,
    /// Alpha layers (quadrant, layer, (position, opacity bits) entries),
    /// from the VTXT following each ATXT.
    pub alpha_layers: Vec<(u8, u16, Vec<(u16, u32)>)>,
}

/// The value of a terrain cell.
#[verifier::ext_equal]
pub struct CellView {
    pub cell_x: i32,
    pub cell_y: i32,
    pub water_height: u32,
    pub land_flags: i32,
    pub height_offset: u32,
    pub height_deltas: Seq<i8>,
    pub vhgt_footer: Seq<u8>,
    pub vertex_normals: Option<Seq<u8>>,
    pub vertex_colors: Option<Seq<u8>>,
    pub base_textures: Seq<Option<u32>>,
    pub fallback_btxt: Seq<Option<u32>>,
    pub additional_textures: Seq<(u32, u8, u16)>,
    pub alpha_layers: Seq<(u8, u16, Seq<(u16, u32)>)>,
}

/// The value of an optional byte vector.
pub open spec fn opt_bytes(o: Option<Vec<u8>>) -> Option<Seq<u8>> {
    match o {
        Some(v) => Some(v@),
        None => None,
    }
}

/// The value of a list of alpha layers.
pub open spec fn layers_view(s: Seq<(u8, u16, Vec<(u16, u32)>)>) -> Seq<(u8, u16, Seq<(u16, u32)>)> {
    s.map_values(|l: (u8, u16, Vec<(u16, u32)>)| (l.0, l.1, l.2@))
}

impl View for TerrainCell {
    type V = CellView;

    open spec fn view(&self) -> CellView {
        CellView {
            cell_x: self.cell_x,
            cell_y: self.cell_y,
            water_height: self.water_height,
            land_flags: self.land_flags,
            height_offset: self.height_offset,
            height_deltas: self.height_deltas@,
            vhgt_footer: self.vhgt_footer@,
            vertex_normals: opt_bytes(self.vertex_normals),
            vertex_colors: opt_bytes(self.vertex_colors),
            base_textures: self.base_textures@,
            fallback_btxt: self.fallback_btxt@,
            additional_textures: self.additional_textures@,
            alpha_layers: layers_view(self.alpha_layers@),
        }
    }
}

/// The cell coordinates of a map entry.
pub type CellKey = (i32, i32);

/// The map made by inserting the entries of `s` in order.
pub open spec fn cells_map(s: Seq<(CellKey, TerrainCell)>) -> Map<CellKey, CellView>
    decreases s.len(),
{
    if s.len() == 0 {
        Map::empty()
    } else {
        cells_map(s.drop_last()).insert(s.last().0, s.last().1@)
    }
}

/// No two entries of `s` have the same key.
pub open spec fn distinct_cells(s: Seq<(CellKey, TerrainCell)>) -> bool {
    forall|i: int, j: int|
        0 <= i < s.len() && 0 <= j < s.len() && i != j ==> (#[trigger] s[i]).0 != (#[trigger] s[j]).0
}

/// With distinct keys, the map holds exactly the entries' keys, each with
/// its entry's cell, and has as many keys as entries.
proof fn lemma_cells_map(s: Seq<(CellKey, TerrainCell)>)
    requires
        distinct_cells(s),
    ensures
        forall|i: int|
            0 <= i < s.len() ==> cells_map(s).contains_key((#[trigger] s[i]).0) && cells_map(
                s,
            )[s[i].0] == s[i].1@,
        forall|k: CellKey|
            #[trigger] cells_map(s).contains_key(k) ==> exists|i: int| 0 <= i < s.len() && s[i].0 == k,
        cells_map(s).dom().finite(),
        cells_map(s).dom().len() == s.len(),
    decreases s.len(),
{
    if s.len() > 0 {
        let q = s.drop_last();
        assert(distinct_cells(q)) by {
            assert forall|i: int, j: int|
                0 <= i < q.len() && 0 <= j < q.len() && i != j implies (#[trigger] q[i]).0 != (
                #[trigger] q[j]).0 by {
                assert(q[i] == s[i] && q[j] == s[j]);
            }
        }
        lemma_cells_map(q);
        let k = s.last().0;
        assert(!cells_map(q).contains_key(k)) by {
            if cells_map(q).contains_key(k) {
                let i = choose|i: int| 0 <= i < q.len() && q[i].0 == k;
                assert(q[i] == s[i]);
            }
        }
        assert forall|i: int| 0 <= i < s.len() implies cells_map(s).contains_key(
            (#[trigger] s[i]).0,
        ) && cells_map(s)[s[i].0] == s[i].1@ by {
            if i < s.len() - 1 {
                assert(q[i] == s[i]);
            }
        }
        assert forall|kk: CellKey| #[trigger] cells_map(s).contains_key(kk) implies exists|i: int|
            0 <= i < s.len() && s[i].0 == kk by {
            if kk == k {
                assert(s[s.len() - 1].0 == kk);
            } else {
                let i = choose|i: int| 0 <= i < q.len() && q[i].0 == kk;
                assert(q[i] == s[i]);
            }
        }
        assert(cells_map(s).dom() =~= cells_map(q).dom().insert(k));
    }
}

/// Terrain cells keyed by grid coordinates.
#[derive(Debug)]
pub struct TerrainCells {
    entries: Vec<(CellKey, TerrainCell)>,
}

impl View for TerrainCells {
    type V = Map<CellKey, CellView>;

    closed spec fn view(&self) -> Map<CellKey, CellView> {
        cells_map(self.entries@)
    }
}

impl TerrainCells {
    /// No two entries share coordinates.
    #[verifier::type_invariant]
    spec fn wf(self) -> bool {
        distinct_cells(self.entries@)
    }

    /// No cells.
    pub fn new() -> (c: Self)
        ensures
            c@ == Map::<CellKey, CellView>::empty(),
    {
        TerrainCells { entries: Vec::new() }
    }

    /// The position of the entry with key `k`.
    fn find(&self, k: CellKey) -> (r: Option<usize>)
        ensures
            match r {
                Some(i) => i < self.entries@.len() && self.entries@[i as int].0 == k,
                None => forall|i: int| 0 <= i < self.entries@.len() ==> (#[trigger] self.entries@[i]).0 != k,
            },
    {
        let mut i: usize = 0;
        while i < self.entries.len()
            invariant
                i <= self.entries@.len(),
                forall|j: int| 0 <= j < i ==> (#[trigger] self.entries@[j]).0 != k,
            decreases self.entries.len() - i,
        {
            if self.entries[i].0.0 == k.0 && self.entries[i].0.1 == k.1 {
                return Some(i);
            }
            i = i + 1;
        }
        None
    }

    /// Number of cells.
    pub fn len(&self) -> (n: usize)
        ensures
            n == self@.dom().len(),
    {
        proof {
            use_type_invariant(self);
            lemma_cells_map(self.entries@);
        }
        self.entries.len()
    }

    /// The cell at coordinates `k`, if any.
    pub fn get(&self, k: CellKey) -> (r: Option<&TerrainCell>)
        ensures
            match r {
                Some(c) => self@.contains_key(k) && self@[k] == c@,
                None => !self@.contains_key(k),
            },
    {
        proof {
            use_type_invariant(self);
            lemma_cells_map(self.entries@);
        }
        match self.find(k) {
            Some(i) => Some(&self.entries[i].1),
            None => {
                proof {
                    if self@.contains_key(k) {
                        let j = choose|j: int| 0 <= j < self.entries@.len() && self.entries@[j].0 == k;
                        assert(self.entries@[j].0 != k);
                    }
                }
                None
            },
        }
    }

    /// Remove and return the cell at coordinates `k`, if any.
    pub fn take(&mut self, k: CellKey) -> (r: Option<TerrainCell>)
        ensures
            match r {
                Some(c) => old(self)@.contains_key(k) && old(self)@[k] == c@,
                None => !old(self)@.contains_key(k),
            },
            final(self)@ == old(self)@.remove(k),
    {
        proof {
            use_type_invariant(&*self);
            lemma_cells_map(self.entries@);
        }
        let ghost before = self.entries@;
        match self.find(k) {
            Some(i) => {
                let mut entries = Vec::new();
                std::mem::swap(&mut entries, &mut self.entries);
                let (_, c) = entries.remove(i);
                proof {
                    let after = entries@;
                    assert(after =~= before.remove(i as int));
                    assert(distinct_cells(after)) by {
                        assert forall|a: int, b: int|
                            0 <= a < after.len() && 0 <= b < after.len() && a != b implies (
                            #[trigger] after[a]).0 != (#[trigger] after[b]).0 by {
                            let aa = if a < i { a } else { a + 1 };
                            let bb = if b < i { b } else { b + 1 };
                            assert(after[a] == before[aa] && after[b] == before[bb]);
                        }
                    }
                    lemma_cells_map(after);
                    assert(cells_map(after) =~= cells_map(before).remove(k)) by {
                        assert forall|kk: CellKey| #[trigger] cells_map(after).contains_key(kk) <==> cells_map(
                            before,
                        ).remove(k).contains_key(kk) by {
                            if cells_map(after).contains_key(kk) {
                                let j = choose|j: int| 0 <= j < after.len() && after[j].0 == kk;
                                let jj = if j < i { j } else { j + 1 };
                                assert(after[j] == before[jj]);
                            }
                            if cells_map(before).contains_key(kk) && kk != k {
                                let j = choose|j: int| 0 <= j < before.len() && before[j].0 == kk;
                                assert(j != i);
                                let jj = if j < i { j } else { j - 1 };
                                assert(after[jj] == before[j]);
                            }
                        }
                        assert forall|kk: CellKey| #[trigger] cells_map(after).contains_key(kk) implies cells_map(
                            after,
                        )[kk] == cells_map(before)[kk] by {
                            let j = choose|j: int| 0 <= j < after.len() && after[j].0 == kk;
                            let jj = if j < i { j } else { j + 1 };
                            assert(after[j] == before[jj]);
                        }
                    }
                }
                self.entries = entries;
                Some(c)
            },
            None => {
                proof {
                    if cells_map(before).contains_key(k) {
                        let j = choose|j: int| 0 <= j < before.len() && before[j].0 == k;
                        assert(before[j].0 != k);
                    }
                    assert(cells_map(before).remove(k) =~= cells_map(before));
                }
                None
            },
        }
    }

    /// Set the cell at coordinates `k`.
    pub fn insert(&mut self, k: CellKey, c: TerrainCell)
        ensures
            final(self)@ == old(self)@.insert(k, c@),
    {
        let _previous = self.take(k);
        proof {
            use_type_invariant(&*self);
            lemma_cells_map(self.entries@);
        }
        let ghost before = self.entries@;
        let ghost cv = c@;
        let mut entries = Vec::new();
        std::mem::swap(&mut entries, &mut self.entries);
        entries.push((k, c));
        proof {
            let after = entries@;
            assert(after.drop_last() =~= before);
            assert(!cells_map(before).contains_key(k));
            assert(distinct_cells(after)) by {
                assert forall|a: int, b: int|
                    0 <= a < after.len() && 0 <= b < after.len() && a != b implies (
                    #[trigger] after[a]).0 != (#[trigger] after[b]).0 by {
                    if a < before.len() {
                        assert(after[a] == before[a]);
                    }
                    if b < before.len() {
                        assert(after[b] == before[b]);
                    }
                }
            }
            assert(cells_map(after) =~= cells_map(before).insert(k, cv));
        }
        self.entries = entries;
    }
}

/// The bounds of the cells' grid coordinates: (min x, max x, min y, max y);
/// with no cells, (`i32::MAX`, `i32::MIN`, `i32::MAX`, `i32::MIN`).
pub fn cell_range(cells: &TerrainCells) -> (r: (i32, i32, i32, i32))
    ensures
        forall|k: CellKey|
            #[trigger] cells@.contains_key(k) ==> r.0 <= k.0 <= r.1 && r.2 <= k.1 <= r.3,
        cells@.dom().len() == 0 ==> r == (i32::MAX, i32::MIN, i32::MAX, i32::MIN),
        cells@.dom().len() > 0 ==> {
            &&& exists|k: CellKey| #[trigger] cells@.contains_key(k) && k.0 == r.0
            &&& exists|k: CellKey| #[trigger] cells@.contains_key(k) && k.0 == r.1
            &&& exists|k: CellKey| #[trigger] cells@.contains_key(k) && k.1 == r.2
            &&& exists|k: CellKey| #[trigger] cells@.contains_key(k) && k.1 == r.3
        },
{
    proof {
        use_type_invariant(cells);
        lemma_cells_map(cells.entries@);
    }
    let ghost s = cells.entries@;
    let mut min_x = i32::MAX;
    let mut max_x = i32::MIN;
    let mut min_y = i32::MAX;
    let mut max_y = i32::MIN;
    let mut i: usize = 0;
    while i < cells.entries.len()
        invariant
            s == cells.entries@,
            i <= s.len(),
            forall|j: int|
                0 <= j < i ==> min_x <= (#[trigger] s[j]).0.0 <= max_x && min_y <= s[j].0.1 <= max_y,
            i == 0 ==> min_x == i32::MAX && max_x == i32::MIN && min_y == i32::MAX && max_y
                == i32::MIN,
            i > 0 ==> {
                &&& exists|j: int| 0 <= j < i && (#[trigger] s[j]).0.0 == min_x
                &&& exists|j: int| 0 <= j < i && (#[trigger] s[j]).0.0 == max_x
                &&& exists|j: int| 0 <= j < i && (#[trigger] s[j]).0.1 == min_y
                &&& exists|j: int| 0 <= j < i && (#[trigger] s[j]).0.1 == max_y
            },
        decreases s.len() - i,
    {
        let (cx, cy) = cells.entries[i].0;
        if cx < min_x {
            min_x = cx;
        }
        if cx > max_x {
            max_x = cx;
        }
        if cy < min_y {
            min_y = cy;
        }
        if cy > max_y {
            max_y = cy;
        }
        i = i + 1;
    }
    proof {
        assert forall|k: CellKey| #[trigger] cells@.contains_key(k) implies min_x <= k.0 <= max_x
            && min_y <= k.1 <= max_y by {
            let j = choose|j: int| 0 <= j < s.len() && s[j].0 == k;
            assert(min_x <= s[j].0.0);
        }
        if s.len() > 0 {
            let a = choose|j: int| 0 <= j < s.len() && (#[trigger] s[j]).0.0 == min_x;
            assert(cells@.contains_key(s[a].0));
            let b = choose|j: int| 0 <= j < s.len() && (#[trigger] s[j]).0.0 == max_x;
            assert(cells@.contains_key(s[b].0));
            let c = choose|j: int| 0 <= j < s.len() && (#[trigger] s[j]).0.1 == min_y;
            assert(cells@.contains_key(s[c].0));
            let d = choose|j: int| 0 <= j < s.len() && (#[trigger] s[j]).0.1 == max_y;
            assert(cells@.contains_key(s[d].0));
        }
    }
    (min_x, max_x, min_y, max_y)
}

/// A signature from its four bytes.
pub open spec fn sig4(a: u8, b: u8, c: u8, d: u8) -> Signature {
    Signature([a, b, c, d])
}

/// The index of the first of `names` equal to `target` ignoring ASCII case.
pub open spec fn first_name_match(names: Seq<Seq<char>>, target: Seq<char>) -> Option<int>
    decreases names.len(),
{
    if names.len() == 0 {
        None
    } else if lower_seq(names[0]) == lower_seq(target) {
        Some(0)
    } else {
        match first_name_match(names.drop_first(), target) {
            Some(i) => Some(i + 1),
            None => None,
        }
    }
}

/// How the FormIDs of a plugin are put in load order: the plugin's master
/// names, the file names of the plugins in load order, and the plugin's
/// own position.
pub type FormIdScope = (Seq<Seq<char>>, Seq<Seq<char>>, int);

/// A plugin-local FormID in load order: its master byte names a master,
/// which is replaced by the position of the first plugin of that name
/// (ASCII case ignored); the plugin's own position when the byte is past the
/// master list or no plugin has the master's name. The position is taken
/// modulo 256.
pub open spec fn spec_resolve_formid(raw: u32, scope: FormIdScope) -> u32 {
    let masters = scope.0;
    let mi = raw / 0x100_0000;
    let local = raw % 0x100_0000;
    let idx = if mi < masters.len() {
        match first_name_match(scope.1, masters[mi as int]) {
            Some(i) => i,
            None => scope.2,
        }
    } else {
        scope.2
    };
    ((idx % 256) * 0x100_0000 + local) as u32
}

/// The FormID scope given by executable values.
pub open spec fn scope_of(masters: Seq<String>, names: Seq<String>, self_idx: usize) -> FormIdScope {
    (strs(masters), strs(names), self_idx as int)
}

/// The index of the first of `names` equal to `target` ignoring ASCII
/// case (see [`first_name_match`]).
fn find_name(names: &[String], target: &String) -> (r: Option<usize>)
    ensures
        r matches Some(i) ==> first_name_match(strs(names@), target@) == Some(i as int),
        r is None ==> first_name_match(strs(names@), target@) is None,
{
    let ghost ns = strs(names@);
    let t = lower_chars(chars_of(target.as_str()).as_slice());
    let mut i: usize = 0;
    assert(ns.skip(0) =~= ns);
    while i < names.len()
        invariant
            i <= names@.len(),
            ns == strs(names@),
            t@ == lower_seq(target@),
            first_name_match(ns, target@) == match first_name_match(ns.skip(i as int), target@) {
                Some(j) => Some(j + i),
                None => None,
            },
        decreases names.len() - i,
    {
        let n = lower_chars(chars_of(names[i].as_str()).as_slice());
        assert(ns.skip(i as int)[0] == names@[i as int]@);
        if chars_equal(n.as_slice(), t.as_slice()) {
            return Some(i);
        }
        assert(ns.skip(i as int).drop_first() =~= ns.skip(i + 1));
        i = i + 1;
    }
    assert(ns.skip(i as int) =~= seq![]);
    None
}

/// Put a plugin-local FormID in load order (see [`spec_resolve_formid`]).
fn resolve_formid(raw: u32, masters: &[String], names: &[String], self_idx: usize) -> (r: u32)
    ensures
        r == spec_resolve_formid(raw, scope_of(masters@, names@, self_idx)),
{
    let mi = (raw / 0x100_0000) as usize;
    let local = raw % 0x100_0000;
    let mut idx = self_idx;
    if mi < masters.len() {
        assert(strs(masters@)[mi as int] == masters@[mi as int]@);
        let found = find_name(names, &masters[mi]);
        match found {
            Some(i) => {
                idx = i;
            },
            None => {},
        }
    }
    let hi = (idx % 256) as u32;
    hi * 0x100_0000 + local
}

/// The signature `VHGT` (heightmap).
pub open spec fn vhgt_sig() -> Signature {
    sig4(0x56, 0x48, 0x47, 0x54)
}

/// The signature `VNML` (vertex normals).
pub open spec fn vnml_sig() -> Signature {
    sig4(0x56, 0x4E, 0x4D, 0x4C)
}

/// The signature `VCLR` (vertex colors).
pub open spec fn vclr_sig() -> Signature {
    sig4(0x56, 0x43, 0x4C, 0x52)
}

/// The signature `BTXT` (base texture).
pub open spec fn btxt_sig() -> Signature {
    sig4(0x42, 0x54, 0x58, 0x54)
}

/// The signature `ATXT` (additional texture).
pub open spec fn atxt_sig() -> Signature {
    sig4(0x41, 0x54, 0x58, 0x54)
}

/// The signature `VTXT` (alpha layer data).
pub open spec fn vtxt_sig() -> Signature {
    sig4(0x56, 0x54, 0x58, 0x54)
}

/// Bytes of a 33x33 grid of 3-byte vertices.
pub const GRID3_SIZE: usize = 3267;

/// Bytes of a heightmap before its footer: a 4-byte offset and 33x33 deltas.
pub const VHGT_MIN_SIZE: usize = 1093;

/// The data of the first subrecord `sig` cut to a vertex grid, when that
/// subrecord exists and is long enough.
pub open spec fn first_grid(subs: Seq<Subrecord>, sig: Signature) -> Option<Seq<u8>> {
    match first_with_sig(subs, sig) {
        Some(i) => if subs[i].raw_data@.len() >= 3267 {
            Some(subs[i].raw_data@.take(3267))
        } else {
            None
        },
        None => None,
    }
}

/// The base textures per quadrant after the BTXT subrecords of `subs`, in
/// order: each one (8 bytes or more) with a quadrant below 4 sets that
/// quadrant to its FormID put in load order.
pub open spec fn btxt_fold(subs: Seq<Subrecord>, scope: FormIdScope) -> Seq<Option<u32>>
    decreases subs.len(),
{
    if subs.len() == 0 {
        seq![None, None, None, None]
    } else {
        let prev = btxt_fold(subs.drop_last(), scope);
        let d = subs.last().raw_data@;
        if subs.last().signature == btxt_sig() && d.len() >= 8 && d[4] < 4 {
            prev.update(d[4] as int, Some(spec_resolve_formid(le32(d, 0) as u32, scope)))
        } else {
            prev
        }
    }
}

/// The entries of a VTXT subrecord: each 8 bytes hold a position and, at
/// offset 4, an opacity.
pub open spec fn vtxt_entries(d: Seq<u8>) -> Seq<(u16, u32)> {
    Seq::new(d.len() / 8, |k: int| (le16(d, 8 * k) as u16, le32(d, 8 * k + 4) as u32))
}

/// Texture layers read so far: the additional textures, the alpha layers,
/// and the quadrant and layer of an ATXT still waiting for its VTXT.
pub type TexState = (Seq<(u32, u8, u16)>, Seq<(u8, u16, Seq<(u16, u32)>)>, Option<(u8, u16)>);

/// The texture layers of the subrecords `subs`, in order: each ATXT (8
/// bytes or more) adds a texture and waits for its VTXT; a VTXT (8 bytes or
/// more) gives the waiting ATXT its alpha layer, and ends the wait.
pub open spec fn tex_fold(subs: Seq<Subrecord>, scope: FormIdScope) -> TexState
    decreases subs.len(),
{
    if subs.len() == 0 {
        (seq![], seq![], None)
    } else {
        let (a, l, cur) = tex_fold(subs.drop_last(), scope);
        let d = subs.last().raw_data@;
        if subs.last().signature == atxt_sig() && d.len() >= 8 {
            let fid = spec_resolve_formid(le32(d, 0) as u32, scope);
            let layer = le16(d, 6) as u16;
            (a.push((fid, d[4], layer)), l, Some((d[4], layer)))
        } else if subs.last().signature == vtxt_sig() && d.len() >= 8 {
            match cur {
                Some((q, ly)) => (a, l.push((q, ly, vtxt_entries(d))), None),
                None => (a, l, None),
            }
        } else {
            (a, l, cur)
        }
    }
}

/// The terrain cell (`cx`, `cy`) with water height `wh` that a LAND
/// record describes: none without a VHGT subrecord of at least 1093 bytes.
pub open spec fn spec_parse_land(r: Record, cx: i32, cy: i32, wh: u32, scope: FormIdScope) -> Option<
    CellView,
> {
    let subs = r.subrecords@;
    match first_with_sig(subs, vhgt_sig()) {
        None => None,
        Some(vi) => {
            let d = subs[vi].raw_data@;
            if d.len() < 1093 {
                None
            } else {
                Some(
                    CellView {
                        cell_x: cx,
                        cell_y: cy,
                        water_height: wh,
                        land_flags: 0,
                        height_offset: le32(d, 0) as u32,
                        height_deltas: d.subrange(4, 1093).map_values(|b: u8| b as i8),
                        vhgt_footer: if d.len() >= 1096 {
                            d.subrange(1093, 1096)
                        } else {
                            seq![0u8, 0u8, 0u8]
                        },
                        vertex_normals: first_grid(subs, vnml_sig()),
                        vertex_colors: first_grid(subs, vclr_sig()),
                        base_textures: btxt_fold(subs, scope),
                        fallback_btxt: seq![None, None, None, None],
                        additional_textures: tex_fold(subs, scope).0,
                        alpha_layers: tex_fold(subs, scope).1,
                    },
                )
            }
        },
    }
}

/// The index of the first subrecord with signature `sig`.
fn find_sig(subs: &Vec<Subrecord>, sig: Signature) -> (r: Option<usize>)
    ensures
        r matches Some(i) ==> first_with_sig(subs@, sig) == Some(i as int) && i < subs@.len(),
        r is None ==> first_with_sig(subs@, sig) is None,
{
    proof {
        lemma_first_with_sig(subs@, sig);
    }
    let mut i: usize = 0;
    while i < subs.len()
        invariant
            i <= subs@.len(),
            forall|j: int| 0 <= j < i ==> subs@[j].signature != sig,
            first_with_sig(subs@, sig) matches Some(k) ==> 0 <= k < subs@.len() && subs@[k].signature
                == sig && forall|j: int| 0 <= j < k ==> subs@[j].signature != sig,
            first_with_sig(subs@, sig) is None ==> forall|j: int|
                0 <= j < subs@.len() ==> subs@[j].signature != sig,
        decreases subs.len() - i,
    {
        if subs[i].signature == sig {
            return Some(i);
        }
        i = i + 1;
    }
    None
}

/// The first vertex grid of signature `sig` (see [`first_grid`]).
fn grid_of(subs: &Vec<Subrecord>, sig: Signature) -> (r: Option<Vec<u8>>)
    ensures
        opt_bytes(r) == first_grid(subs@, sig),
{
    match find_sig(subs, sig) {
        Some(i) => {
            let d = &subs[i].raw_data;
            if d.len() >= GRID3_SIZE {
                Some(copy_range(d.as_slice(), 0, GRID3_SIZE))
            } else {
                None
            }
        },
        None => None,
    }
}

/// An array of four with element `q` replaced.
fn set_quadrant(a: [Option<u32>; 4], q: usize, v: Option<u32>) -> (r: [Option<u32>; 4])
    requires
        q < 4,
    ensures
        r@ == a@.update(q as int, v),
{
    let r = [
        if q == 0 { v } else { a[0] },
        if q == 1 { v } else { a[1] },
        if q == 2 { v } else { a[2] },
        if q == 3 { v } else { a[3] },
    ];
    assert(r@ =~= a@.update(q as int, v));
    r
}

/// The base textures of the subrecords (see [`btxt_fold`]).
fn base_textures_of(subs: &Vec<Subrecord>, masters: &[String], names: &[String], self_idx: usize) -> (r: [Option<u32>; 4])
    ensures
        r@ == btxt_fold(subs@, scope_of(masters@, names@, self_idx)),
{
    let ghost scope = scope_of(masters@, names@, self_idx);
    let btxt = Signature([0x42, 0x54, 0x58, 0x54]);
    let mut bt: [Option<u32>; 4] = [None, None, None, None];
    let mut i: usize = 0;
    assert(bt@ =~= btxt_fold(subs@.take(0), scope));
    while i < subs.len()
        invariant
            i <= subs@.len(),
            scope == scope_of(masters@, names@, self_idx),
            btxt == btxt_sig(),
            bt@ == btxt_fold(subs@.take(i as int), scope),
        decreases subs.len() - i,
    {
        let sr = &subs[i];
        assert(subs@.take(i + 1).drop_last() =~= subs@.take(i as int));
        assert(subs@.take(i + 1).last() == subs@[i as int]);
        if sr.signature == btxt && sr.raw_data.len() >= 8 && sr.raw_data[4] < 4 {
            let fid = resolve_formid(read_u32(sr.raw_data.as_slice(), 0), masters, names, self_idx);
            bt = set_quadrant(bt, sr.raw_data[4] as usize, Some(fid));
        }
        i = i + 1;
    }
    assert(subs@.take(i as int) =~= subs@);
    bt
}

/// The entries of a VTXT subrecord (see [`vtxt_entries`]).
fn vtxt_entries_of(d: &[u8]) -> (r: Vec<(u16, u32)>)
    ensures
        r@ == vtxt_entries(d@),
{
    let n = d.len() / 8;
    let mut r: Vec<(u16, u32)> = Vec::new();
    let mut k: usize = 0;
    while k < n
        invariant
            k <= n,
            n == d@.len() / 8,
            r@ == Seq::new(k as nat, |j: int| (le16(d@, 8 * j) as u16, le32(d@, 8 * j + 4) as u32)),
        decreases n - k,
    {
        assert(8 * k + 8 <= d@.len()) by (nonlinear_arith)
            requires
                k < n,
                n == d@.len() / 8,
        ;
        assert(d@.len() == d.len());
        let off: usize = 8 * k;
        let pos = read_u16(d, off);
        let op = read_u32(d, off + 4);
        r.push((pos, op));
        assert(r@ =~= Seq::new((k + 1) as nat, |j: int| (le16(d@, 8 * j) as u16, le32(d@, 8 * j + 4) as u32)));
        k = k + 1;
    }
    assert(r@ =~= vtxt_entries(d@));
    r
}

/// The texture layers of the subrecords (see [`tex_fold`]).
fn texture_layers_of(subs: &Vec<Subrecord>, masters: &[String], names: &[String], self_idx: usize) -> (r: (
    Vec<(u32, u8, u16)>,
    Vec<(u8, u16, Vec<(u16, u32)>)>,
))
    ensures
        r.0@ == tex_fold(subs@, scope_of(masters@, names@, self_idx)).0,
        layers_view(r.1@) == tex_fold(subs@, scope_of(masters@, names@, self_idx)).1,
{
    let ghost scope = scope_of(masters@, names@, self_idx);
    let atxt = Signature([0x41, 0x54, 0x58, 0x54]);
    let vtxt = Signature([0x56, 0x54, 0x58, 0x54]);
    let mut adds: Vec<(u32, u8, u16)> = Vec::new();
    let mut layers: Vec<(u8, u16, Vec<(u16, u32)>)> = Vec::new();
    let mut current: Option<(u8, u16)> = None;
    let mut i: usize = 0;
    assert(layers_view(layers@) =~= seq![]);
    while i < subs.len()
        invariant
            i <= subs@.len(),
            scope == scope_of(masters@, names@, self_idx),
            atxt == atxt_sig(),
            vtxt == vtxt_sig(),
            (adds@, layers_view(layers@), current) == tex_fold(subs@.take(i as int), scope),
        decreases subs.len() - i,
    {
        let sr = &subs[i];
        assert(subs@.take(i + 1).drop_last() =~= subs@.take(i as int));
        assert(subs@.take(i + 1).last() == subs@[i as int]);
        let d = sr.raw_data.as_slice();
        if sr.signature == atxt && d.len() >= 8 {
            let fid = resolve_formid(read_u32(d, 0), masters, names, self_idx);
            let layer = read_u16(d, 6);
            adds.push((fid, d[4], layer));
            current = Some((d[4], layer));
        } else if sr.signature == vtxt && d.len() >= 8 {
            match current {
                Some((q, ly)) => {
                    let ghost before = layers_view(layers@);
                    let entries = vtxt_entries_of(d);
                    layers.push((q, ly, entries));
                    assert(layers_view(layers@) =~= before.push((q, ly, vtxt_entries(d@))));
                },
                None => {},
            }
            current = None;
        }
        i = i + 1;
    }
    assert(subs@.take(i as int) =~= subs@);
    (adds, layers)
}

/// Read the terrain cell described by a LAND record (see
/// [`spec_parse_land`]); FormIDs are put in load order through the
/// plugin's `masters`, the `names` of the plugins and its own position.
pub fn parse_land_record(
    record: &Record,
    cell_x: i32,
    cell_y: i32,
    water_height: u32,
    masters: &[String],
    names: &[String],
    self_idx: usize,
) -> (r: Option<TerrainCell>)
    ensures
        match spec_parse_land(*record, cell_x, cell_y, water_height, scope_of(masters@, names@, self_idx)) {
            Some(c) => r matches Some(t) && t@ == c,
            None => r is None,
        },
{
    let subs = &record.subrecords;
    let vi = match find_sig(subs, Signature([0x56, 0x48, 0x47, 0x54])) {
        Some(i) => i,
        None => {
            return None;
        },
    };
    let d = subs[vi].raw_data.as_slice();
    if d.len() < VHGT_MIN_SIZE {
        return None;
    }
    let height_offset = read_u32(d, 0);
    let mut height_deltas: Vec<i8> = Vec::new();
    let mut k: usize = 4;
    while k < VHGT_MIN_SIZE
        invariant
            4 <= k <= 1093,
            d@.len() >= 1093,
            height_deltas@ == d@.subrange(4, k as int).map_values(|b: u8| b as i8),
        decreases 1093 - k,
    {
        height_deltas.push(#[verifier::truncate] (d[k] as i8));
        assert(height_deltas@ =~= d@.subrange(4, k + 1).map_values(|b: u8| b as i8));
        k = k + 1;
    }
    let vhgt_footer: [u8; 3] = if d.len() >= VHGT_MIN_SIZE + 3 {
        [d[1093], d[1094], d[1095]]
    } else {
        [0, 0, 0]
    };
    assert(vhgt_footer@ =~= (if d@.len() >= 1096 {
        d@.subrange(1093, 1096)
    } else {
        seq![0u8, 0u8, 0u8]
    }));
    let vertex_normals = grid_of(subs, Signature([0x56, 0x4E, 0x4D, 0x4C]));
    let vertex_colors = grid_of(subs, Signature([0x56, 0x43, 0x4C, 0x52]));
    let base_textures = base_textures_of(subs, masters, names, self_idx);
    let (additional_textures, alpha_layers) = texture_layers_of(subs, masters, names, self_idx);
    let cell = TerrainCell {
        cell_x,
        cell_y,
        water_height,
        land_flags: 0,
        height_offset,
        height_deltas,
        vhgt_footer,
        vertex_normals,
        vertex_colors,
        base_textures,
        fallback_btxt: [None, None, None, None],
        additional_textures,
        alpha_layers,
    };
    proof {
        let c = spec_parse_land(*record, cell_x, cell_y, water_height, scope_of(masters@, names@, self_idx));
        assert(cell.fallback_btxt@ =~= seq![None, None, None, None]);
        assert(cell@ =~= c->0);
    }
    Some(cell)
}

/// Whether a quadrant of base textures is set.
pub open spec fn has_base(bt: Seq<Option<u32>>) -> bool {
    bt[0] is Some || bt[1] is Some || bt[2] is Some || bt[3] is Some
}

/// A cell read from an override merged with the earlier version `p` of the
/// cell: vertex colors, vertex normals, base textures and texture layers
/// the override lacks are kept from `p` (the earlier colors also when only
/// `p` has base textures), and the earlier base textures become the
/// fallback ones.
pub open spec fn spec_merge(c: CellView, p: CellView) -> CellView {
    let nh = has_base(c.base_textures);
    let ph = has_base(p.base_textures);
    let keep_layers = c.additional_textures.len() == 0 && p.additional_textures.len() > 0;
    CellView {
        cell_x: c.cell_x,
        cell_y: c.cell_y,
        water_height: c.water_height,
        land_flags: c.land_flags,
        height_offset: c.height_offset,
        height_deltas: c.height_deltas,
        vhgt_footer: c.vhgt_footer,
        vertex_normals: if c.vertex_normals is None && p.vertex_normals is Some {
            p.vertex_normals
        } else {
            c.vertex_normals
        },
        vertex_colors: if p.vertex_colors is Some && (c.vertex_colors is None || (!nh && ph)) {
            p.vertex_colors
        } else {
            c.vertex_colors
        },
        base_textures: if !nh && ph {
            p.base_textures
        } else {
            c.base_textures
        },
        fallback_btxt: if !nh && ph {
            p.fallback_btxt
        } else if nh && ph {
            Seq::new(
                4,
                |q: int|
                    if p.base_textures[q] is Some {
                        p.base_textures[q]
                    } else {
                        c.fallback_btxt[q]
                    },
            )
        } else {
            c.fallback_btxt
        },
        additional_textures: if keep_layers {
            p.additional_textures
        } else {
            c.additional_textures
        },
        alpha_layers: if keep_layers {
            p.alpha_layers
        } else {
            c.alpha_layers
        },
    }
}

/// Whether any quadrant is set.
fn any_base(bt: &[Option<u32>; 4]) -> (b: bool)
    ensures
        b == has_base(bt@),
{
    bt[0].is_some() || bt[1].is_some() || bt[2].is_some() || bt[3].is_some()
}

/// Merge a cell read from an override with the cell's earlier version (see
/// [`spec_merge`]).
fn merge_cells(cell: TerrainCell, prev: TerrainCell) -> (r: TerrainCell)
    ensures
        r@ == spec_merge(cell@, prev@),
{
    let ghost cv = cell@;
    let ghost pv = prev@;
    let nh = any_base(&cell.base_textures);
    let ph = any_base(&prev.base_textures);
    let TerrainCell {
        vertex_colors: pvc,
        vertex_normals: pvn,
        base_textures: pbt,
        fallback_btxt: pfb,
        additional_textures: pat,
        alpha_layers: pal,
        ..
    } = prev;
    let mut c = cell;
    if pvc.is_some() && (c.vertex_colors.is_none() || (!nh && ph)) {
        c.vertex_colors = pvc;
    }
    if c.vertex_normals.is_none() && pvn.is_some() {
        c.vertex_normals = pvn;
    }
    if !nh && ph {
        c.base_textures = pbt;
        c.fallback_btxt = pfb;
    } else if nh && ph {
        let f = c.fallback_btxt;
        c.fallback_btxt = [
            if pbt[0].is_some() { pbt[0] } else { f[0] },
            if pbt[1].is_some() { pbt[1] } else { f[1] },
            if pbt[2].is_some() { pbt[2] } else { f[2] },
            if pbt[3].is_some() { pbt[3] } else { f[3] },
        ];
        assert(c.fallback_btxt@ =~= Seq::new(
            4,
            |q: int|
                if pv.base_textures[q] is Some {
                    pv.base_textures[q]
                } else {
                    cv.fallback_btxt[q]
                },
        ));
    }
    if c.additional_textures.len() == 0 && pat.len() > 0 {
        c.additional_textures = pat;
        c.alpha_layers = pal;
    }
    assert(c@ =~= spec_merge(cv, pv));
    c
}

/// The cells after a cell read for (`k`) is stored, merged with the
/// earlier version at the same coordinates, if any.
pub open spec fn store_cell(cells: Map<CellKey, CellView>, k: CellKey, c: CellView) -> Map<
    CellKey,
    CellView,
> {
    cells.insert(
        k,
        if cells.contains_key(k) {
            spec_merge(c, cells[k])
        } else {
            c
        },
    )
}

/// The position state while scanning: the current cell's grid
/// coordinates, when known, and its water height (`f32` bits).
pub type Coords = (Option<i32>, Option<i32>, u32);

/// `f32::MIN` as bits: the water height before any XCLW is read.
pub const NO_WATER_HEIGHT: u32 = 0xFF7F_FFFF;

/// The signature `XCLC` (cell grid coordinates).
pub open spec fn xclc_sig() -> Signature {
    sig4(0x58, 0x43, 0x4C, 0x43)
}

/// The signature `XCLW` (cell water height).
pub open spec fn xclw_sig() -> Signature {
    sig4(0x58, 0x43, 0x4C, 0x57)
}

/// The signature `CELL`.
pub open spec fn cell_sig() -> Signature {
    sig4(0x43, 0x45, 0x4C, 0x4C)
}

/// The signature `LAND`.
pub open spec fn land_sig() -> Signature {
    sig4(0x4C, 0x41, 0x4E, 0x44)
}

/// The signature `WRLD`.
pub open spec fn wrld_sig() -> Signature {
    sig4(0x57, 0x52, 0x4C, 0x44)
}

/// The position state after a CELL record: its first XCLC (8 bytes or
/// more) gives the coordinates, its first XCLW (4 bytes or more) the water
/// height.
pub open spec fn cell_coords(subs: Seq<Subrecord>, st: Coords) -> Coords {
    let (cx, cy) = match first_with_sig(subs, xclc_sig()) {
        Some(i) => if subs[i].raw_data@.len() >= 8 {
            (Some(le32(subs[i].raw_data@, 0) as i32), Some(le32(subs[i].raw_data@, 4) as i32))
        } else {
            (st.0, st.1)
        },
        None => (st.0, st.1),
    };
    let wh = match first_with_sig(subs, xclw_sig()) {
        Some(i) => if subs[i].raw_data@.len() >= 4 {
            le32(subs[i].raw_data@, 0) as u32
        } else {
            st.2
        },
        None => st.2,
    };
    (cx, cy, wh)
}

/// The cells after a LAND record met in position state `st`: its cell is
/// stored when the coordinates are known and the record has a heightmap.
pub open spec fn land_step(cells: Map<CellKey, CellView>, r: Record, st: Coords, scope: FormIdScope) -> Map<
    CellKey,
    CellView,
> {
    match (st.0, st.1) {
        (Some(cx), Some(cy)) => match spec_parse_land(r, cx, cy, st.2, scope) {
            Some(c) => store_cell(cells, (cx, cy), c),
            None => cells,
        },
        _ => cells,
    }
}

/// The cells after scanning world children `s` in position state `st`:
/// CELL records update the state, LAND records store cells, and nested
/// groups are scanned with the state at their place.
pub open spec fn children_land(
    s: Seq<GroupChild>,
    st: Coords,
    cells: Map<CellKey, CellView>,
    scope: FormIdScope,
) -> Map<CellKey, CellView>
    decreases s,
{
    if s.len() == 0 {
        cells
    } else {
        match s[0] {
            GroupChild::Record(r) => if r.signature == cell_sig() {
                children_land(s.drop_first(), cell_coords(r.subrecords@, st), cells, scope)
            } else if r.signature == land_sig() {
                children_land(s.drop_first(), st, land_step(cells, r, st, scope), scope)
            } else {
                children_land(s.drop_first(), st, cells, scope)
            },
            GroupChild::Group(g) => children_land(
                s.drop_first(),
                st,
                group_land(g, st, cells, scope),
                scope,
            ),
        }
    }
}

/// The cells after scanning a group of world children (see
/// [`children_land`]).
pub open spec fn group_land(
    g: Group,
    st: Coords,
    cells: Map<CellKey, CellView>,
    scope: FormIdScope,
) -> Map<CellKey, CellView>
    decreases g,
{
    children_land(g.children@, st, cells, scope)
}

/// The position state after a CELL record (see [`cell_coords`]).
fn cell_coords_of(subs: &Vec<Subrecord>, st: (Option<i32>, Option<i32>, u32)) -> (r: (
    Option<i32>,
    Option<i32>,
    u32,
))
    ensures
        r == cell_coords(subs@, st),
{
    let mut cx = st.0;
    let mut cy = st.1;
    let mut wh = st.2;
    match find_sig(subs, Signature([0x58, 0x43, 0x4C, 0x43])) {
        Some(i) => {
            let d = subs[i].raw_data.as_slice();
            if d.len() >= 8 {
                cx = Some(#[verifier::truncate] (read_u32(d, 0) as i32));
                cy = Some(#[verifier::truncate] (read_u32(d, 4) as i32));
            }
        },
        None => {},
    }
    match find_sig(subs, Signature([0x58, 0x43, 0x4C, 0x57])) {
        Some(i) => {
            let d = subs[i].raw_data.as_slice();
            if d.len() >= 4 {
                wh = read_u32(d, 0);
            }
        },
        None => {},
    }
    (cx, cy, wh)
}

/// Store the cell of a LAND record met in position state `st` (see
/// [`land_step`]).
fn store_land(
    cells: &mut TerrainCells,
    record: &Record,
    st: (Option<i32>, Option<i32>, u32),
    masters: &[String],
    names: &[String],
    self_idx: usize,
)
    ensures
        final(cells)@ == land_step(old(cells)@, *record, st, scope_of(masters@, names@, self_idx)),
{
    if let (Some(cx), Some(cy)) = (st.0, st.1) {
        if let Some(cell) = parse_land_record(record, cx, cy, st.2, masters, names, self_idx) {
            let prev = cells.take((cx, cy));
            let merged = match prev {
                Some(p) => merge_cells(cell, p),
                None => cell,
            };
            cells.insert((cx, cy), merged);
            assert(cells@ =~= store_cell(old(cells)@, (cx, cy), spec_parse_land(
                *record,
                cx,
                cy,
                st.2,
                scope_of(masters@, names@, self_idx),
            )->0));
        }
    }
}

/// Scan a group of world children for LAND records (see
/// [`group_land`]).
fn scan_world_children_for_land(
    group: &Group,
    cells: &mut TerrainCells,
    st: (Option<i32>, Option<i32>, u32),
    masters: &[String],
    names: &[String],
    self_idx: usize,
)
    ensures
        final(cells)@ == group_land(*group, st, old(cells)@, scope_of(masters@, names@, self_idx)),
    decreases group,
{
    let ghost scope = scope_of(masters@, names@, self_idx);
    let ghost s = group.children@;
    let mut cur = st;
    let mut i: usize = 0;
    assert(s.skip(0) =~= s);
    while i < group.children.len()
        invariant
            i <= s.len(),
            s == group.children@,
            scope == scope_of(masters@, names@, self_idx),
            group_land(*group, st, old(cells)@, scope) == children_land(s.skip(i as int), cur, cells@, scope),
        decreases group.children.len() - i,
    {
        assert(s.skip(i as int)[0] == s[i as int]);
        assert(s.skip(i as int).drop_first() =~= s.skip(i + 1));
        match &group.children[i] {
            GroupChild::Record(r) => {
                if r.signature == Signature([0x43, 0x45, 0x4C, 0x4C]) {
                    cur = cell_coords_of(&r.subrecords, cur);
                } else if r.signature == Signature([0x4C, 0x41, 0x4E, 0x44]) {
                    store_land(cells, r, cur, masters, names, self_idx);
                }
            },
            GroupChild::Group(g) => {
                scan_world_children_for_land(g, cells, cur, masters, names, self_idx);
            },
        }
        i = i + 1;
    }
    assert(s.skip(i as int) =~= seq![]);
}

/// The state while scanning a WRLD group: whether the worldspace is being
/// read, the FormID of the matching WRLD record once met, and the position
/// state.
pub type WrldState = (bool, Option<u32>, Coords);

/// The state before scanning a WRLD group.
pub open spec fn wrld_start() -> WrldState {
    (false, None, (None, None, NO_WATER_HEIGHT))
}

/// Whether a WRLD record is the worldspace `ws`: its Editor ID equals `ws`
/// ignoring ASCII case.
pub open spec fn is_worldspace(r: Record, ws: Seq<char>) -> bool {
    match spec_editor_id(r.subrecords@) {
        Some(e) => lower_seq(e) == lower_seq(ws),
        None => false,
    }
}

/// The cells after scanning the children `s` of a WRLD group for the
/// worldspace `ws`, in state `st`: a WRLD record of the worldspace starts
/// reading (another one stops it once the worldspace was met); while
/// reading, CELL and LAND records are handled as in world children; the
/// world children group of the worldspace (or any, while reading) is
/// scanned from a fresh position state; other groups are scanned as WRLD
/// groups of their own.
pub open spec fn wrld_children(
    s: Seq<GroupChild>,
    ws: Seq<char>,
    st: WrldState,
    cells: Map<CellKey, CellView>,
    scope: FormIdScope,
) -> Map<CellKey, CellView>
    decreases s,
{
    if s.len() == 0 {
        cells
    } else {
        let rest = s.drop_first();
        match s[0] {
            GroupChild::Record(r) => if r.signature == wrld_sig() {
                let st2 = if is_worldspace(r, ws) {
                    (true, Some(r.form_id.0), st.2)
                } else if st.1 is Some {
                    (false, st.1, st.2)
                } else {
                    st
                };
                wrld_children(rest, ws, st2, cells, scope)
            } else if r.signature == cell_sig() && st.0 {
                wrld_children(rest, ws, (st.0, st.1, cell_coords(r.subrecords@, st.2)), cells, scope)
            } else if r.signature == land_sig() && st.0 {
                wrld_children(rest, ws, st, land_step(cells, r, st.2, scope), scope)
            } else {
                wrld_children(rest, ws, st, cells, scope)
            },
            GroupChild::Group(g) => match g.group_type {
                GroupType::WorldChildren(fid) => wrld_children(
                    rest,
                    ws,
                    st,
                    if st.1 == Some(fid) || st.0 {
                        group_land(g, (None, None, NO_WATER_HEIGHT), cells, scope)
                    } else {
                        cells
                    },
                    scope,
                ),
                _ => wrld_children(rest, ws, st, wrld_group(g, ws, cells, scope), scope),
            },
        }
    }
}

/// The cells after scanning a WRLD group (see [`wrld_children`]).
pub open spec fn wrld_group(
    g: Group,
    ws: Seq<char>,
    cells: Map<CellKey, CellView>,
    scope: FormIdScope,
) -> Map<CellKey, CellView>
    decreases g,
{
    wrld_children(g.children@, ws, wrld_start(), cells, scope)
}

/// Whether a record's Editor ID equals `ws` ignoring ASCII case (see
/// [`is_worldspace`]).
pub(crate) fn is_worldspace_record(r: &Record, ws: &Vec<char>) -> (b: bool)
    ensures
        b == match spec_editor_id(r.subrecords@) {
            Some(e) => lower_seq(e) == ws@,
            None => false,
        },
{
    match r.editor_id() {
        Some(e) => {
            let el = lower_chars(chars_of(e).as_slice());
            chars_equal(el.as_slice(), ws.as_slice())
        },
        None => false,
    }
}

/// Scan a WRLD group for the LAND records of worldspace `ws` (see
/// [`wrld_group`]); `ws_lower` is `ws` ASCII lower-cased.
fn scan_wrld_for_land(
    group: &Group,
    ws: &str,
    ws_lower: &Vec<char>,
    cells: &mut TerrainCells,
    masters: &[String],
    names: &[String],
    self_idx: usize,
)
    requires
        ws_lower@ == lower_seq(ws@),
    ensures
        final(cells)@ == wrld_group(*group, ws@, old(cells)@, scope_of(masters@, names@, self_idx)),
    decreases group,
{
    let ghost scope = scope_of(masters@, names@, self_idx);
    let ghost s = group.children@;
    let mut found = false;
    let mut ws_fid: Option<u32> = None;
    let mut cur: (Option<i32>, Option<i32>, u32) = (None, None, NO_WATER_HEIGHT);
    let mut i: usize = 0;
    assert(s.skip(0) =~= s);
    while i < group.children.len()
        invariant
            i <= s.len(),
            s == group.children@,
            ws_lower@ == lower_seq(ws@),
            scope == scope_of(masters@, names@, self_idx),
            wrld_group(*group, ws@, old(cells)@, scope) == wrld_children(
                s.skip(i as int),
                ws@,
                (found, ws_fid, cur),
                cells@,
                scope,
            ),
        decreases group.children.len() - i,
    {
        assert(s.skip(i as int)[0] == s[i as int]);
        assert(s.skip(i as int).drop_first() =~= s.skip(i + 1));
        match &group.children[i] {
            GroupChild::Record(r) => {
                if r.signature == Signature([0x57, 0x52, 0x4C, 0x44]) {
                    if is_worldspace_record(r, ws_lower) {
                        found = true;
                        ws_fid = Some(r.form_id.0);
                    } else if ws_fid.is_some() {
                        found = false;
                    }
                } else if r.signature == Signature([0x43, 0x45, 0x4C, 0x4C]) && found {
                    cur = cell_coords_of(&r.subrecords, cur);
                } else if r.signature == Signature([0x4C, 0x41, 0x4E, 0x44]) && found {
                    store_land(cells, r, cur, masters, names, self_idx);
                }
            },
            GroupChild::Group(g) => {
                match g.group_type {
                    GroupType::WorldChildren(fid) => {
                        let matches = match ws_fid {
                            Some(f) => f == fid,
                            None => false,
                        };
                        if matches || found {
                            scan_world_children_for_land(
                                g,
                                cells,
                                (None, None, NO_WATER_HEIGHT),
                                masters,
                                names,
                                self_idx,
                            );
                        }
                    },
                    _ => {
                        scan_wrld_for_land(g, ws, ws_lower, cells, masters, names, self_idx);
                    },
                }
            },
        }
        i = i + 1;
    }
    assert(s.skip(i as int) =~= seq![]);
}

/// The file name of a plugin's path (empty when it has none).
pub open spec fn plugin_filename(p: Plugin) -> Seq<char> {
    match p.file_path {
        Some(s) => match file_name_of(s@) {
            Some(n) => n,
            None => seq![],
        },
        None => seq![],
    }
}

/// The cells after scanning the top-level WRLD groups `gs` of the plugin at
/// `idx` (see [`wrld_group`]).
pub open spec fn groups_terrain(
    gs: Seq<Group>,
    ws: Seq<char>,
    cells: Map<CellKey, CellView>,
    scope: FormIdScope,
) -> Map<CellKey, CellView>
    decreases gs.len(),
{
    if gs.len() == 0 {
        cells
    } else {
        let prev = groups_terrain(gs.drop_last(), ws, cells, scope);
        if gs.last().group_type == GroupType::Top(wrld_sig()) {
            wrld_group(gs.last(), ws, prev, scope)
        } else {
            prev
        }
    }
}

/// The terrain cells of worldspace `ws` read from the plugins `ps` (whose
/// file names are `names`), in load order.
pub open spec fn plugins_terrain(ps: Seq<Plugin>, ws: Seq<char>, names: Seq<Seq<char>>) -> Map<
    CellKey,
    CellView,
>
    decreases ps.len(),
{
    if ps.len() == 0 {
        Map::empty()
    } else {
        let i = ps.len() - 1;
        groups_terrain(
            ps.last().groups@,
            ws,
            plugins_terrain(ps.drop_last(), ws, names),
            (strs(ps.last().masters@), names, i),
        )
    }
}

/// The file name of a plugin's path (see [`plugin_filename`]).
pub(crate) fn plugin_filename_of(p: &Plugin) -> (r: String)
    ensures
        r@ == plugin_filename(*p),
{
    match &p.file_path {
        Some(s) => {
            let cs = chars_of(s.as_str());
            match file_name(cs.as_slice()) {
                Some(n) => crate::text::string_from_chars(n.as_slice()),
                None => String::new(),
            }
        },
        None => String::new(),
    }
}

/// Scan the plugins, in load order, for the LAND records of worldspace
/// `worldspace_editor_id` (see [`plugins_terrain`]); FormIDs of textures
/// are put in load order.
pub fn scan_terrain_cells(plugins: &[Plugin], worldspace_editor_id: &str) -> (cells: TerrainCells)
    ensures
        cells@ == plugins_terrain(
            plugins@,
            worldspace_editor_id@,
            plugins@.map_values(|p: Plugin| plugin_filename(p)),
        ),
{
    let ghost ns = plugins@.map_values(|p: Plugin| plugin_filename(p));
    let mut names: Vec<String> = Vec::new();
    let mut k: usize = 0;
    while k < plugins.len()
        invariant
            k <= plugins@.len(),
            strs(names@) == ns.take(k as int),
            ns == plugins@.map_values(|p: Plugin| plugin_filename(p)),
        decreases plugins.len() - k,
    {
        let ghost before = names@;
        names.push(plugin_filename_of(&plugins[k]));
        assert(strs(names@) =~= strs(before).push(plugin_filename(plugins@[k as int])));
        assert(ns.take(k + 1) =~= ns.take(k as int).push(plugin_filename(plugins@[k as int])));
        k = k + 1;
    }
    assert(ns.take(k as int) =~= ns);
    let ws_lower = lower_chars(chars_of(worldspace_editor_id).as_slice());
    let mut cells = TerrainCells::new();
    let mut pi: usize = 0;
    assert(cells@ =~= plugins_terrain(plugins@.take(0), worldspace_editor_id@, ns));
    while pi < plugins.len()
        invariant
            pi <= plugins@.len(),
            strs(names@) == ns,
            ns == plugins@.map_values(|p: Plugin| plugin_filename(p)),
            ws_lower@ == lower_seq(worldspace_editor_id@),
            cells@ == plugins_terrain(plugins@.take(pi as int), worldspace_editor_id@, ns),
        decreases plugins.len() - pi,
    {
        let p = &plugins[pi];
        let ghost scope = scope_of(p.masters@, names@, pi);
        let ghost base = cells@;
        let mut gi: usize = 0;
        assert(groups_terrain(p.groups@.take(0), worldspace_editor_id@, base, scope) == base);
        while gi < p.groups.len()
            invariant
                gi <= p.groups@.len(),
                pi < plugins@.len(),
                *p == plugins@[pi as int],
                strs(names@) == ns,
                ws_lower@ == lower_seq(worldspace_editor_id@),
                scope == scope_of(p.masters@, names@, pi),
                cells@ == groups_terrain(p.groups@.take(gi as int), worldspace_editor_id@, base, scope),
            decreases p.groups.len() - gi,
        {
            let g = &p.groups[gi];
            assert(p.groups@.take(gi + 1).drop_last() =~= p.groups@.take(gi as int));
            assert(p.groups@.take(gi + 1).last() == *g);
            if g.group_type == GroupType::Top(Signature([0x57, 0x52, 0x4C, 0x44])) {
                scan_wrld_for_land(
                    g,
                    worldspace_editor_id,
                    &ws_lower,
                    &mut cells,
                    &p.masters,
                    &names,
                    pi,
                );
            }
            gi = gi + 1;
        }
        assert(p.groups@.take(gi as int) =~= p.groups@);
        assert(plugins@.take(pi + 1).drop_last() =~= plugins@.take(pi as int));
        assert(plugins@.take(pi + 1).last() == *p);
        pi = pi + 1;
    }
    assert(plugins@.take(pi as int) =~= plugins@);
    cells
}


// ---------------------------------------------------------------------------
// The terrain data file given to LODGen
// ---------------------------------------------------------------------------
/// The 1089 height-delta bytes of a cell: the 33x33 grid, a delta missing
/// from a short grid written as zero.
pub open spec fn delta_bytes(d: Seq<i8>) -> Seq<u8> {
    Seq::new(1089, |i: int| if i < d.len() { d[i] as u8 } else { 0u8 })
}

/// A cell's 1112-byte entry in the terrain data file, all little-endian:
/// X and Y (i32), water height (f32), land flags (i32), height offset (f32,
/// as read from VHGT), 1089 height deltas (i8), then the three VHGT footer
/// bytes.
pub open spec fn cell_data_bytes(c: CellView) -> Seq<u8> {
    u32_bytes(c.cell_x as u32) + u32_bytes(c.cell_y as u32) + u32_bytes(c.water_height) + u32_bytes(
        c.land_flags as u32,
    ) + u32_bytes(c.height_offset) + delta_bytes(c.height_deltas) + c.vhgt_footer
}

/// The entries of the cells of `m` at the coordinates `order`, in that order.
pub open spec fn cells_data(m: Map<CellKey, CellView>, order: Seq<CellKey>) -> Seq<u8>
    decreases order.len(),
{
    if order.len() == 0 {
        Seq::empty()
    } else {
        cells_data(m, order.drop_last()) + cell_data_bytes(m[order.last()])
    }
}

/// Append the terrain data entry of `c` (see [`cell_data_bytes`]).
fn push_cell_data(buf: &mut Vec<u8>, c: &TerrainCell)
    ensures
        final(buf)@ == old(buf)@ + cell_data_bytes(c@),
{
    push_u32(buf, #[verifier::truncate] (c.cell_x as u32));
    push_u32(buf, #[verifier::truncate] (c.cell_y as u32));
    push_u32(buf, c.water_height);
    push_u32(buf, #[verifier::truncate] (c.land_flags as u32));
    push_u32(buf, c.height_offset);
    let ghost head = buf@;
    let mut i: usize = 0;
    while i < 1089
        invariant
            i <= 1089,
            buf@ == head + delta_bytes(c.height_deltas@).take(i as int),
        decreases 1089 - i,
    {
        let b: u8 = if i < c.height_deltas.len() {
            #[verifier::truncate] (c.height_deltas[i] as u8)
        } else {
            0
        };
        buf.push(b);
        assert(delta_bytes(c.height_deltas@).take(i + 1) =~= delta_bytes(c.height_deltas@).take(
            i as int,
        ).push(b));
        i = i + 1;
    }
    assert(delta_bytes(c.height_deltas@).take(1089) =~= delta_bytes(c.height_deltas@));
    append_bytes(buf, &c.vhgt_footer);
    assert(buf@ =~= old(buf)@ + cell_data_bytes(c@));
}

/// The terrain data file LODGen reads: the entry of every cell (see
/// [`cell_data_bytes`]), each once, in the order the cells are walked.
pub fn terrain_data_bytes(cells: &TerrainCells) -> (r: Vec<u8>)
    ensures
        exists|order: Seq<CellKey>|
            {
                &&& order.no_duplicates()
                &&& order.to_set() == cells@.dom()
                &&& r@ == cells_data(cells@, order)
            },
{
    proof {
        use_type_invariant(cells);
        lemma_cells_map(cells.entries@);
    }
    let ghost s = cells.entries@;
    let ghost keys = s.map_values(|e: (CellKey, TerrainCell)| e.0);
    let mut buf: Vec<u8> = Vec::new();
    let mut i: usize = 0;
    while i < cells.entries.len()
        invariant
            s == cells.entries@,
            i <= s.len(),
            keys == s.map_values(|e: (CellKey, TerrainCell)| e.0),
            forall|j: int| 0 <= j < s.len() ==> cells@[(#[trigger] s[j]).0] == s[j].1@,
            buf@ == cells_data(cells@, keys.take(i as int)),
        decreases s.len() - i,
    {
        let ghost before = buf@;
        push_cell_data(&mut buf, &cells.entries[i].1);
        proof {
            assert(keys.take(i + 1).drop_last() =~= keys.take(i as int));
            assert(keys.take(i + 1).last() == s[i as int].0);
        }
        i = i + 1;
    }
    proof {
        assert(keys.take(i as int) =~= keys);
        assert(keys.no_duplicates()) by {
            assert forall|a: int, b: int| 0 <= a < keys.len() && 0 <= b < keys.len() && a != b implies keys[a]
                != keys[b] by {
                assert(keys[a] == s[a].0 && keys[b] == s[b].0);
            }
        }
        assert(keys.to_set() =~= cells@.dom()) by {
            assert forall|k: CellKey| keys.to_set().contains(k) <==> cells@.dom().contains(k) by {
                if cells@.contains_key(k) {
                    let j = choose|j: int| 0 <= j < s.len() && s[j].0 == k;
                    assert(keys[j] == k);
                }
                if keys.contains(k) {
                    let j = choose|j: int| 0 <= j < keys.len() && keys[j] == k;
                    assert(s[j].0 == k);
                }
            }
        }
    }
    buf
}

/// Putting a FormID in load order keeps its local id (the lower three
/// bytes); a FormID whose master byte is past the plugin's master list
/// belongs to the plugin itself and gets the plugin's position (modulo
/// 256).
pub proof fn lemma_resolve_formid_keeps_local(raw: u32, scope: FormIdScope)
    ensures
        spec_resolve_formid(raw, scope) % 0x100_0000 == raw % 0x100_0000,
        raw / 0x100_0000 >= scope.0.len() ==> spec_resolve_formid(raw, scope) / 0x100_0000
            == scope.2 % 256,
{
    let masters = scope.0;
    let mi = raw / 0x100_0000;
    let local = raw % 0x100_0000;
    let idx = if mi < masters.len() {
        match first_name_match(scope.1, masters[mi as int]) {
            Some(i) => i,
            None => scope.2,
        }
    } else {
        scope.2
    };
    let hi = idx % 256;
    assert(0 <= hi < 256);
    assert(0 <= local < 0x100_0000);
    assert(hi * 0x100_0000 + local < 0x1_0000_0000) by (nonlinear_arith)
        requires
            0 <= hi < 256,
            0 <= local < 0x100_0000,
    ;
    assert((hi * 0x100_0000 + local) % 0x100_0000 == local) by (nonlinear_arith)
        requires
            0 <= hi,
            0 <= local < 0x100_0000,
    ;
    assert((hi * 0x100_0000 + local) / 0x100_0000 == hi) by (nonlinear_arith)
        requires
            0 <= hi,
            0 <= local < 0x100_0000,
    ;
}

} // verus!
