//! Game definition types (the schema for interpreting plugin records) and
//! the registry mapping game and signature to record definitions.

use vstd::prelude::*;

use crate::dialect::GameId;
use crate::element::IntegerSize;
use crate::signature::Signature;

verus! {

/// Definition for a complete record type (e.g., WEAP, ARMO, NPC_).
#[derive(Debug)]
pub struct RecordDef {
    /// Record signature (e.g., WEAP)
    pub signature: Signature,
    /// Human-readable name (e.g., "Weapon")
    pub name: String,
    /// Subrecord definitions in expected order
    pub members: Vec<SubrecordDef>,
}

/// Definition for a subrecord within a record.
#[derive(Debug)]
pub struct SubrecordDef {
    /// Subrecord signature (e.g., EDID, DATA)
    pub signature: Signature,
    /// Human-readable name
    pub name: String,
    /// Field layout within this subrecord
    pub fields: Vec<FieldDef>,
    /// Whether this subrecord is required
    pub required: bool,
}

/// Definition for a single field within a subrecord.
#[derive(Debug)]
pub struct FieldDef {
    /// Field name for display
    pub name: String,
    /// Data type and interpretation
    pub field_type: FieldType,
}

/// The type of a field.
#[derive(Debug)]
pub enum FieldType {
    /// An integer of the given size, possibly read as an enum or flags
    Integer { size: IntegerSize, enum_def: Option<EnumDef>, flags_def: Option<FlagDef> },
    /// A 32-bit floating-point value
    Float,
    /// A 16-bit half-precision floating-point value
    HalfFloat,
    /// A zero-terminated string
    String,
    /// A length-prefixed string
    LenString,
    /// A FormID reference, with the signatures it may refer to
    FormId { valid_refs: Vec<Signature> },
    /// Raw bytes of the given size (0 = variable)
    ByteArray { size: usize },
    /// A structured group of fields
    Struct { name: String, fields: Vec<FieldDef> },
    /// An array of elements (count 0 = until the end of the data)
    Array { name: String, element: Box<FieldDef>, count: usize },
    /// One of several interpretations, chosen by context
    Union { members: Vec<FieldDef> },
    /// Bit flags
    Flags(FlagDef),
    /// An enumerated value
    Enum(EnumDef),
    /// Unknown: raw bytes preserved
    Unknown,
}

/// Named flag bits for a flags field.
#[derive(Debug, Clone)]
pub struct FlagDef {
    pub flags: Vec<(u64, String)>,
}

/// Named values for an enum field.
#[derive(Debug, Clone)]
pub struct EnumDef {
    pub values: Vec<(i64, String)>,
}

/// Central registry mapping game and signature to record definitions.
pub struct DefinitionRegistry {
    defs: Vec<(GameId, RecordDef)>,
}

/// The key of a registry entry.
pub open spec fn entry_key(e: (GameId, RecordDef)) -> (GameId, Signature) {
    (e.0, e.1.signature)
}

/// The map made by inserting the entries of `s` in order.
pub open spec fn defs_map(s: Seq<(GameId, RecordDef)>) -> Map<(GameId, Signature), RecordDef>
    decreases s.len(),
{
    if s.len() == 0 {
        Map::empty()
    } else {
        defs_map(s.drop_last()).insert(entry_key(s.last()), s.last().1)
    }
}

/// No two entries of `s` have the same key.
pub open spec fn distinct_keys(s: Seq<(GameId, RecordDef)>) -> bool {
    forall|i: int, j: int|
        0 <= i < s.len() && 0 <= j < s.len() && i != j ==> entry_key(#[trigger] s[i]) != entry_key(
            #[trigger] s[j],
        )
}

/// With distinct keys, the map holds a key exactly when an entry has it,
/// with that entry's definition, and has as many keys as entries.
proof fn lemma_defs_map(s: Seq<(GameId, RecordDef)>)
    requires
        distinct_keys(s),
    ensures
        forall|i: int|
            0 <= i < s.len() ==> defs_map(s).contains_key(entry_key(#[trigger] s[i])) && defs_map(
                s,
            )[entry_key(s[i])] == s[i].1,
        forall|k: (GameId, Signature)|
            #[trigger] defs_map(s).contains_key(k) ==> exists|i: int|
                0 <= i < s.len() && entry_key(s[i]) == k,
        defs_map(s).dom().finite(),
        defs_map(s).dom().len() == s.len(),
    decreases s.len(),
{
    if s.len() > 0 {
        let q = s.drop_last();
        assert(distinct_keys(q)) by {
            assert forall|i: int, j: int|
                0 <= i < q.len() && 0 <= j < q.len() && i != j implies entry_key(#[trigger] q[i])
                != entry_key(#[trigger] q[j]) by {
                assert(q[i] == s[i] && q[j] == s[j]);
            }
        }
        lemma_defs_map(q);
        let k = entry_key(s.last());
        assert(!defs_map(q).contains_key(k)) by {
            if defs_map(q).contains_key(k) {
                let i = choose|i: int| 0 <= i < q.len() && entry_key(q[i]) == k;
                assert(q[i] == s[i]);
                assert(entry_key(s[i]) == entry_key(s[s.len() - 1]));
            }
        }
        assert forall|i: int| 0 <= i < s.len() implies defs_map(s).contains_key(
            entry_key(#[trigger] s[i]),
        ) && defs_map(s)[entry_key(s[i])] == s[i].1 by {
            if i < s.len() - 1 {
                assert(q[i] == s[i]);
                assert(entry_key(s[i]) != k);
            }
        }
        assert forall|kk: (GameId, Signature)| #[trigger] defs_map(s).contains_key(kk) implies exists|
            i: int,
        | 0 <= i < s.len() && entry_key(s[i]) == kk by {
            if kk == k {
                assert(entry_key(s[s.len() - 1]) == kk);
            } else {
                assert(defs_map(q).contains_key(kk));
                let i = choose|i: int| 0 <= i < q.len() && entry_key(q[i]) == kk;
                assert(q[i] == s[i]);
            }
        }
        assert(defs_map(s).dom() =~= defs_map(q).dom().insert(k));
    }
}

/// The registry map after registering each of `defs` for `game`, in order.
pub open spec fn registered_all(
    m: Map<(GameId, Signature), RecordDef>,
    game: GameId,
    defs: Seq<RecordDef>,
) -> Map<(GameId, Signature), RecordDef>
    decreases defs.len(),
{
    if defs.len() == 0 {
        m
    } else {
        registered_all(m, game, defs.drop_last()).insert((game, defs.last().signature), defs.last())
    }
}

impl View for DefinitionRegistry {
    type V = Map<(GameId, Signature), RecordDef>;

    closed spec fn view(&self) -> Map<(GameId, Signature), RecordDef> {
        defs_map(self.defs@)
    }
}

impl DefinitionRegistry {
    /// No two definitions share a game and signature.
    #[verifier::type_invariant]
    spec fn wf(self) -> bool {
        distinct_keys(self.defs@)
    }

    /// An empty registry.
    pub fn new() -> (r: Self)
        ensures
            r@ == Map::<(GameId, Signature), RecordDef>::empty(),
    {
        DefinitionRegistry { defs: Vec::new() }
    }

    /// The index of the entry with key (`game`, `sig`).
    fn find(&self, game: GameId, sig: Signature) -> (r: Option<usize>)
        ensures
            match r {
                Some(i) => i < self.defs@.len() && entry_key(self.defs@[i as int]) == (game, sig),
                None => forall|i: int|
                    0 <= i < self.defs@.len() ==> entry_key(#[trigger] self.defs@[i]) != (game, sig),
            },
    {
        let mut i: usize = 0;
        while i < self.defs.len()
            invariant
                i <= self.defs@.len(),
                forall|j: int| 0 <= j < i ==> entry_key(#[trigger] self.defs@[j]) != (game, sig),
            decreases self.defs.len() - i,
        {
            if self.defs[i].0 == game && self.defs[i].1.signature == sig {
                return Some(i);
            }
            i = i + 1;
        }
        None
    }

    /// Register a record definition for a game, replacing the one with the
    /// same signature.
    pub fn register(&mut self, game: GameId, def: RecordDef)
        ensures
            final(self)@ == old(self)@.insert((game, def.signature), def),
    {
        proof {
            use_type_invariant(&*self);
            lemma_defs_map(self.defs@);
        }
        let key = (game, def.signature);
        match self.find(game, def.signature) {
            Some(i) => {
                let ghost before = self.defs@;
                let mut defs = Vec::new();
                std::mem::swap(&mut defs, &mut self.defs);
                defs.set(i, (game, def));
                proof {
                    let after = defs@;
                    assert(distinct_keys(after)) by {
                        assert forall|a: int, b: int|
                            0 <= a < after.len() && 0 <= b < after.len() && a != b implies entry_key(
                            #[trigger] after[a],
                        ) != entry_key(#[trigger] after[b]) by {
                            if a != i {
                                assert(after[a] == before[a]);
                            }
                            if b != i {
                                assert(after[b] == before[b]);
                            }
                        }
                    }
                    lemma_defs_map(after);
                    assert(defs_map(after) =~= defs_map(before).insert(key, after[i as int].1)) by {
                        assert forall|k: (GameId, Signature)| #[trigger] defs_map(after).contains_key(
                            k,
                        ) <==> defs_map(before).insert(key, after[i as int].1).contains_key(k) by {
                            if defs_map(after).contains_key(k) {
                                let j = choose|j: int| 0 <= j < after.len() && entry_key(after[j]) == k;
                                if j != i {
                                    assert(after[j] == before[j]);
                                }
                            }
                            if defs_map(before).contains_key(k) {
                                let j = choose|j: int|
                                    0 <= j < before.len() && entry_key(before[j]) == k;
                                if j != i {
                                    assert(after[j] == before[j]);
                                } else {
                                    assert(entry_key(after[j]) == k);
                                }
                            }
                        }
                        assert forall|k: (GameId, Signature)| #[trigger] defs_map(after).contains_key(
                            k,
                        ) implies defs_map(after)[k] == defs_map(before).insert(
                            key,
                            after[i as int].1,
                        )[k] by {
                            let j = choose|j: int| 0 <= j < after.len() && entry_key(after[j]) == k;
                            if j != i {
                                assert(after[j] == before[j]);
                            }
                        }
                    }
                }
                self.defs = defs;
            },
            None => {
                let ghost before = self.defs@;
                let mut defs = Vec::new();
                std::mem::swap(&mut defs, &mut self.defs);
                defs.push((game, def));
                proof {
                    let after = defs@;
                    assert(after.drop_last() =~= before);
                    assert(distinct_keys(after)) by {
                        assert forall|a: int, b: int|
                            0 <= a < after.len() && 0 <= b < after.len() && a != b implies entry_key(
                            #[trigger] after[a],
                        ) != entry_key(#[trigger] after[b]) by {
                            if a < before.len() {
                                assert(after[a] == before[a]);
                            }
                            if b < before.len() {
                                assert(after[b] == before[b]);
                            }
                        }
                    }
                }
                self.defs = defs;
            },
        }
    }

    /// The definition of a game's record type, if registered.
    pub fn get(&self, game: GameId, sig: Signature) -> (r: Option<&RecordDef>)
        ensures
            match r {
                Some(d) => self@.contains_key((game, sig)) && self@[(game, sig)] == *d,
                None => !self@.contains_key((game, sig)),
            },
    {
        proof {
            use_type_invariant(self);
            lemma_defs_map(self.defs@);
        }
        match self.find(game, sig) {
            Some(i) => Some(&self.defs[i].1),
            None => {
                proof {
                    if self@.contains_key((game, sig)) {
                        let j = choose|j: int|
                            0 <= j < self.defs@.len() && entry_key(self.defs@[j]) == (game, sig);
                        assert(entry_key(self.defs@[j]) != (game, sig));
                    }
                }
                None
            },
        }
    }

    /// The record signatures registered for a game, each once.
    pub fn signatures_for_game(&self, game: GameId) -> (v: Vec<Signature>)
        ensures
            v@.no_duplicates(),
            forall|s: Signature| v@.contains(s) <==> self@.contains_key((game, s)),
            v@.len() == game_sigs(self@, game).len(),
    {
        proof {
            use_type_invariant(self);
            lemma_defs_map(self.defs@);
        }
        let mut v: Vec<Signature> = Vec::new();
        let mut i: usize = 0;
        while i < self.defs.len()
            invariant
                i <= self.defs@.len(),
                distinct_keys(self.defs@),
                v@.no_duplicates(),
                forall|s: Signature|
                    v@.contains(s) <==> exists|j: int|
                        0 <= j < i && #[trigger] entry_key(self.defs@[j]) == (game, s),
            decreases self.defs.len() - i,
        {
            if self.defs[i].0 == game {
                let s = self.defs[i].1.signature;
                let ghost before = v@;
                assert(!before.contains(s)) by {
                    if before.contains(s) {
                        let j = choose|j: int|
                            0 <= j < i && #[trigger] entry_key(self.defs@[j]) == (game, s);
                        assert(entry_key(self.defs@[i as int]) == (game, s));
                    }
                }
                v.push(s);
                assert forall|t: Signature| v@.contains(t) <==> exists|j: int|
                    0 <= j < i + 1 && #[trigger] entry_key(self.defs@[j]) == (game, t) by {
                    if v@.contains(t) {
                        let q = choose|q: int| 0 <= q < v@.len() && v@[q] == t;
                        if q < before.len() {
                            assert(before[q] == t);
                            assert(before.contains(t));
                        } else {
                            assert(entry_key(self.defs@[i as int]) == (game, t));
                        }
                    }
                    if exists|j: int| 0 <= j < i + 1 && #[trigger] entry_key(self.defs@[j]) == (game, t) {
                        let j = choose|j: int| 0 <= j < i + 1 && #[trigger] entry_key(self.defs@[j]) == (game, t);
                        if j < i {
                            assert(before.contains(t));
                            let q = choose|q: int| 0 <= q < before.len() && before[q] == t;
                            assert(v@[q] == t);
                        } else {
                            assert(v@[before.len() as int] == t);
                        }
                    }
                }
            } else {
                assert forall|t: Signature| v@.contains(t) <==> exists|j: int|
                    0 <= j < i + 1 && #[trigger] entry_key(self.defs@[j]) == (game, t) by {
                    if exists|j: int| 0 <= j < i + 1 && #[trigger] entry_key(self.defs@[j]) == (game, t) {
                        let j = choose|j: int| 0 <= j < i + 1 && #[trigger] entry_key(self.defs@[j]) == (game, t);
                        assert(j < i);
                    }
                }
            }
            i = i + 1;
        }
        proof {
            assert forall|s: Signature| v@.contains(s) <==> self@.contains_key((game, s)) by {
                if self@.contains_key((game, s)) {
                    let j = choose|j: int|
                        0 <= j < self.defs@.len() && entry_key(self.defs@[j]) == (game, s);
                    assert(entry_key(self.defs@[j]) == (game, s));
                }
                if v@.contains(s) {
                    let j = choose|j: int|
                        0 <= j < i && #[trigger] entry_key(self.defs@[j]) == (game, s);
                    assert(self@.contains_key(entry_key(self.defs@[j])));
                }
            }
            v@.unique_seq_to_set();
            assert(v@.to_set() =~= game_sigs(self@, game));
        }
        v
    }

    /// Register each of `defs` for `game`, in order; a later definition
    /// replaces an earlier one with the same signature.
    pub fn load_definitions(&mut self, game: GameId, defs: Vec<RecordDef>)
        ensures
            final(self)@ == registered_all(old(self)@, game, defs@),
    {
        let ghost all = defs@;
        assert(all.len() == defs.len());
        let mut rest = defs;
        let mut k: usize = 0;
        while rest.len() > 0
            invariant
                k <= all.len(),
                rest@ == all.skip(k as int),
                k + rest@.len() == all.len(),
                all.len() <= usize::MAX,
                self@ == registered_all(old(self)@, game, all.take(k as int)),
            decreases rest.len(),
        {
            let d = rest.remove(0);
            proof {
                assert(all.take(k as int + 1).drop_last() =~= all.take(k as int));
                assert(all.take(k as int + 1).last() == d);
            }
            self.register(game, d);
            k = k + 1;
            assert(rest@ =~= all.skip(k as int));
        }
        assert(all.take(k as int) =~= all);
    }

    /// Load the given Skyrim SE record definitions.
    pub fn load_sse_definitions(&mut self, defs: Vec<RecordDef>)
        ensures
            final(self)@ == registered_all(old(self)@, GameId::SkyrimSE, defs@),
    {
        self.load_definitions(GameId::SkyrimSE, defs);
    }

    /// Load the given Morrowind record definitions.
    pub fn load_morrowind_definitions(&mut self, defs: Vec<RecordDef>)
        ensures
            final(self)@ == registered_all(old(self)@, GameId::Morrowind, defs@),
    {
        self.load_definitions(GameId::Morrowind, defs);
    }

    /// Load the given Oblivion record definitions.
    pub fn load_tes4_definitions(&mut self, defs: Vec<RecordDef>)
        ensures
            final(self)@ == registered_all(old(self)@, GameId::Oblivion, defs@),
    {
        self.load_definitions(GameId::Oblivion, defs);
    }

    /// Load the given Fallout 3 record definitions.
    pub fn load_fo3_definitions(&mut self, defs: Vec<RecordDef>)
        ensures
            final(self)@ == registered_all(old(self)@, GameId::Fallout3, defs@),
    {
        self.load_definitions(GameId::Fallout3, defs);
    }

    /// Load the given Fallout New Vegas record definitions.
    pub fn load_fnv_definitions(&mut self, defs: Vec<RecordDef>)
        ensures
            final(self)@ == registered_all(old(self)@, GameId::FalloutNV, defs@),
    {
        self.load_definitions(GameId::FalloutNV, defs);
    }

    /// Load the given Fallout 4 record definitions.
    pub fn load_fo4_definitions(&mut self, defs: Vec<RecordDef>)
        ensures
            final(self)@ == registered_all(old(self)@, GameId::Fallout4, defs@),
    {
        self.load_definitions(GameId::Fallout4, defs);
    }

    /// Load the given Fallout 76 record definitions.
    pub fn load_fo76_definitions(&mut self, defs: Vec<RecordDef>)
        ensures
            final(self)@ == registered_all(old(self)@, GameId::Fallout76, defs@),
    {
        self.load_definitions(GameId::Fallout76, defs);
    }

    /// Load the given Starfield record definitions.
    pub fn load_starfield_definitions(&mut self, defs: Vec<RecordDef>)
        ensures
            final(self)@ == registered_all(old(self)@, GameId::Starfield, defs@),
    {
        self.load_definitions(GameId::Starfield, defs);
    }

    /// Number of definitions currently registered.
    pub fn len(&self) -> (n: usize)
        ensures
            n == self@.dom().len(),
            self@.dom().finite(),
    {
        proof {
            use_type_invariant(self);
            lemma_defs_map(self.defs@);
        }
        self.defs.len()
    }

    /// Whether the registry is empty.
    pub fn is_empty(&self) -> (b: bool)
        ensures
            b == (self@.dom().len() == 0),
    {
        proof {
            use_type_invariant(self);
            lemma_defs_map(self.defs@);
        }
        self.defs.len() == 0
    }
}

impl Default for DefinitionRegistry {
    fn default() -> (r: Self)
        ensures
            r@ == Map::<(GameId, Signature), RecordDef>::empty(),
    {
        DefinitionRegistry::new()
    }
}


/// Every game.
pub open spec fn all_games() -> Seq<GameId> {
    seq![
        GameId::Morrowind,
        GameId::Oblivion,
        GameId::Fallout3,
        GameId::FalloutNV,
        GameId::SkyrimSE,
        GameId::Fallout4,
        GameId::Fallout76,
        GameId::Starfield,
    ]
}

/// The signatures registered for game `g`.
pub open spec fn game_sigs(m: Map<(GameId, Signature), RecordDef>, g: GameId) -> Set<Signature> {
    Set::new(|s: Signature| m.contains_key((g, s)))
}

/// The number of definitions of the games `gs`, added game by game.
pub open spec fn count_games(m: Map<(GameId, Signature), RecordDef>, gs: Seq<GameId>) -> nat
    decreases gs.len(),
{
    if gs.len() == 0 {
        0
    } else {
        count_games(m, gs.drop_last()) + game_sigs(m, gs.last()).len()
    }
}

/// The keys of the games `gs`.
pub open spec fn keys_of_games(m: Map<(GameId, Signature), RecordDef>, gs: Seq<GameId>) -> Set<
    (GameId, Signature),
> {
    m.dom().filter(|k: (GameId, Signature)| gs.contains(k.0))
}

/// The keys of distinct games number the sum of each game's definitions.
proof fn lemma_keys_of_games(m: Map<(GameId, Signature), RecordDef>, gs: Seq<GameId>)
    requires
        m.dom().finite(),
        gs.no_duplicates(),
    ensures
        keys_of_games(m, gs).finite(),
        keys_of_games(m, gs).len() == count_games(m, gs),
    decreases gs.len(),
{
    if gs.len() == 0 {
        assert(keys_of_games(m, gs) =~= Set::<(GameId, Signature)>::empty());
    } else {
        let prev = gs.drop_last();
        let g = gs.last();
        assert(prev.no_duplicates()) by {
            assert forall|i: int, j: int| 0 <= i < prev.len() && 0 <= j < prev.len() && i != j implies prev[i]
                != prev[j] by {
                assert(prev[i] == gs[i] && prev[j] == gs[j]);
            }
        }
        lemma_keys_of_games(m, prev);
        let a = keys_of_games(m, prev);
        let gk = m.dom().filter(|k: (GameId, Signature)| k.0 == g);
        assert(!prev.contains(g)) by {
            if prev.contains(g) {
                let i = choose|i: int| 0 <= i < prev.len() && prev[i] == g;
                assert(gs[i] == gs[gs.len() - 1]);
            }
        }
        assert(keys_of_games(m, gs) =~= a + gk) by {
            assert forall|k: (GameId, Signature)| keys_of_games(m, gs).contains(k) <==> (a + gk).contains(k) by {
                if gs.contains(k.0) && k.0 != g {
                    let i = choose|i: int| 0 <= i < gs.len() && gs[i] == k.0;
                    assert(i != gs.len() - 1);
                    assert(prev[i] == k.0);
                }
                if prev.contains(k.0) {
                    let i = choose|i: int| 0 <= i < prev.len() && prev[i] == k.0;
                    assert(gs[i] == k.0);
                }
                if k.0 == g {
                    assert(gs[gs.len() - 1] == g);
                }
            }
        }
        assert(a.disjoint(gk));
        vstd::set_lib::lemma_set_disjoint_lens(a, gk);
        let f = |k: (GameId, Signature)| k.1;
        assert(gk.map(f) =~= game_sigs(m, g)) by {
            assert forall|s: Signature| game_sigs(m, g).contains(s) implies gk.map(f).contains(s) by {
                assert(gk.contains((g, s)));
            }
        }
        vstd::set_lib::lemma_map_size(gk, game_sigs(m, g), f);
        assert(gs.drop_last() == prev);
    }
}

/// A registry holds as many definitions as its games together: its size
/// is the sum over every game of the signatures registered for it.
pub proof fn lemma_len_is_sum_over_games(m: Map<(GameId, Signature), RecordDef>)
    requires
        m.dom().finite(),
    ensures
        m.dom().len() == count_games(m, all_games()),
{
    let gs = all_games();
    assert(gs.no_duplicates()) by {
        assert forall|i: int, j: int| 0 <= i < gs.len() && 0 <= j < gs.len() && i != j implies gs[i]
            != gs[j] by {}
    }
    lemma_keys_of_games(m, gs);
    assert(keys_of_games(m, gs) =~= m.dom()) by {
        assert forall|k: (GameId, Signature)| m.dom().contains(k) implies gs.contains(k.0) by {
            match k.0 {
                GameId::Morrowind => assert(gs[0] == k.0),
                GameId::Oblivion => assert(gs[1] == k.0),
                GameId::Fallout3 => assert(gs[2] == k.0),
                GameId::FalloutNV => assert(gs[3] == k.0),
                GameId::SkyrimSE => assert(gs[4] == k.0),
                GameId::Fallout4 => assert(gs[5] == k.0),
                GameId::Fallout76 => assert(gs[6] == k.0),
                GameId::Starfield => assert(gs[7] == k.0),
            }
        }
    }
}

} // verus!
