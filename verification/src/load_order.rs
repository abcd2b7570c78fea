//! Load order management and master resolution.
//!
//! A plugin-local FormID names its master by the upper byte: slot `k`
//! below the plugin's master count is the plugin's `k`-th master (found in
//! the load order by file name, ASCII case-insensitively), slot equal to
//! the master count is the plugin itself. Light plugins (ESL) of SkyrimSE,
//! Fallout 4 and Starfield are addressed as `FE LLL XXX`: light index
//! `LLL`, local id `XXX`.

use vstd::prelude::*;

use crate::dialect::GameId;
use crate::formid::{spec_local_id, spec_master_index, FormId};
use crate::mo2::config::{spec_game_name_to_id, Mo2Config};
use crate::paths::{file_name, file_name_of};
use crate::plugin::{plugin_records, Plugin};
use crate::record::Record;
use crate::text::{chars_equal, chars_of, lower_chars, lower_seq};

verus! {

/// Ordered plugin set with helper logic for FormID/master resolution.
#[derive(Debug)]
pub struct LoadOrder {
    /// Active game for this load order.
    pub game_id: GameId,
    /// Loaded plugins in current load order.
    pub plugins: Vec<Plugin>,
}

/// Whether the header of `p` has the master (ESM) flag.
pub open spec fn is_master_plugin(p: Plugin) -> bool {
    p.header.flags.0 & 0x0000_0001 != 0
}

/// Whether the header of `p` has the light (ESL) flag.
pub open spec fn is_light_plugin(p: Plugin) -> bool {
    p.header.flags.0 & 0x0000_0200 != 0
}

/// Whether a game addresses light plugins through the `FE` master byte.
pub open spec fn supports_esl(g: GameId) -> bool {
    g == GameId::SkyrimSE || g == GameId::Fallout4 || g == GameId::Starfield
}

/// The lookup key of a plugin: its file name, ASCII lower-cased.
pub open spec fn plugin_key(p: Plugin) -> Option<Seq<char>> {
    match p.file_path {
        Some(s) => match file_name_of(s@) {
            Some(n) => Some(lower_seq(n)),
            None => None,
        },
        None => None,
    }
}

/// The first index of the load order whose plugin has key `key`.
pub open spec fn index_of_key(ps: Seq<Plugin>, key: Seq<char>) -> Option<int>
    decreases ps.len(),
{
    if ps.len() == 0 {
        None
    } else if plugin_key(ps[0]) == Some(key) {
        Some(0)
    } else {
        match index_of_key(ps.drop_first(), key) {
            Some(i) => Some(i + 1),
            None => None,
        }
    }
}

pub proof fn lemma_index_of_key(ps: Seq<Plugin>, key: Seq<char>)
    ensures
        index_of_key(ps, key) matches Some(i) ==> 0 <= i < ps.len() && plugin_key(ps[i]) == Some(
            key,
        ) && forall|j: int| 0 <= j < i ==> plugin_key(ps[j]) != Some(key),
        index_of_key(ps, key) is None ==> forall|j: int|
            0 <= j < ps.len() ==> plugin_key(ps[j]) != Some(key),
    decreases ps.len(),
{
    if ps.len() > 0 && plugin_key(ps[0]) != Some(key) {
        lemma_index_of_key(ps.drop_first(), key);
        assert forall|j: int| 0 < j < ps.len() implies ps[j] == ps.drop_first()[j - 1] by {}
    }
}

/// The indices of the light plugins, in load order.
pub open spec fn light_indices(ps: Seq<Plugin>) -> Seq<int>
    decreases ps.len(),
{
    if ps.len() == 0 {
        seq![]
    } else if is_light_plugin(ps.last()) {
        light_indices(ps.drop_last()).push(ps.len() - 1)
    } else {
        light_indices(ps.drop_last())
    }
}

pub proof fn lemma_light_indices(ps: Seq<Plugin>)
    ensures
        forall|k: int|
            0 <= k < light_indices(ps).len() ==> 0 <= #[trigger] light_indices(ps)[k] < ps.len(),
    decreases ps.len(),
{
    if ps.len() > 0 {
        let prev = light_indices(ps.drop_last());
        lemma_light_indices(ps.drop_last());
        assert forall|k: int| 0 <= k < light_indices(ps).len() implies 0 <= #[trigger] light_indices(
            ps,
        )[k] < ps.len() by {
            if k < prev.len() {
                assert(light_indices(ps)[k] == prev[k]);
            }
        }
    }
}

/// A resolved FormID: the index of the plugin that defines it, and the
/// local id within that plugin.
pub type Resolved = (int, u32);

/// The value of an executable resolution result.
pub open spec fn resolved_view(r: Option<(usize, FormId)>) -> Option<Resolved> {
    match r {
        Some((i, f)) => Some((i as int, f.0)),
        None => None,
    }
}

/// Resolution of a load-order-global FormID.
pub open spec fn spec_resolve_global(lo: LoadOrder, raw: u32) -> Option<Resolved> {
    let ps = lo.plugins@;
    if raw == 0 {
        None
    } else if supports_esl(lo.game_id) && spec_master_index(raw) == 0xFE {
        let li = (raw / 0x1000) % 0x1000;
        let l = light_indices(ps);
        if li < l.len() {
            Some((l[li as int], raw % 0x1000))
        } else {
            None
        }
    } else if spec_master_index(raw) >= ps.len() {
        None
    } else {
        Some((spec_master_index(raw) as int, spec_local_id(raw)))
    }
}

/// Resolution of a FormID local to the plugin at `idx`.
pub open spec fn spec_resolve(lo: LoadOrder, idx: int, raw: u32) -> Option<Resolved> {
    let ps = lo.plugins@;
    let slot = spec_master_index(raw) as int;
    let local = spec_local_id(raw);
    if !(0 <= idx < ps.len()) || raw == 0 {
        None
    } else if lo.game_id == GameId::Morrowind {
        if slot >= ps.len() {
            None
        } else {
            Some((slot, local))
        }
    } else if supports_esl(lo.game_id) && slot == 0xFE {
        spec_resolve_global(lo, raw)
    } else {
        let ms = ps[idx].masters@;
        if slot < ms.len() {
            match index_of_key(ps, lower_seq(ms[slot]@)) {
                Some(t) => Some((t, local)),
                None => None,
            }
        } else if slot == ms.len() {
            Some((idx, local))
        } else {
            None
        }
    }
}

pub proof fn lemma_resolve_in_range(lo: LoadOrder, idx: int, raw: u32)
    ensures
        spec_resolve(lo, idx, raw) matches Some(t) ==> 0 <= t.0 < lo.plugins@.len(),
        spec_resolve_global(lo, raw) matches Some(t) ==> 0 <= t.0 < lo.plugins@.len(),
{
    lemma_light_indices(lo.plugins@);
    if 0 <= idx < lo.plugins@.len() {
        let ms = lo.plugins@[idx].masters@;
        let slot = spec_master_index(raw) as int;
        if slot < ms.len() {
            lemma_index_of_key(lo.plugins@, lower_seq(ms[slot]@));
        }
    }
}

/// The lookup key of a plugin (see [`plugin_key`]).
fn plugin_key_of(p: &Plugin) -> (r: Option<Vec<char>>)
    ensures
        r matches Some(v) ==> plugin_key(*p) == Some(v@),
        r is None ==> plugin_key(*p) is None,
{
    match &p.file_path {
        Some(s) => {
            let cs = chars_of(s.as_str());
            match file_name(cs.as_slice()) {
                Some(n) => Some(lower_chars(n.as_slice())),
                None => None,
            }
        },
        None => None,
    }
}

impl LoadOrder {
    /// Create an empty load order for a game.
    pub fn new(game_id: GameId) -> (lo: Self)
        ensures
            lo.game_id == game_id,
            lo.plugins@ == Seq::<Plugin>::empty(),
    {
        LoadOrder { game_id, plugins: Vec::new() }
    }

    /// Add a loaded plugin at the end of the load order and return its index.
    pub fn add_plugin(&mut self, plugin: Plugin) -> (index: usize)
        ensures
            index == old(self).plugins@.len(),
            final(self).plugins@ == old(self).plugins@.push(plugin),
            final(self).game_id == old(self).game_id,
    {
        let index = self.plugins.len();
        self.plugins.push(plugin);
        index
    }

    /// True when the plugin header has the master (ESM) flag.
    pub fn is_master(plugin: &Plugin) -> (b: bool)
        ensures
            b == is_master_plugin(*plugin),
    {
        plugin.header.flags.is_esm()
    }

    /// Whether this game addresses light plugins through the `FE` byte.
    fn supports_esl(&self) -> (b: bool)
        ensures
            b == supports_esl(self.game_id),
    {
        match self.game_id {
            GameId::SkyrimSE | GameId::Fallout4 | GameId::Starfield => true,
            _ => false,
        }
    }

    /// The first plugin whose file name equals `master_name`, ignoring
    /// ASCII case.
    fn find_plugin_index_by_master_name(&self, master_name: &str) -> (r: Option<usize>)
        ensures
            match r {
                Some(i) => index_of_key(self.plugins@, lower_seq(master_name@)) == Some(i as int),
                None => index_of_key(self.plugins@, lower_seq(master_name@)) is None,
            },
    {
        let cs = chars_of(master_name);
        let key = lower_chars(cs.as_slice());
        proof {
            lemma_index_of_key(self.plugins@, key@);
        }
        let mut i: usize = 0;
        while i < self.plugins.len()
            invariant
                i <= self.plugins@.len(),
                key@ == lower_seq(master_name@),
                forall|j: int| 0 <= j < i ==> plugin_key(self.plugins@[j]) != Some(key@),
                index_of_key(self.plugins@, key@) matches Some(k) ==> 0 <= k < self.plugins@.len()
                    && plugin_key(self.plugins@[k]) == Some(key@) && forall|j: int|
                    0 <= j < k ==> plugin_key(self.plugins@[j]) != Some(key@),
                index_of_key(self.plugins@, key@) is None ==> forall|j: int|
                    0 <= j < self.plugins@.len() ==> plugin_key(self.plugins@[j]) != Some(key@),
            decreases self.plugins.len() - i,
        {
            if let Some(name) = plugin_key_of(&self.plugins[i]) {
                if chars_equal(name.as_slice(), key.as_slice()) {
                    return Some(i);
                }
            }
            i = i + 1;
        }
        None
    }

    /// The indices of the light plugins, in load order.
    fn light_plugin_indices(&self) -> (v: Vec<usize>)
        ensures
            v@.map_values(|i: usize| i as int) == light_indices(self.plugins@),
    {
        let mut v: Vec<usize> = Vec::new();
        let mut i: usize = 0;
        while i < self.plugins.len()
            invariant
                i <= self.plugins@.len(),
                v@.map_values(|i: usize| i as int) == light_indices(self.plugins@.take(i as int)),
            decreases self.plugins.len() - i,
        {
            assert(self.plugins@.take(i + 1).drop_last() =~= self.plugins@.take(i as int));
            if self.plugins[i].is_light() {
                v.push(i);
                assert(v@.map_values(|i: usize| i as int) =~= light_indices(
                    self.plugins@.take(i as int),
                ).push(i as int));
            }
            i = i + 1;
        }
        assert(self.plugins@.take(i as int) =~= self.plugins@);
        v
    }

    /// Resolve a load-order-global FormID to (plugin index, local FormID).
    fn resolve_global_form_id(&self, form_id: FormId) -> (r: Option<(usize, FormId)>)
        ensures
            resolved_view(r) == spec_resolve_global(*self, form_id.0),
    {
        if form_id.is_null() {
            return None;
        }
        let raw = form_id.raw();
        let top = form_id.master_index();
        if self.supports_esl() && top == 0xFE {
            let light_index = ((raw / 0x1000) % 0x1000) as usize;
            let local_id = FormId::new(raw % 0x1000);
            let lights = self.light_plugin_indices();
            if light_index < lights.len() {
                return Some((lights[light_index], local_id));
            }
            return None;
        }
        let plugin_index = top as usize;
        if plugin_index >= self.plugins.len() {
            return None;
        }
        Some((plugin_index, FormId::new(form_id.local_id())))
    }
}

/// Per-plugin context that can resolve plugin-local FormIDs through its
/// master list.
pub struct FormIdContext<'a> {
    load_order: &'a LoadOrder,
    plugin_index: usize,
    masters: &'a [String],
}

impl<'a> FormIdContext<'a> {
    /// The context's plugin is in the load order and `masters` is its list.
    #[verifier::type_invariant]
    spec fn wf(self) -> bool {
        &&& self.plugin_index < self.load_order.plugins@.len()
        &&& self.masters@ == self.load_order.plugins@[self.plugin_index as int].masters@
    }

    /// The load order this context resolves in.
    pub closed spec fn spec_load_order(self) -> LoadOrder {
        *self.load_order
    }

    /// The index of the plugin whose FormIDs this context resolves.
    pub closed spec fn spec_plugin_index(self) -> int {
        self.plugin_index as int
    }

    /// A context for the plugin at `plugin_index`; `None` when there is no
    /// such plugin.
    pub fn new(load_order: &'a LoadOrder, plugin_index: usize) -> (r: Option<Self>)
        ensures
            r is Some <==> plugin_index < load_order.plugins@.len(),
            r matches Some(c) ==> c.spec_load_order() == *load_order && c.spec_plugin_index()
                == plugin_index,
    {
        if plugin_index < load_order.plugins.len() {
            let plugin = &load_order.plugins[plugin_index];
            Some(FormIdContext { load_order, plugin_index, masters: plugin.masters.as_slice() })
        } else {
            None
        }
    }

    /// Resolve a plugin-local FormID to (plugin index, local FormID).
    pub fn resolve(&self, raw_form_id: FormId) -> (r: Option<(usize, FormId)>)
        ensures
            resolved_view(r) == spec_resolve(
                self.spec_load_order(),
                self.spec_plugin_index(),
                raw_form_id.0,
            ),
    {
        proof {
            use_type_invariant(self);
        }
        if raw_form_id.is_null() {
            return None;
        }
        if self.load_order.game_id == GameId::Morrowind {
            let plugin_index = raw_form_id.master_index() as usize;
            if plugin_index >= self.load_order.plugins.len() {
                return None;
            }
            return Some((plugin_index, FormId::new(raw_form_id.local_id())));
        }
        if self.load_order.supports_esl() && raw_form_id.master_index() == 0xFE {
            return self.load_order.resolve_global_form_id(raw_form_id);
        }
        let master_slot = raw_form_id.master_index() as usize;
        let local = FormId::new(raw_form_id.local_id());
        if master_slot < self.masters.len() {
            let master_name = &self.masters[master_slot];
            match self.load_order.find_plugin_index_by_master_name(master_name.as_str()) {
                Some(plugin_index) => {
                    return Some((plugin_index, local));
                },
                None => {
                    return None;
                },
            }
        }
        if master_slot == self.masters.len() {
            return Some((self.plugin_index, local));
        }
        None
    }
}

/// The records of `s` (from the plugin at `i`) that resolve to `t`, each
/// paired with `i`.
pub open spec fn matching_records(lo: LoadOrder, t: Resolved, i: int, s: Seq<Record>) -> Seq<
    (int, Record),
> {
    s.filter(|r: Record| spec_resolve(lo, i, r.form_id.0) == Some(t)).map_values(
        |r: Record| (i, r),
    )
}

/// The records of the first `n` plugins that resolve to `t`, in load order.
pub open spec fn overrides_upto(lo: LoadOrder, t: Resolved, n: int) -> Seq<(int, Record)>
    decreases n,
{
    if n <= 0 {
        seq![]
    } else {
        overrides_upto(lo, t, n - 1) + matching_records(
            lo,
            t,
            n - 1,
            plugin_records(lo.plugins@[n - 1]),
        )
    }
}

/// Every record of the load order that defines or overrides the global
/// FormID `raw`, with the index of its plugin, in load order.
pub open spec fn spec_overrides(lo: LoadOrder, raw: u32) -> Seq<(int, Record)> {
    match spec_resolve_global(lo, raw) {
        Some(t) => overrides_upto(lo, t, lo.plugins@.len() as int),
        None => seq![],
    }
}

/// The value of a list of (plugin index, record) entries.
pub open spec fn entries_view<'a>(v: Seq<(usize, &'a Record)>) -> Seq<(int, Record)> {
    v.map_values(|e: (usize, &'a Record)| (e.0 as int, *e.1))
}

/// The value of an optional (plugin index, record) entry.
pub open spec fn entry_view<'a>(e: Option<(usize, &'a Record)>) -> Option<(int, Record)> {
    match e {
        Some(x) => Some((x.0 as int, *x.1)),
        None => None,
    }
}

/// The last element of a sequence, if any.
pub open spec fn last_of<A>(s: Seq<A>) -> Option<A> {
    if s.len() == 0 {
        None
    } else {
        Some(s.last())
    }
}

/// The index of the first record of `s` whose local id is `l`.
pub open spec fn first_with_local(s: Seq<Record>, l: u32) -> Option<int>
    decreases s.len(),
{
    if s.len() == 0 {
        None
    } else if spec_local_id(s[0].form_id.0) == l {
        Some(0)
    } else {
        match first_with_local(s.drop_first(), l) {
            Some(k) => Some(k + 1),
            None => None,
        }
    }
}

pub proof fn lemma_first_with_local(s: Seq<Record>, l: u32)
    ensures
        first_with_local(s, l) matches Some(k) ==> 0 <= k < s.len() && spec_local_id(
            s[k].form_id.0,
        ) == l && forall|j: int| 0 <= j < k ==> spec_local_id(s[j].form_id.0) != l,
        first_with_local(s, l) is None ==> forall|j: int|
            0 <= j < s.len() ==> spec_local_id(s[j].form_id.0) != l,
    decreases s.len(),
{
    if s.len() > 0 && spec_local_id(s[0].form_id.0) != l {
        lemma_first_with_local(s.drop_first(), l);
        assert forall|j: int| 0 < j < s.len() implies s[j] == s.drop_first()[j - 1] by {}
    }
}

/// The record that a plugin-local FormID refers to: the first record of the
/// defining plugin with the resolved local id.
pub open spec fn spec_resolve_record(lo: LoadOrder, idx: int, raw: u32) -> Option<(int, Record)> {
    match spec_resolve(lo, idx, raw) {
        None => None,
        Some(t) => {
            let recs = plugin_records(lo.plugins@[t.0]);
            match first_with_local(recs, t.1) {
                Some(k) => Some((t.0, recs[k])),
                None => None,
            }
        },
    }
}

/// The stable partition of a plugin list: masters first, each class in
/// its original order.
pub open spec fn masters_first(ps: Seq<Plugin>) -> Seq<Plugin> {
    ps.filter(|p: Plugin| is_master_plugin(p)) + ps.filter(|p: Plugin| !is_master_plugin(p))
}

pub proof fn lemma_matching_push(lo: LoadOrder, t: Resolved, i: int, s: Seq<Record>, r: Record)
    ensures
        matching_records(lo, t, i, s.push(r)) == matching_records(lo, t, i, s) + (if spec_resolve(
            lo,
            i,
            r.form_id.0,
        ) == Some(t) {
            seq![(i, r)]
        } else {
            seq![]
        }),
{
    reveal_with_fuel(Seq::filter, 1);
    let p = |x: Record| spec_resolve(lo, i, x.form_id.0) == Some(t);
    assert(s.push(r).drop_last() =~= s);
    assert(matching_records(lo, t, i, s.push(r)) =~= matching_records(lo, t, i, s) + (if p(r) {
        seq![(i, r)]
    } else {
        seq![]
    }));
}

pub proof fn lemma_filter_push<A>(s: Seq<A>, x: A, p: spec_fn(A) -> bool)
    ensures
        s.push(x).filter(p) == if p(x) {
            s.filter(p).push(x)
        } else {
            s.filter(p)
        },
{
    reveal_with_fuel(Seq::filter, 1);
    assert(s.push(x).drop_last() =~= s);
}

impl LoadOrder {
    /// Resolve a plugin-local FormID into canonical (target plugin index,
    /// local FormID).
    pub fn resolve_form_id(&self, plugin_index: usize, raw_form_id: FormId) -> (r: Option<
        (usize, FormId),
    >)
        ensures
            resolved_view(r) == spec_resolve(*self, plugin_index as int, raw_form_id.0),
    {
        match FormIdContext::new(self, plugin_index) {
            Some(ctx) => ctx.resolve(raw_form_id),
            None => None,
        }
    }

    /// Find all records in load order that define or override the same
    /// global FormID.
    pub fn find_overrides(&self, form_id: FormId) -> (v: Vec<(usize, &Record)>)
        ensures
            entries_view(v@) == spec_overrides(*self, form_id.0),
    {
        match self.resolve_global_form_id(form_id) {
            Some(target) => self.overrides_of(target),
            None => Vec::new(),
        }
    }

    /// All records of the load order that resolve to `target`, with the
    /// index of their plugin, in load order.
    pub(crate) fn overrides_of(&self, target: (usize, FormId)) -> (v: Vec<(usize, &Record)>)
        ensures
            entries_view(v@) == overrides_upto(
                *self,
                (target.0 as int, target.1.0),
                self.plugins@.len() as int,
            ),
    {
        let ghost t: Resolved = (target.0 as int, target.1.0);
        let mut out: Vec<(usize, &Record)> = Vec::new();
        let mut i: usize = 0;
        while i < self.plugins.len()
            invariant
                i <= self.plugins@.len(),
                t == (target.0 as int, target.1.0),
                entries_view(out@) == overrides_upto(*self, t, i as int),
            decreases self.plugins.len() - i,
        {
            let recs = self.plugins[i].all_records();
            let ghost all = plugin_records(self.plugins@[i as int]);
            let mut j: usize = 0;
            while j < recs.len()
                invariant
                    i < self.plugins@.len(),
                    j <= recs@.len(),
                    all == plugin_records(self.plugins@[i as int]),
                    recs@.map_values(|r: &Record| *r) == all,
                    t == (target.0 as int, target.1.0),
                    entries_view(out@) == overrides_upto(*self, t, i as int) + matching_records(
                        *self,
                        t,
                        i as int,
                        all.take(j as int),
                    ),
                decreases recs.len() - j,
            {
                let r = recs[j];
                assert(all[j as int] == *r);
                proof {
                    lemma_matching_push(*self, t, i as int, all.take(j as int), *r);
                    assert(all.take(j + 1) =~= all.take(j as int).push(*r));
                }
                match self.resolve_form_id(i, r.form_id) {
                    Some(res) => {
                        if res.0 == target.0 && res.1.raw() == target.1.raw() {
                            let ghost prev = out@;
                            out.push((i, r));
                            assert(entries_view(out@) =~= entries_view(prev).push((i as int, *r)));
                            assert(entries_view(out@) =~= overrides_upto(*self, t, i as int)
                                + matching_records(*self, t, i as int, all.take(j as int)).push(
                                (i as int, *r),
                            ));
                        }
                    },
                    None => {},
                }
                j = j + 1;
            }
            assert(all.take(j as int) =~= all);
            i = i + 1;
        }
        out
    }

    /// The winning override (last in load order) of a global FormID.
    pub fn winning_override(&self, form_id: FormId) -> (r: Option<(usize, &Record)>)
        ensures
            entry_view(r) == last_of(spec_overrides(*self, form_id.0)),
    {
        let all = self.find_overrides(form_id);
        let mut winner: Option<(usize, &Record)> = None;
        let mut k: usize = 0;
        while k < all.len()
            invariant
                k <= all@.len(),
                entries_view(all@) == spec_overrides(*self, form_id.0),
                entry_view(winner) == last_of(entries_view(all@.take(k as int))),
            decreases all.len() - k,
        {
            winner = Some(all[k]);
            assert(entries_view(all@.take(k + 1)).last() == entries_view(all@)[k as int]);
            k = k + 1;
        }
        assert(all@.take(k as int) =~= all@);
        winner
    }

    /// Sort the load order: for every game but Morrowind, masters (ESM)
    /// come first; the relative order within each class is kept.
    pub fn sort_load_order(&mut self)
        ensures
            final(self).game_id == old(self).game_id,
            old(self).game_id == GameId::Morrowind ==> final(self).plugins@ == old(self).plugins@,
            old(self).game_id != GameId::Morrowind ==> final(self).plugins@ == masters_first(
                old(self).plugins@,
            ),
    {
        if self.game_id == GameId::Morrowind {
            return ;
        }
        let mut plugins: Vec<Plugin> = Vec::new();
        std::mem::swap(&mut plugins, &mut self.plugins);
        let ghost orig = plugins@;
        let mut masters: Vec<Plugin> = Vec::new();
        let mut others: Vec<Plugin> = Vec::new();
        for p in it: plugins
            invariant
                it.seq() == orig,
                masters@ == orig.take(it.index() as int).filter(|p: Plugin| is_master_plugin(p)),
                others@ == orig.take(it.index() as int).filter(|p: Plugin| !is_master_plugin(p)),
        {
            proof {
                let k = it.index() as int;
                assert(orig.take(k + 1) =~= orig.take(k).push(orig[k]));
                lemma_filter_push(orig.take(k), orig[k], |p: Plugin| is_master_plugin(p));
                lemma_filter_push(orig.take(k), orig[k], |p: Plugin| !is_master_plugin(p));
            }
            if Self::is_master(&p) {
                masters.push(p);
            } else {
                others.push(p);
            }
        }
        assert(orig.take(orig.len() as int) =~= orig);
        masters.append(&mut others);
        self.plugins = masters;
    }
}

/// Sorting a load order keeps its plugins (a permutation of the same
/// multiset, of the same length) and puts every master before every
/// non-master.
pub proof fn lemma_masters_first(ps: Seq<Plugin>)
    ensures
        masters_first(ps).len() == ps.len(),
        masters_first(ps).to_multiset() == ps.to_multiset(),
        forall|i: int, j: int|
            0 <= i < j < masters_first(ps).len() && is_master_plugin(
                #[trigger] masters_first(ps)[j],
            ) ==> is_master_plugin(#[trigger] masters_first(ps)[i]),
    decreases ps.len(),
{
    broadcast use vstd::seq_lib::group_filter_ensures;
    broadcast use vstd::seq_lib::group_to_multiset_ensures;

    let pm = |p: Plugin| is_master_plugin(p);
    let pn = |p: Plugin| !is_master_plugin(p);
    let a = ps.filter(pm);
    let b = ps.filter(pn);
    let r = masters_first(ps);
    assert(r == a + b);
    assert forall|i: int, j: int|
        0 <= i < j < r.len() && is_master_plugin(#[trigger] r[j]) implies is_master_plugin(
        #[trigger] r[i],
    ) by {
        if j >= a.len() {
            assert(r[j] == b[j - a.len()]);
            assert(pn(b[j - a.len()]));
        }
        assert(r[i] == a[i]);
        assert(pm(a[i]));
    }
    vstd::seq_lib::lemma_multiset_commutative(a, b);
    if ps.len() > 0 {
        let q = ps.drop_last();
        let x = ps.last();
        assert(ps == q.push(x));
        lemma_masters_first(q);
        lemma_filter_push(q, x, pm);
        lemma_filter_push(q, x, pn);
        let qa = q.filter(pm);
        let qb = q.filter(pn);
        vstd::seq_lib::lemma_multiset_commutative(qa, qb);
        if pm(x) {
            assert(a == qa.push(x));
            assert(b == qb);
            assert(a.to_multiset() == qa.to_multiset().insert(x));
        } else {
            assert(a == qa);
            assert(b == qb.push(x));
            assert(b.to_multiset() == qb.to_multiset().insert(x));
        }
        assert(ps.to_multiset() == q.to_multiset().insert(x));
        assert(r.to_multiset() =~= ps.to_multiset());
    } else {
        assert(a =~= seq![]);
        assert(b =~= seq![]);
        assert(r =~= ps);
    }
}

/// Facts about the first `n` plugins' overrides of the target `t`.
pub proof fn lemma_overrides_upto(lo: LoadOrder, t: Resolved, n: int)
    requires
        0 <= n <= lo.plugins@.len(),
    ensures
        forall|k: int|
            0 <= k < overrides_upto(lo, t, n).len() ==> {
                let e = #[trigger] overrides_upto(lo, t, n)[k];
                &&& 0 <= e.0 < n
                &&& spec_resolve(lo, e.0, e.1.form_id.0) == Some(t)
                &&& plugin_records(lo.plugins@[e.0]).contains(e.1)
            },
        forall|k: int, m: int|
            0 <= k < m < overrides_upto(lo, t, n).len() ==> (#[trigger] overrides_upto(lo, t, n)[k]).0
                <= (#[trigger] overrides_upto(lo, t, n)[m]).0,
    decreases n,
{
    broadcast use vstd::seq_lib::group_filter_ensures;

    if n > 0 {
        lemma_overrides_upto(lo, t, n - 1);
        let prev = overrides_upto(lo, t, n - 1);
        let recs = plugin_records(lo.plugins@[n - 1]);
        let pr = |r: Record| spec_resolve(lo, n - 1, r.form_id.0) == Some(t);
        let f = recs.filter(pr);
        let cur = matching_records(lo, t, n - 1, recs);
        let all = overrides_upto(lo, t, n);
        assert(all == prev + cur);
        assert forall|k: int| 0 <= k < cur.len() implies {
            let e = #[trigger] cur[k];
            &&& e.0 == n - 1
            &&& spec_resolve(lo, e.0, e.1.form_id.0) == Some(t)
            &&& recs.contains(e.1)
        } by {
            assert(cur[k] == (n - 1, f[k]));
            assert(pr(f[k]));
            assert(f.contains(f[k]));
            recs.lemma_filter_contains_rev(pr, f[k]);
        }
        assert forall|k: int|
            0 <= k < all.len() implies {
                let e = #[trigger] all[k];
                &&& 0 <= e.0 < n
                &&& spec_resolve(lo, e.0, e.1.form_id.0) == Some(t)
                &&& plugin_records(lo.plugins@[e.0]).contains(e.1)
            } by {
            if k < prev.len() {
                assert(all[k] == prev[k]);
            } else {
                assert(all[k] == cur[k - prev.len()]);
            }
        }
        assert forall|k: int, m: int| 0 <= k < m < all.len() implies (#[trigger] all[k]).0 <= (
        #[trigger] all[m]).0 by {
            if m < prev.len() {
                assert(all[k] == prev[k]);
                assert(all[m] == prev[m]);
            } else if k < prev.len() {
                assert(all[k] == prev[k]);
                assert(all[m] == cur[m - prev.len()]);
            } else {
                assert(all[k] == cur[k - prev.len()]);
                assert(all[m] == cur[m - prev.len()]);
            }
        }
    }
}

/// The override chain of a FormID is in load order: plugin indices never
/// decrease along it; every entry is a record of its plugin, and it
/// resolves to the same defining plugin and local id as the FormID.
pub proof fn lemma_overrides_in_load_order(lo: LoadOrder, raw: u32)
    ensures
        forall|k: int, m: int|
            0 <= k < m < spec_overrides(lo, raw).len() ==> (#[trigger] spec_overrides(lo, raw)[k]).0
                <= (#[trigger] spec_overrides(lo, raw)[m]).0,
        forall|k: int|
            0 <= k < spec_overrides(lo, raw).len() ==> {
                let e = #[trigger] spec_overrides(lo, raw)[k];
                &&& 0 <= e.0 < lo.plugins@.len()
                &&& spec_resolve(lo, e.0, e.1.form_id.0) == spec_resolve_global(lo, raw)
                &&& plugin_records(lo.plugins@[e.0]).contains(e.1)
            },
{
    if let Some(t) = spec_resolve_global(lo, raw) {
        lemma_overrides_upto(lo, t, lo.plugins@.len() as int);
    }
}

/// Helper for resolving FormIDs across plugin masters and fetching
/// concrete records.
pub struct MasterResolver<'a> {
    load_order: &'a LoadOrder,
}

impl<'a> MasterResolver<'a> {
    /// The load order this resolver works on.
    pub closed spec fn spec_load_order(self) -> LoadOrder {
        *self.load_order
    }

    pub fn new(load_order: &'a LoadOrder) -> (r: Self)
        ensures
            r.spec_load_order() == *load_order,
    {
        MasterResolver { load_order }
    }

    /// Resolve a plugin-local FormID (see [`LoadOrder::resolve_form_id`]).
    pub fn resolve_form_id(&self, plugin_index: usize, raw_form_id: FormId) -> (r: Option<
        (usize, FormId),
    >)
        ensures
            resolved_view(r) == spec_resolve(
                self.spec_load_order(),
                plugin_index as int,
                raw_form_id.0,
            ),
    {
        self.load_order.resolve_form_id(plugin_index, raw_form_id)
    }

    /// The record a plugin-local FormID refers to.
    pub fn resolve_record(&self, plugin_index: usize, raw_form_id: FormId) -> (r: Option<
        (usize, &'a Record),
    >)
        ensures
            entry_view(r) == spec_resolve_record(
                self.spec_load_order(),
                plugin_index as int,
                raw_form_id.0,
            ),
    {
        let lo: &'a LoadOrder = self.load_order;
        let (target_plugin_index, target_local_form_id) = match lo.resolve_form_id(
            plugin_index,
            raw_form_id,
        ) {
            Some(t) => t,
            None => {
                return None;
            },
        };
        proof {
            lemma_resolve_in_range(*lo, plugin_index as int, raw_form_id.0);
        }
        if target_plugin_index >= lo.plugins.len() {
            return None;
        }
        let plugin: &'a Plugin = &lo.plugins[target_plugin_index];
        let recs = plugin.all_records();
        let ghost all = plugin_records(*plugin);
        proof {
            lemma_first_with_local(all, target_local_form_id.0);
        }
        let mut k: usize = 0;
        while k < recs.len()
            invariant
                k <= recs@.len(),
                recs@.map_values(|r: &Record| *r) == all,
                target_plugin_index < lo.plugins@.len(),
                all == plugin_records(lo.plugins@[target_plugin_index as int]),
                *lo == self.spec_load_order(),
                spec_resolve(*lo, plugin_index as int, raw_form_id.0) == Some(
                    (target_plugin_index as int, target_local_form_id.0),
                ),
                forall|j: int| 0 <= j < k ==> spec_local_id(all[j].form_id.0)
                    != target_local_form_id.0,
                first_with_local(all, target_local_form_id.0) matches Some(m) ==> 0 <= m
                    < all.len() && spec_local_id(all[m].form_id.0) == target_local_form_id.0
                    && forall|j: int| 0 <= j < m ==> spec_local_id(all[j].form_id.0)
                    != target_local_form_id.0,
                first_with_local(all, target_local_form_id.0) is None ==> forall|j: int|
                    0 <= j < all.len() ==> spec_local_id(all[j].form_id.0)
                        != target_local_form_id.0,
            decreases recs.len() - k,
        {
            let record = recs[k];
            assert(all[k as int] == *record);
            if record.form_id.local_id() == target_local_form_id.raw() {
                proof {
                    let l = target_local_form_id.0;
                    assert(spec_local_id(all[k as int].form_id.0) == l);
                    match first_with_local(all, l) {
                        Some(m) => {
                            if m < k {
                                assert(spec_local_id(all[m].form_id.0) != l);
                            }
                            if m > k {
                                assert(spec_local_id(all[k as int].form_id.0) != l);
                            }
                        },
                        None => {
                            assert(spec_local_id(all[k as int].form_id.0) != l);
                        },
                    }
                }
                return Some((target_plugin_index, record));
            }
            k = k + 1;
        }
        proof {
            if let Some(m) = first_with_local(all, target_local_form_id.0) {
                assert(spec_local_id(all[m].form_id.0) != target_local_form_id.0);
            }
        }
        None
    }
}

/// Ordered override chain for a single global FormID.
pub struct OverrideChain<'a> {
    pub entries: Vec<(usize, &'a Record)>,
}

impl<'a> OverrideChain<'a> {
    /// The override chain of a global FormID (see [`LoadOrder::find_overrides`]).
    pub fn new(load_order: &'a LoadOrder, form_id: FormId) -> (c: Self)
        ensures
            entries_view(c.entries@) == spec_overrides(*load_order, form_id.0),
    {
        OverrideChain { entries: load_order.find_overrides(form_id) }
    }

    /// The winning entry: the last one in load order.
    pub fn winning(&self) -> (r: Option<(usize, &'a Record)>)
        ensures
            entry_view(r) == last_of(entries_view(self.entries@)),
    {
        if self.entries.len() == 0 {
            None
        } else {
            Some(self.entries[self.entries.len() - 1])
        }
    }
}

/// Why a load order could not be built.
#[derive(Debug)]
pub enum LoadOrderError {
    /// The MO2 configuration names a game that is not supported.
    UnknownGame(String),
}

impl LoadOrder {
    /// The load order of an MO2 setup: the game named by the
    /// configuration, with `plugins` (those of the profile's load order that
    /// were found and read, in that order) added in order. Fails when the
    /// configuration names an unknown game.
    pub fn load_from_mo2(config: &Mo2Config, plugins: Vec<Plugin>) -> (r: Result<
        LoadOrder,
        LoadOrderError,
    >)
        ensures
            match spec_game_name_to_id(config.game_name@) {
                Some(g) => r matches Ok(lo) && lo.game_id == g && lo.plugins@ == plugins@,
                None => r matches Err(LoadOrderError::UnknownGame(n)) && n@ == config.game_name@,
            },
    {
        let game_id = match config.game_id() {
            Some(g) => g,
            None => {
                return Err(LoadOrderError::UnknownGame(config.game_name.clone()));
            },
        };
        let mut load_order = LoadOrder::new(game_id);
        let ghost all = plugins@;
        let mut rest = plugins;
        let mut k: usize = 0;
        assert(all.len() == rest.len());
        while rest.len() > 0
            invariant
                k <= all.len(),
                all.len() <= usize::MAX,
                k + rest@.len() == all.len(),
                rest@ == all.skip(k as int),
                load_order.game_id == game_id,
                load_order.plugins@ == all.take(k as int),
            decreases rest.len(),
        {
            let p = rest.remove(0);
            load_order.add_plugin(p);
            assert(all.take(k + 1) =~= all.take(k as int).push(p));
            k = k + 1;
            assert(rest@ =~= all.skip(k as int));
        }
        assert(all.take(k as int) =~= all);
        Ok(load_order)
    }
}

/// A load order without light plugins has no light indices.
proof fn lemma_no_light(ps: Seq<Plugin>)
    requires
        forall|j: int| 0 <= j < ps.len() ==> !is_light_plugin(#[trigger] ps[j]),
    ensures
        light_indices(ps).len() == 0,
    decreases ps.len(),
{
    if ps.len() > 0 {
        lemma_no_light(ps.drop_last());
    }
}

/// The first light index is the first plugin with the light flag.
proof fn lemma_first_light(ps: Seq<Plugin>, i: int)
    requires
        0 <= i < ps.len(),
        is_light_plugin(ps[i]),
        forall|j: int| 0 <= j < i ==> !is_light_plugin(#[trigger] ps[j]),
    ensures
        light_indices(ps).len() > 0,
        light_indices(ps)[0] == i,
    decreases ps.len(),
{
    let q = ps.drop_last();
    if i == ps.len() - 1 {
        lemma_no_light(q);
    } else {
        lemma_first_light(q, i);
    }
}

/// In a SkyrimSE, Fallout 4 or Starfield load order, the FormID `FE000XXX`
/// (master byte 0xFE, light slot 0, local id `XXX`), as written in any of
/// its plugins, resolves to the first plugin whose header has the light
/// (ESL) flag 0x200, with local id `XXX`.
pub proof fn lemma_first_light_slot(lo: LoadOrder, idx: int, i: int, local: u32)
    requires
        lo.game_id == GameId::SkyrimSE || lo.game_id == GameId::Fallout4 || lo.game_id
            == GameId::Starfield,
        0 <= idx < lo.plugins@.len(),
        0 <= i < lo.plugins@.len(),
        lo.plugins@[i].header.flags.0 & 0x0000_0200 != 0,
        forall|j: int| 0 <= j < i ==> (#[trigger] lo.plugins@[j]).header.flags.0 & 0x0000_0200 == 0,
        local < 0x1000,
    ensures
        spec_resolve(lo, idx, (0xFE00_0000 + local) as u32) == Some((i, local)),
{
    let raw = (0xFE00_0000 + local) as u32;
    assert(raw == 0xFE00_0000 + local);
    assert(raw / 0x0100_0000 == 0xFE);
    assert(spec_master_index(raw) == 0xFE);
    assert(raw / 0x1000 == 0xFE000);
    assert((raw / 0x1000) % 0x1000 == 0);
    assert(raw % 0x1000 == local);
    lemma_first_light(lo.plugins@, i);
}

/// Sorting puts exactly the plugins whose header has the master (ESM) flag
/// 0x1 first, in their order, then every other plugin (light-flagged
/// plugins without the ESM flag among them), in their order; so no plugin
/// without the ESM flag comes before one with it.
pub proof fn lemma_sorted_by_esm_flag(ps: Seq<Plugin>)
    ensures
        masters_first(ps) == ps.filter(|p: Plugin| p.header.flags.0 & 0x0000_0001 != 0) + ps.filter(
            |p: Plugin| p.header.flags.0 & 0x0000_0001 == 0,
        ),
        forall|i: int, j: int|
            0 <= i < j < masters_first(ps).len() && (#[trigger] masters_first(ps)[j]).header.flags.0
                & 0x0000_0001 != 0 ==> (#[trigger] masters_first(ps)[i]).header.flags.0 & 0x0000_0001
                != 0,
{
    assert((|p: Plugin| is_master_plugin(p)) =~= (|p: Plugin| p.header.flags.0 & 0x0000_0001 != 0));
    assert((|p: Plugin| !is_master_plugin(p)) =~= (|p: Plugin| p.header.flags.0 & 0x0000_0001 == 0));
    lemma_masters_first(ps);
}

} // verus!
