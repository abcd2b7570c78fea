//! MO2 profile: `modlist.txt`, `loadorder.txt` and `archives.txt`.

use vstd::prelude::*;

use crate::lines::{
    chars_end_with, ends_with, split_lines, split_lines_chars, sub_chars, trim_chars, trim_seq,
};
use crate::paths::{join_path, join_str};
use crate::text::{chars_equal, chars_of, concat_str, owned_string, string_from_chars, strs};

verus! {

/// The state of a mod in MO2.
#[derive(Debug, Clone, Copy, PartialEq, Eq, Structural)]
pub enum ModState {
    Enabled,
    Disabled,
}

/// A mod with its metadata.
#[derive(Debug, Clone)]
pub struct Mod {
    pub name: String,
    pub path: String,
    /// Higher number = higher priority (wins conflicts).
    pub priority: usize,
    pub state: ModState,
}

/// An MO2 profile: its mods, plugin order and additional archives.
#[derive(Debug)]
pub struct Profile {
    pub profile_path: String,
    pub game_data_dir: String,
    pub mods: Vec<Mod>,
    pub plugin_order: Vec<String>,
    pub additional_archives: Vec<String>,
}

/// The mod a `modlist.txt` line names: `+Name` enabled, `-Name` disabled,
/// `*Name` (a separator) disabled; other lines and empty ones name none.
pub open spec fn modlist_line(line: Seq<char>) -> Option<(ModState, Seq<char>)> {
    let t = trim_seq(line);
    if t.len() == 0 {
        None
    } else if t[0] == '+' {
        Some((ModState::Enabled, t.drop_first()))
    } else if t[0] == '-' || t[0] == '*' {
        Some((ModState::Disabled, t.drop_first()))
    } else {
        None
    }
}

/// The mods named by `lines`, in order.
pub open spec fn modlist_entries(lines: Seq<Seq<char>>) -> Seq<(ModState, Seq<char>)>
    decreases lines.len(),
{
    if lines.len() == 0 {
        seq![]
    } else {
        let prev = modlist_entries(lines.drop_last());
        match modlist_line(lines.last()) {
            Some(e) => prev.push(e),
            None => prev,
        }
    }
}

/// The mods of a `modlist.txt` text, in order (top = lowest priority).
pub open spec fn spec_modlist(content: Seq<char>) -> Seq<(ModState, Seq<char>)> {
    modlist_entries(split_lines(content))
}

/// The mod entry `m` is the `k`-th mod `e` of a list read with mods folder
/// `dir`.
pub open spec fn mod_matches(m: Mod, e: (ModState, Seq<char>), k: int, dir: Seq<char>) -> bool {
    &&& m.name@ == e.1
    &&& m.path@ == join_path(dir, e.1)
    &&& m.priority == k
    &&& m.state == e.0
}

/// Parse `modlist.txt` content into mod entries: each mod's path is the
/// mods folder joined with its name, and its priority its position.
pub fn parse_modlist_content(content: &str, mods_dir: &str) -> (mods: Vec<Mod>)
    ensures
        mods@.len() == spec_modlist(content@).len(),
        forall|k: int|
            0 <= k < mods@.len() ==> mod_matches(
                #[trigger] mods@[k],
                spec_modlist(content@)[k],
                k,
                mods_dir@,
            ),
{
    let cs = chars_of(content);
    let lines = split_lines_chars(cs.as_slice());
    let ghost ls = lines@.map_values(|l: Vec<char>| l@);
    let mut mods: Vec<Mod> = Vec::new();
    let mut i: usize = 0;
    while i < lines.len()
        invariant
            i <= lines@.len(),
            ls == lines@.map_values(|l: Vec<char>| l@),
            mods@.len() == modlist_entries(ls.take(i as int)).len(),
            mods@.len() <= i,
            forall|k: int|
                0 <= k < mods@.len() ==> mod_matches(
                    #[trigger] mods@[k],
                    modlist_entries(ls.take(i as int))[k],
                    k,
                    mods_dir@,
                ),
        decreases lines.len() - i,
    {
        assert(ls.take(i + 1).drop_last() =~= ls.take(i as int));
        assert(ls[i as int] == lines@[i as int]@);
        let ghost prev = modlist_entries(ls.take(i as int));
        let t = trim_chars(lines[i].as_slice());
        if t.len() > 0 && (t[0] == '+' || t[0] == '-' || t[0] == '*') {
            let state = if t[0] == '+' {
                ModState::Enabled
            } else {
                ModState::Disabled
            };
            let name = sub_chars(t.as_slice(), 1, t.len());
            assert(name@ =~= t@.drop_first());
            let name_s = string_from_chars(name.as_slice());
            let path = join_str(mods_dir, name_s.as_str());
            let priority = mods.len();
            mods.push(Mod { name: name_s, path, priority, state });
            assert forall|k: int| 0 <= k < mods@.len() implies mod_matches(
                #[trigger] mods@[k],
                modlist_entries(ls.take(i + 1))[k],
                k,
                mods_dir@,
            ) by {
                if k < prev.len() {
                    assert(modlist_entries(ls.take(i + 1))[k] == prev[k]);
                }
            }
        }
        i = i + 1;
    }
    assert(ls.take(i as int) =~= ls);
    mods
}

/// The plugin a `loadorder.txt` line names: the trimmed line, without a
/// leading `*`; empty lines and `#` comments name none.
pub open spec fn loadorder_line(line: Seq<char>) -> Option<Seq<char>> {
    let t = trim_seq(line);
    if t.len() == 0 || t[0] == '#' {
        None
    } else if t[0] == '*' {
        Some(t.drop_first())
    } else {
        Some(t)
    }
}

/// The non-empty trimmed lines of a text.
pub open spec fn archive_line(line: Seq<char>) -> Option<Seq<char>> {
    let t = trim_seq(line);
    if t.len() == 0 {
        None
    } else {
        Some(t)
    }
}

/// The names that `f` picks from `lines`, in order.
pub open spec fn picked(lines: Seq<Seq<char>>, f: spec_fn(Seq<char>) -> Option<Seq<char>>) -> Seq<
    Seq<char>,
>
    decreases lines.len(),
{
    if lines.len() == 0 {
        seq![]
    } else {
        let prev = picked(lines.drop_last(), f);
        match f(lines.last()) {
            Some(x) => prev.push(x),
            None => prev,
        }
    }
}

/// Parse `loadorder.txt` content into plugin names (see [`loadorder_line`]).
pub fn parse_loadorder_content(content: &str) -> (plugins: Vec<String>)
    ensures
        plugins@.map_values(|s: String| s@) == picked(
            split_lines(content@),
            |l: Seq<char>| loadorder_line(l),
        ),
{
    let cs = chars_of(content);
    let lines = split_lines_chars(cs.as_slice());
    let ghost ls = lines@.map_values(|l: Vec<char>| l@);
    let ghost f = |l: Seq<char>| loadorder_line(l);
    let mut out: Vec<String> = Vec::new();
    let mut i: usize = 0;
    while i < lines.len()
        invariant
            i <= lines@.len(),
            ls == lines@.map_values(|l: Vec<char>| l@),
            f == (|l: Seq<char>| loadorder_line(l)),
            out@.map_values(|s: String| s@) == picked(ls.take(i as int), f),
        decreases lines.len() - i,
    {
        assert(ls.take(i + 1).drop_last() =~= ls.take(i as int));
        assert(ls[i as int] == lines@[i as int]@);
        let ghost before = out@;
        let t = trim_chars(lines[i].as_slice());
        if t.len() > 0 && t[0] != '#' {
            let name = if t[0] == '*' {
                sub_chars(t.as_slice(), 1, t.len())
            } else {
                t
            };
            assert(t@.len() > 0 && t@[0] == '*' ==> name@ =~= t@.drop_first());
            let s = string_from_chars(name.as_slice());
            out.push(s);
            assert(out@.map_values(|s: String| s@) =~= before.map_values(|s: String| s@).push(
                name@,
            ));
        }
        i = i + 1;
    }
    assert(ls.take(i as int) =~= ls);
    out
}

/// Parse `archives.txt` content: its non-empty trimmed lines.
pub fn parse_archives_content(content: &str) -> (archives: Vec<String>)
    ensures
        archives@.map_values(|s: String| s@) == picked(
            split_lines(content@),
            |l: Seq<char>| archive_line(l),
        ),
{
    let cs = chars_of(content);
    let lines = split_lines_chars(cs.as_slice());
    let ghost ls = lines@.map_values(|l: Vec<char>| l@);
    let ghost f = |l: Seq<char>| archive_line(l);
    let mut out: Vec<String> = Vec::new();
    let mut i: usize = 0;
    while i < lines.len()
        invariant
            i <= lines@.len(),
            ls == lines@.map_values(|l: Vec<char>| l@),
            f == (|l: Seq<char>| archive_line(l)),
            out@.map_values(|s: String| s@) == picked(ls.take(i as int), f),
        decreases lines.len() - i,
    {
        assert(ls.take(i + 1).drop_last() =~= ls.take(i as int));
        assert(ls[i as int] == lines@[i as int]@);
        let ghost before = out@;
        let t = trim_chars(lines[i].as_slice());
        if t.len() > 0 {
            let s = string_from_chars(t.as_slice());
            out.push(s);
            assert(out@.map_values(|s: String| s@) =~= before.map_values(|s: String| s@).push(t@));
        }
        i = i + 1;
    }
    assert(ls.take(i as int) =~= ls);
    out
}

/// A plugin file name without its `.esp`, `.esm` or `.esl` extension.
pub open spec fn spec_strip_plugin_extension(p: Seq<char>) -> Seq<char> {
    if ends_with(p, ".esp"@) || ends_with(p, ".esm"@) || ends_with(p, ".esl"@) {
        p.take(p.len() - 4)
    } else {
        p
    }
}

/// Strip the plugin extension (.esp, .esm, .esl) from a file name.
pub fn strip_plugin_extension(plugin: &str) -> (r: String)
    ensures
        r@ == spec_strip_plugin_extension(plugin@),
{
    let cs = chars_of(plugin);
    let esp = chars_of(".esp");
    let esm = chars_of(".esm");
    let esl = chars_of(".esl");
    proof {
        reveal_strlit(".esp");
        reveal_strlit(".esm");
        reveal_strlit(".esl");
    }
    if chars_end_with(cs.as_slice(), esp.as_slice()) || chars_end_with(cs.as_slice(), esm.as_slice())
        || chars_end_with(cs.as_slice(), esl.as_slice()) {
        let base = sub_chars(cs.as_slice(), 0, cs.len() - 4);
        assert(base@ =~= cs@.take(cs@.len() - 4));
        string_from_chars(base.as_slice())
    } else {
        string_from_chars(cs.as_slice())
    }
}

impl Profile {
    /// The profile in `profile_path`, from the contents of its files:
    /// `modlist.txt` (its mods lie under `mods_dir`), and `loadorder.txt` and
    /// `archives.txt` where they exist (a missing one gives an empty list).
    pub fn load(
        profile_path: String,
        mods_dir: &str,
        game_data_dir: String,
        modlist: &str,
        loadorder: Option<&str>,
        archives: Option<&str>,
    ) -> (p: Profile)
        ensures
            p.profile_path == profile_path,
            p.game_data_dir == game_data_dir,
            p.mods@.len() == spec_modlist(modlist@).len(),
            forall|k: int|
                0 <= k < p.mods@.len() ==> mod_matches(
                    #[trigger] p.mods@[k],
                    spec_modlist(modlist@)[k],
                    k,
                    mods_dir@,
                ),
            strs(p.plugin_order@) == match loadorder {
                Some(c) => picked(split_lines(c@), |l: Seq<char>| loadorder_line(l)),
                None => Seq::<Seq<char>>::empty(),
            },
            strs(p.additional_archives@) == match archives {
                Some(c) => picked(split_lines(c@), |l: Seq<char>| archive_line(l)),
                None => Seq::<Seq<char>>::empty(),
            },
    {
        let mods = parse_modlist_content(modlist, mods_dir);
        let plugin_order = match loadorder {
            Some(c) => parse_loadorder_content(c),
            None => Vec::new(),
        };
        let additional_archives = match archives {
            Some(c) => parse_archives_content(c),
            None => Vec::new(),
        };
        proof {
            if loadorder is None {
                assert(strs(plugin_order@) =~= Seq::<Seq<char>>::empty());
            }
            if archives is None {
                assert(strs(additional_archives@) =~= Seq::<Seq<char>>::empty());
            }
        }
        Profile { profile_path, game_data_dir, mods, plugin_order, additional_archives }
    }

    /// The enabled mods, in priority order (lowest to highest).
    pub fn enabled_mods(&self) -> (v: Vec<&Mod>)
        ensures
            v@.map_values(|m: &Mod| *m) == self.mods@.filter(|m: Mod| m.state == ModState::Enabled),
    {
        let mut v: Vec<&Mod> = Vec::new();
        let mut i: usize = 0;
        while i < self.mods.len()
            invariant
                i <= self.mods@.len(),
                v@.map_values(|m: &Mod| *m) == self.mods@.take(i as int).filter(
                    |m: Mod| m.state == ModState::Enabled,
                ),
            decreases self.mods.len() - i,
        {
            let m = &self.mods[i];
            proof {
                reveal_with_fuel(Seq::filter, 1);
                assert(self.mods@.take(i + 1).drop_last() =~= self.mods@.take(i as int));
            }
            if m.state == ModState::Enabled {
                v.push(m);
                assert(v@.map_values(|m: &Mod| *m) =~= self.mods@.take(i as int).filter(
                    |m: Mod| m.state == ModState::Enabled,
                ).push(*m));
            }
            i = i + 1;
        }
        assert(self.mods@.take(i as int) =~= self.mods@);
        v
    }
}

/// The enabled mods of a list, in order.
pub open spec fn enabled_of(mods: Seq<Mod>) -> Seq<Mod> {
    mods.filter(|m: Mod| m.state == ModState::Enabled)
}

/// The first of `mods` whose folder holds a file `name` that is among the
/// `existing` paths.
pub open spec fn first_mod_with(mods: Seq<Mod>, name: Seq<char>, existing: Seq<Seq<char>>) -> Option<
    Mod,
>
    decreases mods.len(),
{
    if mods.len() == 0 {
        None
    } else if existing.contains(join_path(mods[0].path@, name)) {
        Some(mods[0])
    } else {
        first_mod_with(mods.drop_first(), name, existing)
    }
}

/// The archive named after a plugin base name: `{base}.bsa`.
pub open spec fn bsa_file(base: Seq<char>) -> Seq<char> {
    base + ".bsa"@
}

/// The texture archive named after a plugin base name:
/// `{base} - Textures.bsa`.
pub open spec fn texture_bsa_file(base: Seq<char>) -> Seq<char> {
    base + " - Textures.bsa"@
}

/// An archive found for the virtual file system: its path, the name of the
/// source that provides it, and that source's priority.
pub type BsaEntry = (Seq<char>, Seq<char>, usize);

/// The value of an executable archive entry.
pub open spec fn bsa_view(t: (String, String, usize)) -> BsaEntry {
    (t.0@, t.1@, t.2)
}

/// `path` from source `src` with priority `prio`, when it exists.
pub open spec fn found(e: Seq<Seq<char>>, path: Seq<char>, src: Seq<char>, prio: usize) -> Seq<
    BsaEntry,
> {
    if e.contains(path) {
        seq![(path, src, prio)]
    } else {
        seq![]
    }
}

/// The archives named after each plugin in the game Data folder.
pub open spec fn vanilla_bsas(data: Seq<char>, plugins: Seq<Seq<char>>, e: Seq<Seq<char>>) -> Seq<
    BsaEntry,
>
    decreases plugins.len(),
{
    if plugins.len() == 0 {
        seq![]
    } else {
        let b = spec_strip_plugin_extension(plugins.last());
        vanilla_bsas(data, plugins.drop_last(), e) + found(
            e,
            join_path(data, bsa_file(b)),
            "Vanilla"@,
            0,
        ) + found(e, join_path(data, texture_bsa_file(b)), "Vanilla"@, 0)
    }
}

/// The archives named after each plugin in the folder of the first mod
/// that provides the plugin.
pub open spec fn mod_bsas(mods: Seq<Mod>, plugins: Seq<Seq<char>>, e: Seq<Seq<char>>) -> Seq<
    BsaEntry,
>
    decreases plugins.len(),
{
    if plugins.len() == 0 {
        seq![]
    } else {
        let p = plugins.last();
        let b = spec_strip_plugin_extension(p);
        mod_bsas(mods, plugins.drop_last(), e) + match first_mod_with(mods, p, e) {
            Some(m) => found(e, join_path(m.path@, bsa_file(b)), m.name@, m.priority) + found(
                e,
                join_path(m.path@, texture_bsa_file(b)),
                m.name@,
                m.priority,
            ),
            None => seq![],
        }
    }
}

/// Each additional archive in the folder of the first mod that holds it.
pub open spec fn archive_bsas(mods: Seq<Mod>, archives: Seq<Seq<char>>, e: Seq<Seq<char>>) -> Seq<
    BsaEntry,
>
    decreases archives.len(),
{
    if archives.len() == 0 {
        seq![]
    } else {
        let a = archives.last();
        archive_bsas(mods, archives.drop_last(), e) + match first_mod_with(mods, a, e) {
            Some(m) => seq![(join_path(m.path@, a), m.name@, m.priority)],
            None => seq![],
        }
    }
}

/// The archives of a profile, given the paths that exist: the vanilla
/// archives of each plugin, then those of the mods providing the plugins,
/// then the additional archives.
pub open spec fn spec_plugin_bsas(p: Profile, e: Seq<Seq<char>>) -> Seq<BsaEntry> {
    vanilla_bsas(p.game_data_dir@, strs(p.plugin_order@), e) + mod_bsas(
        enabled_of(p.mods@),
        strs(p.plugin_order@),
        e,
    ) + archive_bsas(enabled_of(p.mods@), strs(p.additional_archives@), e)
}

/// The paths [`spec_plugin_bsas`] asks about for one plugin `p` in the
/// mods: for each mod, the plugin and its two archives.
pub open spec fn plugin_probes(mods: Seq<Mod>, p: Seq<char>) -> Seq<Seq<char>>
    decreases mods.len(),
{
    if mods.len() == 0 {
        seq![]
    } else {
        let m = mods.last();
        let b = spec_strip_plugin_extension(p);
        plugin_probes(mods.drop_last(), p) + seq![
            join_path(m.path@, p),
            join_path(m.path@, bsa_file(b)),
            join_path(m.path@, texture_bsa_file(b)),
        ]
    }
}

/// Every path [`spec_plugin_bsas`] asks about: the two vanilla archives of
/// each plugin, the plugin and its archives in each enabled mod, and each
/// additional archive in each enabled mod.
pub open spec fn probes(
    data: Seq<char>,
    mods: Seq<Mod>,
    plugins: Seq<Seq<char>>,
    archives: Seq<Seq<char>>,
) -> Seq<Seq<char>>
    decreases plugins.len() + archives.len(),
{
    if archives.len() > 0 {
        probes(data, mods, plugins, archives.drop_last()) + mods.map_values(
            |m: Mod| join_path(m.path@, archives.last()),
        )
    } else if plugins.len() > 0 {
        let p = plugins.last();
        let b = spec_strip_plugin_extension(p);
        probes(data, mods, plugins.drop_last(), archives) + seq![
            join_path(data, bsa_file(b)),
            join_path(data, texture_bsa_file(b)),
        ] + plugin_probes(mods, p)
    } else {
        seq![]
    }
}

/// Whether `x` is among the paths `e`.
fn path_listed(e: &Vec<Vec<char>>, x: &Vec<char>) -> (b: bool)
    ensures
        b == e@.map_values(|v: Vec<char>| v@).contains(x@),
{
    let ghost ev = e@.map_values(|v: Vec<char>| v@);
    let mut i: usize = 0;
    while i < e.len()
        invariant
            i <= e@.len(),
            ev == e@.map_values(|v: Vec<char>| v@),
            forall|k: int| 0 <= k < i ==> ev[k] != x@,
        decreases e.len() - i,
    {
        if chars_equal(e[i].as_slice(), x.as_slice()) {
            assert(ev[i as int] == x@);
            return true;
        }
        i = i + 1;
    }
    false
}

/// The index among `mods` of [`first_mod_with`].
fn find_mod_with(mods: &Vec<&Mod>, name: &Vec<char>, e: &Vec<Vec<char>>) -> (r: Option<usize>)
    ensures
        match first_mod_with(
            mods@.map_values(|m: &Mod| *m),
            name@,
            e@.map_values(|v: Vec<char>| v@),
        ) {
            Some(m) => r matches Some(i) && i < mods@.len() && *mods@[i as int] == m,
            None => r is None,
        },
{
    let ghost mv = mods@.map_values(|m: &Mod| *m);
    let ghost ev = e@.map_values(|v: Vec<char>| v@);
    let mut i: usize = 0;
    assert(mv.skip(0) =~= mv);
    while i < mods.len()
        invariant
            i <= mods@.len(),
            mv == mods@.map_values(|m: &Mod| *m),
            ev == e@.map_values(|v: Vec<char>| v@),
            first_mod_with(mv, name@, ev) == first_mod_with(mv.skip(i as int), name@, ev),
        decreases mods.len() - i,
    {
        assert(mv.skip(i as int).drop_first() =~= mv.skip(i + 1));
        assert(mv.skip(i as int)[0] == *mods@[i as int]);
        let pc = chars_of(mods[i].path.as_str());
        let cand = crate::paths::join_chars(pc.as_slice(), name.as_slice());
        if path_listed(e, &cand) {
            return Some(i);
        }
        i = i + 1;
    }
    None
}

/// Append `path` with its source to `out` when it is among `e`.
fn push_found(
    out: &mut Vec<(String, String, usize)>,
    e: &Vec<Vec<char>>,
    path: Vec<char>,
    src: &str,
    prio: usize,
)
    ensures
        final(out)@.map_values(|t: (String, String, usize)| bsa_view(t)) == old(out)@.map_values(
            |t: (String, String, usize)| bsa_view(t),
        ) + found(e@.map_values(|v: Vec<char>| v@), path@, src@, prio),
{
    if path_listed(e, &path) {
        let ghost before = out@.map_values(|t: (String, String, usize)| bsa_view(t));
        out.push((string_from_chars(path.as_slice()), owned_string(src), prio));
        assert(out@.map_values(|t: (String, String, usize)| bsa_view(t)) =~= before.push(
            (path@, src@, prio),
        ));
    } else {
        assert(out@.map_values(|t: (String, String, usize)| bsa_view(t)) =~= old(out)@.map_values(
            |t: (String, String, usize)| bsa_view(t),
        ) + found(e@.map_values(|v: Vec<char>| v@), path@, src@, prio));
    }
}

/// `dir` joined with `{base}{suffix}`.
fn join_suffixed(dir: &str, base: &String, suffix: &str) -> (r: Vec<char>)
    ensures
        r@ == join_path(dir@, base@ + suffix@),
{
    let name = concat_str(base.as_str(), suffix);
    let dc = chars_of(dir);
    let nc = chars_of(name.as_str());
    crate::paths::join_chars(dc.as_slice(), nc.as_slice())
}

/// The character lists of a list of strings.
fn chars_lists(v: &[String]) -> (r: Vec<Vec<char>>)
    ensures
        r@.map_values(|x: Vec<char>| x@) == strs(v@),
{
    let mut r: Vec<Vec<char>> = Vec::new();
    let mut i: usize = 0;
    while i < v.len()
        invariant
            i <= v@.len(),
            r@.map_values(|x: Vec<char>| x@) == strs(v@.take(i as int)),
        decreases v.len() - i,
    {
        let ghost before = r@.map_values(|x: Vec<char>| x@);
        r.push(chars_of(v[i].as_str()));
        assert(r@.map_values(|x: Vec<char>| x@) =~= before.push(v@[i as int]@));
        assert(strs(v@.take(i + 1)) =~= strs(v@.take(i as int)).push(v@[i as int]@));
        i = i + 1;
    }
    assert(v@.take(i as int) =~= v@);
    r
}

/// Append `path` as a string.
fn push_path(out: &mut Vec<String>, path: Vec<char>)
    ensures
        strs(final(out)@) == strs(old(out)@).push(path@),
{
    out.push(string_from_chars(path.as_slice()));
    assert(strs(out@) =~= strs(old(out)@).push(path@));
}

impl Profile {
    /// Every path whose existence decides [`Profile::get_plugin_bsas`] (see
    /// [`probes`]).
    pub fn bsa_search_paths(&self) -> (v: Vec<String>)
        ensures
            strs(v@) == probes(
                self.game_data_dir@,
                enabled_of(self.mods@),
                strs(self.plugin_order@),
                strs(self.additional_archives@),
            ),
    {
        let enabled = self.enabled_mods();
        let ghost mods = enabled_of(self.mods@);
        let ghost data = self.game_data_dir@;
        let ghost ps = strs(self.plugin_order@);
        let ghost arcs = strs(self.additional_archives@);
        let mut out: Vec<String> = Vec::new();
        let mut i: usize = 0;
        assert(strs(out@) =~= probes(data, mods, ps.take(0), seq![]));
        while i < self.plugin_order.len()
            invariant
                i <= ps.len(),
                ps == strs(self.plugin_order@),
                mods == enabled@.map_values(|m: &Mod| *m),
                data == self.game_data_dir@,
                strs(out@) == probes(data, mods, ps.take(i as int), seq![]),
            decreases self.plugin_order.len() - i,
        {
            let pname = &self.plugin_order[i];
            let base = strip_plugin_extension(pname.as_str());
            let ghost before = strs(out@);
            push_path(&mut out, join_suffixed(self.game_data_dir.as_str(), &base, ".bsa"));
            push_path(
                &mut out,
                join_suffixed(self.game_data_dir.as_str(), &base, " - Textures.bsa"),
            );
            let ghost mid = strs(out@);
            let mut k: usize = 0;
            assert(mid + plugin_probes(mods.take(0), pname@) =~= mid);
            while k < enabled.len()
                invariant
                    k <= enabled@.len(),
                    mods == enabled@.map_values(|m: &Mod| *m),
                    base@ == spec_strip_plugin_extension(pname@),
                    strs(out@) == mid + plugin_probes(mods.take(k as int), pname@),
                decreases enabled.len() - k,
            {
                let m = enabled[k];
                let pc = chars_of(m.path.as_str());
                let nc = chars_of(pname.as_str());
                push_path(&mut out, crate::paths::join_chars(pc.as_slice(), nc.as_slice()));
                push_path(&mut out, join_suffixed(m.path.as_str(), &base, ".bsa"));
                push_path(&mut out, join_suffixed(m.path.as_str(), &base, " - Textures.bsa"));
                assert(mods.take(k + 1).drop_last() =~= mods.take(k as int));
                assert(mods.take(k + 1).last() == *m);
                assert(strs(out@) =~= mid + plugin_probes(mods.take(k + 1), pname@));
                k = k + 1;
            }
            assert(mods.take(k as int) =~= mods);
            assert(ps.take(i + 1).drop_last() =~= ps.take(i as int));
            assert(ps.take(i + 1).last() == pname@);
            assert(strs(out@) =~= probes(data, mods, ps.take(i + 1), seq![]));
            i = i + 1;
        }
        assert(ps.take(i as int) =~= ps);
        let mut j: usize = 0;
        assert(arcs.take(0) =~= seq![]);
        while j < self.additional_archives.len()
            invariant
                j <= arcs.len(),
                arcs == strs(self.additional_archives@),
                mods == enabled@.map_values(|m: &Mod| *m),
                strs(out@) == probes(data, mods, ps, arcs.take(j as int)),
            decreases self.additional_archives.len() - j,
        {
            let a = &self.additional_archives[j];
            let ac = chars_of(a.as_str());
            let ghost mid = strs(out@);
            let mut k: usize = 0;
            assert(mods.take(0).map_values(|m: Mod| join_path(m.path@, a@)) =~= seq![]);
            while k < enabled.len()
                invariant
                    k <= enabled@.len(),
                    mods == enabled@.map_values(|m: &Mod| *m),
                    ac@ == a@,
                    strs(out@) == mid + mods.take(k as int).map_values(
                        |m: Mod| join_path(m.path@, a@),
                    ),
                decreases enabled.len() - k,
            {
                let m = enabled[k];
                let pc = chars_of(m.path.as_str());
                push_path(&mut out, crate::paths::join_chars(pc.as_slice(), ac.as_slice()));
                assert(mods.take(k + 1).map_values(|m: Mod| join_path(m.path@, a@)) =~= mods.take(
                    k as int,
                ).map_values(|m: Mod| join_path(m.path@, a@)).push(join_path(m.path@, a@)));
                k = k + 1;
            }
            assert(mods.take(k as int) =~= mods);
            assert(arcs.take(j + 1).drop_last() =~= arcs.take(j as int));
            assert(arcs.take(j + 1).last() == a@);
            j = j + 1;
        }
        assert(arcs.take(j as int) =~= arcs);
        out
    }
}

impl Profile {
    /// The archives of the profile in load order (see [`spec_plugin_bsas`]):
    /// path, source name (`Vanilla` or the mod's name) and priority, given
    /// the paths that exist (those among [`Profile::bsa_search_paths`]
    /// decide the result).
    pub fn get_plugin_bsas(&self, existing: &[String]) -> (v: Vec<(String, String, usize)>)
        ensures
            v@.map_values(|t: (String, String, usize)| bsa_view(t)) == spec_plugin_bsas(
                *self,
                strs(existing@),
            ),
    {
        let e = chars_lists(existing);
        let ghost ev = strs(existing@);
        let enabled = self.enabled_mods();
        let ghost mods = enabled_of(self.mods@);
        let ghost data = self.game_data_dir@;
        let ghost ps = strs(self.plugin_order@);
        let ghost arcs = strs(self.additional_archives@);
        let mut out: Vec<(String, String, usize)> = Vec::new();
        let mut i: usize = 0;
        assert(out@.map_values(|t: (String, String, usize)| bsa_view(t)) =~= vanilla_bsas(
            data,
            ps.take(0),
            ev,
        ));
        while i < self.plugin_order.len()
            invariant
                i <= ps.len(),
                ps == strs(self.plugin_order@),
                ev == e@.map_values(|x: Vec<char>| x@),
                data == self.game_data_dir@,
                out@.map_values(|t: (String, String, usize)| bsa_view(t)) == vanilla_bsas(
                    data,
                    ps.take(i as int),
                    ev,
                ),
            decreases self.plugin_order.len() - i,
        {
            let pname = &self.plugin_order[i];
            let base = strip_plugin_extension(pname.as_str());
            push_found(
                &mut out,
                &e,
                join_suffixed(self.game_data_dir.as_str(), &base, ".bsa"),
                "Vanilla",
                0,
            );
            push_found(
                &mut out,
                &e,
                join_suffixed(self.game_data_dir.as_str(), &base, " - Textures.bsa"),
                "Vanilla",
                0,
            );
            assert(ps.take(i + 1).drop_last() =~= ps.take(i as int));
            assert(ps.take(i + 1).last() == pname@);
            i = i + 1;
        }
        assert(ps.take(i as int) =~= ps);
        let ghost vanilla = vanilla_bsas(data, ps, ev);
        let mut i: usize = 0;
        assert(vanilla + mod_bsas(mods, ps.take(0), ev) =~= vanilla);
        while i < self.plugin_order.len()
            invariant
                i <= ps.len(),
                ps == strs(self.plugin_order@),
                ev == e@.map_values(|x: Vec<char>| x@),
                mods == enabled@.map_values(|m: &Mod| *m),
                out@.map_values(|t: (String, String, usize)| bsa_view(t)) == vanilla + mod_bsas(
                    mods,
                    ps.take(i as int),
                    ev,
                ),
            decreases self.plugin_order.len() - i,
        {
            let pname = &self.plugin_order[i];
            let base = strip_plugin_extension(pname.as_str());
            let pc = chars_of(pname.as_str());
            let ghost before = out@.map_values(|t: (String, String, usize)| bsa_view(t));
            match find_mod_with(&enabled, &pc, &e) {
                Some(k) => {
                    let m = enabled[k];
                    push_found(
                        &mut out,
                        &e,
                        join_suffixed(m.path.as_str(), &base, ".bsa"),
                        m.name.as_str(),
                        m.priority,
                    );
                    push_found(
                        &mut out,
                        &e,
                        join_suffixed(m.path.as_str(), &base, " - Textures.bsa"),
                        m.name.as_str(),
                        m.priority,
                    );
                },
                None => {},
            }
            assert(ps.take(i + 1).drop_last() =~= ps.take(i as int));
            assert(ps.take(i + 1).last() == pname@);
            assert(out@.map_values(|t: (String, String, usize)| bsa_view(t)) =~= vanilla + mod_bsas(
                mods,
                ps.take(i + 1),
                ev,
            ));
            i = i + 1;
        }
        assert(ps.take(i as int) =~= ps);
        let ghost with_mods = vanilla + mod_bsas(mods, ps, ev);
        let mut j: usize = 0;
        assert(with_mods + archive_bsas(mods, arcs.take(0), ev) =~= with_mods);
        while j < self.additional_archives.len()
            invariant
                j <= arcs.len(),
                arcs == strs(self.additional_archives@),
                ev == e@.map_values(|x: Vec<char>| x@),
                mods == enabled@.map_values(|m: &Mod| *m),
                out@.map_values(|t: (String, String, usize)| bsa_view(t)) == with_mods
                    + archive_bsas(mods, arcs.take(j as int), ev),
            decreases self.additional_archives.len() - j,
        {
            let a = &self.additional_archives[j];
            let ac = chars_of(a.as_str());
            let ghost before = out@.map_values(|t: (String, String, usize)| bsa_view(t));
            match find_mod_with(&enabled, &ac, &e) {
                Some(k) => {
                    let m = enabled[k];
                    let pc = chars_of(m.path.as_str());
                    let path = crate::paths::join_chars(pc.as_slice(), ac.as_slice());
                    out.push((string_from_chars(path.as_slice()), m.name.clone(), m.priority));
                    assert(out@.map_values(|t: (String, String, usize)| bsa_view(t)) =~= before.push(
                        (join_path(m.path@, a@), m.name@, m.priority),
                    ));
                },
                None => {},
            }
            assert(arcs.take(j + 1).drop_last() =~= arcs.take(j as int));
            assert(arcs.take(j + 1).last() == a@);
            assert(out@.map_values(|t: (String, String, usize)| bsa_view(t)) =~= with_mods
                + archive_bsas(mods, arcs.take(j + 1), ev));
            j = j + 1;
        }
        assert(arcs.take(j as int) =~= arcs);
        out
    }
}

impl Profile {
    /// Where a plugin file is looked for, in order: the folder of each
    /// enabled mod, highest priority first (a higher-priority mod wins),
    /// then the game Data folder; the first that exists provides the plugin.
    pub fn plugin_search_paths(&self, plugin_name: &str) -> (v: Vec<String>)
        ensures
            strs(v@) == enabled_of(self.mods@).reverse().map_values(
                |m: Mod| join_path(m.path@, plugin_name@),
            ).push(join_path(self.game_data_dir@, plugin_name@)),
    {
        let enabled = self.enabled_mods();
        let ghost mods = enabled_of(self.mods@).reverse();
        let nc = chars_of(plugin_name);
        let mut out: Vec<String> = Vec::new();
        let mut k: usize = 0;
        assert(enabled@.map_values(|m: &Mod| *m).len() == enabled@.len());
        assert(strs(out@) =~= mods.take(0).map_values(|m: Mod| join_path(m.path@, plugin_name@)));
        while k < enabled.len()
            invariant
                k <= enabled@.len(),
                mods == enabled@.map_values(|m: &Mod| *m).reverse(),
                mods.len() == enabled@.len(),
                nc@ == plugin_name@,
                strs(out@) == mods.take(k as int).map_values(
                    |m: Mod| join_path(m.path@, plugin_name@),
                ),
            decreases enabled.len() - k,
        {
            let m = enabled[enabled.len() - 1 - k];
            assert(mods[k as int] == *m);
            let pc = chars_of(m.path.as_str());
            push_path(&mut out, crate::paths::join_chars(pc.as_slice(), nc.as_slice()));
            assert(mods.take(k + 1).map_values(|m: Mod| join_path(m.path@, plugin_name@))
                =~= mods.take(k as int).map_values(|m: Mod| join_path(m.path@, plugin_name@)).push(
                join_path(m.path@, plugin_name@),
            ));
            k = k + 1;
        }
        assert(mods.take(k as int) =~= mods);
        let dc = chars_of(self.game_data_dir.as_str());
        push_path(&mut out, crate::paths::join_chars(dc.as_slice(), nc.as_slice()));
        out
    }
}

} // verus!
