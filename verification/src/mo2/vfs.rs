//! The virtual file system that simulates MO2's file layering.
//!
//! Game Data files are the base layer (lowest priority); each enabled mod
//! is layered on top in priority order, and a mod's file replaces what is
//! there only with a strictly higher priority. Walking the folders is done
//! by the application, which hands each file found to the index.

use vstd::prelude::*;

use crate::asset_scan::forward_slashes;
use crate::mo2::profile::{Mod, Profile};
use crate::paths::join_path;
use crate::text::{
    chars_equal, chars_of, concat_str, decimal, decimal_string, owned_string, spec_to_lowercase,
    str_to_lowercase, string_from_chars, strs,
};

verus! {

/// Source of a file in the virtual file system.
#[derive(Debug, Clone)]
pub enum FileSource {
    /// File from the game Data directory (vanilla).
    Vanilla(String),
    /// File from a mod.
    Mod { mod_name: String, mod_priority: usize, file_path: String },
}

impl FileSource {
    /// The priority of this source (higher wins conflicts): 0 for vanilla
    /// files, the mod's priority for mod files.
    pub fn priority(&self) -> (p: usize)
        ensures
            p == match self {
                FileSource::Vanilla(_) => 0,
                FileSource::Mod { mod_priority, .. } => *mod_priority,
            },
    {
        match self {
            FileSource::Vanilla(_) => 0,
            FileSource::Mod { mod_priority, .. } => *mod_priority,
        }
    }

    /// The physical path on disk.
    pub fn physical_path(&self) -> (p: &String)
        ensures
            *p == match self {
                FileSource::Vanilla(q) => *q,
                FileSource::Mod { file_path, .. } => *file_path,
            },
    {
        match self {
            FileSource::Vanilla(p) => p,
            FileSource::Mod { file_path, .. } => file_path,
        }
    }
}

/// Normalize a path for case-insensitive comparison: lower-cased, with
/// forward slashes.
pub fn normalize_path(path: &str) -> (r: String)
    ensures
        r@ == forward_slashes(spec_to_lowercase(path@)),
{
    let lower = str_to_lowercase(path);
    let cs = chars_of(lower.as_str());
    let mut v: Vec<char> = Vec::new();
    let mut i: usize = 0;
    while i < cs.len()
        invariant
            i <= cs@.len(),
            cs@ == spec_to_lowercase(path@),
            v@ == forward_slashes(cs@.take(i as int)),
        decreases cs.len() - i,
    {
        let c = cs[i];
        let d = if c == '\\' {
            '/'
        } else {
            c
        };
        v.push(d);
        assert(forward_slashes(cs@.take(i + 1)) =~= forward_slashes(cs@.take(i as int)).push(d));
        i = i + 1;
    }
    assert(cs@.take(i as int) =~= cs@);
    string_from_chars(v.as_slice())
}

/// VFS statistics summary.
#[derive(Debug)]
pub struct VfsStatistics {
    pub total_files: usize,
    pub vanilla_files: usize,
    pub mod_files: usize,
}

impl Default for VfsStatistics {
    fn default() -> (s: Self)
        ensures
            s.total_files == 0,
            s.vanilla_files == 0,
            s.mod_files == 0,
    {
        VfsStatistics { total_files: 0, vanilla_files: 0, mod_files: 0 }
    }
}

impl VfsStatistics {
    /// "VFS Stats: T total (V vanilla, M from mods)".
    pub fn to_display_string(&self) -> (s: String)
        ensures
            s@ == "VFS Stats: "@ + decimal(self.total_files as nat) + " total ("@ + decimal(
                self.vanilla_files as nat,
            ) + " vanilla, "@ + decimal(self.mod_files as nat) + " from mods)"@,
    {
        let t = decimal_string(self.total_files as u64);
        let v = decimal_string(self.vanilla_files as u64);
        let m = decimal_string(self.mod_files as u64);
        let s = concat_str("VFS Stats: ", t.as_str());
        let s = concat_str(s.as_str(), " total (");
        let s = concat_str(s.as_str(), v.as_str());
        let s = concat_str(s.as_str(), " vanilla, ");
        let s = concat_str(s.as_str(), m.as_str());
        concat_str(s.as_str(), " from mods)")
    }
}

/// The priority of a file source: 0 for vanilla files, the mod's priority
/// for mod files.
pub open spec fn source_priority(s: FileSource) -> usize {
    match s {
        FileSource::Vanilla(_) => 0,
        FileSource::Mod { mod_priority, .. } => mod_priority,
    }
}

/// The physical path of a file source.
pub open spec fn source_path(s: FileSource) -> Seq<char> {
    match s {
        FileSource::Vanilla(p) => p@,
        FileSource::Mod { file_path, .. } => file_path@,
    }
}

/// The normalized virtual path of a path relative to `Data/`: lower-cased,
/// with forward slashes.
pub open spec fn virtual_key(p: Seq<char>) -> Seq<char> {
    forward_slashes(spec_to_lowercase(p))
}

/// The map made by inserting the entries of `s` in order.
pub open spec fn files_map(s: Seq<(String, FileSource)>) -> Map<Seq<char>, FileSource>
    decreases s.len(),
{
    if s.len() == 0 {
        Map::empty()
    } else {
        files_map(s.drop_last()).insert(s.last().0@, s.last().1)
    }
}

/// No two entries of `s` have the same key.
pub open spec fn distinct_files(s: Seq<(String, FileSource)>) -> bool {
    forall|i: int, j: int|
        0 <= i < s.len() && 0 <= j < s.len() && i != j ==> (#[trigger] s[i]).0@ != (#[trigger] s[j]).0@
}

/// With distinct keys, the map holds exactly the entries' keys, each with
/// its entry's source, and has as many keys as entries.
proof fn lemma_files_map(s: Seq<(String, FileSource)>)
    requires
        distinct_files(s),
    ensures
        forall|i: int|
            0 <= i < s.len() ==> files_map(s).contains_key((#[trigger] s[i]).0@) && files_map(
                s,
            )[s[i].0@] == s[i].1,
        forall|k: Seq<char>|
            #[trigger] files_map(s).contains_key(k) ==> exists|i: int| 0 <= i < s.len() && s[i].0@ == k,
        files_map(s).dom().finite(),
        files_map(s).dom().len() == s.len(),
    decreases s.len(),
{
    if s.len() > 0 {
        let q = s.drop_last();
        assert(distinct_files(q)) by {
            assert forall|i: int, j: int|
                0 <= i < q.len() && 0 <= j < q.len() && i != j implies (#[trigger] q[i]).0@ != (
                #[trigger] q[j]).0@ by {
                assert(q[i] == s[i] && q[j] == s[j]);
            }
        }
        lemma_files_map(q);
        let k = s.last().0@;
        assert(!files_map(q).contains_key(k)) by {
            if files_map(q).contains_key(k) {
                let i = choose|i: int| 0 <= i < q.len() && q[i].0@ == k;
                assert(q[i] == s[i]);
            }
        }
        assert forall|i: int| 0 <= i < s.len() implies files_map(s).contains_key(
            (#[trigger] s[i]).0@,
        ) && files_map(s)[s[i].0@] == s[i].1 by {
            if i < s.len() - 1 {
                assert(q[i] == s[i]);
            }
        }
        assert forall|kk: Seq<char>| #[trigger] files_map(s).contains_key(kk) implies exists|i: int|
            0 <= i < s.len() && s[i].0@ == kk by {
            if kk == k {
                assert(s[s.len() - 1].0@ == kk);
            } else {
                let i = choose|i: int| 0 <= i < q.len() && q[i].0@ == kk;
                assert(q[i] == s[i]);
            }
        }
        assert(files_map(s).dom() =~= files_map(q).dom().insert(k));
    }
}

/// The index after a mod file is offered for key `k`: it is added when the
/// key is new, and replaces the file there only when the mod's priority is
/// higher than that file's.
pub open spec fn mod_file_step(
    files: Map<Seq<char>, FileSource>,
    k: Seq<char>,
    src: FileSource,
) -> Map<Seq<char>, FileSource> {
    if files.contains_key(k) && source_priority(src) <= source_priority(files[k]) {
        files
    } else {
        files.insert(k, src)
    }
}

/// The keys of an index whose source is a vanilla file.
pub open spec fn vanilla_keys(files: Map<Seq<char>, FileSource>) -> Set<Seq<char>> {
    files.dom().filter(|k: Seq<char>| files[k] is Vanilla)
}

/// The keys of an index whose source is a mod file.
pub open spec fn mod_keys(files: Map<Seq<char>, FileSource>) -> Set<Seq<char>> {
    files.dom().filter(|k: Seq<char>| files[k] is Mod)
}

/// The position of the entry of `entries` with key `k`.
fn find_entry(entries: &Vec<(String, FileSource)>, k: &Vec<char>) -> (r: Option<usize>)
    ensures
        match r {
            Some(i) => i < entries@.len() && entries@[i as int].0@ == k@,
            None => forall|i: int| 0 <= i < entries@.len() ==> (#[trigger] entries@[i]).0@ != k@,
        },
{
    let mut i: usize = 0;
    while i < entries.len()
        invariant
            i <= entries@.len(),
            forall|j: int| 0 <= j < i ==> (#[trigger] entries@[j]).0@ != k@,
        decreases entries.len() - i,
    {
        let kc = chars_of(entries[i].0.as_str());
        if chars_equal(kc.as_slice(), k.as_slice()) {
            return Some(i);
        }
        i = i + 1;
    }
    None
}

/// Whether `x` is among the paths `e`.
fn listed(e: &[String], x: &Vec<char>) -> (b: bool)
    ensures
        b == strs(e@).contains(x@),
{
    let mut i: usize = 0;
    while i < e.len()
        invariant
            i <= e@.len(),
            forall|k: int| 0 <= k < i ==> strs(e@)[k] != x@,
        decreases e.len() - i,
    {
        let c = chars_of(e[i].as_str());
        if chars_equal(c.as_slice(), x.as_slice()) {
            assert(strs(e@)[i as int] == x@);
            return true;
        }
        i = i + 1;
    }
    false
}

/// Where a plugin of the load order is read from: the file its lower-cased
/// name resolves to, else its path in the game Data folder when that exists
/// (is among `e`).
pub open spec fn plugin_location(
    files: Map<Seq<char>, FileSource>,
    p: Seq<char>,
    data: Seq<char>,
    e: Seq<Seq<char>>,
) -> Option<Seq<char>> {
    let k = spec_to_lowercase(p);
    if files.contains_key(k) {
        Some(source_path(files[k]))
    } else if e.contains(join_path(data, p)) {
        Some(join_path(data, p))
    } else {
        None
    }
}

/// The locations of the plugins `ps` that have one, in order.
pub open spec fn located_plugins(
    files: Map<Seq<char>, FileSource>,
    ps: Seq<Seq<char>>,
    data: Seq<char>,
    e: Seq<Seq<char>>,
) -> Seq<Seq<char>>
    decreases ps.len(),
{
    if ps.len() == 0 {
        seq![]
    } else {
        located_plugins(files, ps.drop_last(), data, e) + match plugin_location(
            files,
            ps.last(),
            data,
            e,
        ) {
            Some(x) => seq![x],
            None => seq![],
        }
    }
}

/// The VFS: normalized virtual paths (relative to `Data/`) mapped to their
/// winning file source, for a profile.
pub struct VirtualFileSystem {
    file_map: Vec<(String, FileSource)>,
    profile: Profile,
}

impl View for VirtualFileSystem {
    type V = Map<Seq<char>, FileSource>;

    closed spec fn view(&self) -> Map<Seq<char>, FileSource> {
        files_map(self.file_map@)
    }
}

impl VirtualFileSystem {
    /// No two entries share a virtual path.
    #[verifier::type_invariant]
    spec fn wf(self) -> bool {
        distinct_files(self.file_map@)
    }

    /// The profile the VFS is built for.
    pub closed spec fn spec_profile(self) -> Profile {
        self.profile
    }

    /// An empty VFS for a profile; its files are added with
    /// [`VirtualFileSystem::index_vanilla_file`] (the game Data folder
    /// first) and [`VirtualFileSystem::index_mod_file`] (each enabled mod
    /// in priority order).
    pub fn new(profile: Profile) -> (v: Self)
        ensures
            v@ == Map::<Seq<char>, FileSource>::empty(),
            v.spec_profile() == profile,
    {
        VirtualFileSystem { file_map: Vec::new(), profile }
    }

    /// The profile the VFS is built for.
    pub fn profile(&self) -> (p: &Profile)
        ensures
            *p == self.spec_profile(),
    {
        &self.profile
    }

    /// Set key `k` to `src`.
    fn put(&mut self, k: Vec<char>, src: FileSource)
        ensures
            final(self)@ == old(self)@.insert(k@, src),
            final(self).spec_profile() == old(self).spec_profile(),
    {
        proof {
            use_type_invariant(&*self);
            lemma_files_map(self.file_map@);
        }
        let ghost before = self.file_map@;
        let key = string_from_chars(k.as_slice());
        let mut entries = Vec::new();
        std::mem::swap(&mut entries, &mut self.file_map);
        match find_entry(&entries, &k) {
            Some(i) => {
                entries.set(i, (key, src));
                proof {
                    let after = entries@;
                    assert(distinct_files(after)) by {
                        assert forall|a: int, b: int|
                            0 <= a < after.len() && 0 <= b < after.len() && a != b implies (
                            #[trigger] after[a]).0@ != (#[trigger] after[b]).0@ by {
                            if a != i {
                                assert(after[a] == before[a]);
                            }
                            if b != i {
                                assert(after[b] == before[b]);
                            }
                        }
                    }
                    lemma_files_map(after);
                    assert(files_map(after) =~= files_map(before).insert(k@, src)) by {
                        assert forall|kk: Seq<char>| #[trigger] files_map(after).contains_key(kk) <==> files_map(
                            before,
                        ).insert(k@, src).contains_key(kk) by {
                            if files_map(after).contains_key(kk) {
                                let j = choose|j: int| 0 <= j < after.len() && after[j].0@ == kk;
                                if j != i {
                                    assert(after[j] == before[j]);
                                }
                            }
                            if files_map(before).contains_key(kk) {
                                let j = choose|j: int| 0 <= j < before.len() && before[j].0@ == kk;
                                if j != i {
                                    assert(after[j] == before[j]);
                                } else {
                                    assert(after[j].0@ == kk);
                                }
                            }
                            if kk == k@ {
                                assert(after[i as int].0@ == kk);
                            }
                        }
                        assert forall|kk: Seq<char>| #[trigger] files_map(after).contains_key(kk) implies files_map(
                            after,
                        )[kk] == files_map(before).insert(k@, src)[kk] by {
                            let j = choose|j: int| 0 <= j < after.len() && after[j].0@ == kk;
                            if j != i {
                                assert(after[j] == before[j]);
                            }
                        }
                    }
                }
            },
            None => {
                entries.push((key, src));
                proof {
                    let after = entries@;
                    assert(after.drop_last() =~= before);
                    assert(distinct_files(after)) by {
                        assert forall|a: int, b: int|
                            0 <= a < after.len() && 0 <= b < after.len() && a != b implies (
                            #[trigger] after[a]).0@ != (#[trigger] after[b]).0@ by {
                            if a < before.len() {
                                assert(after[a] == before[a]);
                            }
                            if b < before.len() {
                                assert(after[b] == before[b]);
                            }
                        }
                    }
                }
            },
        }
        self.file_map = entries;
    }

    /// The normalized key of a path (see [`virtual_key`]).
    fn key_of(path: &str) -> (k: Vec<char>)
        ensures
            k@ == virtual_key(path@),
    {
        let n = normalize_path(path);
        chars_of(n.as_str())
    }

    /// Add a file of the game Data folder, at `rel_path` relative to it,
    /// found at `physical_path`: it takes its virtual path.
    pub fn index_vanilla_file(&mut self, rel_path: &str, physical_path: String)
        ensures
            final(self)@ == old(self)@.insert(virtual_key(rel_path@), FileSource::Vanilla(physical_path)),
            final(self).spec_profile() == old(self).spec_profile(),
    {
        let k = Self::key_of(rel_path);
        self.put(k, FileSource::Vanilla(physical_path));
    }

    /// Offer a file of mod `mod_entry`, at `rel_path` relative to the mod's
    /// folder, found at `physical_path` (see [`mod_file_step`]).
    pub fn index_mod_file(&mut self, mod_entry: &Mod, rel_path: &str, physical_path: String)
        ensures
            final(self)@ == mod_file_step(
                old(self)@,
                virtual_key(rel_path@),
                FileSource::Mod {
                    mod_name: mod_entry.name,
                    mod_priority: mod_entry.priority,
                    file_path: physical_path,
                },
            ),
            final(self).spec_profile() == old(self).spec_profile(),
    {
        proof {
            use_type_invariant(&*self);
            lemma_files_map(self.file_map@);
        }
        let k = Self::key_of(rel_path);
        let src = FileSource::Mod {
            mod_name: mod_entry.name.clone(),
            mod_priority: mod_entry.priority,
            file_path: physical_path,
        };
        match find_entry(&self.file_map, &k) {
            Some(i) => {
                if mod_entry.priority > self.file_map[i].1.priority() {
                    self.put(k, src);
                }
            },
            None => {
                proof {
                    if self@.contains_key(k@) {
                        let j = choose|j: int| 0 <= j < self.file_map@.len() && self.file_map@[j].0@ == k@;
                        assert(self.file_map@[j].0@ != k@);
                    }
                }
                self.put(k, src);
            },
        }
    }

    /// The source of the file at `virtual_path` (relative to `Data/`;
    /// matched case-insensitively, either slash), if any.
    pub fn resolve_file(&self, virtual_path: &str) -> (r: Option<&FileSource>)
        ensures
            match r {
                Some(s) => self@.contains_key(virtual_key(virtual_path@)) && self@[virtual_key(
                    virtual_path@,
                )] == *s,
                None => !self@.contains_key(virtual_key(virtual_path@)),
            },
    {
        proof {
            use_type_invariant(self);
            lemma_files_map(self.file_map@);
        }
        let k = Self::key_of(virtual_path);
        match find_entry(&self.file_map, &k) {
            Some(i) => Some(&self.file_map[i].1),
            None => {
                proof {
                    if self@.contains_key(k@) {
                        let j = choose|j: int| 0 <= j < self.file_map@.len() && self.file_map@[j].0@ == k@;
                        assert(self.file_map@[j].0@ != k@);
                    }
                }
                None
            },
        }
    }
}

impl VirtualFileSystem {
    /// The game Data paths of the plugins of the load order, which
    /// [`VirtualFileSystem::list_plugins`] falls back on.
    pub fn plugin_fallback_paths(&self) -> (v: Vec<String>)
        ensures
            strs(v@) == strs(self.spec_profile().plugin_order@).map_values(
                |p: Seq<char>| join_path(self.spec_profile().game_data_dir@, p),
            ),
    {
        let ghost ps = strs(self.profile.plugin_order@);
        let ghost data = self.profile.game_data_dir@;
        let mut out: Vec<String> = Vec::new();
        let mut i: usize = 0;
        while i < self.profile.plugin_order.len()
            invariant
                i <= ps.len(),
                ps == strs(self.profile.plugin_order@),
                data == self.profile.game_data_dir@,
                strs(out@) == ps.take(i as int).map_values(|p: Seq<char>| join_path(data, p)),
            decreases self.profile.plugin_order.len() - i,
        {
            let ghost before = out@;
            out.push(crate::paths::join_str(
                self.profile.game_data_dir.as_str(),
                self.profile.plugin_order[i].as_str(),
            ));
            assert(strs(out@) =~= strs(before).push(join_path(data, ps[i as int])));
            assert(ps.take(i + 1).map_values(|p: Seq<char>| join_path(data, p)) =~= ps.take(
                i as int,
            ).map_values(|p: Seq<char>| join_path(data, p)).push(join_path(data, ps[i as int])));
            i = i + 1;
        }
        assert(ps.take(i as int) =~= ps);
        out
    }

    /// The files the plugins of the load order are read from, in order (see
    /// [`located_plugins`]), given the paths that exist (those among
    /// [`VirtualFileSystem::plugin_fallback_paths`] decide the result).
    pub fn list_plugins(&self, existing: &[String]) -> (v: Vec<String>)
        ensures
            strs(v@) == located_plugins(
                self@,
                strs(self.spec_profile().plugin_order@),
                self.spec_profile().game_data_dir@,
                strs(existing@),
            ),
    {
        proof {
            use_type_invariant(self);
            lemma_files_map(self.file_map@);
        }
        let ghost ps = strs(self.profile.plugin_order@);
        let ghost data = self.profile.game_data_dir@;
        let mut out: Vec<String> = Vec::new();
        let mut i: usize = 0;
        while i < self.profile.plugin_order.len()
            invariant
                i <= ps.len(),
                ps == strs(self.profile.plugin_order@),
                data == self.profile.game_data_dir@,
                distinct_files(self.file_map@),
                strs(out@) == located_plugins(self@, ps.take(i as int), data, strs(existing@)),
            decreases self.profile.plugin_order.len() - i,
        {
            proof {
                lemma_files_map(self.file_map@);
            }
            let name = &self.profile.plugin_order[i];
            let lower = str_to_lowercase(name.as_str());
            let k = chars_of(lower.as_str());
            let ghost before = strs(out@);
            assert(ps.take(i + 1).drop_last() =~= ps.take(i as int));
            assert(ps.take(i + 1).last() == name@);
            match find_entry(&self.file_map, &k) {
                Some(j) => {
                    let p = self.file_map[j].1.physical_path();
                    out.push(owned_string(p.as_str()));
                    assert(strs(out@) =~= before.push(source_path(self@[k@])));
                },
                None => {
                    proof {
                        if self@.contains_key(k@) {
                            let j = choose|j: int| 0 <= j < self.file_map@.len() && self.file_map@[j].0@ == k@;
                            assert(self.file_map@[j].0@ != k@);
                        }
                    }
                    let dc = chars_of(self.profile.game_data_dir.as_str());
                    let nc = chars_of(name.as_str());
                    let vp = crate::paths::join_chars(dc.as_slice(), nc.as_slice());
                    if listed(existing, &vp) {
                        out.push(string_from_chars(vp.as_slice()));
                        assert(strs(out@) =~= before.push(vp@));
                    }
                },
            }
            i = i + 1;
        }
        assert(ps.take(i as int) =~= ps);
        out
    }

    /// Counts of the indexed files: all of them, the vanilla ones and those
    /// from mods.
    pub fn get_statistics(&self) -> (st: VfsStatistics)
        ensures
            st.total_files == self@.dom().len(),
            st.vanilla_files == vanilla_keys(self@).len(),
            st.mod_files == mod_keys(self@).len(),
    {
        proof {
            use_type_invariant(self);
            lemma_files_map(self.file_map@);
        }
        let ghost s = self.file_map@;
        let mut st = VfsStatistics::default();
        let mut i: usize = 0;
        assert(vanilla_keys(files_map(s.take(0))) =~= Set::<Seq<char>>::empty());
        assert(mod_keys(files_map(s.take(0))) =~= Set::<Seq<char>>::empty());
        while i < self.file_map.len()
            invariant
                i <= s.len(),
                s == self.file_map@,
                distinct_files(s),
                st.total_files == i,
                st.vanilla_files == vanilla_keys(files_map(s.take(i as int))).len(),
                st.mod_files == mod_keys(files_map(s.take(i as int))).len(),
                st.vanilla_files + st.mod_files == i,
            decreases self.file_map.len() - i,
        {
            let ghost q = s.take(i as int);
            let ghost q1 = s.take(i + 1);
            proof {
                assert(q1.drop_last() =~= q);
                assert(distinct_files(q1)) by {
                    assert forall|a: int, b: int|
                        0 <= a < q1.len() && 0 <= b < q1.len() && a != b implies (#[trigger] q1[a]).0@
                        != (#[trigger] q1[b]).0@ by {
                        assert(q1[a] == s[a] && q1[b] == s[b]);
                    }
                }
                lemma_files_map(q1);
                lemma_files_map(q);
                let k = s[i as int].0@;
                assert(!files_map(q).contains_key(k)) by {
                    if files_map(q).contains_key(k) {
                        let j = choose|j: int| 0 <= j < q.len() && q[j].0@ == k;
                        assert(q[j] == s[j]);
                    }
                }
                let m0 = files_map(q);
                let m1 = files_map(q1);
                assert(m1 == m0.insert(k, s[i as int].1));
                if s[i as int].1 is Vanilla {
                    assert(vanilla_keys(m1) =~= vanilla_keys(m0).insert(k));
                    assert(mod_keys(m1) =~= mod_keys(m0));
                } else {
                    assert(vanilla_keys(m1) =~= vanilla_keys(m0));
                    assert(mod_keys(m1) =~= mod_keys(m0).insert(k));
                }
                assert(vanilla_keys(m0).finite() && mod_keys(m0).finite());
            }
            match &self.file_map[i].1 {
                FileSource::Vanilla(_) => {
                    st.vanilla_files = st.vanilla_files + 1;
                },
                FileSource::Mod { .. } => {
                    st.mod_files = st.mod_files + 1;
                },
            }
            st.total_files = st.total_files + 1;
            i = i + 1;
        }
        assert(s.take(i as int) =~= s);
        st
    }
}

/// When two mods provide the same virtual path, the file of the mod with
/// the strictly higher priority wins, and on equal priority the one offered
/// first stays; a mod file with a priority above zero replaces a vanilla
/// file, one with priority zero does not.
pub proof fn lemma_mod_priority_wins(
    files: Map<Seq<char>, FileSource>,
    k: Seq<char>,
    a: FileSource,
    b: FileSource,
)
    requires
        a is Mod,
        b is Mod,
    ensures
        mod_file_step(mod_file_step(files.remove(k), k, a), k, b)[k] == if b->mod_priority
            > a->mod_priority {
            b
        } else {
            a
        },
        files.contains_key(k) && files[k] is Vanilla ==> mod_file_step(files, k, b)[k] == if b->mod_priority
            > 0 {
            b
        } else {
            files[k]
        },
{
}

} // verus!
