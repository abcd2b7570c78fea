//! MO2 configuration: the `[General]` section of `ModOrganizer.ini` and the
//! paths derived from it.

use vstd::prelude::*;

use crate::dialect::GameId;
use crate::lines::{
    chars_end_with, chars_start_with, ends_with, lemma_split_lines_len, split_lines,
    split_lines_chars, starts_with, sub_chars, trim_chars, trim_seq,
};
use crate::paths::{file_name, file_name_of, join_path, join_str};
use crate::text::{
    chars_equal, chars_of, concat_str, debug_str, insert_unique_sorted, owned_string,
    spec_debug_str, string_from_chars, strictly_sorted,
};

verus! {

/// Key/value pairs read from an INI section; a later value for a key
/// replaces an earlier one.
#[derive(Debug, Clone)]
pub struct IniValues {
    entries: Vec<(String, String)>,
}

/// The map made by inserting the pairs of `s` in order.
pub open spec fn pairs_map(s: Seq<(String, String)>) -> Map<Seq<char>, Seq<char>>
    decreases s.len(),
{
    if s.len() == 0 {
        Map::empty()
    } else {
        pairs_map(s.drop_last()).insert(s.last().0@, s.last().1@)
    }
}

impl View for IniValues {
    type V = Map<Seq<char>, Seq<char>>;

    closed spec fn view(&self) -> Map<Seq<char>, Seq<char>> {
        pairs_map(self.entries@)
    }
}

impl IniValues {
    /// No values.
    pub fn new() -> (v: Self)
        ensures
            v@ == Map::<Seq<char>, Seq<char>>::empty(),
    {
        IniValues { entries: Vec::new() }
    }

    /// Set `key` to `value`.
    pub fn insert(&mut self, key: String, value: String)
        ensures
            final(self)@ == old(self)@.insert(key@, value@),
    {
        self.entries.push((key, value));
        assert(self.entries@.drop_last() =~= old(self).entries@);
    }

    /// The value of `key`, if any.
    pub fn get(&self, key: &str) -> (r: Option<&String>)
        ensures
            match r {
                Some(v) => self@.contains_key(key@) && self@[key@] == v@,
                None => !self@.contains_key(key@),
            },
    {
        let k = chars_of(key);
        let mut j: usize = self.entries.len();
        assert(self.entries@.take(j as int) =~= self.entries@);
        while j > 0
            invariant
                j <= self.entries@.len(),
                k@ == key@,
                pairs_map(self.entries@).contains_key(key@) == pairs_map(
                    self.entries@.take(j as int),
                ).contains_key(key@),
                pairs_map(self.entries@).contains_key(key@) ==> pairs_map(self.entries@)[key@]
                    == pairs_map(self.entries@.take(j as int))[key@],
            decreases j,
        {
            let e = &self.entries[j - 1];
            let ek = chars_of(e.0.as_str());
            assert(self.entries@.take(j as int).drop_last() =~= self.entries@.take(j - 1));
            if chars_equal(ek.as_slice(), k.as_slice()) {
                return Some(&e.1);
            }
            j = j - 1;
        }
        assert(self.entries@.take(0) =~= seq![]);
        None
    }
}

/// The index of the first `c` in `s`.
pub open spec fn first_index_of(s: Seq<char>, c: char) -> Option<int>
    decreases s.len(),
{
    if s.len() == 0 {
        None
    } else if s[0] == c {
        Some(0)
    } else {
        match first_index_of(s.drop_first(), c) {
            Some(i) => Some(i + 1),
            None => None,
        }
    }
}

proof fn lemma_first_index_of(s: Seq<char>, c: char)
    ensures
        first_index_of(s, c) matches Some(i) ==> 0 <= i < s.len() && s[i] == c && forall|j: int|
            0 <= j < i ==> s[j] != c,
        first_index_of(s, c) is None ==> forall|j: int| 0 <= j < s.len() ==> s[j] != c,
    decreases s.len(),
{
    if s.len() > 0 && s[0] != c {
        lemma_first_index_of(s.drop_first(), c);
        assert forall|j: int| 0 < j < s.len() implies s[j] == s.drop_first()[j - 1] by {}
    }
}

/// The index of the first `c` in `s` (see [`first_index_of`]).
fn find_char(s: &[char], c: char) -> (r: Option<usize>)
    ensures
        match r {
            Some(i) => first_index_of(s@, c) == Some(i as int),
            None => first_index_of(s@, c) is None,
        },
{
    proof {
        lemma_first_index_of(s@, c);
    }
    let mut i: usize = 0;
    while i < s.len()
        invariant
            i <= s@.len(),
            forall|j: int| 0 <= j < i ==> s@[j] != c,
            first_index_of(s@, c) matches Some(k) ==> 0 <= k < s@.len() && s@[k] == c
                && forall|j: int| 0 <= j < k ==> s@[j] != c,
            first_index_of(s@, c) is None ==> forall|j: int| 0 <= j < s@.len() ==> s@[j] != c,
        decreases s.len() - i,
    {
        if s[i] == c {
            proof {
                if let Some(k) = first_index_of(s@, c) {
                    if k > i {
                        assert(s@[i as int] != c);
                    }
                } else {
                    assert(s@[i as int] != c);
                }
            }
            return Some(i);
        }
        i = i + 1;
    }
    None
}

/// The parser state after one line: whether it is in `[General]`, and the
/// values read. A section header `[...]` enters or leaves `[General]`;
/// inside it, a line `key=value` sets the trimmed key to the trimmed value
/// (split at the first `=`); other lines are ignored.
pub open spec fn ini_step(st: (bool, Map<Seq<char>, Seq<char>>), line: Seq<char>) -> (
    bool,
    Map<Seq<char>, Seq<char>>,
) {
    let t = trim_seq(line);
    if t.len() > 0 && t[0] == '[' && t.last() == ']' {
        (t == "[General]"@, st.1)
    } else if !st.0 {
        st
    } else {
        match first_index_of(t, '=') {
            Some(p) => (st.0, st.1.insert(trim_seq(t.take(p)), trim_seq(t.skip(p + 1)))),
            None => st,
        }
    }
}

/// The parser state after the given lines.
pub open spec fn ini_fold(lines: Seq<Seq<char>>) -> (bool, Map<Seq<char>, Seq<char>>)
    decreases lines.len(),
{
    if lines.len() == 0 {
        (false, Map::empty())
    } else {
        ini_step(ini_fold(lines.drop_last()), lines.last())
    }
}

/// The key/value pairs of the `[General]` section of an INI text.
pub open spec fn spec_parse_ini(content: Seq<char>) -> Map<Seq<char>, Seq<char>> {
    ini_fold(split_lines(content)).1
}

/// Parse a simple INI text and extract the key/value pairs of its
/// `[General]` section (see [`ini_step`]).
pub fn parse_ini(content: &str) -> (v: IniValues)
    ensures
        v@ == spec_parse_ini(content@),
{
    let cs = chars_of(content);
    let lines = split_lines_chars(cs.as_slice());
    let ghost ls = lines@.map_values(|l: Vec<char>| l@);
    let general = chars_of("[General]");
    let mut values = IniValues::new();
    let mut in_general = false;
    let mut i: usize = 0;
    while i < lines.len()
        invariant
            i <= lines@.len(),
            ls == lines@.map_values(|l: Vec<char>| l@),
            ls == split_lines(content@),
            general@ == "[General]"@,
            (in_general, values@) == ini_fold(ls.take(i as int)),
        decreases lines.len() - i,
    {
        assert(ls.take(i + 1).drop_last() =~= ls.take(i as int));
        assert(ls[i as int] == lines@[i as int]@);
        let t = trim_chars(lines[i].as_slice());
        if t.len() > 0 && t[0] == '[' && t[t.len() - 1] == ']' {
            in_general = chars_equal(t.as_slice(), general.as_slice());
        } else if in_general {
            if let Some(p) = find_char(t.as_slice(), '=') {
                proof {
                    lemma_first_index_of(t@, '=');
                }
                let key = trim_chars(sub_chars(t.as_slice(), 0, p).as_slice());
                let value = trim_chars(sub_chars(t.as_slice(), p + 1, t.len()).as_slice());
                assert(t@.subrange(0, p as int) =~= t@.take(p as int));
                assert(t@.subrange(p + 1, t@.len() as int) =~= t@.skip(p + 1));
                values.insert(
                    string_from_chars(key.as_slice()),
                    string_from_chars(value.as_slice()),
                );
            }
        }
        i = i + 1;
    }
    assert(ls.take(i as int) =~= ls);
    values
}

/// The text inside an `@ByteArray(...)` wrapper, or the value itself.
pub open spec fn spec_byte_array(v: Seq<char>) -> Seq<char> {
    if starts_with(v, "@ByteArray("@) && ends_with(v, ")"@) && v.len() >= 12 {
        v.subrange(11, v.len() - 1)
    } else {
        v
    }
}

/// Parse an `@ByteArray(...)` wrapper, which MO2 puts around some INI
/// values, and return the inner string; other values are returned as they
/// are.
pub fn parse_byte_array(value: &str) -> (r: String)
    ensures
        r@ == spec_byte_array(value@),
{
    let cs = chars_of(value);
    let prefix = chars_of("@ByteArray(");
    let suffix = chars_of(")");
    proof {
        reveal_strlit("@ByteArray(");
        reveal_strlit(")");
    }
    if chars_start_with(cs.as_slice(), prefix.as_slice()) && chars_end_with(
        cs.as_slice(),
        suffix.as_slice(),
    ) {
        if cs.len() >= 12 {
            let inner = sub_chars(cs.as_slice(), 11, cs.len() - 1);
            return string_from_chars(inner.as_slice());
        }
        proof {
            assert(cs@.take(11)[10] == '(');
            assert(cs@.skip(cs@.len() - 1)[0] == ')');
        }
    }
    owned_string(value)
}

/// Double backslashes collapsed to single ones, left to right
/// (`str::replace("\\\\", "\\")`).
pub open spec fn collapse_backslashes(s: Seq<char>) -> Seq<char>
    decreases s.len(),
{
    if s.len() >= 2 && s[0] == '\\' && s[1] == '\\' {
        seq!['\\'] + collapse_backslashes(s.skip(2))
    } else if s.len() == 0 {
        s
    } else {
        seq![s[0]] + collapse_backslashes(s.drop_first())
    }
}

/// Backslashes turned into forward slashes.
pub open spec fn slashes_forward(s: Seq<char>) -> Seq<char> {
    s.map_values(|c: char| if c == '\\' { '/' } else { c })
}

/// The number of bytes of the UTF-8 encoding of `c`.
pub open spec fn utf8_width(c: char) -> int {
    if (c as int) < 0x80 {
        1
    } else if (c as int) < 0x800 {
        2
    } else if (c as int) < 0x10000 {
        3
    } else {
        4
    }
}

/// The path text after backslash handling, before the drive letter step.
pub open spec fn wine_slashed(path: Seq<char>) -> Seq<char> {
    slashes_forward(collapse_backslashes(path))
}

/// Whether the path has a drive letter prefix (`X:`) to remove.
pub open spec fn has_drive(s: Seq<char>) -> bool {
    s.len() >= 2 && s[1] == ':'
}

/// A path from the MO2 INI converted to a native Linux path: double
/// backslashes collapsed, backslashes turned into slashes, a drive letter
/// prefix (`Z:`) removed (the first two bytes of the text), and a leading
/// `/` added to a relative `home/...` or `mnt/...` path.
pub open spec fn spec_wine_path(path: Seq<char>) -> Seq<char> {
    let s = wine_slashed(path);
    let t = if has_drive(s) {
        if utf8_width(s[0]) == 1 {
            s.skip(2)
        } else {
            s.skip(1)
        }
    } else {
        s
    };
    if !(t.len() > 0 && t[0] == '/') && (starts_with(t, "home/"@) || starts_with(t, "mnt/"@)) {
        seq!['/'] + t
    } else {
        t
    }
}

/// Whether dropping the drive letter would cut a multi-byte character: the
/// first character has a three- or four-byte encoding.
pub open spec fn wine_path_cuts_char(path: Seq<char>) -> bool {
    let s = wine_slashed(path);
    has_drive(s) && utf8_width(s[0]) >= 3
}

/// The path with double backslashes collapsed and backslashes turned into
/// slashes (see [`wine_slashed`]).
fn slash_path(path: &str) -> (out: Vec<char>)
    ensures
        out@ == wine_slashed(path@),
{
    let cs = chars_of(path);
    // Collapse double backslashes and turn backslashes into slashes.
    let mut out: Vec<char> = Vec::new();
    let mut i: usize = 0;
    assert(cs@.skip(0) =~= cs@);
    assert(out@ + slashes_forward(collapse_backslashes(cs@.skip(0))) =~= wine_slashed(path@));
    while i < cs.len()
        invariant
            i <= cs@.len(),
            cs@ == path@,
            out@ + slashes_forward(collapse_backslashes(cs@.skip(i as int))) == wine_slashed(
                path@,
            ),
        decreases cs.len() - i,
    {
        let ghost rest = cs@.skip(i as int);
        if i + 1 < cs.len() && cs[i] == '\\' && cs[i + 1] == '\\' {
            assert(rest.skip(2) =~= cs@.skip(i + 2));
            assert(slashes_forward(seq!['\\'] + collapse_backslashes(rest.skip(2))) =~= seq!['/']
                + slashes_forward(collapse_backslashes(rest.skip(2))));
            out.push('/');
            assert(out@ + slashes_forward(collapse_backslashes(cs@.skip(i + 2))) =~= wine_slashed(
                path@,
            ));
            i = i + 2;
        } else {
            let c = cs[i];
            assert(rest.drop_first() =~= cs@.skip(i + 1));
            assert(rest[0] == c);
            let d = if c == '\\' {
                '/'
            } else {
                c
            };
            assert(slashes_forward(seq![c] + collapse_backslashes(rest.drop_first())) =~= seq![d]
                + slashes_forward(collapse_backslashes(rest.drop_first())));
            out.push(d);
            assert(out@ + slashes_forward(collapse_backslashes(cs@.skip(i + 1))) =~= wine_slashed(
                path@,
            ));
            i = i + 1;
        }
    }
    assert(cs@.skip(i as int) =~= seq![]);
    assert(out@ =~= wine_slashed(path@));
    out
}

/// Whether [`convert_wine_path`] can convert `path` (see
/// [`wine_path_cuts_char`]).
pub fn wine_path_convertible(path: &str) -> (b: bool)
    ensures
        b == !wine_path_cuts_char(path@),
{
    let s = slash_path(path);
    let ascii_end: char = '\u{800}';
    !(s.len() >= 2 && s[1] == ':' && !(s[0] < ascii_end))
}

/// Convert a path from the MO2 INI to a native path (see
/// [`spec_wine_path`]).
pub fn convert_wine_path(path: &str) -> (r: String)
    requires
        !wine_path_cuts_char(path@),
    ensures
        r@ == spec_wine_path(path@),
{
    let s = slash_path(path);
    let t: Vec<char> = if s.len() >= 2 && s[1] == ':' {
        let ascii_end: char = '\u{80}';
        if s[0] < ascii_end {
            sub_chars(s.as_slice(), 2, s.len())
        } else {
            sub_chars(s.as_slice(), 1, s.len())
        }
    } else {
        s
    };
    let home = chars_of("home/");
    let mnt = chars_of("mnt/");
    if !(t.len() > 0 && t[0] == '/') && (chars_start_with(t.as_slice(), home.as_slice())
        || chars_start_with(t.as_slice(), mnt.as_slice())) {
        let mut r: Vec<char> = vec!['/'];
        let mut k: usize = 0;
        while k < t.len()
            invariant
                k <= t@.len(),
                r@ == seq!['/'] + t@.take(k as int),
            decreases t.len() - k,
        {
            r.push(t[k]);
            assert(t@.take(k + 1) =~= t@.take(k as int).push(t@[k as int]));
            k = k + 1;
        }
        assert(t@.take(k as int) =~= t@);
        string_from_chars(r.as_slice())
    } else {
        string_from_chars(t.as_slice())
    }
}

/// Map an MO2 `gameName` to a game.
pub open spec fn spec_game_name_to_id(n: Seq<char>) -> Option<GameId> {
    if n == "Skyrim Special Edition"@ || n == "Skyrim VR"@ {
        Some(GameId::SkyrimSE)
    } else if n == "Fallout 4"@ || n == "Fallout 4 VR"@ {
        Some(GameId::Fallout4)
    } else if n == "Starfield"@ {
        Some(GameId::Starfield)
    } else if n == "Fallout 76"@ {
        Some(GameId::Fallout76)
    } else if n == "TTW"@ || n == "Fallout 3"@ {
        Some(GameId::Fallout3)
    } else if n == "New Vegas"@ || n == "Fallout New Vegas"@ {
        Some(GameId::FalloutNV)
    } else if n == "Oblivion"@ {
        Some(GameId::Oblivion)
    } else if n == "Morrowind"@ {
        Some(GameId::Morrowind)
    } else {
        None
    }
}

/// Whether `n` is the text of `lit`.
fn is_text(n: &[char], lit: &str) -> (b: bool)
    ensures
        b == (n@ == lit@),
{
    let l = chars_of(lit);
    chars_equal(n, l.as_slice())
}

/// Map an MO2 `gameName` string (a display name such as "Skyrim Special
/// Edition" or "Fallout 4") to a game.
pub fn game_name_to_id(game_name: &str) -> (r: Option<GameId>)
    ensures
        r == spec_game_name_to_id(game_name@),
{
    let n = chars_of(game_name);
    let n = n.as_slice();
    if is_text(n, "Skyrim Special Edition") || is_text(n, "Skyrim VR") {
        Some(GameId::SkyrimSE)
    } else if is_text(n, "Fallout 4") || is_text(n, "Fallout 4 VR") {
        Some(GameId::Fallout4)
    } else if is_text(n, "Starfield") {
        Some(GameId::Starfield)
    } else if is_text(n, "Fallout 76") {
        Some(GameId::Fallout76)
    } else if is_text(n, "TTW") || is_text(n, "Fallout 3") {
        Some(GameId::Fallout3)
    } else if is_text(n, "New Vegas") || is_text(n, "Fallout New Vegas") {
        Some(GameId::FalloutNV)
    } else if is_text(n, "Oblivion") {
        Some(GameId::Oblivion)
    } else if is_text(n, "Morrowind") {
        Some(GameId::Morrowind)
    } else {
        None
    }
}

/// Which of a configuration's paths exist on disk.
#[derive(Debug, Clone, Copy)]
pub struct PathStatus {
    /// Whether the mods folder exists.
    pub mods_exists: bool,
    /// Whether the selected profile folder exists.
    pub profile_exists: bool,
    /// Whether the game Data folder exists.
    pub data_exists: bool,
    /// Whether the game folder exists.
    pub game_exists: bool,
}

/// Parsed MO2 configuration from `ModOrganizer.ini`.
#[derive(Debug, Clone)]
pub struct Mo2Config {
    /// Path to the MO2 installation folder.
    pub mo2_folder: String,
    /// Game name as it appears in the INI (e.g., "Skyrim Special Edition").
    pub game_name: String,
    /// Path to the game installation directory.
    pub game_path: String,
    /// Currently selected profile name.
    pub selected_profile: String,
    /// Available profiles (folder names in profiles/).
    pub available_profiles: Vec<String>,
    /// Derived: mods folder path (mo2_folder/mods).
    pub mods_path: String,
    /// Derived: profile folder path for the selected profile.
    pub profile_path: String,
    /// Derived: game Data folder path.
    pub data_path: String,
}

impl Default for Mo2Config {
    fn default() -> (c: Self)
        ensures
            c.mo2_folder@ == Seq::<char>::empty(),
            c.game_name@ == Seq::<char>::empty(),
            c.game_path@ == Seq::<char>::empty(),
            c.selected_profile@ == Seq::<char>::empty(),
            c.available_profiles@ == Seq::<String>::empty(),
            c.mods_path@ == Seq::<char>::empty(),
            c.profile_path@ == Seq::<char>::empty(),
            c.data_path@ == Seq::<char>::empty(),
    {
        Mo2Config {
            mo2_folder: String::new(),
            game_name: String::new(),
            game_path: String::new(),
            selected_profile: String::new(),
            available_profiles: Vec::new(),
            mods_path: String::new(),
            profile_path: String::new(),
            data_path: String::new(),
        }
    }
}

/// The value of `key` in `m`, or the empty text.
pub open spec fn value_or_empty(m: Map<Seq<char>, Seq<char>>, key: Seq<char>) -> Seq<char> {
    if m.contains_key(key) {
        m[key]
    } else {
        seq![]
    }
}

/// The profile whose folder is used: the selected one, else the first
/// available one, else none (empty).
pub open spec fn chosen_profile(selected: Seq<char>, available: Seq<String>) -> Seq<char> {
    if selected.len() > 0 {
        selected
    } else if available.len() > 0 {
        available[0]@
    } else {
        seq![]
    }
}

/// The game Data folder: the game path itself when its last component is
/// `Data`, else the game path joined with `Data`.
pub open spec fn spec_data_path(game_path: Seq<char>) -> Seq<char> {
    if file_name_of(game_path) == Some("Data"@) {
        game_path
    } else {
        join_path(game_path, "Data"@)
    }
}

/// `c` is the configuration read from the INI text `content` of the MO2
/// folder `mo2_folder`, whose `profiles` folder lists `available`.
pub open spec fn config_matches(
    c: Mo2Config,
    mo2_folder: Seq<char>,
    content: Seq<char>,
    available: Seq<String>,
) -> bool {
    let m = spec_parse_ini(content);
    let profile = chosen_profile(c.selected_profile@, available);
    &&& c.mo2_folder@ == mo2_folder
    &&& c.game_name@ == value_or_empty(m, "gameName"@)
    &&& c.game_path@ == (if m.contains_key("gamePath"@) {
        spec_wine_path(spec_byte_array(m["gamePath"@]))
    } else {
        seq![]
    })
    &&& c.selected_profile@ == (if m.contains_key("selected_profile"@) {
        spec_byte_array(m["selected_profile"@])
    } else {
        seq![]
    })
    &&& c.available_profiles@ == available
    &&& c.mods_path@ == join_path(mo2_folder, "mods"@)
    &&& c.profile_path@ == (if profile.len() > 0 {
        join_path(join_path(mo2_folder, "profiles"@), profile)
    } else {
        seq![]
    })
    &&& c.data_path@ == spec_data_path(c.game_path@)
}

/// Whether a configuration's game path can be converted (see
/// [`wine_path_cuts_char`]).
pub open spec fn ini_convertible(content: Seq<char>) -> bool {
    let m = spec_parse_ini(content);
    m.contains_key("gamePath"@) ==> !wine_path_cuts_char(spec_byte_array(m["gamePath"@]))
}

impl Mo2Config {
    /// Whether [`Mo2Config::from_ini`] can read `content` (see
    /// [`ini_convertible`]).
    pub fn ini_is_convertible(content: &str) -> (b: bool)
        ensures
            b == ini_convertible(content@),
    {
        let values = parse_ini(content);
        match values.get("gamePath") {
            Some(path) => {
                let cleaned = parse_byte_array(path.as_str());
                wine_path_convertible(cleaned.as_str())
            },
            None => true,
        }
    }

    /// The configuration read from the `ModOrganizer.ini` text `content` of
    /// the MO2 folder `mo2_folder`, whose `profiles` folder holds the
    /// profiles `available_profiles` (see [`config_matches`]).
    pub fn from_ini(mo2_folder: &str, content: &str, available_profiles: Vec<String>) -> (c: Self)
        requires
            ini_convertible(content@),
        ensures
            config_matches(c, mo2_folder@, content@, available_profiles@),
    {
        let values = parse_ini(content);
        let mut config = Mo2Config::default();
        config.mo2_folder = owned_string(mo2_folder);
        if let Some(name) = values.get("gameName") {
            config.game_name = name.clone();
        }
        if let Some(path) = values.get("gamePath") {
            let cleaned = parse_byte_array(path.as_str());
            config.game_path = convert_wine_path(cleaned.as_str());
        }
        if let Some(profile) = values.get("selected_profile") {
            config.selected_profile = parse_byte_array(profile.as_str());
        }
        config.available_profiles = available_profiles;
        config.mods_path = join_str(mo2_folder, "mods");
        let profile_name: String = if !config.selected_profile.as_str().is_empty() {
            config.selected_profile.clone()
        } else if config.available_profiles.len() > 0 {
            config.available_profiles[0].clone()
        } else {
            String::new()
        };
        if !profile_name.as_str().is_empty() {
            let profiles_dir = join_str(mo2_folder, "profiles");
            config.profile_path = join_str(profiles_dir.as_str(), profile_name.as_str());
        }
        let gp = chars_of(config.game_path.as_str());
        let data = chars_of("Data");
        let ends_in_data = match file_name(gp.as_slice()) {
            Some(n) => chars_equal(n.as_slice(), data.as_slice()),
            None => false,
        };
        if ends_in_data {
            config.data_path = config.game_path.clone();
        } else {
            config.data_path = join_str(config.game_path.as_str(), "Data");
        }
        config
    }

    /// Whether the configuration appears valid: the mods folder and the
    /// profile folder exist, and the game Data folder or the game folder.
    pub fn is_valid(&self, status: &PathStatus) -> (b: bool)
        ensures
            b == (status.mods_exists && status.profile_exists && (status.data_exists
                || status.game_exists)),
    {
        status.mods_exists && status.profile_exists && (status.data_exists || status.game_exists)
    }

    /// Messages for the paths that are missing: the mods folder; the
    /// profile folder when a profile is selected; the game Data folder when
    /// neither it nor the game folder exists.
    pub fn validation_errors(&self, status: &PathStatus) -> (v: Vec<String>)
        ensures
            v@.map_values(|s: String| s@) == (if !status.mods_exists {
                seq!["Mods folder not found: "@ + spec_debug_str(self.mods_path@)]
            } else {
                seq![]
            }) + (if !status.profile_exists && self.selected_profile@.len() > 0 {
                seq!["Profile folder not found: "@ + spec_debug_str(self.profile_path@)]
            } else {
                seq![]
            }) + (if !status.data_exists && !status.game_exists {
                seq!["Game Data folder not found: "@ + spec_debug_str(self.data_path@)]
            } else {
                seq![]
            }),
    {
        let mut errors: Vec<String> = Vec::new();
        if !status.mods_exists {
            let d = debug_str(self.mods_path.as_str());
            errors.push(concat_str("Mods folder not found: ", d.as_str()));
        }
        let ghost e1 = errors@.map_values(|s: String| s@);
        if !status.profile_exists && !self.selected_profile.as_str().is_empty() {
            let d = debug_str(self.profile_path.as_str());
            errors.push(concat_str("Profile folder not found: ", d.as_str()));
        }
        let ghost e2 = errors@.map_values(|s: String| s@);
        if !status.data_exists && !status.game_exists {
            let d = debug_str(self.data_path.as_str());
            errors.push(concat_str("Game Data folder not found: ", d.as_str()));
        }
        assert(errors@.map_values(|s: String| s@) =~= (if !status.mods_exists {
            seq!["Mods folder not found: "@ + spec_debug_str(self.mods_path@)]
        } else {
            seq![]
        }) + (if !status.profile_exists && self.selected_profile@.len() > 0 {
            seq!["Profile folder not found: "@ + spec_debug_str(self.profile_path@)]
        } else {
            seq![]
        }) + (if !status.data_exists && !status.game_exists {
            seq!["Game Data folder not found: "@ + spec_debug_str(self.data_path@)]
        } else {
            seq![]
        }));
        errors
    }

    /// Set the active profile and update the profile path accordingly.
    pub fn set_profile(&mut self, profile_name: &str)
        ensures
            final(self).selected_profile@ == profile_name@,
            final(self).profile_path@ == join_path(
                join_path(old(self).mo2_folder@, "profiles"@),
                profile_name@,
            ),
            final(self).mo2_folder == old(self).mo2_folder,
            final(self).game_name == old(self).game_name,
            final(self).game_path == old(self).game_path,
            final(self).available_profiles == old(self).available_profiles,
            final(self).mods_path == old(self).mods_path,
            final(self).data_path == old(self).data_path,
    {
        self.selected_profile = owned_string(profile_name);
        let profiles_dir = join_str(self.mo2_folder.as_str(), "profiles");
        self.profile_path = join_str(profiles_dir.as_str(), profile_name);
    }

    /// The game of the configuration's `gameName`.
    pub fn game_id(&self) -> (r: Option<GameId>)
        ensures
            r == spec_game_name_to_id(self.game_name@),
    {
        game_name_to_id(self.game_name.as_str())
    }
}

/// Whether a folder name of `profiles/` names a profile: it does not start
/// with `.`.
pub open spec fn is_profile_name(n: Seq<char>) -> bool {
    !(n.len() > 0 && n[0] == '.')
}

/// The profile names among the names of the folders of the `profiles`
/// folder: those that do not start with `.`, sorted.
pub fn list_profiles(dir_names: Vec<String>) -> (v: Vec<String>)
    requires
        dir_names@.map_values(|s: String| s@).no_duplicates(),
    ensures
        strictly_sorted(v@.map_values(|s: String| s@)),
        v@.map_values(|s: String| s@).to_set() == dir_names@.map_values(|s: String| s@).filter(
            |n: Seq<char>| is_profile_name(n),
        ).to_set(),
{
    let ghost names = dir_names@.map_values(|s: String| s@);
    let ghost pick = |n: Seq<char>| is_profile_name(n);
    let mut keys: Vec<Vec<char>> = Vec::new();
    let mut i: usize = 0;
    assert(names.take(0).filter(pick).to_set() =~= Set::<Seq<char>>::empty());
    assert(keys@.map_values(|v: Vec<char>| v@).to_set() =~= Set::<Seq<char>>::empty());
    while i < dir_names.len()
        invariant
            i <= names.len(),
            names == dir_names@.map_values(|s: String| s@),
            pick == (|n: Seq<char>| is_profile_name(n)),
            strictly_sorted(keys@.map_values(|v: Vec<char>| v@)),
            keys@.map_values(|v: Vec<char>| v@).to_set() == names.take(i as int).filter(
                pick,
            ).to_set(),
        decreases dir_names.len() - i,
    {
        let cs = chars_of(dir_names[i].as_str());
        assert(names.take(i + 1).drop_last() =~= names.take(i as int));
        assert(names[i as int] == cs@);
        proof {
            reveal_with_fuel(Seq::filter, 1);
        }
        if !(cs.len() > 0 && cs[0] == '.') {
            insert_unique_sorted(&mut keys, cs);
        }
        proof {
            let f0 = names.take(i as int).filter(pick);
            let f1 = names.take(i + 1).filter(pick);
            if pick(names[i as int]) {
                assert(f1 == f0.push(names[i as int]));
                assert forall|y: Seq<char>| f1.contains(y) <==> f0.contains(y) || y == names[i as int] by {
                    if f1.contains(y) {
                        let k = choose|k: int| 0 <= k < f1.len() && f1[k] == y;
                        if k < f0.len() {
                            assert(f0[k] == y);
                        }
                    }
                    if f0.contains(y) {
                        let k = choose|k: int| 0 <= k < f0.len() && f0[k] == y;
                        assert(f1[k] == y);
                    }
                    if y == names[i as int] {
                        assert(f1[f0.len() as int] == y);
                    }
                }
                assert(f1.to_set() =~= f0.to_set().insert(names[i as int]));
            } else {
                assert(f1 == f0);
            }
        }
        i = i + 1;
    }
    assert(names.take(i as int) =~= names);
    let mut out: Vec<String> = Vec::new();
    let mut j: usize = 0;
    while j < keys.len()
        invariant
            j <= keys@.len(),
            out@.map_values(|s: String| s@) == keys@.map_values(|v: Vec<char>| v@).take(j as int),
        decreases keys.len() - j,
    {
        let ghost before = out@.map_values(|s: String| s@);
        out.push(string_from_chars(keys[j].as_slice()));
        assert(out@.map_values(|s: String| s@) =~= before.push(keys@[j as int]@));
        assert(keys@.map_values(|v: Vec<char>| v@).take(j + 1) =~= keys@.map_values(
            |v: Vec<char>| v@,
        ).take(j as int).push(keys@[j as int]@));
        j = j + 1;
    }
    assert(keys@.map_values(|v: Vec<char>| v@).take(j as int) =~= keys@.map_values(
        |v: Vec<char>| v@,
    ));
    out
}

/// MO2 names a game by its display name: "Skyrim Special Edition" and
/// "Skyrim VR" are Skyrim SE; "Fallout 4" and "Fallout 4 VR" Fallout 4;
/// "Starfield" Starfield; "Fallout 76" Fallout 76; "TTW" and "Fallout 3"
/// Fallout 3; "New Vegas" and "Fallout New Vegas" Fallout New Vegas;
/// "Oblivion" Oblivion; "Morrowind" Morrowind; any other name no game.
pub proof fn lemma_game_names(n: Seq<char>)
    ensures
        spec_game_name_to_id(n) == Some(GameId::SkyrimSE) <==> (n == "Skyrim Special Edition"@ || n
            == "Skyrim VR"@),
        spec_game_name_to_id(n) == Some(GameId::Fallout4) <==> (n == "Fallout 4"@ || n
            == "Fallout 4 VR"@),
        spec_game_name_to_id(n) == Some(GameId::Starfield) <==> n == "Starfield"@,
        spec_game_name_to_id(n) == Some(GameId::Fallout76) <==> n == "Fallout 76"@,
        spec_game_name_to_id(n) == Some(GameId::Fallout3) <==> (n == "TTW"@ || n == "Fallout 3"@),
        spec_game_name_to_id(n) == Some(GameId::FalloutNV) <==> (n == "New Vegas"@ || n
            == "Fallout New Vegas"@),
        spec_game_name_to_id(n) == Some(GameId::Oblivion) <==> n == "Oblivion"@,
        spec_game_name_to_id(n) == Some(GameId::Morrowind) <==> n == "Morrowind"@,
        spec_game_name_to_id(n) is None <==> !(n == "Skyrim Special Edition"@ || n == "Skyrim VR"@ || n == "Fallout 4"@ || n == "Fallout 4 VR"@ || n == "Starfield"@ || n == "Fallout 76"@ || n == "TTW"@ || n == "Fallout 3"@ || n == "New Vegas"@ || n == "Fallout New Vegas"@ || n == "Oblivion"@ || n == "Morrowind"@),
{
    reveal_strlit("Skyrim Special Edition");
    reveal_strlit("Skyrim VR");
    reveal_strlit("Fallout 4");
    reveal_strlit("Fallout 4 VR");
    reveal_strlit("Starfield");
    reveal_strlit("Fallout 76");
    reveal_strlit("TTW");
    reveal_strlit("Fallout 3");
    reveal_strlit("New Vegas");
    reveal_strlit("Fallout New Vegas");
    reveal_strlit("Oblivion");
    reveal_strlit("Morrowind");
    // The names are pairwise distinct: by length or by some character.
    assert("Skyrim Special Edition"@.len() != "Skyrim VR"@.len());
    assert("Skyrim Special Edition"@.len() != "Fallout 4"@.len());
    assert("Skyrim Special Edition"@.len() != "Fallout 4 VR"@.len());
    assert("Skyrim Special Edition"@.len() != "Starfield"@.len());
    assert("Skyrim Special Edition"@.len() != "Fallout 76"@.len());
    assert("Skyrim Special Edition"@.len() != "TTW"@.len());
    assert("Skyrim Special Edition"@.len() != "Fallout 3"@.len());
    assert("Skyrim Special Edition"@.len() != "New Vegas"@.len());
    assert("Skyrim Special Edition"@.len() != "Fallout New Vegas"@.len());
    assert("Skyrim Special Edition"@.len() != "Oblivion"@.len());
    assert("Skyrim Special Edition"@.len() != "Morrowind"@.len());
    assert("Skyrim VR"@[0] != "Fallout 4"@[0]);
    assert("Skyrim VR"@.len() != "Fallout 4 VR"@.len());
    assert("Skyrim VR"@[1] != "Starfield"@[1]);
    assert("Skyrim VR"@.len() != "Fallout 76"@.len());
    assert("Skyrim VR"@.len() != "TTW"@.len());
    assert("Skyrim VR"@[0] != "Fallout 3"@[0]);
    assert("Skyrim VR"@[0] != "New Vegas"@[0]);
    assert("Skyrim VR"@.len() != "Fallout New Vegas"@.len());
    assert("Skyrim VR"@.len() != "Oblivion"@.len());
    assert("Skyrim VR"@[0] != "Morrowind"@[0]);
    assert("Fallout 4"@.len() != "Fallout 4 VR"@.len());
    assert("Fallout 4"@[0] != "Starfield"@[0]);
    assert("Fallout 4"@.len() != "Fallout 76"@.len());
    assert("Fallout 4"@.len() != "TTW"@.len());
    assert("Fallout 4"@[8] != "Fallout 3"@[8]);
    assert("Fallout 4"@[0] != "New Vegas"@[0]);
    assert("Fallout 4"@.len() != "Fallout New Vegas"@.len());
    assert("Fallout 4"@.len() != "Oblivion"@.len());
    assert("Fallout 4"@[0] != "Morrowind"@[0]);
    assert("Fallout 4 VR"@.len() != "Starfield"@.len());
    assert("Fallout 4 VR"@.len() != "Fallout 76"@.len());
    assert("Fallout 4 VR"@.len() != "TTW"@.len());
    assert("Fallout 4 VR"@.len() != "Fallout 3"@.len());
    assert("Fallout 4 VR"@.len() != "New Vegas"@.len());
    assert("Fallout 4 VR"@.len() != "Fallout New Vegas"@.len());
    assert("Fallout 4 VR"@.len() != "Oblivion"@.len());
    assert("Fallout 4 VR"@.len() != "Morrowind"@.len());
    assert("Starfield"@.len() != "Fallout 76"@.len());
    assert("Starfield"@.len() != "TTW"@.len());
    assert("Starfield"@[0] != "Fallout 3"@[0]);
    assert("Starfield"@[0] != "New Vegas"@[0]);
    assert("Starfield"@.len() != "Fallout New Vegas"@.len());
    assert("Starfield"@.len() != "Oblivion"@.len());
    assert("Starfield"@[0] != "Morrowind"@[0]);
    assert("Fallout 76"@.len() != "TTW"@.len());
    assert("Fallout 76"@.len() != "Fallout 3"@.len());
    assert("Fallout 76"@.len() != "New Vegas"@.len());
    assert("Fallout 76"@.len() != "Fallout New Vegas"@.len());
    assert("Fallout 76"@.len() != "Oblivion"@.len());
    assert("Fallout 76"@.len() != "Morrowind"@.len());
    assert("TTW"@.len() != "Fallout 3"@.len());
    assert("TTW"@.len() != "New Vegas"@.len());
    assert("TTW"@.len() != "Fallout New Vegas"@.len());
    assert("TTW"@.len() != "Oblivion"@.len());
    assert("TTW"@.len() != "Morrowind"@.len());
    assert("Fallout 3"@[0] != "New Vegas"@[0]);
    assert("Fallout 3"@.len() != "Fallout New Vegas"@.len());
    assert("Fallout 3"@.len() != "Oblivion"@.len());
    assert("Fallout 3"@[0] != "Morrowind"@[0]);
    assert("New Vegas"@.len() != "Fallout New Vegas"@.len());
    assert("New Vegas"@.len() != "Oblivion"@.len());
    assert("New Vegas"@[0] != "Morrowind"@[0]);
    assert("Fallout New Vegas"@.len() != "Oblivion"@.len());
    assert("Fallout New Vegas"@.len() != "Morrowind"@.len());
    assert("Oblivion"@.len() != "Morrowind"@.len());
}

} // verus!
