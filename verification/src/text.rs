//! Character-level text helpers shared by the parsers of this crate.

use vstd::prelude::*;

verus! {

/// Append one character to a string (`String::push`).
#[verifier::external_body]
pub fn push_char(s: &mut String, c: char)
    ensures
        final(s)@ == old(s)@.push(c),
{
    s.push(c);
}

/// Decode UTF-8 bytes (`std::str::from_utf8`): `Some` exactly when the bytes
/// are valid UTF-8, holding the decoded characters.
#[verifier::external_body]
pub fn str_from_utf8(b: &[u8]) -> (r: Option<&str>)
    ensures
        r is Some <==> vstd::utf8::valid_utf8(b@),
        r matches Some(s) ==> s@ == vstd::utf8::decode_utf8(b@),
{
    std::str::from_utf8(b).ok()
}

/// The bytes of `d` up to (not including) its first zero byte, or all of `d`.
pub open spec fn nul_prefix(d: Seq<u8>) -> Seq<u8>
    decreases d.len(),
{
    if d.len() == 0 {
        d
    } else if d[0] == 0 {
        seq![]
    } else {
        seq![d[0]] + nul_prefix(d.drop_first())
    }
}

/// Index of the first zero byte of `d`, or its length.
pub open spec fn nul_index(d: Seq<u8>) -> int
    decreases d.len(),
{
    if d.len() == 0 {
        0
    } else if d[0] == 0 {
        0
    } else {
        1 + nul_index(d.drop_first())
    }
}

pub proof fn lemma_nul_index(d: Seq<u8>)
    ensures
        0 <= nul_index(d) <= d.len(),
        nul_prefix(d) == d.take(nul_index(d)),
        forall|i: int| 0 <= i < nul_index(d) ==> d[i] != 0,
        nul_index(d) < d.len() ==> d[nul_index(d)] == 0,
    decreases d.len(),
{
    if d.len() > 0 && d[0] != 0 {
        lemma_nul_index(d.drop_first());
        assert(nul_prefix(d) =~= d.take(nul_index(d)));
        assert forall|i: int| 0 <= i < nul_index(d) implies d[i] != 0 by {
            if i > 0 {
                assert(d[i] == d.drop_first()[i - 1]);
            }
        }
    } else if d.len() > 0 {
        assert(nul_prefix(d) =~= d.take(0));
    }
}

/// Position of the first zero byte of `d`, or its length.
pub fn find_nul(d: &[u8]) -> (n: usize)
    ensures
        n == nul_index(d@),
        n <= d@.len(),
        nul_prefix(d@) == d@.take(n as int),
{
    proof {
        lemma_nul_index(d@);
    }
    let mut i: usize = 0;
    while i < d.len()
        invariant
            i <= d.len(),
            forall|j: int| 0 <= j < i ==> d@[j] != 0,
            i <= nul_index(d@),
            0 <= nul_index(d@) <= d@.len(),
            forall|j: int| 0 <= j < nul_index(d@) ==> d@[j] != 0,
            nul_index(d@) < d@.len() ==> d@[nul_index(d@)] == 0,
            nul_prefix(d@) == d@.take(nul_index(d@)),
        decreases d.len() - i,
    {
        if d[i] == 0 {
            return i;
        }
        i = i + 1;
    }
    i
}

/// ASCII lower-casing of one character; other characters are unchanged.
pub open spec fn ascii_lower(c: char) -> char {
    if 'A' <= c && c <= 'Z' {
        ((c as u32) + 32) as char
    } else {
        c
    }
}

/// ASCII lower-casing of a character sequence (`to_ascii_lowercase`).
pub open spec fn lower_seq(s: Seq<char>) -> Seq<char> {
    s.map_values(|c: char| ascii_lower(c))
}

/// ASCII lower-casing of one character.
pub fn to_ascii_lower(c: char) -> (r: char)
    ensures
        r == ascii_lower(c),
{
    if c >= 'A' && c <= 'Z' {
        let u: u32 = (c as u32) + 32;
        assert(u <= 0x7f);
        (u as u8) as char
    } else {
        c
    }
}

/// ASCII lower-casing of a character slice.
pub fn lower_chars(v: &[char]) -> (r: Vec<char>)
    ensures
        r@ == lower_seq(v@),
{
    let mut r: Vec<char> = Vec::new();
    let mut i: usize = 0;
    while i < v.len()
        invariant
            i <= v@.len(),
            r@ == lower_seq(v@.take(i as int)),
        decreases v.len() - i,
    {
        r.push(to_ascii_lower(v[i]));
        assert(lower_seq(v@.take(i + 1)) =~= lower_seq(v@.take(i as int)).push(ascii_lower(v@[i as int])));
        i = i + 1;
    }
    assert(v@.take(i as int) =~= v@);
    r
}

/// Whether two character slices are equal.
pub fn chars_equal(a: &[char], b: &[char]) -> (r: bool)
    ensures
        r == (a@ == b@),
{
    if a.len() != b.len() {
        return false;
    }
    let mut i: usize = 0;
    while i < a.len()
        invariant
            i <= a@.len(),
            a@.len() == b@.len(),
            forall|j: int| 0 <= j < i ==> a@[j] == b@[j],
        decreases a.len() - i,
    {
        if a[i] != b[i] {
            return false;
        }
        i = i + 1;
    }
    assert(a@ =~= b@);
    true
}

/// The characters of a string slice.
pub fn chars_of(s: &str) -> (v: Vec<char>)
    ensures
        v@ == s@,
{
    let mut v: Vec<char> = Vec::new();
    for c in it: s.chars()
        invariant
            v@ == it.seq().take(it.index() as int),
            it.seq() == s@,
    {
        v.push(c);
    }
    v
}

/// The characters `String::from_utf8_lossy` decodes from `b`.
pub uninterp spec fn spec_utf8_lossy(b: Seq<u8>) -> Seq<char>;

/// Decode bytes as UTF-8, replacing invalid sequences with U+FFFD
/// (`String::from_utf8_lossy`). The result is named by [`spec_utf8_lossy`];
/// on valid UTF-8 it is the decoded text. Which replacement characters an
/// invalid input gets is left unsaid.
#[verifier::external_body]
pub fn utf8_lossy(b: &[u8]) -> (s: String)
    ensures
        s@ == spec_utf8_lossy(b@),
        vstd::utf8::valid_utf8(b@) ==> s@ == vstd::utf8::decode_utf8(b@),
{
    String::from_utf8_lossy(b).into_owned()
}

/// The Unicode lower-case mapping of a string (`str::to_lowercase`).
pub uninterp spec fn spec_to_lowercase(s: Seq<char>) -> Seq<char>;

/// Unicode lower-casing (`str::to_lowercase`): the result is named by
/// [`spec_to_lowercase`]; on ASCII text it is ASCII lower-casing (the
/// Unicode mapping of the ASCII letters); the rest of the Unicode case
/// tables is left unsaid.
#[verifier::external_body]
pub fn str_to_lowercase(s: &str) -> (r: String)
    ensures
        r@ == spec_to_lowercase(s@),
        (forall|i: int| 0 <= i < s@.len() ==> (#[trigger] s@[i] as u32) < 128) ==> r@ == lower_seq(s@),
{
    s.to_lowercase()
}

/// A string holding the given characters.
pub fn string_from_chars(v: &[char]) -> (s: String)
    ensures
        s@ == v@,
{
    let mut s = String::new();
    let mut i: usize = 0;
    while i < v.len()
        invariant
            i <= v@.len(),
            s@ == v@.take(i as int),
        decreases v.len() - i,
    {
        push_char(&mut s, v[i]);
        assert(v@.take(i + 1) =~= v@.take(i as int).push(v@[i as int]));
        i = i + 1;
    }
    assert(v@.take(i as int) =~= v@);
    s
}

/// An owned copy of a string slice.
pub fn owned_string(s: &str) -> (r: String)
    ensures
        r@ == s@,
{
    let cs = chars_of(s);
    string_from_chars(cs.as_slice())
}

/// Lexicographic order on character sequences, by code point; on strings
/// it is the order of their UTF-8 bytes, the order of `String`.
pub open spec fn seq_less(a: Seq<char>, b: Seq<char>) -> bool
    decreases a.len(),
{
    if a.len() == 0 {
        b.len() > 0
    } else if b.len() == 0 {
        false
    } else if a[0] != b[0] {
        (a[0] as int) < (b[0] as int)
    } else {
        seq_less(a.drop_first(), b.drop_first())
    }
}

/// [`seq_less`] is irreflexive.
pub proof fn lemma_seq_less_irrefl(a: Seq<char>)
    ensures
        !seq_less(a, a),
    decreases a.len(),
{
    if a.len() > 0 {
        lemma_seq_less_irrefl(a.drop_first());
    }
}

/// [`seq_less`] is total on distinct sequences, and asymmetric.
pub proof fn lemma_seq_less_total(a: Seq<char>, b: Seq<char>)
    ensures
        a != b ==> seq_less(a, b) || seq_less(b, a),
        seq_less(a, b) ==> !seq_less(b, a),
    decreases a.len(),
{
    if a.len() > 0 && b.len() > 0 && a[0] == b[0] {
        lemma_seq_less_total(a.drop_first(), b.drop_first());
        if a != b {
            assert(a.drop_first() != b.drop_first()) by {
                if a.drop_first() == b.drop_first() {
                    assert forall|i: int| 0 <= i < a.len() implies a[i] == b[i] by {
                        if i > 0 {
                            assert(a[i] == a.drop_first()[i - 1]);
                            assert(b[i] == b.drop_first()[i - 1]);
                        }
                    }
                    assert(a =~= b);
                }
            }
        }
    }
    if a.len() == 0 && b.len() == 0 {
        assert(a =~= b);
    }
}

/// [`seq_less`] is transitive.
pub proof fn lemma_seq_less_trans(a: Seq<char>, b: Seq<char>, c: Seq<char>)
    requires
        seq_less(a, b),
        seq_less(b, c),
    ensures
        seq_less(a, c),
    decreases a.len(),
{
    if a.len() > 0 && b.len() > 0 && c.len() > 0 && a[0] == b[0] && b[0] == c[0] {
        lemma_seq_less_trans(a.drop_first(), b.drop_first(), c.drop_first());
    }
}

/// Whether `a` comes before `b` (see [`seq_less`]).
pub fn chars_less(a: &[char], b: &[char]) -> (r: bool)
    ensures
        r == seq_less(a@, b@),
{
    let mut i: usize = 0;
    assert(a@.skip(0) =~= a@);
    assert(b@.skip(0) =~= b@);
    while i < a.len() && i < b.len() && a[i] == b[i]
        invariant
            i <= a@.len(),
            i <= b@.len(),
            forall|j: int| 0 <= j < i ==> a@[j] == b@[j],
            seq_less(a@, b@) == seq_less(a@.skip(i as int), b@.skip(i as int)),
        decreases a.len() - i,
    {
        assert(a@.skip(i as int).drop_first() =~= a@.skip(i + 1));
        assert(b@.skip(i as int).drop_first() =~= b@.skip(i + 1));
        i = i + 1;
    }
    if i == a.len() {
        assert(a@.skip(i as int).len() == 0);
        return i < b.len();
    }
    if i == b.len() {
        assert(b@.skip(i as int).len() == 0);
        return false;
    }
    assert(a@.skip(i as int)[0] == a@[i as int]);
    assert(b@.skip(i as int)[0] == b@[i as int]);
    a[i] < b[i]
}

/// The text `format!("{:?}", s)` gives for a string: quoted, with
/// escapes.
pub uninterp spec fn spec_debug_str(s: Seq<char>) -> Seq<char>;

/// The `Debug` rendering of a string (quoted, special characters
/// escaped), named by [`spec_debug_str`]; the escaping rules are left
/// unsaid.
#[verifier::external_body]
pub fn debug_str(s: &str) -> (r: String)
    ensures
        r@ == spec_debug_str(s@),
{
    format!("{:?}", s)
}

/// The concatenation of two strings.
pub fn concat_str(a: &str, b: &str) -> (r: String)
    ensures
        r@ == a@ + b@,
{
    let ac = chars_of(a);
    let bc = chars_of(b);
    let mut v: Vec<char> = ac;
    let ghost mid = v@;
    let mut i: usize = 0;
    while i < bc.len()
        invariant
            i <= bc@.len(),
            mid == a@,
            bc@ == b@,
            v@ == mid + bc@.take(i as int),
        decreases bc.len() - i,
    {
        v.push(bc[i]);
        assert(bc@.take(i + 1) =~= bc@.take(i as int).push(bc@[i as int]));
        i = i + 1;
    }
    assert(bc@.take(i as int) =~= bc@);
    string_from_chars(v.as_slice())
}

/// The decimal digit character of `d` (0 to 9).
pub open spec fn digit_char(d: nat) -> char {
    ((d + 48) as u8) as char
}

/// The decimal representation of `n`, without leading zeros.
pub open spec fn decimal(n: nat) -> Seq<char>
    decreases n,
{
    if n < 10 {
        seq![digit_char(n)]
    } else {
        decimal(n / 10).push(digit_char(n % 10))
    }
}

/// Append the decimal representation of `n`.
pub fn push_decimal(v: &mut Vec<char>, n: u64)
    ensures
        final(v)@ == old(v)@ + decimal(n as nat),
    decreases n,
{
    if n >= 10 {
        push_decimal(v, n / 10);
    }
    let d: u8 = (n % 10) as u8;
    let c: char = (d + 48) as char;
    let ghost before = v@;
    v.push(c);
    assert(v@ =~= before.push(digit_char((n % 10) as nat)));
    assert(n >= 10 ==> v@ =~= old(v)@ + decimal((n / 10) as nat).push(digit_char((n % 10) as nat)));
}

/// The decimal representation of `n` as a string.
pub fn decimal_string(n: u64) -> (s: String)
    ensures
        s@ == decimal(n as nat),
{
    let mut v: Vec<char> = Vec::new();
    push_decimal(&mut v, n);
    assert(v@ =~= decimal(n as nat));
    string_from_chars(v.as_slice())
}

/// The decimal representation of an integer, with a `-` sign when
/// negative.
pub open spec fn idecimal(i: int) -> Seq<char> {
    if i < 0 {
        seq!['-'] + decimal((-i) as nat)
    } else {
        decimal(i as nat)
    }
}

/// Append the decimal representation of `i`.
pub fn push_idecimal(v: &mut Vec<char>, i: i32)
    ensures
        final(v)@ == old(v)@ + idecimal(i as int),
{
    if i < 0 {
        v.push('-');
        let m: u64 = (-(i as i64)) as u64;
        let ghost mid = v@;
        push_decimal(v, m);
        assert(v@ =~= old(v)@ + idecimal(i as int));
    } else {
        push_decimal(v, i as u64);
    }
}

/// Append the characters of a string slice.
pub fn push_str(v: &mut Vec<char>, s: &str)
    ensures
        final(v)@ == old(v)@ + s@,
{
    let cs = chars_of(s);
    let mut i: usize = 0;
    while i < cs.len()
        invariant
            i <= cs@.len(),
            cs@ == s@,
            v@ == old(v)@ + cs@.take(i as int),
        decreases cs.len() - i,
    {
        v.push(cs[i]);
        assert(cs@.take(i + 1) =~= cs@.take(i as int).push(cs@[i as int]));
        i = i + 1;
    }
    assert(cs@.take(i as int) =~= cs@);
}

/// The upper-case hexadecimal digit of `d` (0 to 15).
pub open spec fn hex_char(d: nat) -> char {
    if d < 10 {
        ((d + 48) as u8) as char
    } else {
        ((d + 55) as u8) as char
    }
}

/// The last `k` hexadecimal digits of `n`, upper-case, zero-padded.
pub open spec fn hex_digits(n: nat, k: nat) -> Seq<char>
    decreases k,
{
    if k == 0 {
        seq![]
    } else {
        hex_digits(n / 16, (k - 1) as nat).push(hex_char(n % 16))
    }
}

/// Append the last `k` hexadecimal digits of `n`, upper-case, zero-padded.
pub fn push_hex(v: &mut Vec<char>, n: u32, k: u32)
    ensures
        final(v)@ == old(v)@ + hex_digits(n as nat, k as nat),
    decreases k,
{
    if k == 0 {
        assert(old(v)@ + hex_digits(n as nat, 0) =~= old(v)@);
        return ;
    }
    push_hex(v, n / 16, k - 1);
    let d: u8 = (n % 16) as u8;
    let c: char = if d < 10 {
        (d + 48) as char
    } else {
        (d + 55) as char
    };
    let ghost before = v@;
    v.push(c);
    assert(v@ =~= old(v)@ + hex_digits(n as nat, k as nat));
}

/// Strictly increasing in [`seq_less`] order (sorted, no duplicates).
pub open spec fn strictly_sorted(s: Seq<Seq<char>>) -> bool {
    forall|i: int, j: int| 0 <= i < j < s.len() ==> seq_less(#[trigger] s[i], #[trigger] s[j])
}

/// Insert `x` into a strictly sorted list unless it is already there.
pub(crate) fn insert_unique_sorted(out: &mut Vec<Vec<char>>, x: Vec<char>)
    requires
        strictly_sorted(old(out)@.map_values(|v: Vec<char>| v@)),
    ensures
        strictly_sorted(final(out)@.map_values(|v: Vec<char>| v@)),
        final(out)@.map_values(|v: Vec<char>| v@).to_set() == old(out)@.map_values(
            |v: Vec<char>| v@,
        ).to_set().insert(x@),
{
    let ghost prev = out@.map_values(|v: Vec<char>| v@);
    let mut p: usize = 0;
    while p < out.len() && chars_less(out[p].as_slice(), x.as_slice())
        invariant
            p <= out@.len(),
            prev == out@.map_values(|v: Vec<char>| v@),
            strictly_sorted(prev),
            forall|k: int| 0 <= k < p ==> seq_less(#[trigger] prev[k], x@),
        decreases out.len() - p,
    {
        p = p + 1;
    }
    if p < out.len() && chars_equal(out[p].as_slice(), x.as_slice()) {
        assert(prev[p as int] == x@);
        assert(prev.to_set() =~= prev.to_set().insert(x@));
        return ;
    }
    proof {
        if p < prev.len() {
            lemma_seq_less_total(prev[p as int], x@);
        }
    }
    let ghost xv = x@;
    out.insert(p, x);
    let ghost now = out@.map_values(|v: Vec<char>| v@);
    assert(now =~= prev.insert(p as int, xv));
    assert forall|i: int, j: int| 0 <= i < j < now.len() implies seq_less(
        #[trigger] now[i],
        #[trigger] now[j],
    ) by {
        if j < p {
            assert(now[i] == prev[i] && now[j] == prev[j]);
        } else if j == p {
            assert(now[i] == prev[i]);
        } else if i < p {
            assert(now[i] == prev[i] && now[j] == prev[j - 1]);
            lemma_seq_less_trans(prev[i], xv, prev[p as int]);
            if p < j - 1 {
                lemma_seq_less_trans(prev[i], prev[p as int], prev[j - 1]);
            }
        } else if i == p {
            assert(now[j] == prev[j - 1]);
            if p < j - 1 {
                lemma_seq_less_trans(xv, prev[p as int], prev[j - 1]);
            }
        } else {
            assert(now[i] == prev[i - 1] && now[j] == prev[j - 1]);
        }
    }
    assert forall|y: Seq<char>| now.contains(y) <==> prev.contains(y) || y == xv by {
        if now.contains(y) {
            let k = choose|k: int| 0 <= k < now.len() && now[k] == y;
            if k < p {
                assert(prev[k] == y);
            } else if k > p {
                assert(prev[k - 1] == y);
            }
        }
        if prev.contains(y) {
            let k = choose|k: int| 0 <= k < prev.len() && prev[k] == y;
            if k < p {
                assert(now[k] == y);
            } else {
                assert(now[k + 1] == y);
            }
        }
        if y == xv {
            assert(now[p as int] == y);
        }
    }
    assert(now.to_set() =~= prev.to_set().insert(xv));
}

/// The text values of a list of strings.
pub open spec fn strs(s: Seq<String>) -> Seq<Seq<char>> {
    s.map_values(|x: String| x@)
}


/// A strictly sorted list is fixed by its elements: two strictly sorted
/// lists holding the same elements are equal.
pub proof fn lemma_sorted_unique(a: Seq<Seq<char>>, b: Seq<Seq<char>>)
    requires
        strictly_sorted(a),
        strictly_sorted(b),
        a.to_set() == b.to_set(),
    ensures
        a == b,
    decreases a.len(),
{
    if a.len() == 0 {
        if b.len() > 0 {
            assert(b.to_set().contains(b[0]));
        }
        assert(a =~= b);
    } else {
        let x = a[0];
        assert(a.to_set().contains(x));
        assert(b.contains(x));
        let y = b[0];
        assert(b.to_set().contains(y));
        assert(a.contains(y));
        if x != y {
            let k = choose|k: int| 0 <= k < a.len() && a[k] == y;
            let m = choose|m: int| 0 <= m < b.len() && b[m] == x;
            assert(k != 0 && m != 0);
            assert(seq_less(a[0], a[k]));
            assert(seq_less(b[0], b[m]));
            lemma_seq_less_total(x, y);
            assert(false);
        }
        let a1 = a.drop_first();
        let b1 = b.drop_first();
        assert(strictly_sorted(a1)) by {
            assert forall|i: int, j: int| 0 <= i < j < a1.len() implies seq_less(#[trigger] a1[i], #[trigger] a1[j]) by {
                assert(a1[i] == a[i + 1] && a1[j] == a[j + 1]);
            }
        }
        assert(strictly_sorted(b1)) by {
            assert forall|i: int, j: int| 0 <= i < j < b1.len() implies seq_less(#[trigger] b1[i], #[trigger] b1[j]) by {
                assert(b1[i] == b[i + 1] && b1[j] == b[j + 1]);
            }
        }
        assert(a1.to_set() =~= b1.to_set()) by {
            assert forall|z: Seq<char>| a1.to_set().contains(z) <==> b1.to_set().contains(z) by {
                if a1.contains(z) {
                    let i = choose|i: int| 0 <= i < a1.len() && a1[i] == z;
                    assert(a[i + 1] == z);
                    assert(seq_less(a[0], a[i + 1]));
                    lemma_seq_less_irrefl(x);
                    assert(b.to_set().contains(z));
                    let j = choose|j: int| 0 <= j < b.len() && b[j] == z;
                    assert(j != 0);
                    assert(b1[j - 1] == z);
                }
                if b1.contains(z) {
                    let i = choose|i: int| 0 <= i < b1.len() && b1[i] == z;
                    assert(b[i + 1] == z);
                    assert(seq_less(b[0], b[i + 1]));
                    lemma_seq_less_irrefl(x);
                    assert(a.to_set().contains(z));
                    let j = choose|j: int| 0 <= j < a.len() && a[j] == z;
                    assert(j != 0);
                    assert(a1[j - 1] == z);
                }
            }
        }
        lemma_sorted_unique(a1, b1);
        assert(a =~= b) by {
            assert forall|i: int| 0 <= i < a.len() implies a[i] == b[i] by {
                if i > 0 {
                    assert(a[i] == a1[i - 1] && b[i] == b1[i - 1]);
                }
            }
        }
    }
}

} // verus!
