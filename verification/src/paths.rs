//! Path text handling on `/`-separated paths: the final component of a
//! path, as `std::path::Path::file_name` reports it on Unix.

use vstd::prelude::*;

verus! {

/// Index of the last `/` in `s`, or -1 when there is none.
pub open spec fn last_slash(s: Seq<char>) -> int
    decreases s.len(),
{
    if s.len() == 0 {
        -1
    } else if s.last() == '/' {
        s.len() - 1
    } else {
        last_slash(s.drop_last())
    }
}

pub proof fn lemma_last_slash(s: Seq<char>)
    ensures
        -1 <= last_slash(s) < s.len(),
        last_slash(s) >= 0 ==> s[last_slash(s)] == '/',
        forall|i: int| last_slash(s) < i < s.len() ==> s[i] != '/',
    decreases s.len(),
{
    if s.len() > 0 && s.last() != '/' {
        lemma_last_slash(s.drop_last());
        assert forall|i: int| last_slash(s) < i < s.len() implies s[i] != '/' by {
            if i < s.len() - 1 {
                assert(s[i] == s.drop_last()[i]);
            }
        }
    }
}

/// The final component of a path: trailing `/` and `.` components are
/// skipped; a path whose final component is `..`, or that has none (empty,
/// `/`, `.`), has no file name.
pub open spec fn file_name_of(p: Seq<char>) -> Option<Seq<char>>
    decreases p.len(),
{
    if p.len() == 0 {
        None
    } else if p.last() == '/' {
        file_name_of(p.drop_last())
    } else {
        let k = last_slash(p);
        let seg = p.subrange(k + 1, p.len() as int);
        if seg == seq!['.'] {
            if k < 0 {
                None
            } else {
                proof {
                    lemma_last_slash(p);
                }
                file_name_of(p.take(k + 1))
            }
        } else if seg == seq!['.', '.'] {
            None
        } else {
            Some(seg)
        }
    }
}

/// The final component of `path` (see [`file_name_of`]).
pub fn file_name(path: &[char]) -> (r: Option<Vec<char>>)
    ensures
        r matches Some(v) ==> file_name_of(path@) == Some(v@),
        r is None ==> file_name_of(path@) is None,
{
    let mut end: usize = path.len();
    assert(path@.take(end as int) =~= path@);
    loop
        invariant
            end <= path@.len(),
            file_name_of(path@) == file_name_of(path@.take(end as int)),
        decreases end,
    {
        let ghost p = path@.take(end as int);
        if end == 0 {
            return None;
        }
        if path[end - 1] == '/' {
            assert(p.drop_last() =~= path@.take(end - 1));
            end = end - 1;
        } else {
            let mut j: usize = end - 1;
            while j > 0 && path[j - 1] != '/'
                invariant
                    j < end <= path@.len(),
                    forall|i: int| j <= i < end ==> path@[i] != '/',
                decreases j,
            {
                j = j - 1;
            }
            proof {
                lemma_last_slash(p);
                assert(last_slash(p) == j - 1) by {
                    if last_slash(p) > j - 1 {
                        assert(p[last_slash(p)] == path@[last_slash(p)]);
                    }
                    if j > 0 && last_slash(p) < j - 1 {
                        assert(p[j - 1] == path@[j - 1]);
                    }
                }
            }
            let ghost seg = p.subrange(j as int, end as int);
            if end - j == 1 && path[j] == '.' {
                assert(seg =~= seq!['.']);
                if j == 0 {
                    return None;
                }
                assert(p.take(j as int) =~= path@.take(j as int));
                end = j;
            } else if end - j == 2 && path[j] == '.' && path[j + 1] == '.' {
                assert(seg =~= seq!['.', '.']);
                return None;
            } else {
                proof {
                    if seg == seq!['.'] {
                        assert(seq!['.'][0] == '.');
                        assert(seg.len() == 1);
                        assert(end - j == 1);
                        assert(seg[0] == p[j as int]);
                        assert(p[j as int] == path@[j as int]);
                        assert(false);
                    }
                    if seg == seq!['.', '.'] {
                        assert(seq!['.', '.'][0] == '.' && seq!['.', '.'][1] == '.');
                        assert(seg[0] == p[j as int]);
                        assert(seg.len() == 2);
                        assert(end - j == 2);
                        assert(seg[1] == p[j + 1]);
                        assert(p[j as int] == path@[j as int]);
                        assert(p[j + 1] == path@[j + 1]);
                        assert(false);
                    }
                }
                let mut v: Vec<char> = Vec::new();
                let mut i: usize = j;
                while i < end
                    invariant
                        j <= i <= end <= path@.len(),
                        v@ == path@.subrange(j as int, i as int),
                    decreases end - i,
                {
                    v.push(path[i]);
                    assert(v@ =~= path@.subrange(j as int, i + 1));
                    i = i + 1;
                }
                assert(v@ =~= seg);
                return Some(v);
            }
        }
    }
}

/// `a` joined with `b` (`Path::join`): `b` itself when it is absolute,
/// else `a`, a `/` unless `a` is empty or already ends with one, and `b`.
pub open spec fn join_path(a: Seq<char>, b: Seq<char>) -> Seq<char> {
    if b.len() > 0 && b[0] == '/' {
        b
    } else if a.len() == 0 || a.last() == '/' {
        a + b
    } else {
        a + seq!['/'] + b
    }
}

/// `a` joined with `b` (see [`join_path`]).
pub fn join_chars(a: &[char], b: &[char]) -> (r: Vec<char>)
    ensures
        r@ == join_path(a@, b@),
{
    if b.len() > 0 && b[0] == '/' {
        return crate::lines::sub_chars(b, 0, b.len());
    }
    let mut r = crate::lines::sub_chars(a, 0, a.len());
    if a.len() > 0 && a[a.len() - 1] != '/' {
        r.push('/');
    }
    let ghost mid = r@;
    let mut i: usize = 0;
    while i < b.len()
        invariant
            i <= b@.len(),
            r@ == mid + b@.take(i as int),
        decreases b.len() - i,
    {
        r.push(b[i]);
        assert(b@.take(i + 1) =~= b@.take(i as int).push(b@[i as int]));
        i = i + 1;
    }
    assert(b@.take(i as int) =~= b@);
    assert(a@.subrange(0, a@.len() as int) =~= a@);
    assert(b@.subrange(0, b@.len() as int) =~= b@);
    r
}

/// `a` joined with `b` (see [`join_path`]).
pub fn join_str(a: &str, b: &str) -> (r: String)
    ensures
        r@ == join_path(a@, b@),
{
    let ac = crate::text::chars_of(a);
    let bc = crate::text::chars_of(b);
    let j = join_chars(ac.as_slice(), bc.as_slice());
    crate::text::string_from_chars(j.as_slice())
}

} // verus!
