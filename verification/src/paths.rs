//! `/`-separated paths, as the printer reports them: the file name, stem and
//! extension of a path, with the meaning that `std::path::Path` gives them on
//! Unix.
use vstd::prelude::*;

verus! {

/// The index of the last occurrence of `c` in `s`.
pub open spec fn last_index_of(s: Seq<char>, c: char) -> Option<int>
    decreases s.len(),
{
    if s.len() == 0 {
        None
    } else if s.last() == c {
        Some(s.len() - 1)
    } else {
        last_index_of(s.drop_last(), c)
    }
}

pub proof fn lemma_last_index_of_bounds(s: Seq<char>, c: char)
    ensures
        match last_index_of(s, c) {
            Some(k) => 0 <= k < s.len() && s[k] == c && forall|j: int|
                k < j < s.len() ==> s[j] != c,
            None => forall|j: int| 0 <= j < s.len() ==> s[j] != c,
        },
    decreases s.len(),
{
    if s.len() > 0 && s.last() != c {
        lemma_last_index_of_bounds(s.drop_last(), c);
        let t = s.drop_last();
        assert forall|j: int| 0 <= j < t.len() implies t[j] == s[j] by {}
    }
}

proof fn lemma_last_index_of_take(s: Seq<char>, c: char, i: int)
    requires
        0 <= i <= s.len(),
        forall|j: int| i <= j < s.len() ==> s[j] != c,
    ensures
        last_index_of(s, c) == last_index_of(s.take(i), c),
    decreases s.len() - i,
{
    if i == s.len() {
        assert(s.take(i) =~= s);
    } else {
        assert(s.drop_last().take(i) =~= s.take(i));
        lemma_last_index_of_take(s.drop_last(), c, i);
    }
}

/// Exec version of `last_index_of`.
pub fn find_last(v: &[char], c: char) -> (r: Option<usize>)
    ensures
        match r {
            Some(k) => last_index_of(v@, c) == Some(k as int),
            None => last_index_of(v@, c) is None,
        },
{
    let mut i = v.len();
    while i > 0
        invariant
            i <= v@.len(),
            forall|j: int| i <= j < v@.len() ==> v@[j] != c,
        decreases i,
    {
        if v[i - 1] == c {
            proof {
                lemma_last_index_of_take(v@, c, i as int);
                assert(v@.take(i as int).last() == c);
            }
            return Some(i - 1);
        }
        i = i - 1;
    }
    proof {
        lemma_last_index_of_take(v@, c, 0);
    }
    None
}

/// What `Path::components` skips at the end of a path: trailing separators and
/// trailing `.` components.
pub open spec fn strip_path_tail(p: Seq<char>) -> Seq<char>
    decreases p.len(),
{
    if p.len() > 0 && p.last() == '/' {
        strip_path_tail(p.drop_last())
    } else if p.len() >= 2 && p.last() == '.' && p[p.len() - 2] == '/' {
        strip_path_tail(p.drop_last())
    } else {
        p
    }
}

pub open spec fn tail_is_noise(p: Seq<char>) -> bool {
    (p.len() > 0 && p.last() == '/') || (p.len() >= 2 && p.last() == '.' && p[p.len() - 2]
        == '/')
}

proof fn lemma_strip_path_tail_is_prefix(p: Seq<char>)
    ensures
        strip_path_tail(p).len() <= p.len(),
        strip_path_tail(p) == p.take(strip_path_tail(p).len() as int),
    decreases p.len(),
{
    if tail_is_noise(p) {
        lemma_strip_path_tail_is_prefix(p.drop_last());
        let t = strip_path_tail(p.drop_last());
        assert(p.drop_last().take(t.len() as int) =~= p.take(t.len() as int));
    } else {
        assert(p.take(p.len() as int) =~= p);
    }
}

/// Exec version of `strip_path_tail`: the length of the stripped prefix.
fn stripped_len(v: &[char]) -> (e: usize)
    ensures
        e <= v@.len(),
        strip_path_tail(v@) == v@.take(e as int),
{
    let mut e = v.len();
    assert(v@.take(e as int) =~= v@);
    while e > 0 && (v[e - 1] == '/' || (e >= 2 && v[e - 1] == '.' && v[e - 2] == '/'))
        invariant
            e <= v@.len(),
            strip_path_tail(v@) == strip_path_tail(v@.take(e as int)),
        decreases e,
    {
        assert(v@.take(e as int).drop_last() =~= v@.take(e - 1));
        e = e - 1;
    }
    e
}

/// The last `/`-separated segment of `s`.
pub open spec fn last_segment(s: Seq<char>) -> Seq<char> {
    match last_index_of(s, '/') {
        Some(k) => s.skip(k + 1),
        None => s,
    }
}

/// `Path::file_name`.
pub open spec fn file_name(p: Seq<char>) -> Option<Seq<char>> {
    let seg = last_segment(strip_path_tail(p));
    if seg.len() == 0 || seg == seq!['.'] || seg == seq!['.', '.'] {
        None
    } else {
        Some(seg)
    }
}

/// The split of a file name at its last `.` that `Path::file_stem` and
/// `Path::extension` share: the stem, and the extension if there is one.
pub open spec fn split_at_dot(name: Seq<char>) -> (Seq<char>, Option<Seq<char>>) {
    if name == seq!['.', '.'] {
        (name, None)
    } else {
        match last_index_of(name, '.') {
            Some(k) => if k == 0 {
                (name, None)
            } else {
                (name.take(k), Some(name.skip(k + 1)))
            },
            None => (name, None),
        }
    }
}

/// `Path::extension`.
pub open spec fn extension(p: Seq<char>) -> Option<Seq<char>> {
    match file_name(p) {
        Some(name) => split_at_dot(name).1,
        None => None,
    }
}

/// `Path::file_stem`.
pub open spec fn file_stem(p: Seq<char>) -> Option<Seq<char>> {
    match file_name(p) {
        Some(name) => Some(split_at_dot(name).0),
        None => None,
    }
}

/// `Path::with_extension` for a non-empty extension: the path cut right after the
/// stem of its file name, followed by `.` and the extension; the path unchanged
/// when it has no file name.
pub open spec fn with_extension(p: Seq<char>, ext: Seq<char>) -> Seq<char> {
    match file_name(p) {
        Some(name) => {
            let t = strip_path_tail(p);
            let cut = t.len() - name.len() + split_at_dot(name).0.len();
            p.take(cut) + seq!['.'] + ext
        },
        None => p,
    }
}

/// The file name of a path, and where it starts.
pub struct FileName {
    pub start: usize,
    pub name: Vec<char>,
}

/// `Path::file_name`, with the position of the name in the path.
pub fn path_file_name(p: &[char]) -> (r: Option<FileName>)
    ensures
        match r {
            Some(f) => file_name(p@) == Some(f.name@) && f.start + f.name@.len() == strip_path_tail(
                p@,
            ).len(),
            None => file_name(p@) is None,
        },
{
    let e = stripped_len(p);
    proof {
        lemma_strip_path_tail_is_prefix(p@);
    }
    let t = crate::text::copy_range(p, 0, e);
    assert(t@ =~= strip_path_tail(p@));
    proof {
        lemma_last_index_of_bounds(t@, '/');
        assert(t@.skip(0) =~= t@);
    }
    let start = match find_last(t.as_slice(), '/') {
        Some(k) => k + 1,
        None => 0,
    };
    let seg = crate::text::copy_range(t.as_slice(), start, e);
    assert(seg@ =~= last_segment(t@));
    let n = seg.len();
    if n == 0 || (n == 1 && seg[0] == '.') || (n == 2 && seg[0] == '.' && seg[1] == '.') {
        assert(n == 1 && seg[0] == '.' ==> seg@ =~= seq!['.']);
        assert(n == 2 && seg[0] == '.' && seg[1] == '.' ==> seg@ =~= seq!['.', '.']);
        None
    } else {
        assert(seg@ != seq!['.']);
        assert(seg@ != seq!['.', '.']);
        Some(FileName { start, name: seg })
    }
}

/// The split of a file name at its last dot: the stem length and the extension.
pub fn name_split_at_dot(name: &[char]) -> (r: (usize, Option<Vec<char>>))
    ensures
        r.0 <= name@.len(),
        split_at_dot(name@).0 == name@.take(r.0 as int),
        match r.1 {
            Some(e) => split_at_dot(name@).1 == Some(e@),
            None => split_at_dot(name@).1 is None,
        },
{
    assert(name@.take(name@.len() as int) =~= name@);
    if name.len() == 2 && name[0] == '.' && name[1] == '.' {
        assert(name@ =~= seq!['.', '.']);
        return (name.len(), None);
    }
    assert(name@ != seq!['.', '.']);
    match find_last(name, '.') {
        Some(k) => {
            if k == 0 {
                (name.len(), None)
            } else {
                proof {
                    lemma_last_index_of_bounds(name@, '.');
                }
                let ext = crate::text::copy_range(name, k + 1, name.len());
                assert(ext@ =~= name@.skip(k + 1));
                (k, Some(ext))
            }
        },
        None => (name.len(), None),
    }
}

/// `Path::extension`.
pub fn path_extension(p: &[char]) -> (r: Option<Vec<char>>)
    ensures
        match r {
            Some(e) => extension(p@) == Some(e@),
            None => extension(p@) is None,
        },
{
    match path_file_name(p) {
        Some(f) => name_split_at_dot(f.name.as_slice()).1,
        None => None,
    }
}

/// `Path::file_stem`.
pub fn path_file_stem(p: &[char]) -> (r: Option<Vec<char>>)
    ensures
        match r {
            Some(s) => file_stem(p@) == Some(s@),
            None => file_stem(p@) is None,
        },
{
    match path_file_name(p) {
        Some(f) => {
            let (k, _) = name_split_at_dot(f.name.as_slice());
            let stem = crate::text::copy_range(f.name.as_slice(), 0, k);
            assert(stem@ =~= f.name@.take(k as int));
            Some(stem)
        },
        None => None,
    }
}

/// `Path::with_extension` with a non-empty extension.
pub fn path_with_extension(p: &[char], ext: &[char]) -> (r: Vec<char>)
    ensures
        r@ == with_extension(p@, ext@),
{
    match path_file_name(p) {
        Some(f) => {
            let (k, _) = name_split_at_dot(f.name.as_slice());
            proof {
                lemma_strip_path_tail_is_prefix(p@);
            }
            let plen = p.len();
            assert(f.start + k <= plen);
            let mut r = crate::text::copy_range(p, 0, f.start + k);
            assert(r@ =~= p@.take(f.start + k));
            r.push('.');
            crate::text::append_chars(&mut r, ext);
            r
        },
        None => {
            let r = crate::text::copy_range(p, 0, p.len());
            assert(r@ =~= p@);
            r
        },
    }
}

} // verus!
