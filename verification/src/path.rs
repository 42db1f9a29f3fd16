//! File name, extension and stem of `/`-separated paths, as
//! `std::path::Path` reads them on Unix systems.

use vstd::prelude::*;

verus! {

/// Index of the last occurrence of `c` in `s`, or -1 if there is none.
pub open spec fn last_index_of(s: Seq<char>, c: char) -> int
    decreases s.len(),
{
    if s.len() == 0 {
        -1
    } else if s.last() == c {
        s.len() - 1
    } else {
        last_index_of(s.drop_last(), c)
    }
}

/// `last_index_of` is -1 or an index holding `c`, and nothing after it holds `c`.
pub proof fn lemma_last_index_of(s: Seq<char>, c: char)
    ensures
        -1 <= last_index_of(s, c) < s.len(),
        last_index_of(s, c) >= 0 ==> s[last_index_of(s, c)] == c,
        forall|j: int| last_index_of(s, c) < j < s.len() ==> s[j] != c,
    decreases s.len(),
{
    if s.len() > 0 && s.last() != c {
        lemma_last_index_of(s.drop_last(), c);
        assert(forall|j: int| 0 <= j < s.len() - 1 ==> s.drop_last()[j] == s[j]);
    }
}

/// The final component of a path: the last `/`-separated segment that is
/// neither empty nor `.`; there is none when that segment is `..` or when
/// no such segment exists (`""`, `"/"`, `"."`).
pub open spec fn file_name(p: Seq<char>) -> Option<Seq<char>>
    decreases p.len(),
{
    let k = last_index_of(p, '/');
    let seg = p.subrange(k + 1, p.len() as int);
    if seg.len() == 0 || seg == seq!['.'] {
        if k < 0 {
            None
        } else {
            proof {
                lemma_last_index_of(p, '/');
            }
            file_name(p.subrange(0, k))
        }
    } else if seg == seq!['.', '.'] {
        None
    } else {
        Some(seg)
    }
}

/// The extension of a file name: what follows its last `.`, unless that
/// `.` is the first character or there is none.
pub open spec fn name_extension(name: Seq<char>) -> Option<Seq<char>> {
    let d = last_index_of(name, '.');
    if d <= 0 {
        None
    } else {
        Some(name.subrange(d + 1, name.len() as int))
    }
}

/// The stem of a file name: what precedes its last `.`, or the whole name
/// when that `.` is the first character or there is none.
pub open spec fn name_stem(name: Seq<char>) -> Seq<char> {
    let d = last_index_of(name, '.');
    if d <= 0 {
        name
    } else {
        name.subrange(0, d)
    }
}

/// The extension of a path's file name (`Path::extension`).
pub open spec fn path_extension(p: Seq<char>) -> Option<Seq<char>> {
    match file_name(p) {
        Some(name) => name_extension(name),
        None => None,
    }
}

/// The stem of a path's file name (`Path::file_stem`).
pub open spec fn path_stem(p: Seq<char>) -> Option<Seq<char>> {
    match file_name(p) {
        Some(name) => Some(name_stem(name)),
        None => None,
    }
}

/// Whether `c` occurs nowhere in `s`.
pub open spec fn lacks(s: Seq<char>, c: char) -> bool {
    forall|i: int| 0 <= i < s.len() ==> s[i] != c
}

/// A character that does not occur has no last occurrence.
pub proof fn lemma_last_index_of_absent(s: Seq<char>, c: char)
    requires
        lacks(s, c),
    ensures
        last_index_of(s, c) == -1,
{
    lemma_last_index_of(s, c);
}

/// In `a + [c] + b` where `b` lacks `c`, the last `c` is the one after `a`.
pub proof fn lemma_last_index_of_marker(a: Seq<char>, c: char, b: Seq<char>)
    requires
        lacks(b, c),
    ensures
        last_index_of(a + seq![c] + b, c) == a.len(),
{
    let q = a + seq![c] + b;
    lemma_last_index_of(q, c);
    assert(q[a.len() as int] == c);
    let r = last_index_of(q, c);
    if r > a.len() {
        assert(q[r] == b[r - a.len() - 1]);
    }
}

/// A file name is a non-empty segment without `/` that is neither `.` nor `..`.
pub proof fn lemma_file_name_shape(p: Seq<char>)
    ensures
        file_name(p) matches Some(n) ==> n.len() > 0 && lacks(n, '/') && n != seq!['.'] && n != seq!['.', '.'],
    decreases p.len(),
{
    let k = last_index_of(p, '/');
    lemma_last_index_of(p, '/');
    let seg = p.subrange(k + 1, p.len() as int);
    if seg.len() == 0 || seg == seq!['.'] {
        if k >= 0 {
            lemma_file_name_shape(p.subrange(0, k));
        }
    } else if seg != seq!['.', '.'] {
        assert forall|i: int| 0 <= i < seg.len() implies seg[i] != '/' by {
            assert(seg[i] == p[k + 1 + i]);
        }
    }
}

/// A non-empty string without `/` that is neither `.` nor `..` is its own file name.
pub proof fn lemma_file_name_of_plain(q: Seq<char>)
    requires
        q.len() > 0,
        lacks(q, '/'),
        q != seq!['.'],
        q != seq!['.', '.'],
    ensures
        file_name(q) == Some(q),
{
    lemma_last_index_of_absent(q, '/');
    assert(q.subrange(0, q.len() as int) =~= q);
}

/// The stem of a file name is non-empty and has no `/`.
pub proof fn lemma_name_stem_shape(n: Seq<char>)
    requires
        n.len() > 0,
        lacks(n, '/'),
    ensures
        name_stem(n).len() > 0,
        lacks(name_stem(n), '/'),
{
    lemma_last_index_of(n, '.');
    let d = last_index_of(n, '.');
    if d > 0 {
        assert forall|i: int| 0 <= i < d implies n.subrange(0, d)[i] != '/' by {
            assert(n.subrange(0, d)[i] == n[i]);
        }
    }
}

/// A stem (non-empty, without `/`) followed by `.` and a non-empty
/// extension without `.` or `/` is a path whose extension is that extension.
pub proof fn lemma_extension_of_joined(stem: Seq<char>, ext: Seq<char>)
    requires
        stem.len() > 0,
        ext.len() > 0,
        lacks(stem, '/'),
        lacks(ext, '/'),
        lacks(ext, '.'),
    ensures
        path_extension(stem + seq!['.'] + ext) == Some(ext),
{
    let q = stem + seq!['.'] + ext;
    assert(lacks(q, '/')) by {
        assert forall|i: int| 0 <= i < q.len() implies q[i] != '/' by {
            if i < stem.len() {
                assert(q[i] == stem[i]);
            } else if i > stem.len() {
                assert(q[i] == ext[i - stem.len() - 1]);
            }
        }
    }
    assert(q.len() >= 3);
    assert(q != seq!['.']);
    assert(q != seq!['.', '.']);
    lemma_file_name_of_plain(q);
    lemma_last_index_of_marker(stem, '.', ext);
    assert(q.subrange(stem.len() as int + 1, q.len() as int) =~= ext);
}

/// The characters of a string, in order.
pub fn chars_of(s: &str) -> (v: Vec<char>)
    ensures
        v@ == s@,
{
    let mut v: Vec<char> = Vec::new();
    for c in it: s.chars()
        invariant
            v@ == it.seq().take(it.index() as int),
    {
        v.push(c);
    }
    assert(v@ =~= s@);
    v
}

/// The string made of `v[lo..hi]`.
pub fn string_of(v: &Vec<char>, lo: usize, hi: usize) -> (s: String)
    requires
        lo <= hi <= v.len(),
    ensures
        s@ == v@.subrange(lo as int, hi as int),
{
    let mut s = String::new();
    let mut i = lo;
    while i < hi
        invariant
            lo <= i <= hi <= v.len(),
            s@ == v@.subrange(lo as int, i as int),
        decreases hi - i,
    {
        s.push(v[i]);
        assert(s@ =~= v@.subrange(lo as int, i + 1));
        i = i + 1;
    }
    s
}

/// Whether a string holds exactly the characters of a string slice.
pub fn same_text(a: &String, b: &str) -> (r: bool)
    ensures
        r == (a@ == b@),
{
    *a == String::from_str(b)
}

/// Index of the last `c` in `v[..hi]`, if any.
fn last_index_before(v: &Vec<char>, hi: usize, c: char) -> (r: Option<usize>)
    requires
        hi <= v.len(),
    ensures
        match r {
            Some(k) => k as int == last_index_of(v@.take(hi as int), c),
            None => last_index_of(v@.take(hi as int), c) == -1,
        },
{
    let mut i = hi;
    while i > 0
        invariant
            i <= hi <= v.len(),
            last_index_of(v@.take(hi as int), c) == last_index_of(v@.take(i as int), c),
        decreases i,
    {
        assert(v@.take(i as int).drop_last() =~= v@.take(i - 1));
        if v[i - 1] == c {
            return Some(i - 1);
        }
        i = i - 1;
    }
    None
}

/// Whether `v[lo..hi]` is the one-character segment `.` or the
/// two-character segment `..`, answered for `n` dots.
fn is_dots(v: &Vec<char>, lo: usize, hi: usize, n: usize) -> (b: bool)
    requires
        lo <= hi <= v.len(),
        1 <= n <= 2,
    ensures
        b == (v@.subrange(lo as int, hi as int) == Seq::new(n as nat, |_i: int| '.')),
{
    if hi - lo != n {
        assert(v@.subrange(lo as int, hi as int).len() != n);
        return false;
    }
    let mut i = lo;
    while i < hi
        invariant
            lo <= i <= hi <= v.len(),
            hi - lo == n,
            forall|j: int| lo <= j < i ==> v@[j] == '.',
        decreases hi - i,
    {
        if v[i] != '.' {
            assert(v@.subrange(lo as int, hi as int)[i - lo] != Seq::new(n as nat, |_i: int| '.')[i - lo]);
            return false;
        }
        i = i + 1;
    }
    assert(v@.subrange(lo as int, hi as int) =~= Seq::new(n as nat, |_i: int| '.'));
    true
}

/// Where the file name of the path `v` lies in `v`, if it has one.
pub fn file_name_range(v: &Vec<char>) -> (r: Option<(usize, usize)>)
    ensures
        match r {
            Some((lo, hi)) => lo <= hi <= v.len() && file_name(v@) == Some(v@.subrange(lo as int, hi as int)),
            None => file_name(v@) is None,
        },
{
    let mut end = v.len();
    assert(v@.take(end as int) =~= v@);
    loop
        invariant
            end <= v.len(),
            file_name(v@) == file_name(v@.take(end as int)),
        decreases end,
    {
        let ghost p = v@.take(end as int);
        let k = last_index_before(v, end, '/');
        proof {
            lemma_last_index_of(p, '/');
        }
        let start = match k {
            Some(k) => k + 1,
            None => 0,
        };
        assert(p.subrange(start as int, end as int) =~= v@.subrange(start as int, end as int));
        if start == end || is_dots(v, start, end, 1) {
            assert(seq!['.'] =~= Seq::new(1, |_i: int| '.'));
            match k {
                None => {
                    return None;
                },
                Some(k) => {
                    assert(p.subrange(0, k as int) =~= v@.take(k as int));
                    end = k;
                },
            }
        } else if is_dots(v, start, end, 2) {
            assert(seq!['.', '.'] =~= Seq::new(2, |_i: int| '.'));
            return None;
        } else {
            assert(seq!['.'] =~= Seq::new(1, |_i: int| '.'));
            assert(seq!['.', '.'] =~= Seq::new(2, |_i: int| '.'));
            return Some((start, end));
        }
    }
}

/// Where the extension of the file name `v[lo..hi]` lies in `v`, if it has one.
pub fn extension_range(v: &Vec<char>, lo: usize, hi: usize) -> (r: Option<usize>)
    requires
        lo <= hi <= v.len(),
    ensures
        match r {
            Some(start) => lo < start <= hi
                && name_extension(v@.subrange(lo as int, hi as int)) == Some(v@.subrange(start as int, hi as int))
                && name_stem(v@.subrange(lo as int, hi as int)) == v@.subrange(lo as int, start - 1),
            None => name_extension(v@.subrange(lo as int, hi as int)) is None
                && name_stem(v@.subrange(lo as int, hi as int)) == v@.subrange(lo as int, hi as int),
        },
{
    let ghost name = v@.subrange(lo as int, hi as int);
    assert(name.take(hi - lo) =~= name);
    let mut i = hi;
    while i > lo
        invariant
            lo <= i <= hi <= v.len(),
            name == v@.subrange(lo as int, hi as int),
            last_index_of(name, '.') == last_index_of(name.take(i - lo), '.'),
        decreases i,
    {
        assert(name.take(i - lo).drop_last() =~= name.take(i - 1 - lo));
        if v[i - 1] == '.' {
            if i - 1 == lo {
                return None;
            }
            assert(name.subrange(i - lo, name.len() as int) =~= v@.subrange(i as int, hi as int));
            assert(name.subrange(0, i - 1 - lo) =~= v@.subrange(lo as int, i - 1));
            return Some(i);
        }
        i = i - 1;
    }
    None
}

} // verus!
