//! Mesh file-format detection from a path, and polygon fan triangulation
//! used when importing polygon faces.
use vstd::prelude::*;
use vstd::string::*;

verus! {

/// Supported triangle-mesh interchange formats.
#[derive(Debug, Clone, Copy, PartialEq, Eq)]
pub enum MeshFormat {
    Obj,
    Stl,
    Ply,
}

/// Position of the last occurrence of `c` in `s`, or -1.
pub open spec fn last_index_of(s: Seq<char>, c: char) -> int
    decreases s.len(),
{
    if s.len() == 0 {
        -1
    } else if s.last() == c {
        s.len() - 1
    } else {
        last_index_of(s.drop_last(), c)
    }
}

/// `last_index_of` is -1 or a valid position of `c`.
pub proof fn lemma_last_index_of_bounds(s: Seq<char>, c: char)
    ensures
        -1 <= last_index_of(s, c) < s.len(),
        last_index_of(s, c) >= 0 ==> s[last_index_of(s, c)] == c,
    decreases s.len(),
{
    if s.len() > 0 && s.last() != c {
        lemma_last_index_of_bounds(s.drop_last(), c);
    }
}

/// The final name component of a `/`-separated path: empty and `.`
/// components are skipped; a path with no such component has none.
pub open spec fn file_name_of(p: Seq<char>) -> Option<Seq<char>>
    decreases p.len(),
{
    let j = last_index_of(p, '/');
    proof {
        lemma_last_index_of_bounds(p, '/');
    }
    let seg = p.subrange(j + 1, p.len() as int);
    if seg.len() == 0 || seg == seq!['.'] {
        if j < 0 {
            None
        } else {
            file_name_of(p.subrange(0, j))
        }
    } else if seg == seq!['.', '.'] {
        None
    } else {
        Some(seg)
    }
}

/// The extension of a file name: the text after its last `.`, provided that
/// dot is not the first character.
pub open spec fn extension_of_name(name: Seq<char>) -> Option<Seq<char>> {
    let i = last_index_of(name, '.');
    if i <= 0 {
        None
    } else {
        Some(name.subrange(i + 1, name.len() as int))
    }
}

/// `c` equals the lower-case ASCII letter `lower`, ignoring ASCII case.
pub open spec fn ascii_eq_ignore_case(c: char, lower: char) -> bool {
    c == lower || ('A' <= c && c <= 'Z' && (c as u32) + 32 == (lower as u32))
}

/// Case-insensitive (ASCII) comparison of an extension with a lower-case
/// three-letter word.
pub open spec fn extension_is(ext: Seq<char>, word: Seq<char>) -> bool {
    ext.len() == word.len() && forall|i: int|
        0 <= i < ext.len() ==> ascii_eq_ignore_case(#[trigger] ext[i], word[i])
}

/// The format named by an extension (compared case-insensitively).
pub open spec fn format_of_extension(ext: Seq<char>) -> Option<MeshFormat> {
    if extension_is(ext, seq!['o', 'b', 'j']) {
        Some(MeshFormat::Obj)
    } else if extension_is(ext, seq!['s', 't', 'l']) {
        Some(MeshFormat::Stl)
    } else if extension_is(ext, seq!['p', 'l', 'y']) {
        Some(MeshFormat::Ply)
    } else {
        None
    }
}

/// The format of a path, decided by its file name's extension.
pub open spec fn format_of_path(p: Seq<char>) -> Option<MeshFormat> {
    match file_name_of(p) {
        Some(name) => match extension_of_name(name) {
            Some(ext) => format_of_extension(ext),
            None => None,
        },
        None => None,
    }
}

fn chars_of(s: &str) -> (r: Vec<char>)
    ensures
        r@ == s@,
{
    let n = s.unicode_len();
    let mut r: Vec<char> = Vec::new();
    let mut i: usize = 0;
    while i < n
        invariant
            n == s@.len(),
            i <= n,
            r@ == s@.subrange(0, i as int),
        decreases n - i,
    {
        r.push(s.get_char(i));
        i = i + 1;
    }
    assert(r@ =~= s@);
    r
}

/// Last position of `c` in `s[0..end]`, if any.
fn last_index_before(s: &Vec<char>, end: usize, c: char) -> (r: Option<usize>)
    requires
        end <= s.len(),
    ensures
        match r {
            Some(i) => i as int == last_index_of(s@.subrange(0, end as int), c) && i < end,
            None => last_index_of(s@.subrange(0, end as int), c) == -1,
        },
{
    let mut i: usize = end;
    while i > 0
        invariant
            i <= end <= s.len(),
            last_index_of(s@.subrange(0, end as int), c) == last_index_of(
                s@.subrange(0, i as int),
                c,
            ),
        decreases i,
    {
        assert(s@.subrange(0, i as int).drop_last() =~= s@.subrange(0, i - 1));
        if s[i - 1] == c {
            return Some(i - 1);
        }
        i = i - 1;
    }
    None
}

fn eq_ignore_case(c: char, lower: char, upper: char) -> (r: bool)
    requires
        'a' <= lower <= 'z',
        (upper as u32) + 32 == (lower as u32),
    ensures
        r == ascii_eq_ignore_case(c, lower),
{
    c == lower || c == upper
}

fn word_matches(ext: &Vec<char>, lw: [char; 3], up: [char; 3]) -> (r: bool)
    requires
        ext.len() == 3,
        forall|i: int| 0 <= i < 3 ==> 'a' <= #[trigger] lw@[i] <= 'z',
        forall|i: int| 0 <= i < 3 ==> (#[trigger] up@[i] as u32) + 32 == (lw@[i] as u32),
    ensures
        r == extension_is(ext@, lw@),
{
    let a = eq_ignore_case(ext[0], lw[0], up[0]);
    let b = eq_ignore_case(ext[1], lw[1], up[1]);
    let c = eq_ignore_case(ext[2], lw[2], up[2]);
    proof {
        if a && b && c {
            assert forall|i: int| 0 <= i < ext@.len() implies ascii_eq_ignore_case(
                #[trigger] ext@[i],
                lw@[i],
            ) by {
                if i == 0 {
                } else if i == 1 {
                } else {
                }
            }
        }
    }
    a && b && c
}

impl MeshFormat {
    /// Detect the format from the extension of the path's file name
    /// (case-insensitive): `obj`, `stl` or `ply`.
    pub fn from_path(path: &str) -> (r: Option<MeshFormat>)
        ensures
            r == format_of_path(path@),
    {
        let cs = chars_of(path);
        let mut end: usize = cs.len();
        assert(cs@.subrange(0, end as int) =~= cs@);
        loop
            invariant
                end <= cs.len(),
                cs@ == path@,
                file_name_of(cs@) == file_name_of(cs@.subrange(0, end as int)),
            decreases end,
        {
            let ghost p = cs@.subrange(0, end as int);
            let found = last_index_before(&cs, end, '/');
            let start: usize = match found {
                Some(j) => j + 1,
                None => 0,
            };
            let ghost j: int = last_index_of(p, '/');
            let ghost seg = p.subrange(j + 1, p.len() as int);
            assert(start == j + 1);
            assert(seg =~= cs@.subrange(start as int, end as int));
            let seg_len = end - start;
            if seg_len == 0 || (seg_len == 1 && cs[start] == '.') {
                assert(seg.len() == 0 || seg =~= seq!['.']);
                match found {
                    None => {
                        assert(j == -1);
                        assert(file_name_of(p) == None::<Seq<char>>);
                        return None;
                    },
                    Some(jj) => {
                        assert(p.subrange(0, j) =~= cs@.subrange(0, jj as int));
                        end = jj;
                    },
                }
            } else if seg_len == 2 && cs[start] == '.' && cs[start + 1] == '.' {
                assert(seg =~= seq!['.', '.']);
                return None;
            } else {
                assert(seg.len() != 0);
                assert(seg != seq!['.']) by {
                    if seg_len == 1 {
                        assert(seg[0] != '.');
                    }
                }
                assert(seg != seq!['.', '.']) by {
                    if seg_len == 2 {
                        assert(seg[0] != '.' || seg[1] != '.');
                    }
                }
                assert(file_name_of(p) == Some(seg));
                // `seg` is the file name; find its extension.
                let name: Vec<char> = slice_chars(&cs, start, end);
                assert(name@.subrange(0, name.len() as int) =~= name@);
                let d = last_index_before(&name, name.len(), '.');
                match d {
                    None => {
                        assert(extension_of_name(seg) == None::<Seq<char>>);
                        return None;
                    },
                    Some(ds) => {
                        if ds == 0 {
                            assert(extension_of_name(seg) == None::<Seq<char>>);
                            return None;
                        }
                        let ext: Vec<char> = slice_chars(&name, ds + 1, name.len());
                        return Self::from_extension_chars(&ext);
                    },
                }
            }
        }
    }

    fn from_extension_chars(ext: &Vec<char>) -> (r: Option<MeshFormat>)
        ensures
            r == format_of_extension(ext@),
    {
        if ext.len() != 3 {
            return None;
        }
        if word_matches(ext, ['o', 'b', 'j'], ['O', 'B', 'J']) {
            assert(['o', 'b', 'j']@ =~= seq!['o', 'b', 'j']);
            Some(MeshFormat::Obj)
        } else if word_matches(ext, ['s', 't', 'l'], ['S', 'T', 'L']) {
            assert(['o', 'b', 'j']@ =~= seq!['o', 'b', 'j']);
            assert(['s', 't', 'l']@ =~= seq!['s', 't', 'l']);
            Some(MeshFormat::Stl)
        } else if word_matches(ext, ['p', 'l', 'y'], ['P', 'L', 'Y']) {
            assert(['o', 'b', 'j']@ =~= seq!['o', 'b', 'j']);
            assert(['s', 't', 'l']@ =~= seq!['s', 't', 'l']);
            assert(['p', 'l', 'y']@ =~= seq!['p', 'l', 'y']);
            Some(MeshFormat::Ply)
        } else {
            assert(['o', 'b', 'j']@ =~= seq!['o', 'b', 'j']);
            assert(['s', 't', 'l']@ =~= seq!['s', 't', 'l']);
            assert(['p', 'l', 'y']@ =~= seq!['p', 'l', 'y']);
            None
        }
    }
}

fn slice_chars(s: &Vec<char>, from: usize, to: usize) -> (r: Vec<char>)
    requires
        from <= to <= s.len(),
    ensures
        r@ == s@.subrange(from as int, to as int),
{
    let mut r: Vec<char> = Vec::new();
    let mut i: usize = from;
    while i < to
        invariant
            from <= i <= to <= s.len(),
            r@ == s@.subrange(from as int, i as int),
        decreases to - i,
    {
        r.push(s[i]);
        i = i + 1;
    }
    r
}

/// Triangulate one polygon face as a fan around its first vertex:
/// `(p0, p1, p2), (p0, p2, p3), ...`.  Faces with fewer than three
/// vertices produce no triangle.
pub fn triangulate_fan(poly: &Vec<u32>) -> (r: Vec<u32>)
    ensures
        poly.len() < 3 ==> r.len() == 0,
        poly.len() >= 3 ==> r.len() == 3 * (poly.len() - 2),
        forall|t: int|
            0 <= t && 3 * t + 2 < r.len() ==> {
                &&& #[trigger] r@[3 * t] == poly@[0]
                &&& r@[3 * t + 1] == poly@[t + 1]
                &&& r@[3 * t + 2] == poly@[t + 2]
            },
{
    let mut r: Vec<u32> = Vec::new();
    let n = poly.len();
    if n < 3 {
        return r;
    }
    let mut k: usize = 1;
    while k < n - 1
        invariant
            n == poly.len(),
            n >= 3,
            1 <= k <= n - 1,
            r.len() == 3 * (k - 1),
            forall|t: int|
                0 <= t && 3 * t + 2 < r.len() ==> {
                    &&& #[trigger] r@[3 * t] == poly@[0]
                    &&& r@[3 * t + 1] == poly@[t + 1]
                    &&& r@[3 * t + 2] == poly@[t + 2]
                },
        decreases n - 1 - k,
    {
        let ghost old_r = r@;
        r.push(poly[0]);
        r.push(poly[k]);
        r.push(poly[k + 1]);
        proof {
            assert forall|t: int|
                0 <= t && 3 * t + 2 < r.len() implies {
                    &&& #[trigger] r@[3 * t] == poly@[0]
                    &&& r@[3 * t + 1] == poly@[t + 1]
                    &&& r@[3 * t + 2] == poly@[t + 2]
                } by {
                if t < k - 1 {
                    assert(old_r[3 * t] == poly@[0]);
                    assert(r@[3 * t] == old_r[3 * t]);
                    assert(r@[3 * t + 1] == old_r[3 * t + 1]);
                    assert(r@[3 * t + 2] == old_r[3 * t + 2]);
                } else {
                    assert(t == k - 1);
                }
            }
        }
        k = k + 1;
    }
    r
}

} // verus!
