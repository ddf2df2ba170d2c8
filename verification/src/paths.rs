//! Paths as the library sees them: text whose components are separated by
//! `/`. The functions here only split and join text; none touches a disk.

use crate::text::{append_chars, chars_of, has_prefix, slice_of, string_of};
use vstd::prelude::*;

verus! {

/// The index of the last `c` in `s`, or -1 where there is none.
pub open spec fn last_index_of(s: Seq<char>, c: char) -> int
    decreases s.len(),
{
    if s.len() == 0 {
        -1
    } else if s.last() == c {
        s.len() - 1
    } else {
        last_index_of(s.drop_last(), c)
    }
}

/// `last_index_of` is -1 or an index that holds the character, and no index
/// after it does.
pub proof fn lemma_last_index_of(s: Seq<char>, c: char)
    ensures
        -1 <= last_index_of(s, c) < s.len(),
        last_index_of(s, c) >= 0 ==> s[last_index_of(s, c)] == c,
        forall|k: int| last_index_of(s, c) < k < s.len() ==> s[k] != c,
    decreases s.len(),
{
    if s.len() > 0 && s.last() != c {
        lemma_last_index_of(s.drop_last(), c);
        assert forall|k: int| last_index_of(s, c) < k < s.len() implies s[k] != c by {
            if k < s.len() - 1 {
                assert(s.drop_last()[k] == s[k]);
            }
        }
    }
}

/// The index of the last `c` in `s`.
pub fn last_index(s: &Vec<char>, c: char) -> (r: Option<usize>)
    ensures
        match r {
            Some(at) => at as int == last_index_of(s@, c) && at < s.len(),
            None => last_index_of(s@, c) == -1,
        },
{
    let mut i: usize = s.len();
    assert(s@.take(i as int) =~= s@);
    while i > 0
        invariant
            i <= s.len(),
            last_index_of(s@, c) == last_index_of(s@.take(i as int), c),
        decreases i,
    {
        assert(s@.take(i as int).drop_last() =~= s@.take(i - 1));
        i -= 1;
        if s[i] == c {
            return Some(i);
        }
    }
    None
}

/// The text after the last `/` of a path: the whole path where it has none.
pub open spec fn last_segment(path: Seq<char>) -> Seq<char> {
    path.subrange(last_index_of(path, '/') + 1, path.len() as int)
}

/// The final component of a path, where it names something: not empty,
/// not `.` and not `..`.
pub open spec fn file_name_of(path: Seq<char>) -> Option<Seq<char>> {
    let seg = last_segment(path);
    if seg.len() == 0 || seg == seq!['.'] || seg == seq!['.', '.'] {
        None
    } else {
        Some(seg)
    }
}

/// The directory part of a path: the text before its last `/`, `/` itself
/// for an entry of the root, the empty path for a bare name. The root and
/// the empty path have none.
pub open spec fn parent_of(path: Seq<char>) -> Option<Seq<char>> {
    let at = last_index_of(path, '/');
    if at < 0 {
        if path.len() == 0 {
            None
        } else {
            Some(Seq::<char>::empty())
        }
    } else if at == 0 {
        if path.len() == 1 {
            None
        } else {
            Some(seq!['/'])
        }
    } else {
        Some(path.subrange(0, at))
    }
}

/// The extension of a file name: the text after its last `.`, unless the
/// name has no `.` or only the one it begins with.
pub open spec fn extension_of(name: Seq<char>) -> Option<Seq<char>> {
    let at = last_index_of(name, '.');
    if at <= 0 {
        None
    } else {
        Some(name.subrange(at + 1, name.len() as int))
    }
}

/// The stem of a file name: the text before its last `.`, or the whole name
/// where `extension_of` finds no extension.
pub open spec fn stem_of(name: Seq<char>) -> Seq<char> {
    let at = last_index_of(name, '.');
    if at <= 0 {
        name
    } else {
        name.subrange(0, at)
    }
}

/// `dir` and `name` as one path. An absolute `name` stands alone; an empty
/// `dir` adds nothing; otherwise one `/` separates the two.
pub open spec fn joined(dir: Seq<char>, name: Seq<char>) -> Seq<char> {
    if dir.len() == 0 || (name.len() > 0 && name[0] == '/') {
        name
    } else if dir.last() == '/' {
        dir + name
    } else {
        dir + seq!['/'] + name
    }
}

/// Whether `path` is `root` or lies below it, component by component.
pub open spec fn is_under(path: Seq<char>, root: Seq<char>) -> bool {
    root.len() == 0 || (root.is_prefix_of(path) && (path.len() == root.len() || root.last() == '/'
        || path[root.len() as int] == '/'))
}

/// What is left of `path` below `root`, without the separating `/`.
pub open spec fn relative_of(path: Seq<char>, root: Seq<char>) -> Option<Seq<char>> {
    if !is_under(path, root) {
        None
    } else if path.len() > root.len() && path[root.len() as int] == '/' {
        Some(path.subrange(root.len() as int + 1, path.len() as int))
    } else {
        Some(path.subrange(root.len() as int, path.len() as int))
    }
}

/// The text after the last `/`.
pub fn segment_chars(path: &Vec<char>) -> (seg: Vec<char>)
    ensures
        seg@ == last_segment(path@),
{
    proof {
        lemma_last_index_of(path@, '/');
    }
    match last_index(path, '/') {
        Some(at) => slice_of(path, at + 1, path.len()),
        None => slice_of(path, 0, path.len()),
    }
}

/// The final component of a path.
pub fn file_name_chars(path: &Vec<char>) -> (r: Option<Vec<char>>)
    ensures
        match r {
            Some(n) => file_name_of(path@) == Some(n@),
            None => file_name_of(path@) is None,
        },
{
    let seg = segment_chars(path);
    if seg.len() == 0 {
        return None;
    }
    if seg.len() == 1 && seg[0] == '.' {
        assert(seg@ =~= seq!['.']);
        return None;
    }
    if seg.len() == 2 && seg[0] == '.' && seg[1] == '.' {
        assert(seg@ =~= seq!['.', '.']);
        return None;
    }
    assert(seg@ != seq!['.']) by {
        if seg@ == seq!['.'] {
            assert(seq!['.'][0] == '.');
        }
    }
    assert(seg@ != seq!['.', '.']) by {
        if seg@ == seq!['.', '.'] {
            assert(seq!['.', '.'][0] == '.');
            assert(seq!['.', '.'][1] == '.');
        }
    }
    Some(seg)
}

/// The final component of a path.
pub fn file_name(path: &str) -> (r: Option<String>)
    ensures
        match r {
            Some(n) => file_name_of(path@) == Some(n@),
            None => file_name_of(path@) is None,
        },
{
    let chars = chars_of(path);
    match file_name_chars(&chars) {
        Some(n) => Some(string_of(&n)),
        None => None,
    }
}

/// The directory part of a path.
pub fn parent(path: &str) -> (r: Option<String>)
    ensures
        match r {
            Some(d) => parent_of(path@) == Some(d@),
            None => parent_of(path@) is None,
        },
{
    let chars = chars_of(path);
    proof {
        lemma_last_index_of(chars@, '/');
    }
    match last_index(&chars, '/') {
        None => {
            if chars.len() == 0 {
                None
            } else {
                Some(string_of(&Vec::new()))
            }
        },
        Some(at) => {
            if at == 0 {
                if chars.len() == 1 {
                    None
                } else {
                    let mut root: Vec<char> = Vec::new();
                    root.push('/');
                    assert(root@ =~= seq!['/']);
                    Some(string_of(&root))
                }
            } else {
                let dir = slice_of(&chars, 0, at);
                Some(string_of(&dir))
            }
        },
    }
}

/// The extension of a file name.
pub fn extension_chars(name: &Vec<char>) -> (r: Option<Vec<char>>)
    ensures
        match r {
            Some(e) => extension_of(name@) == Some(e@),
            None => extension_of(name@) is None,
        },
{
    proof {
        lemma_last_index_of(name@, '.');
    }
    match last_index(name, '.') {
        Some(at) => {
            if at == 0 {
                None
            } else {
                Some(slice_of(name, at + 1, name.len()))
            }
        },
        None => None,
    }
}

/// The stem of a file name.
pub fn stem_chars(name: &Vec<char>) -> (r: Vec<char>)
    ensures
        r@ == stem_of(name@),
{
    proof {
        lemma_last_index_of(name@, '.');
    }
    match last_index(name, '.') {
        Some(at) => {
            if at == 0 {
                let all = slice_of(name, 0, name.len());
                assert(all@ =~= name@);
                all
            } else {
                slice_of(name, 0, at)
            }
        },
        None => {
            let all = slice_of(name, 0, name.len());
            assert(all@ =~= name@);
            all
        },
    }
}

/// `dir` and `name` as one path.
pub fn join_chars(dir: &Vec<char>, name: &Vec<char>) -> (r: Vec<char>)
    ensures
        r@ == joined(dir@, name@),
{
    let mut out: Vec<char> = Vec::new();
    if dir.len() == 0 || (name.len() > 0 && name[0] == '/') {
        append_chars(&mut out, name);
        assert(out@ =~= name@);
        return out;
    }
    append_chars(&mut out, dir);
    if dir[dir.len() - 1] != '/' {
        out.push('/');
    }
    append_chars(&mut out, name);
    assert(out@ =~= joined(dir@, name@));
    out
}

/// `dir` and `name` as one path.
pub fn join(dir: &str, name: &str) -> (r: String)
    ensures
        r@ == joined(dir@, name@),
{
    let d = chars_of(dir);
    let n = chars_of(name);
    let out = join_chars(&d, &n);
    string_of(&out)
}

/// Whether `path` is `root` or lies below it.
pub fn under_chars(path: &Vec<char>, root: &Vec<char>) -> (r: bool)
    ensures
        r == is_under(path@, root@),
{
    if root.len() == 0 {
        return true;
    }
    if !has_prefix(path, root) {
        return false;
    }
    path.len() == root.len() || root[root.len() - 1] == '/' || path[root.len()] == '/'
}

/// Whether `path` is `root` or lies below it.
pub fn starts_with(path: &str, root: &str) -> (r: bool)
    ensures
        r == is_under(path@, root@),
{
    let p = chars_of(path);
    let q = chars_of(root);
    under_chars(&p, &q)
}

/// What is left of `path` below `root`.
pub fn strip_prefix(path: &str, root: &str) -> (r: Option<String>)
    ensures
        match r {
            Some(rel) => relative_of(path@, root@) == Some(rel@),
            None => relative_of(path@, root@) is None,
        },
{
    let p = chars_of(path);
    let q = chars_of(root);
    if !under_chars(&p, &q) {
        return None;
    }
    if p.len() > q.len() && p[q.len()] == '/' {
        let rel = slice_of(&p, q.len() + 1, p.len());
        Some(string_of(&rel))
    } else {
        if q.len() > p.len() {
            // only an empty root admits a shorter path
            assert(q.len() == 0);
        }
        let rel = slice_of(&p, q.len(), p.len());
        Some(string_of(&rel))
    }
}

} // verus!
