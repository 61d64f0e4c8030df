//! Paths as `/`-separated text, read as `std::path::Path` reads them: a
//! path's file name is its last component once trailing separators and `.`
//! components are set aside, and there is none when that component is `.`,
//! `..` or the root; its extension is what follows the last `.` of the file
//! name, unless that `.` opens the name.

use crate::text::{after_last, last_index_of, lemma_last_index_of, lower, to_lower};
use vstd::prelude::*;

verus! {

/// `p` less its trailing separators and trailing `.` components; a leading
/// `/` (the root) is kept.
pub open spec fn trim_end(p: Seq<char>) -> Seq<char>
    decreases p.len(),
{
    if p.len() > 1 && (p.last() == '/' || (p.last() == '.' && p[p.len() - 2] == '/')) {
        trim_end(p.drop_last())
    } else {
        p
    }
}

/// The last component of `p` as written, trailing separators and `.`
/// components set aside.
pub open spec fn last_component(p: Seq<char>) -> Seq<char> {
    after_last(trim_end(p), '/')
}

/// The file name of `p`: its last component, or empty when there is none
/// (the last component is `.` or `..`, or `p` is empty or the root).
pub open spec fn file_name(p: Seq<char>) -> Seq<char> {
    let n = last_component(p);
    if n == seq!['.'] || n == seq!['.', '.'] {
        Seq::<char>::empty()
    } else {
        n
    }
}

/// What precedes the file name of `p` (with the separator before it kept).
pub open spec fn parent_part(p: Seq<char>) -> Seq<char> {
    trim_end(p).take(last_index_of(trim_end(p), '/') + 1)
}

/// Position of the `.` that starts the extension of `name`, if any.
pub open spec fn extension_dot(name: Seq<char>) -> int {
    last_index_of(name, '.')
}

/// The extension of a file name, if it has one.
pub open spec fn extension_of(name: Seq<char>) -> Option<Seq<char>> {
    if extension_dot(name) > 0 {
        Some(name.skip(extension_dot(name) + 1))
    } else {
        None
    }
}

/// A file name less its extension and the `.` before it.
pub open spec fn stem_of(name: Seq<char>) -> Seq<char> {
    if extension_dot(name) > 0 {
        name.take(extension_dot(name))
    } else {
        name
    }
}

/// The extension of the file name of `p`, if any.
pub open spec fn path_extension(p: Seq<char>) -> Option<Seq<char>> {
    extension_of(file_name(p))
}

/// `p` with the extension of its file name set to `ext` (removed when `ext`
/// is empty), as `PathBuf::set_extension` does: what follows the file name
/// (trailing separators and `.` components) is dropped, and a path without a
/// file name is left as it is.
pub open spec fn with_extension(p: Seq<char>, ext: Seq<char>) -> Seq<char> {
    if file_name(p).len() == 0 {
        p
    } else {
        parent_part(p) + stem_of(file_name(p)) + (if ext.len() > 0 {
            seq!['.'] + ext
        } else {
            Seq::<char>::empty()
        })
    }
}

/// `dir` followed by `name`: `name` alone when `dir` is empty or `name` is
/// absolute, else with one `/` between them.
pub open spec fn join(dir: Seq<char>, name: Seq<char>) -> Seq<char> {
    if dir.len() == 0 || (name.len() > 0 && name[0] == '/') {
        name
    } else if dir.last() == '/' {
        dir + name
    } else {
        dir + seq!['/'] + name
    }
}

/// Index where the file name of `p` starts.
pub fn file_name_start(p: &[char]) -> (i: usize)
    ensures
        i == last_index_of(p@, '/') + 1,
        i <= p@.len(),
{
    let mut i: usize = p.len();
    while i > 0 && p[i - 1] != '/'
        invariant
            i <= p@.len(),
            forall|j: int| i <= j < p@.len() ==> p@[j] != '/',
        decreases i,
    {
        i -= 1;
    }
    proof {
        lemma_last_index_of(p@, '/');
        if i > 0 {
            assert(p@[i - 1] == '/');
        }
    }
    i
}

/// Length of [`trim_end`] of `p`, which is a prefix of `p`.
pub fn trimmed_len(p: &[char]) -> (n: usize)
    ensures
        n <= p@.len(),
        trim_end(p@) == p@.take(n as int),
{
    let mut n: usize = p.len();
    proof {
        assert(p@.take(n as int) =~= p@);
    }
    loop
        invariant
            n <= p@.len(),
            trim_end(p@.take(n as int)) == trim_end(p@),
        decreases n,
    {
        if n > 1 && (p[n - 1] == '/' || (p[n - 1] == '.' && p[n - 2] == '/')) {
            proof {
                assert(p@.take(n as int).drop_last() =~= p@.take(n - 1));
            }
            n -= 1;
        } else {
            return n;
        }
    }
}

/// Where the last component of `p` starts and ends (see [`last_component`]).
pub fn name_span(p: &[char]) -> (r: (usize, usize))
    ensures
        r.0 <= r.1 <= p@.len(),
        trim_end(p@) == p@.take(r.1 as int),
        r.0 == last_index_of(trim_end(p@), '/') + 1,
        last_component(p@) == p@.subrange(r.0 as int, r.1 as int),
        parent_part(p@) == p@.take(r.0 as int),
{
    let n = trimmed_len(p);
    let t = &p[0..n];
    assert(t@ =~= p@.take(n as int));
    let i = file_name_start(t);
    proof {
        assert(p@.take(n as int).skip(i as int) =~= p@.subrange(i as int, n as int));
        assert(p@.take(n as int).take(i as int) =~= p@.take(i as int));
    }
    (i, n)
}

/// `name` is `.` or `..`, which name no file.
pub fn is_dot_name(name: &[char]) -> (b: bool)
    ensures
        b == (name@ == seq!['.'] || name@ == seq!['.', '.']),
{
    proof {
        if name@.len() == 1 && name@[0] == '.' {
            assert(name@ =~= seq!['.']);
        }
        if name@.len() == 2 && name@[0] == '.' && name@[1] == '.' {
            assert(name@ =~= seq!['.', '.']);
        }
    }
    if name.len() == 1 {
        name[0] == '.'
    } else if name.len() == 2 {
        name[0] == '.' && name[1] == '.'
    } else {
        false
    }
}

/// The file name of `p`.
pub fn get_file_name(p: &[char]) -> (r: Vec<char>)
    ensures
        r@ == file_name(p@),
{
    let (start, end) = name_span(p);
    let name = &p[start..end];
    assert(name@ =~= last_component(p@));
    if is_dot_name(name) {
        Vec::new()
    } else {
        vstd::slice::slice_to_vec(name)
    }
}

/// Position of the extension dot of `name`, or 0 when it has no extension.
pub fn extension_dot_index(name: &[char]) -> (i: usize)
    ensures
        extension_dot(name@) > 0 ==> i == extension_dot(name@),
        extension_dot(name@) <= 0 ==> i == 0,
        i <= name@.len(),
        i > 0 ==> i < name@.len(),
{
    let mut i: usize = name.len();
    while i > 0 && name[i - 1] != '.'
        invariant
            i <= name@.len(),
            forall|j: int| i <= j < name@.len() ==> name@[j] != '.',
        decreases i,
    {
        i -= 1;
    }
    proof {
        lemma_last_index_of(name@, '.');
        if i > 0 {
            assert(name@[i - 1] == '.');
        }
    }
    if i > 1 {
        i - 1
    } else {
        0
    }
}

/// The extension of the file name of `p`, if any.
pub fn get_extension(p: &[char]) -> (r: Option<Vec<char>>)
    ensures
        match r {
            Some(e) => path_extension(p@) == Some(e@),
            None => path_extension(p@) is None,
        },
{
    let name = get_file_name(p);
    let dot = extension_dot_index(&name);
    let n = name.len();
    if dot > 0 {
        assert(dot < n);
        Some(vstd::slice::slice_to_vec(&name[dot + 1..n]))
    } else {
        None
    }
}

/// The extension of the file name of `p`, lowercased, or empty when it has
/// none (`extension().to_str().unwrap_or_default().to_lowercase()`).
pub open spec fn lower_extension(p: Seq<char>) -> Seq<char> {
    match path_extension(p) {
        Some(e) => lower(e),
        None => Seq::<char>::empty(),
    }
}

/// Exec form of [`lower_extension`].
pub fn get_lower_extension(p: &[char]) -> (r: Vec<char>)
    ensures
        r@ == lower_extension(p@),
{
    match get_extension(p) {
        Some(e) => to_lower(&e),
        None => Vec::new(),
    }
}

/// Exec form of [`with_extension`].
pub fn set_extension(p: &[char], ext: &[char]) -> (r: Vec<char>)
    ensures
        r@ == with_extension(p@, ext@),
{
    let (start, end) = name_span(p);
    let name = &p[start..end];
    assert(name@ =~= last_component(p@));
    if name.len() == 0 || is_dot_name(name) {
        return vstd::slice::slice_to_vec(p);
    }
    let dot = extension_dot_index(name);
    let stem_len = if dot > 0 { dot } else { name.len() };
    let mut r = vstd::slice::slice_to_vec(&p[0..start + stem_len]);
    if ext.len() > 0 {
        r.push('.');
        let mut i: usize = 0;
        let ghost base = r@;
        while i < ext.len()
            invariant
                i <= ext@.len(),
                r@ == base + ext@.take(i as int),
            decreases ext.len() - i,
        {
            r.push(ext[i]);
            i += 1;
            proof {
                assert(r@ =~= base + ext@.take(i as int));
            }
        }
        proof {
            assert(ext@.take(ext@.len() as int) =~= ext@);
        }
    }
    proof {
        assert(name@ == file_name(p@));
        assert(p@.subrange(0, start + stem_len) =~= parent_part(p@) + stem_of(file_name(p@)));
        assert(r@ =~= with_extension(p@, ext@));
    }
    r
}

/// Append `b` to `a`.
pub fn append_chars(a: &mut Vec<char>, b: &[char])
    ensures
        final(a)@ == old(a)@ + b@,
{
    let mut i: usize = 0;
    let ghost base = a@;
    while i < b.len()
        invariant
            i <= b@.len(),
            a@ == base + b@.take(i as int),
        decreases b.len() - i,
    {
        a.push(b[i]);
        i += 1;
        proof {
            assert(a@ =~= base + b@.take(i as int));
        }
    }
    proof {
        assert(b@.take(b@.len() as int) =~= b@);
    }
}

/// Exec form of [`join`].
pub fn join_path(dir: &[char], name: &[char]) -> (r: Vec<char>)
    ensures
        r@ == join(dir@, name@),
{
    if dir.len() == 0 || (name.len() > 0 && name[0] == '/') {
        return vstd::slice::slice_to_vec(name);
    }
    let mut r = vstd::slice::slice_to_vec(dir);
    if dir[dir.len() - 1] != '/' {
        r.push('/');
    }
    append_chars(&mut r, name);
    r
}

/// The last occurrence of `c` in `s` is at `i` (`-1`: none).
pub proof fn lemma_last_index_is(s: Seq<char>, c: char, i: int)
    requires
        -1 <= i < s.len(),
        i >= 0 ==> s[i] == c,
        forall|j: int| i < j < s.len() ==> s[j] != c,
    ensures
        last_index_of(s, c) == i,
    decreases s.len(),
{
    if s.len() > 0 && i < s.len() - 1 {
        assert(s[s.len() - 1] != c);
        assert forall|j: int| i < j < s.drop_last().len() implies s.drop_last()[j] != c by {
            assert(s.drop_last()[j] == s[j]);
        }
        if i >= 0 {
            assert(s.drop_last()[i] == s[i]);
        }
        lemma_last_index_is(s.drop_last(), c, i);
    }
}

/// Setting an extension that holds no `.` or `/` on a path with a file name
/// keeps what precedes the file name and the file's stem, and gives the path
/// that extension: the new file sits beside the old one.
pub proof fn lemma_with_extension_parts(p: Seq<char>, ext: Seq<char>)
    requires
        file_name(p).len() > 0,
        ext.len() > 0,
        forall|j: int| 0 <= j < ext.len() ==> ext[j] != '.' && ext[j] != '/',
    ensures
        parent_part(with_extension(p, ext)) == parent_part(p),
        file_name(with_extension(p, ext)) == stem_of(file_name(p)) + seq!['.'] + ext,
        stem_of(file_name(with_extension(p, ext))) == stem_of(file_name(p)),
        path_extension(with_extension(p, ext)) == Some(ext),
{
    let t = trim_end(p);
    let k = last_index_of(t, '/');
    lemma_last_index_of(t, '/');
    let name = file_name(p);
    assert(name == t.skip(k + 1));
    let pp = parent_part(p);
    assert(pp.len() == k + 1);
    let stem = stem_of(name);
    lemma_last_index_of(name, '.');
    assert(stem.len() > 0);
    assert forall|j: int| 0 <= j < name.len() implies name[j] != '/' by {
        assert(name[j] == t[k + 1 + j]);
    }
    let tail = stem + seq!['.'] + ext;
    let r = with_extension(p, ext);
    assert(r == pp + tail);
    assert(r.last() == ext[ext.len() - 1]);
    assert(trim_end(r) == r);
    assert forall|j: int| k < j < r.len() implies r[j] != '/' by {
        let m = j - (k + 1);
        assert(r[j] == tail[m]);
        if m < stem.len() {
            assert(tail[m] == name[m]);
        } else if m > stem.len() {
            assert(tail[m] == ext[m - stem.len() - 1]);
        }
    }
    if k >= 0 {
        assert(r[k] == t[k]);
    }
    lemma_last_index_is(r, '/', k);
    assert(parent_part(r) =~= pp);
    assert(last_component(r) =~= tail);
    assert(tail.last() == ext[ext.len() - 1]);
    assert(tail != seq!['.']);
    assert(tail != seq!['.', '.']);
    assert(file_name(r) == tail);
    assert forall|j: int| stem.len() < j < tail.len() implies tail[j] != '.' by {
        assert(tail[j] == ext[j - stem.len() - 1]);
    }
    lemma_last_index_is(tail, '.', stem.len() as int);
    assert(tail.skip(stem.len() as int + 1) =~= ext);
    assert(tail.take(stem.len() as int) =~= stem);
}

/// Exec form of [`stem_of`].
pub fn stem_exec(name: &[char]) -> (r: Vec<char>)
    ensures
        r@ == stem_of(name@),
{
    let dot = extension_dot_index(name);
    if dot > 0 {
        vstd::slice::slice_to_vec(&name[0..dot])
    } else {
        vstd::slice::slice_to_vec(name)
    }
}

} // verus!
