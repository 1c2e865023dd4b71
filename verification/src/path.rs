//! Paths as the flattener reads them: UTF-8 text whose components are
//! separated by `/`, taken as written (no normalisation of `.`, `..` or
//! repeated separators).
//!
//! The spec functions give the meaning of each operation on `Seq<char>`;
//! the executable functions compute them on `&str`.

use vstd::prelude::*;
use vstd::string::StringExecFns;

verus! {

/// The index of the last occurrence of `c` in `s`, or `-1` if there is none.
pub open spec fn last_index_of(s: Seq<char>, c: char) -> int
    decreases s.len(),
{
    if s.len() == 0 {
        -1
    } else if s.last() == c {
        s.len() - 1
    } else {
        last_index_of(s.drop_last(), c)
    }
}

/// The final component of `path`: what follows its last separator.
pub open spec fn file_name(path: Seq<char>) -> Seq<char> {
    path.subrange(last_index_of(path, '/') + 1, path.len() as int)
}

/// The extension of `path`: what follows the last `.` of its file name.
/// There is none if the file name holds no `.`, if its only `.` is the first
/// character, or if the file name is `..`.
pub open spec fn extension(path: Seq<char>) -> Option<Seq<char>> {
    let name = file_name(path);
    let dot = last_index_of(name, '.');
    if dot <= 0 || name == seq!['.', '.'] {
        None
    } else {
        Some(name.subrange(dot + 1, name.len() as int))
    }
}

/// `path` extended by `rel`. An absolute `rel` replaces `base`; otherwise
/// exactly one separator stands between the two, unless `base` is empty.
pub open spec fn join(base: Seq<char>, rel: Seq<char>) -> Seq<char> {
    if rel.len() > 0 && rel[0] == '/' {
        rel
    } else if base.len() == 0 || base.last() == '/' {
        base + rel
    } else {
        base + seq!['/'] + rel
    }
}

/// `path` relative to `base`, if `path` is `base` itself or lies under it.
pub open spec fn relative_to(path: Seq<char>, base: Seq<char>) -> Option<Seq<char>> {
    if base.len() == 0 {
        Some(path)
    } else if !base.is_prefix_of(path) {
        None
    } else if path.len() == base.len() {
        Some(Seq::empty())
    } else if base.last() == '/' {
        Some(path.subrange(base.len() as int, path.len() as int))
    } else if path[base.len() as int] == '/' {
        Some(path.subrange(base.len() as int + 1, path.len() as int))
    } else {
        None
    }
}

/// The directory that holds `path`: `path` without its final component.
/// The empty path and the root have none.
pub open spec fn parent(path: Seq<char>) -> Option<Seq<char>> {
    let slash = last_index_of(path, '/');
    if path.len() == 0 || path == seq!['/'] {
        None
    } else if slash < 0 {
        Some(Seq::empty())
    } else if slash == 0 {
        Some(seq!['/'])
    } else {
        Some(path.subrange(0, slash))
    }
}

/// `rel` is one component: not empty, and without a separator.
pub open spec fn is_single_component(rel: Seq<char>) -> bool {
    rel.len() > 0 && last_index_of(rel, '/') < 0
}

/// `last_index_of` points at an occurrence of `c` that no other follows.
pub proof fn lemma_last_index_of(s: Seq<char>, c: char)
    ensures
        -1 <= last_index_of(s, c) < s.len(),
        last_index_of(s, c) >= 0 ==> s[last_index_of(s, c)] == c,
        forall|j: int| last_index_of(s, c) < j < s.len() ==> s[j] != c,
    decreases s.len(),
{
    if s.len() > 0 && s.last() != c {
        let front = s.drop_last();
        lemma_last_index_of(front, c);
        assert forall|j: int| last_index_of(s, c) < j < s.len() implies s[j] != c by {
            if j < front.len() {
                assert(front[j] == s[j]);
            }
        }
    }
}

/// An index that is followed by no occurrence of `c`, and that holds `c`
/// unless it is `-1`, is the one that `last_index_of` gives.
pub proof fn lemma_last_index_of_unique(s: Seq<char>, c: char, r: int)
    requires
        -1 <= r < s.len(),
        r >= 0 ==> s[r] == c,
        forall|j: int| r < j < s.len() ==> s[j] != c,
    ensures
        last_index_of(s, c) == r,
{
    lemma_last_index_of(s, c);
}

/// What was joined to a directory is found again below it: a relative path,
/// joined to `base`, is that path relative to `base`.
pub proof fn lemma_relative_to_join(base: Seq<char>, rel: Seq<char>)
    requires
        rel.len() == 0 || rel[0] != '/',
    ensures
        relative_to(join(base, rel), base) == Some(rel),
{
    let path = join(base, rel);
    if base.len() > 0 {
        assert(base =~= path.subrange(0, base.len() as int));
        if path.len() == base.len() {
            assert(rel =~= Seq::<char>::empty());
        } else if base.last() == '/' {
            assert(path.subrange(base.len() as int, path.len() as int) =~= rel);
        } else {
            assert(path[base.len() as int] == '/');
            assert(path.subrange(base.len() as int + 1, path.len() as int) =~= rel);
        }
    } else {
        assert(path =~= rel);
    }
}

/// `s` holds neither a separator nor a `.`.
pub open spec fn is_plain(s: Seq<char>) -> bool {
    forall|i: int| 0 <= i < s.len() ==> s[i] != '/' && s[i] != '.'
}

/// An extension holds neither a separator nor a `.`.
pub proof fn lemma_extension_is_plain(path: Seq<char>)
    requires
        extension(path) is Some,
    ensures
        is_plain(extension(path)->0),
{
    let name = file_name(path);
    let found = extension(path)->0;
    let slash = last_index_of(path, '/');
    let dot = last_index_of(name, '.');
    lemma_last_index_of(path, '/');
    lemma_last_index_of(name, '.');
    assert forall|i: int| 0 <= i < found.len() implies found[i] != '/' && found[i] != '.' by {
        assert(found[i] == name[dot + 1 + i]);
        assert(name[dot + 1 + i] == path[slash + 1 + dot + 1 + i]);
    }
}

/// A name without a separator, joined to a directory, is the file name of
/// the result.
pub proof fn lemma_file_name_of_join(base: Seq<char>, name: Seq<char>)
    requires
        forall|i: int| 0 <= i < name.len() ==> name[i] != '/',
    ensures
        file_name(join(base, name)) == name,
{
    let path = join(base, name);
    let before = path.len() - name.len();
    assert forall|j: int| before <= j < path.len() implies path[j] != '/' by {
        assert(path[j] == name[j - before]);
    }
    lemma_last_index_of_unique(path, '/', before - 1);
    assert(file_name(path) =~= name);
}

/// The characters of `s`, in order.
pub fn chars_of(s: &str) -> (out: Vec<char>)
    ensures
        out@ == s@,
{
    let mut out: Vec<char> = Vec::new();
    for c in it: s.chars()
        invariant
            out@ == it.seq().take(it.index() as int),
            it.seq() == s@,
    {
        out.push(c);
    }
    out
}

/// The least `start <= end` such that `c` does not occur in
/// `chars[start..end]`: one past the last occurrence of `c` before `end`.
fn after_last(chars: &Vec<char>, end: usize, c: char) -> (start: usize)
    requires
        end <= chars.len(),
    ensures
        start <= end,
        start as int == last_index_of(chars@.subrange(0, end as int), c) + 1,
{
    let mut start: usize = end;
    while start > 0 && chars[start - 1] != c
        invariant
            start <= end <= chars.len(),
            forall|j: int| start <= j < end ==> chars@[j] != c,
        decreases start,
    {
        start -= 1;
    }
    proof {
        lemma_last_index_of_unique(chars@.subrange(0, end as int), c, start as int - 1);
    }
    start
}

/// The extension of `path`, if it has one.
pub fn path_extension(path: &str) -> (ext: Option<String>)
    ensures
        ext is Some <==> extension(path@) is Some,
        ext is Some ==> ext->0@ == extension(path@)->0,
{
    let chars = chars_of(path);
    let n = chars.len();
    let start = after_last(&chars, n, '/');
    let mut dot: usize = n;
    while dot > start && chars[dot - 1] != '.'
        invariant
            start <= dot <= n == chars.len(),
            forall|j: int| dot <= j < n ==> chars@[j] != '.',
        decreases dot,
    {
        dot -= 1;
    }
    proof {
        assert(chars@.subrange(0, n as int) == chars@);
        let name = file_name(path@);
        assert(name == chars@.subrange(start as int, n as int));
        assert(forall|j: int| 0 <= j < name.len() ==> name[j] == chars@[start + j]);
        lemma_last_index_of_unique(name, '.', dot as int - 1 - start as int);
    }
    let is_dots = n - start == 2 && chars[start] == '.' && chars[start + 1] == '.';
    proof {
        let name = file_name(path@);
        if is_dots {
            assert(name == seq!['.', '.']);
        } else if name == seq!['.', '.'] {
            assert(name.len() == 2);
            assert(name[0] == '.' && name[1] == '.');
        }
    }
    if dot - start <= 1 || is_dots {
        None
    } else {
        proof {
            let name = file_name(path@);
            assert(name.subrange(dot as int - start as int, name.len() as int) == path@.subrange(
                dot as int,
                n as int,
            ));
        }
        Some(path.substring_char(dot, n).to_owned())
    }
}

/// `base` extended by `rel`.
pub fn path_join(base: &str, rel: &str) -> (out: String)
    ensures
        out@ == join(base@, rel@),
{
    let base_chars = chars_of(base);
    let n = base_chars.len();
    if rel.unicode_len() > 0 && rel.get_char(0) == '/' {
        rel.to_owned()
    } else if n == 0 || base_chars[n - 1] == '/' {
        let mut out = base.to_owned();
        out.append(rel);
        out
    } else {
        proof {
            reveal_strlit("/");
            assert("/"@ == seq!['/']);
        }
        let mut out = base.to_owned();
        out.append("/");
        out.append(rel);
        out
    }
}

/// `path` relative to `base`, if `path` is `base` itself or lies under it.
pub fn path_strip_prefix(path: &str, base: &str) -> (rel: Option<String>)
    ensures
        rel is Some <==> relative_to(path@, base@) is Some,
        rel is Some ==> rel->0@ == relative_to(path@, base@)->0,
{
    let path_chars = chars_of(path);
    let base_chars = chars_of(base);
    let n = path_chars.len();
    let m = base_chars.len();
    if m == 0 {
        return Some(path.to_owned());
    }
    if n < m {
        return None;
    }
    let mut i: usize = 0;
    while i < m
        invariant
            i <= m <= n,
            m == base_chars.len(),
            n == path_chars.len(),
            path_chars@ == path@,
            base_chars@ == base@,
            forall|j: int| 0 <= j < i ==> path_chars@[j] == base_chars@[j],
        decreases m - i,
    {
        if path_chars[i] != base_chars[i] {
            proof {
                if base@.is_prefix_of(path@) {
                    assert(path@.subrange(0, m as int)[i as int] == base@[i as int]);
                }
            }
            return None;
        }
        i += 1;
    }
    assert(base@ == path@.subrange(0, m as int));
    if n == m {
        Some(String::new())
    } else if base_chars[m - 1] == '/' {
        Some(path.substring_char(m, n).to_owned())
    } else if path_chars[m] == '/' {
        Some(path.substring_char(m + 1, n).to_owned())
    } else {
        None
    }
}

/// The directory that holds `path`, if it has one.
pub fn path_parent(path: &str) -> (dir: Option<String>)
    ensures
        dir is Some <==> parent(path@) is Some,
        dir is Some ==> dir->0@ == parent(path@)->0,
{
    let chars = chars_of(path);
    let n = chars.len();
    let after = after_last(&chars, n, '/');
    proof {
        assert(chars@.subrange(0, n as int) == chars@);
        if path@ == seq!['/'] {
            assert(path@.len() == 1 && path@[0] == '/');
        }
    }
    if n == 0 || (n == 1 && chars[0] == '/') {
        proof {
            if n == 1 {
                assert(path@ == seq!['/']);
            }
        }
        None
    } else if after == 0 {
        Some(String::new())
    } else if after == 1 {
        proof {
            lemma_last_index_of(path@, '/');
            assert(path@.subrange(0, 1) == seq!['/']);
        }
        Some(path.substring_char(0, 1).to_owned())
    } else {
        Some(path.substring_char(0, after - 1).to_owned())
    }
}

/// Whether `rel` is one component: not empty, and without a separator.
pub fn path_is_single_component(rel: &str) -> (single: bool)
    ensures
        single == is_single_component(rel@),
{
    let chars = chars_of(rel);
    let n = chars.len();
    let after = after_last(&chars, n, '/');
    proof {
        assert(chars@.subrange(0, n as int) == chars@);
    }
    n > 0 && after == 0
}

} // verus!
