use vstd::prelude::*;

use crate::files::SourceFile;

verus! {

/// Index of the last '/' in `s`, or -1 when there is none.
pub open spec fn last_sep(s: Seq<char>) -> int
    decreases s.len(),
{
    if s.len() == 0 {
        -1
    } else if s.last() == '/' {
        s.len() - 1
    } else {
        last_sep(s.drop_last())
    }
}

proof fn lemma_last_sep_bounds(s: Seq<char>)
    ensures
        -1 <= last_sep(s) < s.len(),
        last_sep(s) == -1 || s[last_sep(s)] == '/',
        forall|m: int| last_sep(s) < m < s.len() ==> s[m] != '/',
    decreases s.len(),
{
    if s.len() > 0 && s.last() != '/' {
        lemma_last_sep_bounds(s.drop_last());
        assert forall|m: int| last_sep(s) < m < s.len() implies s[m] != '/' by {
            if m < s.len() - 1 {
                assert(s.drop_last()[m] == s[m]);
            }
        }
    }
}

/// What follows the last '/' of `s` (all of `s` when it has none).
pub open spec fn basename(s: Seq<char>) -> Seq<char> {
    s.skip(last_sep(s) + 1)
}

/// `s` without the '/' characters it starts with.
pub open spec fn trim_leading_seps(s: Seq<char>) -> Seq<char>
    decreases s.len(),
{
    if s.len() > 0 && s[0] == '/' {
        trim_leading_seps(s.drop_first())
    } else {
        s
    }
}

/// `base` followed by `part`, with one '/' between them unless `base` is empty or
/// already ends in '/'.
pub open spec fn join(base: Seq<char>, part: Seq<char>) -> Seq<char> {
    if base.len() == 0 || base.last() == '/' {
        base + part
    } else {
        base + seq!['/'] + part
    }
}

/// `root` is a leading part of `path` that ends at a component boundary.
pub open spec fn is_path_prefix(root: Seq<char>, path: Seq<char>) -> bool {
    &&& root.len() <= path.len()
    &&& path.take(root.len() as int) == root
    &&& (root.len() == 0 || root.len() == path.len() || root.last() == '/'
        || path[root.len() as int] == '/')
}

/// The part of `path` below the directory `root`.
pub open spec fn relative_of(path: Seq<char>, root: Seq<char>) -> Seq<char> {
    trim_leading_seps(path.skip(root.len() as int))
}

/// The destination root a run copies into: `destination` itself when `source` ends in
/// '/', else `destination` with the source's last component appended.
pub open spec fn rewritten_destination(source: Seq<char>, destination: Seq<char>) -> Seq<char> {
    if source.len() > 0 && source.last() == '/' {
        destination
    } else {
        destination + seq!['/'] + basename(source)
    }
}

/// The directory part of `s`: everything up to and including its last '/' (nothing
/// when it has none).
pub open spec fn parent_of(s: Seq<char>) -> Seq<char> {
    s.take(last_sep(s) + 1)
}

/// The directory to create for the copy of a file whose path below the source root is
/// `relative` and whose name is `name`. A source that is a single file has an empty
/// relative path: its copy is the destination root itself, so the directory is the
/// root's parent.
pub open spec fn destination_dir(relative: Seq<char>, name: Seq<char>, destination: Seq<char>) -> Seq<char> {
    if relative.len() == 0 {
        parent_of(destination)
    } else if name.len() <= relative.len() && relative.skip(relative.len() - name.len()) == name {
        join(destination, relative.take(relative.len() - name.len()))
    } else {
        destination
    }
}

/// Where the copy of that file goes: the destination root itself for an empty relative
/// path, else its directory joined with its name.
pub open spec fn destination_file(relative: Seq<char>, name: Seq<char>, destination: Seq<char>) -> Seq<char> {
    if relative.len() == 0 {
        destination
    } else {
        join(destination_dir(relative, name, destination), name)
    }
}

/// Reads the characters of `s` into a vector.
pub fn chars_of(s: &str) -> (r: Vec<char>)
    ensures
        r@ == s@,
{
    let mut r: Vec<char> = Vec::new();
    for c in it: s.chars()
        invariant
            r@ == it.seq().take(it.index() as int),
    {
        r.push(c);
    }
    r
}

/// Relies on `String`'s `FromIterator<char>`: the string holds the characters in order.
#[verifier::external_body]
pub(crate) fn string_of(v: &Vec<char>) -> (r: String)
    ensures
        r@ == v@,
{
    v.iter().collect()
}

/// Appends `part` to `out`.
fn push_all(out: &mut Vec<char>, part: &Vec<char>, from: usize)
    requires
        from <= part.len(),
    ensures
        final(out)@ == old(out)@ + part@.skip(from as int),
{
    let mut i: usize = from;
    while i < part.len()
        invariant
            from <= i <= part.len(),
            out@ == old(out)@ + part@.subrange(from as int, i as int),
        decreases part.len() - i,
    {
        out.push(part[i]);
        i = i + 1;
        assert(part@.subrange(from as int, i as int) =~= part@.subrange(from as int, (i - 1) as int)
            + seq![part@[i - 1]]);
    }
    assert(part@.subrange(from as int, part.len() as int) =~= part@.skip(from as int));
}

/// Position just past the last '/' of `s`.
fn after_last_sep(s: &Vec<char>) -> (r: usize)
    ensures
        r == last_sep(s@) + 1,
        r <= s.len(),
{
    let mut r: usize = 0;
    let mut i: usize = 0;
    while i < s.len()
        invariant
            i <= s.len(),
            r == last_sep(s@.take(i as int)) + 1,
        decreases s.len() - i,
    {
        assert(s@.take(i + 1).drop_last() =~= s@.take(i as int));
        if s[i] == '/' {
            r = i + 1;
        }
        i = i + 1;
    }
    assert(s@.take(s.len() as int) =~= s@);
    proof {
        lemma_last_sep_bounds(s@);
    }
    r
}

/// Position of the first character of `s` at or after `from` that is not '/'.
fn skip_seps(s: &Vec<char>, from: usize) -> (r: usize)
    requires
        from <= s.len(),
    ensures
        from <= r <= s.len(),
        trim_leading_seps(s@.skip(from as int)) == s@.skip(r as int),
{
    let mut i: usize = from;
    while i < s.len() && s[i] == '/'
        invariant
            from <= i <= s.len(),
            trim_leading_seps(s@.skip(from as int)) == trim_leading_seps(s@.skip(i as int)),
        decreases s.len() - i,
    {
        assert(s@.skip(i as int).drop_first() =~= s@.skip(i + 1));
        i = i + 1;
    }
    proof {
        lemma_no_leading_sep(s@.skip(i as int));
    }
    i
}

proof fn lemma_no_leading_sep(s: Seq<char>)
    requires
        s.len() == 0 || s[0] != '/',
    ensures
        trim_leading_seps(s) == s,
{
}

/// Whether `path` lies under `root`: `root` is a leading part of it that ends at a
/// component boundary.
pub fn is_under(root: &String, path: &String) -> (r: bool)
    ensures
        r == is_path_prefix(root@, path@),
{
    let rt = chars_of(root.as_str());
    let p = chars_of(path.as_str());
    if rt.len() > p.len() {
        return false;
    }
    let mut i: usize = 0;
    while i < rt.len()
        invariant
            rt@ == root@,
            p@ == path@,
            rt.len() <= p.len(),
            i <= rt.len(),
            forall|j: int| 0 <= j < i ==> p@[j] == rt@[j],
        decreases rt.len() - i,
    {
        if p[i] != rt[i] {
            assert(p@.take(rt.len() as int)[i as int] != rt@[i as int]);
            return false;
        }
        i = i + 1;
    }
    assert(p@.take(rt.len() as int) =~= rt@);
    let n = rt.len();
    n == 0 || n == p.len() || rt[n - 1] == '/' || p[n] == '/'
}

/// The path of `file` relative to the directory `source` it was found under.
pub fn get_reative_path(file: &SourceFile, source: &String) -> (r: String)
    requires
        is_path_prefix(source@, file.file_path@),
    ensures
        r@ == relative_of(file.file_path@, source@),
{
    let path = chars_of(file.file_path.as_str());
    let root = chars_of(source.as_str());
    let start = skip_seps(&path, root.len());
    let mut out: Vec<char> = Vec::new();
    push_all(&mut out, &path, start);
    string_of(&out)
}

/// The last component of `path`: what follows its last '/'.
pub fn file_name(path: &String) -> (r: String)
    ensures
        r@ == basename(path@),
{
    let s = chars_of(path.as_str());
    let start = after_last_sep(&s);
    let mut out: Vec<char> = Vec::new();
    push_all(&mut out, &s, start);
    string_of(&out)
}

/// The destination root for a run from `source` into `destination`: a source that ends
/// in '/' has its contents copied straight under `destination`, any other has its last
/// component appended first.
pub fn rewrite_destination(source: String, destination: String) -> (r: String)
    ensures
        r@ == rewritten_destination(source@, destination@),
{
    let s = chars_of(source.as_str());
    if s.len() > 0 && s[s.len() - 1] == '/' {
        return destination;
    }
    let mut out = chars_of(destination.as_str());
    out.push('/');
    let start = after_last_sep(&s);
    push_all(&mut out, &s, start);
    string_of(&out)
}

/// Whether `s` ends with `suffix`.
fn ends_with(s: &Vec<char>, suffix: &Vec<char>) -> (r: bool)
    ensures
        r == (suffix.len() <= s.len() && s@.skip(s.len() - suffix.len()) == suffix@),
{
    if suffix.len() > s.len() {
        return false;
    }
    let start: usize = s.len() - suffix.len();
    let mut i: usize = 0;
    while i < suffix.len()
        invariant
            start == s.len() - suffix.len(),
            i <= suffix.len(),
            forall|j: int| 0 <= j < i ==> s@[start + j] == suffix@[j],
        decreases suffix.len() - i,
    {
        if s[start + i] != suffix[i] {
            assert(s@.skip(start as int)[i as int] != suffix@[i as int]);
            return false;
        }
        i = i + 1;
    }
    assert(s@.skip(start as int) =~= suffix@);
    true
}

/// `base` joined with `part`, as `join` says.
fn join_chars(base: Vec<char>, part: &Vec<char>) -> (r: Vec<char>)
    ensures
        r@ == join(base@, part@),
{
    let mut out = base;
    if out.len() > 0 && out[out.len() - 1] != '/' {
        out.push('/');
    }
    push_all(&mut out, part, 0);
    assert(part@.skip(0) =~= part@);
    out
}

/// The first `cut` characters of `s`.
fn prefix_chars(s: &Vec<char>, cut: usize) -> (r: Vec<char>)
    requires
        cut <= s.len(),
    ensures
        r@ == s@.take(cut as int),
{
    let mut r: Vec<char> = Vec::new();
    let mut i: usize = 0;
    while i < cut
        invariant
            cut <= s.len(),
            i <= cut,
            r@ == s@.take(i as int),
        decreases cut - i,
    {
        r.push(s[i]);
        i = i + 1;
        assert(s@.take(i as int) =~= s@.take(i - 1) + seq![s@[i - 1]]);
    }
    r
}

/// Where the copy of a file goes: the directory to create, and the file's path.
/// `relative_path` is the file's path below the source root, `name` its last component
/// and `destination` the destination root.
pub fn destination_paths(relative_path: &String, name: &String, destination: &String) -> (r: (
    String,
    String,
))
    ensures
        r.0@ == destination_dir(relative_path@, name@, destination@),
        r.1@ == destination_file(relative_path@, name@, destination@),
{
    let rel = chars_of(relative_path.as_str());
    let nm = chars_of(name.as_str());
    let dest = chars_of(destination.as_str());
    if rel.len() == 0 {
        let cut = after_last_sep(&dest);
        let dir = prefix_chars(&dest, cut);
        return (string_of(&dir), destination.clone());
    }
    let dir = if ends_with(&rel, &nm) {
        let parent = prefix_chars(&rel, rel.len() - nm.len());
        join_chars(dest, &parent)
    } else {
        dest
    };
    let file = join_chars(dir.clone(), &nm);
    (string_of(&dir), string_of(&file))
}

proof fn lemma_trim_is_skip(s: Seq<char>, i: int) -> (j: int)
    requires
        0 <= i <= s.len(),
    ensures
        i <= j <= s.len(),
        trim_leading_seps(s.skip(i)) == s.skip(j),
        forall|m: int| i <= m < j ==> s[m] == '/',
        j == s.len() || s[j] != '/',
    decreases s.len() - i,
{
    if i < s.len() && s[i] == '/' {
        assert(s.skip(i).drop_first() =~= s.skip(i + 1));
        lemma_trim_is_skip(s, i + 1)
    } else {
        i
    }
}

proof fn lemma_last_sep_of_tail(s: Seq<char>, j: int)
    requires
        0 <= j < s.len(),
        j == 0 || s[j - 1] == '/',
    ensures
        last_sep(s.skip(j)) == last_sep(s) - j,
    decreases s.len(),
{
    let t = s.skip(j);
    if j == 0 {
        assert(t =~= s);
    } else if s.last() == '/' {
        assert(t.last() == '/');
        assert(last_sep(t) == t.len() - 1);
    } else {
        assert(t.last() != '/');
        assert(last_sep(t) == last_sep(t.drop_last()));
        assert(t.drop_last() =~= s.drop_last().skip(j));
        if j < s.len() - 1 {
            assert(s.drop_last()[j - 1] == s[j - 1]);
            lemma_last_sep_of_tail(s.drop_last(), j);
        } else {
            assert(t.drop_last().len() == 0);
            assert(last_sep(t.drop_last()) == -1);
            assert(s.drop_last().last() == '/');
            assert(last_sep(s.drop_last()) == j - 1);
        }
    }
}

/// A file found under `root` is copied to that same relative path under `destination`:
/// the path `destination_paths` gives is `destination` joined with the file's relative
/// path, or `destination` itself when the source root is the file (an empty relative
/// path).
pub proof fn lemma_copy_lands_at_relative_path(
    path: Seq<char>,
    root: Seq<char>,
    destination: Seq<char>,
)
    requires
        is_path_prefix(root, path),
    ensures
        destination_file(relative_of(path, root), basename(path), destination) == if relative_of(
            path,
            root,
        ).len() == 0 {
            destination
        } else {
            join(destination, relative_of(path, root))
        },
{
    let rel = relative_of(path, root);
    if rel.len() > 0 {
        let j = lemma_trim_is_skip(path, root.len() as int);
        if j > 0 && j == root.len() {
            assert(root.last() == '/' || path[root.len() as int] == '/');
            assert(path[j - 1] == root[j - 1]);
        }
        assert(rel == path.skip(j));
        assert(j < path.len());
        lemma_last_sep_of_tail(path, j);
        lemma_last_sep_bounds(path);
        let name = basename(path);
        lemma_last_sep_bounds(rel);
        assert(last_sep(rel) == last_sep(path) - j);
        assert(rel.skip(last_sep(rel) + 1) =~= path.skip(last_sep(path) + 1)) by {
            assert(rel.skip(last_sep(rel) + 1).len() == path.skip(last_sep(path) + 1).len());
            let a = rel.skip(last_sep(rel) + 1);
            let b = path.skip(last_sep(path) + 1);
            assert forall|m: int| 0 <= m < a.len() implies #[trigger] a[m] == b[m] by {
                assert(rel[last_sep(rel) + 1 + m] == path[j + last_sep(rel) + 1 + m]);
            }
        }
        assert(basename(rel) =~= name);
        let cut = last_sep(rel) + 1;
        assert(rel.skip(rel.len() - name.len()) =~= name);
        let parent = rel.take(cut);
        assert(parent + name =~= rel);
        let dir = join(destination, parent);
        if parent.len() > 0 {
            assert(parent.last() == '/');
            assert(dir.last() == '/');
            assert(join(dir, name) =~= join(destination, rel));
        } else {
            assert(join(dir, name) =~= join(destination, rel));
        }
    }
}

/// One '/' at most separates `root` from what follows it in `path`, as when a directory
/// listing joins a directory with an entry's name.
pub open spec fn single_separator(root: Seq<char>, path: Seq<char>) -> bool {
    let k = root.len() as int;
    if k == 0 || root.last() == '/' {
        k < path.len() ==> path[k] != '/'
    } else {
        k + 1 < path.len() ==> path[k + 1] != '/'
    }
}

/// The relative path keeps the directory structure: joining `root` with the relative
/// path of a file below it gives back the file's path, when one separator at most
/// stands between them.
pub proof fn lemma_relative_path_round_trip(path: Seq<char>, root: Seq<char>)
    requires
        is_path_prefix(root, path),
        single_separator(root, path),
        relative_of(path, root).len() > 0,
    ensures
        join(root, relative_of(path, root)) == path,
{
    let k = root.len() as int;
    let j = lemma_trim_is_skip(path, k);
    assert(path.take(k) == root);
    if k == 0 || root.last() == '/' {
        assert(j == k);
        assert(root + path.skip(k) =~= path);
    } else {
        assert(path[k] == '/');
        assert(j == k + 1);
        assert(root + seq!['/'] + path.skip(k + 1) =~= path);
    }
}

} // verus!
