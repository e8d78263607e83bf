use vstd::prelude::*;

verus! {

// What the standard library's path operations give, on Unix and on Windows.
// On Unix only `/` separates components; on Windows `\` does too, and a path
// may start with a prefix (`C:`, `\\server`). Where a result depends on the
// platform, a fact below states it for either reading.

/// A character that separates path components on Unix or on Windows.
pub open spec fn is_sep(c: char) -> bool {
    c == '/' || c == '\\'
}

/// The index of the last occurrence of `c` in `s`, or -1.
pub open spec fn last_index_of(s: Seq<char>, c: char) -> int
    decreases s.len(),
{
    if s.len() == 0 {
        -1
    } else if s.last() == c {
        s.len() - 1
    } else {
        last_index_of(s.drop_last(), c)
    }
}

/// The index of the last separator of either kind in `s`, or -1.
pub open spec fn last_sep_index(s: Seq<char>) -> int
    decreases s.len(),
{
    if s.len() == 0 {
        -1
    } else if is_sep(s.last()) {
        s.len() - 1
    } else {
        last_sep_index(s.drop_last())
    }
}

/// What follows the last separator of either kind.
pub open spec fn sep_tail(s: Seq<char>) -> Seq<char> {
    s.subrange(last_sep_index(s) + 1, s.len() as int)
}

/// `s` starts with two separators, as network, device and verbatim paths do
/// on Windows.
pub open spec fn leading_double_sep(s: Seq<char>) -> bool {
    s.len() >= 2 && is_sep(s[0]) && is_sep(s[1])
}

/// The last component of `s` is an ordinary file name on both systems: `s`
/// has no Windows prefix of two separators, and what follows its last
/// separator is non-empty, neither `.` nor `..`, and holds no `:`.
pub open spec fn clear_tail(s: Seq<char>) -> bool {
    &&& !leading_double_sep(s)
    &&& sep_tail(s).len() > 0
    &&& sep_tail(s) != "."@
    &&& sep_tail(s) != ".."@
    &&& !sep_tail(s).contains(':')
}

/// The extension of a file name: what follows its last `.`, unless that `.`
/// is its first character or it has none.
pub open spec fn spec_extension_of(name: Seq<char>) -> Option<Seq<char>> {
    let k = last_index_of(name, '.');
    if k <= 0 {
        None
    } else {
        Some(name.subrange(k + 1, name.len() as int))
    }
}

/// The stem of a file name: what precedes its last `.`, or the whole name
/// when the `.` is its first character or it has none.
pub open spec fn spec_stem_of(name: Seq<char>) -> Seq<char> {
    let k = last_index_of(name, '.');
    if k <= 0 {
        name
    } else {
        name.subrange(0, k)
    }
}

/// The extension of `s` where both systems read the same one: the file name
/// is clear and either has a `.` past its first character or `s` has no `\`.
pub open spec fn known_extension(s: Seq<char>) -> Option<Option<Seq<char>>> {
    if clear_tail(s) && (last_index_of(sep_tail(s), '.') > 0 || !s.contains('\\')) {
        Some(spec_extension_of(sep_tail(s)))
    } else {
        None
    }
}

/// A name that, joined to a directory, is appended to it on both systems:
/// non-empty, not starting with a separator and not starting with a drive
/// (`X:`).
pub open spec fn plain_name(n: Seq<char>) -> bool {
    &&& n.len() > 0
    &&& !is_sep(n[0])
    &&& !(n.len() >= 2 && n[1] == ':')
}

/// What may come between a directory and a name joined to it: nothing, `/`
/// or `\`; nothing only after an empty directory, a separator or a drive
/// (`X:`), and always nothing after `/`.
pub open spec fn join_sep(dir: Seq<char>, sep: Seq<char>) -> bool {
    &&& sep == Seq::<char>::empty() || sep == seq!['/'] || sep == seq!['\\']
    &&& dir.len() == 0 ==> sep.len() == 0
    &&& dir.len() > 0 && dir.last() == '/' ==> sep.len() == 0
    &&& sep.len() == 0 ==> dir.len() == 0 || is_sep(dir.last()) || (dir.len() == 2 && dir[1] == ':')
}

/// `r` is `name` appended to `dir` with a separator where one is needed.
pub open spec fn joined_as(dir: Seq<char>, name: Seq<char>, r: Seq<char>) -> bool {
    exists|sep: Seq<char>| join_sep(dir, sep) && r == dir + sep + name
}

/// A directory that Windows reads with a verbatim prefix (`\\?\`), or that
/// starts like one: two separators and a `?`.
pub open spec fn verbatim_like(dir: Seq<char>) -> bool {
    leading_double_sep(dir) && dir.len() >= 3 && dir[2] == '?'
}

/// What `Path::join(dir, name)` gives on both systems, for a plain name and
/// a directory without a verbatim prefix.
pub open spec fn join_fact(dir: Seq<char>, name: Seq<char>, r: Seq<char>) -> bool {
    plain_name(name) && !verbatim_like(dir) ==> joined_as(dir, name, r)
}

// ----------------------------------------------------------- components
//
// `std::path::Path` splits a path into components: a prefix (Windows
// only), a root, a leading `.`, then the named components, where empty
// pieces and `.` are skipped and `..` is kept. Below, `windows` picks the
// reading: false for Unix, true for Windows. The Windows reading is
// modelled for paths that do not start with two separators (network, device
// and verbatim paths are left out); its only prefix is then a drive (`C:`).
// Each component is written as its text, the root as `/`.

/// A separator under a reading: `/`, and on Windows `\` too.
pub open spec fn sep_in(c: char, windows: bool) -> bool {
    c == '/' || (windows && c == '\\')
}

/// An ASCII letter, as a drive letter is.
pub open spec fn ascii_letter(c: char) -> bool {
    ('a' <= c && c <= 'z') || ('A' <= c && c <= 'Z')
}

/// The length of the prefix of `s` under a reading: 2 for a Windows drive
/// (`C:`), else 0.
pub open spec fn prefix_len(s: Seq<char>, windows: bool) -> int {
    if windows && s.len() >= 2 && s[1] == ':' && ascii_letter(s[0]) {
        2
    } else {
        0
    }
}

/// The Windows reading of `s` is modelled: it does not start with two
/// separators.
pub open spec fn windows_modelled(s: Seq<char>) -> bool {
    !leading_double_sep(s)
}

/// What follows the prefix.
pub open spec fn path_body(s: Seq<char>, windows: bool) -> Seq<char> {
    s.skip(prefix_len(s, windows))
}

/// The path has a root: its body starts with a separator.
pub open spec fn rooted(s: Seq<char>, windows: bool) -> bool {
    let b = path_body(s, windows);
    b.len() > 0 && sep_in(b[0], windows)
}

/// The path starts with a `.` component, which is kept as the current
/// directory when there is no root.
pub open spec fn leading_cur_dir(s: Seq<char>, windows: bool) -> bool {
    let b = path_body(s, windows);
    !rooted(s, windows) && b.len() > 0 && b[0] == '.' && (b.len() == 1 || sep_in(b[1], windows))
}

/// The pieces of `t` between the reading's separators, in order; an empty
/// text is one empty piece.
pub open spec fn pieces(t: Seq<char>, windows: bool) -> Seq<Seq<char>>
    decreases t.len(),
{
    if t.len() == 0 {
        seq![Seq::<char>::empty()]
    } else {
        let p = pieces(t.drop_last(), windows);
        if sep_in(t.last(), windows) {
            p.push(Seq::<char>::empty())
        } else {
            p.update(p.len() - 1, p.last().push(t.last()))
        }
    }
}

/// The named components of a path: the pieces of its body that are neither
/// empty nor `.`.
pub open spec fn named_parts(s: Seq<char>, windows: bool) -> Seq<Seq<char>> {
    pieces(path_body(s, windows), windows).filter(|p: Seq<char>| p.len() > 0 && p != "."@)
}

/// The components of `s` under a reading.
pub open spec fn components(s: Seq<char>, windows: bool) -> Seq<Seq<char>> {
    let k = prefix_len(s, windows);
    (if k > 0 { seq![s.take(k)] } else { Seq::empty() }) + (if rooted(s, windows) { seq!["/"@] } else { Seq::empty() })
        + (if leading_cur_dir(s, windows) { seq!["."@] } else { Seq::empty() }) + named_parts(s, windows)
}

/// The file name under a reading: the last component, when it is a named
/// one other than `..`.
pub open spec fn file_name_in(s: Seq<char>, windows: bool) -> Option<Seq<char>> {
    let parts = named_parts(s, windows);
    if parts.len() > 0 && parts.last() != ".."@ {
        Some(parts.last())
    } else {
        None
    }
}

/// The file stem under a reading: the stem of the file name.
pub open spec fn file_stem_in(s: Seq<char>, windows: bool) -> Option<Seq<char>> {
    match file_name_in(s, windows) {
        Some(n) => Some(spec_stem_of(n)),
        None => None,
    }
}

/// What `Path::parent` gives under a reading: when the last component is a
/// named one, a path whose components are all the others; when it is a
/// leading `.` without a prefix, some path; when there is none or it is a
/// root or a prefix, nothing. (After a drive, a leading `.` is left open.)
pub open spec fn parent_in(s: Seq<char>, r: Option<Seq<char>>, windows: bool) -> bool {
    if named_parts(s, windows).len() > 0 {
        r matches Some(p) && components(p, windows) == components(s, windows).drop_last()
    } else if leading_cur_dir(s, windows) {
        prefix_len(s, windows) == 0 ==> r is Some
    } else {
        r is None
    }
}

/// What `Path::parent` gives on this platform, Unix or Windows, where the
/// Windows reading is modelled.
pub open spec fn parent_fact(path: Seq<char>, r: Option<Seq<char>>) -> bool {
    windows_modelled(path) ==> parent_in(path, r, false) || parent_in(path, r, true)
}

/// What `Path::file_stem` gives on this platform, Unix or Windows, where the
/// Windows reading is modelled.
pub open spec fn stem_fact(path: Seq<char>, r: Option<Seq<char>>) -> bool {
    windows_modelled(path) ==> r == file_stem_in(path, false) || r == file_stem_in(path, true)
}

/// Two paths whose Windows drives, if both have one, are written alike, and
/// where no drive is followed by a leading `.` (`C:.`), which `==` reads
/// without it.
pub open spec fn prefixes_alike(a: Seq<char>, b: Seq<char>) -> bool {
    &&& prefix_len(a, true) > 0 && prefix_len(b, true) > 0 ==> a.take(2) == b.take(2)
    &&& !(prefix_len(a, true) > 0 && leading_cur_dir(a, true))
    &&& !(prefix_len(b, true) > 0 && leading_cur_dir(b, true))
}

/// What `==` on two `Path`s gives on this platform: equal texts are equal
/// paths; otherwise the components are compared, as Unix or as Windows reads
/// them, where the Windows reading is modelled and the prefixes are alike.
pub open spec fn same_path_fact(a: Seq<char>, b: Seq<char>, r: bool) -> bool {
    &&& a == b ==> r
    &&& windows_modelled(a) && windows_modelled(b) && prefixes_alike(a, b) ==> (r == (components(a, false)
        == components(b, false)) || r == (components(a, true) == components(b, true)))
}

/// The extension under a reading: that of the file name.
pub open spec fn extension_in(s: Seq<char>, windows: bool) -> Option<Seq<char>> {
    match file_name_in(s, windows) {
        Some(n) => spec_extension_of(n),
        None => None,
    }
}

/// What `Path::extension` gives: the extension both systems read, where
/// they read the same one, and on this platform, Unix or Windows, the
/// extension under its reading, where the Windows reading is modelled.
pub open spec fn extension_fact(path: Seq<char>, r: Option<Seq<char>>) -> bool {
    &&& known_extension(path) matches Some(e) ==> r == e
    &&& windows_modelled(path) ==> r == extension_in(path, false) || r == extension_in(path, true)
}

/// A directory and a plain name joined give a path that starts with the
/// directory, and different names give different paths.
pub proof fn lemma_joined(dir: Seq<char>, a: Seq<char>, b: Seq<char>, ra: Seq<char>, rb: Seq<char>)
    requires
        plain_name(a),
        plain_name(b),
        joined_as(dir, a, ra),
        joined_as(dir, b, rb),
    ensures
        ra.len() > dir.len(),
        ra.subrange(0, dir.len() as int) == dir,
        a != b ==> ra != rb,
{
    let sa = choose|sep: Seq<char>| join_sep(dir, sep) && ra == dir + sep + a;
    let sb = choose|sep: Seq<char>| join_sep(dir, sep) && rb == dir + sep + b;
    assert(ra.subrange(0, dir.len() as int) =~= dir);
    if a != b && ra == rb {
        let n = dir.len() as int;
        if sa == sb {
            assert(a =~= ra.subrange(n + sa.len(), ra.len() as int));
            assert(b =~= rb.subrange(n + sb.len(), rb.len() as int));
        } else if sa.len() == 1 && sb.len() == 1 {
            assert(ra[n] == sa[0]);
            assert(rb[n] == sb[0]);
        } else if sa.len() == 0 {
            assert(ra[n] == a[0]);
            assert(rb[n] == sb[0]);
        } else {
            assert(ra[n] == sa[0]);
            assert(rb[n] == b[0]);
        }
    }
}

/// Each path is the name at the same index joined to `dir`, as `join_fact`
/// states it.
pub open spec fn all_joined(dir: Seq<char>, names: Seq<Seq<char>>, paths: Seq<Seq<char>>) -> bool {
    &&& names.len() == paths.len()
    &&& forall|i: int| 0 <= i < names.len() ==> join_fact(dir, #[trigger] names[i], paths[i])
}

/// Every path lies in `dir` (it starts with the directory's text and is
/// longer) and no two paths are the same.
pub open spec fn inside_and_distinct(dir: Seq<char>, paths: Seq<Seq<char>>) -> bool {
    &&& forall|i: int|
        0 <= i < paths.len() ==> (#[trigger] paths[i]).len() > dir.len() && paths[i].subrange(0, dir.len() as int)
            == dir
    &&& forall|i: int, j: int| 0 <= i < j < paths.len() ==> #[trigger] paths[i] != #[trigger] paths[j]
}

/// Plain, distinct names joined to a directory without a verbatim prefix
/// give distinct paths inside it.
pub proof fn lemma_all_joined(dir: Seq<char>, names: Seq<Seq<char>>, paths: Seq<Seq<char>>)
    requires
        all_joined(dir, names, paths),
        !verbatim_like(dir),
        forall|i: int| 0 <= i < names.len() ==> plain_name(#[trigger] names[i]),
        names.no_duplicates(),
    ensures
        inside_and_distinct(dir, paths),
{
    assert forall|i: int| 0 <= i < paths.len() implies (#[trigger] paths[i]).len() > dir.len() && paths[i].subrange(
        0,
        dir.len() as int,
    ) == dir by {
        assert(join_fact(dir, names[i], paths[i]));
        lemma_joined(dir, names[i], names[i], paths[i], paths[i]);
    }
    assert forall|i: int, j: int| 0 <= i < j < paths.len() implies #[trigger] paths[i] != #[trigger] paths[j] by {
        assert(join_fact(dir, names[i], paths[i]));
        assert(join_fact(dir, names[j], paths[j]));
        lemma_joined(dir, names[i], names[j], paths[i], paths[j]);
    }
}

/// A name that starts with a plain stem and a `-` is plain.
pub proof fn lemma_stem_prefixed_plain(stem: Seq<char>, name: Seq<char>)
    requires
        plain_name(stem),
        name.len() > stem.len(),
        name.subrange(0, stem.len() + 1 as int) == stem.push('-'),
    ensures
        plain_name(name),
{
    assert(name[0] == name.subrange(0, stem.len() + 1 as int)[0]);
    assert(name[1] == name.subrange(0, stem.len() + 1 as int)[1]);
}

} // verus!
