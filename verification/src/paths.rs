//! Windows paths, held as strings.
//!
//! Both `\` and `/` separate components; joining inserts `\`.
use vstd::prelude::*;

verus! {

pub open spec fn is_separator(c: char) -> bool {
    c == '\\' || c == '/'
}

pub open spec fn is_ascii_letter(c: char) -> bool {
    ('a' <= c && c <= 'z') || ('A' <= c && c <= 'Z')
}

/// `X:` at the start of a path: a drive prefix.
pub open spec fn has_drive_prefix(p: Seq<char>) -> bool {
    p.len() >= 2 && p[1] == ':' && is_ascii_letter(p[0])
}

/// A path made of a drive prefix alone, such as `C:`.
pub open spec fn is_bare_drive(p: Seq<char>) -> bool {
    p.len() == 2 && has_drive_prefix(p)
}

/// `base` joined with the relative path `rel`: a separator is inserted unless
/// `base` is empty, ends with a separator or is a bare drive.
pub open spec fn join_path(base: Seq<char>, rel: Seq<char>) -> Seq<char> {
    if base.len() == 0 || is_separator(base.last()) || is_bare_drive(base) {
        base + rel
    } else {
        base + seq!['\\'] + rel
    }
}

/// Whether component `i` of `p` (starting at `i`) is `..`.
pub open spec fn parent_component_at(p: Seq<char>, i: int) -> bool {
    &&& 0 <= i
    &&& i + 2 <= p.len()
    &&& p[i] == '.'
    &&& p[i + 1] == '.'
    &&& (i == 0 || is_separator(p[i - 1]))
    &&& (i + 2 == p.len() || is_separator(p[i + 2]))
}

/// A path that is not plainly relative: it has a drive prefix, starts at a
/// root (or a UNC / verbatim prefix, which also starts with a separator), or
/// has a `..` component.
pub open spec fn escapes_base(p: Seq<char>) -> bool {
    ||| has_drive_prefix(p)
    ||| (p.len() > 0 && is_separator(p[0]))
    ||| exists|i: int| parent_component_at(p, i)
}

fn is_sep_char(c: char) -> (r: bool)
    ensures
        r == is_separator(c),
{
    c == '\\' || c == '/'
}

fn is_letter_char(c: char) -> (r: bool)
    ensures
        r == is_ascii_letter(c),
{
    ('a' <= c && c <= 'z') || ('A' <= c && c <= 'Z')
}

/// Decides `escapes_base` on a path given as characters.
pub fn escapes_base_chars(p: &Vec<char>) -> (r: bool)
    ensures
        r == escapes_base(p@),
{
    if p.len() >= 2 && p[1] == ':' && is_letter_char(p[0]) {
        return true;
    }
    if p.len() > 0 && is_sep_char(p[0]) {
        return true;
    }
    let mut i: usize = 0;
    while i < p.len() && p.len() - i > 1
        invariant
            i <= p.len(),
            forall|j: int| 0 <= j < i ==> !parent_component_at(p@, j),
        decreases p.len() - i,
    {
        if p[i] == '.' && p[i + 1] == '.' && (i == 0 || is_sep_char(p[i - 1])) && (i + 2
            == p.len() || is_sep_char(p[i + 2])) {
            assert(parent_component_at(p@, i as int));
            return true;
        }
        i = i + 1;
    }
    assert forall|j: int| !parent_component_at(p@, j) by {
        if 0 <= j < i {
        } else if j >= i {
            assert(j + 2 > p.len());
        }
    }
    false
}

/// Joins a relative path to a base path.
pub fn join(base: &str, rel: &str) -> (r: String)
    ensures
        r@ == join_path(base@, rel@),
{
    let mut r = String::from_str(base);
    let n = base.unicode_len();
    let needs_sep = if n == 0 {
        false
    } else {
        let last = base.get_char(n - 1);
        if is_sep_char(last) {
            false
        } else if n == 2 && base.get_char(1) == ':' && is_letter_char(base.get_char(0)) {
            false
        } else {
            true
        }
    };
    if needs_sep {
        push_sep(&mut r);
    }
    r.append(rel);
    r
}

fn push_sep(s: &mut String)
    ensures
        final(s)@ == old(s)@.push('\\'),
{
    crate::text::push_char(s, '\\');
}

} // verus!

verus! {

/// `p` without its trailing separators.
pub open spec fn strip_trailing_separators(p: Seq<char>) -> Seq<char>
    decreases p.len(),
{
    if p.len() > 0 && is_separator(p.last()) {
        strip_trailing_separators(p.drop_last())
    } else {
        p
    }
}

/// The index of the last separator of `p`, or -1.
pub open spec fn last_separator(p: Seq<char>) -> int
    decreases p.len(),
{
    if p.len() == 0 {
        -1
    } else if is_separator(p.last()) {
        p.len() - 1
    } else {
        last_separator(p.drop_last())
    }
}

/// `p` without what `Path` ignores at its end: trailing separators and
/// trailing `.` components (a `.` that follows a separator).
pub open spec fn trim_back(p: Seq<char>) -> Seq<char>
    decreases p.len(),
{
    if p.len() > 0 && is_separator(p.last()) {
        trim_back(p.drop_last())
    } else if p.len() >= 2 && p.last() == '.' && is_separator(p[p.len() - 2]) {
        trim_back(p.drop_last())
    } else {
        p
    }
}

/// The parent of a drive-letter or relative path (`Path::parent`): `None`
/// for an empty path, a root or a bare drive; `""` for a single relative
/// component; the drive prefix for `X:name`; otherwise the path up to its last
/// component, without trailing separators and `.` components but keeping the
/// root separator. Like `Path`, it skips `.` components at the end of the
/// path and at the end of the parent.
pub open spec fn parent_dir(p: Seq<char>) -> Option<Seq<char>> {
    let q = trim_back(p);
    if q.len() == 0 || is_bare_drive(q) {
        None
    } else {
        let i = last_separator(q);
        if i < 0 {
            if has_drive_prefix(q) {
                Some(q.subrange(0, 2))
            } else {
                Some(seq![])
            }
        } else {
            let head = trim_back(q.subrange(0, i));
            if head.len() == 0 {
                Some(q.subrange(0, 1))
            } else if is_bare_drive(head) {
                Some(q.subrange(0, 3))
            } else {
                Some(head)
            }
        }
    }
}

/// The length of `p[..n]` without its trailing separators.
fn stripped_len(p: &Vec<char>, n: usize) -> (k: usize)
    requires
        n <= p@.len(),
    ensures
        k <= n,
        strip_trailing_separators(p@.subrange(0, n as int)) == p@.subrange(0, k as int),
{
    let mut k = n;
    while k > 0 && (p[k - 1] == '\\' || p[k - 1] == '/')
        invariant
            k <= n <= p@.len(),
            strip_trailing_separators(p@.subrange(0, n as int)) == strip_trailing_separators(
                p@.subrange(0, k as int),
            ),
        decreases k,
    {
        assert(p@.subrange(0, k as int).drop_last() =~= p@.subrange(0, k - 1));
        k = k - 1;
    }
    assert(k == 0 || !is_separator(p@.subrange(0, k as int).last()));
    k
}

/// The length of `trim_back(p[..n])`.
fn trimmed_len(p: &Vec<char>, n: usize) -> (k: usize)
    requires
        n <= p@.len(),
    ensures
        k <= n,
        trim_back(p@.subrange(0, n as int)) == p@.subrange(0, k as int),
{
    let mut k = n;
    while k > 0 && (is_sep_char(p[k - 1]) || (k >= 2 && p[k - 1] == '.' && is_sep_char(p[k - 2])))
        invariant
            k <= n <= p@.len(),
            trim_back(p@.subrange(0, n as int)) == trim_back(p@.subrange(0, k as int)),
        decreases k,
    {
        assert(p@.subrange(0, k as int).drop_last() =~= p@.subrange(0, k - 1));
        k = k - 1;
    }
    let ghost q = p@.subrange(0, k as int);
    assert(k == 0 || !is_separator(q.last()));
    assert(!(q.len() >= 2 && q.last() == '.' && is_separator(q[q.len() - 2])));
    k
}

/// The index of the last separator among `p[..n]`, or `n` when there is none.
fn last_separator_index(p: &Vec<char>, n: usize) -> (i: usize)
    requires
        n <= p@.len(),
    ensures
        i <= n,
        i == n <==> last_separator(p@.subrange(0, n as int)) < 0,
        i < n ==> last_separator(p@.subrange(0, n as int)) == i,
{
    let mut k = n;
    while k > 0 && !(p[k - 1] == '\\' || p[k - 1] == '/')
        invariant
            k <= n <= p@.len(),
            last_separator(p@.subrange(0, n as int)) == last_separator(p@.subrange(0, k as int)),
        decreases k,
    {
        assert(p@.subrange(0, k as int).drop_last() =~= p@.subrange(0, k - 1));
        k = k - 1;
    }
    if k == 0 {
        n
    } else {
        k - 1
    }
}

/// The first `k` characters as a string.
fn prefix_string(p: &Vec<char>, k: usize) -> (s: String)
    requires
        k <= p@.len(),
    ensures
        s@ == p@.subrange(0, k as int),
{
    let mut s = String::new();
    let mut i: usize = 0;
    while i < k
        invariant
            i <= k <= p@.len(),
            s@ == p@.subrange(0, i as int),
        decreases k - i,
    {
        crate::text::push_char(&mut s, p[i]);
        i = i + 1;
        assert(s@ =~= p@.subrange(0, i as int));
    }
    s
}

fn bare_drive(p: &Vec<char>, k: usize) -> (r: bool)
    requires
        k <= p@.len(),
    ensures
        r == is_bare_drive(p@.subrange(0, k as int)),
{
    k == 2 && p[1] == ':' && is_letter_char(p[0])
}

/// The parent directory of a path (see `parent_dir`).
pub fn parent(path: &str) -> (r: Option<String>)
    ensures
        match parent_dir(path@) {
            Some(q) => r matches Some(s) && s@ == q,
            None => r is None,
        },
{
    let p = crate::text::chars_of(path);
    assert(p@.subrange(0, p@.len() as int) =~= p@);
    let n = trimmed_len(&p, p.len());
    let ghost q = p@.subrange(0, n as int);
    if n == 0 || bare_drive(&p, n) {
        return None;
    }
    let i = last_separator_index(&p, n);
    if i == n {
        if n >= 2 && p[1] == ':' && is_letter_char(p[0]) {
            assert(q.subrange(0, 2) =~= p@.subrange(0, 2));
            return Some(prefix_string(&p, 2));
        }
        return Some(String::new());
    }
    let h = trimmed_len(&p, i);
    assert(q.subrange(0, i as int) =~= p@.subrange(0, i as int));
    if h == 0 {
        assert(q.subrange(0, 1) =~= p@.subrange(0, 1));
        return Some(prefix_string(&p, 1));
    }
    if bare_drive(&p, h) {
        assert(q.subrange(0, 3) =~= p@.subrange(0, 3));
        return Some(prefix_string(&p, 3));
    }
    Some(prefix_string(&p, h))
}

/// Whether `s` starts with `pre`.
pub open spec fn starts_with(s: Seq<char>, pre: Seq<char>) -> bool {
    pre.len() <= s.len() && s.subrange(0, pre.len() as int) == pre
}

/// `str::starts_with` for a string pattern.
pub fn has_prefix(s: &str, pre: &str) -> (r: bool)
    ensures
        r == starts_with(s@, pre@),
{
    let sc = crate::text::chars_of(s);
    let pc = crate::text::chars_of(pre);
    if pc.len() > sc.len() {
        return false;
    }
    let mut i: usize = 0;
    while i < pc.len()
        invariant
            pc@.len() <= sc@.len(),
            i <= pc@.len(),
            sc@ == s@,
            pc@ == pre@,
            forall|j: int| 0 <= j < i ==> sc@[j] == pc@[j],
        decreases pc@.len() - i,
    {
        if sc[i] != pc[i] {
            assert(s@.subrange(0, pre@.len() as int)[i as int] != pre@[i as int]);
            return false;
        }
        i = i + 1;
    }
    assert(s@.subrange(0, pre@.len() as int) =~= pre@);
    true
}


/// `p` is the folder `dir` or lies under it, compared by whole components as
/// `Path::starts_with` compares them: `p` is `dir` without its trailing
/// separators, or continues it with a separator. Every path lies under the
/// empty path.
pub open spec fn path_under(p: Seq<char>, dir: Seq<char>) -> bool {
    let d = strip_trailing_separators(dir);
    ||| dir.len() == 0
    ||| p == d
    ||| (starts_with(p, d) && p.len() > d.len() && is_separator(p[d.len() as int]))
}

/// Decides `path_under`.
pub fn is_under(p: &str, dir: &str) -> (r: bool)
    ensures
        r == path_under(p@, dir@),
{
    let pc = crate::text::chars_of(p);
    let dc = crate::text::chars_of(dir);
    if dc.len() == 0 {
        return true;
    }
    assert(dc@.subrange(0, dc@.len() as int) =~= dc@);
    let k = stripped_len(&dc, dc.len());
    let ghost d = dc@.subrange(0, k as int);
    if k > pc.len() {
        assert(p@ != d);
        return false;
    }
    let mut i: usize = 0;
    while i < k
        invariant
            k <= dc@.len(),
            k <= pc@.len(),
            i <= k,
            pc@ == p@,
            dc@ == dir@,
            dir@.len() > 0,
            d == dc@.subrange(0, k as int),
            d == strip_trailing_separators(dir@),
            forall|j: int| 0 <= j < i ==> pc@[j] == dc@[j],
        decreases k - i,
    {
        if pc[i] != dc[i] {
            assert(d[i as int] == dc@[i as int]);
            assert(p@.subrange(0, k as int)[i as int] != d[i as int]);
            assert(p@.subrange(0, d.len() as int) != d);
            assert(p@ != d);
            return false;
        }
        i = i + 1;
    }
    assert(pc@.subrange(0, k as int) =~= d);
    if pc.len() == k {
        assert(p@ =~= d);
        return true;
    }
    is_sep_char(pc[k])
}


proof fn lemma_last_separator_no_sep_suffix(p: Seq<char>, suffix: Seq<char>)
    requires
        forall|i: int| 0 <= i < suffix.len() ==> !is_separator(#[trigger] suffix[i]),
    ensures
        last_separator(p + suffix) == last_separator(p),
    decreases suffix.len(),
{
    if suffix.len() > 0 {
        assert((p + suffix).drop_last() =~= p + suffix.drop_last());
        assert((p + suffix).last() == suffix[suffix.len() - 1]);
        lemma_last_separator_no_sep_suffix(p, suffix.drop_last());
    } else {
        assert(p + suffix =~= p);
    }
}

/// Joining a folder with a single name gives a path whose parent is that
/// folder: for a folder path without trailing separators or `.` components
/// that is not a bare drive, and a name that is one component (no separator,
/// not `.`).
pub proof fn lemma_join_parent(base: Seq<char>, name: Seq<char>)
    requires
        base.len() > 0,
        trim_back(base) == base,
        !is_bare_drive(base),
        name.len() > 0,
        name != seq!['.'],
        forall|i: int| 0 <= i < name.len() ==> !is_separator(#[trigger] name[i]),
    ensures
        parent_dir(join_path(base, name)) == Some(base),
{
    assert(!is_separator(base.last())) by {
        if is_separator(base.last()) {
            assert(trim_back(base) == trim_back(base.drop_last()));
            assert(trim_back(base.drop_last()).len() <= base.drop_last().len()) by {
                lemma_trim_back_len(base.drop_last());
            }
        }
    }
    let with_sep = base.push('\\');
    let q = join_path(base, name);
    assert(q =~= with_sep + name);
    lemma_last_separator_no_sep_suffix(with_sep, name);
    assert(with_sep.drop_last() =~= base);
    assert(last_separator(with_sep) == base.len());
    assert(q.last() == name[name.len() - 1]);
    if name.len() == 1 {
        assert(name =~= seq![name[0]]);
        assert(name[0] != '.');
    } else {
        assert(q[q.len() - 2] == name[name.len() - 2]);
    }
    assert(trim_back(q) == q);
    assert(q.subrange(0, base.len() as int) =~= base);
}

proof fn lemma_trim_back_len(p: Seq<char>)
    ensures
        trim_back(p).len() <= p.len(),
    decreases p.len(),
{
    if p.len() > 0 && (is_separator(p.last()) || (p.len() >= 2 && p.last() == '.' && is_separator(
        p[p.len() - 2],
    ))) {
        lemma_trim_back_len(p.drop_last());
    }
}

} // verus!
