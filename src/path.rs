use vstd::prelude::*;

verus! {

/// A path separator as stored in archive entry names.
pub open spec fn is_sep(c: char) -> bool {
    c == '/' || c == '\\'
}

/// The name names an absolute location.
pub open spec fn is_absolute(s: Seq<char>) -> bool {
    s.len() > 0 && is_sep(s[0])
}

/// A `..` segment starts at index `i` of `s`.
pub open spec fn dotdot_at(s: Seq<char>, i: int) -> bool {
    &&& 0 <= i
    &&& i + 2 <= s.len()
    &&& s[i] == '.'
    &&& s[i + 1] == '.'
    &&& (i == 0 || is_sep(s[i - 1]))
    &&& (i + 2 == s.len() || is_sep(s[i + 2]))
}

/// Some segment of `s` is the parent-directory marker `..`.
pub open spec fn has_parent_segment(s: Seq<char>) -> bool {
    exists|i: int| dotdot_at(s, i)
}

/// A stored name that may be materialised beneath the extraction root:
/// non-empty, relative, free of `..` segments and of NUL characters.
pub open spec fn safe_name(s: Seq<char>) -> bool {
    &&& s.len() > 0
    &&& !is_absolute(s)
    &&& !has_parent_segment(s)
    &&& !s.contains('\0')
}

/// A stored name that denotes a directory: it ends with a separator.
pub open spec fn dir_name(s: Seq<char>) -> bool {
    s.len() > 0 && is_sep(s.last())
}

/// The location of `rel` beneath `root`; the empty root is the working directory.
pub open spec fn dest_path(root: Seq<char>, rel: Seq<char>) -> Seq<char> {
    if root.len() == 0 {
        rel
    } else if is_sep(root.last()) {
        root + rel
    } else {
        root + seq!['/'] + rel
    }
}

/// Index of the last separator among the first `n` characters of `s`, or -1.
pub open spec fn last_sep_before(s: Seq<char>, n: int) -> int
    decreases n,
{
    if n <= 0 {
        -1
    } else if is_sep(s[n - 1]) {
        n - 1
    } else {
        last_sep_before(s, n - 1)
    }
}

/// The directory that holds `p`, when `p` names one before its last separator.
pub open spec fn parent_of(p: Seq<char>) -> Option<Seq<char>> {
    let k = last_sep_before(p, p.len() as int);
    if k > 0 {
        Some(p.take(k))
    } else {
        None
    }
}

proof fn lemma_last_sep_bounds(s: Seq<char>, n: int)
    requires
        0 <= n <= s.len(),
    ensures
        -1 <= last_sep_before(s, n) < n,
        last_sep_before(s, n) >= 0 ==> is_sep(s[last_sep_before(s, n)]),
    decreases n,
{
    if n > 0 && !is_sep(s[n - 1]) {
        lemma_last_sep_bounds(s, n - 1);
    }
}

fn sep_char(c: char) -> (r: bool)
    ensures
        r == is_sep(c),
{
    c == '/' || c == '\\'
}

fn dotdot_at_index(s: &str, n: usize, i: usize) -> (r: bool)
    requires
        n == s@.len(),
        i < n,
    ensures
        r == dotdot_at(s@, i as int),
{
    if n - i < 2 {
        return false;
    }
    if s.get_char(i) != '.' || s.get_char(i + 1) != '.' {
        return false;
    }
    let before = i == 0 || sep_char(s.get_char(i - 1));
    let after = i + 2 == n || sep_char(s.get_char(i + 2));
    before && after
}

/// Whether a stored entry name may be extracted: it is non-empty, not
/// absolute, holds no `..` segment and no NUL character.
pub fn is_safe_name(s: &str) -> (r: bool)
    ensures
        r == safe_name(s@),
{
    let n = s.unicode_len();
    if n == 0 || sep_char(s.get_char(0)) {
        return false;
    }
    let mut i: usize = 0;
    while i < n
        invariant
            n == s@.len(),
            i <= n,
            forall|j: int| 0 <= j < i ==> !dotdot_at(s@, j) && s@[j] != '\0',
        decreases n - i,
    {
        if dotdot_at_index(s, n, i) || s.get_char(i) == '\0' {
            assert(dotdot_at(s@, i as int) || s@[i as int] == '\0');
            return false;
        }
        i += 1;
    }
    assert forall|j: int| !dotdot_at(s@, j) by {
        if 0 <= j < n {
        }
    }
    true
}

/// Whether a stored entry name denotes a directory (ends with a separator).
pub fn is_dir_name(s: &str) -> (r: bool)
    ensures
        r == dir_name(s@),
{
    let n = s.unicode_len();
    n > 0 && sep_char(s.get_char(n - 1))
}

/// The path at which `rel` is materialised beneath `root`.
pub fn destination(root: &str, rel: &str) -> (r: String)
    ensures
        r@ == dest_path(root@, rel@),
{
    let n = root.unicode_len();
    if n == 0 {
        rel.to_owned()
    } else if sep_char(root.get_char(n - 1)) {
        root.to_owned().concat(rel)
    } else {
        let sep = "/";
        proof {
            reveal_strlit("/");
        }
        let joined = root.to_owned().concat(sep);
        assert(joined@ == root@ + seq!['/']);
        joined.concat(rel)
    }
}

/// The directory that must exist before `p` can be written, if `p` has one.
pub fn parent_dir(p: &str) -> (r: Option<String>)
    ensures
        r matches Some(d) ==> parent_of(p@) == Some(d@),
        r is None ==> parent_of(p@) is None,
{
    let n = p.unicode_len();
    let mut k: usize = n;
    while k > 0 && !sep_char(p.get_char(k - 1))
        invariant
            k <= n,
            n == p@.len(),
            last_sep_before(p@, n as int) == last_sep_before(p@, k as int),
        decreases k,
    {
        k -= 1;
    }
    if k > 1 {
        assert(last_sep_before(p@, n as int) == k - 1);
        Some(p.substring_char(0, k - 1).to_owned())
    } else {
        proof {
            lemma_last_sep_bounds(p@, n as int);
        }
        None
    }
}

} // verus!
