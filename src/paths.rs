//! Paths as text: joining, relative display, file names and the fixed set of
//! directory names that traversals never enter.
use vstd::prelude::*;

verus! {

/// The path is absolute: it starts at the root separator.
pub open spec fn is_absolute_path(p: Seq<char>) -> bool {
    p.len() > 0 && p[0] == '/'
}

/// `rel` resolved against `base`: an absolute `rel` replaces `base`, otherwise
/// it is appended after one separator.
pub open spec fn joined(base: Seq<char>, rel: Seq<char>) -> Seq<char> {
    if is_absolute_path(rel) || base.len() == 0 {
        rel
    } else if base.last() == '/' {
        base + rel
    } else {
        base + seq!['/'] + rel
    }
}

/// Where the rest of `p` from position `i` starts once leading separators
/// and `.` components are dropped.
pub open spec fn front_end(p: Seq<char>, i: int) -> int
    decreases p.len() - i,
{
    if i < 0 || i >= p.len() {
        p.len() as int
    } else if p[i] == '/' {
        front_end(p, i + 1)
    } else if p[i] == '.' && i + 1 == p.len() {
        p.len() as int
    } else if p[i] == '.' && p[i + 1] == '/' {
        front_end(p, i + 2)
    } else {
        i
    }
}

/// Where `p[lo..j]` ends once trailing separators and `.` components are
/// dropped.
pub open spec fn back_end(p: Seq<char>, lo: int, j: int) -> int
    decreases j - lo,
{
    if j <= lo {
        lo
    } else if p[j - 1] == '/' {
        back_end(p, lo, j - 1)
    } else if p[j - 1] == '.' && j - 1 == lo {
        lo
    } else if p[j - 1] == '.' && j - 2 >= lo && p[j - 2] == '/' {
        back_end(p, lo, j - 2)
    } else {
        j
    }
}

/// The rest of `p` from position `k`, without leading or trailing separators
/// and `.` components.
pub open spec fn trimmed_from(p: Seq<char>, k: int) -> Seq<char> {
    let f = front_end(p, k);
    p.subrange(f, back_end(p, f, p.len() as int))
}

/// The first separator of `p` at or after `i`, or the end of `p`.
pub open spec fn sep_after(p: Seq<char>, i: int) -> int
    decreases p.len() - i,
{
    if i < 0 || i >= p.len() {
        p.len() as int
    } else if p[i] == '/' {
        i
    } else {
        sep_after(p, i + 1)
    }
}

/// Where the next component of `p` starts from position `i`: separators and
/// `.` components are skipped, except that a path opens with its root (`/`)
/// or with a leading `.` as a component of its own. The end of `p` when no
/// component is left.
pub open spec fn comp_start(p: Seq<char>, i: int) -> int
    decreases p.len() - i,
{
    if i < 0 || i >= p.len() {
        p.len() as int
    } else if i == 0 && p[0] == '/' {
        0
    } else if i == 0 && p[0] == '.' && (p.len() == 1 || p[1] == '/') {
        0
    } else if p[i] == '/' {
        comp_start(p, i + 1)
    } else if p[i] == '.' && (i + 1 == p.len() || p[i + 1] == '/') {
        comp_start(p, i + 1)
    } else {
        i
    }
}

/// Where the component of `p` that starts at `s` ends: just after the root,
/// else at the next separator.
pub open spec fn comp_end(p: Seq<char>, s: int) -> int {
    if s == 0 && p.len() > 0 && p[0] == '/' {
        1
    } else {
        sep_after(p, s)
    }
}

/// Matching the components of `root` from position `j` against those of `p`
/// from position `i`, one by one: where the components of `root` run out,
/// the position in `p` reached; none where they differ or `p` runs out first.
pub open spec fn match_from(p: Seq<char>, i: int, root: Seq<char>, j: int) -> Option<int>
    decreases root.len() - j,
{
    let rs = comp_start(root, j);
    if rs >= root.len() {
        Some(i)
    } else {
        let re = comp_end(root, rs);
        let ps = comp_start(p, i);
        if ps >= p.len() {
            None
        } else {
            let pe = comp_end(p, ps);
            if re <= j || re > root.len() || pe <= i || pe > p.len() || p.subrange(ps, pe)
                != root.subrange(rs, re) {
                None
            } else {
                match_from(p, pe, root, re)
            }
        }
    }
}

/// Where `p` is `root` or lies below it, compared component by component,
/// the part of `p` after the components of `root`, without leading or
/// trailing separators and `.` components (empty when `p` is `root` itself);
/// all of `p` when `root` has no component.
pub open spec fn relative_to(p: Seq<char>, root: Seq<char>) -> Option<Seq<char>> {
    match match_from(p, 0, root, 0) {
        Some(i) => if i == 0 {
            Some(p)
        } else {
            Some(trimmed_from(p, i))
        },
        None => None,
    }
}

/// The name shown for `p` in rendered output: its part below `root` when it
/// lies strictly below `root`, the whole path otherwise.
pub open spec fn display_of(p: Seq<char>, root: Seq<char>) -> Seq<char> {
    match relative_to(p, root) {
        Some(rel) => if rel.len() > 0 {
            rel
        } else {
            p
        },
        None => p,
    }
}

/// `rel` has exactly one component.
pub open spec fn single_component(rel: Seq<char>) -> bool {
    let s = comp_start(rel, 0);
    s < rel.len() && comp_start(rel, comp_end(rel, s)) >= rel.len()
}

/// `p` sits immediately inside `base`, with no directory in between: its
/// part below `base` is one component.
pub open spec fn is_direct_child_of(base: Seq<char>, p: Seq<char>) -> bool {
    match relative_to(p, base) {
        Some(rel) => single_component(rel),
        None => false,
    }
}

/// Position just after the last separator of `p` (0 when there is none).
pub open spec fn name_start(p: Seq<char>, n: int) -> int
    decreases n,
{
    if n <= 0 {
        0
    } else if p[n - 1] == '/' {
        n
    } else {
        name_start(p, n - 1)
    }
}

/// Where `p` ends once trailing separators and `.` components are dropped.
pub open spec fn name_end(p: Seq<char>) -> int {
    back_end(p, 0, p.len() as int)
}

/// The last component of `p`, trailing separators and `.` components aside.
pub open spec fn file_name_of(p: Seq<char>) -> Seq<char> {
    p.subrange(name_start(p, name_end(p)), name_end(p))
}

pub open spec fn ascii_lower(c: char) -> char {
    if 'A' <= c && c <= 'Z' {
        ((c as u32) + 32) as char
    } else {
        c
    }
}

pub open spec fn readme_word() -> Seq<char> {
    seq!['r', 'e', 'a', 'd', 'm', 'e']
}

/// The file name, lower-cased, begins with `readme`.
pub open spec fn is_readme_path(p: Seq<char>) -> bool {
    let name = file_name_of(p);
    name.len() >= 6 && forall|i: int| 0 <= i < 6 ==> ascii_lower(#[trigger] name[i]) == readme_word()[i]
}

/// Names of the directories that no traversal enters: version-control
/// metadata, build output and the dependency cache.
pub open spec fn is_ignored_name(n: Seq<char>) -> bool {
    n == seq!['.', 'g', 'i', 't'] || n == seq!['t', 'a', 'r', 'g', 'e', 't'] || n == seq![
        'n',
        'o',
        'd',
        'e',
        '_',
        'm',
        'o',
        'd',
        'u',
        'l',
        'e',
        's',
    ]
}

/// `rel[i..j]` is a whole directory component of `rel`: it starts the path or
/// follows a separator, and a separator follows it.
pub open spec fn is_dir_component(rel: Seq<char>, i: int, j: int) -> bool {
    0 <= i <= j < rel.len() && (i == 0 || rel[i - 1] == '/') && rel[j] == '/'
}

/// Some directory on the relative path `rel` has an ignored name.
pub open spec fn crosses_ignored_dir(rel: Seq<char>) -> bool {
    exists|i: int, j: int| is_dir_component(rel, i, j) && #[trigger] is_ignored_name(rel.subrange(i, j))
}

/// `p` lies inside an ignored directory below `base`.
pub open spec fn in_ignored_dir(base: Seq<char>, p: Seq<char>) -> bool {
    match relative_to(p, base) {
        Some(rel) => crosses_ignored_dir(rel),
        None => false,
    }
}

/// The views of a list of owned strings.
pub open spec fn views(v: Seq<String>) -> Seq<Seq<char>> {
    v.map_values(|s: String| s@)
}


/// An ignored name holds no separator.
pub proof fn lemma_ignored_name_has_no_separator(n: Seq<char>, k: int)
    requires
        is_ignored_name(n),
        0 <= k < n.len(),
    ensures
        n[k] != '/',
{
}

/// Whether `p` starts with the characters of `prefix`.
pub fn starts_with_text(p: &str, prefix: &str) -> (r: bool)
    ensures
        r == prefix@.is_prefix_of(p@),
{
    let n = prefix.unicode_len();
    let m = p.unicode_len();
    if n > m {
        return false;
    }
    let mut i: usize = 0;
    while i < n
        invariant
            n == prefix@.len(),
            m == p@.len(),
            n <= m,
            i <= n,
            forall|k: int| 0 <= k < i ==> prefix@[k] == p@[k],
        decreases n - i,
    {
        if prefix.get_char(i) != p.get_char(i) {
            return false;
        }
        i += 1;
    }
    assert(prefix@ =~= p@.subrange(0, n as int));
    true
}

/// Whether two texts hold the same characters.
pub fn same_text(a: &str, b: &str) -> (r: bool)
    ensures
        r == (a@ == b@),
{
    let same = a.unicode_len() == b.unicode_len() && starts_with_text(a, b);
    if same {
        assert(a@ =~= b@);
    }
    same
}

/// Whether `p` is an absolute path.
pub fn is_absolute(p: &str) -> (r: bool)
    ensures
        r == is_absolute_path(p@),
{
    p.unicode_len() > 0 && p.get_char(0) == '/'
}

/// `rel` resolved against `base`: an absolute `rel` as it is, another after
/// `base` and one separator.
pub fn join_path(base: &str, rel: &str) -> (r: String)
    ensures
        r@ == joined(base@, rel@),
{
    let n = base.unicode_len();
    if is_absolute(rel) || n == 0 {
        return rel.to_owned();
    }
    let mut out = base.to_owned();
    if base.get_char(n - 1) != '/' {
        let sep = "/";
        proof {
            reveal_strlit("/");
        }
        out.append(sep);
    }
    out.append(rel);
    proof {
        assert(base@.last() == base@[n - 1]);
    }
    out
}

/// Where the rest of `p` from `k` starts without leading separators and `.`
/// components.
fn front_end_at(p: &str, k: usize) -> (r: usize)
    requires
        k <= p@.len(),
    ensures
        r as int == front_end(p@, k as int),
        k <= r <= p@.len(),
{
    let n = p.unicode_len();
    let mut i: usize = k;
    while i < n
        invariant
            n == p@.len(),
            k <= i <= n,
            front_end(p@, k as int) == front_end(p@, i as int),
        decreases n - i,
    {
        let c = p.get_char(i);
        if c == '/' {
            i += 1;
        } else if c == '.' {
            if i + 1 == n {
                return n;
            } else if p.get_char(i + 1) == '/' {
                i += 2;
            } else {
                return i;
            }
        } else {
            return i;
        }
    }
    n
}

/// Where `p[lo..j]` ends without trailing separators and `.` components.
fn back_end_at(p: &str, lo: usize, j: usize) -> (r: usize)
    requires
        lo <= j <= p@.len(),
    ensures
        r as int == back_end(p@, lo as int, j as int),
        lo <= r <= j,
{
    let mut e: usize = j;
    while e > lo
        invariant
            lo <= e <= j <= p@.len(),
            back_end(p@, lo as int, j as int) == back_end(p@, lo as int, e as int),
        decreases e,
    {
        let c = p.get_char(e - 1);
        if c == '/' {
            e -= 1;
        } else if c == '.' {
            if e - 1 == lo {
                return lo;
            } else if p.get_char(e - 2) == '/' {
                e -= 2;
            } else {
                return e;
            }
        } else {
            return e;
        }
    }
    lo
}

/// The rest of `p` from `k`, without leading or trailing separators and `.`
/// components.
fn trimmed_text(p: &str, k: usize) -> (r: String)
    requires
        k <= p@.len(),
    ensures
        r@ == trimmed_from(p@, k as int),
{
    let f = front_end_at(p, k);
    let e = back_end_at(p, f, p.unicode_len());
    p.substring_char(f, e).to_owned()
}

/// The first separator of `p` at or after `i`, or the end of `p`.
fn sep_after_at(p: &str, i: usize) -> (r: usize)
    requires
        i <= p@.len(),
    ensures
        r as int == sep_after(p@, i as int),
        i <= r <= p@.len(),
        r < p@.len() ==> p@[r as int] == '/',
{
    let n = p.unicode_len();
    let mut k: usize = i;
    while k < n
        invariant
            n == p@.len(),
            i <= k <= n,
            sep_after(p@, i as int) == sep_after(p@, k as int),
        decreases n - k,
    {
        if p.get_char(k) == '/' {
            return k;
        }
        k += 1;
    }
    n
}

/// Where the next component of `p` starts from position `i`.
fn comp_start_at(p: &str, i: usize) -> (r: usize)
    requires
        i <= p@.len(),
    ensures
        r as int == comp_start(p@, i as int),
        i <= r <= p@.len(),
        r < p@.len() ==> r == 0 || p@[r as int] != '/',
{
    let n = p.unicode_len();
    if i == 0 && n > 0 {
        let c = p.get_char(0);
        if c == '/' || (c == '.' && (n == 1 || p.get_char(1) == '/')) {
            return 0;
        }
    }
    let mut k: usize = i;
    while k < n
        invariant
            n == p@.len(),
            i <= k <= n,
            comp_start(p@, i as int) == comp_start(p@, k as int),
            k == 0 && n > 0 ==> !(p@[0] == '/' || (p@[0] == '.' && (n == 1 || p@[1] == '/'))),
        decreases n - k,
    {
        let c = p.get_char(k);
        if c == '/' {
            k += 1;
        } else if c == '.' && (k + 1 == n || p.get_char(k + 1) == '/') {
            k += 1;
        } else {
            return k;
        }
    }
    n
}

/// Where the component of `p` that starts at `s` ends.
fn comp_end_at(p: &str, s: usize) -> (r: usize)
    requires
        s < p@.len(),
        s == 0 || p@[s as int] != '/',
    ensures
        r as int == comp_end(p@, s as int),
        s < r <= p@.len(),
{
    if s == 0 && p.get_char(0) == '/' {
        return 1;
    }
    sep_after_at(p, s)
}

/// Whether `p[ps..pe]` and `q[qs..qe]` hold the same characters.
fn same_range(p: &str, ps: usize, pe: usize, q: &str, qs: usize, qe: usize) -> (r: bool)
    requires
        ps <= pe <= p@.len(),
        qs <= qe <= q@.len(),
    ensures
        r == (p@.subrange(ps as int, pe as int) == q@.subrange(qs as int, qe as int)),
{
    if pe - ps != qe - qs {
        assert(p@.subrange(ps as int, pe as int).len() != q@.subrange(qs as int, qe as int).len());
        return false;
    }
    let mut k: usize = 0;
    while k < pe - ps
        invariant
            ps <= pe <= p@.len(),
            qs <= qe <= q@.len(),
            pe - ps == qe - qs,
            k <= pe - ps,
            forall|t: int| 0 <= t < k ==> #[trigger] p@[ps + t] == q@[qs + t],
        decreases pe - ps - k,
    {
        if p.get_char(ps + k) != q.get_char(qs + k) {
            assert(p@.subrange(ps as int, pe as int)[k as int] == p@[ps + k]);
            assert(q@.subrange(qs as int, qe as int)[k as int] == q@[qs + k]);
            assert(p@.subrange(ps as int, pe as int)[k as int] != q@.subrange(qs as int, qe as int)[k as int]);
            return false;
        }
        k += 1;
    }
    assert forall|t: int| 0 <= t < pe - ps implies p@.subrange(ps as int, pe as int)[t] == q@.subrange(
        qs as int,
        qe as int,
    )[t] by {
        assert(p@[ps + t] == q@[qs + t]);
    }
    assert(p@.subrange(ps as int, pe as int) =~= q@.subrange(qs as int, qe as int));
    true
}

/// The part of `p` below `root`, compared component by component: none
/// where `p` does not lie at or below `root`.
pub fn relative_path(p: &str, root: &str) -> (r: Option<String>)
    ensures
        match r {
            Some(s) => relative_to(p@, root@) == Some(s@),
            None => relative_to(p@, root@) is None,
        },
{
    let m = p.unicode_len();
    let n = root.unicode_len();
    let mut i: usize = 0;
    let mut j: usize = 0;
    while j < n
        invariant
            m == p@.len(),
            n == root@.len(),
            i <= m,
            j <= n,
            match_from(p@, 0, root@, 0) == match_from(p@, i as int, root@, j as int),
        ensures
            i <= m,
            comp_start(root@, j as int) >= root@.len(),
            match_from(p@, 0, root@, 0) == match_from(p@, i as int, root@, j as int),
        decreases n - j,
    {
        let rs = comp_start_at(root, j);
        if rs == n {
            break;
        }
        let re = comp_end_at(root, rs);
        let ps = comp_start_at(p, i);
        if ps == m {
            return None;
        }
        let pe = comp_end_at(p, ps);
        if !same_range(p, ps, pe, root, rs, re) {
            return None;
        }
        i = pe;
        j = re;
    }
    if i == 0 {
        return Some(p.to_owned());
    }
    Some(trimmed_text(p, i))
}

/// The name shown for `path` in rendered output.
pub fn display_path(path: &str, root: &str) -> (r: String)
    ensures
        r@ == display_of(path@, root@),
{
    match relative_path(path, root) {
        Some(rel) => {
            if rel.unicode_len() > 0 {
                rel
            } else {
                path.to_owned()
            }
        },
        None => path.to_owned(),
    }
}

/// Whether `path` lies immediately inside `base`.
pub fn is_direct_child(base: &str, path: &str) -> (r: bool)
    ensures
        r == is_direct_child_of(base@, path@),
{
    match relative_path(path, base) {
        Some(rel) => {
            let text = rel.as_str();
            let m = text.unicode_len();
            let s = comp_start_at(text, 0);
            if s == m {
                return false;
            }
            let e = comp_end_at(text, s);
            comp_start_at(text, e) == m
        },
        None => false,
    }
}

/// Where the component of `p` that ends at `e` starts.
fn name_start_before(p: &str, e: usize) -> (k: usize)
    requires
        e <= p@.len(),
    ensures
        k as int == name_start(p@, e as int),
        k <= e,
{
    let mut k: usize = e;
    while k > 0
        invariant
            e <= p@.len(),
            k <= e,
            name_start(p@, e as int) == name_start(p@, k as int),
        decreases k,
    {
        if p.get_char(k - 1) == '/' {
            return k;
        }
        k -= 1;
    }
    0
}

/// `c` lower-cased in ASCII is the lower-case letter `t`.
fn lowers_to(c: char, t: char) -> (r: bool)
    requires
        'a' <= t <= 'z',
    ensures
        r == (ascii_lower(c) == t),
{
    c == t || ('A' <= c && c <= 'Z' && (c as u32) + 32 == (t as u32))
}

/// Whether the file name of `path`, lower-cased, begins with `readme`.
pub fn is_readme(path: &str) -> (r: bool)
    ensures
        r == is_readme_path(path@),
{
    let m = path.unicode_len();
    let e = back_end_at(path, 0, m);
    let k = name_start_before(path, e);
    let ghost name = file_name_of(path@);
    assert(name =~= path@.subrange(k as int, e as int));
    if e - k < 6 {
        return false;
    }
    let word = "readme";
    proof {
        reveal_strlit("readme");
        assert(word@ =~= readme_word());
    }
    let mut i: usize = 0;
    while i < 6
        invariant
            m == path@.len(),
            k + 6 <= e <= m,
            name == path@.subrange(k as int, e as int),
            name == file_name_of(path@),
            word@ == readme_word(),
            i <= 6,
            forall|j: int| 0 <= j < i ==> ascii_lower(#[trigger] name[j]) == readme_word()[j],
        decreases 6 - i,
    {
        let c = path.get_char(k + i);
        let t = word.get_char(i);
        if !lowers_to(c, t) {
            assert(name[i as int] == c);
            assert(t == readme_word()[i as int]);
            assert(ascii_lower(name[i as int]) != readme_word()[i as int]);
            return false;
        }
        i += 1;
    }
    true
}

/// Whether `name` is one of the directory names that traversals skip.
pub fn is_ignored_dir_name(name: &str) -> (r: bool)
    ensures
        r == is_ignored_name(name@),
{
    let git = ".git";
    let target = "target";
    let modules = "node_modules";
    proof {
        reveal_strlit(".git");
        reveal_strlit("target");
        reveal_strlit("node_modules");
        assert(git@ =~= seq!['.', 'g', 'i', 't']);
        assert(target@ =~= seq!['t', 'a', 'r', 'g', 'e', 't']);
        assert(modules@ =~= seq!['n', 'o', 'd', 'e', '_', 'm', 'o', 'd', 'u', 'l', 'e', 's']);
    }
    same_text(name, git) || same_text(name, target) || same_text(name, modules)
}

/// Whether some directory on the relative path `rel` has an ignored name.
pub fn crosses_ignored(rel: &str) -> (r: bool)
    ensures
        r == crosses_ignored_dir(rel@),
{
    let m = rel.unicode_len();
    let mut start: usize = 0;
    let mut j: usize = 0;
    while j < m
        invariant
            m == rel@.len(),
            start <= j <= m,
            start == 0 || rel@[start - 1] == '/',
            forall|k: int| start <= k < j ==> rel@[k] != '/',
            forall|a: int, b: int|
                is_dir_component(rel@, a, b) && b < j ==> !#[trigger] is_ignored_name(
                    rel@.subrange(a, b),
                ),
        decreases m - j,
    {
        if rel.get_char(j) == '/' {
            let seg = rel.substring_char(start, j);
            if is_ignored_dir_name(seg) {
                assert(is_dir_component(rel@, start as int, j as int));
                return true;
            }
            assert forall|a: int, b: int|
                is_dir_component(rel@, a, b) && b <= j implies !#[trigger] is_ignored_name(
                    rel@.subrange(a, b),
                ) by {
                if b == j && a != start {
                    if a < start {
                        if is_ignored_name(rel@.subrange(a, b)) {
                            assert(rel@.subrange(a, b)[start - 1 - a] == '/');
                            lemma_ignored_name_has_no_separator(
                                rel@.subrange(a, b),
                                start - 1 - a,
                            );
                        }
                    } else {
                        assert(rel@[a - 1] == '/');
                    }
                }
            }
            start = j + 1;
        }
        j += 1;
    }
    proof {
        assert forall|a: int, b: int| is_dir_component(rel@, a, b) implies !#[trigger] is_ignored_name(
            rel@.subrange(a, b),
        ) by {}
    }
    false
}

/// Whether `path` lies inside an ignored directory below `base`.
pub fn is_in_ignored_dir(base: &str, path: &str) -> (r: bool)
    ensures
        r == in_ignored_dir(base@, path@),
{
    match relative_path(path, base) {
        Some(rel) => crosses_ignored(rel.as_str()),
        None => false,
    }
}


/// The directory that holds `p`: the text before its last separator (the
/// root for a top-level entry, empty for a bare name), none for the root or
/// an empty path.
pub open spec fn parent_of(p: Seq<char>) -> Option<Seq<char>> {
    let k = name_start(p, p.len() as int);
    if p.len() == 0 || p == seq!['/'] {
        None
    } else if k == 0 {
        Some(Seq::empty())
    } else if k == 1 {
        Some(seq!['/'])
    } else {
        Some(p.subrange(0, k - 1))
    }
}

/// The directory that holds `p`.
pub fn parent_path(p: &str) -> (r: Option<String>)
    ensures
        match r {
            Some(s) => parent_of(p@) == Some(s@),
            None => parent_of(p@) is None,
        },
{
    let m = p.unicode_len();
    if m == 0 {
        return None;
    }
    let root = "/";
    proof {
        reveal_strlit("/");
    }
    if same_text(p, root) {
        assert(p@ =~= seq!['/']);
        return None;
    }
    assert(p@ != seq!['/']) by {
        assert(root@ =~= seq!['/']);
    }
    let k = name_start_before(p, m);
    if k == 0 {
        return Some(String::new());
    }
    if k == 1 {
        assert(root@ =~= seq!['/']);
        return Some(root.to_owned());
    }
    Some(p.substring_char(0, k - 1).to_owned())
}

} // verus!
